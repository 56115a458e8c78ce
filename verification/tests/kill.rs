//! The `kill` command.

use freeoxide_tunnel::clock::{now_utc, Timestamp};
use freeoxide_tunnel::cmd::kill::{
    background_outcome, foreground_outcome, foreground_signals, is_tunnel_ours, no_match_message,
    plan_kill, signals_group, still_starting_message, teardown_kind, KillPlan, TeardownKind,
};
use freeoxide_tunnel::model::{Registry, Service, ServiceKind, StaticFlags, START_GRACE};
use freeoxide_tunnel::proc::{Identity, Signal};

fn svc(foreground: bool) -> Service {
    Service {
        id: 1,
        name: "x".to_string(),
        kind: ServiceKind::Static,
        dir: Some("/tmp".to_string()),
        port: 8000,
        local_url: "http://127.0.0.1:8000".to_string(),
        public_url: None,
        worker_pid: 12345,
        tunnel_pid: None,
        command_pid: None,
        static_flags: StaticFlags::default(),
        created_at: now_utc(),
        state_dir: "/tmp".to_string(),
        foreground,
    }
}

fn reg_with(svc: Service) -> Registry {
    let mut reg = Registry::default();
    reg.services.push(svc);
    reg
}

#[test]
fn foreground_service_is_never_group_signalled() {
    assert!(matches!(teardown_kind(&svc(true)), TeardownKind::ForegroundDirect));
}

#[test]
fn background_service_is_group_signalled() {
    assert!(matches!(teardown_kind(&svc(false)), TeardownKind::BackgroundGroup));
}

#[test]
fn starting_entry_is_left_in_place_inside_the_grace_window() {
    let mut s = svc(false);
    s.worker_pid = 0;
    let mut reg = reg_with(s);
    assert!(matches!(plan_kill(&mut reg, "x", now_utc()), Some(KillPlan::Starting(_))));
    assert_eq!(reg.services.len(), 1, "the reserved entry must survive");
}

#[test]
fn abandoned_reservation_is_removed_once_grace_expires() {
    let mut s = svc(false);
    s.worker_pid = 0;
    let now = now_utc();
    s.created_at = Timestamp { secs: now.secs - (START_GRACE as i64 + 1), nanos: now.nanos };
    let mut reg = reg_with(s);
    assert!(matches!(plan_kill(&mut reg, "x", now), Some(KillPlan::Remove(_))));
    assert!(reg.services.is_empty());
}

#[test]
fn recorded_entry_is_removed_immediately() {
    let mut reg = reg_with(svc(false));
    assert!(matches!(plan_kill(&mut reg, "x", now_utc()), Some(KillPlan::Remove(_))));
    assert!(reg.services.is_empty());
}

#[test]
fn unknown_target_reports_not_found() {
    let mut reg = reg_with(svc(false));
    assert!(plan_kill(&mut reg, "nope", now_utc()).is_none());
}

#[test]
fn only_the_named_service_goes() {
    let mut reg = reg_with(svc(false));
    let mut second = svc(false);
    second.id = 2;
    second.name = "y".to_string();
    reg.services.push(second);
    match plan_kill(&mut reg, "2", now_utc()) {
        Some(KillPlan::Remove(s)) => assert_eq!(s.name, "y"),
        other => panic!("{other:?}"),
    }
    assert_eq!(reg.services.len(), 1);
    assert_eq!(reg.services[0].name, "x");
}

#[test]
fn what_is_told() {
    assert_eq!(no_match_message("web"), "no service matches 'web'");
    assert_eq!(
        still_starting_message("web"),
        "service 'web' is still starting; try again in a few seconds once its worker pid is recorded"
    );
    assert_eq!(background_outcome("web", true, false, false), "Stopped web.");
    assert_eq!(
        background_outcome("web", true, false, true),
        "Sent kill signal to web (a process may still be exiting)."
    );
    assert_eq!(
        background_outcome("web", true, true, false),
        "Sent kill signal to web (a process may still be exiting)."
    );
    assert_eq!(background_outcome("web", false, true, true), "Removed stale service web.");
    assert_eq!(foreground_outcome("web", true), "Stopped web.");
    assert_eq!(foreground_outcome("web", false), "Removed stale service web.");
}

fn cmdline(args: &str) -> Identity {
    Identity::Cmdline(Some(args.replace(' ', "\0").into_bytes()))
}

#[test]
fn a_group_is_signalled_only_for_a_member_of_ours() {
    let stranger = cmdline("/bin/sh -c sleep");
    let worker = cmdline("ft run-worker --id 1");
    let tunnel = cmdline("cloudflared tunnel");
    let mut s = svc(false);
    s.tunnel_pid = Some(77);
    assert_eq!(signals_group(&s, &worker, &stranger), Some(12345));
    assert_eq!(signals_group(&s, &stranger, &tunnel), Some(12345));
    assert_eq!(signals_group(&s, &stranger, &stranger), None);
    s.tunnel_pid = None;
    assert_eq!(signals_group(&s, &stranger, &tunnel), None, "no tunnel is recorded");
    assert!(!is_tunnel_ours(&s, &tunnel));
}

#[test]
fn a_foreground_service_is_signalled_by_its_pids() {
    let stranger = cmdline("/bin/sh -c sleep");
    let worker = cmdline("ft ./site --foreground");
    let tunnel = cmdline("cloudflared tunnel");
    let mut s = svc(true);
    s.tunnel_pid = Some(77);
    assert_eq!(
        foreground_signals(&s, &worker, &tunnel),
        vec![Signal::Term(12345), Signal::Term(77)]
    );
    assert_eq!(foreground_signals(&s, &stranger, &tunnel), vec![Signal::Term(77)]);
    assert_eq!(foreground_signals(&s, &worker, &stranger), vec![Signal::Term(12345)]);
    assert!(foreground_signals(&s, &stranger, &stranger).is_empty());
}

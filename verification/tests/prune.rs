//! The `prune` command.

use freeoxide_tunnel::clock::{now_utc, Timestamp};
use freeoxide_tunnel::cmd::prune::{classify, is_stale, report_text, ServiceProbe};
use freeoxide_tunnel::model::{Registry, Service, ServiceKind, StaticFlags, START_GRACE};
use freeoxide_tunnel::proc::Identity;

fn dummy_service(id: u64, name: &str) -> Service {
    Service {
        id,
        name: name.to_string(),
        kind: ServiceKind::Static,
        dir: Some("/tmp/dir".to_string()),
        port: 1234,
        local_url: "http://127.0.0.1:1234".to_string(),
        public_url: None,
        worker_pid: 0,
        tunnel_pid: None,
        command_pid: None,
        static_flags: StaticFlags::default(),
        created_at: now_utc(),
        state_dir: "/tmp/state".to_string(),
        foreground: false,
    }
}

const SELF_PID: u32 = 4711;

fn args(parts: &[&str]) -> Identity {
    let mut bytes = Vec::new();
    for p in parts {
        bytes.extend_from_slice(p.as_bytes());
        bytes.push(0);
    }
    Identity::Cmdline(Some(bytes))
}

/// A live process that has nothing of `ft` in its command line, and no tunnel.
fn stranger() -> ServiceProbe {
    ServiceProbe { worker: args(&["/target/debug/deps/prune"]), tunnel: Identity::Cmdline(None) }
}

fn nobody() -> ServiceProbe {
    ServiceProbe { worker: Identity::Cmdline(None), tunnel: Identity::Cmdline(None) }
}

#[test]
fn starting_entry_worker_pid_zero_is_kept() {
    let mut reg = Registry::default();
    reg.services.push(dummy_service(1, "starting"));
    let rec = classify(&mut reg, &vec![nobody()], now_utc());
    assert!(rec.stale_names.is_empty());
    assert!(rec.orphans_to_reap.is_empty());
    assert_eq!(reg.services.len(), 1);
    assert_eq!(reg.services[0].name, "starting");
}

#[test]
fn abandoned_reservation_past_grace_is_pruned() {
    let mut reg = Registry::default();
    let mut s = dummy_service(1, "leftover");
    let now = now_utc();
    s.created_at = Timestamp { secs: now.secs - (START_GRACE as i64 + 1), nanos: now.nanos };
    reg.services.push(s);
    let rec = classify(&mut reg, &vec![nobody()], now);
    assert_eq!(rec.stale_names, vec!["leftover".to_string()]);
    assert!(rec.orphans_to_reap.is_empty());
    assert!(reg.services.is_empty());
}

#[test]
fn background_self_pid_without_run_worker_is_stale() {
    let mut reg = Registry::default();
    let mut s = dummy_service(1, "bg");
    s.worker_pid = SELF_PID;
    reg.services.push(s);
    let rec = classify(&mut reg, &vec![stranger()], now_utc());
    assert_eq!(rec.stale_names, vec!["bg".to_string()]);
    assert!(reg.services.is_empty());
}

#[test]
fn background_with_foreign_tunnel_pid_is_not_reaped() {
    let mut reg = Registry::default();
    let mut s = dummy_service(1, "bg-orphan");
    s.worker_pid = SELF_PID;
    s.tunnel_pid = Some(4_242_424);
    reg.services.push(s);
    let rec = classify(&mut reg, &vec![stranger()], now_utc());
    assert_eq!(rec.stale_names, vec!["bg-orphan".to_string()]);
    assert!(rec.orphans_to_reap.is_empty());
}

#[test]
fn a_tunnel_that_outlived_its_worker_is_reaped() {
    let mut reg = Registry::default();
    let mut s = dummy_service(1, "bg-orphan");
    s.worker_pid = SELF_PID;
    s.tunnel_pid = Some(99);
    reg.services.push(s);
    let probe = ServiceProbe {
        worker: Identity::Cmdline(None),
        tunnel: args(&["/usr/bin/cloudflared", "tunnel"]),
    };
    let rec = classify(&mut reg, &vec![probe], now_utc());
    assert_eq!(rec.orphans_to_reap, vec![99]);
}

#[test]
fn foreground_self_pid_without_flag_is_stale() {
    let mut reg = Registry::default();
    let mut s = dummy_service(1, "fg");
    s.foreground = true;
    s.worker_pid = SELF_PID;
    reg.services.push(s);
    let rec = classify(&mut reg, &vec![stranger()], now_utc());
    assert_eq!(rec.stale_names, vec!["fg".to_string()]);
}

#[test]
fn foreground_dead_pid_is_stale() {
    let mut reg = Registry::default();
    let mut s = dummy_service(1, "fg-dead");
    s.foreground = true;
    s.worker_pid = 999_999;
    reg.services.push(s);
    let rec = classify(&mut reg, &vec![nobody()], now_utc());
    assert_eq!(rec.stale_names, vec!["fg-dead".to_string()]);
}

#[test]
fn mixed_registry_reconciles_to_right_keep_set() {
    let mut reg = Registry::default();
    reg.services.push(dummy_service(1, "starting"));
    let mut s2 = dummy_service(2, "starting-2");
    s2.worker_pid = 0;
    reg.services.push(s2);
    let mut s3 = dummy_service(3, "bg-stale");
    s3.worker_pid = SELF_PID;
    reg.services.push(s3);
    let mut s4 = dummy_service(4, "fg-stale");
    s4.foreground = true;
    s4.worker_pid = 999_999;
    reg.services.push(s4);

    let rec = classify(&mut reg, &vec![nobody(), nobody(), stranger(), nobody()], now_utc());

    let kept: Vec<&str> = reg.services.iter().map(|s| s.name.as_str()).collect();
    assert_eq!(kept, vec!["starting", "starting-2"]);
    let mut stale = rec.stale_names.clone();
    stale.sort();
    assert_eq!(stale, vec!["bg-stale".to_string(), "fg-stale".to_string()]);
}

#[test]
fn live_workers_are_kept() {
    let mut background = dummy_service(1, "bg");
    background.worker_pid = 5;
    assert!(!is_stale(&background, &args(&["ft", "run-worker", "--id", "1"]), now_utc()));
    let mut foreground = dummy_service(2, "fg");
    foreground.worker_pid = 6;
    foreground.foreground = true;
    assert!(!is_stale(&foreground, &args(&["ft", ".", "--foreground"]), now_utc()));
}

#[test]
fn the_report_lists_what_went() {
    assert_eq!(report_text(&vec![]), "No stale services.\n");
    assert_eq!(
        report_text(&vec!["a".to_string(), "b".to_string()]),
        "Pruned 2 stale service(s):\n  - a\n  - b\n"
    );
}

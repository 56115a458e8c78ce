//! The `sanitize` command.

use freeoxide_tunnel::clock::{now_utc, Timestamp};
use freeoxide_tunnel::cmd::sanitize::{
    apply, dead_after_double_probe, judge, plan, probes_port, removal_effect, removal_reason,
    stale_reason, worker_alive, Action, Effect, Evidence, Judgment, ZombieReason,
};
use freeoxide_tunnel::model::{Registry, Service, ServiceKind, StaticFlags, START_GRACE};
use freeoxide_tunnel::proc::{Identity, Signal};

fn service(kind: ServiceKind, foreground: bool) -> Service {
    Service {
        id: 1,
        name: "alpha".to_string(),
        kind,
        dir: if kind == ServiceKind::Static { Some("/tmp/dir".to_string()) } else { None },
        port: 3000,
        local_url: "http://127.0.0.1:3000".to_string(),
        public_url: Some("https://x.trycloudflare.com".to_string()),
        worker_pid: 123_456,
        tunnel_pid: None,
        command_pid: None,
        static_flags: StaticFlags::default(),
        created_at: now_utc(),
        state_dir: "/tmp/state".to_string(),
        foreground,
    }
}

/// A process that runs, with neither `--foreground` nor `run-worker` in its command
/// line.
fn stranger() -> Identity {
    Identity::Cmdline(Some(b"/target/debug/deps/sanitize\0".to_vec()))
}

#[test]
fn foreground_self_pid_without_the_flag_reads_dead() {
    let mut svc = service(ServiceKind::Static, true);
    svc.worker_pid = 4711;
    assert_eq!(worker_alive(&svc, &stranger()), Some(false));
}

#[test]
fn background_self_pid_without_run_worker_reads_dead() {
    let mut svc = service(ServiceKind::Static, false);
    svc.worker_pid = 4711;
    assert_eq!(worker_alive(&svc, &stranger()), Some(false));
}

#[test]
fn pid0_reservation_has_no_liveness_to_report() {
    let mut svc = service(ServiceKind::Proxy, false);
    svc.worker_pid = 0;
    assert_eq!(worker_alive(&svc, &Identity::Cmdline(None)), None);
}

#[test]
fn foreground_entry_on_a_recycled_pid_is_pruned_not_skipped() {
    let mut svc = service(ServiceKind::Static, true);
    svc.worker_pid = 4711;
    let alive = worker_alive(&svc, &stranger());
    assert!(matches!(plan(&svc, alive, Some(true), now_utc()), Action::PruneStale));
}

#[test]
fn dead_background_worker_is_pruned() {
    let svc = service(ServiceKind::Static, false);
    assert!(matches!(plan(&svc, Some(false), None, now_utc()), Action::PruneStale));
}

#[test]
fn dead_foreground_worker_is_pruned() {
    let svc = service(ServiceKind::Static, true);
    assert!(matches!(plan(&svc, Some(false), None, now_utc()), Action::PruneStale));
}

#[test]
fn fresh_pid0_reservation_is_kept() {
    let mut svc = service(ServiceKind::Proxy, false);
    svc.worker_pid = 0;
    svc.public_url = None;
    assert!(matches!(plan(&svc, None, None, now_utc()), Action::Keep));
}

#[test]
fn expired_pid0_reservation_is_pruned() {
    let mut svc = service(ServiceKind::Proxy, false);
    svc.worker_pid = 0;
    svc.public_url = None;
    let now = now_utc();
    svc.created_at = Timestamp { secs: now.secs - (START_GRACE as i64 + 1), nanos: now.nanos };
    assert!(matches!(plan(&svc, None, None, now), Action::PruneStale));
}

#[test]
fn starting_worker_with_recorded_pid_is_kept() {
    let mut svc = service(ServiceKind::Proxy, false);
    svc.public_url = None;
    assert!(matches!(plan(&svc, Some(true), None, now_utc()), Action::Keep));
}

#[test]
fn running_service_with_answering_port_is_kept() {
    let svc = service(ServiceKind::Proxy, false);
    assert!(matches!(plan(&svc, Some(true), Some(false), now_utc()), Action::Keep));
}

#[test]
fn running_service_without_a_probe_is_kept() {
    let svc = service(ServiceKind::Proxy, false);
    assert!(matches!(plan(&svc, Some(true), None, now_utc()), Action::Keep));
}

#[test]
fn dead_double_probed_proxy_is_a_zombie() {
    let svc = service(ServiceKind::Proxy, false);
    assert!(matches!(
        plan(&svc, Some(true), Some(true), now_utc()),
        Action::RemoveZombie { reason: ZombieReason::UpstreamDead }
    ));
}

#[test]
fn zombie_proxy_reason_names_the_502ing_upstream() {
    let svc = service(ServiceKind::Proxy, false);
    assert_eq!(
        ZombieReason::UpstreamDead.describe(&svc),
        "upstream 127.0.0.1:3000 is dead — tunnel was 502ing every request"
    );
}

#[test]
fn dead_double_probed_static_is_an_anomaly_zombie() {
    let svc = service(ServiceKind::Static, false);
    assert!(matches!(
        plan(&svc, Some(true), Some(true), now_utc()),
        Action::RemoveZombie { reason: ZombieReason::InProcessServerDead }
    ));
}

#[test]
fn zombie_static_reason_calls_out_the_anomaly() {
    let svc = service(ServiceKind::Static, false);
    let detail = ZombieReason::InProcessServerDead.describe(&svc);
    assert!(detail.contains("anomaly"), "got: {detail}");
    assert!(detail.contains("127.0.0.1:3000"), "got: {detail}");
}

#[test]
fn dead_double_probed_foreground_is_skipped() {
    let svc = service(ServiceKind::Proxy, true);
    assert!(matches!(plan(&svc, Some(true), Some(true), now_utc()), Action::SkipForeground));
}

#[test]
fn stale_reason_distinguishes_dead_worker_from_abandoned_reservation() {
    let recorded = service(ServiceKind::Static, false);
    assert_eq!(stale_reason(&recorded), "worker no longer running");
    let mut reserved = recorded;
    reserved.worker_pid = 0;
    assert_eq!(
        stale_reason(&reserved),
        "worker pid was never recorded — the start reservation was abandoned"
    );
}

#[test]
fn apply_removes_a_candidate_that_still_matches() {
    let svc = service(ServiceKind::Proxy, false);
    let mut reg = Registry::default();
    reg.services.push(svc.clone());
    let candidates = vec![Judgment {
        svc,
        action: Action::RemoveZombie { reason: ZombieReason::UpstreamDead },
    }];
    let removed = apply(&mut reg, &candidates);
    assert_eq!(removed.len(), 1);
    assert_eq!(removed[0].svc.name, "alpha");
    assert!(reg.services.is_empty(), "the entry must be gone");
}

#[test]
fn apply_leaves_an_entry_whose_worker_pid_changed() {
    let judged = service(ServiceKind::Proxy, false);
    let mut live = judged.clone();
    live.worker_pid = 999;
    let mut reg = Registry::default();
    reg.services.push(live);
    let candidates = vec![Judgment {
        svc: judged.clone(),
        action: Action::RemoveZombie { reason: ZombieReason::UpstreamDead },
    }];
    let removed = apply(&mut reg, &candidates);
    assert!(removed.is_empty(), "a changed entry must not be removed");
    assert_eq!(reg.services.len(), 1);
    assert_eq!(reg.services[0].worker_pid, 999);
}

#[test]
fn apply_leaves_an_entry_that_vanished() {
    let judged = service(ServiceKind::Static, false);
    let mut reg = Registry::default();
    let candidates = vec![Judgment { svc: judged, action: Action::PruneStale }];
    let removed = apply(&mut reg, &candidates);
    assert!(removed.is_empty());
}

#[test]
fn a_port_is_dead_only_after_two_looks() {
    assert!(dead_after_double_probe(false, false));
    assert!(!dead_after_double_probe(false, true));
    assert!(!dead_after_double_probe(true, false));
}

#[test]
fn only_running_services_are_probed() {
    let svc = service(ServiceKind::Proxy, false);
    assert!(probes_port(&svc, Some(true)));
    assert!(!probes_port(&svc, Some(false)));
    assert!(!probes_port(&svc, None));
    let mut starting = service(ServiceKind::Proxy, false);
    starting.public_url = None;
    assert!(!probes_port(&starting, Some(true)));
}

#[test]
fn judging_parts_what_goes_from_what_is_skipped() {
    let mut zombie = service(ServiceKind::Proxy, false);
    zombie.id = 2;
    zombie.name = "zombie".to_string();
    let mut front = service(ServiceKind::Proxy, true);
    front.id = 3;
    front.name = "front".to_string();
    let services = vec![service(ServiceKind::Static, false), zombie, front];
    let found = vec![
        Evidence { worker_alive: Some(true), port_dead: Some(false) },
        Evidence { worker_alive: Some(true), port_dead: Some(true) },
        Evidence { worker_alive: Some(true), port_dead: Some(true) },
    ];
    let (candidates, skipped) = judge(&services, &found, now_utc());
    assert_eq!(candidates.len(), 1);
    assert_eq!(candidates[0].svc.name, "zombie");
    assert_eq!(skipped, vec!["front".to_string()]);
    assert_eq!(
        removal_reason(&candidates[0]).as_deref(),
        Some("upstream 127.0.0.1:3000 is dead — tunnel was 502ing every request")
    );
}

#[test]
fn what_is_removed_is_signalled_only_where_it_is_ours() {
    let worker = Identity::Cmdline(Some(b"ft\0run-worker\0".to_vec()));
    let tunnel = Identity::Cmdline(Some(b"cloudflared\0tunnel\0".to_vec()));
    let mut svc = service(ServiceKind::Proxy, false);
    svc.tunnel_pid = Some(77);
    let stale = Judgment { svc: svc.clone(), action: Action::PruneStale };
    assert_eq!(removal_effect(&stale, &worker, &tunnel), Effect::Reap(Signal::Term(77)));
    assert_eq!(removal_effect(&stale, &worker, &stranger()), Effect::Nothing);
    let zombie = Judgment {
        svc,
        action: Action::RemoveZombie { reason: ZombieReason::UpstreamDead },
    };
    assert_eq!(removal_effect(&zombie, &worker, &stranger()), Effect::EndGroup(123_456));
    assert_eq!(removal_effect(&zombie, &stranger(), &tunnel), Effect::EndGroup(123_456));
    assert_eq!(removal_effect(&zombie, &stranger(), &stranger()), Effect::Nothing);
}

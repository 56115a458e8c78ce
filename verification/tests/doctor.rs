//! The `doctor` command.

use freeoxide_tunnel::clock::{now_utc, Timestamp};
use freeoxide_tunnel::cmd::doctor::{
    cloudflared_check, command_probe, command_to_probe, probes_origin, registry_check, report,
    report_unreadable, service_checks, Check, CheckStatus, CommandProbe, Findings,
};
use freeoxide_tunnel::model::{
    ProcessProbe, Service, ServiceKind, ServiceStatus, StaticFlags, START_GRACE,
};
use freeoxide_tunnel::proc::Identity;

/// The one state directory that is there.
const PRESENT_DIR: &str = "/state/present";

/// The one pid that some process has.
const LIVE_PID: u32 = 4711;

fn service(kind: ServiceKind) -> Service {
    Service {
        id: 1,
        name: "alpha".to_string(),
        kind,
        dir: if kind == ServiceKind::Static { Some("/tmp/dir".to_string()) } else { None },
        port: 3000,
        local_url: "http://127.0.0.1:3000".to_string(),
        public_url: None,
        worker_pid: 0,
        tunnel_pid: None,
        command_pid: None,
        static_flags: StaticFlags::default(),
        created_at: now_utc(),
        state_dir: "/tmp/state".to_string(),
        foreground: false,
    }
}

/// A service whose worker is this process: it runs in the foreground and has its
/// URL.
fn running_service(kind: ServiceKind) -> Service {
    let mut s = service(kind);
    s.foreground = true;
    s.worker_pid = LIVE_PID;
    s.public_url = Some("https://x.trycloudflare.com".to_string());
    s
}

/// The state of a service, where only [`LIVE_PID`] is alive.
fn status_of(svc: &Service) -> ServiceStatus {
    svc.status(&ProcessProbe {
        exists: svc.worker_pid == LIVE_PID,
        identity: Identity::Cmdline(None),
    })
}

/// The checks of a service, where only [`PRESENT_DIR`] is there.
fn checks_for(svc: &Service, origin: Option<bool>, command: Option<CommandProbe>) -> Vec<Check> {
    service_checks(
        svc,
        status_of(svc),
        origin,
        command,
        svc.start_in_progress(),
        svc.state_dir == PRESENT_DIR,
    )
}

/// The check with the name.
fn find<'a>(checks: &'a [Check], name: &str) -> &'a Check {
    match checks.iter().find(|c| c.name == name) {
        Some(c) => c,
        None => panic!("no check named {name:?} in {checks:?}"),
    }
}

#[test]
fn stale_worker_warns_with_kill_hint_and_skips_the_probe() {
    let svc = service(ServiceKind::Proxy);
    let stale = Service {
        worker_pid: 4_000_000,
        ..svc
    };
    let checks = checks_for(&stale, None, None);
    let worker = find(&checks, "worker alpha");
    assert_eq!(worker.status, CheckStatus::Warn);
    assert!(worker.detail.contains("not running"));
    assert!(
        worker
            .hint
            .as_deref()
            .unwrap_or_default()
            .contains("ft kill alpha"),
        "the hint must name `ft kill alpha`, got: {:?}",
        worker.hint
    );
    assert!(
        worker
            .hint
            .as_deref()
            .unwrap_or_default()
            .contains("ft sanitize"),
        "the general-cleanup hint must name `ft sanitize`, got: {:?}",
        worker.hint
    );
    assert!(
        checks.iter().all(|c| c.name != "origin alpha"),
        "no origin check may accompany a dead worker: {checks:?}"
    );
}

#[test]
fn fresh_pid0_reservation_is_a_note_not_an_error() {
    let svc = service(ServiceKind::Proxy);
    let checks = checks_for(&svc, None, None);
    let worker = find(&checks, "worker alpha");
    assert_eq!(worker.status, CheckStatus::Note);
    assert_eq!(worker.status.as_str(), "ok");
    assert!(worker.hint.is_none(), "a note carries no remediation");
}

#[test]
fn expired_pid0_reservation_warns_with_sanitize_hint() {
    let mut svc = service(ServiceKind::Proxy);
    let now = now_utc();
    svc.created_at = Timestamp { secs: now.secs - (START_GRACE as i64 + 1), nanos: now.nanos };
    let checks = checks_for(&svc, None, None);
    let worker = find(&checks, "worker alpha");
    assert_eq!(worker.status, CheckStatus::Warn);
    assert!(
        worker
            .hint
            .as_deref()
            .unwrap_or_default()
            .contains("ft sanitize"),
        "the hint must name `ft sanitize`, got: {:?}",
        worker.hint
    );
}

#[test]
fn live_proxy_with_dead_origin_fails_with_the_502_wording() {
    let svc = running_service(ServiceKind::Proxy);
    let checks = checks_for(&svc, Some(false), None);
    let origin = find(&checks, "origin alpha");
    assert_eq!(origin.status, CheckStatus::Fail);
    assert!(
        origin
            .detail
            .contains("proxying 3000 but nothing is listening"),
        "expected the fixed dead-upstream wording, got: {}",
        origin.detail
    );
    assert!(origin.detail.contains("502"), "got: {}", origin.detail);
    let hint = origin.hint.as_deref().unwrap_or_default();
    assert!(
        hint.contains("start the upstream server") && hint.contains("ft kill alpha"),
        "unexpected hint: {hint}"
    );
    assert!(
        hint.contains("ft sanitize"),
        "the hint must also name the bulk cleanup, got: {hint}"
    );
    assert_eq!(find(&checks, "worker alpha").status, CheckStatus::Pass);
}

#[test]
fn live_static_with_dead_origin_is_an_anomaly_warn() {
    let svc = running_service(ServiceKind::Static);
    let checks = checks_for(&svc, Some(false), None);
    let origin = find(&checks, "origin alpha");
    assert_eq!(origin.status, CheckStatus::Warn);
    assert!(origin.detail.contains("anomaly"), "got: {}", origin.detail);
    assert!(
        origin
            .hint
            .as_deref()
            .unwrap_or_default()
            .contains("ft logs alpha"),
        "unexpected hint: {:?}",
        origin.hint
    );
}

#[test]
fn live_worker_with_answering_origin_and_state_dir_is_all_ok() {
    let mut svc = running_service(ServiceKind::Proxy);
    svc.state_dir = PRESENT_DIR.to_string();
    let checks = checks_for(&svc, Some(true), None);
    assert!(
        checks
            .iter()
            .all(|c| c.status == CheckStatus::Pass && c.hint.is_none()),
        "a healthy service must be all-ok with no hints: {checks:?}"
    );
    assert!(
        find(&checks, "origin alpha")
            .detail
            .contains("is answering")
    );
}

#[test]
fn missing_state_dir_is_a_minor_warn() {
    let mut svc = running_service(ServiceKind::Proxy);
    svc.state_dir = "/tmp/never-created".to_string();
    let checks = checks_for(&svc, Some(true), None);
    let state_dir = find(&checks, "state-dir alpha");
    assert_eq!(state_dir.status, CheckStatus::Warn);
    assert!(
        state_dir.detail.contains("missing"),
        "got: {}",
        state_dir.detail
    );
}

/// A run service whose worker is gone, with the recorded pid of its command.
fn stale_run(command_pid: Option<u32>) -> Service {
    Service {
        worker_pid: 4_000_000,
        command_pid,
        ..service(ServiceKind::Run)
    }
}

#[test]
fn stale_run_with_a_live_listening_command_flags_the_orphan() {
    let svc = stale_run(Some(4242));
    let checks = checks_for(
        &svc,
        None,
        Some(CommandProbe {
            pid: 4242,
            alive: true,
            port_alive: true,
        }),
    );
    let command = find(&checks, "command alpha");
    assert_eq!(command.status, CheckStatus::Warn);
    assert!(
        command
            .detail
            .contains("tunnel dead, command still running"),
        "expected the orphan wording, got: {}",
        command.detail
    );
    assert!(
        command.detail.contains("4242") && command.detail.contains("127.0.0.1:3000"),
        "the finding must name the pid and the port, got: {}",
        command.detail
    );
    assert!(
        !command.detail.contains("an orphaned process"),
        "the detail must not claim orphanhood outright: {}",
        command.detail
    );
    assert!(
        command.detail.contains("recycled"),
        "the detail must keep the recycled-pid reading open, got: {}",
        command.detail
    );
    let hint = command.hint.as_deref().unwrap_or_default();
    assert!(
        hint.contains("4242") && hint.contains("ft kill alpha"),
        "the hint must say how to stop the orphan and clean the entry, got: {hint}"
    );
    assert!(
        hint.contains("if it is the command"),
        "the hint must say to verify the pid first, got: {hint}"
    );
    assert_eq!(find(&checks, "worker alpha").status, CheckStatus::Warn);
    assert!(
        checks.iter().all(|c| c.name != "origin alpha"),
        "no origin check may accompany a dead worker: {checks:?}"
    );
}

#[test]
fn stale_run_with_a_live_but_silent_command_hedges_the_finding() {
    let svc = stale_run(Some(4242));
    let checks = checks_for(
        &svc,
        None,
        Some(CommandProbe {
            pid: 4242,
            alive: true,
            port_alive: false,
        }),
    );
    let command = find(&checks, "command alpha");
    assert_eq!(command.status, CheckStatus::Warn);
    assert!(
        command
            .detail
            .contains("tunnel dead, command still running")
            && command.detail.contains("recycled"),
        "expected the hedged orphan wording, got: {}",
        command.detail
    );
    assert!(
        command
            .hint
            .as_deref()
            .unwrap_or_default()
            .contains("ft kill alpha")
            && command
                .hint
                .as_deref()
                .unwrap_or_default()
                .contains("if it is the command"),
        "the hint must be the shared verify-first cleanup hint, got: {:?}",
        command.hint
    );
}

#[test]
fn stale_run_with_a_dead_command_pid_adds_no_command_finding() {
    let svc = stale_run(Some(4242));
    let checks = checks_for(
        &svc,
        None,
        Some(CommandProbe {
            pid: 4242,
            alive: false,
            port_alive: true,
        }),
    );
    assert!(
        checks.iter().all(|c| c.name != "command alpha"),
        "a dead command is not a finding: {checks:?}"
    );
    assert_eq!(find(&checks, "worker alpha").status, CheckStatus::Warn);
}

#[test]
fn stale_run_without_a_recorded_command_pid_has_nothing_to_flag() {
    let svc = stale_run(None);
    let checks = checks_for(&svc, None, None);
    assert!(
        checks.iter().all(|c| c.name != "command alpha"),
        "no command check without a recorded pid: {checks:?}"
    );
}

#[test]
fn live_run_with_dead_origin_and_live_command_names_the_running_pid() {
    let svc = running_service(ServiceKind::Run);
    let checks = checks_for(
        &svc,
        Some(false),
        Some(CommandProbe {
            pid: 4242,
            alive: true,
            port_alive: false,
        }),
    );
    let origin = find(&checks, "origin alpha");
    assert_eq!(origin.status, CheckStatus::Fail);
    assert!(
        origin
            .detail
            .contains("the command (pid 4242) is running but not listening")
            && origin.detail.contains("502"),
        "got: {}",
        origin.detail
    );
    assert!(
        origin
            .hint
            .as_deref()
            .unwrap_or_default()
            .contains("ft logs alpha"),
        "unexpected hint: {:?}",
        origin.hint
    );
    assert!(
        checks.iter().all(|c| c.name != "command alpha"),
        "a live worker owns its command — no separate command check: {checks:?}"
    );
}

#[test]
fn live_run_with_dead_origin_and_exited_command_says_so() {
    let svc = running_service(ServiceKind::Run);
    let checks = checks_for(
        &svc,
        Some(false),
        Some(CommandProbe {
            pid: 4242,
            alive: false,
            port_alive: false,
        }),
    );
    let origin = find(&checks, "origin alpha");
    assert_eq!(origin.status, CheckStatus::Fail);
    assert!(
        origin
            .detail
            .contains("the command (recorded pid 4242) has exited"),
        "got: {}",
        origin.detail
    );
}

#[test]
fn live_run_with_dead_origin_and_no_recorded_pid_says_the_spawn_has_not_landed() {
    let svc = running_service(ServiceKind::Run);
    let checks = checks_for(&svc, Some(false), None);
    let origin = find(&checks, "origin alpha");
    assert_eq!(origin.status, CheckStatus::Fail);
    assert!(
        origin.detail.contains("no command pid is recorded yet"),
        "got: {}",
        origin.detail
    );
}

#[test]
fn healthy_run_service_is_all_ok_and_names_no_command() {
    let mut svc = running_service(ServiceKind::Run);
    svc.state_dir = PRESENT_DIR.to_string();
    let checks = checks_for(
        &svc,
        Some(true),
        Some(CommandProbe {
            pid: 4242,
            alive: true,
            port_alive: true,
        }),
    );
    assert!(
        checks
            .iter()
            .all(|c| c.status == CheckStatus::Pass && c.hint.is_none()),
        "a healthy run service must be all-ok with no hints: {checks:?}"
    );
    assert!(
        checks.iter().all(|c| c.name != "command alpha"),
        "no command check on a healthy service: {checks:?}"
    );
}

#[test]
fn hand_edited_run_entry_with_a_dir_is_classified_unchanged() {
    let mut svc = stale_run(Some(4242));
    svc.dir = Some("/tmp/hand-edited".to_string());
    let checks = checks_for(
        &svc,
        None,
        Some(CommandProbe {
            pid: 4242,
            alive: true,
            port_alive: true,
        }),
    );
    let command = find(&checks, "command alpha");
    assert_eq!(command.status, CheckStatus::Warn);
    assert!(
        command
            .detail
            .contains("tunnel dead, command still running"),
        "got: {}",
        command.detail
    );
}

#[test]
fn command_probe_skips_non_run_kinds_unrecorded_and_zero_pids() {
    let mut proxy = service(ServiceKind::Proxy);
    proxy.command_pid = Some(4242);
    assert!(
        command_probe(&proxy, true, true).is_none(),
        "a proxy has no command child to probe"
    );
    let mut unrecorded = service(ServiceKind::Run);
    unrecorded.command_pid = None;
    assert!(
        command_probe(&unrecorded, true, true).is_none(),
        "no recorded pid, nothing to probe"
    );
    let mut zero = service(ServiceKind::Run);
    zero.command_pid = Some(0);
    assert!(
        command_probe(&zero, true, true).is_none(),
        "pid 0 must be refused, not probed against the caller's group"
    );
}

#[test]
fn command_probe_carries_what_was_found() {
    let mut svc = service(ServiceKind::Run);
    svc.command_pid = Some(LIVE_PID);
    assert_eq!(command_to_probe(&svc), Some(LIVE_PID));
    let probe = command_probe(&svc, true, true).expect("a recorded run pid must probe");
    assert!(probe.alive);
    assert!(probe.port_alive);
    assert_eq!(probe.pid, LIVE_PID);
    let probe = command_probe(&svc, false, true).expect("a recorded run pid must probe");
    assert!(!probe.alive);
    assert!(probe.port_alive);
}

#[test]
fn origins_are_probed_only_behind_a_live_worker() {
    let mut svc = service(ServiceKind::Proxy);
    assert!(!probes_origin(&svc, ServiceStatus::Starting));
    svc.worker_pid = LIVE_PID;
    assert!(probes_origin(&svc, ServiceStatus::Starting));
    assert!(probes_origin(&svc, ServiceStatus::Running));
    assert!(!probes_origin(&svc, ServiceStatus::Stale));
}

#[test]
fn a_missing_cloudflared_is_a_warning() {
    let found = cloudflared_check(Some("/usr/bin/cloudflared"));
    assert_eq!(found.name, "cloudflared");
    assert_eq!(found.status, CheckStatus::Pass);
    assert_eq!(found.detail, "found at /usr/bin/cloudflared");
    assert!(found.hint.is_none());
    let missing = cloudflared_check(None);
    assert_eq!(missing.status, CheckStatus::Warn);
    assert_eq!(missing.detail, "not found on PATH");
    assert_eq!(
        missing.hint.as_deref(),
        Some(
            "install it from https://developers.cloudflare.com/cloudflare-one/connections/connect-networks/downloads/ (macOS: brew install cloudflared, Windows: winget install Cloudflare.cloudflared)"
        )
    );
}

#[test]
fn a_registry_that_cannot_be_loaded_is_a_failure() {
    let check = registry_check("it is corrupted", "/s/registry.json");
    assert_eq!(check.name, "registry");
    assert_eq!(check.status, CheckStatus::Fail);
    assert_eq!(check.detail, "cannot be loaded (it is corrupted)");
    assert_eq!(
        check.hint.as_deref(),
        Some(
            "repair or remove /s/registry.json — with it unreadable, every registry-backed command is blocked"
        )
    );
}

#[test]
fn the_report_starts_with_the_tunnel_and_takes_every_service_in_turn() {
    let services = vec![running_service(ServiceKind::Static), running_service(ServiceKind::Proxy)];
    let healthy = Findings {
        status: ServiceStatus::Running,
        origin: Some(true),
        command: None,
        fresh: false,
        state_present: true,
    };
    let dead = Findings { origin: Some(false), ..healthy };
    let names = |checks: &[Check]| {
        checks.iter().map(|c| format!("{} {}", c.status.as_str(), c.name)).collect::<Vec<_>>()
    };
    assert_eq!(
        names(&report(Some("/bin/cloudflared"), &services, &vec![healthy, dead])),
        vec![
            "ok cloudflared",
            "ok worker alpha",
            "ok origin alpha",
            "ok state-dir alpha",
            "ok worker alpha",
            "fail origin alpha",
            "ok state-dir alpha",
        ]
    );
    assert_eq!(names(&report(None, &vec![], &vec![])), vec!["warn cloudflared"]);
    assert_eq!(
        names(&report_unreadable(Some("/bin/cloudflared"), "corrupted", "/state/registry.json")),
        vec!["ok cloudflared", "fail registry"]
    );
}

//! Services and their lifecycle.

use freeoxide_tunnel::clock::{elapsed_nanos, fmt_timestamp, now_utc, Timestamp};
use freeoxide_tunnel::model::{
    ProcessProbe, Registry, Service, ServiceKind, ServiceStatus, StaticFlags, START_GRACE,
};
use freeoxide_tunnel::proc::Identity;

fn service(worker_pid: u32, public_url: Option<&str>, foreground: bool) -> Service {
    Service {
        id: 1,
        name: "svc".to_string(),
        kind: ServiceKind::Static,
        dir: Some("/tmp".to_string()),
        port: 8000,
        local_url: "http://127.0.0.1:8000".to_string(),
        public_url: public_url.map(str::to_string),
        worker_pid,
        tunnel_pid: None,
        static_flags: StaticFlags::default(),
        command_pid: None,
        created_at: now_utc(),
        state_dir: "/tmp".to_string(),
        foreground,
    }
}

/// What is known of a process that runs, with a command line that has nothing of
/// `ft` in it.
fn live_stranger() -> ProcessProbe {
    ProcessProbe {
        exists: true,
        identity: Identity::Cmdline(Some(b"/target/debug/deps/model\0--nocapture\0".to_vec())),
    }
}

fn nobody() -> ProcessProbe {
    ProcessProbe { exists: false, identity: Identity::Cmdline(None) }
}

fn worker() -> ProcessProbe {
    ProcessProbe {
        exists: true,
        identity: Identity::Cmdline(Some(b"/usr/bin/ft\0run-worker\0--id\01\0".to_vec())),
    }
}

#[test]
fn kind_as_str_matches_serde_tags() {
    assert_eq!(ServiceKind::Static.as_str(), "static");
    assert_eq!(ServiceKind::Proxy.as_str(), "proxy");
    assert_eq!(ServiceKind::Run.as_str(), "run");
    assert_eq!(ServiceKind::Hook.as_str(), "hook");
    assert_eq!(ServiceKind::Drop.as_str(), "drop");
}

#[test]
fn the_words_for_the_states() {
    assert_eq!(ServiceStatus::Starting.as_str(), "starting");
    assert_eq!(ServiceStatus::Running.as_str(), "running");
    assert_eq!(ServiceStatus::Stale.as_str(), "stale");
}

#[test]
fn status_starting_when_worker_pid_zero() {
    assert_eq!(
        service(0, Some("https://example.trycloudflare.com"), false).status(&nobody()),
        ServiceStatus::Starting
    );
}

#[test]
fn status_background_own_pid_reads_stale() {
    assert_eq!(
        service(4711, Some("https://example.trycloudflare.com"), false).status(&live_stranger()),
        ServiceStatus::Stale
    );
}

#[test]
fn status_foreground_running_when_alive() {
    assert_eq!(
        service(4711, Some("https://example.trycloudflare.com"), true).status(&live_stranger()),
        ServiceStatus::Running
    );
}

#[test]
fn status_foreground_stale_when_pid_gone() {
    assert_eq!(service(4_000_000, None, true).status(&nobody()), ServiceStatus::Stale);
}

#[test]
fn a_worker_of_ours_is_starting_until_its_url_is_there() {
    assert_eq!(service(4711, None, false).status(&worker()), ServiceStatus::Starting);
    assert_eq!(
        service(4711, Some("https://example.trycloudflare.com"), false).status(&worker()),
        ServiceStatus::Running
    );
}

#[test]
fn start_in_progress_true_for_fresh_reservation() {
    assert!(service(0, None, false).start_in_progress());
}

#[test]
fn start_in_progress_false_once_grace_expires() {
    let mut s = service(0, None, false);
    let now = now_utc();
    s.created_at = Timestamp { secs: now.secs - (START_GRACE as i64 + 1), nanos: now.nanos };
    assert!(!s.start_in_progress());
}

#[test]
fn start_in_progress_false_once_pid_recorded() {
    assert!(!service(123_456, None, false).start_in_progress());
}

#[test]
fn the_grace_ends_after_exactly_sixty_seconds() {
    let mut s = service(0, None, false);
    s.created_at = Timestamp { secs: 1_000, nanos: 500 };
    assert!(s.start_in_progress_at(Timestamp { secs: 1_060, nanos: 499 }));
    assert!(!s.start_in_progress_at(Timestamp { secs: 1_060, nanos: 500 }));
    // An entry from the future is fresh.
    assert!(s.start_in_progress_at(Timestamp { secs: 0, nanos: 0 }));
}

#[test]
fn time_between_instants() {
    let a = Timestamp { secs: 100, nanos: 250 };
    let b = Timestamp { secs: 101, nanos: 0 };
    assert_eq!(elapsed_nanos(b, a), 999_999_750);
    assert_eq!(elapsed_nanos(a, b), -999_999_750);
    // A leap second between the two is counted.
    let leap = Timestamp { secs: 86_399, nanos: 1_500_000_000 };
    assert_eq!(elapsed_nanos(Timestamp { secs: 86_400, nanos: 0 }, leap), -500_000_000);
    assert_eq!(elapsed_nanos(leap, Timestamp { secs: 86_399, nanos: 0 }), 1_500_000_000);
}

#[test]
fn instants_are_shown_to_the_minute() {
    assert_eq!(fmt_timestamp(Timestamp { secs: 0, nanos: 0 }).as_deref(), Some("1970-01-01 00:00"));
    assert_eq!(
        fmt_timestamp(Timestamp { secs: 1_784_592_059, nanos: 0 }).as_deref(),
        Some("2026-07-21 00:00")
    );
    assert_eq!(
        fmt_timestamp(Timestamp { secs: -1, nanos: 0 }).as_deref(),
        Some("1969-12-31 23:59")
    );
    assert_eq!(fmt_timestamp(Timestamp { secs: i64::MAX, nanos: 0 }), None);
}

#[test]
fn instants_follow_the_calendar() {
    let shown = |secs: i64| fmt_timestamp(Timestamp { secs, nanos: 0 });
    assert_eq!(shown(951_827_640).as_deref(), Some("2000-02-29 12:34"));
    assert_eq!(shown(-2_203_891_200).as_deref(), Some("1900-03-01 00:00"));
    assert_eq!(shown(-2_203_891_201).as_deref(), Some("1900-02-28 23:59"));
    assert_eq!(shown(253_402_300_800).as_deref(), Some("10000-01-01 00:00"));
    assert_eq!(shown(-62_198_755_200).as_deref(), Some("-001-01-01 00:00"));
    assert_eq!(shown(8_210_266_876_799).as_deref(), Some("262142-12-31 23:59"));
    assert_eq!(shown(8_210_266_876_800), None);
    assert_eq!(shown(-8_334_601_228_800).as_deref(), Some("-262143-01-01 00:00"));
    assert_eq!(shown(-8_334_601_228_801), None);
    // Only the last second of a minute can be a leap second.
    let leap = |secs: i64, nanos: u32| fmt_timestamp(Timestamp { secs, nanos }).is_some();
    assert!(leap(59, 1_999_999_999));
    assert!(!leap(59, 2_000_000_000));
    assert!(!leap(58, 1_000_000_000));
}

#[test]
fn a_copy_of_a_registry_is_the_same() {
    let mut reg = Registry::default();
    reg.services.push(service(7, Some("https://example.trycloudflare.com"), true));
    reg.services[0].static_flags =
        StaticFlags { spa: true, cors: true, token: Some("s".to_string()) };
    let copy = reg.clone();
    assert_eq!(copy.next_id, reg.next_id);
    assert_eq!(format!("{:?}", copy.services), format!("{:?}", reg.services));
}

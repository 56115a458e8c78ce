//! Starting services.

use freeoxide_tunnel::clock::{now_utc, Timestamp};
use freeoxide_tunnel::cmd::background::{
    failure_text, first_setup, next_setup, next_wait, unreadable_context, AfterSetup, SetupStep,
    WaitFailure, Waiting, Wakeup,
};
use freeoxide_tunnel::cmd::drop::{
    check_bucket, drop_port, drop_port_free, drop_reservation, find_drop_dir_conflict,
    max_size_or_default, reserve_entry as reserve_drop, resolve_token,
};
use freeoxide_tunnel::cmd::foreground::{
    announcement_text, base_for, drain_and_announce, foreground_kind, foreground_result,
    foreground_steps, foreground_teardown, foreground_unwind, holds_entry, DownStep, ReaderExit,
    UpStep,
};
use freeoxide_tunnel::cmd::hook::{hook_port, hook_port_free, keep_or_default, open_hook_log};
use freeoxide_tunnel::cmd::open::url_to_open;
use freeoxide_tunnel::cmd::proxy::check_upstream;
use freeoxide_tunnel::cmd::reserve::{
    publish_url, record_command_pid, record_worker_pid, remove_reservation, reserve_entry,
    reserved_name, Reservation,
};
use freeoxide_tunnel::cmd::run::{
    check_run, command_display, fail_run_timeout, fail_start as fail_run_start,
    last_reason as last_run_reason, poll_run, Progress,
};
use freeoxide_tunnel::cmd::start::{
    check_token, confirm_sensitive, confirmed, denylist, fail_start, fail_timeout, fronted_port,
    is_sensitive_dir, last_line, last_line_offset, last_reason, last_text_line, poll_expired,
    poll_for_url, resolve_dir, sensitive_warning, static_port, static_port_free,
    Confirmation, Exposure, PollStep, PortChoice, Snapshot, LAST_REASON_CAP,
};
use freeoxide_tunnel::model::{Registry, Service, ServiceKind, StaticFlags};
use freeoxide_tunnel::server::drop_server::DEFAULT_MAX_SIZE;
use freeoxide_tunnel::state::StateDir;

fn path(s: &str) -> Option<Vec<u8>> {
    Some(s.as_bytes().to_vec())
}

// --- what may be published ---------------------------------------------------

fn exposure(dir: Option<Vec<u8>>) -> Exposure {
    Exposure {
        dir,
        denied: denylist().into_iter().map(|d| d.into_bytes()).collect(),
        home: path("/home/u"),
        state_root: path("/home/u/.local/state/freeoxide/tunnel"),
    }
}

fn sensitive(dir: &str) -> bool {
    is_sensitive_dir(&exposure(path(dir)), b'/')
}

#[test]
fn sensitive_home_and_its_ancestor() {
    assert!(sensitive("/home/u"), "$HOME itself must be sensitive");
    assert!(sensitive("/home"), "an ancestor of $HOME must be sensitive");
}

#[test]
fn sensitive_system_dirs() {
    for d in ["/etc", "/var", "/dev", "/proc", "/sys"] {
        assert!(sensitive(d), "{d} should be sensitive");
    }
}

#[test]
fn normal_dir_not_sensitive() {
    assert!(!sensitive("/tmp/.tmpAbC123"));
    assert!(!sensitive("/home/u/site"));
    assert!(!sensitive("/etcetera"));
    assert!(!sensitive("/var/www"));
}

#[test]
fn the_state_tree_is_sensitive_from_above_and_below() {
    assert!(sensitive("/home/u/.local"));
    assert!(sensitive("/home/u/.local/state/freeoxide/tunnel"));
    assert!(sensitive("/home/u/.local/state/freeoxide/tunnel/services/web"));
    assert!(!sensitive("/home/u/.local/share"));
}

#[test]
fn what_cannot_be_told_is_sensitive() {
    assert!(is_sensitive_dir(&exposure(None), b'/'));
    let mut x = exposure(path("/tmp/x"));
    x.home = None;
    assert!(is_sensitive_dir(&x, b'/'));
    let mut x = exposure(path("/tmp/x"));
    x.state_root = None;
    assert!(is_sensitive_dir(&x, b'/'));
}

#[test]
fn a_sensitive_directory_needs_a_yes() {
    assert!(matches!(confirm_sensitive("/etc", false, false, false), Confirmation::Proceed));
    assert!(matches!(confirm_sensitive("/etc", true, true, false), Confirmation::ProceedAsAgreed));
    assert!(matches!(confirm_sensitive("/etc", true, false, true), Confirmation::Ask));
    match confirm_sensitive("/etc", true, false, false) {
        Confirmation::Refuse(e) => assert_eq!(
            e,
            "refusing to publish a sensitive directory (/etc) non-interactively; re-run with --yes to confirm"
        ),
        other => panic!("{other:?}"),
    }
    assert_eq!(
        sensitive_warning("/etc"),
        "[!] Publishing '/etc' to the PUBLIC internet via a Cloudflare Quick Tunnel.\n    Anyone with the URL can read its contents. Dotfiles are refused by default.\n"
    );
    assert!(confirmed(" Y \n").is_ok());
    assert_eq!(confirmed("yes\n").unwrap_err(), "aborted");
    assert_eq!(confirmed("").unwrap_err(), "aborted");
}

#[test]
fn a_directory_must_be_there_and_readable() {
    assert!(resolve_dir("/d", true, true, true).is_ok());
    assert_eq!(resolve_dir("/d", false, false, false).unwrap_err(), "directory '/d' does not exist");
    assert_eq!(resolve_dir("/d", true, false, false).unwrap_err(), "'/d' is not a directory");
    assert_eq!(resolve_dir("/d", true, true, false).unwrap_err(), "directory '/d' is not readable");
}

#[test]
fn a_blank_secret_is_refused() {
    assert!(check_token(&None).is_ok());
    assert!(check_token(&Some(" s ".to_string())).is_ok());
    assert_eq!(
        check_token(&Some(" \t".to_string())).unwrap_err(),
        "--token must be a non-empty secret"
    );
}

// --- ports -------------------------------------------------------------------

#[test]
fn ports_are_given_or_allocated() {
    assert_eq!(static_port(None), Ok(PortChoice::Allocate));
    assert_eq!(static_port(Some(80)), Ok(PortChoice::Explicit(80)));
    assert_eq!(
        static_port(Some(0)).unwrap_err(),
        "port 0 is reserved; pass an explicit port (1-65535) or omit --port"
    );
    assert_eq!(fronted_port(Some(80)), Ok(80));
    assert_eq!(
        fronted_port(Some(0)).unwrap_err(),
        "port 0 is reserved; pass an explicit port (1-65535)"
    );
    assert_eq!(
        fronted_port(None).unwrap_err(),
        "a proxy or run service needs an explicit port to front"
    );
    assert_eq!(hook_port(Some(7)), PortChoice::Explicit(7));
    assert_eq!(drop_port(None), PortChoice::Allocate);
    assert_eq!(static_port_free(80, false).unwrap_err(), "port 80 is already in use");
    assert!(static_port_free(80, true).is_ok());
    assert_eq!(
        hook_port_free(80, false).unwrap_err(),
        "port 80 is already in use — ft's hook origin needs to bind it (is another instance still running?)"
    );
    assert_eq!(
        drop_port_free(80, false).unwrap_err(),
        "port 80 is already in use — ft's drop origin needs to bind it (is another instance still running?)"
    );
    assert_eq!(
        check_upstream(80, false).unwrap_err(),
        "nothing is listening on 127.0.0.1:80 — start the server you want to tunnel (or double-check the port number) first"
    );
    assert!(check_upstream(80, true).is_ok());
}

// --- reserving ---------------------------------------------------------------

fn request(name: Option<&str>, base: &str) -> Reservation {
    Reservation {
        kind: ServiceKind::Static,
        dir: Some("/srv/blog".to_string()),
        base: base.to_string(),
        port: 8080,
        name: name.map(str::to_string),
        worker_pid: 0,
        foreground: false,
        static_flags: StaticFlags { spa: true, cors: false, token: Some("s".to_string()) },
    }
}

fn state() -> StateDir {
    StateDir::new_at("/state".to_string(), b'/')
}

#[test]
fn a_reservation_adds_one_entry() {
    let mut reg = Registry::default();
    let now = Timestamp { secs: 5, nanos: 6 };
    let q = request(None, "blog");
    assert_eq!(reserved_name(&reg, &q), Ok("blog".to_string()));
    let (id, name) = reserve_entry(&mut reg, &q, &state(), true, now).expect("reserved");
    assert_eq!((id, name.as_str()), (1, "blog"));
    assert_eq!(reg.next_id, 2);
    let s = &reg.services[0];
    assert_eq!(s.id, 1);
    assert_eq!(s.local_url, "http://127.0.0.1:8080");
    assert_eq!(s.state_dir, "/state/services/blog");
    assert_eq!(s.created_at, now);
    assert_eq!(s.worker_pid, 0);
    assert_eq!(s.public_url, None);
    assert!(s.static_flags.spa);
    assert!(s.start_in_progress_at(now));
    let (id, name) = reserve_entry(&mut reg, &q, &state(), true, now).expect("reserved again");
    assert_eq!((id, name.as_str()), (2, "blog-2"));
    assert!(reg.validate().is_ok());
}

#[test]
fn a_reservation_that_is_refused_changes_nothing() {
    let mut reg = Registry::default();
    let now = now_utc();
    reserve_entry(&mut reg, &request(Some("web"), "b"), &state(), true, now).expect("reserved");
    assert_eq!(
        reserve_entry(&mut reg, &request(Some("web"), "b"), &state(), true, now).unwrap_err(),
        "a service named 'web' already exists"
    );
    assert_eq!(
        reserve_entry(&mut reg, &request(Some("12"), "b"), &state(), true, now).unwrap_err(),
        "service name cannot be all digits — it would clash with numeric IDs"
    );
    assert_eq!(
        reserve_entry(&mut reg, &request(Some("x"), "b"), &state(), false, now).unwrap_err(),
        "creating service directory for 'x'"
    );
    assert_eq!(reg.services.len(), 1);
    assert_eq!(reg.next_id, 2);
}

#[test]
fn what_is_recorded_lands_on_the_entry() {
    let mut reg = Registry::default();
    let now = now_utc();
    for name in ["a", "b"] {
        reserve_entry(&mut reg, &request(Some(name), "x"), &state(), true, now).expect("reserved");
    }
    record_worker_pid(&mut reg, 2, 77);
    record_command_pid(&mut reg, 2, 88);
    publish_url(&mut reg, 2, "https://x.trycloudflare.com".to_string(), Some(99));
    publish_url(&mut reg, 2, "https://y.trycloudflare.com".to_string(), Some(100));
    publish_url(&mut reg, 9, "https://z.trycloudflare.com".to_string(), Some(1));
    let s = &reg.services[1];
    assert_eq!(s.worker_pid, 77);
    assert_eq!(s.command_pid, Some(88));
    assert_eq!(s.public_url.as_deref(), Some("https://y.trycloudflare.com"));
    assert_eq!(s.tunnel_pid, Some(99), "a recorded pid stays");
    assert_eq!(reg.services[0].worker_pid, 0);
    assert_eq!(reg.services[0].public_url, None);
}

#[test]
fn entry_guard_removes_entry_on_drop() {
    let mut reg = Registry::default();
    let (id, _) =
        reserve_entry(&mut reg, &request(None, "x"), &state(), true, now_utc()).expect("reserved");
    assert!(reg.find(&id.to_string()).is_some(), "entry should exist before drop");
    remove_reservation(&mut reg, id);
    assert!(reg.find(&id.to_string()).is_none(), "the entry must be gone");
    remove_reservation(&mut reg, id);
    assert!(reg.services.is_empty());
}

// --- the bucket of an upload receiver ----------------------------------------

#[test]
fn resolve_token_trims_once_and_refuses_whitespace_only() {
    assert_eq!(
        resolve_token(Some("  sekrit  ".to_string()), &[0; 32]).expect("padded token"),
        "sekrit",
        "edge whitespace must be trimmed exactly once, at this boundary"
    );
    assert_eq!(
        resolve_token(Some("tok".to_string()), &[0; 32]).expect("clean token"),
        "tok",
        "a clean token passes through unchanged"
    );
    let err = resolve_token(Some("   ".to_string()), &[0; 32])
        .expect_err("a whitespace-only token authenticates nothing");
    assert!(
        err.contains("--token must be a non-empty secret"),
        "the refusal must name the rule, got: {err}"
    );
}

#[test]
fn resolve_token_mints_when_omitted() {
    let minted = resolve_token(None, &[0xc3; 32]).expect("minted token");
    assert_eq!(minted.len(), 64);
    assert!(minted.chars().all(|c| c.is_ascii_hexdigit() && !c.is_ascii_uppercase()));
}

fn drop_service(id: u64, name: &str, dir: Option<&str>) -> Service {
    Service {
        id,
        name: name.to_string(),
        kind: ServiceKind::Drop,
        dir: dir.map(str::to_string),
        port: 9000,
        local_url: "http://127.0.0.1:9000".to_string(),
        public_url: None,
        worker_pid: 0,
        tunnel_pid: None,
        command_pid: None,
        static_flags: StaticFlags::default(),
        created_at: now_utc(),
        state_dir: "/tmp/state".to_string(),
        foreground: false,
    }
}

fn static_service(id: u64, name: &str, dir: Option<&str>) -> Service {
    Service { kind: ServiceKind::Static, ..drop_service(id, name, dir) }
}

fn registry_of(services: Vec<Service>) -> Registry {
    Registry { next_id: services.len() as u64 + 1, services }
}

#[test]
fn conflict_found_for_the_same_directory() {
    let reg = registry_of(vec![drop_service(1, "first", Some("/tmp/bucket"))]);
    assert_eq!(
        find_drop_dir_conflict(&reg, &vec![path("/tmp/bucket")], &path("/tmp/bucket"), b'/')
            .as_deref(),
        Some("first")
    );
}

#[test]
fn conflict_found_through_path_aliases() {
    // An alias resolves to the same directory.
    let reg = registry_of(vec![drop_service(1, "first", Some("/tmp/alias"))]);
    assert_eq!(
        find_drop_dir_conflict(&reg, &vec![path("/tmp/real")], &path("/tmp/real/"), b'/').as_deref(),
        Some("first")
    );
}

#[test]
fn different_directory_is_no_conflict() {
    let reg = registry_of(vec![drop_service(1, "first", Some("/tmp/a"))]);
    assert_eq!(find_drop_dir_conflict(&reg, &vec![path("/tmp/a")], &path("/tmp/b"), b'/'), None);
    assert_eq!(find_drop_dir_conflict(&reg, &vec![path("/tmp/a")], &path("/tmp/a/c"), b'/'), None);
}

#[test]
fn static_publish_of_the_same_directory_is_no_conflict() {
    let reg = registry_of(vec![static_service(1, "site", Some("/tmp/bucket"))]);
    assert_eq!(
        find_drop_dir_conflict(&reg, &vec![path("/tmp/bucket")], &path("/tmp/bucket"), b'/'),
        None
    );
}

#[test]
fn unresolvable_existing_dir_is_no_conflict() {
    let reg = registry_of(vec![
        drop_service(1, "ghost", Some("/tmp/missing")),
        drop_service(2, "hand-edited", None),
    ]);
    assert_eq!(find_drop_dir_conflict(&reg, &vec![None, None], &path("/tmp/bucket"), b'/'), None);
}

#[test]
fn unresolvable_requested_dir_is_no_conflict() {
    let reg = registry_of(vec![drop_service(1, "first", None)]);
    assert_eq!(find_drop_dir_conflict(&reg, &vec![None], &None, b'/'), None);
}

#[test]
fn a_bucket_has_one_owner() {
    let mut reg = registry_of(vec![]);
    let q = drop_reservation("/srv/inbox", 9001, &None, 0, false);
    let bucket = path("/srv/inbox");
    let (id, name) =
        reserve_drop(&mut reg, &q, &vec![], &bucket, b'/', &state(), true, now_utc()).expect("free");
    assert_eq!((id, name.as_str()), (1, "drop-9001"));
    assert_eq!(reg.services[0].kind, ServiceKind::Drop);
    let resolved = vec![path("/srv/inbox")];
    assert_eq!(
        reserve_drop(&mut reg, &q, &resolved, &bucket, b'/', &state(), true, now_utc()).unwrap_err(),
        "directory /srv/inbox is already the upload target of drop service 'drop-9001' — one bucket, one owner (a second drop origin on the same directory would race its writes and stack its total-cap allowance)"
    );
    assert_eq!(reg.services.len(), 1);
}

#[test]
fn a_sensitive_bucket_is_refused() {
    assert!(check_bucket("/srv", false).is_ok());
    assert_eq!(
        check_bucket("/etc", true).unwrap_err(),
        "refusing to use /etc as a drop bucket: it is a sensitive directory, and uploads WRITE into it through a public tunnel"
    );
    assert_eq!(max_size_or_default(None), DEFAULT_MAX_SIZE);
    assert_eq!(max_size_or_default(Some(5)), 5);
    assert_eq!(keep_or_default(None), 200);
    assert_eq!(keep_or_default(Some(5)), 5);
    assert_eq!(open_hook_log(&state(), "gh"), "/state/services/gh/requests.json");
}

// --- waiting -----------------------------------------------------------------

#[test]
fn a_look_at_the_registry_settles_the_start() {
    let entry = |has_url, worker_alive| Snapshot::Entry { has_url, worker_alive };
    assert_eq!(poll_for_url(entry(true, false)), PollStep::Started);
    assert_eq!(poll_for_url(entry(true, true)), PollStep::Started);
    assert_eq!(poll_for_url(entry(false, false)), PollStep::WorkerGone);
    assert_eq!(poll_for_url(entry(false, true)), PollStep::Again);
    assert_eq!(poll_for_url(Snapshot::Gone), PollStep::WorkerGone);
    assert_eq!(poll_for_url(Snapshot::Unreadable), PollStep::Unreadable);
    assert_eq!(poll_for_url(Snapshot::Unchanged { worker_alive: true }), PollStep::Again);
    assert_eq!(poll_for_url(Snapshot::Unchanged { worker_alive: false }), PollStep::WorkerGone);
    assert!(!poll_expired(29_999));
    assert!(poll_expired(30_000));
}

#[test]
fn a_command_is_up_when_it_listens() {
    let url = Snapshot::Entry { has_url: true, worker_alive: true };
    let no_url = Snapshot::Entry { has_url: false, worker_alive: true };
    let unchanged = Snapshot::Unchanged { worker_alive: true };
    let at = |url_seen, origin_up| Progress { url_seen, origin_up };
    assert_eq!(Progress::new(), at(false, false));
    assert_eq!(poll_run(url, true, at(false, false)), (PollStep::Started, at(true, true)));
    assert_eq!(poll_run(url, false, at(false, true)), (PollStep::Again, at(true, false)));
    assert_eq!(poll_run(unchanged, true, at(true, false)), (PollStep::Started, at(true, true)));
    assert_eq!(poll_run(unchanged, false, at(true, true)), (PollStep::Again, at(true, false)));
    assert_eq!(poll_run(unchanged, true, at(false, false)), (PollStep::Again, at(false, true)));
    assert_eq!(poll_run(no_url, true, at(true, true)), (PollStep::Again, at(false, true)));
    assert_eq!(poll_run(Snapshot::Gone, false, at(true, true)), (PollStep::WorkerGone, at(true, true)));
    assert_eq!(
        poll_run(Snapshot::Unreadable, true, at(true, false)),
        (PollStep::Unreadable, at(true, false))
    );
    assert_eq!(
        poll_run(Snapshot::Unchanged { worker_alive: false }, true, at(true, false)),
        (PollStep::WorkerGone, at(true, false))
    );
}

#[test]
fn a_port_that_answers_after_the_url_brings_a_command_up() {
    let mut progress = Progress::new();
    let looks = [
        (Snapshot::Unchanged { worker_alive: true }, false),
        (Snapshot::Entry { has_url: true, worker_alive: true }, false),
        (Snapshot::Unchanged { worker_alive: true }, false),
        (Snapshot::Unchanged { worker_alive: true }, false),
    ];
    for (snapshot, origin_ready) in looks {
        match next_wait(ServiceKind::Run, progress, Wakeup::Looked { snapshot, origin_ready }) {
            Waiting::Again { progress: now } => progress = now,
            other => panic!("settled too early: {other:?}"),
        }
    }
    let last = Wakeup::Looked {
        snapshot: Snapshot::Unchanged { worker_alive: true },
        origin_ready: true,
    };
    assert_eq!(next_wait(ServiceKind::Run, progress, last), Waiting::Started);
}

#[test]
fn the_way_to_a_worker() {
    let mut step = first_setup();
    let mut steps = vec![step];
    while let AfterSetup::Next(next) = next_setup(ServiceKind::Drop, step, true) {
        step = next;
        steps.push(step);
    }
    assert_eq!(
        steps,
        vec![
            SetupStep::FindTunnel,
            SetupStep::EnsureState,
            SetupStep::Reserve,
            SetupStep::StoreToken,
            SetupStep::SpawnWorker,
            SetupStep::RecordWorker,
        ]
    );
    assert_eq!(next_setup(ServiceKind::Drop, step, true), AfterSetup::Wait);
    assert_eq!(
        next_setup(ServiceKind::Hook, SetupStep::Reserve, true),
        AfterSetup::Next(SetupStep::SpawnWorker)
    );
    assert_eq!(next_setup(ServiceKind::Hook, SetupStep::Reserve, false), AfterSetup::Fail);
    assert_eq!(
        next_setup(ServiceKind::Hook, SetupStep::SpawnWorker, false),
        AfterSetup::ReleaseAndFail
    );
    for kind in [ServiceKind::Static, ServiceKind::Run, ServiceKind::Drop] {
        assert_eq!(
            next_setup(kind, SetupStep::RecordWorker, false),
            AfterSetup::TearDownAndFail
        );
    }
}

#[test]
fn the_end_of_the_waiting() {
    let look = |snapshot| Wakeup::Looked { snapshot, origin_ready: false };
    let url = Snapshot::Entry { has_url: true, worker_alive: true };
    let fresh = Progress::new();
    let up = Progress { url_seen: false, origin_up: true };
    assert_eq!(next_wait(ServiceKind::Static, fresh, look(url)), Waiting::Started);
    assert_eq!(
        next_wait(ServiceKind::Run, up, look(url)),
        Waiting::Again { progress: Progress { url_seen: true, origin_up: false } }
    );
    assert_eq!(
        next_wait(ServiceKind::Run, up, Wakeup::Expired),
        Waiting::TearDownAndFail { why: WaitFailure::TimedOut, origin_up: true }
    );
    assert_eq!(
        next_wait(ServiceKind::Static, fresh, look(Snapshot::Gone)),
        Waiting::TearDownAndFail { why: WaitFailure::WorkerGone, origin_up: false }
    );
    for kind in [ServiceKind::Static, ServiceKind::Run, ServiceKind::Drop] {
        assert_eq!(
            next_wait(kind, fresh, look(Snapshot::Unreadable)),
            Waiting::TearDownAndFail { why: WaitFailure::Unreadable, origin_up: false }
        );
    }
}

// --- the reason of a failed start --------------------------------------------

#[test]
fn the_last_line_that_says_something() {
    assert_eq!(last_text_line("a\n  b \r\n\n \n", false).as_deref(), Some("b"));
    assert_eq!(last_text_line("", false), None);
    assert_eq!(last_text_line("part of a line\nwhole\n", true).as_deref(), Some("whole"));
    assert_eq!(last_text_line("part of a line\n", true), None);
    assert_eq!(last_text_line("one long line", true).as_deref(), Some("one long line"));
    assert_eq!(last_line(b"x\n\xffy\n", 4).as_deref(), Some("\u{fffd}y"));
    assert_eq!(last_line(b"x\n", LAST_REASON_CAP), Some("x".to_string()));
    assert_eq!(last_line(b"x\n", LAST_REASON_CAP + 1), None);
    assert_eq!(last_line_offset(LAST_REASON_CAP), 0);
    assert_eq!(last_line_offset(LAST_REASON_CAP + 7), 7);
}

#[test]
fn what_is_told_of_a_failed_start() {
    let line = |s: &str| Some(s.to_string());
    assert_eq!(last_reason(line("t"), line("w")), ":\n  t");
    assert_eq!(last_reason(None, line("w")), ":\n  w");
    assert_eq!(last_reason(None, None), "");
    assert_eq!(last_run_reason(line("w"), line("t")), ":\n  w");
    assert_eq!(
        fail_start("web", ":\n  t"),
        "worker for 'web' exited before the tunnel came up:\n  t"
    );
    assert_eq!(fail_timeout(""), "timed out waiting for the tunnel URL");
    let command = [b"npm".to_vec(), b"start".to_vec()];
    assert_eq!(
        fail_run_start("web", &command, true, "!"),
        "'npm start' exited before the tunnel came up!"
    );
    assert_eq!(
        fail_run_start("web", &command, false, "!"),
        "worker for 'web' exited before the tunnel came up!"
    );
    assert_eq!(fail_run_timeout(&command, 3000, true, "!"), "timed out waiting for the tunnel URL!");
    assert_eq!(
        fail_run_timeout(&command, 3000, false, "!"),
        "'npm start' never started listening on 127.0.0.1:3000 — the server never came up, so no tunnel was left behind!"
    );
}

#[test]
fn command_display_joins_the_argv() {
    assert_eq!(
        command_display(&[b"npm".to_vec(), b"run".to_vec(), b"dev".to_vec()]),
        "npm run dev"
    );
    assert_eq!(command_display(&[]), "");
    assert_eq!(command_display(&[vec![0xff]]), "\u{fffd}");
}

#[test]
fn a_command_needs_itself_and_its_port() {
    assert!(check_run(&[b"x".to_vec()], 1, true).is_ok());
    assert_eq!(
        check_run(&[], 1, true).unwrap_err(),
        "no command given after `--` — pass the command to run and tunnel, e.g. `ft run --port 3000 -- npm start`"
    );
    assert_eq!(
        check_run(&[b"x".to_vec()], 1, false).unwrap_err(),
        "port 1 is already in use — the command ft spawns must be able to bind it (is another instance of your server still running?)"
    );
}

// --- the foreground ----------------------------------------------------------

#[test]
fn the_kind_follows_the_origin() {
    assert_eq!(foreground_kind(true, false), ServiceKind::Static);
    assert_eq!(foreground_kind(false, true), ServiceKind::Run);
    assert_eq!(foreground_kind(false, false), ServiceKind::Proxy);
    assert_eq!(base_for(ServiceKind::Static, Some("/srv/my blog"), b'/', 1), "my-blog");
    assert_eq!(base_for(ServiceKind::Run, None, b'/', 3000), "run-3000");
    assert_eq!(base_for(ServiceKind::Proxy, None, b'/', 3000), "proxy-3000");
    assert_eq!(base_for(ServiceKind::Hook, None, b'/', 9000), "hook-9000");
    assert_eq!(base_for(ServiceKind::Drop, Some("/srv/inbox"), b'/', 9001), "drop-9001");
}

#[test]
fn a_command_is_spawned_with_everything_in_place() {
    assert_eq!(
        foreground_steps(ServiceKind::Run),
        vec![
            UpStep::Reserve,
            UpStep::OpenTunnelLog,
            UpStep::WatchSignals,
            UpStep::OpenCommandLog,
            UpStep::SpawnCommand,
            UpStep::RecordCommand,
            UpStep::CopyCommand,
            UpStep::SpawnTunnel,
            UpStep::Announce,
        ]
    );
    assert_eq!(
        unwound(ServiceKind::Run, UpStep::SpawnTunnel),
        vec![DownStep::EndCommand, DownStep::ReleaseEntry]
    );
    assert_eq!(
        unwound(ServiceKind::Static, UpStep::SpawnTunnel),
        vec![DownStep::AbortServer, DownStep::ReleaseEntry]
    );
    assert_eq!(
        unwound(ServiceKind::Drop, UpStep::SpawnTunnel),
        vec![DownStep::AbortServer, DownStep::ReleaseEntry]
    );
    assert_eq!(
        unwound(ServiceKind::Proxy, UpStep::SpawnTunnel),
        vec![DownStep::ReleaseEntry]
    );
    assert_eq!(
        unwound(ServiceKind::Run, UpStep::OpenCommandLog),
        vec![DownStep::ReleaseEntry]
    );
    assert_eq!(unwound(ServiceKind::Hook, UpStep::OpenStore), vec![DownStep::ReleaseEntry]);
    assert!(unwound(ServiceKind::Run, UpStep::Reserve).is_empty());
}

/// What is undone when the step fails.
fn unwound(kind: ServiceKind, failed: UpStep) -> Vec<DownStep> {
    let reached = foreground_steps(kind).iter().position(|s| *s == failed).unwrap();
    foreground_unwind(kind, reached)
}

#[test]
fn every_end_in_the_foreground_releases_the_entry() {
    for kind in [
        ServiceKind::Static,
        ServiceKind::Proxy,
        ServiceKind::Run,
        ServiceKind::Hook,
        ServiceKind::Drop,
    ] {
        let steps = foreground_steps(kind);
        assert!(!holds_entry(kind, 0));
        for reached in 0..steps.len() {
            let released = foreground_unwind(kind, reached).last() == Some(&DownStep::ReleaseEntry);
            assert_eq!(released, holds_entry(kind, reached));
        }
        assert!(holds_entry(kind, steps.len()));
        for exit in [ReaderExit::ChildExited, ReaderExit::CommandExited, ReaderExit::Signal] {
            assert_eq!(foreground_teardown(kind, exit).last(), Some(&DownStep::ReleaseEntry));
        }
    }
}

#[test]
fn a_failed_wait_is_told_by_kind_and_reason() {
    let command = [b"npm".to_vec(), b"start".to_vec()];
    let told = |kind, why, up, tunnel: Option<&str>, worker: Option<&str>| {
        let (tunnel, worker) = (tunnel.map(str::to_owned), worker.map(str::to_owned));
        failure_text(kind, why, "web", &command, 3000, up, tunnel, worker)
    };
    let (tunnel, worker) = (Some("t"), Some("w"));
    assert_eq!(
        told(ServiceKind::Static, WaitFailure::TimedOut, false, tunnel, worker).unwrap(),
        "timed out waiting for the tunnel URL:\n  t"
    );
    assert_eq!(
        told(ServiceKind::Drop, WaitFailure::WorkerGone, false, None, worker).unwrap(),
        "worker for 'web' exited before the tunnel came up:\n  w"
    );
    // A command's own log speaks first.
    assert_eq!(
        told(ServiceKind::Run, WaitFailure::TimedOut, true, tunnel, worker).unwrap(),
        "timed out waiting for the tunnel URL:\n  w"
    );
    assert_eq!(
        told(ServiceKind::Run, WaitFailure::TimedOut, false, tunnel, None).unwrap(),
        "'npm start' never started listening on 127.0.0.1:3000 — the server never came up, \
         so no tunnel was left behind:\n  t"
    );
    assert_eq!(
        told(ServiceKind::Run, WaitFailure::WorkerGone, true, None, None).unwrap(),
        "'npm start' exited before the tunnel came up"
    );
    assert_eq!(
        told(ServiceKind::Run, WaitFailure::WorkerGone, false, tunnel, worker).unwrap(),
        "worker for 'web' exited before the tunnel came up:\n  w"
    );
    assert_eq!(told(ServiceKind::Run, WaitFailure::Unreadable, true, tunnel, worker), None);
    assert_eq!(
        unreadable_context(ServiceKind::Drop).unwrap(),
        "re-reading the registry during the drop start poll"
    );
    assert_eq!(unreadable_context(ServiceKind::Static), None);
}

#[test]
fn going_down_leaves_nothing() {
    assert_eq!(
        foreground_teardown(ServiceKind::Run, ReaderExit::Signal),
        vec![
            DownStep::EndTunnel,
            DownStep::EndCommand,
            DownStep::StopCopying,
            DownStep::ReleaseEntry,
        ]
    );
    assert_eq!(
        foreground_teardown(ServiceKind::Run, ReaderExit::ChildExited),
        vec![DownStep::EndCommand, DownStep::StopCopying, DownStep::ReleaseEntry]
    );
    assert_eq!(
        foreground_teardown(ServiceKind::Drop, ReaderExit::ChildExited),
        vec![DownStep::StopCopying, DownStep::DrainServer, DownStep::ReleaseEntry]
    );
    assert_eq!(
        foreground_teardown(ServiceKind::Run, ReaderExit::CommandExited),
        vec![
            DownStep::EndTunnel,
            DownStep::EndCommand,
            DownStep::StopCopying,
            DownStep::ReleaseEntry,
        ]
    );
    assert!(foreground_result(ReaderExit::Signal, &[]).is_ok());
    assert!(foreground_result(ReaderExit::ChildExited, &[]).is_ok());
    assert_eq!(
        foreground_result(ReaderExit::CommandExited, &[b"npm".to_vec()]).unwrap_err(),
        "command 'npm' exited — tunnel torn down"
    );
}

#[test]
fn only_the_first_url_is_announced() {
    let mut found = false;
    assert_eq!(drain_and_announce(&mut found, "starting"), None);
    assert!(!found);
    assert_eq!(
        drain_and_announce(&mut found, "| https://a.trycloudflare.com |").as_deref(),
        Some("https://a.trycloudflare.com")
    );
    assert!(found);
    assert_eq!(drain_and_announce(&mut found, "https://b.trycloudflare.com"), None);
    assert_eq!(
        announcement_text("web", 8080, "https://a.trycloudflare.com"),
        "\nStarted web\n\nLocal:   http://127.0.0.1:8080\nPublic:  https://a.trycloudflare.com\n\n"
    );
}

// --- opening -----------------------------------------------------------------

#[test]
fn only_tunnels_are_opened() {
    let mut reg = registry_of(vec![drop_service(1, "web", Some("/x"))]);
    assert_eq!(url_to_open(&reg, "nope").unwrap_err(), "no service matches 'nope'");
    assert_eq!(url_to_open(&reg, "web").unwrap_err(), "service 'web' has no public URL yet");
    reg.services[0].public_url = Some("https://evil.example".to_string());
    assert_eq!(
        url_to_open(&reg, "1").unwrap_err(),
        "service 'web' has a malformed public URL (expected https://*.trycloudflare.com)"
    );
    reg.services[0].public_url = Some("https://a.trycloudflare.com".to_string());
    assert_eq!(url_to_open(&reg, "web"), Ok("https://a.trycloudflare.com".to_string()));
}

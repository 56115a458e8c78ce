//! What the commands show.

use freeoxide_tunnel::clock::Timestamp;
use freeoxide_tunnel::cmd::doctor::{Check, CheckStatus};
use freeoxide_tunnel::cmd::logs::{
    caught_up, no_log_yet, print_tail, tail_header, tail_lines, tail_offset, text_lines, Follower,
    READ_CAP,
};
use freeoxide_tunnel::model::{Service, ServiceKind, ServiceStatus, StaticFlags};
use freeoxide_tunnel::output::{
    list_table, print_detail, print_doctor, print_drop_token, print_list, print_removed_stale,
    print_sanitized, print_started, print_stopped, Removal,
};

fn service(kind: ServiceKind) -> Service {
    Service {
        id: 7,
        name: "web".to_string(),
        kind,
        dir: Some("/srv/web".to_string()),
        port: 8080,
        local_url: "http://127.0.0.1:8080".to_string(),
        public_url: Some("https://web.trycloudflare.com".to_string()),
        worker_pid: 42,
        tunnel_pid: Some(43),
        static_flags: StaticFlags { spa: true, cors: false, token: Some("sekrit".to_string()) },
        command_pid: None,
        created_at: Timestamp { secs: 1_784_592_000, nanos: 0 },
        state_dir: "/state/services/web".to_string(),
        foreground: false,
    }
}

#[test]
fn a_start_shows_where_the_service_is() {
    assert_eq!(
        print_started(&service(ServiceKind::Static)),
        vec![
            "Started web",
            "",
            "ID:      7",
            "Local:   http://127.0.0.1:8080",
            "Public:  https://web.trycloudflare.com",
            "Logs:    /state/services/web/",
        ]
    );
    let mut s = service(ServiceKind::Static);
    s.public_url = None;
    assert_eq!(print_started(&s)[4], "Public:  (pending)");
}

#[test]
fn the_token_is_shown_with_an_example() {
    assert_eq!(
        print_drop_token("tok", "https://x"),
        vec![
            "",
            "Token:   tok",
            "",
            "Uploads REQUIRE this token (POST/PUT; GET downloads are public), e.g.:",
            "  curl -H \"Authorization: Bearer tok\" --data-binary @file.txt https://x/file.txt",
            "Recover it later with `ft detail <name>`.",
        ]
    );
}

#[test]
fn the_list_is_a_table() {
    assert_eq!(print_list(&vec![], &vec![], Some(80)), "(no services)");
    let services = vec![service(ServiceKind::Static)];
    let statuses = vec![ServiceStatus::Running];
    assert_eq!(
        list_table(&services, &statuses),
        vec![vec!["7", "web", "running", "8080", "https://web.trycloudflare.com"]]
    );
    assert_eq!(
        print_list(&services, &statuses, None),
        [
            "╭────┬──────┬─────────┬──────┬───────────────────────────────╮",
            "│ ID ┆ NAME ┆ STATUS  ┆ PORT ┆ URL                           │",
            "╞════╪══════╪═════════╪══════╪═══════════════════════════════╡",
            "│ 7  ┆ web  ┆ running ┆ 8080 ┆ https://web.trycloudflare.com │",
            "╰────┴──────┴─────────┴──────┴───────────────────────────────╯",
        ]
        .join("\n")
    );
}

#[test]
fn a_narrow_terminal_narrows_the_list() {
    let services = vec![service(ServiceKind::Static)];
    let statuses = vec![ServiceStatus::Running];
    let wide = print_list(&services, &statuses, Some(120));
    assert_eq!(wide, print_list(&services, &statuses, None));
    let narrow = print_list(&services, &statuses, Some(50));
    assert_ne!(narrow, wide);
    assert!(narrow.split('\n').all(|line| line.chars().count() <= 50));
}

#[test]
fn a_static_service_in_detail() {
    let lines = print_detail(&service(ServiceKind::Static), ServiceStatus::Running, None, b'/')
        .expect("the calendar reaches the instant");
    assert_eq!(
        lines,
        vec![
            "Name:         web",
            "ID:           7",
            "Status:       running",
            "Mode:         background",
            "Directory:    /srv/web",
            "SPA:          on",
            "CORS:         off",
            "Token:        sekrit",
            "Port:         8080",
            "Worker PID:   42",
            "Tunnel PID:   43",
            "Command PID:  -",
            "Started:      2026-07-21 00:00",
            "Local URL:    http://127.0.0.1:8080",
            "Public URL:   https://web.trycloudflare.com",
            "",
            "Logs:",
            "  /state/services/web/worker.log",
            "  /state/services/web/server.log",
            "  /state/services/web/tunnel.log",
        ]
    );
}

#[test]
fn every_kind_shows_what_it_has() {
    let detail = |kind| {
        print_detail(&service(kind), ServiceStatus::Stale, Some("tok"), b'/').expect("a date").join("\n")
    };
    let proxy = detail(ServiceKind::Proxy);
    assert!(proxy.contains("Mode:         proxy\nUpstream:     http://127.0.0.1:8080\nPort:"));
    assert!(detail(ServiceKind::Run).contains("Mode:         run\nPort:"));
    let hook = detail(ServiceKind::Hook);
    assert!(hook.contains("Mode:         hook\nPort:"));
    assert!(hook.contains("worker.log\n  /state/services/web/requests.json\n"));
    let bucket = detail(ServiceKind::Drop);
    assert!(bucket.contains("Mode:         drop\nDirectory:    /srv/web\nPort:"));
    assert!(bucket.contains("\nToken:        tok\n\nLogs:"));
    let mut s = service(ServiceKind::Drop);
    s.dir = None;
    let bare = print_detail(&s, ServiceStatus::Stale, None, b'/').expect("a date");
    assert_eq!(bare[4], "Directory:    -");
    assert!(bare.contains(&"Token:        -".to_string()));
    s.created_at = Timestamp { secs: i64::MAX, nanos: 0 };
    assert!(print_detail(&s, ServiceStatus::Stale, None, b'/').is_none());
}

fn check(status: CheckStatus, hint: Option<&str>) -> Check {
    Check {
        name: "worker web".to_string(),
        status,
        detail: "d".to_string(),
        hint: hint.map(str::to_string),
    }
}

#[test]
fn the_doctor_aligns_names_and_hints() {
    let found = Check {
        name: "cloudflared".to_string(),
        status: CheckStatus::Pass,
        detail: "found at /usr/local/bin/cloudflared".to_string(),
        hint: None,
    };
    assert_eq!(
        print_doctor(&vec![found]).join("\n"),
        "ok    cloudflared: found at /usr/local/bin/cloudflared\n\nall checks passed"
    );
}

#[test]
fn the_doctor_counts_problems_and_notes() {
    assert_eq!(
        print_doctor(&vec![check(CheckStatus::Pass, None)]),
        vec!["ok    worker web: d", "", "all checks passed"]
    );
    assert_eq!(
        print_doctor(&vec![
            check(CheckStatus::Note, Some("unseen")),
            check(CheckStatus::Warn, Some("do this")),
            check(CheckStatus::Fail, None),
        ]),
        vec![
            "ok    worker web: d",
            "warn  worker web: d",
            "      hint: do this",
            "fail  worker web: d",
            "",
            "2 problem(s), 1 note(s)",
        ]
    );
}

#[test]
fn a_clean_up_tells_what_it_did() {
    assert_eq!(print_sanitized(&vec![], &vec![]), vec!["Nothing to clean."]);
    let removed =
        vec![Removal { name: "demo".to_string(), reason: "worker no longer running".to_string() }];
    assert_eq!(
        print_sanitized(&removed, &vec!["web".to_string()]),
        vec![
            "Sanitized 1 service(s):",
            "  - demo (worker no longer running)",
            "Left 1 foreground service(s) alone (stop it with Ctrl-C in its terminal):",
            "  - web",
        ]
    );
    assert_eq!(print_stopped("web"), "Stopped web.");
    assert_eq!(print_removed_stale("web"), "Removed stale service web.");
}

// --- logs --------------------------------------------------------------------

#[test]
fn lines_end_with_a_line_feed() {
    for text in ["", "a", "a\n", "a\r\nb\r", "\n\n", "a\n\nb", "\r\n", "a\r\r\nb"] {
        let expected: Vec<&str> = text.lines().collect();
        assert_eq!(text_lines(text), expected, "{text:?}");
    }
}

#[test]
fn the_end_of_a_log_is_forty_lines() {
    let text: String = (0..45).map(|i| format!("line {i}\n")).collect();
    let tail = tail_lines(&text);
    assert_eq!(tail.len(), 40);
    assert_eq!(tail[0], "line 5");
    assert_eq!(tail[39], "line 44");
    assert_eq!(print_tail(b"a\n\xffb\n"), vec!["a", "\u{fffd}b"]);
    assert_eq!(tail_offset(READ_CAP as u64), 0);
    assert_eq!(tail_offset(READ_CAP as u64 + 3), 3);
    assert_eq!(tail_header("tunnel"), "--- tunnel ---");
    assert_eq!(no_log_yet("tunnel"), "  (no tunnel.log yet)");
}

#[test]
fn a_followed_log_is_shown_by_whole_lines() {
    let mut f = Follower::new();
    assert_eq!(f.make_room().0, READ_CAP);
    assert_eq!(f.drain_appended("one\ntwo".as_bytes()), vec!["one"]);
    assert_eq!(f.make_room().0, READ_CAP - 3);
    // A character that is cut in two is put together again.
    let smile = "ü".as_bytes();
    assert!(f.drain_appended(&smile[..1]).is_empty());
    assert_eq!(f.drain_appended(&[smile[1], b'\n']), vec!["twoü"]);
    assert!(f.leftover.is_empty());
    assert!(caught_up(3, 4));
    assert!(!caught_up(4, 4));
}

#[test]
fn a_line_without_an_end_is_shown_when_it_fills_the_room() {
    let mut f = Follower::new();
    assert!(f.drain_appended(&vec![b'x'; READ_CAP]).is_empty());
    let (room, shown) = f.make_room();
    assert_eq!(room, READ_CAP);
    assert_eq!(shown, vec!["x".repeat(READ_CAP)]);
    assert!(f.leftover.is_empty());
}

#[test]
fn a_line_that_fills_the_room_is_cut_between_characters() {
    let mut f = Follower::new();
    let mut line = vec![b'x'; READ_CAP - 2];
    line.extend_from_slice(&"€".as_bytes()[..2]);
    assert!(f.drain_appended(&line).is_empty());
    let (room, shown) = f.make_room();
    assert_eq!(shown, vec!["x".repeat(READ_CAP - 2)]);
    assert_eq!(room, READ_CAP - 2);
    assert_eq!(f.drain_appended(&["€".as_bytes()[2], b'\n']), vec!["€"]);
    // What is no text is shown as it stands.
    assert!(f.drain_appended(&vec![0x80; READ_CAP]).is_empty());
    assert_eq!(f.make_room().0, READ_CAP);
    assert!(f.leftover.is_empty());
}

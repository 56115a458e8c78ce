//! The webhook receiver.

use freeoxide_tunnel::clock::{now_utc, Timestamp};
use freeoxide_tunnel::server::hook_server::{
    absolute_read_bound, inspect_html, is_recorded_header, record_answer, render_inspection, router,
    router_layers, store_read_bound, Header, HookLog, Layer, RecordedRequest, Recording,
    RequestHead, Route, StoreRead, INSPECT_PATH, JSON_ESCAPE_FACTOR, JSON_PATH, MAX_KEEP,
    MAX_REQUEST_BODY, STORE_RECORD_OVERHEAD,
};
use freeoxide_tunnel::server::http::Method;

fn parts(method: &str, uri: &str, headers: &[(&str, &str)]) -> RequestHead {
    let (path, query) = match uri.split_once('?') {
        Some((p, q)) => (p.to_string(), Some(q.to_string())),
        None => (uri.to_string(), None),
    };
    RequestHead {
        method: method.to_string(),
        path,
        query,
        headers: headers
            .iter()
            .map(|(n, v)| Header { name: n.to_string(), value: Some(v.to_string()) })
            .collect(),
    }
}

fn capture(seq: u64, head: &RequestHead, body: &[u8]) -> RecordedRequest {
    RecordedRequest::capture(seq, head, body, now_utc())
}

/// What the store's file gives back of the records.
fn stored(log: &HookLog) -> StoreRead {
    StoreRead::Blob { bytes: b"[...]".to_vec(), decoded: Some(log.snapshot()) }
}

fn text_of(records: &[RecordedRequest]) -> String {
    format!("{records:?}")
}

#[test]
fn hook_server_capture_records_method_path_query_and_selected_headers() {
    let head = parts(
        "POST",
        "/hooks/github?state=42",
        &[
            ("content-type", "application/json"),
            ("x-github-event", "push"),
            ("user-agent", "GitHub-Hookshot/abc"),
        ],
    );
    let r = capture(7, &head, b"{\"a\":1}");
    assert_eq!(r.seq, 7);
    assert_eq!(r.method, "POST");
    assert_eq!(r.path, "/hooks/github");
    assert_eq!(r.query.as_deref(), Some("state=42"));
    assert_eq!(
        r.headers,
        vec![
            ("content-type".to_string(), "application/json".to_string()),
            ("x-github-event".to_string(), "push".to_string()),
            ("user-agent".to_string(), "GitHub-Hookshot/abc".to_string()),
        ]
    );
    assert_eq!(r.body, "{\"a\":1}");
    assert_eq!(r.body_len, 7);
    assert!(!r.truncated);
}

#[test]
fn hook_server_capture_never_records_credential_headers() {
    let head = parts(
        "POST",
        "/x",
        &[
            ("authorization", "Bearer sekrit"),
            ("cookie", "session=sekrit"),
            ("x-hub-signature-256", "sha256=sekrit"),
            ("x-api-key", "sekrit"),
            ("content-type", "text/plain"),
        ],
    );
    let r = capture(1, &head, b"");
    assert_eq!(
        r.headers,
        vec![("content-type".to_string(), "text/plain".to_string())],
        "only allowlisted headers may be recorded: {:?}",
        r.headers
    );
}

#[test]
fn hook_server_capture_caps_the_body_and_flags_truncation() {
    let big = vec![b'x'; MAX_REQUEST_BODY + 1234];
    let head = parts("POST", "/x", &[]);
    let r = capture(1, &head, &big);
    assert_eq!(r.body_len, MAX_REQUEST_BODY + 1234);
    assert_eq!(r.body.len(), MAX_REQUEST_BODY);
    assert!(r.truncated);
}

#[test]
fn hook_server_capture_preserves_non_utf8_bodies_lossily() {
    let head = parts("POST", "/x", &[]);
    let binary = [0xff, 0xfe, b'a', b'b'];
    let r = capture(1, &head, &binary);
    assert_eq!(r.body_len, 4);
    assert!(r.body.contains('\u{FFFD}'), "lossy decode expected: {:?}", r.body);
}

#[test]
fn hook_server_hook_log_keeps_only_the_newest_requests() {
    let mut log = HookLog::load(3, StoreRead::Missing).expect("load");
    for seq in 1..=5u64 {
        let head = parts("GET", &format!("/{seq}"), &[]);
        log.record(capture(seq, &head, b""));
    }
    assert_eq!(log.len(), 3);
    let snap = log.snapshot();
    let seqs: Vec<u64> = snap.iter().map(|r| r.seq).collect();
    assert_eq!(seqs, vec![5, 4, 3], "newest first, oldest evicted");
    let reloaded = HookLog::load(3, stored(&log)).expect("reload");
    assert_eq!(text_of(&reloaded.snapshot()), text_of(&snap));
}

#[test]
fn hook_server_hook_log_persists_and_reloads_with_continuing_seqs() {
    let mut first = HookLog::load(10, StoreRead::Missing).expect("load");
    let head = parts("POST", "/first", &[]);
    first.record(capture(1, &head, b"one"));
    let mut log = HookLog::load(10, stored(&first)).expect("reload");
    assert_eq!(log.snapshot().len(), 1);
    assert_eq!(log.snapshot()[0].path, "/first");
    let seq = log.next_seq();
    let head = parts("POST", "/second", &[]);
    log.record(capture(seq, &head, b"two"));
    let snap = log.snapshot();
    assert_eq!(snap.len(), 2);
    assert_eq!(snap[0].path, "/second", "newest first after reload");
    assert_eq!(snap[0].seq, 2, "seq continues past the loaded max");
}

#[test]
fn hook_server_load_saturates_a_hand_edited_max_seq_counter_and_still_appends() {
    let mut seed = HookLog::load(5, StoreRead::Missing).expect("seed load");
    let head = parts("POST", "/seed", &[]);
    seed.record(capture(u64::MAX, &head, b"seed"));
    let mut log = HookLog::load(5, stored(&seed)).expect("reload at MAX seq");
    assert_eq!(
        log.next_seq,
        u64::MAX,
        "the reloaded counter must saturate at u64::MAX, not wrap to 0"
    );
    let seq = log.next_seq();
    assert_eq!(seq, u64::MAX, "next_seq saturates at u64::MAX instead of overflowing");
    let head = parts("POST", "/after", &[]);
    log.record(capture(seq, &head, b"after"));
    assert_eq!(log.len(), 2);
    let reloaded = HookLog::load(5, stored(&log)).expect("reload after the append");
    let paths: Vec<String> = reloaded.snapshot().into_iter().map(|r| r.path).collect();
    assert_eq!(paths, vec!["/after", "/seed"]);
}

#[test]
fn hook_server_load_treats_an_oversized_store_as_corruption() {
    let log = HookLog::load(200, StoreRead::Oversized)
        .expect("an oversized store still loads (as empty)");
    assert_eq!(log.len(), 0, "oversized store must load as empty");
}

#[test]
fn hook_server_lowering_keep_loads_a_fat_legit_store_and_truncates_it() {
    let mut seed = HookLog::load(10, StoreRead::Missing).expect("seed load");
    for seq in 1..=5u64 {
        let head = parts("POST", &format!("/{seq}"), &[]);
        let body = vec![0u8; MAX_REQUEST_BODY];
        seed.record(capture(seq, &head, &body));
    }
    let reloaded = HookLog::load(1, stored(&seed)).expect("reload with a lowered keep");
    let snap = reloaded.snapshot();
    assert_eq!(snap.len(), 1, "load-and-truncate, not wipe");
    assert_eq!(snap[0].seq, 5, "the NEWEST record survives the truncation");
    assert_eq!(snap[0].body.len(), MAX_REQUEST_BODY);
}

#[test]
fn hook_server_load_clamps_an_over_max_keep_to_the_supported_ceiling() {
    let over_max = MAX_KEEP + 200;
    let mut log = HookLog::load(over_max, StoreRead::Missing).expect("load");
    assert_eq!(log.keep, MAX_KEEP, "the keep must clamp to the supported max");
    for seq in 1..=3u64 {
        let head = parts("POST", &format!("/{seq}"), &[]);
        log.record(capture(seq, &head, b"x"));
    }
    let reloaded = HookLog::load(over_max, stored(&log)).expect("reload");
    assert_eq!(reloaded.keep, MAX_KEEP, "the clamp holds across reloads");
    assert_eq!(reloaded.snapshot().len(), 3, "records survive the reload");
}

#[test]
fn hook_server_hook_log_survives_a_corrupt_store() {
    let read = StoreRead::Blob { bytes: b"{ this is not json".to_vec(), decoded: None };
    let log = HookLog::load(5, read).expect("a corrupt store still loads (as empty)");
    assert_eq!(log.len(), 0, "corrupt store loads as empty");
}

#[test]
fn hook_server_load_starts_empty_when_the_store_does_not_exist() {
    let log = HookLog::load(5, StoreRead::Missing).expect("a missing store must load as empty");
    assert_eq!(log.len(), 0);
}

#[test]
fn hook_server_load_fails_fast_on_a_non_not_found_read_error_without_clobbering() {
    assert!(
        HookLog::load(5, StoreRead::Failed).is_err(),
        "a non-NotFound read error must fail the load"
    );
}

#[test]
fn records_are_loaded_newest_first_whatever_their_order() {
    let head = parts("GET", "/x", &[]);
    let read = StoreRead::Blob {
        bytes: b"[...]".to_vec(),
        decoded: Some(vec![capture(2, &head, b""), capture(9, &head, b""), capture(4, &head, b"")]),
    };
    let log = HookLog::load(2, read).expect("load");
    let seqs: Vec<u64> = log.snapshot().iter().map(|r| r.seq).collect();
    assert_eq!(seqs, vec![9, 4]);
    assert_eq!(log.next_seq, 10);
}

#[test]
fn records_with_one_number_keep_their_order() {
    let read = StoreRead::Blob {
        bytes: b"[...]".to_vec(),
        decoded: Some(vec![
            capture(u64::MAX, &parts("GET", "/newer", &[]), b""),
            capture(3, &parts("GET", "/old", &[]), b""),
            capture(u64::MAX, &parts("GET", "/older", &[]), b""),
        ]),
    };
    let log = HookLog::load(10, read).expect("load");
    let paths: Vec<String> = log.snapshot().iter().map(|r| r.path.clone()).collect();
    assert_eq!(paths, vec!["/newer", "/older", "/old"]);
    assert_eq!(log.next_seq, u64::MAX);
}

#[test]
fn no_header_that_ends_like_a_credential_is_recorded() {
    for name in ["authorization", "cookie", "x-gitlab-token", "x-hub-signature", "client-secret"] {
        assert!(!is_recorded_header(name), "{name}");
    }
}

#[test]
fn the_bound_covers_escaped_bodies_and_heads() {
    let per_record = (MAX_REQUEST_BODY * JSON_ESCAPE_FACTOR + STORE_RECORD_OVERHEAD) as u64;
    assert_eq!(store_read_bound(1) - store_read_bound(0), per_record);
    assert_eq!(absolute_read_bound(), store_read_bound(MAX_KEEP));
    assert_eq!(store_read_bound(usize::MAX), u64::MAX);
}

#[test]
fn only_values_that_are_text_are_recorded() {
    assert!(is_recorded_header("user-agent"));
    assert!(!is_recorded_header("authorization"));
    let head = RequestHead {
        method: "GET".to_string(),
        path: "/".to_string(),
        query: None,
        headers: vec![Header { name: "user-agent".to_string(), value: None }],
    };
    assert!(capture(1, &head, b"").headers.is_empty(), "a value that is no text is dropped");
}

#[test]
fn hook_server_inspect_endpoints_are_not_recorded() {
    assert_eq!(router(Method::Get, INSPECT_PATH), Route::InspectHtml);
    assert_eq!(router(Method::Get, JSON_PATH), Route::InspectJson);
    assert_eq!(router(Method::Get, "/__inspect/"), Route::Record);
    assert_eq!(router(Method::Post, "/hook"), Route::Record);
}

#[test]
fn the_limits_stand_around_the_receiver() {
    assert_eq!(router_layers(), vec![Layer::NoSniff, Layer::BodyLimit, Layer::Timeout]);
}

#[test]
fn hook_server_non_get_on_the_inspect_paths_is_405_and_unrecorded() {
    for path in [INSPECT_PATH, JSON_PATH] {
        assert_eq!(router(Method::Post, path), Route::NotAllowed);
        assert_eq!(router(Method::Head, path), Route::NotAllowed);
    }
}

#[test]
fn what_the_sender_is_told() {
    let a = record_answer(Recording::Recorded);
    assert_eq!((a.status, a.body.as_str()), (200, "recorded\n"));
    assert_eq!(record_answer(Recording::Unreadable).status, 413);
    let a = record_answer(Recording::NotPersisted);
    assert_eq!((a.status, a.body.as_str()), (500, "failed to persist the recorded request\n"));
    let a = record_answer(Recording::Broken);
    assert_eq!((a.status, a.body.as_str()), (500, "failed to record the request\n"));
}

#[test]
fn hook_server_inspect_view_renders_newest_first_and_escapes_markup() {
    let at = Timestamp { secs: 1_784_592_000, nanos: 250_000_000 };
    let head = parts("POST", "/<script>?a=<b>", &[("user-agent", "<i>")]);
    let second = RecordedRequest::capture(2, &head, b"<body>", at);
    let first = RecordedRequest::capture(1, &parts("GET", "/plain", &[]), b"", at);
    let page = inspect_html(&vec![second, first]).expect("the calendar reaches the instants");
    assert!(page.contains("&lt;script&gt;?a=&lt;b&gt;"), "{page}");
    assert!(page.contains("user-agent: &lt;i&gt;"), "{page}");
    assert!(page.contains("<pre>&lt;body&gt;</pre>"), "{page}");
    assert!(!page.contains("<script>"), "{page}");
    assert!(page.contains("#2 · 2026-07-21T00:00:00.250Z · 6 bytes"), "{page}");
    let newer = page.find("#2 ").expect("the newer record is there");
    let older = page.find("#1 ").expect("the older record is there");
    assert!(newer < older);
}

#[test]
fn hook_server_empty_store_renders_the_empty_notice() {
    let page = render_inspection(&vec![], &vec![]);
    assert!(page.contains("(no requests recorded yet — send one through the tunnel)"), "{page}");
    assert!(page.contains("Recorded requests — 0"), "{page}");
}

#[test]
fn instants_are_shown_to_the_millisecond() {
    let shown = |secs: i64, nanos: u32| {
        let head = parts("GET", "/x", &[]);
        let r = RecordedRequest::capture(1, &head, b"", Timestamp { secs, nanos });
        let page = inspect_html(&vec![r]).expect("the calendar reaches the instant");
        let from = page.find("#1 · ").expect("the record is there") + "#1 · ".len();
        let to = page.find(" · 0 bytes").expect("the length is there");
        page[from..to].to_string()
    };
    assert_eq!(shown(59, 999_999), "1970-01-01T00:00:59.000Z");
    assert_eq!(shown(59, 1_500_000_000), "1970-01-01T00:00:60.500Z");
    assert_eq!(shown(951_827_640, 7_000_000), "2000-02-29T12:34:00.007Z");
    assert_eq!(shown(253_402_300_800, 0), "+10000-01-01T00:00:00.000Z");
    assert_eq!(shown(-62_198_755_200, 0), "-0001-01-01T00:00:00.000Z");
}

#[test]
fn an_instant_beyond_the_calendar_gives_no_page() {
    let head = parts("GET", "/x", &[]);
    let r = RecordedRequest::capture(1, &head, b"", Timestamp { secs: i64::MAX, nanos: 0 });
    assert!(inspect_html(&vec![r]).is_none());
}

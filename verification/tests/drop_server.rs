//! The upload receiver.

use freeoxide_tunnel::percent::encode_href;
use freeoxide_tunnel::server::drop_server::{
    admit_upload, generate_token, is_root_path, measure, read_token, render_listing, require_token,
    router, sanitize_filename, store_token, token_tag, unauthorized, unreadable_upload, upload,
    upload_name, upload_or_list, DropStore, Found, Layer, Outcome, Route, StoreResult, StoreStep,
    TokenError, Usage, MAX_FILE_COUNT, MAX_NAME_BYTES, MAX_TOTAL_STORE, TOKEN_READ_BOUND,
};
use freeoxide_tunnel::server::http::{tokens_match, Method};
use freeoxide_tunnel::server::listing::RawEntry;
use freeoxide_tunnel::server::static_server::confine;

#[test]
fn the_token_is_asked_for_before_an_upload_is_read() {
    let layers = router();
    assert_eq!(
        layers,
        vec![
            Layer::Confine,
            Layer::Upload,
            Layer::Token,
            Layer::NoSniff,
            Layer::BodyLimit,
            Layer::Timeout,
        ]
    );
    let at = |layer| layers.iter().position(|l| *l == layer).unwrap();
    assert!(at(Layer::Token) > at(Layer::Upload));
    assert!(at(Layer::Upload) > at(Layer::Confine));
}

#[test]
fn generate_token_is_hex_unique_and_64_chars() {
    let a = generate_token(&[0xa5; 32]);
    let b = generate_token(&[0x5a; 32]);
    assert_eq!(a.len(), 64);
    assert!(a.chars().all(|c| c.is_ascii_hexdigit() && !c.is_ascii_uppercase()));
    assert_ne!(a, b, "two tokens must differ");
    let mut bytes = [0u8; 32];
    bytes[1] = 1;
    bytes[2] = 0x9a;
    bytes[3] = 0xff;
    assert_eq!(generate_token(&bytes), format!("00019aff{}", "00".repeat(28)));
}

#[test]
fn sanitize_filename_accepts_ordinary_names() {
    for ok in ["a.txt", "data-2026.tar.gz", "my file (v2).csv", "a+b"] {
        assert_eq!(sanitize_filename(ok).expect(ok), ok, "{ok} must be accepted unchanged");
    }
}

#[test]
fn sanitize_filename_rejects_traversal_and_separators() {
    for bad in ["..", "../x", "a/..", "a/b", "a\\b", "/etc/passwd"] {
        assert!(sanitize_filename(bad).is_err(), "{bad} must be rejected");
    }
}

#[test]
fn sanitize_filename_rejects_dotfiles() {
    for bad in [".env", ".", "..", "..hidden", ".part"] {
        assert!(sanitize_filename(bad).is_err(), "{bad} must be rejected");
    }
}

#[test]
fn sanitize_filename_rejects_windows_hostile_names() {
    for bad in ["con", "NUL", "Com1.txt", "lpt9", "aux", "name.", "name "] {
        assert!(sanitize_filename(bad).is_err(), "{bad} must be rejected");
    }
}

#[test]
fn sanitize_filename_rejects_colons() {
    for bad in ["a:b", "2026-09-19T10:30:00.log", ":"] {
        assert!(sanitize_filename(bad).is_err(), "{bad} must be rejected");
    }
    let err = sanitize_filename("a:b").expect_err("colons must be rejected");
    assert!(err.contains("colons"), "the 400 must name the rule: {err}");
}

#[test]
fn sanitize_filename_rejects_control_chars_and_oversize() {
    assert!(sanitize_filename("a\nb").is_err(), "control chars rejected");
    let long = "a".repeat(MAX_NAME_BYTES + 1);
    assert!(sanitize_filename(&long).is_err(), "over-long names rejected");
    assert_eq!(
        sanitize_filename(&"a".repeat(MAX_NAME_BYTES)).expect("at the limit is ok"),
        "a".repeat(MAX_NAME_BYTES)
    );
}

#[test]
fn token_tag_cuts_at_char_boundaries_and_stays_within_eight_bytes() {
    assert_eq!(token_tag("tok-abc123"), "tok-abc1", "ASCII: first 8 bytes");
    assert_eq!(token_tag("ab"), "ab", "short tokens are used whole");
    assert_eq!(token_tag(""), "", "an empty token yields an empty tag");
    assert_eq!(token_tag("日本語テスト"), "日本");
    assert_eq!(token_tag("😀😀😀"), "😀😀");
    for token in ["aé🎉b", "🎉", "🎉🎉🎉🎉🎉", "日本", "x"] {
        let tag = token_tag(token);
        assert!(token.starts_with(&tag), "prefix of {token:?}");
        assert!(token.is_char_boundary(tag.len()), "boundary cut of {token:?}");
        assert!(tag.len() <= 8, "≤ 8 bytes for {token:?}");
    }
}

fn store_at(root: &str, token: &str, total_cap: u64) -> DropStore {
    DropStore::open(root.to_string(), b'/', token.to_string(), 1024, total_cap, Usage::default())
}

fn leaf(path: &str) -> &str {
    path.rsplit('/').next().expect("a path has a last segment")
}

#[test]
fn temp_names_for_maximal_names_stay_within_name_max() {
    let store = store_at("/bucket", "tok-abc123", MAX_TOTAL_STORE);
    let max_ascii = "a".repeat(MAX_NAME_BYTES);
    let max_multibyte = "é".repeat(MAX_NAME_BYTES / 2);
    assert_eq!(max_multibyte.len(), MAX_NAME_BYTES, "byte budget met");
    for name in [max_ascii, max_multibyte] {
        assert!(sanitize_filename(&name).is_ok(), "a name at the budget must be accepted");
        let path = store.temp_path(&name);
        let file_name = leaf(&path);
        assert!(
            file_name.len() <= 255,
            "temp name must fit NAME_MAX: {} bytes for a {}-byte name",
            file_name.len(),
            name.len()
        );
    }
}

#[test]
fn tokens_match_is_exact_never_length_leaky_and_empty_matches_nothing() {
    assert!(tokens_match("aaaa", "aaaa"));
    assert!(!tokens_match("aaab", "aaaa"));
    assert!(!tokens_match("aaa", "aaaa"));
    assert!(!tokens_match("", "aaaa"));
    assert!(!tokens_match("aaaa", ""));
    assert!(!tokens_match("", ""), "empty vs empty must match nothing");
}

#[test]
fn token_file_round_trips_and_is_private() {
    let file = store_token("deadbeef");
    assert_eq!(file, "deadbeef\n");
    let read = read_token(Some(file.as_bytes())).expect("read").expect("present");
    assert_eq!(read, "deadbeef");
}

#[test]
fn read_token_reports_missing_not_error() {
    assert_eq!(read_token(None).expect("read"), None, "no token file is None, not Err");
}

#[test]
fn read_token_is_bounded_against_a_stray_huge_file() {
    let huge = "x".repeat(TOKEN_READ_BOUND + 1);
    assert!(read_token(Some(huge.as_bytes())).is_err(), "an over-bound token file must Err, not read");
    assert_eq!(read_token(Some(&[0xff, 0xfe])).unwrap_err().message(), TokenError::NotUtf8.message());
}

#[test]
fn temp_names_are_scoped_per_service_token() {
    let a = store_at("/bucket", "token-aaaa", MAX_TOTAL_STORE);
    let b = store_at("/bucket", "token-bbbb", MAX_TOTAL_STORE);
    let a_tmp = a.temp_path("x.txt");
    let b_tmp = b.temp_path("x.txt");
    assert_ne!(a_tmp, b_tmp, "different tokens must give different temps");
    assert_eq!(a.temp_path("x.txt"), a_tmp, "same token, same temp path");
    let name = leaf(&a_tmp);
    assert!(name.starts_with('.'), "temp must be a dotfile: {name}");
    assert_eq!(a_tmp, "/bucket/.x.txt.part-token-aa");
    assert_eq!(a.target_path("x.txt"), "/bucket/x.txt");
}

#[test]
fn every_refused_name_says_why() {
    let long = "a".repeat(MAX_NAME_BYTES + 1);
    for (name, rule) in [
        ("", "the name is empty"),
        (long.as_str(), "longer than 240 bytes"),
        ("a/b", "path separators are not allowed (one flat file per upload)"),
        (".env", "dotfiles (and any name starting with '.') are not allowed"),
        ("a\tb", "control characters are not allowed"),
        ("a:b", "colons are not allowed (Windows filenames cannot contain them)"),
        ("a.", "trailing dots/spaces are not allowed (Windows strips them)"),
        ("Com1.txt", "'COM1' is a reserved Windows device name"),
    ] {
        assert_eq!(sanitize_filename(name).expect_err(name), rule);
    }
}

#[test]
fn uploads_need_the_token_and_reads_do_not() {
    assert!(require_token(Method::Get, None, None, "s"));
    assert!(require_token(Method::Head, None, None, "s"));
    assert!(!require_token(Method::Post, None, None, "s"));
    assert!(require_token(Method::Post, Some("bEaReR s"), None, "s"));
    assert!(require_token(Method::Put, None, Some("token=s"), "s"));
    assert!(require_token(Method::Put, None, Some("token=%73"), "s"));
    assert!(require_token(Method::Put, Some("Bearer wrong"), Some("token=s"), "s"));
    assert!(!require_token(Method::Put, Some("Bearer wrong"), Some("token=t"), "s"));
    assert!(!require_token(Method::Other, None, None, "s"));
}

#[test]
fn requests_go_where_they_belong() {
    assert_eq!(upload_or_list(Method::Post, "/a.txt"), Route::Upload);
    assert_eq!(upload_or_list(Method::Put, "/"), Route::Upload);
    assert_eq!(upload_or_list(Method::Get, "/"), Route::Listing { head: false });
    assert_eq!(upload_or_list(Method::Head, "/"), Route::Listing { head: true });
    assert_eq!(upload_or_list(Method::Get, "/a.txt"), Route::Files);
    assert_eq!(upload_or_list(Method::Other, "/"), Route::Files);
    assert!(is_root_path("/"));
    assert!(!is_root_path("/a"));
}

#[test]
fn the_name_of_an_upload_comes_from_one_place() {
    assert_eq!(upload_name("/report%20v2.txt", None), Ok("report v2.txt".to_string()));
    assert_eq!(upload_name("/", Some("filename=a%2Bb")), Ok("a+b".to_string()));
    assert!(upload_name("/a.txt", Some("filename=b.txt")).is_err());
    assert!(upload_name("/", None).is_err());
    assert!(upload_name("/%ff", None).is_err());
    assert_eq!(admit_upload("/a.txt", None).unwrap(), "a.txt");
    assert_eq!(admit_upload("/..%2Fx", None).unwrap_err().status, 400);
    assert_eq!(admit_upload("/.env", None).unwrap_err().status, 400);
}

/// Drive an upload through a disk that answers with `outcomes`.
fn drive(store: &mut DropStore, len: usize, outcomes: &[Outcome]) -> (Vec<StoreStep>, StoreResult) {
    let mut steps = Vec::new();
    let mut step = store.store_write(len);
    let mut at = 0;
    loop {
        if let StoreStep::Finished(r) = step {
            return (steps, r);
        }
        steps.push(step);
        step = store.store_next(step, outcomes[at], len);
        at += 1;
    }
}

#[test]
fn an_upload_is_stored_and_counted() {
    let mut store = store_at("/bucket", "t", 100);
    let (steps, r) = drive(
        &mut store,
        40,
        &[Outcome::NotFound, Outcome::Done, Outcome::Done, Outcome::Failed],
    );
    assert_eq!(r, StoreResult::Stored);
    assert_eq!(
        steps,
        vec![
            StoreStep::UnlinkStale,
            StoreStep::WriteTemp,
            StoreStep::Publish,
            StoreStep::DropTemp(StoreResult::Stored)
        ]
    );
    assert_eq!(store.used, Usage { bytes: 40, files: 1 });
}

#[test]
fn a_taken_name_is_never_overwritten() {
    let mut store = store_at("/bucket", "t", 100);
    let (_, r) = drive(
        &mut store,
        40,
        &[Outcome::Done, Outcome::Done, Outcome::AlreadyExists, Outcome::Done],
    );
    assert_eq!(r, StoreResult::Exists);
    assert_eq!(store.used, Usage::default());
}

#[test]
fn a_disk_that_fails_stores_nothing() {
    for outcomes in [
        vec![Outcome::Failed],
        vec![Outcome::Done, Outcome::Failed, Outcome::Done],
        vec![Outcome::Done, Outcome::Done, Outcome::Failed, Outcome::Done],
    ] {
        let mut store = store_at("/bucket", "t", 100);
        let (_, r) = drive(&mut store, 40, &outcomes);
        assert_eq!(r, StoreResult::Io);
        assert_eq!(store.used, Usage::default());
    }
}

#[test]
fn the_caps_hold() {
    let mut store = store_at("/bucket", "t", 100);
    store.used = Usage { bytes: 61, files: 1 };
    assert_eq!(store.store_write(40), StoreStep::Finished(StoreResult::Full));
    assert_eq!(store.store_write(39), StoreStep::UnlinkStale);
    store.used.files = MAX_FILE_COUNT;
    assert_eq!(store.store_write(39), StoreStep::Finished(StoreResult::FullCount));
    let small = DropStore::open_with_file_cap(
        "/b".to_string(),
        b'/',
        "t".to_string(),
        1024,
        100,
        1,
        Usage { bytes: 0, files: 1 },
    );
    assert_eq!(small.store_write(0), StoreStep::Finished(StoreResult::FullCount));
}

#[test]
fn only_files_count() {
    let mut used = Usage::default();
    for found in [Found::File(10), Found::Symlink, Found::Dir, Found::Other, Found::File(5)] {
        used = measure(used, found);
    }
    assert_eq!(used, Usage { bytes: 15, files: 2 });
}

#[test]
fn what_the_client_is_told() {
    let a = upload("a.txt", StoreResult::Stored);
    assert_eq!((a.status, a.body.as_str()), (201, "stored a.txt\n"));
    assert_eq!(upload("a.txt", StoreResult::Full).status, 507);
    assert_eq!(upload("a.txt", StoreResult::FullCount).status, 409);
    assert_eq!(upload("a.txt", StoreResult::Exists).status, 409);
    assert_eq!(upload("a.txt", StoreResult::Io).status, 500);
    assert_eq!(unreadable_upload().status, 413);
    assert_eq!(unauthorized().status, 401);
}

#[test]
fn the_page_of_a_bucket_escapes_and_hides() {
    let entry = |name: &str, target: &str| RawEntry {
        name: name.to_string(),
        target: Some(target.as_bytes().to_vec()),
        target_is_dir: false,
        size: 7,
    };
    let page = render_listing(
        &vec![
            entry("<b>.txt", "/bucket/<b>.txt"),
            entry(".hidden", "/bucket/.hidden"),
            entry("out", "/etc/passwd"),
        ],
        b"/bucket",
        b'/',
    );
    assert!(page.contains("&lt;b&gt;.txt"), "{page}");
    assert!(page.contains("href=\"/%3Cb%3E.txt\""), "{page}");
    assert!(!page.contains("<b>"), "{page}");
    assert!(!page.contains("hidden"), "{page}");
    assert!(!page.contains(">out<"), "{page}");
}

#[test]
fn the_link_of_an_upload_leads_to_it() {
    for name in ["a b%.txt", "käse?#&.md", "100%25", "plain.txt"] {
        assert_eq!(sanitize_filename(name).expect(name), name);
        let link = format!("/{}", encode_href(name));
        assert_eq!(confine(&link, b'/'), Some(vec![name.to_string()]));
        assert_eq!(admit_upload(&link, None).unwrap(), name);
    }
}

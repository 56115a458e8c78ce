//! The static file server.

use freeoxide_tunnel::model::StaticFlags;
use freeoxide_tunnel::path::BACKSLASH;
use freeoxide_tunnel::percent::encode_href;
use freeoxide_tunnel::server::http::{
    bearer_token, carries_token, escape_html, html_page, query_param, tokens_match, Method,
};
use freeoxide_tunnel::server::listing::{list_entries, under_root, RawEntry};
use freeoxide_tunnel::server::static_server::{
    candidate_path, components, confine, confine_blocking, decoded_title, escapes_root,
    has_dot_segment, href_base, refused_address, render_listing, require_token, router_with,
    serve_or_list, shell_answer, spa_fallback, unauthorized, DirProbe, Layer, ShellAnswer,
    ShellProbe, TargetProbe,
};

fn segs(parts: &[&str]) -> Vec<String> {
    parts.iter().map(|s| s.to_string()).collect()
}

#[test]
fn split_segments_drops_dotfiles_and_dots() {
    assert!(!has_dot_segment("index.html", b'/'));
    assert!(has_dot_segment(".env", b'/'));
    assert!(has_dot_segment(".git/config", b'/'));
    assert!(has_dot_segment("a/../b", b'/'));
    assert!(has_dot_segment("../etc/passwd", b'/'));
    assert!(!has_dot_segment("foo.html", b'/'));
}

#[test]
fn root_is_under_itself() {
    let root = b"/tmp/srv";
    assert!(under_root(b"/tmp/srv/a", root, b'/'));
    assert!(!under_root(b"/etc/passwd", root, b'/'));
    assert!(under_root(root, root, b'/'));
    assert!(!under_root(b"/tmp/srv2", root, b'/'));
}

#[test]
fn tokens_match_is_exact_and_constant_time_shaped() {
    let m = |p: &str, e: &str| tokens_match(p, e);
    assert!(m("sekrit", "sekrit"));
    assert!(!m("sekriT", "sekrit"), "one differing byte is enough");
    assert!(!m("sekri", "sekrit"), "shorter never matches");
    assert!(!m("sekritlonger", "sekrit"), "longer never matches");
    assert!(!m("", "sekrit"), "nothing provided never matches");
    assert!(!m("sekrit", ""), "an unconfigured token matches nothing");
}

#[test]
fn a_request_names_plain_segments_or_nothing() {
    assert_eq!(confine("/a%20b//c", b'/'), Some(segs(&["a b", "c"])));
    assert_eq!(confine("/", b'/'), Some(segs(&[])));
    assert_eq!(confine("/%2e%2e/etc", b'/'), None);
    assert_eq!(confine("/.git", b'/'), None);
    assert_eq!(confine("/%ff", b'/'), None);
    // A backslash leads on only where it separates.
    assert_eq!(confine("/a%5c.env", b'/'), Some(segs(&["a\\.env"])));
    assert_eq!(confine("/a%5c.env", BACKSLASH), None);
    assert_eq!(confine("/a%5c%2e%2e%5cb", BACKSLASH), None);
    assert_eq!(confine("/a%5cb", BACKSLASH), Some(segs(&["a\\b"])));
    assert_eq!(candidate_path("/a//b/"), segs(&["a", "b"]));
}

#[test]
fn links_out_of_the_root_are_refused() {
    let inside = Some(b"/srv/x".to_vec());
    let outside = Some(b"/etc/passwd".to_vec());
    assert!(!escapes_root(true, &inside, b"/srv", b'/'));
    assert!(escapes_root(true, &outside, b"/srv", b'/'));
    assert!(escapes_root(true, &None, b"/srv", b'/'));
    assert!(!escapes_root(false, &None, b"/srv", b'/'));
    let target = |resolved: Option<&[u8]>, index: Option<&[u8]>| TargetProbe {
        resolved: resolved.map(|b| b.to_vec()),
        is_dir: index.is_some(),
        index_exists: index.is_some(),
        index_resolved: index.map(|b| b.to_vec()),
    };
    assert!(confine_blocking(&target(Some(b"/srv/a"), None), b"/srv", b'/'));
    assert!(!confine_blocking(&target(Some(b"/etc"), None), b"/srv", b'/'));
    assert!(!confine_blocking(&target(Some(b"/srv/d"), Some(b"/etc/passwd")), b"/srv", b'/'));
    assert!(confine_blocking(&target(Some(b"/srv/d"), Some(b"/srv/d/index.html")), b"/srv", b'/'));
}

#[test]
fn only_reads_are_listed() {
    assert_eq!(serve_or_list(Method::Get, "/sub/"), Some(segs(&["sub"])));
    assert_eq!(serve_or_list(Method::Head, "/"), Some(segs(&[])));
    assert_eq!(serve_or_list(Method::Post, "/"), None);
    assert_eq!(serve_or_list(Method::Get, "/%ff/"), None);
}

fn entry(name: &str, target: Option<&str>, target_is_dir: bool) -> RawEntry {
    RawEntry {
        name: name.to_string(),
        target: target.map(|t| t.as_bytes().to_vec()),
        target_is_dir,
        size: 3,
    }
}

#[test]
fn a_listing_shows_directories_first_and_hides_what_is_not_served() {
    let raw = vec![
        entry("b.txt", Some("/srv/b.txt"), false),
        entry("a.txt", Some("/srv/a.txt"), false),
        entry("zdir", Some("/srv/zdir"), true),
        entry(".env", Some("/srv/.env"), false),
        entry("out", Some("/etc"), true),
        entry("broken", None, false),
    ];
    let listed = list_entries(&raw, b"/srv", b'/');
    let names: Vec<&str> = listed.iter().map(|e| e.name.as_str()).collect();
    assert_eq!(names, vec!["zdir", "a.txt", "b.txt"]);
    assert_eq!(listed[0].size, 0);
    assert_eq!(listed[1].size, 3);
}

#[test]
fn a_listing_page_links_to_its_entries_and_its_parent() {
    let dir = DirProbe {
        resolved: Some(b"/srv/a b".to_vec()),
        is_dir: true,
        has_index: false,
        entries: Some(vec![entry("x&y.txt", Some("/srv/a b/x&y.txt"), false)]),
    };
    let page = render_listing(&segs(&["a b"]), &dir, b"/srv", b'/').expect("a listing");
    assert!(page.contains("href=\"/\""), "{page}");
    assert!(page.contains("href=\"/a%20b/x%26y.txt\""), "{page}");
    assert!(page.contains("x&amp;y.txt"), "{page}");
    let with_index = DirProbe {
        resolved: Some(b"/srv".to_vec()),
        is_dir: true,
        has_index: true,
        entries: Some(vec![]),
    };
    assert!(render_listing(&segs(&[]), &with_index, b"/srv", b'/').is_none());
    let escaping = DirProbe {
        resolved: Some(b"/etc".to_vec()),
        is_dir: true,
        has_index: false,
        entries: Some(vec![]),
    };
    assert!(render_listing(&segs(&["l"]), &escaping, b"/srv", b'/').is_none());
}

#[test]
fn titles_and_bases_come_from_the_segments() {
    assert_eq!(decoded_title(&segs(&[])), "/");
    assert_eq!(decoded_title(&segs(&["a b", "c"])), "/a b/c");
    assert_eq!(href_base(&segs(&["a b", "c"]), 2), "/a%20b/c/");
    assert_eq!(href_base(&segs(&["a b", "c"]), 1), "/a%20b/");
    assert_eq!(href_base(&segs(&["a b", "c"]), 0), "/");
    assert_eq!(components(&segs(&["a b", "c\\d"]), b'/'), segs(&["a b", "c\\d"]));
    assert_eq!(components(&segs(&["a b", "c\\d\\"]), b'\\'), segs(&["a b", "c", "d"]));
}

#[test]
fn the_shell_answers_deep_links_only() {
    assert_eq!(spa_fallback(404, Method::Get, "/app/users", b'/'), Some(segs(&["app", "users"])));
    assert_eq!(spa_fallback(200, Method::Get, "/app", b'/'), None);
    assert_eq!(spa_fallback(404, Method::Post, "/app", b'/'), None);
    assert_eq!(spa_fallback(404, Method::Get, "/.env", b'/'), None);
    assert_eq!(spa_fallback(404, Method::Get, "/a/%2e%2e/b", b'/'), None);
    let probe = |occupied, index: Option<&str>, length| ShellProbe {
        occupied,
        index_resolved: index.map(|i| i.as_bytes().to_vec()),
        length,
    };
    let answer = |method, p: ShellProbe| shell_answer(method, &p, b"/srv", b'/');
    let index = Some("/srv/index.html");
    assert_eq!(answer(Method::Get, probe(true, index, Some(9))), ShellAnswer::Unchanged);
    assert_eq!(answer(Method::Get, probe(false, None, None)), ShellAnswer::Unchanged);
    assert_eq!(answer(Method::Get, probe(false, index, None)), ShellAnswer::Unchanged);
    assert_eq!(answer(Method::Get, probe(false, Some("/etc/passwd"), Some(9))), ShellAnswer::Unchanged);
    assert_eq!(
        answer(Method::Get, probe(false, index, Some(9))),
        ShellAnswer::Shell { length: 9, with_body: true }
    );
    assert_eq!(
        answer(Method::Head, probe(false, index, Some(9))),
        ShellAnswer::Shell { length: 9, with_body: false }
    );
}

#[test]
fn the_token_stands_outside_of_everything_but_the_headers() {
    let all = router_with(&StaticFlags { spa: true, cors: true, token: Some("s".to_string()) });
    let plain = router_with(&StaticFlags::default());
    let at = |l: Layer| all.iter().position(|x| *x == l).expect("the layer is there");
    assert!(at(Layer::List) < at(Layer::Confine));
    assert!(at(Layer::Confine) < at(Layer::Spa));
    assert!(at(Layer::Spa) < at(Layer::Token));
    assert!(at(Layer::Token) < at(Layer::Cors));
    assert!(!plain.contains(&Layer::Token) && !plain.contains(&Layer::Cors));
    assert!(!plain.contains(&Layer::Spa));
}

#[test]
fn tokens_come_by_header_or_query() {
    assert_eq!(bearer_token("Bearer abc"), Some("abc".to_string()));
    assert_eq!(bearer_token("BEARER abc"), Some("abc".to_string()));
    assert_eq!(bearer_token("Basic abc"), None);
    assert_eq!(bearer_token("Bearer"), None);
    assert_eq!(query_param("a=1&token=x%20y", "token"), Some("x y".to_string()));
    assert_eq!(query_param("a=1", "token"), None);
    assert!(carries_token(Some("Bearer s"), None, "s"));
    assert!(carries_token(None, Some("token=s"), "s"));
    assert!(carries_token(Some("Bearer x"), Some("token=s"), "s"));
    assert!(carries_token(Some("Bearer s"), Some("token=x"), "s"));
    assert!(!carries_token(Some("Bearer x"), Some("token=y"), "s"));
    assert!(!carries_token(Some("Bearer "), Some("token="), ""));
    assert!(!require_token(None, None, "s"));
    assert!(require_token(Some("Basic x"), Some("token=s"), "s"));
}

#[test]
fn a_request_without_the_token_is_told_how_to_carry_it() {
    let answer = unauthorized();
    assert_eq!(answer.status, 401);
    assert_eq!(
        answer.body,
        "this static origin requires the access token (Authorization: Bearer or ?token=)\n"
    );
}

#[test]
fn markup_is_escaped() {
    assert_eq!(escape_html("<a href=\"x\">'&'</a>"), "&lt;a href=&quot;x&quot;&gt;&#39;&amp;&#39;&lt;/a&gt;");
    let page = html_page("T", "B");
    assert!(page.contains("<title>T</title>"), "{page}");
    assert!(page.contains("<h1>T</h1>"), "{page}");
    assert!(page.contains("B"), "{page}");
}

#[test]
fn names_are_encoded_for_links() {
    assert_eq!(encode_href("a b/ü?#%&\"<>.txt"), "a%20b/%C3%BC%3F%23%25%26%22%3C%3E.txt");
    assert_eq!(encode_href("plain-1_2.txt~"), "plain-1_2.txt~");
    assert_eq!(encode_href("a+b,$!*()"), "a%2Bb%2C%24%21%2A%28%29");
    assert_eq!(confine(&format!("/{}", encode_href("a b%")), b'/'), Some(segs(&["a b%"])));
}

#[test]
fn only_the_loopback_address_is_served() {
    assert_eq!(refused_address(true, "127.0.0.1:80"), None);
    assert_eq!(
        refused_address(false, "0.0.0.0:80"),
        Some(
            "refusing to serve on non-loopback address 0.0.0.0:80; the static server must stay behind the cloudflared tunnel"
                .to_string()
        )
    );
}

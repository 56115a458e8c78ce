//! Quick Tunnel URLs and how `cloudflared` is started and stopped.

use freeoxide_tunnel::cloudflared::{extract_url, is_tunnel_url, shutdown, tunnel_args};
use freeoxide_tunnel::proc::Signal;

#[test]
fn real_cloudflared_table_line() {
    let line = "...  |  https://random-words.trycloudflare.com  |";
    assert_eq!(extract_url(line), Some("https://random-words.trycloudflare.com".to_string()));
}

#[test]
fn trailing_punctuation_stripped() {
    let line = "url: https://x-y.trycloudflare.com.";
    assert_eq!(extract_url(line), Some("https://x-y.trycloudflare.com".to_string()));
}

#[test]
fn plain_url() {
    let line = "https://x.trycloudflare.com";
    assert_eq!(extract_url(line), Some("https://x.trycloudflare.com".to_string()));
}

#[test]
fn non_tunnel_https_url_ignored() {
    let line = "https://developers.cloudflare.com/cloudflare-one/connections/";
    assert_eq!(extract_url(line), None);
}

#[test]
fn no_url_returns_none() {
    let line = "cloudflared is starting up, please wait";
    assert_eq!(extract_url(line), None);
}

#[test]
fn picks_trycloudflare_among_two_urls() {
    // The scan goes from left to right and takes the first tunnel host.
    let line = "your tunnel: https://my-tunnel.trycloudflare.com  docs: https://developers.cloudflare.com/";
    assert_eq!(extract_url(line), Some("https://my-tunnel.trycloudflare.com".to_string()));
}

#[test]
fn skips_non_tunnel_url_before_tunnel_url() {
    let line = "docs: https://developers.cloudflare.com/  tunnel: https://real-tunnel.trycloudflare.com";
    assert_eq!(extract_url(line), Some("https://real-tunnel.trycloudflare.com".to_string()));
}

#[test]
fn keeps_path_and_query_in_returned_url() {
    let line = "your tunnel: https://x.trycloudflare.com/foo?bar=1";
    assert_eq!(extract_url(line), Some("https://x.trycloudflare.com/foo?bar=1".to_string()));
}

#[test]
fn uppercase_https_is_rejected() {
    assert_eq!(extract_url("HTTPS://x.trycloudflare.com"), None);
}

#[test]
fn empty_input_returns_none() {
    assert_eq!(extract_url(""), None);
}

#[test]
fn picks_tunnel_when_non_tunnel_url_comes_after() {
    let line = "tunnel: https://real-tunnel.trycloudflare.com  docs: https://developers.cloudflare.com/";
    assert_eq!(extract_url(line), Some("https://real-tunnel.trycloudflare.com".to_string()));
}

#[test]
fn is_tunnel_url_accepts_valid() {
    assert!(is_tunnel_url("https://foo-bar.trycloudflare.com"));
    assert!(is_tunnel_url("https://foo-bar.trycloudflare.com/some/path?x=1"));
}

#[test]
fn is_tunnel_url_rejects_non_https_and_spoofs() {
    assert!(!is_tunnel_url("http://foo.trycloudflare.com"));
    assert!(!is_tunnel_url("ftp://foo.trycloudflare.com"));
    // Without the dot it is no subdomain.
    assert!(!is_tunnel_url("https://eviltrycloudflare.com"));
    assert!(!is_tunnel_url("https://foo.trycloudflare.com.evil.example"));
    assert!(!is_tunnel_url("not a url"));
}

#[test]
fn what_is_extracted_is_a_tunnel_url() {
    for line in [
        "a https://a.trycloudflare.com), b",
        "https://https://b.trycloudflare.com;",
        "x https://c.trycloudflare.com/p?q=\" y",
        "https://d.trycloudflare.com\u{a0}tail",
    ] {
        let url = extract_url(line).expect("there is a tunnel URL in the line");
        assert!(is_tunnel_url(&url), "{url}");
    }
}

#[test]
fn every_trailing_mark_is_dropped() {
    assert_eq!(
        extract_url("(https://a.trycloudflare.com).,;\"' next"),
        Some("https://a.trycloudflare.com".to_string())
    );
}

#[test]
fn the_tunnel_points_at_the_loopback_port() {
    assert_eq!(
        tunnel_args(8080),
        vec!["tunnel", "--no-autoupdate", "--url", "http://127.0.0.1:8080"]
    );
}

#[test]
fn shutdown_asks_first_and_kills_after_the_grace() {
    assert_eq!(shutdown(Some(7), false), Some(Signal::Term(7)));
    assert_eq!(shutdown(Some(7), true), Some(Signal::Kill(7)));
    assert_eq!(shutdown(None, false), None);
    assert_eq!(shutdown(None, true), None);
}

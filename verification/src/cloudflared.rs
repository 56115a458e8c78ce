//! The `cloudflared` Quick Tunnel process: how it is started, and how the public
//! URL is read out of what it logs.

use vstd::prelude::*;
use vstd::string::*;

use crate::proc::Signal;
use crate::text::{
    char_is_white, char_occurs_at, chars_of, decimal, decimal_text, drop_while, has_prefix,
    has_suffix, is_white, lemma_drop_while, lemma_skip_while, occurs_at, skip_while, text_between,
    texts,
};

verus! {

/// Shown when `cloudflared` cannot be found.
pub const MISSING_MESSAGE: &'static str =
    "cloudflared was not found.\n\nFreeoxide Tunnel uses cloudflared for Cloudflare Quick Tunnels.\nInstall cloudflared, then try again:\n\n    Linux:   https://developers.cloudflare.com/cloudflare-one/connections/connect-networks/downloads/\n    macOS:   brew install cloudflared\n    Windows: winget install Cloudflare.cloudflared";

/// How long `cloudflared` has between `SIGTERM` and `SIGKILL`, in milliseconds.
pub const SHUTDOWN_GRACE_MS: u64 = 2_000;

/// What ends a URL in running text but does not belong to it.
pub open spec fn is_punctuation(c: char) -> bool {
    c == '.' || c == ')' || c == ',' || c == ';' || c == '"' || c == '\''
}

/// [`is_punctuation`], as a predicate.
pub open spec fn punctuation() -> spec_fn(char) -> bool {
    |c: char| is_punctuation(c)
}

/// What is not white space, as a predicate.
pub open spec fn solid() -> spec_fn(char) -> bool {
    |c: char| !is_white(c)
}

/// What a host may hold: anything but `/` and `?`.
pub open spec fn host_chars() -> spec_fn(char) -> bool {
    |c: char| c != '/' && c != '?'
}

/// The URL that starts at position `p`: what stands there up to the next white
/// space, without the punctuation at its end.
pub open spec fn url_at(s: Seq<char>, p: int) -> Seq<char> {
    s.subrange(p, drop_while(s, punctuation(), p, skip_while(s, solid(), p)))
}

/// The host of an `https://` URL: what follows the prefix, up to the first `/` or
/// `?`.
pub open spec fn host_of(url: Seq<char>) -> Seq<char> {
    url.subrange(8, skip_while(url, host_chars(), 8))
}

/// An `https://` URL whose host ends with `.trycloudflare.com`.
pub open spec fn tunnel_url(url: Seq<char>) -> bool {
    has_prefix(url, "https://"@) && has_suffix(host_of(url), ".trycloudflare.com"@)
}

/// The URL of a Quick Tunnel starts at position `p`.
pub open spec fn tunnel_at(s: Seq<char>, p: int) -> bool {
    occurs_at(s, "https://"@, p) && tunnel_url(url_at(s, p))
}

/// The first URL of a Quick Tunnel from position `i` on.
pub open spec fn first_tunnel(s: Seq<char>, i: int) -> Option<Seq<char>>
    decreases s.len() - i,
{
    if i >= s.len() {
        None
    } else if tunnel_at(s, i) {
        Some(url_at(s, i))
    } else {
        first_tunnel(s, i + 1)
    }
}

/// Whether `cs` is an `https://` URL whose host ends with `.trycloudflare.com`.
fn is_tunnel(cs: &Vec<char>) -> (r: bool)
    ensures
        r == tunnel_url(cs@),
{
    proof {
        reveal_strlit("https://");
    }
    if !char_occurs_at(cs, &chars_of("https://"), 0) {
        return false;
    }
    let mut end: usize = 8;
    while end < cs.len() && cs[end] != '/' && cs[end] != '?'
        invariant
            8 <= end <= cs@.len(),
            skip_while(cs@, host_chars(), 8) == skip_while(cs@, host_chars(), end as int),
        decreases cs@.len() - end,
    {
        end = end + 1;
    }
    let host = chars_of(text_between(cs, 8, end).as_str());
    let suffix = chars_of(".trycloudflare.com");
    if suffix.len() > host.len() {
        return false;
    }
    char_occurs_at(&host, &suffix, host.len() - suffix.len())
}

/// The URL that starts at position `p`.
fn url_text_at(cs: &Vec<char>, p: usize) -> (r: String)
    requires
        p <= cs@.len(),
    ensures
        r@ == url_at(cs@, p as int),
{
    let mut end: usize = p;
    while end < cs.len() && !char_is_white(cs[end])
        invariant
            p <= end <= cs@.len(),
            skip_while(cs@, solid(), p as int) == skip_while(cs@, solid(), end as int),
        decreases cs@.len() - end,
    {
        end = end + 1;
    }
    let mut cut: usize = end;
    while p < cut && (cs[cut - 1] == '.' || cs[cut - 1] == ')' || cs[cut - 1] == ',' || cs[cut - 1]
        == ';' || cs[cut - 1] == '"' || cs[cut - 1] == '\'')
        invariant
            p <= cut <= end <= cs@.len(),
            drop_while(cs@, punctuation(), p as int, end as int) == drop_while(
                cs@,
                punctuation(),
                p as int,
                cut as int,
            ),
        decreases cut - p,
    {
        cut = cut - 1;
    }
    text_between(cs, p, cut)
}

/// The first Quick Tunnel URL in a line of `cloudflared` output. URLs of other
/// hosts are passed over, and punctuation at the end is left out.
pub fn extract_url(text: &str) -> (r: Option<String>)
    ensures
        match r {
            Some(u) => first_tunnel(text@, 0) == Some(u@),
            None => first_tunnel(text@, 0) is None,
        },
{
    let cs = chars_of(text);
    let prefix = chars_of("https://");
    let mut i: usize = 0;
    while i < cs.len()
        invariant
            cs@ == text@,
            prefix@ == "https://"@,
            i <= cs@.len(),
            first_tunnel(text@, 0) == first_tunnel(text@, i as int),
        decreases cs@.len() - i,
    {
        if char_occurs_at(&cs, &prefix, i) {
            let url = url_text_at(&cs, i);
            if is_tunnel(&chars_of(url.as_str())) {
                return Some(url);
            }
        }
        i = i + 1;
    }
    None
}

/// Whether `url` is an `https://` URL whose host ends with `.trycloudflare.com`.
pub fn is_tunnel_url(url: &str) -> (r: bool)
    ensures
        r == tunnel_url(url@),
{
    is_tunnel(&chars_of(url))
}

/// The arguments that point a Quick Tunnel at the local port.
pub open spec fn tunnel_command(port: u16) -> Seq<Seq<char>> {
    seq![
        "tunnel"@,
        "--no-autoupdate"@,
        "--url"@,
        "http://127.0.0.1:"@ + decimal(port as nat),
    ]
}

/// The arguments that point a Quick Tunnel at the local port.
pub fn tunnel_args(port: u16) -> (r: Vec<String>)
    ensures
        texts(r@) == tunnel_command(port),
{
    let mut url = "http://127.0.0.1:".to_owned();
    url.append(decimal_text(port as u64).as_str());
    let mut out: Vec<String> = Vec::new();
    out.push("tunnel".to_owned());
    out.push("--no-autoupdate".to_owned());
    out.push("--url".to_owned());
    out.push(url);
    assert(texts(out@) =~= seq![
        "tunnel"@,
        "--no-autoupdate"@,
        "--url"@,
        "http://127.0.0.1:"@ + decimal(port as nat),
    ]);
    out
}

/// The signal for a `cloudflared` child that is to end.
pub open spec fn end_signal(tunnel_pid: Option<u32>, grace_over: bool) -> Option<Signal> {
    match tunnel_pid {
        Some(p) => Some(
            if grace_over {
                Signal::Kill(p)
            } else {
                Signal::Term(p)
            },
        ),
        None => None,
    }
}

/// The signal for a `cloudflared` child that is to end: `SIGTERM` first, and
/// `SIGKILL` where it has not ended within the grace. A child without a pid gets
/// none.
pub fn shutdown(tunnel_pid: Option<u32>, grace_over: bool) -> (r: Option<Signal>)
    ensures
        r == end_signal(tunnel_pid, grace_over),
{
    match tunnel_pid {
        Some(p) => {
            if grace_over {
                Some(Signal::Kill(p))
            } else {
                Some(Signal::Term(p))
            }
        },
        None => None,
    }
}

// ---------------------------------------------------------------------------
// Laws
// ---------------------------------------------------------------------------

/// Whatever is extracted passes for a tunnel URL.
pub proof fn law_extracted_url_is_a_tunnel_url(s: Seq<char>, i: int)
    ensures
        first_tunnel(s, i) matches Some(u) ==> tunnel_url(u),
    decreases s.len() - i,
{
    if 0 <= i < s.len() && !tunnel_at(s, i) {
        law_extracted_url_is_a_tunnel_url(s, i + 1);
    } else if i < 0 {
        if !tunnel_at(s, i) {
            law_extracted_url_is_a_tunnel_url(s, i + 1);
        }
    }
}

/// The host of a tunnel URL is not empty.
pub proof fn law_tunnel_host_is_not_empty(url: Seq<char>)
    requires
        tunnel_url(url),
    ensures
        host_of(url).len() > 0,
{
    reveal_strlit(".trycloudflare.com");
}

/// Passing over positions at which no tunnel URL starts changes nothing.
proof fn lemma_first_tunnel_skips(s: Seq<char>, i: int, p: int)
    requires
        0 <= i <= p <= s.len(),
        forall|k: int| i <= k < p ==> !tunnel_at(s, k),
    ensures
        first_tunnel(s, i) == first_tunnel(s, p),
    decreases p - i,
{
    if i < p {
        lemma_first_tunnel_skips(s, i + 1, p);
    }
}

/// A tunnel URL that holds no white space and does not end in punctuation is
/// extracted as it stands, whatever punctuation follows it up to the end of the
/// line or the next white space, and whatever comes after that; unless one starts
/// further left.
pub proof fn law_first_tunnel_url_wins(
    before: Seq<char>,
    url: Seq<char>,
    tail: Seq<char>,
    rest: Seq<char>,
)
    requires
        tunnel_url(url),
        forall|k: int| 0 <= k < url.len() ==> !is_white(#[trigger] url[k]),
        !is_punctuation(url[url.len() - 1]),
        forall|k: int| 0 <= k < tail.len() ==> is_punctuation(#[trigger] tail[k]),
        rest.len() > 0 ==> is_white(rest[0]),
        forall|k: int| 0 <= k < before.len() ==> !tunnel_at(before + url + tail + rest, k),
    ensures
        first_tunnel(before + url + tail + rest, 0) == Some(url),
{
    let s = before + url + tail + rest;
    let p = before.len() as int;
    let e = p + url.len();
    let f = e + tail.len();
    reveal_strlit("https://");
    assert(url.len() >= 8);
    lemma_skip_while(s, solid(), p);
    let stop = skip_while(s, solid(), p);
    assert(stop == f) by {
        if stop < e {
            assert(s[stop] == url[stop - p]);
        } else if stop < f {
            assert(s[stop] == tail[stop - e]);
        } else if stop > f {
            assert(s[f] == rest[0]);
        }
    }
    lemma_drop_while(s, punctuation(), p, f);
    let cut = drop_while(s, punctuation(), p, f);
    assert(cut == e) by {
        if cut > e {
            assert(s[cut - 1] == tail[cut - 1 - e]);
        } else if cut < e {
            assert(s[e - 1] == url[url.len() - 1]);
        }
    }
    assert(url_at(s, p) =~= url);
    assert(s.subrange(p, p + 8) =~= url.subrange(0, 8));
    assert(tunnel_at(s, p));
    lemma_first_tunnel_skips(s, 0, p);
}

/// A URL is that of a tunnel exactly where it is one of `https` and its host, up to the
/// first slash or question mark, ends with `.trycloudflare.com`.
pub proof fn law_tunnel_urls_end_with_the_domain(host: Seq<char>, rest: Seq<char>, other: Seq<char>)
    requires
        !host.contains('/'),
        !host.contains('?'),
        rest.len() > 0 ==> rest[0] == '/' || rest[0] == '?',
    ensures
        tunnel_url("https://"@ + host + rest) <==> host.len() >= 18 && host.skip(host.len() - 18)
            == ".trycloudflare.com"@,
        !has_prefix(other, "https://"@) ==> !tunnel_url(other),
{
    reveal_strlit("https://");
    reveal_strlit(".trycloudflare.com");
    let url = "https://"@ + host + rest;
    let end = 8 + host.len() as int;
    lemma_skip_while(url, host_chars(), 8);
    let stop = skip_while(url, host_chars(), 8);
    assert(stop == end) by {
        if stop < end {
            assert(url[stop] == host[stop - 8]);
            assert(host.contains(host[stop - 8]));
        }
        if stop > end {
            assert(url[end] == rest[0]);
            assert(host_chars()(url[end]));
        }
    }
    assert(url.subrange(8, end) =~= host);
    assert(url.subrange(0, 8) =~= "https://"@);
    if host.len() >= 18 {
        assert(host.skip(host.len() - 18) =~= host.subrange(host.len() - 18, host.len() as int));
    }
}

/// The first tunnel URL of a text is found wherever it stands, and none is found where
/// there is none.
pub proof fn law_tunnel_urls_are_found(s: Seq<char>, p: int)
    requires
        0 <= p < s.len(),
        forall|k: int| 0 <= k < p ==> !tunnel_at(s, k),
    ensures
        tunnel_at(s, p) ==> first_tunnel(s, 0) == Some(url_at(s, p)),
        !tunnel_at(s, p) && p == s.len() - 1 ==> first_tunnel(s, 0) is None,
{
    lemma_first_tunnel_skips(s, 0, p);
    reveal_with_fuel(first_tunnel, 2);
}

/// Six marks end a URL in running text without belonging to it, and no other character
/// does.
pub proof fn law_six_marks_are_left_off(c: char)
    ensures
        is_punctuation(c) <==> ".),;\"'"@.contains(c),
{
    reveal_strlit(".),;\"'");
    let all = ".),;\"'"@;
    assert(all[0] == '.' && all[1] == ')' && all[2] == ',' && all[3] == ';' && all[4] == '"'
        && all[5] == '\'');
}

/// The tunnel is pointed at the port, and at no other.
pub proof fn law_tunnel_points_at_the_port(port: u16, other: u16)
    ensures
        tunnel_command(port)[0] == "tunnel"@,
        tunnel_command(port).last() == "http://127.0.0.1:"@ + decimal(port as nat),
        tunnel_command(port)[tunnel_command(port).len() - 2] == "--url"@,
        tunnel_command(port) == tunnel_command(other) ==> port == other,
{
    let a = tunnel_command(port);
    let b = tunnel_command(other);
    let head = "http://127.0.0.1:"@;
    if a == b {
        let x = decimal(port as nat);
        let y = decimal(other as nat);
        assert(a.last() == b.last());
        assert(x =~= (head + x).skip(head.len() as int));
        assert(y =~= (head + y).skip(head.len() as int));
        crate::text::lemma_decimal_injective(port as nat, other as nat);
    }
}

/// A tunnel is asked to end first and ended once its grace is over, each time by its own
/// pid; without a pid nothing is sent.
pub proof fn law_tunnels_are_asked_first(pid: u32, over: bool)
    ensures
        end_signal(Some(pid), false) == Some(Signal::Term(pid)),
        end_signal(Some(pid), true) == Some(Signal::Kill(pid)),
        end_signal(None, over) is None,
{
}

} // verus!

//! The static file server: which requests reach a file, what a directory without
//! an index shows, and what a path that names nothing is answered.

use vstd::prelude::*;
use vstd::string::*;
use vstd::utf8::*;

use crate::model::{StaticFlags, StaticFlagsView};
use crate::path::{known_separator, lemma_one_part, parts, path_parts};
use crate::percent::{decoded, encode_href, href_of, percent_decode_text};
use crate::server::http::{
    carried, carries_token, escape_html, escaped, html_page, page, Answer, AnswerView, Method,
};
use crate::server::listing::{
    item, item_html, list_entries, listed, under, under_root, ListEntry, RawEntry,
};
use crate::text::{
    chars_of, concat2, concat3, law_joined_texts_split_apart, lemma_skip_while, lemma_split_parts,
    lemma_stands_between, occurs_in, only, opt_str, opt_text, split, text_split,
    text_trim_start_char, texts, trim_start_char,
};

verus! {

/// Bound on a request and on the drain at the end, in seconds.
pub const REQUEST_TIMEOUT: u64 = 30;

/// Bound on a request's body, which is never read, in bytes.
pub const MAX_REQUEST_BODY: usize = 1_024;

// ---------------------------------------------------------------------------
// The path of a request
// ---------------------------------------------------------------------------

/// The segments of a decoded request path, empty ones among them.
pub open spec fn raw_segments(path: Seq<char>) -> Seq<Seq<char>> {
    split(trim_start_char(path, '/'), '/')
}

/// The component starts with a dot.
pub open spec fn dotted(name: Seq<char>) -> bool {
    name.len() > 0 && name[0] == '.'
}

/// Some component of the segment starts with a dot. It has only one, unless the
/// system has a separator of its own.
pub open spec fn hidden(seg: Seq<char>, sep: u8) -> bool {
    exists|k: int| 0 <= k < parts(seg, sep).len() && dotted(#[trigger] parts(seg, sep)[k])
}

/// Some segment of the decoded path is hidden.
pub open spec fn dot_segment(path: Seq<char>, sep: u8) -> bool {
    exists|i: int|
        0 <= i < raw_segments(path).len() && hidden(#[trigger] raw_segments(path)[i], sep)
}

/// Whether some component of the segment starts with a dot.
fn is_hidden(seg: &str, sep: u8) -> (r: bool)
    ensures
        r == hidden(seg@, sep),
{
    let names = path_parts(seg, sep);
    let mut k: usize = 0;
    while k < names.len()
        invariant
            texts(names@) == parts(seg@, sep),
            k <= names@.len(),
            forall|m: int| 0 <= m < k ==> !dotted(#[trigger] parts(seg@, sep)[m]),
        decreases names@.len() - k,
    {
        let cs = chars_of(names[k].as_str());
        assert(texts(names@)[k as int] == cs@);
        if cs.len() > 0 && cs[0] == '.' {
            assert(dotted(parts(seg@, sep)[k as int]));
            return true;
        }
        k = k + 1;
    }
    assert(texts(names@).len() == names@.len());
    false
}

/// Whether some segment of the decoded path is hidden.
pub fn has_dot_segment(decoded: &str, sep: u8) -> (r: bool)
    ensures
        r == dot_segment(decoded@, sep),
{
    let rest = text_trim_start_char(decoded, '/');
    let segs = text_split(rest.as_str(), '/');
    let mut i: usize = 0;
    while i < segs.len()
        invariant
            texts(segs@) == raw_segments(decoded@),
            i <= segs@.len(),
            forall|k: int| 0 <= k < i ==> !hidden(#[trigger] raw_segments(decoded@)[k], sep),
        decreases segs@.len() - i,
    {
        assert(texts(segs@)[i as int] == segs@[i as int]@);
        if is_hidden(segs[i].as_str(), sep) {
            assert(hidden(raw_segments(decoded@)[i as int], sep));
            return true;
        }
        i = i + 1;
    }
    false
}

/// The non-empty ones among the first `n` segments.
pub open spec fn filled(segs: Seq<Seq<char>>, n: nat) -> Seq<Seq<char>>
    decreases n,
{
    if n == 0 {
        Seq::empty()
    } else if segs[n - 1].len() > 0 {
        filled(segs, (n - 1) as nat).push(segs[n - 1])
    } else {
        filled(segs, (n - 1) as nat)
    }
}

/// The segments under the root that a decoded request path names.
pub open spec fn candidate(path: Seq<char>) -> Seq<Seq<char>> {
    filled(raw_segments(path), raw_segments(path).len())
}

/// The segments under the root that a decoded request path names. Every guard
/// decides on these same segments.
pub fn candidate_path(decoded: &str) -> (r: Vec<String>)
    ensures
        texts(r@) == candidate(decoded@),
{
    let rest = text_trim_start_char(decoded, '/');
    let parts = text_split(rest.as_str(), '/');
    let mut out: Vec<String> = Vec::new();
    let mut i: usize = 0;
    assert(texts(out@) =~= filled(raw_segments(decoded@), 0));
    while i < parts.len()
        invariant
            texts(parts@) == raw_segments(decoded@),
            i <= parts@.len(),
            texts(out@) == filled(raw_segments(decoded@), i as nat),
        decreases parts@.len() - i,
    {
        assert(texts(parts@)[i as int] == parts@[i as int]@);
        let ghost before = out@;
        if !parts[i].as_str().is_empty() {
            out.push(parts[i].clone());
            assert(texts(out@) =~= texts(before).push(parts@[i as int]@));
        }
        i = i + 1;
    }
    out
}

// ---------------------------------------------------------------------------
// Confinement
// ---------------------------------------------------------------------------

/// The segments that a request may reach, as far as its path tells: a path that is
/// not UTF-8 or holds a component with a leading dot reaches nothing.
pub open spec fn admitted(raw: Seq<char>, sep: u8) -> Option<Seq<Seq<char>>> {
    match decoded(raw) {
        Some(d) => if dot_segment(d, sep) {
            None
        } else {
            Some(candidate(d))
        },
        None => None,
    }
}

/// The segments that a request may reach, as far as its path tells. Nothing means
/// that the request is answered as if nothing were there.
pub fn confine(raw: &str, sep: u8) -> (r: Option<Vec<String>>)
    ensures
        match r {
            Some(v) => admitted(raw@, sep) == Some(texts(v@)),
            None => admitted(raw@, sep) is None,
        },
{
    match percent_decode_text(raw) {
        Some(d) => {
            if has_dot_segment(d.as_str(), sep) {
                None
            } else {
                Some(candidate_path(d.as_str()))
            }
        },
        None => None,
    }
}

/// A file that exists resolves to something outside the root, or to nothing.
pub open spec fn escaping(exists: bool, resolved: Option<Seq<u8>>, root: Seq<u8>, sep: u8) -> bool {
    exists && match resolved {
        Some(r) => !under(r, root, sep),
        None => true,
    }
}

/// The view of an optional resolved path.
pub open spec fn opt_bytes(o: Option<Vec<u8>>) -> Option<Seq<u8>> {
    match o {
        Some(v) => Some(v@),
        None => None,
    }
}

/// Whether a file that exists resolves to something outside the root. One that
/// exists but does not resolve counts as escaping.
pub fn escapes_root(exists: bool, resolved: &Option<Vec<u8>>, root: &[u8], sep: u8) -> (r: bool)
    ensures
        r == escaping(exists, opt_bytes(*resolved), root@, sep),
{
    if !exists {
        return false;
    }
    match resolved {
        Some(p) => !under_root(p.as_slice(), root, sep),
        None => true,
    }
}

/// What the file system tells of a request's target.
#[derive(Debug)]
pub struct TargetProbe {
    /// What the target resolves to, with every link followed.
    pub resolved: Option<Vec<u8>>,
    /// The target is a directory.
    pub is_dir: bool,
    /// The directory holds an `index.html`.
    pub index_exists: bool,
    /// What that `index.html` resolves to.
    pub index_resolved: Option<Vec<u8>>,
}

/// The target stays under the root, and so does the index that would be served for
/// it.
pub open spec fn confined(t: TargetProbe, root: Seq<u8>, sep: u8) -> bool {
    &&& t.resolved matches Some(r) && under(r@, root, sep)
    &&& t.is_dir ==> !escaping(t.index_exists, opt_bytes(t.index_resolved), root, sep)
}

/// Whether the target stays under the root, with the index that would be served
/// for it.
pub fn confine_blocking(t: &TargetProbe, root: &[u8], sep: u8) -> (r: bool)
    ensures
        r == confined(*t, root@, sep),
{
    match &t.resolved {
        Some(p) => {
            if !under_root(p.as_slice(), root, sep) {
                return false;
            }
        },
        None => return false,
    }
    if t.is_dir && escapes_root(t.index_exists, &t.index_resolved, root, sep) {
        return false;
    }
    true
}

// ---------------------------------------------------------------------------
// Listings
// ---------------------------------------------------------------------------

/// The segments that a listing might be shown for: only a reading request asks for
/// one, and a path that is not UTF-8 names no directory.
pub open spec fn list_target(method: Method, raw: Seq<char>) -> Option<Seq<Seq<char>>> {
    match decoded(raw) {
        Some(d) if method.reads() => Some(candidate(d)),
        _ => None,
    }
}

/// The segments that a listing might be shown for.
pub fn serve_or_list(method: Method, raw: &str) -> (r: Option<Vec<String>>)
    ensures
        match r {
            Some(v) => list_target(method, raw@) == Some(texts(v@)),
            None => list_target(method, raw@) is None,
        },
{
    if !method.is_read() {
        return None;
    }
    match percent_decode_text(raw) {
        Some(d) => Some(candidate_path(d.as_str())),
        None => None,
    }
}

/// The components that the first `n` segments make: on a system with a separator of
/// its own, a segment may hold several.
pub open spec fn components_of(segs: Seq<Seq<char>>, sep: u8, n: nat) -> Seq<Seq<char>>
    decreases n,
{
    if n == 0 {
        Seq::empty()
    } else {
        let p = parts(segs[n - 1], sep);
        components_of(segs, sep, (n - 1) as nat) + filled(p, p.len())
    }
}

/// The components of the path that the segments make.
pub fn components(segs: &Vec<String>, sep: u8) -> (r: Vec<String>)
    ensures
        texts(r@) == components_of(texts(segs@), sep, segs@.len()),
{
    let mut out: Vec<String> = Vec::new();
    let mut i: usize = 0;
    assert(texts(out@) =~= components_of(texts(segs@), sep, 0));
    while i < segs.len()
        invariant
            i <= segs@.len(),
            texts(out@) == components_of(texts(segs@), sep, i as nat),
        decreases segs@.len() - i,
    {
        let names = path_parts(segs[i].as_str(), sep);
        let ghost p = parts(segs@[i as int]@, sep);
        assert(texts(segs@)[i as int] == segs@[i as int]@);
        let ghost before = texts(out@);
        let mut k: usize = 0;
        assert(texts(out@) =~= before + filled(p, 0));
        while k < names.len()
            invariant
                texts(names@) == p,
                k <= names@.len(),
                texts(out@) == before + filled(p, k as nat),
            decreases names@.len() - k,
        {
            assert(texts(names@)[k as int] == names@[k as int]@);
            if !names[k].as_str().is_empty() {
                let ghost so_far = out@;
                out.push(names[k].clone());
                assert(texts(out@) =~= texts(so_far).push(names@[k as int]@));
                assert(texts(out@) =~= before + filled(p, (k + 1) as nat));
            }
            k = k + 1;
        }
        assert(texts(names@).len() == names@.len());
        i = i + 1;
    }
    out
}

/// The segments, each behind a slash.
pub open spec fn slashed(segs: Seq<Seq<char>>) -> Seq<char>
    decreases segs.len(),
{
    if segs.len() == 0 {
        Seq::empty()
    } else {
        slashed(segs.drop_last()) + "/"@ + segs.last()
    }
}

/// The title of a listing before it is escaped: the path, made of its components,
/// with a slash between them on every system; or `/` for the root.
pub open spec fn title_of(segs: Seq<Seq<char>>) -> Seq<char> {
    if segs.len() == 0 {
        "/"@
    } else {
        slashed(segs)
    }
}

/// The title of a listing before it is escaped.
pub fn decoded_title(segs: &Vec<String>) -> (r: String)
    ensures
        r@ == title_of(texts(segs@)),
{
    if segs.len() == 0 {
        return "/".to_owned();
    }
    let mut out = String::new();
    let mut i: usize = 0;
    assert(texts(segs@).take(0) =~= Seq::<Seq<char>>::empty());
    while i < segs.len()
        invariant
            i <= segs@.len(),
            out@ == slashed(texts(segs@).take(i as int)),
        decreases segs@.len() - i,
    {
        assert(texts(segs@).take(i + 1).drop_last() =~= texts(segs@).take(i as int));
        out.append("/");
        out.append(segs[i].as_str());
        i = i + 1;
    }
    assert(texts(segs@).take(segs@.len() as int) =~= texts(segs@));
    out
}

/// The prefix of the links in a listing: the directory as an absolute,
/// percent-encoded path with a slash at its end.
pub open spec fn base_of(segs: Seq<Seq<char>>) -> Seq<char>
    decreases segs.len(),
{
    if segs.len() == 0 {
        "/"@
    } else {
        base_of(segs.drop_last()) + href_of(encode_utf8(segs.last())) + "/"@
    }
}

/// The prefix of the links in the listing of the first `n` segments.
pub fn href_base(segs: &Vec<String>, n: usize) -> (r: String)
    requires
        n <= segs@.len(),
    ensures
        r@ == base_of(texts(segs@).take(n as int)),
{
    let mut out = "/".to_owned();
    let mut i: usize = 0;
    assert(texts(segs@).take(0) =~= Seq::<Seq<char>>::empty());
    while i < n
        invariant
            i <= n <= segs@.len(),
            out@ == base_of(texts(segs@).take(i as int)),
        decreases n - i,
    {
        assert(texts(segs@).take(i + 1).drop_last() =~= texts(segs@).take(i as int));
        out.append(encode_href(segs[i].as_str()).as_str());
        out.append("/");
        i = i + 1;
    }
    out
}

/// The lines for the first `n` entries.
pub open spec fn items(base: Seq<char>, entries: Seq<ListEntry>, n: nat) -> Seq<char>
    decreases n,
{
    if n == 0 {
        Seq::empty()
    } else {
        items(base, entries, (n - 1) as nat) + item(base, entries[n - 1], ""@)
    }
}

/// The line that leads up, in every listing but the root's.
pub open spec fn parent_item(segs: Seq<Seq<char>>) -> Seq<char> {
    if segs.len() == 0 {
        Seq::empty()
    } else {
        "<li><a href=\""@ + base_of(segs.drop_last()) + "\">../</a></li>\n"@
    }
}

/// The page that lists a directory.
pub open spec fn listing_page(segs: Seq<Seq<char>>, entries: Seq<ListEntry>) -> Seq<char> {
    page(
        escaped("Index of "@ + title_of(segs)),
        "<ul>\n"@ + parent_item(segs) + items(base_of(segs), entries, entries.len())
            + "</ul>\n<hr>\n"@,
    )
}

/// What the file system tells of a directory that might be listed.
#[derive(Debug)]
pub struct DirProbe {
    /// What the directory resolves to.
    pub resolved: Option<Vec<u8>>,
    /// It is a directory.
    pub is_dir: bool,
    /// It holds an `index.html`.
    pub has_index: bool,
    /// What it holds, where it can be read.
    pub entries: Option<Vec<RawEntry>>,
}

/// The page for a directory: none where it lies outside the root, is no directory,
/// has an index of its own or cannot be read.
pub open spec fn listing_of(segs: Seq<Seq<char>>, dir: DirProbe, root: Seq<u8>, sep: u8) -> Option<
    Seq<char>,
> {
    match (dir.resolved, dir.entries) {
        (Some(r), Some(raw)) if under(r@, root, sep) && dir.is_dir && !dir.has_index => Some(
            listing_page(components_of(segs, sep, segs.len()), listed(raw@, root, sep)),
        ),
        _ => None,
    }
}

/// The page for a directory without an index; nothing where the request is left to
/// the file server.
pub fn render_listing(segs: &Vec<String>, dir: &DirProbe, root: &[u8], sep: u8) -> (r: Option<
    String,
>)
    ensures
        match r {
            Some(s) => listing_of(texts(segs@), *dir, root@, sep) == Some(s@),
            None => listing_of(texts(segs@), *dir, root@, sep) is None,
        },
{
    match &dir.resolved {
        Some(p) => {
            if !under_root(p.as_slice(), root, sep) || !dir.is_dir {
                return None;
            }
        },
        None => return None,
    }
    if dir.has_index {
        return None;
    }
    let raw = match &dir.entries {
        Some(v) => v,
        None => return None,
    };
    let entries = list_entries(raw, root, sep);
    let names = components(segs, sep);
    let ghost shown = texts(names@);
    let title = escape_html(
        concat2("Index of ", decoded_title(&names).as_str()).as_str(),
    );
    let base = href_base(&names, names.len());
    assert(shown.take(names@.len() as int) =~= shown);
    let mut body = "<ul>\n".to_owned();
    if names.len() > 0 {
        let parent = href_base(&names, names.len() - 1);
        assert(shown.take(names@.len() - 1) =~= shown.drop_last());
        let line = concat3("<li><a href=\"", parent.as_str(), "\">../</a></li>\n");
        body.append(line.as_str());
    }
    let ghost head = "<ul>\n"@ + parent_item(shown);
    assert(body@ =~= head);
    let mut i: usize = 0;
    assert(body@ =~= head + items(base@, entries@, 0));
    while i < entries.len()
        invariant
            i <= entries@.len(),
            body@ == head + items(base@, entries@, i as nat),
        decreases entries@.len() - i,
    {
        let line = item_html(base.as_str(), &entries[i], "");
        body.append(line.as_str());
        assert(body@ =~= head + items(base@, entries@, (i + 1) as nat));
        i = i + 1;
    }
    body.append("</ul>\n<hr>\n");
    Some(html_page(title.as_str(), body.as_str()))
}

// ---------------------------------------------------------------------------
// Deep links
// ---------------------------------------------------------------------------

/// The segments for which the shell of a single-page application might be served:
/// only a reading request that came to nothing, with a path that was not refused.
pub open spec fn shell_target(
    status: u16,
    method: Method,
    raw: Seq<char>,
    sep: u8,
) -> Option<Seq<Seq<char>>> {
    if status == 404 && method.reads() {
        admitted(raw, sep)
    } else {
        None
    }
}

/// The segments for which the shell of a single-page application might be served.
pub fn spa_fallback(status: u16, method: Method, raw: &str, sep: u8) -> (r: Option<Vec<String>>)
    ensures
        match r {
            Some(v) => shell_target(status, method, raw@, sep) == Some(texts(v@)),
            None => shell_target(status, method, raw@, sep) is None,
        },
{
    if status != 404 || !method.is_read() {
        return None;
    }
    confine(raw, sep)
}

/// How a deep link is answered.
#[derive(Clone, Copy, Debug, PartialEq, Eq, Structural)]
pub enum ShellAnswer {
    /// As it was answered before.
    Unchanged,
    /// With the shell: `Content-Length` tells its length.
    Shell {
        /// The length of the shell, in bytes.
        length: usize,
        /// The shell itself is sent, and not only its headers.
        with_body: bool,
    },
}

/// What the file system tells of a deep link and of the shell.
#[derive(Debug)]
pub struct ShellProbe {
    /// Something is there at the target, even if only a link that leads nowhere.
    pub occupied: bool,
    /// What the `index.html` of the root resolves to.
    pub index_resolved: Option<Vec<u8>>,
    /// How long that `index.html` is in bytes, where it can be read.
    pub length: Option<usize>,
}

/// How a deep link is answered: with the shell only where nothing is there, and only
/// where the shell lies under the root.
pub open spec fn deep_link(method: Method, p: ShellProbe, root: Seq<u8>, sep: u8) -> ShellAnswer {
    match (p.index_resolved, p.length) {
        (Some(index), Some(length)) if !p.occupied && under(index@, root, sep) => {
            ShellAnswer::Shell { length, with_body: !(method is Head) }
        },
        _ => ShellAnswer::Unchanged,
    }
}

/// How a deep link is answered. A target that is there was refused on purpose, and
/// stays refused; a shell that leads out of the root is none.
pub fn shell_answer(method: Method, p: &ShellProbe, root: &[u8], sep: u8) -> (r: ShellAnswer)
    ensures
        r == deep_link(method, *p, root@, sep),
{
    if p.occupied {
        return ShellAnswer::Unchanged;
    }
    match (&p.index_resolved, p.length) {
        (Some(index), Some(length)) => {
            if under_root(index.as_slice(), root, sep) {
                ShellAnswer::Shell { length, with_body: method != Method::Head }
            } else {
                ShellAnswer::Unchanged
            }
        },
        _ => ShellAnswer::Unchanged,
    }
}

// ---------------------------------------------------------------------------
// The layers around the file server
// ---------------------------------------------------------------------------

/// A layer around the file server.
#[derive(Clone, Copy, Debug, PartialEq, Eq, Structural)]
pub enum Layer {
    /// Directories without an index are listed.
    List,
    /// Requests are kept under the root.
    Confine,
    /// Deep links are answered with the shell.
    Spa,
    /// Requests are traced.
    Trace,
    /// Requests must carry the token.
    Token,
    /// Permissive CORS headers are set.
    Cors,
    /// Content types are not to be guessed.
    NoSniff,
    /// Bodies are limited to [`MAX_REQUEST_BODY`].
    BodyLimit,
    /// Requests are limited to [`REQUEST_TIMEOUT`].
    Timeout,
}

/// A list of the layer where it is wanted.
pub open spec fn wanted(b: bool, l: Layer) -> Seq<Layer> {
    if b {
        seq![l]
    } else {
        Seq::empty()
    }
}

/// The layers around the file server, the innermost first.
pub open spec fn layers(flags: StaticFlagsView) -> Seq<Layer> {
    seq![Layer::List, Layer::Confine] + wanted(flags.spa, Layer::Spa) + seq![Layer::Trace] + wanted(
        flags.token is Some,
        Layer::Token,
    ) + wanted(flags.cors, Layer::Cors) + seq![Layer::NoSniff, Layer::BodyLimit, Layer::Timeout]
}

/// The layers around the file server, the innermost first.
pub fn router_with(flags: &StaticFlags) -> (r: Vec<Layer>)
    ensures
        r@ == layers(flags@),
{
    let mut out: Vec<Layer> = Vec::new();
    out.push(Layer::List);
    out.push(Layer::Confine);
    if flags.spa {
        out.push(Layer::Spa);
    }
    out.push(Layer::Trace);
    if flags.token.is_some() {
        out.push(Layer::Token);
    }
    if flags.cors {
        out.push(Layer::Cors);
    }
    out.push(Layer::NoSniff);
    out.push(Layer::BodyLimit);
    out.push(Layer::Timeout);
    assert(out@ =~= layers(flags@));
    out
}

/// Whether a request passes the token guard of a static origin: every request must
/// carry the token.
pub fn require_token(authorization: Option<&str>, query: Option<&str>, expected: &str) -> (r: bool)
    ensures
        r == carried(opt_str(authorization), opt_str(query), expected@),
{
    carries_token(authorization, query, expected)
}

/// The answer to a request without the token.
pub open spec fn no_token_answer() -> AnswerView {
    AnswerView {
        status: 401,
        body: "this static origin requires the access token (Authorization: Bearer or ?token=)\n"@,
    }
}

/// Why an address is not served on; nothing for a loopback address.
pub open spec fn address_refusal(loopback: bool, addr: Seq<char>) -> Option<Seq<char>> {
    if loopback {
        None
    } else {
        Some(
            "refusing to serve on non-loopback address "@ + addr
                + "; the static server must stay behind the cloudflared tunnel"@,
        )
    }
}

/// The answer to a request without the token.
pub fn unauthorized() -> (r: Answer)
    ensures
        r@ == no_token_answer(),
{
    Answer {
        status: 401,
        body: "this static origin requires the access token (Authorization: Bearer or ?token=)\n".to_owned(),
    }
}

/// Why an address is not served on; nothing for a loopback address.
pub fn refused_address(loopback: bool, addr: &str) -> (r: Option<String>)
    ensures
        opt_text(r) == address_refusal(loopback, addr@),
{
    if loopback {
        None
    } else {
        Some(
            concat3(
                "refusing to serve on non-loopback address ",
                addr,
                "; the static server must stay behind the cloudflared tunnel",
            ),
        )
    }
}

// ---------------------------------------------------------------------------
// Laws
// ---------------------------------------------------------------------------

/// What is left of the segments is among them and not empty.
proof fn lemma_filled(segs: Seq<Seq<char>>, n: nat)
    requires
        n <= segs.len(),
    ensures
        forall|k: int|
            0 <= k < filled(segs, n).len() ==> (#[trigger] filled(segs, n)[k]).len() > 0 && exists|
                i: int,
            |
                0 <= i < n && segs[i] == filled(segs, n)[k],
    decreases n,
{
    if n > 0 {
        lemma_filled(segs, (n - 1) as nat);
        let before = filled(segs, (n - 1) as nat);
        assert forall|k: int| 0 <= k < filled(segs, n).len() implies (#[trigger] filled(
            segs,
            n,
        )[k]).len() > 0 && exists|i: int| 0 <= i < n && segs[i] == filled(segs, n)[k] by {
            if k < before.len() {
                assert(filled(segs, n)[k] == before[k]);
                let i = choose|i: int| 0 <= i < n - 1 && segs[i] == before[k];
                assert(segs[i] == filled(segs, n)[k]);
            } else {
                assert(segs[n - 1] == filled(segs, n)[k]);
            }
        }
    }
}

/// What a request may reach is named by plain segments: they are filled, hold no
/// slash, and no component in them starts with a dot, so none is hidden and none
/// leads up.
pub proof fn law_admitted_segments_are_plain(raw: Seq<char>, sep: u8)
    requires
        known_separator(sep),
    ensures
        admitted(raw, sep) matches Some(segs) ==> forall|k: int|
            0 <= k < segs.len() ==> {
                &&& (#[trigger] segs[k]).len() > 0
                &&& segs[k][0] != '.'
                &&& !hidden(segs[k], sep)
                &&& !segs[k].contains('/')
            },
{
    if let Some(segs) = admitted(raw, sep) {
        let d = decoded(raw)->0;
        let all = raw_segments(d);
        let rest = trim_start_char(d, '/');
        lemma_skip_while(d, only('/'), 0);
        lemma_split_parts(rest, '/', 0);
        lemma_filled(all, all.len());
        assert forall|k: int| 0 <= k < segs.len() implies {
            &&& (#[trigger] segs[k]).len() > 0
            &&& segs[k][0] != '.'
            &&& !hidden(segs[k], sep)
            &&& !segs[k].contains('/')
        } by {
            let i = choose|i: int| 0 <= i < all.len() && all[i] == segs[k];
            assert(!hidden(all[i], sep));
            if dotted(segs[k]) {
                lemma_leading_dot_hides(segs[k], sep);
            }
            if segs[k].contains('/') {
                let m = choose|m: int| 0 <= m < segs[k].len() && segs[k][m] == '/';
                assert(crate::text::split_from(rest, '/', 0)[i][m] != '/');
            }
        }
    }
}

/// A segment with a leading dot is hidden.
proof fn lemma_leading_dot_hides(seg: Seq<char>, sep: u8)
    requires
        known_separator(sep),
        dotted(seg),
    ensures
        hidden(seg, sep),
{
    let u = crate::path::unified(seg, sep);
    crate::text::lemma_index_from(u, '/', 0);
    let j = crate::text::index_from(u, '/', 0);
    assert(parts(seg, sep)[0] == u.subrange(0, j));
    assert(dotted(parts(seg, sep)[0]));
}


/// A segment without a separator is a component of its own: where no segment holds
/// one, the title and the links of a listing are made of the segments themselves.
pub proof fn law_plain_segments_are_the_components(segs: Seq<Seq<char>>, sep: u8, n: nat)
    requires
        n <= segs.len(),
        forall|k: int|
            0 <= k < segs.len() ==> (#[trigger] segs[k]).len() > 0 && !segs[k].contains('/')
                && !segs[k].contains(sep as char),
    ensures
        components_of(segs, sep, n) == segs.take(n as int),
    decreases n,
{
    if n > 0 {
        law_plain_segments_are_the_components(segs, sep, (n - 1) as nat);
        let s = segs[n - 1];
        lemma_one_part(s, sep);
        let p = parts(s, sep);
        reveal_with_fuel(filled, 2);
        assert(filled(p, p.len()) =~= seq![s]);
        assert(segs.take(n as int) =~= segs.take(n - 1) + seq![s]);
    }
    assert(segs.take(0) =~= Seq::<Seq<char>>::empty());
}

/// What is served lies under the root, and so does the index that is served in its
/// place.
pub proof fn law_confined_targets_stay_under_the_root(t: TargetProbe, root: Seq<u8>, sep: u8)
    requires
        confined(t, root, sep),
    ensures
        t.resolved matches Some(r) && under(r@, root, sep),
        t.is_dir && t.index_exists ==> (t.index_resolved matches Some(r) && under(r@, root, sep)),
{
}

/// A refusal keeps its meaning: a path that confinement turns away for its text is
/// never answered with the shell.
pub proof fn law_refused_paths_get_no_shell(
    status: u16,
    method: Method,
    raw: Seq<char>,
    sep: u8,
)
    requires
        admitted(raw, sep) is None,
    ensures
        shell_target(status, method, raw, sep) is None,
{
}

/// The shell never takes the place of anything that is there, and is itself never
/// taken from outside of the root.
pub proof fn law_shell_launders_nothing(method: Method, p: ShellProbe, root: Seq<u8>, sep: u8)
    requires
        deep_link(method, p, root, sep) is Shell,
    ensures
        !p.occupied,
        p.index_resolved matches Some(index) && under(index@, root, sep),
{
}

/// Whatever the flags, requests are kept under the root, and the token guard and
/// the shell stand outside of that; the CORS headers stand outside of the token
/// guard.
pub proof fn law_layer_order(flags: StaticFlagsView)
    ensures
        layers(flags)[1] == Layer::Confine,
        forall|i: int|
            0 <= i < layers(flags).len() && (#[trigger] layers(flags)[i] == Layer::Token
                || layers(flags)[i] == Layer::Spa) ==> i > 1,
        forall|i: int, j: int|
            0 <= i < layers(flags).len() && 0 <= j < layers(flags).len()
                && #[trigger] layers(flags)[i] == Layer::Token && #[trigger] layers(flags)[j]
                == Layer::Cors ==> i < j,
        layers(flags).contains(Layer::Token) <==> flags.token is Some,
{
    let all = layers(flags);
    let a = seq![Layer::List, Layer::Confine];
    let b = a + wanted(flags.spa, Layer::Spa);
    let c = b + seq![Layer::Trace];
    let d = c + wanted(flags.token is Some, Layer::Token);
    let e = d + wanted(flags.cors, Layer::Cors);
    assert(all =~= e + seq![Layer::NoSniff, Layer::BodyLimit, Layer::Timeout]);
    if flags.token is Some {
        assert(all[c.len() as int] == Layer::Token);
    }
    assert forall|i: int| 0 <= i < all.len() && all[i] == Layer::Token implies flags.token is Some
        && i == c.len() by {
        if i < c.len() {
            assert(all[i] == c[i]);
        }
    }
}

/// Confinement refuses nothing that lies inside: a target that resolves to a path under
/// the root is let through, unless it is a directory with an index that leads out or
/// nowhere.
pub proof fn law_confinement_refuses_nothing_inside(
    t: TargetProbe,
    target: Vec<u8>,
    index: Vec<u8>,
    root: Seq<u8>,
    sep: u8,
)
    requires
        t.resolved == Some(target),
        under(target@, root, sep),
        !t.is_dir || !t.index_exists || (t.index_resolved == Some(index) && under(
            index@,
            root,
            sep,
        )),
    ensures
        confined(t, root, sep),
{
}

/// An index leads out exactly where it exists and does not resolve to a path under the
/// root; one that is not there leads nowhere.
pub proof fn law_only_an_index_outside_escapes(
    resolved: Seq<u8>,
    root: Seq<u8>,
    sep: u8,
)
    ensures
        escaping(true, Some(resolved), root, sep) <==> !under(resolved, root, sep),
        escaping(true, None, root, sep),
        !escaping(false, Some(resolved), root, sep),
        !escaping(false, None, root, sep),
{
}

/// The filled segments of two lists are those of the first and then those of the
/// second.
proof fn lemma_filled_pieces(a: Seq<Seq<char>>, b: Seq<Seq<char>>, n: nat)
    requires
        n <= b.len(),
    ensures
        filled(a + b, a.len() + n) == filled(a, a.len()) + filled(b, n),
    decreases n,
{
    if n == 0 {
        lemma_filled_begin(a, b, a.len());
        assert(filled(a, a.len()) + filled(b, 0) =~= filled(a, a.len()));
    } else {
        lemma_filled_pieces(a, b, (n - 1) as nat);
        assert((a + b)[a.len() + n - 1] == b[n - 1]);
        assert(filled(a + b, a.len() + n) =~= filled(a, a.len()) + filled(b, n));
    }
}

/// What stands behind the first `n` segments does not change what they hold.
proof fn lemma_filled_begin(a: Seq<Seq<char>>, b: Seq<Seq<char>>, n: nat)
    requires
        n <= a.len(),
    ensures
        filled(a + b, n) == filled(a, n),
    decreases n,
{
    if n > 0 {
        lemma_filled_begin(a, b, (n - 1) as nat);
        assert((a + b)[n - 1] == a[n - 1]);
    }
}

/// The filled parts between the slashes of a path.
spec fn path_names(path: Seq<char>) -> Seq<Seq<char>> {
    filled(split(path, '/'), split(path, '/').len())
}

/// The names in a joined path.
proof fn lemma_path_names(a: Seq<char>, b: Seq<char>, name: Seq<char>)
    requires
        name.len() > 0,
        !name.contains('/'),
    ensures
        path_names(a + seq!['/'] + b) == path_names(a) + path_names(b),
        path_names(name) == seq![name],
        path_names(Seq::empty()) == Seq::<Seq<char>>::empty(),
{
    law_joined_texts_split_apart(a, b, name, '/');
    let x = split(a, '/');
    let y = split(b, '/');
    lemma_filled_pieces(x, y, y.len());
    assert((x + y).len() == x.len() + y.len());
    reveal_with_fuel(filled, 2);
    assert(filled(seq![name], 1) =~= seq![name]);
    let none = Seq::<char>::empty();
    law_joined_texts_split_apart(a, b, none, '/');
    assert(filled(seq![none], 1) =~= Seq::<Seq<char>>::empty());
}

/// Slashes at the start of a path name nothing.
proof fn lemma_candidate_is_its_names(path: Seq<char>)
    ensures
        candidate(path) == path_names(path),
    decreases path.len(),
{
    lemma_skip_while(path, only('/'), 0);
    let i = crate::text::skip_while(path, only('/'), 0);
    if i == 0 {
        assert(trim_start_char(path, '/') =~= path);
    } else {
        let rest = path.skip(1);
        assert(only('/')(path[0]));
        assert(path =~= Seq::<char>::empty() + seq!['/'] + rest);
        lemma_path_names(Seq::empty(), rest, seq!['x']);
        assert(path_names(path) =~= path_names(rest));
        lemma_candidate_is_its_names(rest);
        lemma_skip_while(rest, only('/'), 0);
        let j = crate::text::skip_while(rest, only('/'), 0);
        assert(j == i - 1) by {
            if j < i - 1 {
                assert(only('/')(path[j + 1]));
                assert(rest[j] == path[j + 1]);
            }
            if j > i - 1 {
                assert(only('/')(rest[i - 1]));
                assert(rest[i - 1] == path[i]);
            }
        }
        assert(trim_start_char(path, '/') =~= trim_start_char(rest, '/'));
    }
}

/// The segments that a path names are those before a slash and then those behind it;
/// a text without a slash is its own segment, and nothing names none. So empty ones are
/// passed over, and every other is named, in its order.
pub proof fn law_segments_stand_between_slashes(a: Seq<char>, b: Seq<char>, name: Seq<char>)
    requires
        name.len() > 0,
        !name.contains('/'),
    ensures
        candidate(a + seq!['/'] + b) == candidate(a) + candidate(b),
        candidate(name) == seq![name],
        candidate(Seq::empty()) == Seq::<Seq<char>>::empty(),
{
    lemma_candidate_is_its_names(a + seq!['/'] + b);
    lemma_candidate_is_its_names(a);
    lemma_candidate_is_its_names(b);
    lemma_candidate_is_its_names(name);
    lemma_candidate_is_its_names(Seq::empty());
    lemma_path_names(a, b, name);
}

/// The segment is plain: it is filled, holds nothing that separates, and does not start
/// with a dot.
pub open spec fn plain_segment(seg: Seq<char>, sep: u8) -> bool {
    seg.len() > 0 && seg[0] != '.' && !seg.contains('/') && !seg.contains(sep as char)
}

/// The path to a directory: each segment behind a slash, and a slash at the end.
pub open spec fn dir_path(segs: Seq<Seq<char>>) -> Seq<char>
    decreases segs.len(),
{
    if segs.len() == 0 {
        seq!['/']
    } else {
        dir_path(segs.drop_last()) + segs.last() + seq!['/']
    }
}

/// A path to a directory ends with a slash.
proof fn lemma_dir_path(segs: Seq<Seq<char>>)
    ensures
        dir_path(segs).len() > 0,
        dir_path(segs).last() == '/',
{
}

/// A path of plain segments names them and hides nothing.
proof fn lemma_plain_path(segs: Seq<Seq<char>>, leaf: Seq<char>, sep: u8)
    requires
        forall|k: int| 0 <= k < segs.len() ==> plain_segment(#[trigger] segs[k], sep),
        leaf.len() > 0 ==> plain_segment(leaf, sep),
    ensures
        candidate(dir_path(segs) + leaf) == (if leaf.len() > 0 {
            segs.push(leaf)
        } else {
            segs
        }),
        forall|k: int|
            0 <= k < split(dir_path(segs) + leaf, '/').len() && (#[trigger] split(
                dir_path(segs) + leaf,
                '/',
            )[k]).len() > 0 ==> plain_segment(split(dir_path(segs) + leaf, '/')[k], sep),
    decreases segs.len(),
{
    let path = dir_path(segs) + leaf;
    lemma_dir_path(segs);
    let head = dir_path(segs).drop_last();
    assert(path =~= head + seq!['/'] + leaf);
    let none = Seq::<char>::empty();
    assert(!none.contains('/'));
    if leaf.len() > 0 {
        law_segments_stand_between_slashes(head, leaf, leaf);
        law_joined_texts_split_apart(head, leaf, leaf, '/');
    } else {
        assert(leaf =~= none);
        law_segments_stand_between_slashes(head, leaf, seq!['x']);
        law_joined_texts_split_apart(head, leaf, none, '/');
    }
    if segs.len() == 0 {
        assert(head =~= none);
        law_joined_texts_split_apart(head, leaf, none, '/');
        law_segments_stand_between_slashes(head, leaf, seq!['x']);
        assert(candidate(path) =~= if leaf.len() > 0 {
            segs.push(leaf)
        } else {
            segs
        });
    } else {
        let front = segs.drop_last();
        assert(plain_segment(segs.last(), sep));
        assert forall|k: int| 0 <= k < front.len() implies plain_segment(
            #[trigger] front[k],
            sep,
        ) by {
            assert(front[k] == segs[k]);
        }
        lemma_plain_path(front, segs.last(), sep);
        assert(head =~= dir_path(front) + segs.last());
        assert(front.push(segs.last()) =~= segs);
        assert(candidate(path) =~= if leaf.len() > 0 {
            segs.push(leaf)
        } else {
            segs
        });
    }
    let all = split(path, '/');
    let first = split(head, '/');
    let second = split(leaf, '/');
    assert(all =~= first + second);
    assert(second =~= seq![leaf]);
    assert forall|k: int| 0 <= k < all.len() && (#[trigger] all[k]).len()
        > 0 implies plain_segment(all[k], sep) by {
        if k < first.len() {
            assert(all[k] == first[k]);
            if segs.len() == 0 {
                assert(first =~= seq![none]);
            }
        } else {
            assert(all[k] == leaf);
        }
    }
}

/// A path of plain segments reaches exactly these, with a slash at its end or without:
/// nothing of it is refused or passed over.
pub proof fn law_plain_paths_reach_their_segments(
    raw: Seq<char>,
    segs: Seq<Seq<char>>,
    leaf: Seq<char>,
    sep: u8,
)
    requires
        known_separator(sep),
        forall|k: int| 0 <= k < segs.len() ==> plain_segment(#[trigger] segs[k], sep),
        leaf.len() > 0 ==> plain_segment(leaf, sep),
        decoded(raw) == Some(dir_path(segs) + leaf),
    ensures
        admitted(raw, sep) == Some(
            if leaf.len() > 0 {
                segs.push(leaf)
            } else {
                segs
            },
        ),
{
    let path = dir_path(segs) + leaf;
    lemma_plain_path(segs, leaf, sep);
    lemma_skip_while(path, only('/'), 0);
    let i = crate::text::skip_while(path, only('/'), 0);
    let rest = trim_start_char(path, '/');
    let all = split(path, '/');
    // What is trimmed are empty segments, so that those of the rest are among all.
    lemma_trimmed_segments(path);
    if dot_segment(path, sep) {
        let k = choose|k: int|
            0 <= k < raw_segments(path).len() && hidden(#[trigger] raw_segments(path)[k], sep);
        let seg = raw_segments(path)[k];
        assert(all.contains(seg));
        let m = choose|m: int| 0 <= m < all.len() && all[m] == seg;
        if seg.len() > 0 {
            assert(plain_segment(all[m], sep));
            lemma_one_part(seg, sep);
        } else {
            assert(!seg.contains('/') && !seg.contains(sep as char));
            lemma_one_part(seg, sep);
        }
    }
}

/// The segments behind the slashes at the start are among all.
proof fn lemma_trimmed_segments(path: Seq<char>)
    ensures
        forall|k: int|
            0 <= k < raw_segments(path).len() ==> split(path, '/').contains(
                #[trigger] raw_segments(path)[k],
            ),
    decreases path.len(),
{
    lemma_skip_while(path, only('/'), 0);
    let i = crate::text::skip_while(path, only('/'), 0);
    if i == 0 {
        assert(trim_start_char(path, '/') =~= path);
        assert forall|k: int| 0 <= k < raw_segments(path).len() implies split(path, '/').contains(
            #[trigger] raw_segments(path)[k],
        ) by {
            assert(split(path, '/')[k] == raw_segments(path)[k]);
        }
    } else {
        let rest = path.skip(1);
        assert(only('/')(path[0]));
        assert(path =~= Seq::<char>::empty() + seq!['/'] + rest);
        law_joined_texts_split_apart(Seq::<char>::empty(), rest, Seq::<char>::empty(), '/');
        lemma_trimmed_segments(rest);
        lemma_skip_while(rest, only('/'), 0);
        let j = crate::text::skip_while(rest, only('/'), 0);
        assert(j == i - 1) by {
            if j < i - 1 {
                assert(only('/')(path[j + 1]));
                assert(rest[j] == path[j + 1]);
            }
            if j > i - 1 {
                assert(only('/')(rest[i - 1]));
                assert(rest[i - 1] == path[i]);
            }
        }
        assert(trim_start_char(path, '/') =~= trim_start_char(rest, '/'));
        let all = split(path, '/');
        let fewer = split(rest, '/');
        assert forall|k: int| 0 <= k < raw_segments(path).len() implies all.contains(
            #[trigger] raw_segments(path)[k],
        ) by {
            assert(raw_segments(path)[k] == raw_segments(rest)[k]);
            assert(fewer.contains(raw_segments(rest)[k]));
            let m = choose|m: int| 0 <= m < fewer.len() && fewer[m] == raw_segments(rest)[k];
            assert(all[m + 1] == fewer[m]);
        }
    }
}

/// The prefix of the links in a listing is the encoded path to its directory.
proof fn lemma_base_is_the_encoded_path(segs: Seq<Seq<char>>)
    ensures
        base_of(segs) == href_of(encode_utf8(dir_path(segs))),
    decreases segs.len(),
{
    reveal_strlit("/");
    let slash = seq!['/'];
    assert("/"@ =~= slash);
    assert(is_ascii_chars(slash));
    is_ascii_chars_encode_utf8(slash);
    assert(encode_utf8(slash) =~= seq![0x2fu8]);
    crate::percent::law_href_keeps_what_is_unreserved(Seq::empty(), 0x2f, Seq::empty());
    assert(Seq::<u8>::empty() + seq![0x2fu8] + Seq::<u8>::empty() =~= seq![0x2fu8]);
    assert(href_of(seq![0x2fu8]) =~= slash);
    if segs.len() > 0 {
        let front = dir_path(segs.drop_last());
        lemma_base_is_the_encoded_path(segs.drop_last());
        crate::bytes::lemma_encode_concat(front, segs.last());
        crate::bytes::lemma_encode_concat(front + segs.last(), slash);
        crate::percent::lemma_href_pieces(encode_utf8(front), encode_utf8(segs.last()));
        crate::percent::lemma_href_pieces(encode_utf8(front + segs.last()), encode_utf8(slash));
        assert(base_of(segs) =~= href_of(encode_utf8(dir_path(segs))));
    }
}

/// Every link of a listing leads to what it names: the prefix of the links to the
/// directory that is listed, and the prefix with the name of an entry to that entry in
/// it.
pub proof fn law_links_of_a_listing_lead_to_its_entries(
    segs: Seq<Seq<char>>,
    name: Seq<char>,
    sep: u8,
)
    requires
        known_separator(sep),
        forall|k: int| 0 <= k < segs.len() ==> plain_segment(#[trigger] segs[k], sep),
        plain_segment(name, sep),
    ensures
        admitted(base_of(segs), sep) == Some(segs),
        admitted(base_of(segs) + href_of(encode_utf8(name)), sep) == Some(segs.push(name)),
        admitted(base_of(segs.push(name)), sep) == Some(segs.push(name)),
{
    let path = dir_path(segs);
    let none = Seq::<char>::empty();
    lemma_base_is_the_encoded_path(segs);
    crate::percent::law_href_decodes_to_its_name(path);
    assert(path + none =~= path);
    law_plain_paths_reach_their_segments(base_of(segs), segs, none, sep);
    crate::bytes::lemma_encode_concat(path, name);
    crate::percent::lemma_href_pieces(encode_utf8(path), encode_utf8(name));
    crate::percent::law_href_decodes_to_its_name(path + name);
    law_plain_paths_reach_their_segments(
        base_of(segs) + href_of(encode_utf8(name)),
        segs,
        name,
        sep,
    );
    let more = segs.push(name);
    assert forall|k: int| 0 <= k < more.len() implies plain_segment(#[trigger] more[k], sep) by {
        if k < segs.len() {
            assert(more[k] == segs[k]);
        }
    }
    lemma_base_is_the_encoded_path(more);
    crate::percent::law_href_decodes_to_its_name(dir_path(more));
    assert(dir_path(more) + none =~= dir_path(more));
    law_plain_paths_reach_their_segments(base_of(more), more, none, sep);
}

/// The title of a listing is the path to its directory: a slash for the root, and for
/// any other the segments, each behind a slash.
pub proof fn law_title_is_the_path(segs: Seq<Seq<char>>)
    ensures
        segs.len() == 0 ==> title_of(segs) == seq!['/'],
        segs.len() > 0 ==> title_of(segs).push('/') == dir_path(segs),
    decreases segs.len(),
{
    reveal_strlit("/");
    assert("/"@ =~= seq!['/']);
    if segs.len() == 1 {
        assert(segs.drop_last() =~= Seq::<Seq<char>>::empty());
        assert(slashed(segs.drop_last()) =~= Seq::<char>::empty());
        assert(dir_path(segs.drop_last()) =~= seq!['/']);
        assert(title_of(segs).push('/') =~= dir_path(segs));
    } else if segs.len() > 1 {
        law_title_is_the_path(segs.drop_last());
        assert(title_of(segs).push('/') =~= dir_path(segs));
    }
}

/// The lines of a listing are those of its entries, in their order.
proof fn lemma_items(base: Seq<char>, entries: Seq<ListEntry>, n: nat)
    requires
        n <= entries.len(),
    ensures
        items(base, entries, n) == Seq::new(
            n,
            |i: int| item(base, entries[i], Seq::empty()),
        ).flatten(),
    decreases n,
{
    reveal_strlit("");
    assert(""@ =~= Seq::<char>::empty());
    let all = Seq::new(n, |i: int| item(base, entries[i], Seq::empty()));
    if n > 0 {
        lemma_items(base, entries, (n - 1) as nat);
        let before = Seq::new((n - 1) as nat, |i: int| item(base, entries[i], Seq::empty()));
        assert(all =~= before.push(all[n - 1]));
        before.lemma_flatten_push(all[n - 1]);
    } else {
        assert(all =~= Seq::<Seq<char>>::empty());
    }
}

/// The page of a listing says which directory it lists, leads up to the directory that
/// holds it, unless it is the root, and then has the line of every entry, in their
/// order, and no other.
pub proof fn law_listing_page_has_the_line_of_every_entry(
    segs: Seq<Seq<char>>,
    entries: Seq<ListEntry>,
)
    ensures
        ({
            let up = if segs.len() == 0 {
                Seq::empty()
            } else {
                "<li><a href=\""@ + base_of(segs.take(segs.len() - 1)) + "\">../</a></li>\n"@
            };
            let lines = Seq::new(
                entries.len(),
                |i: int| item(base_of(segs), entries[i], Seq::empty()),
            );
            listing_page(segs, entries) == page(
                escaped("Index of "@ + title_of(segs)),
                "<ul>\n"@ + up + lines.flatten() + "</ul>\n<hr>\n"@,
            )
        }),
{
    lemma_items(base_of(segs), entries, entries.len());
    if segs.len() > 0 {
        assert(segs.take(segs.len() - 1) =~= segs.drop_last());
    }
}

/// A directory is listed exactly where it is one, resolves to a path under the root, has
/// no index of its own and can be read; and then with the entries that it holds.
pub proof fn law_directories_without_an_index_are_listed(
    segs: Seq<Seq<char>>,
    dir: DirProbe,
    root: Seq<u8>,
    sep: u8,
)
    ensures
        listing_of(segs, dir, root, sep) is Some <==> dir.is_dir && !dir.has_index
            && dir.entries is Some && dir.resolved is Some && under(dir.resolved->0@, root, sep),
        listing_of(segs, dir, root, sep) is Some && (forall|k: int|
            0 <= k < segs.len() ==> plain_segment(#[trigger] segs[k], sep)) ==> listing_of(
            segs,
            dir,
            root,
            sep,
        ) == Some(listing_page(segs, listed(dir.entries->0@, root, sep))),
{
    if forall|k: int| 0 <= k < segs.len() ==> plain_segment(#[trigger] segs[k], sep) {
        law_plain_segments_are_the_components(segs, sep, segs.len());
        assert(segs.take(segs.len() as int) =~= segs);
    }
}

/// A listing is only thought of for a request that reads and whose path is text, and
/// then for the segments that the path names.
pub proof fn law_listings_are_for_readers(method: Method, raw: Seq<char>)
    ensures
        list_target(method, raw) is Some <==> (method == Method::Get || method == Method::Head)
            && decoded(raw) is Some,
        list_target(method, raw) is Some ==> list_target(method, raw) == Some(
            candidate(decoded(raw)->0),
        ),
{
}

/// The shell is thought of only for a request that reads and found nothing, and then
/// for what confinement admits.
pub proof fn law_shell_is_for_what_was_not_found(
    status: u16,
    method: Method,
    raw: Seq<char>,
    sep: u8,
)
    ensures
        shell_target(status, method, raw, sep) == (if status == 404 && (method == Method::Get
            || method == Method::Head) {
            admitted(raw, sep)
        } else {
            None
        }),
{
}

/// Where nothing is there and the index of the root lies under it and can be read, a
/// deep link is answered with the whole of it, and for `HEAD` with its headers alone.
pub proof fn law_deep_links_get_the_shell(
    method: Method,
    p: ShellProbe,
    index: Vec<u8>,
    length: usize,
    root: Seq<u8>,
    sep: u8,
)
    requires
        !p.occupied,
        p.index_resolved == Some(index),
        under(index@, root, sep),
        p.length == Some(length),
    ensures
        deep_link(method, p, root, sep) == (ShellAnswer::Shell {
            length,
            with_body: method != Method::Head,
        }),
{
}

/// Every request is traced, limited in size and time, and answered with a content type
/// that is not to be guessed; the shell, the token guard and the CORS headers are there
/// exactly where they are asked for; each layer is there at most once; the token guard
/// stands outside of the shell and of the tracing, and the limits outside of everything
/// else.
pub proof fn law_every_layer_is_there_where_it_is_asked_for(flags: StaticFlagsView)
    ensures
        layers(flags)[0] == Layer::List,
        layers(flags).contains(Layer::Trace),
        layers(flags).contains(Layer::Spa) <==> flags.spa,
        layers(flags).contains(Layer::Cors) <==> flags.cors,
        layers(flags).last() == Layer::Timeout,
        layers(flags)[layers(flags).len() - 2] == Layer::BodyLimit,
        layers(flags)[layers(flags).len() - 3] == Layer::NoSniff,
        layers(flags).no_duplicates(),
        forall|i: int, j: int|
            0 <= i < layers(flags).len() && 0 <= j < layers(flags).len()
                && #[trigger] layers(flags)[i] == Layer::Token && (#[trigger] layers(flags)[j]
                == Layer::Spa || layers(flags)[j] == Layer::Trace) ==> j < i,
{
    let all = layers(flags);
    let spa = if flags.spa {
        1int
    } else {
        0
    };
    let token = if flags.token is Some {
        1int
    } else {
        0
    };
    assert(all[2 + spa] == Layer::Trace);
    if flags.spa {
        assert(all[2] == Layer::Spa);
    }
    if flags.cors {
        assert(all[3 + spa + token] == Layer::Cors);
    }
}

/// Only a loopback address is served on; any other is refused by name. A request without
/// the token is refused as such.
pub proof fn law_only_loopback_is_served_on(addr: Seq<char>)
    ensures
        address_refusal(true, addr) is None,
        address_refusal(false, addr) matches Some(w) && occurs_in(w, addr),
        no_token_answer().status == 401,
{
    lemma_stands_between(
        "refusing to serve on non-loopback address "@,
        addr,
        "; the static server must stay behind the cloudflared tunnel"@,
    );
}

} // verus!

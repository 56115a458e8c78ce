//! The drop bucket: which uploads are taken, under which names, and how one is
//! stored.
//!
//! Reads are public; every other request must carry the token. Names are refused,
//! never changed. An upload is written to a hidden file of its own first and then
//! published under its name by a link that fails where the name is taken, so an
//! upload never replaces anything.

use vstd::prelude::*;
use vstd::string::*;
use vstd::utf8::*;

use crate::bytes::utf8_text;
use crate::path::{join, joined, known_separator, lemma_one_part};
use crate::percent::{decoded, percent_decode_text};
use crate::registry::quoted;
use crate::server::http::{
    carried, carries_token, escape_html, escaped, html_page, page, query_param,
    query_value, Answer, AnswerView, Method,
};
use crate::server::listing::{item, item_html, list_entries, listed, ListEntry, RawEntry};
use crate::text::{
    capital_and_small, char_is_control, chars_of, concat2, concat3, concat4, decimal, decimal_text,
    has_prefix, index_from, is_control, lemma_index_at, lemma_index_from, lemma_stands_between,
    occurs_in, opt_str, split, text_between, text_eq, text_trim, text_trim_start_char, trim,
    trim_start_char,
};

verus! {

/// Bound on a request, in seconds.
pub const REQUEST_TIMEOUT: u64 = 300;

/// The cap on one upload where none is asked for, in bytes.
pub const DEFAULT_MAX_SIZE: u64 = 67_108_864;

/// The cap on everything stored in a bucket, in bytes.
pub const MAX_TOTAL_STORE: u64 = 1_073_741_824;

/// The cap on the number of files in a bucket.
pub const MAX_FILE_COUNT: u64 = 10_000;

/// What the name of a hidden file adds to that of an upload, in bytes: a dot,
/// `.part-` and a tag of eight bytes.
pub const TEMP_NAME_OVERHEAD: usize = 15;

/// The longest name of an upload, in bytes: with what the hidden file adds it fits
/// 255 bytes.
pub const MAX_NAME_BYTES: usize = 240;

/// The file that holds a bucket's token.
pub const TOKEN_FILENAME: &'static str = "drop-token";

/// Bound on that file, in bytes.
pub const TOKEN_READ_BOUND: usize = 4_096;

// ---------------------------------------------------------------------------
// The token
// ---------------------------------------------------------------------------

/// The hexadecimal digit for `n`, a small letter from ten on.
pub open spec fn small_hex(n: u8) -> char {
    if n < 10 {
        (0x30 + n) as char
    } else {
        (0x61 + n - 10) as char
    }
}

/// The bytes, two hexadecimal digits for each.
pub open spec fn hex(b: Seq<u8>) -> Seq<char>
    decreases b.len(),
{
    if b.len() == 0 {
        Seq::empty()
    } else {
        hex(b.drop_last()).push(small_hex(b.last() / 16)).push(small_hex(b.last() % 16))
    }
}

/// The hexadecimal digit for `n`.
pub fn hex_char(n: u8) -> (r: char)
    requires
        n < 16,
    ensures
        r == small_hex(n),
{
    if n < 10 {
        (48 + n) as char
    } else {
        (97 + (n - 10)) as char
    }
}

/// The access token that 32 random bytes make: two hexadecimal digits for each.
pub fn generate_token(random: &[u8; 32]) -> (r: String)
    ensures
        r@ == hex(random@),
{
    let mut out = String::new();
    let mut i: usize = 0;
    assert(random@.take(0) =~= Seq::<u8>::empty());
    while i < random.len()
        invariant
            i <= random@.len(),
            out@ == hex(random@.take(i as int)),
        decreases random@.len() - i,
    {
        let b: u8 = random[i];
        assert(random@.take(i + 1).drop_last() =~= random@.take(i as int));
        out.push(hex_char(b / 16));
        out.push(hex_char(b % 16));
        i = i + 1;
    }
    assert(random@.take(random@.len() as int) =~= random@);
    out
}

/// What the token file holds: the token and a line feed.
pub open spec fn token_file(token: Seq<char>) -> Seq<char> {
    token + "\n"@
}

/// What the token file holds: the token and a line feed.
pub fn store_token(token: &str) -> (r: String)
    ensures
        r@ == token_file(token@),
{
    concat2(token, "\n")
}

/// Why a token file cannot be read.
#[derive(Clone, Copy, Debug, PartialEq, Eq, Structural)]
pub enum TokenError {
    /// It is larger than any token.
    TooLarge,
    /// It is not UTF-8.
    NotUtf8,
}

impl TokenError {
    /// The error in words.
    pub open spec fn words(self) -> Seq<char> {
        match self {
            TokenError::TooLarge => "the drop token file is implausibly large"@,
            TokenError::NotUtf8 => "the drop token file is not valid UTF-8"@,
        }
    }

    /// The error in words.
    pub fn message(self) -> (r: &'static str)
        ensures
            r@ == self.words(),
    {
        match self {
            TokenError::TooLarge => "the drop token file is implausibly large",
            TokenError::NotUtf8 => "the drop token file is not valid UTF-8",
        }
    }
}

/// The token that a file holds: its text without the white space around it.
pub open spec fn token_in(bytes: Seq<u8>) -> Result<Seq<char>, TokenError> {
    if bytes.len() > TOKEN_READ_BOUND {
        Err(TokenError::TooLarge)
    } else if !valid_utf8(bytes) {
        Err(TokenError::NotUtf8)
    } else {
        Ok(trim(decode_utf8(bytes)))
    }
}

/// The token that the file holds. No file is no token; a file that is too large or
/// not UTF-8 is an error, never taken for no token.
pub fn read_token(file: Option<&[u8]>) -> (r: Result<Option<String>, TokenError>)
    ensures
        match file {
            None => r == Ok::<Option<String>, TokenError>(None),
            Some(b) => match r {
                Ok(t) => t matches Some(s) && token_in(b@) == Ok::<Seq<char>, TokenError>(s@),
                Err(e) => token_in(b@) == Err::<Seq<char>, TokenError>(e),
            },
        },
{
    match file {
        None => Ok(None),
        Some(b) => {
            if b.len() > TOKEN_READ_BOUND {
                return Err(TokenError::TooLarge);
            }
            match utf8_text(b) {
                Some(s) => Ok(Some(text_trim(s.as_str()))),
                None => Err(TokenError::NotUtf8),
            }
        },
    }
}

/// The last character boundary of the bytes at or before `i`.
pub open spec fn boundary_before(b: Seq<u8>, i: int) -> int
    decreases i,
{
    if i <= 0 || is_char_boundary(b, i) {
        i
    } else {
        boundary_before(b, i - 1)
    }
}

/// The tag of a token, as bytes: up to eight of its first, as many as make whole
/// characters.
pub open spec fn tag_bytes(token: Seq<char>) -> Seq<u8> {
    let b = encode_utf8(token);
    b.subrange(
        0,
        boundary_before(
            b,
            if b.len() < 8 {
                b.len() as int
            } else {
                8
            },
        ),
    )
}

/// The tag of a token.
pub open spec fn tag(token: Seq<char>) -> Seq<char> {
    decode_utf8(tag_bytes(token))
}

/// The tag of a token: its first eight bytes, less what would split a character.
pub fn token_tag(token: &str) -> (r: String)
    ensures
        r@ == tag(token@),
        encode_utf8(r@) == tag_bytes(token@),
{
    let bytes = token.as_bytes();
    let start: usize = if bytes.len() < 8 {
        bytes.len()
    } else {
        8
    };
    let mut end: usize = start;
    proof {
        encode_utf8_valid_utf8(token@);
        is_char_boundary_start_end_of_seq(bytes@);
    }
    while end > 0 && !token.is_char_boundary(end)
        invariant
            bytes@ == encode_utf8(token@),
            end <= start <= bytes@.len(),
            boundary_before(bytes@, start as int) == boundary_before(bytes@, end as int),
        decreases end,
    {
        end = end - 1;
    }
    let (head, _) = token.split_at(end);
    proof {
        encode_utf8_decode_utf8(head@);
    }
    head.to_owned()
}

// ---------------------------------------------------------------------------
// Names
// ---------------------------------------------------------------------------

/// `c`, with an ASCII small letter made capital.
pub open spec fn upper(c: char) -> char {
    if 0x61 <= (c as u32) <= 0x7a {
        ((c as u32) - 32) as char
    } else {
        c
    }
}

/// `s` with its ASCII small letters made capital.
pub open spec fn upper_all(s: Seq<char>) -> Seq<char> {
    Seq::new(s.len(), |i: int| upper(s[i]))
}

/// The stem of a name, in capital letters: what stands before its first dot.
pub open spec fn stem(name: Seq<char>) -> Seq<char> {
    upper_all(name.subrange(0, index_from(name, '.', 0)))
}

/// A text of four characters, the last a digit from 1 to 9 behind `COM` or `LPT`.
pub open spec fn numbered_device(s: Seq<char>) -> bool {
    s.len() == 4 && 0x31 <= (s[3] as u32) <= 0x39 && (s.subrange(0, 3) == "COM"@ || s.subrange(0, 3)
        == "LPT"@)
}

/// The names that Windows keeps for its devices.
pub open spec fn device(s: Seq<char>) -> bool {
    s == "CON"@ || s == "PRN"@ || s == "AUX"@ || s == "NUL"@ || numbered_device(s)
}

/// Some character of `s` is a control character.
pub open spec fn any_control(s: Seq<char>) -> bool {
    exists|i: int| 0 <= i < s.len() && is_control(#[trigger] s[i])
}

/// The rule that a name breaks, where it breaks one.
pub open spec fn upload_fault(name: Seq<char>) -> Option<Seq<char>> {
    if name.len() == 0 {
        Some("the name is empty"@)
    } else if encode_utf8(name).len() > MAX_NAME_BYTES {
        Some("longer than 240 bytes"@)
    } else if name.contains('/') || name.contains('\\') {
        Some("path separators are not allowed (one flat file per upload)"@)
    } else if name[0] == '.' {
        Some("dotfiles (and any name starting with '.') are not allowed"@)
    } else if any_control(name) {
        Some("control characters are not allowed"@)
    } else if name.contains(':') {
        Some("colons are not allowed (Windows filenames cannot contain them)"@)
    } else if name[name.len() - 1] == '.' || name[name.len() - 1] == ' ' {
        Some("trailing dots/spaces are not allowed (Windows strips them)"@)
    } else if device(stem(name)) {
        Some("'"@ + stem(name) + "' is a reserved Windows device name"@)
    } else {
        None
    }
}

/// Whether `c` stands in `cs`.
fn has_char(cs: &Vec<char>, c: char) -> (r: bool)
    ensures
        r == cs@.contains(c),
{
    let mut i: usize = 0;
    while i < cs.len()
        invariant
            i <= cs@.len(),
            forall|k: int| 0 <= k < i ==> cs@[k] != c,
        decreases cs@.len() - i,
    {
        if cs[i] == c {
            assert(cs@[i as int] == c);
            return true;
        }
        i = i + 1;
    }
    false
}

/// Whether a control character stands in `cs`.
fn has_control(cs: &Vec<char>) -> (r: bool)
    ensures
        r == any_control(cs@),
{
    let mut i: usize = 0;
    while i < cs.len()
        invariant
            i <= cs@.len(),
            forall|k: int| 0 <= k < i ==> !is_control(#[trigger] cs@[k]),
        decreases cs@.len() - i,
    {
        if char_is_control(cs[i]) {
            assert(is_control(cs@[i as int]));
            return true;
        }
        i = i + 1;
    }
    false
}

/// The stem of a name, in capital letters.
fn stem_text(cs: &Vec<char>) -> (r: String)
    ensures
        r@ == stem(cs@),
{
    let end: usize = crate::text::char_index_from(cs, '.', 0);
    let mut out = String::new();
    let mut i: usize = 0;
    let ghost s = cs@.subrange(0, end as int);
    while i < end
        invariant
            s == cs@.subrange(0, end as int),
            i <= end <= cs@.len(),
            out@ == upper_all(s).take(i as int),
        decreases end - i,
    {
        let n: u32 = cs[i] as u32;
        if 0x61 <= n && n <= 0x7a {
            out.push((n as u8 - 32) as char);
        } else {
            out.push(cs[i]);
        }
        assert(upper_all(s).take(i + 1) =~= upper_all(s).take(i as int).push(upper(s[i as int])));
        i = i + 1;
    }
    assert(upper_all(s).take(end as int) =~= upper_all(s));
    out
}

/// Whether Windows keeps the name for one of its devices.
fn is_device(s: &str) -> (r: bool)
    ensures
        r == device(s@),
{
    if text_eq(s, "CON") || text_eq(s, "PRN") || text_eq(s, "AUX") || text_eq(s, "NUL") {
        return true;
    }
    let cs = chars_of(s);
    if cs.len() != 4 {
        return false;
    }
    let n: u32 = cs[3] as u32;
    if n < 0x31 || n > 0x39 {
        return false;
    }
    let head = text_between(&cs, 0, 3);
    text_eq(head.as_str(), "COM") || text_eq(head.as_str(), "LPT")
}

/// Accept the name of an upload as it stands, or tell the rule that it breaks.
pub fn sanitize_filename(raw: &str) -> (r: Result<String, String>)
    ensures
        match r {
            Ok(s) => upload_fault(raw@) is None && s@ == raw@,
            Err(e) => upload_fault(raw@) == Some(e@),
        },
{
    if raw.is_empty() {
        return Err("the name is empty".to_owned());
    }
    if raw.as_bytes().len() > MAX_NAME_BYTES {
        return Err("longer than 240 bytes".to_owned());
    }
    let cs = chars_of(raw);
    if has_char(&cs, '/') || has_char(&cs, '\\') {
        return Err("path separators are not allowed (one flat file per upload)".to_owned());
    }
    if cs[0] == '.' {
        return Err("dotfiles (and any name starting with '.') are not allowed".to_owned());
    }
    if has_control(&cs) {
        return Err("control characters are not allowed".to_owned());
    }
    if has_char(&cs, ':') {
        return Err("colons are not allowed (Windows filenames cannot contain them)".to_owned());
    }
    let last = cs[cs.len() - 1];
    if last == '.' || last == ' ' {
        return Err("trailing dots/spaces are not allowed (Windows strips them)".to_owned());
    }
    let stem = stem_text(&cs);
    if is_device(stem.as_str()) {
        return Err(concat3("'", stem.as_str(), "' is a reserved Windows device name"));
    }
    Ok(raw.to_owned())
}

// ---------------------------------------------------------------------------
// Requests
// ---------------------------------------------------------------------------

/// The request passes the token guard of a bucket.
pub open spec fn let_in(
    method: Method,
    authorization: Option<Seq<char>>,
    query: Option<Seq<char>>,
    expected: Seq<char>,
) -> bool {
    method.reads() || carried(authorization, query, expected)
}

/// Whether a request passes the token guard of a bucket: reads are public, and
/// everything else must carry the token.
pub fn require_token(
    method: Method,
    authorization: Option<&str>,
    query: Option<&str>,
    expected: &str,
) -> (r: bool)
    ensures
        r == let_in(method, opt_str(authorization), opt_str(query), expected@),
{
    if method.is_read() {
        return true;
    }
    carries_token(authorization, query, expected)
}

/// Where a request goes.
#[derive(Clone, Copy, Debug, PartialEq, Eq, Structural)]
pub enum Route {
    /// It uploads something.
    Upload,
    /// It asks for the listing; `head` for its headers alone.
    Listing {
        /// Only the headers are asked for.
        head: bool,
    },
    /// It is left to the file server.
    Files,
}

/// The path is that of the bucket itself.
pub open spec fn root_path(path: Seq<char>) -> bool {
    path == "/"@ || path.len() == 0
}

/// Whether the path is that of the bucket itself.
pub fn is_root_path(path: &str) -> (r: bool)
    ensures
        r == root_path(path@),
{
    text_eq(path, "/") || path.is_empty()
}

/// Where a request goes.
pub open spec fn routed(method: Method, path: Seq<char>) -> Route {
    if method is Post || method is Put {
        Route::Upload
    } else if method.reads() && root_path(path) {
        Route::Listing { head: method is Head }
    } else {
        Route::Files
    }
}

/// Where a request goes.
pub fn upload_or_list(method: Method, path: &str) -> (r: Route)
    ensures
        r == routed(method, path@),
{
    match method {
        Method::Post | Method::Put => Route::Upload,
        Method::Get | Method::Head => {
            if is_root_path(path) {
                Route::Listing { head: method == Method::Head }
            } else {
                Route::Files
            }
        },
        Method::Other => Route::Files,
    }
}

/// The name that an upload asks for: that in its path, or that in its query where
/// the path is the bucket's own. Both at once are refused, and so is none.
pub open spec fn asked_name(path: Seq<char>, query: Option<Seq<char>>) -> Result<
    Seq<char>,
    Seq<char>,
> {
    let in_query = match query {
        Some(q) => query_value(q, "filename"@),
        None => None,
    };
    if root_path(path) {
        match in_query {
            Some(n) => Ok(n),
            None => Err("no filename given: POST /<name> or POST /?filename=<name>\n"@),
        }
    } else if in_query is Some {
        Err("give the filename in the path or in ?filename=, not both\n"@)
    } else {
        match decoded(trim_start_char(path, '/')) {
            Some(n) => Ok(n),
            None => Err("the request path is not valid UTF-8\n"@),
        }
    }
}

/// The name that an upload asks for, or what the client is told with a 400.
pub fn upload_name(path: &str, query: Option<&str>) -> (r: Result<String, String>)
    ensures
        match r {
            Ok(n) => asked_name(path@, opt_str(query)) == Ok::<Seq<char>, Seq<char>>(n@),
            Err(e) => asked_name(path@, opt_str(query)) == Err::<Seq<char>, Seq<char>>(e@),
        },
{
    let in_query = match query {
        Some(q) => query_param(q, "filename"),
        None => None,
    };
    if is_root_path(path) {
        return match in_query {
            Some(n) => Ok(n),
            None => Err(
                "no filename given: POST /<name> or POST /?filename=<name>\n".to_owned(),
            ),
        };
    }
    if in_query.is_some() {
        return Err("give the filename in the path or in ?filename=, not both\n".to_owned());
    }
    let rest = text_trim_start_char(path, '/');
    match percent_decode_text(rest.as_str()) {
        Some(n) => Ok(n),
        None => Err("the request path is not valid UTF-8\n".to_owned()),
    }
}

/// The name that an upload is stored under, or the answer that refuses it.
pub open spec fn admitted_upload(path: Seq<char>, query: Option<Seq<char>>) -> Result<
    Seq<char>,
    AnswerView,
> {
    match asked_name(path, query) {
        Err(e) => Err(AnswerView { status: 400, body: e }),
        Ok(n) => match upload_fault(n) {
            Some(f) => Err(
                AnswerView {
                    status: 400,
                    body: "rejected filename "@ + quoted(n) + ": "@ + f + "\n"@,
                },
            ),
            None => Ok(n),
        },
    }
}

/// The name that an upload is stored under, or the answer that refuses it.
pub fn admit_upload(path: &str, query: Option<&str>) -> (r: Result<String, Answer>)
    ensures
        match r {
            Ok(n) => admitted_upload(path@, opt_str(query)) == Ok::<Seq<char>, AnswerView>(n@),
            Err(a) => admitted_upload(path@, opt_str(query)) == Err::<Seq<char>, AnswerView>(a@),
        },
{
    let name = match upload_name(path, query) {
        Ok(n) => n,
        Err(body) => return Err(Answer { status: 400, body }),
    };
    match sanitize_filename(name.as_str()) {
        Ok(n) => Ok(n),
        Err(reason) => {
            let mut body = concat4(
                "rejected filename ",
                crate::registry::quoted_text(name.as_str()).as_str(),
                ": ",
                reason.as_str(),
            );
            body.append("\n");
            Err(Answer { status: 400, body })
        },
    }
}

/// A layer around the file server of a bucket.
#[derive(Clone, Copy, Debug, PartialEq, Eq, Structural)]
pub enum Layer {
    /// Requests are kept under the root.
    Confine,
    /// Uploads are read and stored, and the bucket is listed.
    Upload,
    /// Requests that do not only read must carry the token.
    Token,
    /// Content types are not to be guessed.
    NoSniff,
    /// Bodies that declare more than the cap on an upload are refused.
    BodyLimit,
    /// Requests are limited to [`REQUEST_TIMEOUT`].
    Timeout,
}

/// The layers around the file server of a bucket, the innermost first.
pub open spec fn layers() -> Seq<Layer> {
    seq![
        Layer::Confine,
        Layer::Upload,
        Layer::Token,
        Layer::NoSniff,
        Layer::BodyLimit,
        Layer::Timeout,
    ]
}

/// The layers around the file server of a bucket, the innermost first.
pub fn router() -> (r: Vec<Layer>)
    ensures
        r@ == layers(),
{
    vec![
        Layer::Confine,
        Layer::Upload,
        Layer::Token,
        Layer::NoSniff,
        Layer::BodyLimit,
        Layer::Timeout,
    ]
}

// ---------------------------------------------------------------------------
// Storing
// ---------------------------------------------------------------------------

/// What a bucket holds.
#[derive(Clone, Copy, Debug, PartialEq, Eq, Structural)]
pub struct Usage {
    /// The bytes of all files.
    pub bytes: u64,
    /// The number of files.
    pub files: u64,
}

impl Default for Usage {
    fn default() -> (r: Self)
        ensures
            r == (Usage { bytes: 0, files: 0 }),
    {
        Usage { bytes: 0, files: 0 }
    }
}

/// What a walk over a bucket comes upon.
#[derive(Clone, Copy, Debug, PartialEq, Eq, Structural)]
pub enum Found {
    /// A link, which is not followed.
    Symlink,
    /// A directory, which is walked too.
    Dir,
    /// A file of the given size.
    File(u64),
    /// Anything else.
    Other,
}

/// What the bucket holds, counting what the walk came upon: only files count.
pub open spec fn measured(used: Usage, found: Found) -> Usage {
    match found {
        Found::File(size) => Usage {
            bytes: (used.bytes + size) as u64,
            files: (used.files + 1) as u64,
        },
        _ => used,
    }
}

/// What the bucket holds, counting what the walk came upon: only files count.
pub fn measure(used: Usage, found: Found) -> (r: Usage)
    requires
        found matches Found::File(size) ==> used.bytes + size <= u64::MAX && used.files < u64::MAX,
    ensures
        r == measured(used, found),
{
    match found {
        Found::File(size) => Usage { bytes: used.bytes + size, files: used.files + 1 },
        _ => used,
    }
}

/// An open bucket.
#[derive(Debug)]
pub struct DropStore {
    /// The resolved directory that uploads go into.
    pub root: String,
    /// The separator of paths.
    pub sep: u8,
    /// The token that uploads must carry.
    pub token: String,
    /// The cap on one upload, in bytes.
    pub max_upload: usize,
    /// The cap on everything stored, in bytes.
    pub total_cap: u64,
    /// The cap on the number of files.
    pub file_cap: u64,
    /// What is stored.
    pub used: Usage,
}

/// How storing an upload ends.
#[derive(Clone, Copy, Debug, PartialEq, Eq, Structural)]
pub enum StoreResult {
    /// It is stored.
    Stored,
    /// It would exceed the cap on everything stored.
    Full,
    /// It would exceed the cap on the number of files.
    FullCount,
    /// Its name is taken.
    Exists,
    /// The disk failed.
    Io,
}

/// The next step in storing an upload.
#[derive(Clone, Copy, Debug, PartialEq, Eq, Structural)]
pub enum StoreStep {
    /// Remove the hidden file that an earlier attempt may have left. It may be
    /// linked to a published file, so it must not be written through.
    UnlinkStale,
    /// Write the hidden file.
    WriteTemp,
    /// Publish it under its name, by a link that fails where the name is taken.
    Publish,
    /// Remove the hidden file, as far as that works, and end.
    DropTemp(StoreResult),
    /// Nothing is left to be done.
    Finished(StoreResult),
}

/// How a step came out.
#[derive(Clone, Copy, Debug, PartialEq, Eq, Structural)]
pub enum Outcome {
    /// It was done.
    Done,
    /// There was no such file.
    NotFound,
    /// The name was taken.
    AlreadyExists,
    /// It failed otherwise.
    Failed,
}

/// The first step for an upload of `len` bytes.
pub open spec fn first_step(store: DropStore, len: nat) -> StoreStep {
    if store.used.bytes + len > store.total_cap {
        StoreStep::Finished(StoreResult::Full)
    } else if store.used.files >= store.file_cap {
        StoreStep::Finished(StoreResult::FullCount)
    } else {
        StoreStep::UnlinkStale
    }
}

/// The step that follows another, given how that one came out.
pub open spec fn next_step(step: StoreStep, outcome: Outcome) -> StoreStep {
    match step {
        StoreStep::UnlinkStale => if outcome is Done || outcome is NotFound {
            StoreStep::WriteTemp
        } else {
            StoreStep::Finished(StoreResult::Io)
        },
        StoreStep::WriteTemp => if outcome is Done {
            StoreStep::Publish
        } else {
            StoreStep::DropTemp(StoreResult::Io)
        },
        StoreStep::Publish => match outcome {
            Outcome::Done => StoreStep::DropTemp(StoreResult::Stored),
            Outcome::AlreadyExists => StoreStep::DropTemp(StoreResult::Exists),
            _ => StoreStep::DropTemp(StoreResult::Io),
        },
        StoreStep::DropTemp(r) => StoreStep::Finished(r),
        StoreStep::Finished(r) => StoreStep::Finished(r),
    }
}

/// What is stored once the step is taken: an upload counts only where it is
/// stored, and then also where its hidden file stays behind.
pub open spec fn used_after(used: Usage, step: StoreStep, len: nat) -> Usage {
    if step == StoreStep::DropTemp(StoreResult::Stored) {
        Usage { bytes: (used.bytes + len) as u64, files: (used.files + 1) as u64 }
    } else {
        used
    }
}

/// The name of the hidden file for an upload.
pub open spec fn temp_name(token: Seq<char>, name: Seq<char>) -> Seq<char> {
    "."@ + name + ".part-"@ + tag(token)
}

/// The cap on one upload that a bucket has where so many bytes are asked for.
pub open spec fn bucket_cap(max_upload: u64) -> int {
    if max_upload <= usize::MAX {
        max_upload as int
    } else {
        usize::MAX as int
    }
}

impl DropStore {
    /// One more upload of `len` bytes exceeds neither cap.
    pub open spec fn has_room_for(&self, len: nat) -> bool {
        self.used.bytes + len <= self.total_cap && self.used.files < self.file_cap
    }

    /// Open the bucket at a resolved directory, with what it holds already.
    pub fn open(
        root: String,
        sep: u8,
        token: String,
        max_upload: u64,
        total_cap: u64,
        used: Usage,
    ) -> (r: DropStore)
        ensures
            r.root@ == root@,
            r.sep == sep,
            r.token@ == token@,
            r.max_upload == bucket_cap(max_upload),
            r.total_cap == total_cap,
            r.file_cap == MAX_FILE_COUNT,
            r.used == used,
    {
        DropStore::open_with_file_cap(root, sep, token, max_upload, total_cap, MAX_FILE_COUNT, used)
    }

    /// Open the bucket with a cap of its own on the number of files.
    pub fn open_with_file_cap(
        root: String,
        sep: u8,
        token: String,
        max_upload: u64,
        total_cap: u64,
        file_cap: u64,
        used: Usage,
    ) -> (r: DropStore)
        ensures
            r.root@ == root@,
            r.sep == sep,
            r.token@ == token@,
            r.max_upload == bucket_cap(max_upload),
            r.total_cap == total_cap,
            r.file_cap == file_cap,
            r.used == used,
    {
        let max: usize = if max_upload <= usize::MAX as u64 {
            max_upload as usize
        } else {
            usize::MAX
        };
        DropStore { root, sep, token, max_upload: max, total_cap, file_cap, used }
    }

    /// The hidden file for an upload: of the bucket's own, because of the tag, and
    /// out of reach of both reads and uploads, because of the dot.
    pub fn temp_path(&self, name: &str) -> (r: String)
        ensures
            r@ == joined(self.root@, temp_name(self.token@, name@), self.sep),
    {
        let tag = token_tag(self.token.as_str());
        let leaf = concat4(".", name, ".part-", tag.as_str());
        join(self.root.as_str(), leaf.as_str(), self.sep)
    }

    /// The file that an upload is published as.
    pub fn target_path(&self, name: &str) -> (r: String)
        ensures
            r@ == joined(self.root@, name@, self.sep),
    {
        join(self.root.as_str(), name, self.sep)
    }

    /// The first step for an upload of `len` bytes: a bucket without room for it
    /// takes none.
    pub fn store_write(&self, len: usize) -> (r: StoreStep)
        ensures
            r == first_step(*self, len as nat),
    {
        if self.used.bytes as u128 + len as u128 > self.total_cap as u128 {
            return StoreStep::Finished(StoreResult::Full);
        }
        if self.used.files >= self.file_cap {
            return StoreStep::Finished(StoreResult::FullCount);
        }
        StoreStep::UnlinkStale
    }

    /// The step that follows another, given how that one came out.
    pub fn store_next(&mut self, step: StoreStep, outcome: Outcome, len: usize) -> (r: StoreStep)
        requires
            step == StoreStep::DropTemp(StoreResult::Stored) ==> old(self).has_room_for(len as nat),
        ensures
            r == next_step(step, outcome),
            final(self).used == used_after(old(self).used, step, len as nat),
            final(self).root == old(self).root,
            final(self).sep == old(self).sep,
            final(self).token == old(self).token,
            final(self).max_upload == old(self).max_upload,
            final(self).total_cap == old(self).total_cap,
            final(self).file_cap == old(self).file_cap,
    {
        match step {
            StoreStep::UnlinkStale => match outcome {
                Outcome::Done | Outcome::NotFound => StoreStep::WriteTemp,
                _ => StoreStep::Finished(StoreResult::Io),
            },
            StoreStep::WriteTemp => match outcome {
                Outcome::Done => StoreStep::Publish,
                _ => StoreStep::DropTemp(StoreResult::Io),
            },
            StoreStep::Publish => match outcome {
                Outcome::Done => StoreStep::DropTemp(StoreResult::Stored),
                Outcome::AlreadyExists => StoreStep::DropTemp(StoreResult::Exists),
                _ => StoreStep::DropTemp(StoreResult::Io),
            },
            StoreStep::DropTemp(r) => {
                if r == StoreResult::Stored {
                    self.used = Usage {
                        bytes: self.used.bytes + len as u64,
                        files: self.used.files + 1,
                    };
                }
                StoreStep::Finished(r)
            },
            StoreStep::Finished(r) => StoreStep::Finished(r),
        }
    }
}

/// What the client is told of an upload that was admitted under a name and read.
pub open spec fn upload_answer(name: Seq<char>, r: StoreResult) -> AnswerView {
    match r {
        StoreResult::Stored => AnswerView { status: 201, body: "stored "@ + name + "\n"@ },
        StoreResult::Full => AnswerView {
            status: 507,
            body: "the drop bucket is full (total-store cap reached); nothing was stored\n"@,
        },
        StoreResult::FullCount => AnswerView {
            status: 409,
            body: "the drop bucket is full (file-count cap reached); nothing was stored\n"@,
        },
        StoreResult::Exists => AnswerView {
            status: 409,
            body: "a file with that name already exists; uploads never overwrite\n"@,
        },
        StoreResult::Io => AnswerView { status: 500, body: "failed to store the upload\n"@ },
    }
}

/// What the client is told of an upload that was admitted under a name and read.
pub fn upload(name: &str, result: StoreResult) -> (r: Answer)
    ensures
        r@ == upload_answer(name@, result),
{
    match result {
        StoreResult::Stored => Answer { status: 201, body: concat3("stored ", name, "\n") },
        StoreResult::Full => Answer {
            status: 507,
            body: "the drop bucket is full (total-store cap reached); nothing was stored\n".to_owned(),
        },
        StoreResult::FullCount => Answer {
            status: 409,
            body: "the drop bucket is full (file-count cap reached); nothing was stored\n".to_owned(),
        },
        StoreResult::Exists => Answer {
            status: 409,
            body: "a file with that name already exists; uploads never overwrite\n".to_owned(),
        },
        StoreResult::Io => Answer {
            status: 500,
            body: "failed to store the upload\n".to_owned(),
        },
    }
}

/// What the client is told of an upload whose body could not be read within the
/// cap.
pub open spec fn over_cap_answer() -> AnswerView {
    AnswerView { status: 413, body: "upload over the size cap, not stored\n"@ }
}

/// What the client is told that carries no token.
pub open spec fn no_token_answer() -> AnswerView {
    AnswerView {
        status: 401,
        body: "uploads require the access token (Authorization: Bearer or ?token=)\n"@,
    }
}

/// What the client is told of an upload whose body could not be read within the
/// cap.
pub fn unreadable_upload() -> (r: Answer)
    ensures
        r@ == over_cap_answer(),
{
    Answer { status: 413, body: "upload over the size cap, not stored\n".to_owned() }
}

/// What the client is told that carries no token.
pub fn unauthorized() -> (r: Answer)
    ensures
        r@ == no_token_answer(),
{
    Answer {
        status: 401,
        body: "uploads require the access token (Authorization: Bearer or ?token=)\n".to_owned(),
    }
}

// ---------------------------------------------------------------------------
// The listing
// ---------------------------------------------------------------------------

/// What a listing says of an entry's size.
pub open spec fn size_note(e: ListEntry) -> Seq<char> {
    if e.is_dir {
        ""@
    } else {
        " <small>"@ + decimal(e.size as nat) + " B</small>"@
    }
}

/// The lines for the first `n` entries.
pub open spec fn bucket_items(entries: Seq<ListEntry>, n: nat) -> Seq<char>
    decreases n,
{
    if n == 0 {
        Seq::empty()
    } else {
        bucket_items(entries, (n - 1) as nat) + item("/"@, entries[n - 1], size_note(entries[n - 1]))
    }
}

/// What the listing says before its entries. The token is not in it: the page is
/// public.
pub open spec fn bucket_intro() -> Seq<char> {
    "<p>Upload (token required for POST/PUT; GET is public): <code>curl -H \"Authorization: Bearer &lt;token&gt;\" --data-binary @file.txt /file.txt</code> — the token is printed once at start and shown by <code>ft detail</code>. Raw bodies only; multipart is stored as opaque bytes.</p>\n<ul>\n"@
}

/// The page that lists a bucket.
pub open spec fn bucket_page(entries: Seq<ListEntry>) -> Seq<char> {
    page(
        escaped("Drop bucket — uploaded files"@),
        bucket_intro() + (if entries.len() == 0 {
            "<li>(nothing uploaded yet)</li>\n"@
        } else {
            ""@
        }) + bucket_items(entries, entries.len()) + "</ul>\n<hr>\n"@,
    )
}

/// The page that lists a bucket. What a read would be refused is not shown.
pub fn render_listing(raw: &Vec<RawEntry>, root: &[u8], sep: u8) -> (r: String)
    ensures
        r@ == bucket_page(listed(raw@, root@, sep)),
{
    let entries = list_entries(raw, root, sep);
    let mut body =
        "<p>Upload (token required for POST/PUT; GET is public): <code>curl -H \"Authorization: Bearer &lt;token&gt;\" --data-binary @file.txt /file.txt</code> — the token is printed once at start and shown by <code>ft detail</code>. Raw bodies only; multipart is stored as opaque bytes.</p>\n<ul>\n".to_owned();
    let notice = if entries.len() == 0 {
        "<li>(nothing uploaded yet)</li>\n"
    } else {
        ""
    };
    body.append(notice);
    let ghost head = body@;
    let mut i: usize = 0;
    assert(body@ =~= head + bucket_items(entries@, 0));
    while i < entries.len()
        invariant
            i <= entries@.len(),
            body@ == head + bucket_items(entries@, i as nat),
        decreases entries@.len() - i,
    {
        let e = &entries[i];
        let note = if e.is_dir {
            "".to_owned()
        } else {
            concat3(" <small>", decimal_text(e.size).as_str(), " B</small>")
        };
        let line = item_html("/", e, note.as_str());
        body.append(line.as_str());
        assert(body@ =~= head + bucket_items(entries@, (i + 1) as nat));
        i = i + 1;
    }
    body.append("</ul>\n<hr>\n");
    let title = escape_html("Drop bucket — uploaded files");
    html_page(title.as_str(), body.as_str())
}

// ---------------------------------------------------------------------------
// Laws
// ---------------------------------------------------------------------------

/// A token is two small hexadecimal digits for each random byte, all of them ASCII.
pub proof fn law_token_is_hexadecimal(b: Seq<u8>)
    ensures
        hex(b).len() == 2 * b.len(),
        is_ascii_chars(hex(b)),
        forall|i: int|
            0 <= i < hex(b).len() ==> {
                let c = #[trigger] hex(b)[i] as u32;
                0x30 <= c <= 0x39 || 0x61 <= c <= 0x66
            },
    decreases b.len(),
{
    if b.len() > 0 {
        law_token_is_hexadecimal(b.drop_last());
        let h = hex(b.drop_last());
        assert forall|i: int| 0 <= i < hex(b).len() implies {
            let c = #[trigger] hex(b)[i] as u32;
            0x30 <= c <= 0x39 || 0x61 <= c <= 0x66
        } by {
            if i < h.len() {
                assert(hex(b)[i] == h[i]);
            }
        }
    }
}

/// Different bytes have different digits.
proof fn lemma_small_hex(x: u8, y: u8)
    requires
        small_hex(x / 16) == small_hex(y / 16),
        small_hex(x % 16) == small_hex(y % 16),
    ensures
        x == y,
{
    assert(x == 16 * (x / 16) + x % 16);
    assert(y == 16 * (y / 16) + y % 16);
}

/// Different random bytes make different tokens.
pub proof fn law_tokens_of_different_bytes_differ(a: Seq<u8>, b: Seq<u8>)
    requires
        hex(a) == hex(b),
    ensures
        a == b,
    decreases a.len(),
{
    law_token_is_hexadecimal(a);
    law_token_is_hexadecimal(b);
    if a.len() > 0 {
        let n = hex(a).len();
        assert(hex(a)[n - 1] == hex(b)[n - 1]);
        assert(hex(a)[n - 2] == hex(b)[n - 2]);
        assert(b.len() == a.len());
        assert(hex(a) == hex(a.drop_last()).push(small_hex(a.last() / 16)).push(
            small_hex(a.last() % 16),
        ));
        assert(hex(b) == hex(b.drop_last()).push(small_hex(b.last() / 16)).push(
            small_hex(b.last() % 16),
        ));
        law_token_is_hexadecimal(a.drop_last());
        law_token_is_hexadecimal(b.drop_last());
        assert(hex(a)[n - 2] == small_hex(a.last() / 16));
        assert(hex(b)[n - 2] == small_hex(b.last() / 16));
        assert(hex(a)[n - 1] == small_hex(a.last() % 16));
        assert(hex(b)[n - 1] == small_hex(b.last() % 16));
        lemma_small_hex(a.last(), b.last());
        assert(hex(a.drop_last()) =~= hex(a).subrange(0, n - 2));
        assert(hex(b.drop_last()) =~= hex(b).subrange(0, n - 2));
        law_tokens_of_different_bytes_differ(a.drop_last(), b.drop_last());
        assert(a =~= a.drop_last().push(a.last()));
        assert(b =~= b.drop_last().push(b.last()));
    } else {
        assert(a =~= b);
    }
}

/// A token without white space around it is read back from its file as it was
/// stored, as long as the file keeps within its bound.
pub proof fn law_stored_token_reads_back(token: Seq<char>)
    requires
        trim(token) == token,
        encode_utf8(token + "\n"@).len() <= TOKEN_READ_BOUND,
    ensures
        token_in(encode_utf8(token + "\n"@)) == Ok::<Seq<char>, TokenError>(token),
{
    let text = token + "\n"@;
    reveal_strlit("\n");
    encode_utf8_valid_utf8(text);
    encode_utf8_decode_utf8(text);
    crate::text::lemma_trim_ends(token);
    let w = crate::text::white();
    let n = text.len() as int;
    assert(text[n - 1] == '\n');
    assert(w(text[n - 1]));
    let a = crate::text::skip_while(text, w, 0);
    crate::text::lemma_skip_while(text, w, 0);
    if token.len() > 0 {
        assert(text[0] == token[0]);
        assert(!w(text[0]));
        assert(a == 0);
        assert(text[n - 2] == token[token.len() - 1]);
        assert(!w(text[n - 2]));
        assert(crate::text::drop_while(text, w, 0, n) == crate::text::drop_while(text, w, 0, n - 1));
        assert(crate::text::drop_while(text, w, 0, n - 1) == n - 1);
        assert(trim(text) =~= token);
    } else {
        assert(a == 1);
        assert(trim(text) =~= token);
    }
}

/// The tag of a token is at most eight bytes, the first of the token's own.
pub proof fn law_tag_is_short(token: Seq<char>)
    ensures
        tag_bytes(token).len() <= 8,
        tag_bytes(token).is_prefix_of(encode_utf8(token)),
        encode_utf8(tag(token)) == tag_bytes(token),
{
    let b = encode_utf8(token);
    let m = if b.len() < 8 {
        b.len() as int
    } else {
        8
    };
    encode_utf8_valid_utf8(token);
    lemma_boundary_before(b, m);
    let e = boundary_before(b, m);
    valid_utf8_split(b, e);
    decode_utf8_encode_utf8(b.subrange(0, e));
    assert(tag_bytes(token) =~= b.subrange(0, tag_bytes(token).len() as int));
}

/// There is a character boundary at or before every position.
proof fn lemma_boundary_before(b: Seq<u8>, i: int)
    requires
        valid_utf8(b),
        0 <= i <= b.len(),
    ensures
        0 <= boundary_before(b, i) <= i,
        is_char_boundary(b, boundary_before(b, i)),
    decreases i,
{
    is_char_boundary_start_end_of_seq(b);
    if i > 0 && !is_char_boundary(b, i) {
        lemma_boundary_before(b, i - 1);
    }
}

/// The hidden file of every accepted name fits the 255 bytes that file systems give
/// a name, whatever the token is.
pub proof fn law_hidden_name_fits(token: Seq<char>, name: Seq<char>)
    requires
        upload_fault(name) is None,
    ensures
        encode_utf8(temp_name(token, name)).len() <= 255,
{
    reveal_strlit(".");
    reveal_strlit(".part-");
    law_tag_is_short(token);
    crate::bytes::lemma_encode_concat("."@ + name + ".part-"@, tag(token));
    crate::bytes::lemma_encode_concat("."@ + name, ".part-"@);
    crate::bytes::lemma_encode_concat("."@, name);
    assert(is_ascii_chars("."@));
    assert(is_ascii_chars(".part-"@));
    is_ascii_chars_encode_utf8("."@);
    is_ascii_chars_encode_utf8(".part-"@);
}

/// Two buckets share the hidden file for a name only where their tokens have the
/// same tag; and no upload can ask for the name of a hidden file.
pub proof fn law_hidden_names_are_apart(token: Seq<char>, other: Seq<char>, name: Seq<char>)
    ensures
        temp_name(token, name) == temp_name(other, name) <==> tag(token) == tag(other),
        upload_fault(temp_name(token, name)) is Some,
{
    reveal_strlit(".");
    let head = "."@ + name + ".part-"@;
    assert(temp_name(token, name)[0] == '.');
    if temp_name(token, name) == temp_name(other, name) {
        let a = temp_name(token, name);
        let b = temp_name(other, name);
        let k = head.len() as int;
        assert(a.subrange(k, a.len() as int) =~= tag(token));
        assert(b.subrange(k, b.len() as int) =~= tag(other));
    }
}

/// An accepted name is one flat file of the bucket: it holds no separator and no
/// control character, and is not hidden.
pub proof fn law_accepted_name_is_flat(name: Seq<char>)
    requires
        upload_fault(name) is None,
    ensures
        name.len() > 0,
        !name.contains('/'),
        !name.contains('\\'),
        name[0] != '.',
        !any_control(name),
        encode_utf8(name).len() <= MAX_NAME_BYTES,
{
}

/// Where the steps have come to after the first `n` outcomes.
pub open spec fn step_after(outcomes: Seq<Outcome>, n: nat) -> StoreStep
    decreases n,
{
    if n == 0 {
        StoreStep::UnlinkStale
    } else {
        next_step(step_after(outcomes, (n - 1) as nat), outcomes[n - 1])
    }
}

/// Storing ends after at most four steps. It ends well only where the leftover is
/// gone, the hidden file was written and the link was made, in this order; a taken
/// name is told as such only where the link found it taken.
pub proof fn law_storing_ends_and_never_overwrites(outcomes: Seq<Outcome>)
    requires
        outcomes.len() >= 4,
    ensures
        step_after(outcomes, 4) is Finished,
        step_after(outcomes, 4) == StoreStep::Finished(StoreResult::Stored) <==> ((outcomes[0] is Done
            || outcomes[0] is NotFound) && outcomes[1] is Done && outcomes[2] is Done),
        step_after(outcomes, 4) == StoreStep::Finished(StoreResult::Exists) <==> ((outcomes[0] is Done
            || outcomes[0] is NotFound) && outcomes[1] is Done && outcomes[2] is AlreadyExists),
{
    reveal_with_fuel(step_after, 5);
}

/// An upload that is let in has room, and storing it keeps both caps.
pub proof fn law_storing_keeps_the_caps(store: DropStore, len: nat, step: StoreStep)
    requires
        first_step(store, len) is UnlinkStale,
    ensures
        store.has_room_for(len),
        used_after(store.used, step, len).bytes <= store.total_cap,
        used_after(store.used, step, len).files <= store.file_cap,
{
}

/// Only a stored upload is counted.
pub proof fn law_only_stored_uploads_count(used: Usage, step: StoreStep, len: nat)
    ensures
        used_after(used, step, len) != used ==> step == StoreStep::DropTemp(StoreResult::Stored),
{
}

/// A name that holds no slash is a path of a single segment.
proof fn lemma_single_segment(name: Seq<char>)
    requires
        name.len() > 0,
        !name.contains('/'),
    ensures
        trim_start_char(seq!['/'] + name, '/') == name,
        split(name, '/') == seq![name],
{
    let path = seq!['/'] + name;
    let p = crate::text::only('/');
    crate::text::lemma_skip_while(path, p, 0);
    let a = crate::text::skip_while(path, p, 0);
    assert(path[0] == '/');
    assert(path[1] == name[0]);
    assert(name[0] != '/');
    assert(a == 1);
    assert(trim_start_char(path, '/') =~= name);
    lemma_index_from(name, '/', 0);
    let j = index_from(name, '/', 0);
    if j < name.len() {
        assert(name.contains(name[j]));
    }
    assert(name.subrange(0, name.len() as int) =~= name);
    assert(split(name, '/') =~= seq![name]);
}

/// What is uploaded can be read back: the link that the listing shows for an
/// accepted name leads to just that file, and uploading to that link asks for just
/// that name.
pub proof fn law_link_of_an_upload_leads_to_it(name: Seq<char>, sep: u8)
    requires
        known_separator(sep),
        upload_fault(name) is None,
    ensures
        crate::server::static_server::admitted(
            seq!['/'] + crate::percent::href_of(encode_utf8(name)),
            sep,
        ) == Some(seq![name]),
        admitted_upload(seq!['/'] + crate::percent::href_of(encode_utf8(name)), None) == Ok::<
            Seq<char>,
            AnswerView,
        >(name),
{
    let h = crate::percent::href_of(encode_utf8(name));
    let path = seq!['/'] + h;
    let full = seq!['/'] + name;
    crate::percent::law_href_path_decodes(name);
    lemma_single_segment(name);
    let segs = crate::server::static_server::raw_segments(full);
    assert(segs =~= seq![name]);
    assert(!crate::server::static_server::dot_segment(full, sep)) by {
        lemma_one_part(name, sep);
        assert forall|i: int| 0 <= i < segs.len() implies !crate::server::static_server::hidden(
            #[trigger] segs[i],
            sep,
        ) by {
            assert(segs[i] == name);
        }
    }
    reveal_with_fuel(crate::server::static_server::filled, 2);
    assert(crate::server::static_server::candidate(full) =~= seq![name]);
    // As an upload: the path is not the bucket's own, and what follows its slash
    // stands for the name.
    lemma_href_not_empty(name);
    reveal_strlit("/");
    assert(path.len() >= 2);
    crate::percent::law_href_is_inert(encode_utf8(name));
    crate::percent::law_href_decodes_to_its_name(name);
    lemma_href_starts_plain(name);
    let p = crate::text::only('/');
    crate::text::lemma_skip_while(path, p, 0);
    assert(path[0] == '/');
    assert(path[1] == h[0]);
    assert(crate::text::skip_while(path, p, 0) == 1);
    assert(trim_start_char(path, '/') =~= h);
}

/// The link of a name that is not empty is not empty.
proof fn lemma_href_not_empty(name: Seq<char>)
    requires
        name.len() > 0,
    ensures
        crate::percent::href_of(encode_utf8(name)).len() > 0,
{
    crate::percent::law_href_decodes_to_its_name(name);
    let h = crate::percent::href_of(encode_utf8(name));
    if h.len() == 0 {
        assert(h =~= Seq::<char>::empty());
        assert(encode_utf8(h) =~= Seq::<u8>::empty());
        assert(crate::percent::percent_decoded(encode_utf8(h)) =~= Seq::<u8>::empty());
        assert(decode_utf8(Seq::<u8>::empty()) =~= Seq::<char>::empty());
    }
}

/// The link of a name that does not start with a slash does not either.
proof fn lemma_href_starts_plain(name: Seq<char>)
    requires
        name.len() > 0,
        name[0] != '/',
    ensures
        crate::percent::href_of(encode_utf8(name)).len() > 0,
        crate::percent::href_of(encode_utf8(name))[0] != '/',
{
    lemma_href_not_empty(name);
    let b = encode_utf8(name);
    let h = crate::percent::href_of(b);
    if h[0] == '/' {
        crate::percent::law_href_decodes_to_its_name(name);
        crate::percent::law_href_is_inert(b);
        assert(is_ascii_chars(h));
        is_ascii_chars_encode_utf8(h);
        let e = encode_utf8(h);
        assert(e[0] == 0x2f);
        let d = crate::percent::percent_decoded(e);
        assert(d[0] == 0x2f);
        encode_utf8_decode_utf8(name);
        decode_utf8_encode_utf8(d);
        assert(d == encode_utf8(name));
        encode_utf8_first_scalar(name);
        decode_utf8_first_scalar(d);
    }
}

/// The layer lets the request on, as far as the token goes: only the token guard
/// holds any back.
pub open spec fn let_on(
    layer: Layer,
    method: Method,
    authorization: Option<Seq<char>>,
    query: Option<Seq<char>>,
    expected: Seq<char>,
) -> bool {
    layer is Token ==> let_in(method, authorization, query, expected)
}

/// The token guard stands outside of the uploads, and these outside of the
/// confinement. So a request that does not only read comes to where its body is read,
/// or to anything further in, only with the token; one that reads needs none.
pub proof fn law_token_is_checked_before_the_body(
    method: Method,
    authorization: Option<Seq<char>>,
    query: Option<Seq<char>>,
    expected: Seq<char>,
    at: int,
)
    requires
        0 <= at < layers().len(),
    ensures
        forall|i: int, j: int, k: int|
            #![trigger layers()[i], layers()[j], layers()[k]]
            0 <= i < layers().len() && 0 <= j < layers().len() && 0 <= k < layers().len()
                && layers()[i] == Layer::Confine && layers()[j] == Layer::Upload && layers()[k]
                == Layer::Token ==> i < j < k,
        ({
            let comes_in = forall|m: int|
                at < m < layers().len() ==> let_on(
                    #[trigger] layers()[m],
                    method,
                    authorization,
                    query,
                    expected,
                );
            &&& layers()[at] is Upload || layers()[at] is Confine ==> (comes_in <==> let_in(
                method,
                authorization,
                query,
                expected,
            ))
            &&& !(layers()[at] is Upload || layers()[at] is Confine) ==> comes_in
        }),
{
    assert(layers()[2] == Layer::Token);
}

/// A body that declares more than the cap is refused before the token is looked at,
/// and no request takes longer than it may, whatever it asks for.
pub proof fn law_limits_stand_outside()
    ensures
        layers()[layers().len() - 1] == Layer::Timeout,
        layers()[layers().len() - 2] == Layer::BodyLimit,
{
}

/// The names that Windows keeps for its devices, each spelled out.
pub open spec fn device_names() -> Seq<Seq<char>> {
    seq![
        "CON"@,
        "PRN"@,
        "AUX"@,
        "NUL"@,
        "COM1"@,
        "COM2"@,
        "COM3"@,
        "COM4"@,
        "COM5"@,
        "COM6"@,
        "COM7"@,
        "COM8"@,
        "COM9"@,
        "LPT1"@,
        "LPT2"@,
        "LPT3"@,
        "LPT4"@,
        "LPT5"@,
        "LPT6"@,
        "LPT7"@,
        "LPT8"@,
        "LPT9"@,
    ]
}

/// The text is the word, whichever of its letters are small.
pub open spec fn spells(text: Seq<char>, word: Seq<char>) -> bool {
    text.len() == word.len() && forall|i: int|
        0 <= i < text.len() ==> (#[trigger] text[i] == word[i] || capital_and_small(
            word[i],
            text[i],
        ))
}

/// A character in capitals is another that is no small letter exactly where it is that
/// one, or that letter in small.
proof fn lemma_upper(c: char, x: char)
    requires
        !('a' <= x <= 'z'),
    ensures
        upper(c) == x <==> c == x || capital_and_small(x, c),
{
}

/// A text in capitals is a word without small letters exactly where it spells the word.
proof fn lemma_upper_spells(t: Seq<char>, w: Seq<char>)
    requires
        forall|i: int| 0 <= i < w.len() ==> !('a' <= #[trigger] w[i] <= 'z'),
    ensures
        upper_all(t) == w <==> spells(t, w),
{
    if t.len() == w.len() {
        assert forall|i: int| 0 <= i < t.len() implies (upper(#[trigger] t[i]) == w[i] <==> t[i]
            == w[i] || capital_and_small(w[i], t[i])) by {
            lemma_upper(t[i], w[i]);
        }
        if spells(t, w) {
            assert(upper_all(t) =~= w);
        }
        if upper_all(t) == w {
            assert forall|i: int| 0 <= i < t.len() implies (#[trigger] t[i] == w[i]
                || capital_and_small(w[i], t[i])) by {
                assert(upper_all(t)[i] == upper(t[i]));
            }
        }
    }
}

/// The last character of a numbered device is one of nine digits.
proof fn lemma_nine_digits(c: char)
    ensures
        0x31 <= (c as u32) <= 0x39 <==> c == '1' || c == '2' || c == '3' || c == '4' || c == '5'
            || c == '6' || c == '7' || c == '8' || c == '9',
{
}

/// Four characters are what stands before the last, and the last.
proof fn lemma_four(s: Seq<char>, head: Seq<char>, w: Seq<char>)
    requires
        s.len() == 4,
        w.len() == 4,
        head.len() == 3,
        w.subrange(0, 3) == head,
    ensures
        s == w <==> s.subrange(0, 3) == head && s[3] == w[3],
{
    if s.subrange(0, 3) == head && s[3] == w[3] {
        assert forall|i: int| 0 <= i < 4 implies s[i] == w[i] by {
            if i < 3 {
                assert(s.subrange(0, 3)[i] == w.subrange(0, 3)[i]);
            }
        }
        assert(s =~= w);
    }
}

/// What stands in the list is kept for a device, and nothing else is.
proof fn lemma_devices(s: Seq<char>)
    ensures
        device(s) <==> device_names().contains(s),
        forall|k: int, i: int|
            0 <= k < 22 && 0 <= i < device_names()[k].len() ==> !('a'
                <= #[trigger] device_names()[k][i] <= 'z'),
{
    reveal_strlit("CON");
    reveal_strlit("PRN");
    reveal_strlit("AUX");
    reveal_strlit("NUL");
    reveal_strlit("COM");
    reveal_strlit("LPT");
    reveal_strlit("COM1");
    reveal_strlit("COM2");
    reveal_strlit("COM3");
    reveal_strlit("COM4");
    reveal_strlit("COM5");
    reveal_strlit("COM6");
    reveal_strlit("COM7");
    reveal_strlit("COM8");
    reveal_strlit("COM9");
    reveal_strlit("LPT1");
    reveal_strlit("LPT2");
    reveal_strlit("LPT3");
    reveal_strlit("LPT4");
    reveal_strlit("LPT5");
    reveal_strlit("LPT6");
    reveal_strlit("LPT7");
    reveal_strlit("LPT8");
    reveal_strlit("LPT9");
    let all = device_names();
    assert forall|k: int| 4 <= k < 13 implies (#[trigger] all[k]).len() == 4 && all[k].subrange(
        0,
        3,
    ) =~= "COM"@ && all[k][3] as u32 == 0x31 + (k - 4) by {}
    assert forall|k: int| 13 <= k < 22 implies (#[trigger] all[k]).len() == 4 && all[k].subrange(
        0,
        3,
    ) =~= "LPT"@ && all[k][3] as u32 == 0x31 + (k - 13) by {}
    if device(s) {
        if s == "CON"@ {
            assert(all[0] == s);
        } else if s == "PRN"@ {
            assert(all[1] == s);
        } else if s == "AUX"@ {
            assert(all[2] == s);
        } else if s == "NUL"@ {
            assert(all[3] == s);
        } else if s.subrange(0, 3) == "COM"@ {
            let k = 4 + (s[3] as u32 - 0x31);
            lemma_nine_digits(s[3]);
            lemma_four(s, "COM"@, all[k]);
            assert(all[k] == s);
        } else {
            let k = 13 + (s[3] as u32 - 0x31);
            lemma_nine_digits(s[3]);
            lemma_four(s, "LPT"@, all[k]);
            assert(all[k] == s);
        }
    }
    if all.contains(s) {
        let k = choose|k: int| 0 <= k < all.len() && all[k] == s;
        assert(s.len() == 4 ==> k >= 4);
        if k < 4 {
            assert(all[0] == "CON"@ && all[1] == "PRN"@ && all[2] == "AUX"@ && all[3] == "NUL"@);
        }
    }
}

/// The names that are accepted, rule by rule: a name is taken as it stands exactly where
/// it is filled, takes at most 240 bytes, holds no slash, backslash, colon or control
/// character, neither starts with a dot nor ends with a dot or a space, and what stands
/// before its first dot spells none of the names of the 22 devices.
pub proof fn law_names_are_accepted_exactly(name: Seq<char>, dot: int)
    requires
        0 <= dot <= name.len(),
        dot < name.len() ==> name[dot] == '.',
        forall|k: int| 0 <= k < dot ==> #[trigger] name[k] != '.',
    ensures
        upload_fault(name) is None <==> {
            &&& name.len() > 0
            &&& encode_utf8(name).len() <= 240
            &&& forall|i: int|
                0 <= i < name.len() ==> (#[trigger] name[i] != '/' && name[i] != '\\' && name[i]
                    != ':' && !is_control(name[i]))
            &&& name[0] != '.'
            &&& name[name.len() - 1] != '.' && name[name.len() - 1] != ' '
            &&& forall|k: int| 0 <= k < 22 ==> !spells(name.take(dot), #[trigger] device_names()[k])
        },
{
    lemma_index_at(name, '.', 0, dot);
    let t = name.take(dot);
    assert(t =~= name.subrange(0, dot));
    lemma_devices(stem(name));
    assert forall|k: int| 0 <= k < 22 implies (spells(t, #[trigger] device_names()[k]) <==> stem(
        name,
    ) == device_names()[k]) by {
        lemma_upper_spells(t, device_names()[k]);
    }
    if device_names().contains(stem(name)) {
        let k = choose|k: int| 0 <= k < device_names().len() && device_names()[k] == stem(name);
        assert(spells(t, device_names()[k]));
    } else {
        assert forall|k: int| 0 <= k < 22 implies !spells(t, #[trigger] device_names()[k]) by {
            if spells(t, device_names()[k]) {
                assert(device_names().contains(device_names()[k]));
            }
        }
    }
    if upload_fault(name) is None {
        assert forall|i: int| 0 <= i < name.len() implies (#[trigger] name[i] != '/' && name[i]
            != '\\' && name[i] != ':' && !is_control(name[i])) by {
            assert(name.contains(name[i]));
        }
    }
}

/// Whoever is refused is told the first rule that the name breaks.
pub proof fn law_refusals_tell_the_rule(name: Seq<char>)
    ensures
        name.len() == 0 ==> upload_fault(name) == Some("the name is empty"@),
        encode_utf8(name).len() > 240 && name.len() > 0 ==> upload_fault(name) == Some(
            "longer than 240 bytes"@,
        ),
        name.len() > 0 && encode_utf8(name).len() <= 240 ==> {
            &&& name.contains('/') || name.contains('\\') ==> upload_fault(name) == Some(
                "path separators are not allowed (one flat file per upload)"@,
            )
            &&& !name.contains('/') && !name.contains('\\') && name[0] == '.' ==> upload_fault(name)
                == Some("dotfiles (and any name starting with '.') are not allowed"@)
        },
        name.len() > 0 && encode_utf8(name).len() <= 240 && !name.contains('/') && !name.contains(
            '\\',
        ) && name[0] != '.' ==> {
            &&& (exists|i: int| 0 <= i < name.len() && is_control(#[trigger] name[i]))
                ==> upload_fault(name) == Some("control characters are not allowed"@)
            &&& (forall|i: int| 0 <= i < name.len() ==> !is_control(#[trigger] name[i]))
                && name.contains(':') ==> upload_fault(name) == Some(
                "colons are not allowed (Windows filenames cannot contain them)"@,
            )
            &&& (forall|i: int| 0 <= i < name.len() ==> !is_control(#[trigger] name[i]))
                && !name.contains(':') && (name.last() == '.' || name.last() == ' ')
                ==> upload_fault(name) == Some(
                "trailing dots/spaces are not allowed (Windows strips them)"@,
            )
        },
{
}

/// An upload is let in up to the caps and not beyond: it is begun exactly where its
/// bytes still fit and one more file may be there, and otherwise told which of the two
/// is full.
pub proof fn law_room_is_given_up_to_the_caps(store: DropStore, len: nat)
    ensures
        first_step(store, len) == StoreStep::UnlinkStale <==> store.used.bytes + len
            <= store.total_cap && store.used.files + 1 <= store.file_cap,
        first_step(store, len) == StoreStep::Finished(StoreResult::Full) <==> store.used.bytes + len
            > store.total_cap,
        first_step(store, len) == StoreStep::Finished(StoreResult::FullCount) <==> store.used.bytes
            + len <= store.total_cap && store.used.files + 1 > store.file_cap,
        store.has_room_for(len) <==> first_step(store, len) == StoreStep::UnlinkStale,
{
}

/// A stored upload counts with all of its bytes and as one file, once.
pub proof fn law_stored_upload_counts_once(store: DropStore, outcomes: Seq<Outcome>, len: nat)
    requires
        outcomes.len() >= 4,
        first_step(store, len) == StoreStep::UnlinkStale,
    ensures
        ({
            let a = used_after(store.used, step_after(outcomes, 0), len);
            let b = used_after(a, step_after(outcomes, 1), len);
            let c = used_after(b, step_after(outcomes, 2), len);
            let d = used_after(c, step_after(outcomes, 3), len);
            let stored = step_after(outcomes, 4) == StoreStep::Finished(StoreResult::Stored);
            &&& stored ==> d.bytes == store.used.bytes + len && d.files == store.used.files + 1
            &&& !stored ==> d == store.used
            &&& used_after(d, step_after(outcomes, 4), len) == d
        }),
{
    reveal_with_fuel(step_after, 5);
}

/// The hidden file is written only once what was left of it is gone, is removed
/// whenever it may have been written, and what fails is told as a failure.
pub proof fn law_hidden_file_is_always_removed(outcomes: Seq<Outcome>)
    requires
        outcomes.len() >= 4,
    ensures
        ({
            let gone = outcomes[0] == Outcome::Done || outcomes[0] == Outcome::NotFound;
            let written = outcomes[1] == Outcome::Done;
            &&& step_after(outcomes, 0) == StoreStep::UnlinkStale
            &&& gone <==> step_after(outcomes, 1) == StoreStep::WriteTemp
            &&& !gone ==> step_after(outcomes, 1) == StoreStep::Finished(StoreResult::Io)
            &&& gone && !written ==> step_after(outcomes, 2) == StoreStep::DropTemp(StoreResult::Io)
            &&& gone && written ==> step_after(outcomes, 2) == StoreStep::Publish
            &&& gone && written ==> step_after(outcomes, 3) == StoreStep::DropTemp(
                match outcomes[2] {
                    Outcome::Done => StoreResult::Stored,
                    Outcome::AlreadyExists => StoreResult::Exists,
                    _ => StoreResult::Io,
                },
            )
        }),
        forall|r: StoreResult, o: Outcome| #[trigger]
            next_step(StoreStep::DropTemp(r), o) == StoreStep::Finished(r),
{
    reveal_with_fuel(step_after, 5);
}

/// The status tells the client what became of the upload: created, no room, taken or
/// too many, or a failure of the server; only a stored one is told as stored, under its
/// name.
pub proof fn law_answers_tell_what_happened(name: Seq<char>, r: StoreResult)
    ensures
        upload_answer(name, r).status == 201 <==> r == StoreResult::Stored,
        upload_answer(name, r).status == 507 <==> r == StoreResult::Full,
        upload_answer(name, r).status == 409 <==> r == StoreResult::Exists || r
            == StoreResult::FullCount,
        upload_answer(name, r).status == 500 <==> r == StoreResult::Io,
        r == StoreResult::Stored ==> upload_answer(name, r).body == "stored "@ + name + "\n"@,
        r == StoreResult::Exists ==> upload_answer(name, r).body
            == "a file with that name already exists; uploads never overwrite\n"@,
        r == StoreResult::FullCount ==> upload_answer(name, r).body
            == "the drop bucket is full (file-count cap reached); nothing was stored\n"@,
        r == StoreResult::Full ==> upload_answer(name, r).body
            == "the drop bucket is full (total-store cap reached); nothing was stored\n"@,
        r == StoreResult::Io ==> upload_answer(name, r).body == "failed to store the upload\n"@,
{
}

/// `POST` and `PUT` upload, `GET` and `HEAD` of the bucket itself list it, and all else
/// is left to the file server.
pub proof fn law_requests_go_where_their_method_says(method: Method, path: Seq<char>)
    ensures
        routed(method, path) == Route::Upload <==> method == Method::Post || method == Method::Put,
        routed(method, path) == (Route::Listing { head: false }) <==> method == Method::Get && (path
            == seq!['/'] || path == Seq::<char>::empty()),
        routed(method, path) == (Route::Listing { head: true }) <==> method == Method::Head && (path
            == seq!['/'] || path == Seq::<char>::empty()),
{
    reveal_strlit("/");
    assert("/"@ =~= seq!['/']);
    if path.len() == 0 {
        assert(path =~= Seq::<char>::empty());
    }
}

/// An upload takes its name from one place: from the query where the path is the
/// bucket's own, and from the path where the query gives none; from both or from
/// neither it takes none.
pub proof fn law_upload_takes_its_name_from_one_place(path: Seq<char>, query: Seq<char>)
    ensures
        path == seq!['/'] || path == Seq::<char>::empty() ==> {
            &&& query_value(query, "filename"@) matches Some(n) ==> asked_name(path, Some(query))
                == Ok::<Seq<char>, Seq<char>>(n)
            &&& query_value(query, "filename"@) is None ==> asked_name(path, Some(query)) is Err
            &&& asked_name(path, None) is Err
        },
        path != seq!['/'] && path != Seq::<char>::empty() ==> {
            &&& query_value(query, "filename"@) is Some ==> asked_name(path, Some(query)) is Err
            &&& query_value(query, "filename"@) is None ==> asked_name(path, Some(query))
                == asked_name(path, None)
            &&& match decoded(trim_start_char(path, '/')) {
                Some(n) => asked_name(path, None) == Ok::<Seq<char>, Seq<char>>(n),
                None => asked_name(path, None) is Err,
            }
        },
{
    reveal_strlit("/");
    assert("/"@ =~= seq!['/']);
    if path.len() == 0 {
        assert(path =~= Seq::<char>::empty());
    }
}

/// An upload is admitted under the very name that it asks for, where that name is
/// accepted; every other is answered with a 400.
pub proof fn law_uploads_keep_their_names(path: Seq<char>, query: Option<Seq<char>>)
    ensures
        match asked_name(path, query) {
            Ok(n) => match upload_fault(n) {
                None => admitted_upload(path, query) == Ok::<Seq<char>, AnswerView>(n),
                Some(f) => admitted_upload(path, query) matches Err(a) && a.status == 400
                    && occurs_in(a.body, f) && occurs_in(a.body, quoted(n)),
            },
            Err(e) => admitted_upload(path, query) matches Err(a) && a.status == 400 && a.body
                == e,
        },
{
    if let Ok(n) = asked_name(path, query) {
        if let Some(f) = upload_fault(n) {
            lemma_stands_between("rejected filename "@ + quoted(n) + ": "@, f, "\n"@);
            lemma_stands_between("rejected filename "@, quoted(n), ": "@ + f + "\n"@);
            assert("rejected filename "@ + quoted(n) + (": "@ + f + "\n"@)
                =~= "rejected filename "@ + quoted(n) + ": "@ + f + "\n"@);
        }
    }
}

/// Reading needs no token, and whatever else a request does needs it.
pub proof fn law_only_readers_need_no_token(
    method: Method,
    authorization: Option<Seq<char>>,
    query: Option<Seq<char>>,
    expected: Seq<char>,
)
    ensures
        method == Method::Get || method == Method::Head ==> let_in(
            method,
            authorization,
            query,
            expected,
        ),
        method != Method::Get && method != Method::Head ==> (let_in(
            method,
            authorization,
            query,
            expected,
        ) <==> carried(authorization, query, expected)),
{
}

/// A file without a token in it is never taken for one: what is too large or not UTF-8
/// is an error, and anything else is its text without the white space around it.
pub proof fn law_token_files_are_read_or_refused(bytes: Seq<u8>, text: Seq<char>)
    ensures
        token_in(bytes) == Err::<Seq<char>, TokenError>(TokenError::TooLarge) <==> bytes.len()
            > TOKEN_READ_BOUND,
        token_in(bytes) == Err::<Seq<char>, TokenError>(TokenError::NotUtf8) <==> bytes.len()
            <= TOKEN_READ_BOUND && !valid_utf8(bytes),
        bytes == encode_utf8(text) && bytes.len() <= TOKEN_READ_BOUND ==> token_in(bytes) == Ok::<
            Seq<char>,
            TokenError,
        >(trim(text)),
{
    encode_utf8_valid_utf8(text);
    encode_utf8_decode_utf8(text);
}

/// The tag of a token of ASCII characters is its first eight, or all that it has.
pub proof fn law_tag_of_ascii_is_its_first_eight(token: Seq<char>)
    requires
        is_ascii_chars(token),
    ensures
        token.len() >= 8 ==> tag(token) == token.take(8),
        token.len() < 8 ==> tag(token) == token,
{
    let b = encode_utf8(token);
    is_ascii_chars_encode_utf8(token);
    encode_utf8_valid_utf8(token);
    is_char_boundary_start_end_of_seq(b);
    let m = if b.len() < 8 {
        b.len() as int
    } else {
        8
    };
    if m < b.len() {
        is_char_boundary_iff_not_is_continuation_byte(b, m);
        let c = b[m];
        assert(b[m] == token[m] as u8);
        assert('\0' <= token[m] <= '\u{7f}');
        lemma_ascii_is_no_continuation(token[m]);
    }
    assert(is_char_boundary(b, m));
    assert(boundary_before(b, m) == m);
    let head = token.take(m);
    assert(is_ascii_chars(head)) by {
        assert forall|i: int| 0 <= i < head.len() implies '\0' <= #[trigger] head[i] <= '\u{7f}' by {
            assert(head[i] == token[i]);
        }
    }
    is_ascii_chars_encode_utf8(head);
    assert(encode_utf8(head) =~= b.subrange(0, m));
    encode_utf8_decode_utf8(head);
    if token.len() < 8 {
        assert(head =~= token);
    }
}

/// An ASCII character is one byte that continues none.
proof fn lemma_ascii_is_no_continuation(c: char)
    requires
        '\0' <= c <= '\u{7f}',
    ensures
        !is_continuation_byte(c as u8),
{
    let b = c as u8;
    assert(b <= 0x7f ==> !(0x80 <= b <= 0xbf));
}

/// Different names have different hidden files, each beside what it is to become: the
/// name behind a dot.
pub proof fn law_hidden_names_follow_the_names(token: Seq<char>, a: Seq<char>, b: Seq<char>)
    ensures
        temp_name(token, a) == temp_name(token, b) ==> a == b,
        has_prefix(temp_name(token, a), seq!['.'] + a),
{
    reveal_strlit(".");
    let x = temp_name(token, a);
    let y = temp_name(token, b);
    let more = ".part-"@ + tag(token);
    assert(x =~= seq!['.'] + a + more);
    assert(y =~= seq!['.'] + b + more);
    if x == y {
        assert(a.len() == b.len());
        assert(a =~= x.subrange(1, a.len() as int + 1));
        assert(b =~= y.subrange(1, b.len() as int + 1));
    }
    lemma_stands_between(Seq::empty(), seq!['.'] + a, more);
    assert(Seq::<char>::empty() + (seq!['.'] + a) + more =~= x);
}

/// The lines of the bucket's page are those of its entries, in their order.
proof fn lemma_bucket_items(entries: Seq<ListEntry>, n: nat)
    requires
        n <= entries.len(),
    ensures
        bucket_items(entries, n) == Seq::new(n, |i: int| bucket_line(entries[i])).flatten(),
    decreases n,
{
    reveal_strlit("/");
    reveal_strlit("");
    assert("/"@ =~= seq!['/']);
    assert(""@ =~= Seq::<char>::empty());
    let all = Seq::new(n, |i: int| bucket_line(entries[i]));
    if n > 0 {
        lemma_bucket_items(entries, (n - 1) as nat);
        let before = Seq::new((n - 1) as nat, |i: int| bucket_line(entries[i]));
        assert(all =~= before.push(all[n - 1]));
        before.lemma_flatten_push(all[n - 1]);
        assert(size_note(entries[n - 1]) =~= if entries[n - 1].is_dir {
            Seq::empty()
        } else {
            " <small>"@ + decimal(entries[n - 1].size as nat) + " B</small>"@
        });
    } else {
        assert(all =~= Seq::<Seq<char>>::empty());
    }
}

/// The line of an entry on the page of a bucket: a link from the root, and for a file
/// its size in bytes.
pub open spec fn bucket_line(e: ListEntry) -> Seq<char> {
    item(
        seq!['/'],
        e,
        if e.is_dir {
            Seq::empty()
        } else {
            " <small>"@ + decimal(e.size as nat) + " B</small>"@
        },
    )
}

/// The page of a bucket has the line of every entry, in their order, and says so where
/// there is none.
pub proof fn law_bucket_page_has_the_line_of_every_entry(entries: Seq<ListEntry>)
    ensures
        ({
            let notice = if entries.len() == 0 {
                "<li>(nothing uploaded yet)</li>\n"@
            } else {
                Seq::empty()
            };
            let lines = Seq::new(entries.len(), |i: int| bucket_line(entries[i]));
            bucket_page(entries) == page(
                escaped("Drop bucket — uploaded files"@),
                bucket_intro() + notice + lines.flatten() + "</ul>\n<hr>\n"@,
            )
        }),
{
    reveal_strlit("");
    assert(""@ =~= Seq::<char>::empty());
    lemma_bucket_items(entries, entries.len());
}

/// What the walk over a bucket has counted after the first `n` things it came upon.
pub open spec fn counted(found: Seq<Found>, n: nat) -> Usage
    decreases n,
{
    if n == 0 {
        Usage { bytes: 0, files: 0 }
    } else {
        measured(counted(found, (n - 1) as nat), found[n - 1])
    }
}

/// The bytes of the files among the first `n` things.
pub open spec fn file_bytes(found: Seq<Found>, n: nat) -> int
    decreases n,
{
    if n == 0 {
        0
    } else {
        file_bytes(found, (n - 1) as nat) + match found[n - 1] {
            Found::File(size) => size as int,
            _ => 0,
        }
    }
}

/// A walk counts every file once, with its size, and nothing else: neither directories
/// nor links.
pub proof fn law_walk_counts_the_files(found: Seq<Found>, n: nat)
    requires
        n <= found.len(),
        file_bytes(found, n) <= u64::MAX,
        n <= u64::MAX,
    ensures
        counted(found, n).bytes == file_bytes(found, n),
        counted(found, n).files == found.take(n as int).filter(|f: Found| f is File).len(),
        counted(found, n).files <= n,
        file_bytes(found, n) >= 0,
    decreases n,
{
    reveal(Seq::filter);
    if n > 0 {
        lemma_file_bytes(found, (n - 1) as nat);
        law_walk_counts_the_files(found, (n - 1) as nat);
        assert(found.take(n as int).drop_last() =~= found.take(n - 1));
    }
}

/// Files have no fewer than no bytes.
proof fn lemma_file_bytes(found: Seq<Found>, n: nat)
    ensures
        file_bytes(found, n) >= 0,
    decreases n,
{
    if n > 0 {
        lemma_file_bytes(found, (n - 1) as nat);
    }
}

/// The cap on one upload is the one that is asked for, as far as memory can be addressed.
pub proof fn law_upload_cap_is_the_asked_one(max_upload: u64)
    ensures
        bucket_cap(max_upload) <= max_upload,
        bucket_cap(max_upload) <= usize::MAX,
        bucket_cap(max_upload) == max_upload || bucket_cap(max_upload) == usize::MAX,
{
}

/// An upload over the cap and one without the token are refused as such, each with a
/// status of its own that is no success.
pub proof fn law_refused_uploads_are_no_success()
    ensures
        over_cap_answer().status == 413,
        no_token_answer().status == 401,
{
}

/// What the token file holds is the token, and reads back as it.
pub proof fn law_token_file_reads_back(token: Seq<char>)
    requires
        trim(token) == token,
        encode_utf8(token_file(token)).len() <= TOKEN_READ_BOUND,
    ensures
        token_in(encode_utf8(token_file(token))) == Ok::<Seq<char>, TokenError>(token),
{
    law_stored_token_reads_back(token);
}

/// What the name of a hidden file adds is the same for every name and for every ASCII
/// token of eight characters or more, and the longest name of an upload leaves room for it
/// within 255 bytes. A bucket holds sixteen of the largest uploads, or ten thousand files.
pub proof fn law_limits_of_a_bucket_fit_each_other(name: Seq<char>, token: Seq<char>)
    requires
        is_ascii_chars(token),
        token.len() >= 8,
    ensures
        temp_name(token, name).len() == name.len() + TEMP_NAME_OVERHEAD,
        MAX_NAME_BYTES + TEMP_NAME_OVERHEAD == 255,
        MAX_TOTAL_STORE == 16 * DEFAULT_MAX_SIZE,
        MAX_FILE_COUNT == 10 * 1_000,
        REQUEST_TIMEOUT == 5 * 60,
{
    law_tag_of_ascii_is_its_first_eight(token);
    reveal_strlit(".");
    reveal_strlit(".part-");
}

} // verus!

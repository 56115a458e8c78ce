//! The webhook receiver: what is recorded of a request, how the records are kept,
//! and how they are shown.
//!
//! Every request is recorded and acknowledged, but for those to the two inspection
//! paths. Only headers on a list are recorded, so that no credential ever is: the
//! records can be read by anyone who has the tunnel's URL. The newest records are
//! kept, a bounded number of them.

use vstd::prelude::*;
use vstd::slice::slice_subrange;
use vstd::string::*;
use vstd::utf8::*;

use crate::bytes::{blank, is_blank, lossy, lossy_text};
use crate::clock::{rfc3339_millis, rfc3339_text, Timestamp};
use crate::order::{
    in_order, law_sorting_what_is_in_order_changes_nothing, sorted, stable_sort, Ranked,
};
use crate::server::http::{
    escape_html, escaped, html_page, law_escaped_text_is_inert, law_escaping_loses_nothing,
    lemma_escaped_pieces, page, Answer, AnswerView, Method,
};
use crate::text::{
    concat2, concat3, concat4, copy_opt, decimal, decimal_text, has_suffix, is_digit,
    lemma_decimal, opt_text, text_eq, texts,
};

verus! {

/// Bound on a request, in seconds.
pub const REQUEST_TIMEOUT: u64 = 30;

/// Cap on a recorded body, in bytes.
pub const MAX_REQUEST_BODY: usize = 65_536;

/// How many records are kept where nothing else is asked for.
pub const DEFAULT_KEEP: u16 = 200;

/// The most records that may be kept.
pub const MAX_KEEP: usize = 1_000;

/// The store's file in a service's directory.
pub const REQUESTS_FILENAME: &'static str = "requests.json";

/// The path of the inspection page.
pub const INSPECT_PATH: &'static str = "/__inspect";

/// The path of the records as JSON.
pub const JSON_PATH: &'static str = "/__inspect.json";

/// The most bytes that one byte of a body takes in the store: a control byte is
/// written as `\u00XX`.
pub const JSON_ESCAPE_FACTOR: usize = 6;

/// The most bytes that the head of a request takes on the wire.
pub const HYPER_HEAD_BUDGET: usize = 417_792;

/// What the head of a request and the structure of its record take in the store at
/// most: twice the head, for escapes, and two kibibytes.
pub const STORE_RECORD_OVERHEAD: usize = 837_632;

// ---------------------------------------------------------------------------
// What is recorded
// ---------------------------------------------------------------------------

/// The headers that are recorded.
pub open spec fn recorded_header(name: Seq<char>) -> bool {
    ||| name == "accept"@
    ||| name == "content-length"@
    ||| name == "content-type"@
    ||| name == "user-agent"@
    ||| name == "x-forwarded-for"@
    ||| name == "x-forwarded-proto"@
    ||| name == "x-github-delivery"@
    ||| name == "x-github-event"@
    ||| name == "x-gitlab-event"@
}

/// Whether a header is recorded.
pub fn is_recorded_header(name: &str) -> (r: bool)
    ensures
        r == recorded_header(name@),
{
    text_eq(name, "accept") || text_eq(name, "content-length") || text_eq(name, "content-type")
        || text_eq(name, "user-agent") || text_eq(name, "x-forwarded-for") || text_eq(
        name,
        "x-forwarded-proto",
    ) || text_eq(name, "x-github-delivery") || text_eq(name, "x-github-event") || text_eq(
        name,
        "x-gitlab-event",
    )
}

/// A header of a request.
#[derive(Debug)]
pub struct Header {
    /// Its name, in small letters.
    pub name: String,
    /// Its value, where that is text.
    pub value: Option<String>,
}

/// The head of a request.
#[derive(Debug)]
pub struct RequestHead {
    /// The method.
    pub method: String,
    /// The path, as it was sent.
    pub path: String,
    /// The query, without its `?`.
    pub query: Option<String>,
    /// The headers, in their order.
    pub headers: Vec<Header>,
}

/// One recorded request.
#[derive(Debug)]
pub struct RecordedRequest {
    /// The number of the record: a newer one has a higher number.
    pub seq: u64,
    /// When the request was received.
    pub received_at: Timestamp,
    /// The method.
    pub method: String,
    /// The path, as it was sent.
    pub path: String,
    /// The query, without its `?`.
    pub query: Option<String>,
    /// The recorded headers, in their order.
    pub headers: Vec<(String, String)>,
    /// The body as text, as far as it is recorded.
    pub body: String,
    /// The length of the whole body, in bytes.
    pub body_len: usize,
    /// Only the beginning of the body is recorded.
    pub truncated: bool,
}

/// The view of a [`RecordedRequest`].
pub ghost struct RecordView {
    pub seq: u64,
    pub received_at: Timestamp,
    pub method: Seq<char>,
    pub path: Seq<char>,
    pub query: Option<Seq<char>>,
    pub headers: Seq<(Seq<char>, Seq<char>)>,
    pub body: Seq<char>,
    pub body_len: usize,
    pub truncated: bool,
}

/// The views of recorded headers.
pub open spec fn header_views(v: Seq<(String, String)>) -> Seq<(Seq<char>, Seq<char>)> {
    Seq::new(v.len(), |i: int| (v[i].0@, v[i].1@))
}

impl View for RecordedRequest {
    type V = RecordView;

    open spec fn view(&self) -> RecordView {
        RecordView {
            seq: self.seq,
            received_at: self.received_at,
            method: self.method@,
            path: self.path@,
            query: opt_text(self.query),
            headers: header_views(self.headers@),
            body: self.body@,
            body_len: self.body_len,
            truncated: self.truncated,
        }
    }
}

/// The views of a list of records.
pub open spec fn record_views(v: Seq<RecordedRequest>) -> Seq<RecordView> {
    Seq::new(v.len(), |i: int| v[i]@)
}

/// What is recorded of the first `n` headers: those on the list whose value is
/// text.
pub open spec fn kept_headers(h: Seq<Header>, n: nat) -> Seq<(Seq<char>, Seq<char>)>
    decreases n,
{
    if n == 0 {
        Seq::empty()
    } else {
        let before = kept_headers(h, (n - 1) as nat);
        match h[n - 1].value {
            Some(v) if recorded_header(h[n - 1].name@) => before.push((h[n - 1].name@, v@)),
            _ => before,
        }
    }
}

/// The part of a body that is recorded.
pub open spec fn capped(body: Seq<u8>) -> Seq<u8> {
    if body.len() > MAX_REQUEST_BODY {
        body.subrange(0, MAX_REQUEST_BODY as int)
    } else {
        body
    }
}

/// What is recorded of a request.
pub open spec fn captured(seq: u64, head: RequestHead, body: Seq<u8>, at: Timestamp) -> RecordView {
    RecordView {
        seq,
        received_at: at,
        method: head.method@,
        path: head.path@,
        query: opt_text(head.query),
        headers: kept_headers(head.headers@, head.headers@.len()),
        body: lossy(capped(body)),
        body_len: body.len() as usize,
        truncated: body.len() > MAX_REQUEST_BODY,
    }
}

/// What is recorded of the headers.
fn keep_headers(h: &Vec<Header>) -> (r: Vec<(String, String)>)
    ensures
        header_views(r@) == kept_headers(h@, h@.len()),
{
    let mut out: Vec<(String, String)> = Vec::new();
    let mut i: usize = 0;
    assert(header_views(out@) =~= kept_headers(h@, 0));
    while i < h.len()
        invariant
            i <= h@.len(),
            header_views(out@) == kept_headers(h@, i as nat),
        decreases h@.len() - i,
    {
        let ghost before = out@;
        if is_recorded_header(h[i].name.as_str()) {
            if let Some(v) = &h[i].value {
                out.push((h[i].name.clone(), v.clone()));
                assert(header_views(out@) =~= header_views(before).push(
                    (h@[i as int].name@, v@),
                ));
            }
        }
        i = i + 1;
    }
    out
}

impl RecordedRequest {
    /// What is recorded of a request with the given number, head and body, received
    /// at the given instant. A body that is not UTF-8 is recorded with replacement
    /// characters.
    pub fn capture(seq: u64, head: &RequestHead, body: &[u8], received_at: Timestamp) -> (r: Self)
        ensures
            r@ == captured(seq, *head, body@, received_at),
            valid_utf8(capped(body@)) ==> r.body@ == decode_utf8(capped(body@)),
    {
        let end: usize = if body.len() < MAX_REQUEST_BODY {
            body.len()
        } else {
            MAX_REQUEST_BODY
        };
        let part = slice_subrange(body, 0, end);
        assert(part@ =~= capped(body@));
        RecordedRequest {
            seq,
            received_at,
            method: head.method.clone(),
            path: head.path.clone(),
            query: copy_opt(&head.query),
            headers: keep_headers(&head.headers),
            body: lossy_text(part),
            body_len: body.len(),
            truncated: end < body.len(),
        }
    }
}

/// A copy of recorded headers.
fn copy_headers(v: &Vec<(String, String)>) -> (r: Vec<(String, String)>)
    ensures
        r@ == v@,
{
    let mut out: Vec<(String, String)> = Vec::new();
    let mut i: usize = 0;
    while i < v.len()
        invariant
            i <= v@.len(),
            out@ == v@.take(i as int),
        decreases v@.len() - i,
    {
        out.push((v[i].0.clone(), v[i].1.clone()));
        assert(v@.take(i + 1) =~= v@.take(i as int).push(v@[i as int]));
        i = i + 1;
    }
    assert(v@.take(v@.len() as int) =~= v@);
    out
}

impl Clone for RecordedRequest {
    fn clone(&self) -> (r: Self)
        ensures
            r@ == self@,
    {
        RecordedRequest {
            seq: self.seq,
            received_at: self.received_at,
            method: self.method.clone(),
            path: self.path.clone(),
            query: copy_opt(&self.query),
            headers: copy_headers(&self.headers),
            body: self.body.clone(),
            body_len: self.body_len,
            truncated: self.truncated,
        }
    }
}

impl Ranked for RecordedRequest {
    /// A record with a higher number stands before one with a lower number.
    open spec fn not_after(self, other: Self) -> bool {
        self.seq >= other.seq
    }

    proof fn total(a: Self, b: Self) {
    }

    proof fn transitive(a: Self, b: Self, c: Self) {
    }

    fn is_not_after(&self, other: &Self) -> (r: bool) {
        self.seq >= other.seq
    }
}

// ---------------------------------------------------------------------------
// The store
// ---------------------------------------------------------------------------

/// The most bytes that a store of `keep` records takes, as far as that can be
/// counted.
pub open spec fn read_bound(keep: nat) -> u64 {
    let n = keep * 1_230_848;
    if n <= u64::MAX {
        n as u64
    } else {
        u64::MAX
    }
}

/// The most bytes that a store of `keep` records takes: for each the body with
/// every byte escaped, and the head with its structure.
pub fn store_read_bound(keep: usize) -> (r: u64)
    ensures
        r == read_bound(keep as nat),
{
    let n: u128 = (keep as u128) * 1_230_848;
    if n <= u64::MAX as u128 {
        n as u64
    } else {
        u64::MAX
    }
}

/// The most bytes that any store takes, whatever number of records is kept.
pub fn absolute_read_bound() -> (r: u64)
    ensures
        r == read_bound(MAX_KEEP as nat),
{
    store_read_bound(MAX_KEEP)
}

/// What reading the store's file came to.
#[derive(Debug)]
pub enum StoreRead {
    /// There is no file.
    Missing,
    /// The file is larger than any store, and was not read.
    Oversized,
    /// The file could not be read.
    Failed,
    /// The file was read.
    Blob {
        /// Its bytes, of which one more than the bound may be missing.
        bytes: Vec<u8>,
        /// The records that the bytes encode, where they encode any.
        decoded: Option<Vec<RecordedRequest>>,
    },
}

/// The records that reading the store's file gave. Nothing means that the file may
/// hold records which could not be read.
pub open spec fn stored_records(read: StoreRead) -> Option<Seq<RecordedRequest>> {
    match read {
        StoreRead::Failed => None,
        StoreRead::Missing | StoreRead::Oversized => Some(Seq::empty()),
        StoreRead::Blob { bytes, decoded } => if bytes@.len() > read_bound(MAX_KEEP as nat) || blank(
            bytes@,
        ) {
            Some(Seq::empty())
        } else {
            match decoded {
                Some(v) => Some(v@),
                None => Some(Seq::empty()),
            }
        },
    }
}

/// The first `n` things of `s`, or all of them.
pub open spec fn at_most<T>(s: Seq<T>, n: nat) -> Seq<T> {
    if s.len() <= n {
        s
    } else {
        s.take(n as int)
    }
}

/// The number that follows `seq`; there is none after the highest.
pub open spec fn seq_after(seq: u64) -> u64 {
    if seq < u64::MAX {
        (seq + 1) as u64
    } else {
        seq
    }
}

/// The number that follows those of the records, of which the first is the newest.
pub open spec fn next_number(r: Seq<RecordedRequest>) -> u64 {
    if r.len() > 0 {
        seq_after(r[0].seq)
    } else {
        1
    }
}

/// The record store: the newest records, the newest first.
#[derive(Debug)]
pub struct HookLog {
    /// How many records are kept.
    pub keep: usize,
    /// The number of the next record.
    pub next_seq: u64,
    /// The records, the newest first.
    pub requests: Vec<RecordedRequest>,
}

/// How many records a store keeps where so many are asked for.
pub open spec fn kept_at_most(keep: usize) -> usize {
    if keep < MAX_KEEP {
        keep
    } else {
        MAX_KEEP
    }
}

impl HookLog {
    /// No more records than are kept, no more kept than may be, the newest first,
    /// and the next number ahead of them all, as far as it can be.
    pub open spec fn sound(&self) -> bool {
        &&& self.keep <= MAX_KEEP
        &&& self.requests@.len() <= self.keep
        &&& in_order(self.requests@)
        &&& forall|i: int|
            0 <= i < self.requests@.len() ==> (#[trigger] self.requests@[i]).seq < self.next_seq
                || self.next_seq == u64::MAX
    }

    /// Open the store, given what reading its file came to. A file that cannot be
    /// read is an error, because it may hold records that the next write would
    /// destroy; a file that holds no records is an empty store. Of more records than
    /// are to be kept, the newest are.
    pub fn load(keep: usize, read: StoreRead) -> (r: Result<HookLog, ()>)
        ensures
            match r {
                Ok(log) => {
                    &&& log.sound()
                    &&& log.keep == kept_at_most(keep)
                    &&& stored_records(read) matches Some(s) && log.requests@ == at_most(
                        sorted(s),
                        log.keep as nat,
                    )
                    &&& log.next_seq == next_number(log.requests@)
                },
                Err(_) => stored_records(read) is None,
            },
    {
        let kept: usize = if keep < MAX_KEEP {
            keep
        } else {
            MAX_KEEP
        };
        let ghost before = stored_records(read);
        let records: Vec<RecordedRequest> = match read {
            StoreRead::Failed => return Err(()),
            StoreRead::Missing | StoreRead::Oversized => Vec::new(),
            StoreRead::Blob { bytes, decoded } => {
                if bytes.len() as u64 > absolute_read_bound() || is_blank(bytes.as_slice()) {
                    Vec::new()
                } else {
                    match decoded {
                        Some(v) => v,
                        None => Vec::new(),
                    }
                }
            },
        };
        assert(before == Some(records@));
        let mut requests = stable_sort(records);
        let ghost all = requests@;
        requests.truncate(kept);
        assert(requests@ =~= at_most(all, kept as nat));
        assert(in_order(requests@)) by {
            assert forall|i: int, j: int| 0 <= i <= j < requests@.len() implies (
            #[trigger] requests@[i]).not_after(#[trigger] requests@[j]) by {
                assert(requests@[i] == all[i] && requests@[j] == all[j]);
            }
        }
        let next_seq: u64 = if requests.len() > 0 {
            requests[0].seq.saturating_add(1)
        } else {
            1
        };
        proof {
            assert forall|i: int| 0 <= i < requests@.len() implies (#[trigger] requests@[i]).seq
                < next_seq || next_seq == u64::MAX by {
                assert(requests@[0].not_after(requests@[i]));
            }
        }
        Ok(HookLog { keep: kept, next_seq, requests })
    }

    /// Put a record in front of the others, and keep the newest. The store is to be
    /// written afterwards.
    pub fn record(&mut self, req: RecordedRequest)
        ensures
            final(self).requests@ == at_most(
                seq![req] + old(self).requests@,
                old(self).keep as nat,
            ),
            final(self).keep == old(self).keep,
            final(self).next_seq == old(self).next_seq,
    {
        self.requests.insert(0, req);
        let ghost all = self.requests@;
        assert(all =~= seq![req] + old(self).requests@);
        self.requests.truncate(self.keep);
        assert(self.requests@ =~= at_most(all, self.keep as nat));
    }

    /// Hand out the number of the next record.
    pub fn next_seq(&mut self) -> (r: u64)
        ensures
            r == old(self).next_seq,
            final(self).next_seq == seq_after(old(self).next_seq),
            final(self).keep == old(self).keep,
            final(self).requests@ == old(self).requests@,
    {
        let seq: u64 = self.next_seq;
        self.next_seq = self.next_seq.saturating_add(1);
        seq
    }

    /// A copy of the records, the newest first.
    pub fn snapshot(&self) -> (r: Vec<RecordedRequest>)
        ensures
            record_views(r@) == record_views(self.requests@),
    {
        let mut out: Vec<RecordedRequest> = Vec::new();
        let mut i: usize = 0;
        while i < self.requests.len()
            invariant
                i <= self.requests@.len(),
                record_views(out@) == record_views(self.requests@).take(i as int),
            decreases self.requests@.len() - i,
        {
            let ghost before = out@;
            out.push(self.requests[i].clone());
            assert(record_views(out@) =~= record_views(before).push(self.requests@[i as int]@));
            assert(record_views(self.requests@).take(i + 1) =~= record_views(self.requests@).take(
                i as int,
            ).push(self.requests@[i as int]@));
            i = i + 1;
        }
        assert(record_views(self.requests@).take(self.requests@.len() as int) =~= record_views(
            self.requests@,
        ));
        out
    }

    /// The number of records.
    pub fn len(&self) -> (r: usize)
        ensures
            r == self.requests@.len(),
    {
        self.requests.len()
    }
}

// ---------------------------------------------------------------------------
// Requests
// ---------------------------------------------------------------------------

/// Where a request goes.
#[derive(Clone, Copy, Debug, PartialEq, Eq, Structural)]
pub enum Route {
    /// It asks for the inspection page.
    InspectHtml,
    /// It asks for the records as JSON.
    InspectJson,
    /// It asks something else of an inspection path: 405.
    NotAllowed,
    /// It is recorded.
    Record,
}

/// Where a request goes.
pub open spec fn routed(method: Method, path: Seq<char>) -> Route {
    if path == "/__inspect"@ || path == "/__inspect.json"@ {
        if !(method is Get) {
            Route::NotAllowed
        } else if path == "/__inspect"@ {
            Route::InspectHtml
        } else {
            Route::InspectJson
        }
    } else {
        Route::Record
    }
}

/// Where a request goes: everything is recorded but what goes to an inspection
/// path.
pub fn router(method: Method, path: &str) -> (r: Route)
    ensures
        r == routed(method, path@),
{
    let html = text_eq(path, "/__inspect");
    if html || text_eq(path, "/__inspect.json") {
        if method != Method::Get {
            Route::NotAllowed
        } else if html {
            Route::InspectHtml
        } else {
            Route::InspectJson
        }
    } else {
        Route::Record
    }
}

/// A layer around the receiver.
#[derive(Clone, Copy, Debug, PartialEq, Eq, Structural)]
pub enum Layer {
    /// Content types are not to be guessed.
    NoSniff,
    /// Bodies that declare more than [`MAX_REQUEST_BODY`] are refused.
    BodyLimit,
    /// Requests are limited to [`REQUEST_TIMEOUT`].
    Timeout,
}

/// The layers around the receiver, the innermost first.
pub open spec fn layers() -> Seq<Layer> {
    seq![Layer::NoSniff, Layer::BodyLimit, Layer::Timeout]
}

/// The layers around the receiver, the innermost first: what it answers itself is
/// stamped, and what is refused for its size or its time never comes to it.
pub fn router_layers() -> (r: Vec<Layer>)
    ensures
        r@ == layers(),
{
    vec![Layer::NoSniff, Layer::BodyLimit, Layer::Timeout]
}

/// How recording a request came out.
#[derive(Clone, Copy, Debug, PartialEq, Eq, Structural)]
pub enum Recording {
    /// The body could not be read within the cap.
    Unreadable,
    /// The record is in the store.
    Recorded,
    /// The store could not be written.
    NotPersisted,
    /// The recording broke off.
    Broken,
}

/// What the sender is told.
pub open spec fn recording_answer(outcome: Recording) -> AnswerView {
    match outcome {
        Recording::Unreadable => AnswerView {
            status: 413,
            body: "request body over the size cap, not recorded\n"@,
        },
        Recording::Recorded => AnswerView { status: 200, body: "recorded\n"@ },
        Recording::NotPersisted => AnswerView {
            status: 500,
            body: "failed to persist the recorded request\n"@,
        },
        Recording::Broken => AnswerView { status: 500, body: "failed to record the request\n"@ },
    }
}

/// What the sender is told.
pub fn record_answer(outcome: Recording) -> (r: Answer)
    ensures
        r@ == recording_answer(outcome),
{
    match outcome {
        Recording::Unreadable => Answer {
            status: 413,
            body: "request body over the size cap, not recorded\n".to_owned(),
        },
        Recording::Recorded => Answer { status: 200, body: "recorded\n".to_owned() },
        Recording::NotPersisted => Answer {
            status: 500,
            body: "failed to persist the recorded request\n".to_owned(),
        },
        Recording::Broken => Answer {
            status: 500,
            body: "failed to record the request\n".to_owned(),
        },
    }
}

// ---------------------------------------------------------------------------
// The inspection page
// ---------------------------------------------------------------------------

/// The path of a record with its query.
pub open spec fn target_of(r: RecordView) -> Seq<char> {
    match r.query {
        Some(q) => r.path + "?"@ + q,
        None => r.path,
    }
}

/// The first `n` headers of a record, each on a line of its own.
pub open spec fn header_lines(h: Seq<(Seq<char>, Seq<char>)>, n: nat) -> Seq<char>
    decreases n,
{
    if n == 0 {
        Seq::empty()
    } else {
        header_lines(h, (n - 1) as nat) + escaped(h[n - 1].0 + ": "@ + h[n - 1].1 + "\n"@)
    }
}

/// The first line of a record.
pub open spec fn record_line(r: RecordView, received: Seq<char>) -> Seq<char> {
    "<li><strong>"@ + escaped(r.method) + "</strong> "@ + escaped(target_of(r)) + " <small>#"@
        + decimal(r.seq as nat) + " · "@ + escaped(received) + " · "@ + decimal(r.body_len as nat)
        + " bytes"@ + (if r.truncated {
        " (truncated)"@
    } else {
        ""@
    }) + "</small>\n"@
}

/// How a record is shown.
pub open spec fn record_item(r: RecordView, received: Seq<char>) -> Seq<char> {
    record_line(r, received) + (if r.headers.len() > 0 {
        "<pre>"@ + header_lines(r.headers, r.headers.len()) + "</pre>\n"@
    } else {
        ""@
    }) + (if r.body.len() > 0 {
        "<pre>"@ + escaped(r.body) + "</pre>\n"@
    } else {
        ""@
    }) + "</li>\n"@
}

/// How the first `n` records are shown.
pub open spec fn record_items(r: Seq<RecordView>, received: Seq<Seq<char>>, n: nat) -> Seq<char>
    decreases n,
{
    if n == 0 {
        Seq::empty()
    } else {
        record_items(r, received, (n - 1) as nat) + record_item(r[n - 1], received[n - 1])
    }
}

/// The inspection page.
pub open spec fn inspection(r: Seq<RecordView>, received: Seq<Seq<char>>) -> Seq<char> {
    page(
        escaped("Recorded requests — "@ + decimal(r.len())),
        "<ul>\n"@ + (if r.len() == 0 {
            "<li>(no requests recorded yet — send one through the tunnel)</li>\n"@
        } else {
            ""@
        }) + record_items(r, received, r.len()) + "</ul>\n<hr>\n"@,
    )
}

/// How a record is shown.
fn record_html(r: &RecordedRequest, received: &str) -> (s: String)
    ensures
        s@ == record_item(r@, received@),
{
    let target = match &r.query {
        Some(q) => concat3(r.path.as_str(), "?", q.as_str()),
        None => r.path.clone(),
    };
    let mut out = "<li><strong>".to_owned();
    out.append(escape_html(r.method.as_str()).as_str());
    out.append("</strong> ");
    out.append(escape_html(target.as_str()).as_str());
    out.append(" <small>#");
    out.append(decimal_text(r.seq).as_str());
    out.append(" · ");
    out.append(escape_html(received).as_str());
    out.append(" · ");
    out.append(decimal_text(r.body_len as u64).as_str());
    out.append(" bytes");
    out.append(
        if r.truncated {
            " (truncated)"
        } else {
            ""
        },
    );
    out.append("</small>\n");
    assert(out@ == record_line(r@, received@));
    let heads = if r.headers.len() > 0 {
        let mut lines = String::new();
        let mut i: usize = 0;
        let ghost hv = header_views(r.headers@);
        while i < r.headers.len()
            invariant
                hv == header_views(r.headers@),
                i <= r.headers@.len(),
                lines@ == header_lines(hv, i as nat),
            decreases r.headers@.len() - i,
        {
            let h = &r.headers[i];
            assert(hv[i as int] == (h.0@, h.1@));
            let line = concat4(h.0.as_str(), ": ", h.1.as_str(), "\n");
            lines.append(escape_html(line.as_str()).as_str());
            i = i + 1;
        }
        concat3("<pre>", lines.as_str(), "</pre>\n")
    } else {
        "".to_owned()
    };
    out.append(heads.as_str());
    let text = if r.body.as_str().is_empty() {
        "".to_owned()
    } else {
        concat3("<pre>", escape_html(r.body.as_str()).as_str(), "</pre>\n")
    };
    out.append(text.as_str());
    out.append("</li>\n");
    out
}

/// The inspection page, given how the instant of each record is written. Whatever
/// comes from a request is escaped.
pub fn render_inspection(requests: &Vec<RecordedRequest>, received: &Vec<String>) -> (r: String)
    requires
        received@.len() == requests@.len(),
    ensures
        r@ == inspection(record_views(requests@), texts(received@)),
{
    let ghost rv = record_views(requests@);
    let ghost tv = texts(received@);
    let title = concat2("Recorded requests — ", decimal_text(requests.len() as u64).as_str());
    let mut body = "<ul>\n".to_owned();
    let notice = if requests.len() == 0 {
        "<li>(no requests recorded yet — send one through the tunnel)</li>\n"
    } else {
        ""
    };
    body.append(notice);
    let ghost head = body@;
    let mut i: usize = 0;
    assert(body@ =~= head + record_items(rv, tv, 0));
    while i < requests.len()
        invariant
            rv == record_views(requests@),
            tv == texts(received@),
            received@.len() == requests@.len(),
            i <= requests@.len(),
            body@ == head + record_items(rv, tv, i as nat),
        decreases requests@.len() - i,
    {
        assert(rv[i as int] == requests@[i as int]@ && tv[i as int] == received@[i as int]@);
        let one = record_html(&requests[i], received[i].as_str());
        body.append(one.as_str());
        assert(body@ =~= head + record_items(rv, tv, (i + 1) as nat));
        i = i + 1;
    }
    body.append("</ul>\n<hr>\n");
    html_page(escape_html(title.as_str()).as_str(), body.as_str())
}

/// Chrono can hold the instant of every record.
pub open spec fn all_reached(r: Seq<RecordView>) -> bool {
    forall|i: int| 0 <= i < r.len() ==> rfc3339_millis(#[trigger] r[i].received_at) is Some
}

/// How the instants of the records are written.
pub open spec fn received_texts(r: Seq<RecordView>) -> Seq<Seq<char>> {
    Seq::new(r.len(), |i: int| rfc3339_millis(r[i].received_at)->0)
}

/// The inspection page; nothing where chrono cannot hold the instant of some
/// record.
pub open spec fn inspection_page(r: Seq<RecordView>) -> Option<Seq<char>> {
    if all_reached(r) {
        Some(inspection(r, received_texts(r)))
    } else {
        None
    }
}

/// The inspection page; nothing where chrono cannot hold the instant of some
/// record.
pub fn inspect_html(requests: &Vec<RecordedRequest>) -> (r: Option<String>)
    ensures
        opt_text(r) == inspection_page(record_views(requests@)),
{
    let ghost rv = record_views(requests@);
    let mut received: Vec<String> = Vec::new();
    let mut i: usize = 0;
    while i < requests.len()
        invariant
            rv == record_views(requests@),
            i <= requests@.len(),
            received@.len() == i,
            forall|k: int|
                0 <= k < i ==> rfc3339_millis(#[trigger] rv[k].received_at) == Some(received@[k]@),
        decreases requests@.len() - i,
    {
        assert(rv[i as int].received_at == requests@[i as int].received_at);
        match rfc3339_text(requests[i].received_at) {
            Some(t) => received.push(t),
            None => return None,
        }
        i = i + 1;
    }
    assert(texts(received@) =~= received_texts(rv));
    Some(render_inspection(requests, &received))
}

// ---------------------------------------------------------------------------
// Laws
// ---------------------------------------------------------------------------

/// No header on the list carries a credential.
proof fn lemma_recorded_header_is_no_credential(name: Seq<char>)
    requires
        recorded_header(name),
    ensures
        name != "authorization"@,
        name != "cookie"@,
        !has_suffix(name, "-signature"@),
        !has_suffix(name, "-secret"@),
        !has_suffix(name, "-token"@),
{
    reveal_strlit("accept");
    reveal_strlit("content-length");
    reveal_strlit("content-type");
    reveal_strlit("user-agent");
    reveal_strlit("x-forwarded-for");
    reveal_strlit("x-forwarded-proto");
    reveal_strlit("x-github-delivery");
    reveal_strlit("x-github-event");
    reveal_strlit("x-gitlab-event");
    reveal_strlit("authorization");
    reveal_strlit("cookie");
    reveal_strlit("-signature");
    reveal_strlit("-secret");
    reveal_strlit("-token");
    let n = name.len() as int;
    // The endings differ in their last two characters.
    assert(name[n - 1] != 'n');
    assert(!(name[n - 2] == 'r' && name[n - 1] == 'e'));
    assert(!(name[n - 2] == 'e' && name[n - 1] == 't'));
    if has_suffix(name, "-signature"@) {
        assert(name.subrange(n - 10, n)[8] == name[n - 2] && name.subrange(n - 10, n)[9] == name[n
            - 1]);
    }
    if has_suffix(name, "-secret"@) {
        assert(name.subrange(n - 7, n)[5] == name[n - 2] && name.subrange(n - 7, n)[6] == name[n
            - 1]);
    }
    if has_suffix(name, "-token"@) {
        assert(name.subrange(n - 6, n)[5] == name[n - 1]);
    }
}

/// No header but those on the list is ever recorded, so no credential is: neither
/// `Authorization` nor `Cookie`, nor any whose name ends in `-signature`, `-secret`
/// or `-token`.
pub proof fn law_only_listed_headers_are_recorded(h: Seq<Header>, n: nat, k: int)
    requires
        n <= h.len(),
        0 <= k < kept_headers(h, n).len(),
    ensures
        recorded_header(kept_headers(h, n)[k].0),
        kept_headers(h, n)[k].0 != "authorization"@,
        kept_headers(h, n)[k].0 != "cookie"@,
        !has_suffix(kept_headers(h, n)[k].0, "-signature"@),
        !has_suffix(kept_headers(h, n)[k].0, "-secret"@),
        !has_suffix(kept_headers(h, n)[k].0, "-token"@),
    decreases n,
{
    let before = kept_headers(h, (n - 1) as nat);
    if k < before.len() {
        law_only_listed_headers_are_recorded(h, (n - 1) as nat, k);
    }
    lemma_recorded_header_is_no_credential(kept_headers(h, n)[k].0);
}

/// A recorded body is never longer than the cap, and is marked as cut exactly where
/// something is missing; the length that is told is that of the whole body.
pub proof fn law_recorded_body_is_capped(
    seq: u64,
    head: RequestHead,
    body: Seq<u8>,
    at: Timestamp,
)
    ensures
        capped(body).len() <= MAX_REQUEST_BODY,
        capped(body).is_prefix_of(body),
        captured(seq, head, body, at).truncated <==> capped(body) != body,
{
    assert(capped(body) =~= body.subrange(0, capped(body).len() as int));
}

/// A record that carries the number handed out for it keeps the store sound: the
/// newest stays first, and the next number is the one that follows it.
pub proof fn law_recording_keeps_the_store_sound(
    before: HookLog,
    req: RecordedRequest,
    after: HookLog,
)
    requires
        before.sound(),
        req.seq == before.next_seq,
        after.keep == before.keep,
        after.next_seq == seq_after(before.next_seq),
        after.requests@ == at_most(seq![req] + before.requests@, before.keep as nat),
    ensures
        after.sound(),
        before.keep > 0 ==> after.requests@[0] == req && after.next_seq == next_number(
            after.requests@,
        ),
{
    let all = seq![req] + before.requests@;
    assert forall|i: int, j: int| 0 <= i <= j < after.requests@.len() implies (
    #[trigger] after.requests@[i]).not_after(#[trigger] after.requests@[j]) by {
        assert(after.requests@[i] == all[i] && after.requests@[j] == all[j]);
        if i == 0 {
            if j > 0 {
                assert(all[j] == before.requests@[j - 1]);
            }
        } else {
            assert(all[i] == before.requests@[i - 1] && all[j] == before.requests@[j - 1]);
        }
    }
    assert forall|i: int| 0 <= i < after.requests@.len() implies (
    #[trigger] after.requests@[i]).seq < after.next_seq || after.next_seq == u64::MAX by {
        assert(after.requests@[i] == all[i]);
        if i > 0 {
            assert(all[i] == before.requests@[i - 1]);
        }
    }
}

/// The records of a sound store, loaded again, are the same in the same order, as
/// long as no fewer are to be kept; otherwise the newest of them stay. As long as any
/// are kept, the numbers go on where they stood.
pub proof fn law_reloading_gives_the_records_back(log: HookLog, keep: nat)
    requires
        log.sound(),
    ensures
        at_most(sorted(log.requests@), keep) == at_most(log.requests@, keep),
        keep >= log.keep ==> at_most(sorted(log.requests@), keep) == log.requests@,
        keep > 0 ==> next_number(at_most(sorted(log.requests@), keep)) == next_number(
            log.requests@,
        ),
{
    law_sorting_what_is_in_order_changes_nothing(log.requests@);
}

/// A store for any number of records that may be kept is within the bound up to
/// which files are read, so that none is ever taken for corrupt on account of its
/// size; and more records never take less.
pub proof fn law_read_bound_covers_every_store(keep: nat, more: nat)
    requires
        keep <= more,
    ensures
        read_bound(keep) <= read_bound(more),
        more <= MAX_KEEP ==> read_bound(keep) <= read_bound(MAX_KEEP as nat),
        read_bound(1) == MAX_REQUEST_BODY * JSON_ESCAPE_FACTOR + STORE_RECORD_OVERHEAD,
        STORE_RECORD_OVERHEAD == HYPER_HEAD_BUDGET * 2 + 2 * 1_024,
{
}

/// The inspection paths are never recorded, and everything else always is.
pub proof fn law_inspection_is_never_recorded(method: Method, path: Seq<char>)
    ensures
        routed(method, path) is Record <==> path != "/__inspect"@ && path != "/__inspect.json"@,
{
}

/// The nine headers that are recorded.
pub open spec fn listed_headers() -> Seq<Seq<char>> {
    seq![
        "accept"@,
        "content-length"@,
        "content-type"@,
        "user-agent"@,
        "x-forwarded-for"@,
        "x-forwarded-proto"@,
        "x-github-delivery"@,
        "x-github-event"@,
        "x-gitlab-event"@,
    ]
}

/// The header is on the list, and its value is text.
pub open spec fn worth_recording(h: Header) -> bool {
    listed_headers().contains(h.name@) && h.value is Some
}

/// A header is recorded where it is on the list.
proof fn lemma_listed(name: Seq<char>)
    ensures
        recorded_header(name) <==> listed_headers().contains(name),
{
    let all = listed_headers();
    if recorded_header(name) {
        assert(all[0] == "accept"@);
        assert(all[1] == "content-length"@);
        assert(all[2] == "content-type"@);
        assert(all[3] == "user-agent"@);
        assert(all[4] == "x-forwarded-for"@);
        assert(all[5] == "x-forwarded-proto"@);
        assert(all[6] == "x-github-delivery"@);
        assert(all[7] == "x-github-event"@);
        assert(all[8] == "x-gitlab-event"@);
    }
}

/// Every header on the list whose value is text is recorded with that value, in the
/// order of the request, and no other is.
pub proof fn law_listed_headers_are_recorded_with_their_values(h: Seq<Header>, n: nat)
    requires
        n <= h.len(),
    ensures
        kept_headers(h, n) == h.take(n as int).filter(|x: Header| worth_recording(x)).map_values(
            |x: Header| (x.name@, x.value->0@),
        ),
    decreases n,
{
    reveal(Seq::filter);
    let pick = |x: Header| worth_recording(x);
    let pair = |x: Header| (x.name@, x.value->0@);
    if n > 0 {
        law_listed_headers_are_recorded_with_their_values(h, (n - 1) as nat);
        assert(h.take(n as int).drop_last() =~= h.take(n - 1));
        lemma_listed(h[n - 1].name@);
        let before = h.take(n - 1).filter(pick);
        assert(before.push(h[n - 1]).map_values(pair) =~= before.map_values(pair).push(
            pair(h[n - 1]),
        ));
    }
    assert(kept_headers(h, n) =~= h.take(n as int).filter(pick).map_values(pair));
}

/// A record holds what was sent: method, path and query as they came, the length of the
/// whole body, and of the body the first 65536 bytes.
pub proof fn law_record_holds_what_was_sent(
    seq: u64,
    head: RequestHead,
    body: Seq<u8>,
    at: Timestamp,
)
    requires
        body.len() <= usize::MAX,
    ensures
        ({
            let r = captured(seq, head, body, at);
            &&& r.seq == seq
            &&& r.received_at == at
            &&& r.method == head.method@
            &&& r.path == head.path@
            &&& r.query is Some <==> head.query is Some
            &&& head.query matches Some(q) ==> r.query == Some(q@)
            &&& r.headers == kept_headers(head.headers@, head.headers@.len())
            &&& r.body_len == body.len()
            &&& r.truncated <==> body.len() > 65_536
            &&& body.len() <= 65_536 ==> r.body == lossy(body)
            &&& body.len() > 65_536 ==> r.body == lossy(body.take(65_536))
        }),
{
    if body.len() > 65_536 {
        assert(body.take(65_536) =~= capped(body));
    }
}

/// The view of a record holds every field of it.
pub proof fn law_view_of_a_record_is_whole(r: RecordedRequest, i: int)
    ensures
        r@.seq == r.seq,
        r@.received_at == r.received_at,
        r@.method == r.method@,
        r@.path == r.path@,
        r@.query is Some <==> r.query is Some,
        r.query matches Some(q) ==> r@.query == Some(q@),
        r@.headers.len() == r.headers@.len(),
        0 <= i < r.headers@.len() ==> r@.headers[i] == (r.headers@[i].0@, r.headers@[i].1@),
        r@.body == r.body@,
        r@.body_len == r.body_len,
        r@.truncated == r.truncated,
{
}

/// Of more records than are kept, the first stay, each in its place, and as many as
/// may.
pub proof fn law_first_records_stay<T>(s: Seq<T>, n: nat, i: int)
    ensures
        at_most(s, n).len() == (if s.len() <= n {
            s.len()
        } else {
            n
        }),
        0 <= i < at_most(s, n).len() ==> at_most(s, n)[i] == s[i],
{
}

/// Records stand with the higher number first, and the number after those of all
/// records is one higher than the highest, as long as there is one; the first of all
/// is 1.
pub proof fn law_numbers_rise(r: Seq<RecordedRequest>, i: int, j: int)
    requires
        in_order(r),
        0 <= i <= j < r.len(),
    ensures
        r[i].seq >= r[j].seq,
        r[0].seq < u64::MAX ==> next_number(r) == r[0].seq + 1 && next_number(r) > r[i].seq,
        next_number(Seq::empty()) == 1,
        seq_after(u64::MAX) == u64::MAX,
{
    assert(r[i].not_after(r[j]));
    assert(r[0].not_after(r[i]));
}

/// A store that could not be read is never taken for an empty one; one that is not
/// there, is larger than any store, is blank or holds no records is; and any other
/// gives its records.
pub proof fn law_stores_are_read_or_refused(bytes: Vec<u8>, records: Vec<RecordedRequest>)
    ensures
        stored_records(StoreRead::Failed) is None,
        stored_records(StoreRead::Missing) == Some(Seq::<RecordedRequest>::empty()),
        stored_records(StoreRead::Oversized) == Some(Seq::<RecordedRequest>::empty()),
        stored_records(StoreRead::Blob { bytes, decoded: None }) == Some(
            Seq::<RecordedRequest>::empty(),
        ),
        bytes@.len() > read_bound(1_000) ==> stored_records(
            StoreRead::Blob { bytes, decoded: Some(records) },
        ) == Some(Seq::<RecordedRequest>::empty()),
        bytes@.len() <= read_bound(1_000) && !blank(bytes@) ==> stored_records(
            StoreRead::Blob { bytes, decoded: Some(records) },
        ) == Some(records@),
{
}

/// `GET` of an inspection path shows the page or the records as JSON, as the path says;
/// any other method is refused there, and every other path is recorded whatever the
/// method.
pub proof fn law_requests_go_where_their_path_says(method: Method, path: Seq<char>)
    ensures
        routed(Method::Get, "/__inspect"@) == Route::InspectHtml,
        routed(Method::Get, "/__inspect.json"@) == Route::InspectJson,
        method != Method::Get ==> routed(method, "/__inspect"@) == Route::NotAllowed && routed(
            method,
            "/__inspect.json"@,
        ) == Route::NotAllowed,
        path != "/__inspect"@ && path != "/__inspect.json"@ ==> routed(method, path)
            == Route::Record,
{
    reveal_strlit("/__inspect");
    reveal_strlit("/__inspect.json");
    assert("/__inspect"@.len() != "/__inspect.json"@.len());
}

/// A sender is told that a request was recorded only where it was; a body over the cap
/// is its own error, and a record that was not written is the server's, so that it is
/// sent again.
pub proof fn law_senders_are_told_the_truth(outcome: Recording)
    ensures
        recording_answer(outcome).status == 200 <==> outcome == Recording::Recorded,
        recording_answer(outcome).status == 413 <==> outcome == Recording::Unreadable,
        recording_answer(outcome).status == 500 <==> outcome == Recording::NotPersisted || outcome
            == Recording::Broken,
{
}

/// What is answered is stamped, what is recorded was limited in its size, and nothing
/// takes longer than it may.
pub proof fn law_limits_stand_around_the_receiver()
    ensures
        layers().contains(Layer::NoSniff),
        layers()[layers().len() - 1] == Layer::Timeout,
        layers()[layers().len() - 2] == Layer::BodyLimit,
{
    assert(layers()[0] == Layer::NoSniff);
}

/// A record shows its query behind a question mark where it has one, and its bare path
/// where it has none.
pub proof fn law_target_is_path_and_query(r: RecordView)
    ensures
        r.query is None ==> target_of(r) == r.path,
        r.query matches Some(q) ==> target_of(r) == r.path + seq!['?'] + q,
{
    reveal_strlit("?");
    assert("?"@ =~= seq!['?']);
}

/// Every header of a record has a line of its own, in their order: its name, a colon,
/// and its own value.
pub proof fn law_headers_are_shown_with_their_values(h: Seq<(Seq<char>, Seq<char>)>, n: nat)
    requires
        n <= h.len(),
    ensures
        header_lines(h, n) == Seq::new(
            n,
            |i: int| escaped(h[i].0 + ": "@ + h[i].1 + "\n"@),
        ).flatten(),
    decreases n,
{
    let all = Seq::new(n, |i: int| escaped(h[i].0 + ": "@ + h[i].1 + "\n"@));
    if n > 0 {
        law_headers_are_shown_with_their_values(h, (n - 1) as nat);
        let before = Seq::new((n - 1) as nat, |i: int| escaped(h[i].0 + ": "@ + h[i].1 + "\n"@));
        assert(all =~= before.push(all[n - 1]));
        before.lemma_flatten_push(all[n - 1]);
    } else {
        assert(all =~= Seq::<Seq<char>>::empty());
    }
}

/// What is put together piece by piece may be put together in any grouping.
proof fn lemma_grouped(a: Seq<char>, b: Seq<char>, c: Seq<char>)
    ensures
        (a + b) + c == a + (b + c),
{
    assert((a + b) + c =~= a + (b + c));
}

/// Number, instant, length and cut of a record, as they are shown.
pub open spec fn facts(r: RecordView, received: Seq<char>) -> Seq<char> {
    decimal(r.seq as nat) + " · "@ + escaped(received) + " · "@ + decimal(r.body_len as nat)
        + " bytes"@ + (if r.truncated {
        " (truncated)"@
    } else {
        ""@
    })
}

/// What stands behind the line of a record: its headers, where it has any, and its body,
/// where it has one.
pub open spec fn blocks(r: RecordView) -> Seq<char> {
    (if r.headers.len() > 0 {
        "<pre>"@ + header_lines(r.headers, r.headers.len()) + "</pre>\n"@
    } else {
        ""@
    }) + (if r.body.len() > 0 {
        "<pre>"@ + escaped(r.body) + "</pre>\n"@
    } else {
        ""@
    }) + "</li>\n"@
}

/// An item shows what was recorded, each part escaped and in its place: method and
/// target, then number and instant, the length of the body and whether it is cut, and
/// behind that line its headers and its body.
pub proof fn law_item_shows_the_record(r: RecordView, received: Seq<char>)
    ensures
        record_item(r, received) == "<li><strong>"@ + (escaped(r.method) + ("</strong> "@ + (escaped(
            target_of(r),
        ) + (" <small>#"@ + (facts(r, received) + ("</small>\n"@ + blocks(r))))))),
{
    let o = "<li><strong>"@;
    let m = escaped(r.method);
    let bold = "</strong> "@;
    let t = escaped(target_of(r));
    let small = " <small>#"@;
    let d = decimal(r.seq as nat);
    let dot = " · "@;
    let at = escaped(received);
    let len = decimal(r.body_len as nat);
    let by = " bytes"@;
    let cut = if r.truncated {
        " (truncated)"@
    } else {
        ""@
    };
    let done = "</small>\n"@;
    let p = o + m + bold + t + small;
    lemma_grouped(p, d, dot);
    lemma_grouped(p, d + dot, at);
    lemma_grouped(p, d + dot + at, dot);
    lemma_grouped(p, d + dot + at + dot, len);
    lemma_grouped(p, d + dot + at + dot + len, by);
    lemma_grouped(p, d + dot + at + dot + len + by, cut);
    let f = facts(r, received);
    assert(record_line(r, received) == (p + f) + done);
    let heads = if r.headers.len() > 0 {
        "<pre>"@ + header_lines(r.headers, r.headers.len()) + "</pre>\n"@
    } else {
        ""@
    };
    let text = if r.body.len() > 0 {
        "<pre>"@ + escaped(r.body) + "</pre>\n"@
    } else {
        ""@
    };
    let end = "</li>\n"@;
    let line = record_line(r, received);
    assert(record_item(r, received) == line + heads + text + end);
    lemma_grouped(line, heads, text);
    lemma_grouped(line, heads + text, end);
    assert(record_item(r, received) == line + blocks(r));
    lemma_grouped(p + f, done, blocks(r));
    lemma_grouped(p, f, done + blocks(r));
    let z = f + (done + blocks(r));
    lemma_grouped(o + m + bold + t, small, z);
    lemma_grouped(o + m + bold, t, small + z);
    lemma_grouped(o + m, bold, t + (small + z));
    lemma_grouped(o, m, bold + (t + (small + z)));
}

/// The page tells how many records there are and has the item of each, in their order,
/// with the instant of its own; where there is none it says so.
pub proof fn law_page_shows_every_record(r: Seq<RecordView>, received: Seq<Seq<char>>)
    requires
        received.len() == r.len(),
    ensures
        ({
            let notice = if r.len() == 0 {
                "<li>(no requests recorded yet — send one through the tunnel)</li>\n"@
            } else {
                Seq::empty()
            };
            let all = Seq::new(r.len(), |i: int| record_item(r[i], received[i]));
            inspection(r, received) == page(
                escaped("Recorded requests — "@ + decimal(r.len())),
                "<ul>\n"@ + notice + all.flatten() + "</ul>\n<hr>\n"@,
            )
        }),
{
    reveal_strlit("");
    assert(""@ =~= Seq::<char>::empty());
    lemma_record_items(r, received, r.len());
}

/// The items of the first `n` records stand one behind the other.
proof fn lemma_record_items(r: Seq<RecordView>, received: Seq<Seq<char>>, n: nat)
    requires
        n <= r.len(),
    ensures
        record_items(r, received, n) == Seq::new(
            n,
            |i: int| record_item(r[i], received[i]),
        ).flatten(),
    decreases n,
{
    let all = Seq::new(n, |i: int| record_item(r[i], received[i]));
    if n > 0 {
        lemma_record_items(r, received, (n - 1) as nat);
        let before = Seq::new((n - 1) as nat, |i: int| record_item(r[i], received[i]));
        assert(all =~= before.push(all[n - 1]));
        before.lemma_flatten_push(all[n - 1]);
    } else {
        assert(all =~= Seq::<Seq<char>>::empty());
    }
}

/// The instant of each record is its own.
pub proof fn law_records_are_shown_with_their_instants(r: Seq<RecordView>, i: int)
    requires
        0 <= i < r.len(),
        all_reached(r),
    ensures
        received_texts(r).len() == r.len(),
        rfc3339_millis(r[i].received_at) == Some(received_texts(r)[i]),
{
}

/// No character of the text opens a tag.
spec fn tagless(s: Seq<char>) -> bool {
    forall|i: int| 0 <= i < s.len() ==> #[trigger] s[i] != '<'
}

/// What is escaped opens no tag, nor does a numeral.
proof fn lemma_tagless(s: Seq<char>, n: nat)
    ensures
        tagless(escaped(s)),
        tagless(decimal(n)),
{
    law_escaped_text_is_inert(s);
    lemma_decimal(n);
    assert forall|i: int| 0 <= i < decimal(n).len() implies #[trigger] decimal(n)[i] != '<' by {
        assert(is_digit(decimal(n)[i]));
    }
}

/// Two texts before a tag are the same where the whole is.
proof fn lemma_before_tag(a: Seq<char>, x: Seq<char>, b: Seq<char>, y: Seq<char>)
    requires
        tagless(a),
        tagless(b),
        x.len() > 0,
        y.len() > 0,
        x[0] == '<',
        y[0] == '<',
        a + x == b + y,
    ensures
        a == b,
        x == y,
{
    let whole = a + x;
    assert(whole[a.len() as int] == '<');
    assert((b + y)[b.len() as int] == '<');
    if a.len() < b.len() {
        assert((b + y)[a.len() as int] == b[a.len() as int]);
    }
    if b.len() < a.len() {
        assert(whole[b.len() as int] == a[b.len() as int]);
    }
    assert(a =~= whole.take(a.len() as int));
    assert(b =~= (b + y).take(b.len() as int));
    assert(x =~= whole.skip(a.len() as int));
    assert(y =~= (b + y).skip(b.len() as int));
}

/// What follows the same beginning is the same where the whole is.
proof fn lemma_behind(c: Seq<char>, x: Seq<char>, y: Seq<char>)
    requires
        c + x == c + y,
    ensures
        x == y,
{
    assert(x =~= (c + x).skip(c.len() as int));
    assert(y =~= (c + y).skip(c.len() as int));
}

/// The headers as HTTP has them: no colon in a name, and no line feed in either part.
pub open spec fn http_headers(h: Seq<(Seq<char>, Seq<char>)>) -> bool {
    forall|i: int|
        0 <= i < h.len() ==> !(#[trigger] h[i]).0.contains(':') && !h[i].0.contains('\n')
            && !h[i].1.contains('\n')
}

/// The first `n` headers, each on a line of its own, before they are escaped.
spec fn plain_lines(h: Seq<(Seq<char>, Seq<char>)>, n: nat) -> Seq<char>
    decreases n,
{
    if n == 0 {
        Seq::empty()
    } else {
        plain_lines(h, (n - 1) as nat) + (h[n - 1].0 + ": "@ + h[n - 1].1 + "\n"@)
    }
}

/// The lines are escaped one by one.
proof fn lemma_plain_lines(h: Seq<(Seq<char>, Seq<char>)>, n: nat)
    ensures
        header_lines(h, n) == escaped(plain_lines(h, n)),
        n > 0 ==> plain_lines(h, n).len() > 0 && plain_lines(h, n).last() == '\n',
    decreases n,
{
    reveal_strlit("\n");
    if n > 0 {
        lemma_plain_lines(h, (n - 1) as nat);
        lemma_escaped_pieces(
            plain_lines(h, (n - 1) as nat),
            h[n - 1].0 + ": "@ + h[n - 1].1 + "\n"@,
        );
    } else {
        assert(escaped(Seq::<char>::empty()) =~= Seq::<char>::empty());
    }
}

/// Headers can be read off their lines.
proof fn lemma_lines_tell_the_headers(
    g: Seq<(Seq<char>, Seq<char>)>,
    m: nat,
    h: Seq<(Seq<char>, Seq<char>)>,
    n: nat,
)
    requires
        m <= g.len(),
        n <= h.len(),
        http_headers(g),
        http_headers(h),
        plain_lines(g, m) == plain_lines(h, n),
    ensures
        m == n,
        g.take(m as int) == h.take(n as int),
    decreases m + n,
{
    lemma_plain_lines(g, m);
    lemma_plain_lines(h, n);
    if m > 0 && n > 0 {
        reveal_strlit("\n");
        reveal_strlit(": ");
        let p = plain_lines(g, (m - 1) as nat);
        let q = plain_lines(h, (n - 1) as nat);
        let x = g[m - 1].0 + ": "@ + g[m - 1].1;
        let y = h[n - 1].0 + ": "@ + h[n - 1].1;
        let whole = plain_lines(g, m);
        assert(whole =~= p + x + "\n"@);
        assert(whole =~= q + y + "\n"@);
        lemma_plain_lines(g, (m - 1) as nat);
        lemma_plain_lines(h, (n - 1) as nat);
        lemma_no_feed(g[m - 1]);
        lemma_no_feed(h[n - 1]);
        // The last line begins behind the last line feed but one.
        if x.len() < y.len() {
            if p.len() > 0 {
                let at = p.len() - 1;
                assert(whole[at] == p[at]);
                assert(whole[at] == y[at - q.len()]);
            }
        }
        if y.len() < x.len() {
            if q.len() > 0 {
                let at = q.len() - 1;
                assert((q + y + "\n"@)[at] == q[at]);
                assert((p + x + "\n"@)[at] == x[at - p.len()]);
            }
        }
        assert(x.len() == y.len());
        assert(p.len() == q.len());
        assert(p =~= (p + x + "\n"@).take(p.len() as int));
        assert(q =~= (q + y + "\n"@).take(q.len() as int));
        assert(x =~= (p + x + "\n"@).subrange(p.len() as int, p.len() as int + x.len()));
        assert(y =~= (q + y + "\n"@).subrange(q.len() as int, q.len() as int + y.len()));
        lemma_lines_tell_the_headers(g, (m - 1) as nat, h, (n - 1) as nat);
        let a = g[m - 1].0;
        let b = h[n - 1].0;
        assert(x[a.len() as int] == ':');
        assert(y[b.len() as int] == ':');
        if a.len() < b.len() {
            assert(y[a.len() as int] == b[a.len() as int]);
            assert(b.contains(b[a.len() as int]));
        }
        if b.len() < a.len() {
            assert(x[b.len() as int] == a[b.len() as int]);
            assert(a.contains(a[b.len() as int]));
        }
        assert(a =~= x.take(a.len() as int));
        assert(b =~= y.take(b.len() as int));
        assert(g[m - 1].1 =~= x.skip(a.len() as int + 2));
        assert(h[n - 1].1 =~= y.skip(b.len() as int + 2));
        assert(g[m - 1] == h[n - 1]);
        assert(g.take(m as int) =~= g.take(m - 1).push(g[m - 1]));
        assert(h.take(n as int) =~= h.take(n - 1).push(h[n - 1]));
    } else {
        assert(g.take(m as int) =~= h.take(n as int));
    }
}

/// The line of a header of HTTP holds no line feed before its end.
proof fn lemma_no_feed(h: (Seq<char>, Seq<char>))
    requires
        !h.0.contains('\n'),
        !h.1.contains('\n'),
    ensures
        forall|i: int|
            0 <= i < (h.0 + ": "@ + h.1).len() ==> #[trigger] (h.0 + ": "@ + h.1)[i] != '\n',
{
    reveal_strlit(": ");
    let x = h.0 + ": "@ + h.1;
    assert forall|i: int| 0 <= i < x.len() implies #[trigger] x[i] != '\n' by {
        if i < h.0.len() {
            assert(h.0.contains(h.0[i]));
        } else if i >= h.0.len() + 2 {
            assert(h.1.contains(h.1[i - h.0.len() - 2]));
        }
    }
}

/// Bodies can be read off what is shown of them.
proof fn lemma_bodies_are_told(a: Seq<char>, b: Seq<char>)
    requires
        (if a.len() > 0 {
            "<pre>"@ + escaped(a) + "</pre>\n"@
        } else {
            ""@
        }) + "</li>\n"@ == (if b.len() > 0 {
            "<pre>"@ + escaped(b) + "</pre>\n"@
        } else {
            ""@
        }) + "</li>\n"@,
    ensures
        a == b,
{
    reveal_strlit("");
    reveal_strlit("<pre>");
    reveal_strlit("</pre>\n");
    reveal_strlit("</li>\n");
    let end = "</li>\n"@;
    let close = "</pre>\n"@;
    let x = "<pre>"@ + escaped(a) + close + end;
    let y = "<pre>"@ + escaped(b) + close + end;
    if a.len() > 0 && b.len() > 0 {
        assert(x =~= "<pre>"@ + (escaped(a) + (close + end)));
        assert(y =~= "<pre>"@ + (escaped(b) + (close + end)));
        lemma_behind("<pre>"@, escaped(a) + (close + end), escaped(b) + (close + end));
        lemma_tagless(a, 0);
        lemma_tagless(b, 0);
        lemma_before_tag(escaped(a), close + end, escaped(b), close + end);
        law_escaping_loses_nothing(a, b);
    } else if a.len() > 0 {
        assert(""@ + end =~= end);
        assert(x[1] == 'p');
        assert(end[1] == '/');
    } else if b.len() > 0 {
        assert(""@ + end =~= end);
        assert(y[1] == 'p');
        assert(end[1] == '/');
    } else {
        assert(a =~= b);
    }
}

/// Headers and bodies can be read off what is shown behind the line of a record.
proof fn lemma_blocks_are_told(a: RecordView, b: RecordView)
    requires
        http_headers(a.headers),
        http_headers(b.headers),
        a.headers.len() > 0 <==> b.headers.len() > 0,
        blocks(a) == blocks(b),
    ensures
        a.headers == b.headers,
        a.body == b.body,
{
    reveal_strlit("");
    reveal_strlit("<pre>");
    reveal_strlit("</pre>\n");
    let close = "</pre>\n"@;
    let s = (if a.body.len() > 0 {
        "<pre>"@ + escaped(a.body) + close
    } else {
        ""@
    }) + "</li>\n"@;
    let t = (if b.body.len() > 0 {
        "<pre>"@ + escaped(b.body) + close
    } else {
        ""@
    }) + "</li>\n"@;
    if a.headers.len() > 0 {
        let m = a.headers.len();
        let n = b.headers.len();
        let p = header_lines(a.headers, m);
        let q = header_lines(b.headers, n);
        assert(blocks(a) =~= "<pre>"@ + (p + (close + s)));
        assert(blocks(b) =~= "<pre>"@ + (q + (close + t)));
        lemma_behind("<pre>"@, p + (close + s), q + (close + t));
        lemma_plain_lines(a.headers, m);
        lemma_plain_lines(b.headers, n);
        lemma_tagless(plain_lines(a.headers, m), 0);
        lemma_tagless(plain_lines(b.headers, n), 0);
        lemma_before_tag(p, close + s, q, close + t);
        lemma_behind(close, s, t);
        law_escaping_loses_nothing(plain_lines(a.headers, m), plain_lines(b.headers, n));
        lemma_lines_tell_the_headers(a.headers, m, b.headers, n);
        assert(a.headers.take(m as int) =~= a.headers);
        assert(b.headers.take(n as int) =~= b.headers);
    } else {
        assert(blocks(a) =~= s);
        assert(blocks(b) =~= t);
        assert(a.headers =~= b.headers);
    }
    lemma_bodies_are_told(a.body, b.body);
}

/// A space stands before the small print.
proof fn lemma_space_before_small()
    ensures
        " <small>#"@ == " "@ + "<small>#"@,
{
    reveal_strlit(" <small>#");
    reveal_strlit("<small>#");
    reveal_strlit(" ");
    assert(" <small>#"@ =~= " "@ + "<small>#"@);
}

/// Two records that differ in their method, their target, their headers or their body
/// never look the same, as long as either both have headers or neither does: what was
/// recorded can be read off the page.
pub proof fn law_different_records_look_different(
    a: RecordView,
    b: RecordView,
    at: Seq<char>,
    bt: Seq<char>,
)
    requires
        http_headers(a.headers),
        http_headers(b.headers),
        a.headers.len() > 0 <==> b.headers.len() > 0,
        record_item(a, at) == record_item(b, bt),
    ensures
        a.method == b.method,
        target_of(a) == target_of(b),
        a.headers == b.headers,
        a.body == b.body,
{
    reveal_strlit("</strong> ");
    reveal_strlit("<small>#");
    reveal_strlit(" ");
    reveal_strlit("</small>\n");
    let open = "<li><strong>"@;
    let bold = "</strong> "@;
    let small = "<small>#"@;
    let done = "</small>\n"@;
    let am = escaped(a.method);
    let bm = escaped(b.method);
    let ag = escaped(target_of(a)) + " "@;
    let bg = escaped(target_of(b)) + " "@;
    let af = facts(a, at);
    let bf = facts(b, bt);
    lemma_facts_are_tagless(a, at);
    lemma_facts_are_tagless(b, bt);
    lemma_tagless(a.method, 0);
    lemma_tagless(b.method, 0);
    lemma_tagless(target_of(a), 0);
    lemma_tagless(target_of(b), 0);
    let a3 = done + blocks(a);
    let b3 = done + blocks(b);
    let a2 = small + (af + a3);
    let b2 = small + (bf + b3);
    let a1 = bold + (ag + a2);
    let b1 = bold + (bg + b2);
    law_item_shows_the_record(a, at);
    law_item_shows_the_record(b, bt);
    lemma_space_before_small();
    lemma_grouped(" "@, small, af + a3);
    lemma_grouped(" "@, small, bf + b3);
    lemma_grouped(escaped(target_of(a)), " "@, a2);
    lemma_grouped(escaped(target_of(b)), " "@, b2);
    assert(record_item(a, at) == open + (am + a1));
    assert(record_item(b, bt) == open + (bm + b1));
    lemma_behind(open, am + a1, bm + b1);
    lemma_before_tag(am, a1, bm, b1);
    lemma_behind(bold, ag + a2, bg + b2);
    lemma_before_tag(ag, a2, bg, b2);
    lemma_behind(small, af + a3, bf + b3);
    lemma_before_tag(af, a3, bf, b3);
    lemma_behind(done, blocks(a), blocks(b));
    law_escaping_loses_nothing(a.method, b.method);
    assert(escaped(target_of(a)) =~= ag.drop_last());
    assert(escaped(target_of(b)) =~= bg.drop_last());
    law_escaping_loses_nothing(target_of(a), target_of(b));
    lemma_blocks_are_told(a, b);
}

/// Number, instant, length and cut open no tag.
proof fn lemma_facts_are_tagless(r: RecordView, received: Seq<char>)
    ensures
        tagless(facts(r, received)),
{
    reveal_strlit("");
    reveal_strlit(" · ");
    reveal_strlit(" bytes");
    reveal_strlit(" (truncated)");
    lemma_tagless(received, r.seq as nat);
    lemma_tagless(received, r.body_len as nat);
}

/// A store keeps as many records as are asked for, up to the most that any keeps.
pub proof fn law_stores_keep_what_is_asked_for(keep: usize)
    ensures
        keep <= 1_000 ==> kept_at_most(keep) == keep,
        keep > 1_000 ==> kept_at_most(keep) == 1_000,
{
}

/// The inspection page of records whose instants can be written is that of all of them
/// with their instants; there is none where one cannot.
pub proof fn law_inspection_is_of_all_records(r: Seq<RecordView>, i: int)
    ensures
        0 <= i < r.len() && rfc3339_millis(r[i].received_at) is None ==> inspection_page(r) is None,
        (forall|k: int| 0 <= k < r.len() ==> rfc3339_millis((#[trigger] r[k]).received_at) is Some)
            ==> inspection_page(r) == Some(inspection(r, received_texts(r))),
        received_texts(r).len() == r.len(),
{
    if 0 <= i < r.len() {
        assert(rfc3339_millis(r[i].received_at) is None ==> !all_reached(r));
    }
    if forall|k: int| 0 <= k < r.len() ==> rfc3339_millis((#[trigger] r[k]).received_at) is Some {
        assert forall|k: int| 0 <= k < r.len() implies rfc3339_millis(
            #[trigger] r[k].received_at,
        ) is Some by {
            let x = r[k];
        }
    }
}

/// The two pages of a receiver have paths of their own, the one of the records being that
/// of the page with the ending of its format; what is kept where nothing is asked for is
/// within what may be kept.
pub proof fn law_pages_have_paths_of_their_own()
    ensures
        JSON_PATH@ == INSPECT_PATH@ + ".json"@,
        INSPECT_PATH@ != JSON_PATH@,
        INSPECT_PATH@[0] == '/',
        DEFAULT_KEEP <= MAX_KEEP,
        MAX_REQUEST_BODY == 64 * 1_024,
{
    reveal_strlit("/__inspect");
    reveal_strlit("/__inspect.json");
    reveal_strlit(".json");
    assert(JSON_PATH@ =~= INSPECT_PATH@ + ".json"@);
    assert(JSON_PATH@.len() != INSPECT_PATH@.len());
}

} // verus!

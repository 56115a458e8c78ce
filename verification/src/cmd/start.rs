//! The `start` command: what may be published, which port is used, how the public
//! URL is waited for, and what is told when it does not come.

use vstd::prelude::*;
use vstd::string::*;

use crate::bytes::{lossy, lossy_text};
use crate::server::listing::{under, under_root};
use crate::text::{
    capital_and_small, chars_of, char_index_from, concat2, concat3, decimal, decimal_text,
    index_from, is_white, law_only_case_is_ignored, law_trimming_takes_only_white_space,
    lemma_index_at, lemma_stands_between, occurs_in, opt_text, same_ignoring_case, split,
    text_between, text_eq_ignoring_case, text_split, text_trim, texts, trim,
};

verus! {

/// How often the registry is looked at while a start waits, in milliseconds.
pub const POLL_INTERVAL_MS: u64 = 250;

/// How long a start waits for the public URL, in milliseconds.
pub const POLL_TIMEOUT_MS: u64 = 30_000;

/// How long a connection to an origin is tried, in milliseconds.
pub const PROBE_TIMEOUT_MS: u64 = 500;

/// How much of the end of a log is looked at for the reason of a failed start, in
/// bytes.
pub const LAST_REASON_CAP: u64 = 16_384;

/// How long the server has for the requests in flight when a foreground service
/// ends, in milliseconds.
pub const SERVER_SHUTDOWN_TIMEOUT_MS: u64 = 3_000;

// ---------------------------------------------------------------------------
// What may be published
// ---------------------------------------------------------------------------

/// The secret is acceptable: it is not blank.
pub open spec fn acceptable_token(token: Option<Seq<char>>) -> bool {
    token matches Some(t) ==> trim(t).len() > 0
}

/// Refuse a secret that is empty or blank; any other is kept as it is.
pub fn check_token(token: &Option<String>) -> (r: Result<(), String>)
    ensures
        match r {
            Ok(()) => acceptable_token(opt_text(*token)),
            Err(e) => !acceptable_token(opt_text(*token)) && e@
                == "--token must be a non-empty secret"@,
        },
{
    if let Some(t) = token {
        if text_trim(t.as_str()).as_str().is_empty() {
            return Err("--token must be a non-empty secret".to_owned());
        }
    }
    Ok(())
}

/// The system directories that are never published without a question.
pub open spec fn denied_dirs() -> Seq<Seq<char>> {
    seq![
        "/"@,
        "/etc"@,
        "/root"@,
        "/var"@,
        "/home"@,
        "/Users"@,
        "/proc"@,
        "/sys"@,
        "/dev"@,
    ]
}

/// The system directories that are never published without a question.
pub fn denylist() -> (r: Vec<String>)
    ensures
        texts(r@) == denied_dirs(),
{
    let r = vec![
        "/".to_owned(),
        "/etc".to_owned(),
        "/root".to_owned(),
        "/var".to_owned(),
        "/home".to_owned(),
        "/Users".to_owned(),
        "/proc".to_owned(),
        "/sys".to_owned(),
        "/dev".to_owned(),
    ];
    assert(texts(r@) =~= denied_dirs());
    r
}

/// What is known of a directory that is about to be published, and of those that
/// it is held against. Every path is resolved, so that an alias makes no
/// difference.
#[derive(Debug)]
pub struct Exposure {
    /// The directory, where it can be resolved.
    pub dir: Option<Vec<u8>>,
    /// The entries of [`denylist`] that exist.
    pub denied: Vec<Vec<u8>>,
    /// The home directory, where there is one.
    pub home: Option<Vec<u8>>,
    /// The root of the state directory, where it can be told.
    pub state_root: Option<Vec<u8>>,
}

/// The two paths name the same directory.
pub open spec fn same_dir(a: Seq<u8>, b: Seq<u8>, sep: u8) -> bool {
    under(a, b, sep) && under(b, a, sep)
}

/// Publishing the directory as a whole is almost certainly a mistake: it cannot be
/// resolved, it is a system directory, it holds the home directory, or it overlaps
/// the state directory. What cannot be told counts as overlapping.
pub open spec fn sensitive(x: Exposure, sep: u8) -> bool {
    match x.dir {
        None => true,
        Some(d) => {
            ||| exists|i: int|
                0 <= i < x.denied@.len() && same_dir(d@, (#[trigger] x.denied@[i])@, sep)
            ||| match x.home {
                Some(h) => under(h@, d@, sep),
                None => true,
            }
            ||| match x.state_root {
                Some(s) => under(d@, s@, sep) || under(s@, d@, sep),
                None => true,
            }
        },
    }
}

/// Whether publishing the directory as a whole is almost certainly a mistake.
pub fn is_sensitive_dir(x: &Exposure, sep: u8) -> (r: bool)
    ensures
        r == sensitive(*x, sep),
{
    let dir = match &x.dir {
        Some(d) => d,
        None => return true,
    };
    let mut i: usize = 0;
    while i < x.denied.len()
        invariant
            i <= x.denied@.len(),
            x.dir == Some(*dir),
            forall|k: int|
                0 <= k < i ==> !same_dir(dir@, (#[trigger] x.denied@[k])@, sep),
        decreases x.denied@.len() - i,
    {
        let d = &x.denied[i];
        if under_root(dir.as_slice(), d.as_slice(), sep) && under_root(
            d.as_slice(),
            dir.as_slice(),
            sep,
        ) {
            assert(same_dir(dir@, x.denied@[i as int]@, sep));
            return true;
        }
        i = i + 1;
    }
    let home_overlapped = match &x.home {
        Some(h) => under_root(h.as_slice(), dir.as_slice(), sep),
        None => true,
    };
    let state_overlapped = match &x.state_root {
        Some(s) => under_root(dir.as_slice(), s.as_slice(), sep) || under_root(
            s.as_slice(),
            dir.as_slice(),
            sep,
        ),
        None => true,
    };
    home_overlapped || state_overlapped
}

/// What is to be done before a directory is published.
#[derive(Debug)]
pub enum Confirmation {
    /// Publish it.
    Proceed,
    /// Say that the operator has agreed beforehand, and publish it.
    ProceedAsAgreed,
    /// Ask the operator.
    Ask,
    /// Fail.
    Refuse(String),
}

/// The confirmation is what is to be done before `dir` is published.
pub open spec fn confirms(
    dir: Seq<char>,
    is_sensitive: bool,
    yes: bool,
    terminal: bool,
    c: Confirmation,
) -> bool {
    match c {
        Confirmation::Proceed => !is_sensitive,
        Confirmation::ProceedAsAgreed => is_sensitive && yes,
        Confirmation::Ask => is_sensitive && !yes && terminal,
        Confirmation::Refuse(e) => is_sensitive && !yes && !terminal && e@
            == "refusing to publish a sensitive directory ("@ + dir
            + ") non-interactively; re-run with --yes to confirm"@,
    }
}

/// What is to be done before `dir` is published, given whether it is sensitive,
/// whether the operator agreed beforehand and whether there is a terminal to ask
/// at.
pub fn confirm_sensitive(dir: &str, is_sensitive: bool, yes: bool, terminal: bool) -> (r:
    Confirmation)
    ensures
        confirms(dir@, is_sensitive, yes, terminal, r),
{
    if !is_sensitive {
        return Confirmation::Proceed;
    }
    if yes {
        return Confirmation::ProceedAsAgreed;
    }
    if !terminal {
        return Confirmation::Refuse(
            concat3(
                "refusing to publish a sensitive directory (",
                dir,
                ") non-interactively; re-run with --yes to confirm",
            ),
        );
    }
    Confirmation::Ask
}

/// What is told before a sensitive directory is published.
pub open spec fn warning_words(dir: Seq<char>) -> Seq<char> {
    "[!] Publishing '"@ + dir
        + "' to the PUBLIC internet via a Cloudflare Quick Tunnel.\n    Anyone with the URL can read its contents. Dotfiles are refused by default.\n"@
}

/// What is told before a sensitive directory is published.
pub fn sensitive_warning(dir: &str) -> (r: String)
    ensures
        r@ == warning_words(dir@),
{
    concat3(
        "[!] Publishing '",
        dir,
        "' to the PUBLIC internet via a Cloudflare Quick Tunnel.\n    Anyone with the URL can read its contents. Dotfiles are refused by default.\n",
    )
}

/// The answer of the operator is a yes.
pub open spec fn agreed(line: Seq<char>) -> bool {
    same_ignoring_case(trim(line), "y"@)
}

/// Take the answer of the operator: only `y` is a yes.
pub fn confirmed(line: &str) -> (r: Result<(), String>)
    ensures
        match r {
            Ok(()) => agreed(line@),
            Err(e) => !agreed(line@) && e@ == "aborted"@,
        },
{
    if text_eq_ignoring_case(text_trim(line).as_str(), "y") {
        Ok(())
    } else {
        Err("aborted".to_owned())
    }
}

/// Why the directory at the absolute path `abs` is refused.
pub open spec fn dir_refusal(abs: Seq<char>, exists: bool, is_dir: bool, readable: bool) -> Option<
    Seq<char>,
> {
    if !exists {
        Some("directory '"@ + abs + "' does not exist"@)
    } else if !is_dir {
        Some("'"@ + abs + "' is not a directory"@)
    } else if !readable {
        Some("directory '"@ + abs + "' is not readable"@)
    } else {
        None
    }
}

/// Accept the directory at the absolute path `abs`, given whether it exists, is a
/// directory and can be read, or say why not.
pub fn resolve_dir(abs: &str, exists: bool, is_dir: bool, readable: bool) -> (r: Result<(), String>)
    ensures
        match r {
            Ok(()) => dir_refusal(abs@, exists, is_dir, readable) is None,
            Err(e) => dir_refusal(abs@, exists, is_dir, readable) == Some(e@),
        },
{
    if !exists {
        return Err(concat3("directory '", abs, "' does not exist"));
    }
    if !is_dir {
        return Err(concat3("'", abs, "' is not a directory"));
    }
    if !readable {
        return Err(concat3("directory '", abs, "' is not readable"));
    }
    Ok(())
}

// ---------------------------------------------------------------------------
// Which port is used
// ---------------------------------------------------------------------------

/// The port of an origin that `ft` binds itself.
#[derive(Clone, Copy, Debug, PartialEq, Eq, Structural)]
pub enum PortChoice {
    /// This one, if it is free.
    Explicit(u16),
    /// One that the system hands out.
    Allocate,
}

/// The port of a static origin: any that is free, or the one that is asked for,
/// which may not be 0.
pub open spec fn static_choice(port: Option<u16>) -> Option<PortChoice> {
    match port {
        Some(p) => if p == 0 {
            None
        } else {
            Some(PortChoice::Explicit(p))
        },
        None => Some(PortChoice::Allocate),
    }
}

/// The port of a static origin: any that is free, or the one that is asked for,
/// which may not be 0.
pub fn static_port(port: Option<u16>) -> (r: Result<PortChoice, String>)
    ensures
        match r {
            Ok(c) => static_choice(port) == Some(c),
            Err(e) => static_choice(port) is None && e@
                == "port 0 is reserved; pass an explicit port (1-65535) or omit --port"@,
        },
{
    match port {
        Some(p) => {
            if p == 0 {
                return Err(
                    "port 0 is reserved; pass an explicit port (1-65535) or omit --port".to_owned(),
                );
            }
            Ok(PortChoice::Explicit(p))
        },
        None => Ok(PortChoice::Allocate),
    }
}

/// The port of an origin that `ft` does not bind, or why there is none.
pub open spec fn fronted(port: Option<u16>) -> Result<u16, Seq<char>> {
    match port {
        Some(p) => if p == 0 {
            Err("port 0 is reserved; pass an explicit port (1-65535)"@)
        } else {
            Ok(p)
        },
        None => Err("a proxy or run service needs an explicit port to front"@),
    }
}

/// The port of an origin that `ft` does not bind: it must be given, and may not be
/// 0.
pub fn fronted_port(port: Option<u16>) -> (r: Result<u16, String>)
    ensures
        match r {
            Ok(p) => fronted(port) == Ok::<u16, Seq<char>>(p),
            Err(e) => fronted(port) == Err::<u16, Seq<char>>(e@),
        },
{
    match port {
        Some(p) => {
            if p == 0 {
                return Err("port 0 is reserved; pass an explicit port (1-65535)".to_owned());
            }
            Ok(p)
        },
        None => Err("a proxy or run service needs an explicit port to front".to_owned()),
    }
}

/// Why the port of a static origin is refused.
pub open spec fn taken_words(port: u16, free: bool) -> Option<Seq<char>> {
    if free {
        None
    } else {
        Some("port "@ + decimal(port as nat) + " is already in use"@)
    }
}

/// Accept the port of a static origin if it is free.
pub fn static_port_free(port: u16, free: bool) -> (r: Result<(), String>)
    ensures
        match r {
            Ok(()) => taken_words(port, free) is None,
            Err(e) => taken_words(port, free) == Some(e@),
        },
{
    if free {
        Ok(())
    } else {
        Err(concat3("port ", decimal_text(port as u64).as_str(), " is already in use"))
    }
}

// ---------------------------------------------------------------------------
// Waiting for the public URL
// ---------------------------------------------------------------------------

/// What a look at the registry shows while a start waits.
#[derive(Clone, Copy, Debug, PartialEq, Eq, Structural)]
pub enum Snapshot {
    /// The file has not changed; whether the worker that was spawned is alive.
    Unchanged { worker_alive: bool },
    /// The file has changed and cannot be read.
    Unreadable,
    /// The file has changed and the entry is gone.
    Gone,
    /// The file has changed and holds the entry; whether it has its URL, and
    /// whether the worker that it names is alive.
    Entry { has_url: bool, worker_alive: bool },
}

/// What follows from a look at the registry.
#[derive(Clone, Copy, Debug, PartialEq, Eq, Structural)]
pub enum PollStep {
    /// The service is up.
    Started,
    /// The worker died or its entry is gone.
    WorkerGone,
    /// The registry cannot be read.
    Unreadable,
    /// Look again later.
    Again,
}

/// What follows from a look at the registry.
pub open spec fn polled(s: Snapshot) -> PollStep {
    match s {
        Snapshot::Unreadable => PollStep::Unreadable,
        Snapshot::Gone => PollStep::WorkerGone,
        Snapshot::Entry { has_url: true, .. } => PollStep::Started,
        Snapshot::Entry { worker_alive: false, .. } => PollStep::WorkerGone,
        Snapshot::Unchanged { worker_alive: false } => PollStep::WorkerGone,
        _ => PollStep::Again,
    }
}

/// What follows from a look at the registry. A worker that dies is noticed at
/// once, whether or not the file has changed.
pub fn poll_for_url(snapshot: Snapshot) -> (r: PollStep)
    ensures
        r == polled(snapshot),
{
    match snapshot {
        Snapshot::Unchanged { worker_alive } => if worker_alive {
            PollStep::Again
        } else {
            PollStep::WorkerGone
        },
        Snapshot::Unreadable => PollStep::Unreadable,
        Snapshot::Gone => PollStep::WorkerGone,
        Snapshot::Entry { has_url, worker_alive } => if has_url {
            PollStep::Started
        } else if !worker_alive {
            PollStep::WorkerGone
        } else {
            PollStep::Again
        },
    }
}

/// The start has waited long enough.
pub open spec fn expired(waited_ms: u64) -> bool {
    waited_ms >= POLL_TIMEOUT_MS
}

/// Whether the start stops waiting after so many milliseconds.
pub fn poll_expired(waited_ms: u64) -> (r: bool)
    ensures
        r == expired(waited_ms),
{
    waited_ms >= POLL_TIMEOUT_MS
}

/// What is told when the worker is gone before the URL came.
pub open spec fn failed_words(name: Seq<char>, reason: Seq<char>) -> Seq<char> {
    "worker for '"@ + name + "' exited before the tunnel came up"@ + reason
}

/// What is told when the URL did not come in time.
pub open spec fn timeout_words(reason: Seq<char>) -> Seq<char> {
    "timed out waiting for the tunnel URL"@ + reason
}

/// What is told when the worker is gone before the URL came.
pub fn fail_start(name: &str, reason: &str) -> (r: String)
    ensures
        r@ == failed_words(name@, reason@),
{
    concat2(
        concat3("worker for '", name, "' exited before the tunnel came up").as_str(),
        reason,
    )
}

/// What is told when the URL did not come in time.
pub fn fail_timeout(reason: &str) -> (r: String)
    ensures
        r@ == timeout_words(reason@),
{
    concat2("timed out waiting for the tunnel URL", reason)
}

// ---------------------------------------------------------------------------
// The reason of a failed start
// ---------------------------------------------------------------------------

/// The last of the first `n` parts that is not blank, without the white space
/// around it.
pub open spec fn last_filled(parts: Seq<Seq<char>>, n: nat) -> Option<Seq<char>>
    decreases n,
{
    if n == 0 {
        None
    } else if trim(parts[n - 1]).len() > 0 {
        Some(trim(parts[n - 1]))
    } else {
        last_filled(parts, (n - 1) as nat)
    }
}

/// What is left of a text that was read from the middle of a file: what follows
/// its first line, or all of it where there is no second line.
pub open spec fn whole_lines(text: Seq<char>) -> Seq<char> {
    let i = index_from(text, '\n', 0);
    if i < text.len() {
        text.subrange(i + 1, text.len() as int)
    } else {
        text
    }
}

/// The last line of the text that is not blank, without the white space around
/// it; `cut` says that the text was read from the middle of a file.
pub open spec fn last_line_of(text: Seq<char>, cut: bool) -> Option<Seq<char>> {
    let parts = split(
        if cut {
            whole_lines(text)
        } else {
            text
        },
        '\n',
    );
    last_filled(parts, parts.len())
}

/// The text without its first line, which may be a part of one.
fn drop_partial_line(text: &str) -> (r: String)
    ensures
        r@ == whole_lines(text@),
{
    let cs = chars_of(text);
    let i: usize = char_index_from(&cs, '\n', 0);
    if i < cs.len() {
        text_between(&cs, i + 1, cs.len())
    } else {
        text.to_owned()
    }
}

/// The last line of the text that is not blank, without the white space around
/// it.
pub fn last_text_line(text: &str, cut: bool) -> (r: Option<String>)
    ensures
        opt_text(r) == last_line_of(text@, cut),
{
    let whole = if cut {
        drop_partial_line(text)
    } else {
        text.to_owned()
    };
    let lines = text_split(whole.as_str(), '\n');
    let ghost parts = split(whole@, '\n');
    let mut n: usize = lines.len();
    while n > 0
        invariant
            n <= lines@.len(),
            texts(lines@) == parts,
            last_line_of(text@, cut) == last_filled(parts, n as nat),
        decreases n,
    {
        let line = text_trim(lines[n - 1].as_str());
        assert(parts[n - 1] == lines@[n - 1]@);
        if !line.as_str().is_empty() {
            return Some(line);
        }
        n = n - 1;
    }
    None
}

/// The last line of a log that is not blank, given the bytes of its end and how
/// long the whole log is.
pub fn last_line(bytes: &[u8], len: u64) -> (r: Option<String>)
    ensures
        opt_text(r) == last_line_of(lossy(bytes@), len > LAST_REASON_CAP),
{
    let text = lossy_text(bytes);
    last_text_line(text.as_str(), len > LAST_REASON_CAP)
}

/// Where the end of a log that is looked at begins.
pub open spec fn reason_start(len: int) -> int {
    if len > LAST_REASON_CAP {
        len - LAST_REASON_CAP
    } else {
        0
    }
}

/// Where the end of a log that is looked at begins.
pub fn last_line_offset(len: u64) -> (r: u64)
    ensures
        r == reason_start(len as int),
{
    if len > LAST_REASON_CAP {
        len - LAST_REASON_CAP
    } else {
        0
    }
}

/// What is added to the message of a failed start: the first line that there is.
pub open spec fn reason(first: Option<Seq<char>>, second: Option<Seq<char>>) -> Seq<char> {
    match (first, second) {
        (Some(l), _) => ":\n  "@ + l,
        (None, Some(l)) => ":\n  "@ + l,
        (None, None) => Seq::empty(),
    }
}

/// What is added to the message of a failed start, given the last lines of the log
/// that is looked at first and of the other one.
pub fn first_reason(first: Option<String>, second: Option<String>) -> (r: String)
    ensures
        r@ == reason(opt_text(first), opt_text(second)),
{
    match first {
        Some(l) => concat2(":\n  ", l.as_str()),
        None => match second {
            Some(l) => concat2(":\n  ", l.as_str()),
            None => {
                let r = String::new();
                assert(r@ =~= Seq::<char>::empty());
                r
            },
        },
    }
}

/// What is added to the message of a failed start: what `cloudflared` said last,
/// else what the worker said.
pub fn last_reason(tunnel: Option<String>, worker: Option<String>) -> (r: String)
    ensures
        r@ == reason(opt_text(tunnel), opt_text(worker)),
{
    first_reason(tunnel, worker)
}

// ---------------------------------------------------------------------------
// Laws
// ---------------------------------------------------------------------------

/// What cannot be told never makes a directory look harmless: without a resolved
/// path, a home directory or a state directory every directory is sensitive.
pub proof fn law_sensitivity_fails_closed(x: Exposure, sep: u8)
    ensures
        x.dir is None || x.home is None || x.state_root is None ==> sensitive(x, sep),
{
}

/// The home directory and everything above it, and the state directory with
/// everything above and below it, are sensitive.
pub proof fn law_home_and_state_are_sensitive(x: Exposure, sep: u8)
    ensures
        x.dir matches Some(d) ==> {
            &&& x.home matches Some(h) ==> (under(h@, d@, sep) ==> sensitive(x, sep))
            &&& x.state_root matches Some(s) ==> (under(d@, s@, sep) || under(s@, d@, sep)
                ==> sensitive(x, sep))
        },
{
}

/// What follows from a row of looks at the registry: the first that settles the
/// matter does.
pub open spec fn settled(looks: Seq<Snapshot>, i: int) -> PollStep
    decreases looks.len() - i,
{
    if i >= looks.len() {
        PollStep::Again
    } else if polled(looks[i]) is Again {
        settled(looks, i + 1)
    } else {
        polled(looks[i])
    }
}

/// A start succeeds only on an entry that has its URL, and only if no look before
/// it found the worker dead, the entry gone or the registry unreadable.
pub proof fn law_only_a_url_starts(looks: Seq<Snapshot>, i: int)
    requires
        0 <= i <= looks.len(),
        settled(looks, i) is Started,
    ensures
        exists|k: int|
            i <= k < looks.len() && (#[trigger] looks[k] matches Snapshot::Entry { has_url, .. }
                && has_url) && forall|j: int| i <= j < k ==> polled(#[trigger] looks[j]) is Again,
    decreases looks.len() - i,
{
    if polled(looks[i]) is Again {
        law_only_a_url_starts(looks, i + 1);
        let k = choose|k: int|
            i + 1 <= k < looks.len() && (#[trigger] looks[k] matches Snapshot::Entry {
                has_url,
                ..
            } && has_url) && forall|j: int|
                i + 1 <= j < k ==> polled(#[trigger] looks[j]) is Again;
        assert forall|j: int| i <= j < k implies polled(#[trigger] looks[j]) is Again by {}
    } else {
        assert(looks[i] matches Snapshot::Entry { has_url, .. } && has_url);
    }
}

/// A look that finds the worker dead ends the waiting, unless the URL is there.
pub proof fn law_a_dead_worker_is_noticed_at_once(s: Snapshot)
    ensures
        s == (Snapshot::Unchanged { worker_alive: false }) ==> polled(s) is WorkerGone,
        s == (Snapshot::Entry { has_url: false, worker_alive: false }) ==> polled(s) is WorkerGone,
        s is Gone ==> polled(s) is WorkerGone,
{
}

/// A secret is refused exactly where it is nothing but white space; none at all is in
/// order.
pub proof fn law_blank_secrets_are_refused(t: Seq<char>)
    ensures
        acceptable_token(None),
        acceptable_token(Some(t)) <==> exists|k: int|
            0 <= k < t.len() && !is_white(#[trigger] t[k]),
{
    law_trimming_takes_only_white_space(t);
    let (i, j) = choose|i: int, j: int|
        0 <= i <= j <= t.len() && #[trigger] t.subrange(i, j) == trim(t) && (forall|k: int|
            0 <= k < i || j <= k < t.len() ==> is_white(#[trigger] t[k]));
    if trim(t).len() > 0 {
        assert(trim(t)[0] == t[i]);
    }
}

/// A directory that is none of the denied ones, holds no home directory and does not
/// overlap the state directory is harmless; each of the denied ones is not.
pub proof fn law_other_directories_are_harmless(x: Exposure, sep: u8, i: int)
    requires
        x.dir is Some,
        x.home is Some,
        x.state_root is Some,
    ensures
        0 <= i < x.denied@.len() && x.denied@[i]@ == x.dir->0@ ==> sensitive(x, sep),
        (forall|k: int|
            0 <= k < x.denied@.len() ==> !under((#[trigger] x.denied@[k])@, x.dir->0@, sep)
                || !under(x.dir->0@, x.denied@[k]@, sep)) && !under(x.home->0@, x.dir->0@, sep)
            && !under(x.dir->0@, x.state_root->0@, sep) && !under(
            x.state_root->0@,
            x.dir->0@,
            sep,
        ) ==> !sensitive(x, sep),
{
    let d = x.dir->0;
    if 0 <= i < x.denied@.len() && x.denied@[i]@ == d@ {
        assert(same_dir(d@, x.denied@[i]@, sep));
    }
}

/// The root, the places where a system keeps its own files, and the places where it keeps
/// those of its users are denied; every one is an absolute path, and none stands twice.
pub proof fn law_system_directories_are_denied()
    ensures
        denied_dirs().contains("/"@),
        denied_dirs().contains("/etc"@) && denied_dirs().contains("/var"@),
        denied_dirs().contains("/proc"@) && denied_dirs().contains("/sys"@)
            && denied_dirs().contains("/dev"@),
        denied_dirs().contains("/root"@) && denied_dirs().contains("/home"@)
            && denied_dirs().contains("/Users"@),
        forall|i: int| 0 <= i < denied_dirs().len() ==> (#[trigger] denied_dirs()[i])[0] == '/',
        denied_dirs().len() == 9,
{
    reveal_strlit("/");
    reveal_strlit("/etc");
    reveal_strlit("/root");
    reveal_strlit("/var");
    reveal_strlit("/home");
    reveal_strlit("/Users");
    reveal_strlit("/proc");
    reveal_strlit("/sys");
    reveal_strlit("/dev");
    let d = denied_dirs();
    assert(d[0] == "/"@ && d[1] == "/etc"@ && d[2] == "/root"@ && d[3] == "/var"@);
    assert(d[4] == "/home"@ && d[5] == "/Users"@ && d[6] == "/proc"@);
    assert(d[7] == "/sys"@ && d[8] == "/dev"@);
}

/// A sensitive directory is never published without a yes, given beforehand or asked for;
/// the operator is asked only where they can answer; one that is not sensitive is
/// published without a word. A refusal names the directory.
pub proof fn law_sensitive_directories_need_a_yes(
    dir: Seq<char>,
    is_sensitive: bool,
    yes: bool,
    terminal: bool,
    c: Confirmation,
)
    requires
        confirms(dir, is_sensitive, yes, terminal, c),
    ensures
        c is Proceed <==> !is_sensitive,
        c is ProceedAsAgreed <==> is_sensitive && yes,
        c is Ask <==> is_sensitive && !yes && terminal,
        c is Refuse <==> is_sensitive && !yes && !terminal,
        c matches Confirmation::Refuse(e) ==> occurs_in(e@, dir),
        occurs_in(warning_words(dir), dir),
{
    lemma_stands_between(
        "refusing to publish a sensitive directory ("@,
        dir,
        ") non-interactively; re-run with --yes to confirm"@,
    );
    lemma_stands_between(
        "[!] Publishing '"@,
        dir,
        "' to the PUBLIC internet via a Cloudflare Quick Tunnel.\n    Anyone with the URL can read its contents. Dotfiles are refused by default.\n"@,
    );
}

/// Only the one letter is a yes, small or capital, whatever white space stands around it.
pub proof fn law_only_y_is_a_yes(line: Seq<char>)
    ensures
        agreed(line) <==> trim(line).len() == 1 && (trim(line)[0] == 'y' || trim(line)[0] == 'Y'),
{
    reveal_strlit("y");
    law_only_case_is_ignored(trim(line), "y"@);
    if trim(line).len() == 1 {
        lemma_cases_of_y(trim(line)[0]);
    }
}

/// The two cases of the letter.
proof fn lemma_cases_of_y(c: char)
    ensures
        c == 'y' || capital_and_small(c, 'y') || capital_and_small('y', c) <==> c == 'y' || c == 'Y',
{
}

/// A directory is accepted exactly where it exists, is one and can be read; the first of
/// these that fails is told, with the path.
pub proof fn law_refused_directories_are_told_why(
    abs: Seq<char>,
    exists: bool,
    is_dir: bool,
    readable: bool,
)
    ensures
        dir_refusal(abs, exists, is_dir, readable) is None <==> exists && is_dir && readable,
        dir_refusal(abs, exists, is_dir, readable) matches Some(w) ==> occurs_in(w, abs),
        !exists ==> (dir_refusal(abs, exists, is_dir, readable) matches Some(w) && occurs_in(
            w,
            "' does not exist"@,
        )),
        exists && !is_dir ==> (dir_refusal(abs, exists, is_dir, readable) matches Some(w)
            && occurs_in(w, "' is not a directory"@)),
        exists && is_dir && !readable ==> (dir_refusal(abs, exists, is_dir, readable) matches Some(w)
            && occurs_in(w, "' is not readable"@)),
{
    let none = Seq::<char>::empty();
    let a = "directory '"@;
    lemma_stands_between(a, abs, "' does not exist"@);
    lemma_stands_between("'"@, abs, "' is not a directory"@);
    lemma_stands_between(a, abs, "' is not readable"@);
    lemma_stands_between(a + abs, "' does not exist"@, none);
    lemma_stands_between("'"@ + abs, "' is not a directory"@, none);
    lemma_stands_between(a + abs, "' is not readable"@, none);
    assert(a + abs + "' does not exist"@ + none =~= a + abs + "' does not exist"@);
    assert("'"@ + abs + "' is not a directory"@ + none =~= "'"@ + abs + "' is not a directory"@);
    assert(a + abs + "' is not readable"@ + none =~= a + abs + "' is not readable"@);
}

/// A port that is asked for is used, but for 0; an origin of our own needs none, one that
/// is not ours does.
pub proof fn law_asked_ports_are_used(p: u16)
    ensures
        p != 0 ==> static_choice(Some(p)) == Some(PortChoice::Explicit(p)),
        static_choice(Some(0u16)) is None,
        static_choice(None) == Some(PortChoice::Allocate),
        p != 0 ==> fronted(Some(p)) == Ok::<u16, Seq<char>>(p),
        fronted(Some(0u16)) is Err && fronted(None) is Err,
        fronted(Some(0u16)) != fronted(None),
        taken_words(p, true) is None,
        taken_words(p, false) matches Some(w) && occurs_in(w, decimal(p as nat)),
{
    reveal_strlit("port 0 is reserved; pass an explicit port (1-65535)");
    reveal_strlit("a proxy or run service needs an explicit port to front");
    assert("port 0 is reserved; pass an explicit port (1-65535)"@[0]
        != "a proxy or run service needs an explicit port to front"@[0]);
    lemma_stands_between("port "@, decimal(p as nat), " is already in use"@);
}

/// A look settles the matter by what it shows: the URL of the entry starts the service
/// whatever became of the worker since, an unreadable registry is told as such, and only
/// a live worker without its URL is waited for.
pub proof fn law_only_live_workers_are_waited_for(s: Snapshot, alive: bool)
    ensures
        polled(Snapshot::Entry { has_url: true, worker_alive: alive }) is Started,
        polled(s) is Started ==> (s matches Snapshot::Entry { has_url, .. } && has_url),
        polled(s) is Unreadable <==> s is Unreadable,
        polled(s) is Again <==> s == (Snapshot::Unchanged { worker_alive: true }) || s == (
        Snapshot::Entry { has_url: false, worker_alive: true }),
{
}

/// Waiting ends after thirty seconds, and not before.
pub proof fn law_waiting_takes_thirty_seconds(waited_ms: u64)
    ensures
        expired(waited_ms) <==> waited_ms >= 30 * 1000,
{
}

/// What is told of a failed start names the service and ends with the reason.
pub proof fn law_failures_end_with_the_reason(name: Seq<char>, reason: Seq<char>)
    ensures
        occurs_in(failed_words(name, reason), name),
        reason.is_suffix_of(failed_words(name, reason)),
        reason.is_suffix_of(timeout_words(reason)),
        failed_words(name, reason) != timeout_words(reason),
{
    let a = "worker for '"@;
    let b = "' exited before the tunnel came up"@;
    lemma_stands_between(a, name, b + reason);
    assert(failed_words(name, reason) =~= a + name + (b + reason));
    reveal_strlit("worker for '");
    reveal_strlit("timed out waiting for the tunnel URL");
    assert(failed_words(name, reason)[0] == 'w');
    assert(timeout_words(reason)[0] == 't');
}

/// The line that is told is the last that is not blank, without the white space around
/// it; nothing is told exactly where every line is blank.
pub proof fn law_last_filled_line_is_told(parts: Seq<Seq<char>>, n: nat)
    requires
        n <= parts.len(),
    ensures
        last_filled(parts, n) is None <==> forall|k: int|
            0 <= k < n ==> trim(#[trigger] parts[k]).len() == 0,
        last_filled(parts, n) matches Some(l) ==> l.len() > 0 && exists|k: int|
            0 <= k < n && trim(#[trigger] parts[k]) == l && forall|j: int|
                k < j < n ==> trim(#[trigger] parts[j]).len() == 0,
    decreases n,
{
    if n > 0 {
        law_last_filled_line_is_told(parts, (n - 1) as nat);
        if trim(parts[n - 1]).len() == 0 {
            if last_filled(parts, (n - 1) as nat) is Some {
                let l = last_filled(parts, (n - 1) as nat)->0;
                let k = choose|k: int|
                    0 <= k < n - 1 && trim(#[trigger] parts[k]) == l && forall|j: int|
                        k < j < n - 1 ==> trim(#[trigger] parts[j]).len() == 0;
                assert(trim(parts[k]) == l);
                assert forall|j: int| k < j < n implies trim(#[trigger] parts[j]).len() == 0 by {}
            }
        } else {
            assert(trim(parts[n - 1]).len() > 0);
        }
    }
}

/// Of a text that begins in the middle of a line only that line is left off; one without
/// a line feed is all that there is.
pub proof fn law_only_a_partial_line_is_left_off(line: Seq<char>, rest: Seq<char>)
    requires
        !line.contains('\n'),
    ensures
        whole_lines(line + seq!['\n'] + rest) == rest,
        whole_lines(line) == line,
        last_line_of(line + seq!['\n'] + rest, true) == last_line_of(rest, false),
{
    let text = line + seq!['\n'] + rest;
    let n = line.len() as int;
    assert forall|k: int| 0 <= k < n implies #[trigger] text[k] != '\n' by {
        assert(line.contains(line[k]));
    }
    lemma_index_at(text, '\n', 0, n);
    assert(text.subrange(n + 1, text.len() as int) =~= rest);
    assert forall|k: int| 0 <= k < n implies #[trigger] line[k] != '\n' by {
        assert(line.contains(line[k]));
    }
    lemma_index_at(line, '\n', 0, n);
}

/// What is looked at of a log is its end: all of a short one, and of a long one the last
/// sixteen kibibytes.
pub proof fn law_looked_at_part_is_the_end(len: int)
    requires
        0 <= len,
    ensures
        0 <= reason_start(len) <= len,
        len <= 16 * 1024 ==> reason_start(len) == 0,
        len > 16 * 1024 ==> len - reason_start(len) == 16 * 1024,
{
}

/// The first line that there is is added, on a line of its own; without one nothing is.
pub proof fn law_first_line_is_the_reason(first: Seq<char>, second: Option<Seq<char>>)
    ensures
        reason(Some(first), second) == reason(None, Some(first)),
        reason(Some(first), second) == ":\n  "@ + first,
        reason(None, None).len() == 0,
{
}

} // verus!

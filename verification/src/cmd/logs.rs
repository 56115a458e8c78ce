//! The `logs` command: the end of a log, and following one that grows.

use vstd::prelude::*;
use vstd::string::*;
use vstd::utf8::*;

use crate::bytes::{bytes_between, lossy, lossy_text};
use crate::text::{
    chars_of, concat3, law_joined_texts_split_apart, lemma_split_parts, lemma_stands_between,
    occurs_in, split, text_between, text_split, texts,
};

verus! {

/// How many lines of a log are shown.
pub const TAIL_LINES: usize = 40;

/// How often a followed log is looked at, in milliseconds.
pub const FOLLOW_INTERVAL_MS: u64 = 500;

/// How much of a log is held in memory, in bytes.
pub const READ_CAP: usize = 65_536;

// ---------------------------------------------------------------------------
// Lines
// ---------------------------------------------------------------------------

/// The line without the carriage return at its end.
pub open spec fn without_return(line: Seq<char>) -> Seq<char> {
    if line.len() > 0 && line.last() == '\r' {
        line.drop_last()
    } else {
        line
    }
}

/// The lines that the parts between line feeds make: the last part is no line
/// where it is empty, and only a line feed takes a carriage return with it.
pub open spec fn lines_of_parts(parts: Seq<Seq<char>>) -> Seq<Seq<char>> {
    let ended = Seq::new((parts.len() - 1) as nat, |i: int| without_return(parts[i]));
    if parts.last().len() > 0 {
        ended.push(parts.last())
    } else {
        ended
    }
}

/// The lines of a text. A line ends with a line feed, or a carriage return and a
/// line feed; the last one need not.
pub open spec fn lines(text: Seq<char>) -> Seq<Seq<char>> {
    lines_of_parts(split(text, '\n'))
}

/// The line without the carriage return at its end.
fn drop_return(line: &str) -> (r: String)
    ensures
        r@ == without_return(line@),
{
    let cs = chars_of(line);
    let n: usize = cs.len();
    if n > 0 && cs[n - 1] == '\r' {
        let r = text_between(&cs, 0, n - 1);
        assert(cs@.subrange(0, n - 1) =~= cs@.drop_last());
        r
    } else {
        line.to_owned()
    }
}

/// The lines of a text.
pub fn text_lines(text: &str) -> (r: Vec<String>)
    ensures
        texts(r@) == lines(text@),
{
    let parts = text_split(text, '\n');
    let ghost ps = split(text@, '\n');
    proof {
        lemma_split_parts(text@, '\n', 0);
        assert(texts(parts@).len() == parts@.len());
    }
    let last: usize = parts.len() - 1;
    let mut out: Vec<String> = Vec::new();
    let mut i: usize = 0;
    while i < last
        invariant
            i <= last,
            last == parts@.len() - 1,
            texts(parts@) == ps,
            texts(out@) == Seq::new(i as nat, |k: int| without_return(ps[k])),
        decreases last - i,
    {
        let ghost before = out@;
        let line = drop_return(parts[i].as_str());
        assert(ps[i as int] == parts@[i as int]@);
        out.push(line);
        assert(texts(out@) =~= texts(before).push(line@));
        assert(texts(out@) =~= Seq::new((i + 1) as nat, |k: int| without_return(ps[k])));
        i = i + 1;
    }
    assert(ps.last() == parts@[last as int]@);
    if !parts[last].as_str().is_empty() {
        let ghost before = out@;
        let line = parts[last].clone();
        out.push(line);
        assert(texts(out@) =~= texts(before).push(line@));
    }
    out
}

// ---------------------------------------------------------------------------
// The end of a log
// ---------------------------------------------------------------------------

/// The line above the end of a log.
pub open spec fn header_words(label: Seq<char>) -> Seq<char> {
    "--- "@ + label + " ---"@
}

/// What stands for a log that is not there yet.
pub open spec fn missing_words(label: Seq<char>) -> Seq<char> {
    "  (no "@ + label + ".log yet)"@
}

/// Where the end of a log that is read begins.
pub open spec fn tail_start(len: int) -> int {
    if len > READ_CAP {
        len - READ_CAP
    } else {
        0
    }
}

/// The line above the end of a log.
pub fn tail_header(label: &str) -> (r: String)
    ensures
        r@ == header_words(label@),
{
    concat3("--- ", label, " ---")
}

/// What stands for a log that is not there yet.
pub fn no_log_yet(label: &str) -> (r: String)
    ensures
        r@ == missing_words(label@),
{
    concat3("  (no ", label, ".log yet)")
}

/// Where the end of a log that is read begins.
pub fn tail_offset(len: u64) -> (r: u64)
    ensures
        r == tail_start(len as int),
{
    if len > READ_CAP as u64 {
        len - READ_CAP as u64
    } else {
        0
    }
}

/// The last lines of a text, as many as are shown.
pub open spec fn tail(text: Seq<char>) -> Seq<Seq<char>> {
    let all = lines(text);
    if all.len() > TAIL_LINES {
        all.skip(all.len() - TAIL_LINES)
    } else {
        all
    }
}

/// The last lines of a text, as many as are shown.
pub fn tail_lines(text: &str) -> (r: Vec<String>)
    ensures
        texts(r@) == tail(text@),
{
    let all = text_lines(text);
    assert(texts(all@).len() == all@.len());
    let from: usize = if all.len() > TAIL_LINES {
        all.len() - TAIL_LINES
    } else {
        0
    };
    let mut out: Vec<String> = Vec::new();
    let mut i: usize = from;
    while i < all.len()
        invariant
            from <= i <= all@.len(),
            texts(out@) == texts(all@).subrange(from as int, i as int),
        decreases all@.len() - i,
    {
        let ghost before = out@;
        let line = all[i].clone();
        out.push(line);
        assert(texts(out@) =~= texts(before).push(texts(all@)[i as int]));
        assert(texts(all@).subrange(from as int, i + 1) =~= texts(all@).subrange(
            from as int,
            i as int,
        ).push(texts(all@)[i as int]));
        i = i + 1;
    }
    assert(texts(all@).subrange(from as int, all@.len() as int) =~= tail(text@));
    out
}

/// The lines that are shown of a log, given the bytes of its end.
pub fn print_tail(bytes: &[u8]) -> (r: Vec<String>)
    ensures
        texts(r@) == tail(lossy(bytes@)),
{
    tail_lines(lossy_text(bytes).as_str())
}

// ---------------------------------------------------------------------------
// Following a log
// ---------------------------------------------------------------------------

/// The position behind the last line feed among the first `n` bytes, or 0.
pub open spec fn after_last_feed(b: Seq<u8>, n: nat) -> nat
    decreases n,
{
    if n == 0 {
        0
    } else if b[n - 1] == 10 {
        n
    } else {
        after_last_feed(b, (n - 1) as nat)
    }
}

/// What a look at a followed log comes to: the bytes that are shown and the bytes
/// that are carried over, given those carried over before and those that were
/// appended.
pub open spec fn drained(carried: Seq<u8>, appended: Seq<u8>) -> (Seq<u8>, Seq<u8>) {
    let all = carried + appended;
    let p = after_last_feed(all, all.len());
    (all.take(p as int), all.skip(p as int))
}

/// How many bytes a character takes that begins with the byte.
pub open spec fn char_width(b: u8) -> nat {
    if is_leading_byte_width_2(b) {
        2
    } else if is_leading_byte_width_3(b) {
        3
    } else if is_leading_byte_width_4(b) {
        4
    } else {
        1
    }
}

/// Where the last character that begins among the first `n` bytes begins.
pub open spec fn last_start(b: Seq<u8>, n: nat) -> nat
    decreases n,
{
    if n == 0 {
        0
    } else if n == 1 || !is_continuation_byte(b[n - 1]) {
        (n - 1) as nat
    } else {
        last_start(b, (n - 1) as nat)
    }
}

/// How many of the bytes make whole characters: all of them, but for the beginning of
/// a character whose end is missing.
pub open spec fn whole_chars(b: Seq<u8>) -> nat {
    let i = last_start(b, b.len());
    if b.len() > 0 && i + char_width(b[i as int]) > b.len() {
        i
    } else {
        b.len()
    }
}

/// What a line that fills all the room there is comes to: the bytes that are shown
/// and the bytes that are carried over.
pub open spec fn flushed(b: Seq<u8>) -> (Seq<u8>, Seq<u8>) {
    (b.take(whole_chars(b) as int), b.skip(whole_chars(b) as int))
}

/// What makes room for more: the bytes that are shown and the bytes that are carried
/// over.
pub open spec fn made_room(carried: Seq<u8>) -> (Seq<u8>, Seq<u8>) {
    if carried.len() >= READ_CAP {
        flushed(carried)
    } else {
        (Seq::empty(), carried)
    }
}

/// How many bytes are read where those are carried over.
pub open spec fn room_beside(carried: Seq<u8>) -> int {
    READ_CAP - carried.len()
}

/// How many of the bytes make whole characters.
fn count_whole(b: &Vec<u8>) -> (r: usize)
    ensures
        r == whole_chars(b@),
        r <= b@.len(),
{
    let n: usize = b.len();
    if n == 0 {
        return 0;
    }
    let mut k: usize = n;
    while k > 1 && 0x80 <= b[k - 1] && b[k - 1] <= 0xbf
        invariant
            1 <= k <= n,
            n == b@.len(),
            last_start(b@, n as nat) == last_start(b@, k as nat),
        decreases k,
    {
        k = k - 1;
    }
    let i: usize = k - 1;
    let lead: u8 = b[i];
    let width: usize = if 0xc0 <= lead && lead <= 0xdf {
        2
    } else if 0xe0 <= lead && lead <= 0xef {
        3
    } else if 0xf0 <= lead && lead <= 0xf7 {
        4
    } else {
        1
    };
    if width > n - i {
        i
    } else {
        n
    }
}

/// The lines that bytes are shown as.
pub open spec fn shown_lines(bytes: Seq<u8>) -> Seq<Seq<char>> {
    if bytes.len() == 0 {
        Seq::empty()
    } else {
        lines(lossy(bytes))
    }
}

/// The lines that bytes are shown as.
pub fn flush_text(bytes: &[u8]) -> (r: Vec<String>)
    ensures
        texts(r@) == shown_lines(bytes@),
{
    if bytes.len() == 0 {
        let r: Vec<String> = Vec::new();
        assert(texts(r@) =~= Seq::<Seq<char>>::empty());
        return r;
    }
    text_lines(lossy_text(bytes).as_str())
}

/// A log that is followed. What is carried over is the beginning of a line whose
/// end has not been written yet.
#[derive(Debug)]
pub struct Follower {
    /// The bytes of the line that has not ended.
    pub leftover: Vec<u8>,
}

impl Follower {
    /// A log that is followed from its end on.
    pub fn new() -> (r: Follower)
        ensures
            r.leftover@.len() == 0,
    {
        Follower { leftover: Vec::new() }
    }

    /// How many bytes are read next, and what is shown before that. A line that
    /// fills all the room there is is shown up to its last whole character.
    pub fn make_room(&mut self) -> (r: (usize, Vec<String>))
        ensures
            texts(r.1@) == shown_lines(made_room(old(self).leftover@).0),
            final(self).leftover@ == made_room(old(self).leftover@).1,
            old(self).leftover@.len() < READ_CAP ==> r.1@.len() == 0 && *final(self) == *old(self),
            r.0 == room_beside(final(self).leftover@),
            r.0 > 0,
    {
        if self.leftover.len() >= READ_CAP {
            let n: usize = count_whole(&self.leftover);
            let head = bytes_between(self.leftover.as_slice(), 0, n);
            let rest = bytes_between(self.leftover.as_slice(), n, self.leftover.len());
            assert(head@ =~= self.leftover@.take(n as int));
            assert(rest@ =~= self.leftover@.skip(n as int));
            proof {
                law_flushing_leaves_little(self.leftover@);
            }
            self.leftover = rest;
            let shown = flush_text(head.as_slice());
            return (READ_CAP - self.leftover.len(), shown);
        }
        let shown: Vec<String> = Vec::new();
        assert(texts(shown@) =~= Seq::<Seq<char>>::empty());
        (READ_CAP - self.leftover.len(), shown)
    }

    /// What is shown of the bytes that were appended: every line that has ended.
    /// The rest is carried over.
    pub fn drain_appended(&mut self, appended: &[u8]) -> (r: Vec<String>)
        ensures
            texts(r@) == shown_lines(drained(old(self).leftover@, appended@).0),
            final(self).leftover@ == drained(old(self).leftover@, appended@).1,
    {
        let mut all: Vec<u8> = self.leftover.clone();
        assert(all@ =~= self.leftover@);
        all.extend_from_slice(appended);
        assert(all@ =~= self.leftover@ + appended@);
        let mut p: usize = all.len();
        while p > 0 && all[p - 1] != 10
            invariant
                p <= all@.len(),
                after_last_feed(all@, all@.len()) == after_last_feed(all@, p as nat),
            decreases p,
        {
            p = p - 1;
        }
        let head = bytes_between(all.as_slice(), 0, p);
        let rest = bytes_between(all.as_slice(), p, all.len());
        assert(head@ =~= all@.take(p as int));
        assert(rest@ =~= all@.skip(p as int));
        self.leftover = rest;
        flush_text(head.as_slice())
    }
}

/// The end of the log was reached.
pub open spec fn at_end(read: usize, room: usize) -> bool {
    read < room
}

/// Whether the end of the log was reached: fewer bytes came than there was room
/// for.
pub fn caught_up(read: usize, room: usize) -> (r: bool)
    ensures
        r == at_end(read, room),
{
    read < room
}

// ---------------------------------------------------------------------------
// Laws
// ---------------------------------------------------------------------------

/// What [`after_last_feed`] says of the bytes that it passes.
proof fn lemma_after_last_feed(b: Seq<u8>, n: nat)
    requires
        n <= b.len(),
    ensures
        after_last_feed(b, n) <= n,
        after_last_feed(b, n) > 0 ==> b[after_last_feed(b, n) - 1] == 10,
        forall|i: int| after_last_feed(b, n) <= i < n ==> b[i] != 10,
    decreases n,
{
    if n > 0 && b[n - 1] != 10 {
        lemma_after_last_feed(b, (n - 1) as nat);
    }
}

/// Behind a character another one begins.
proof fn lemma_boundary_after(b: Seq<u8>, i: int)
    requires
        valid_utf8(b),
        0 <= i < b.len(),
        is_char_boundary(b, i),
    ensures
        is_char_boundary(b, i + char_width(b[i])),
    decreases b.len(),
{
    let n = length_of_first_scalar(b);
    if i == 0 {
        assert(n == char_width(b[0]));
        assert(is_char_boundary(pop_first_scalar(b), 0));
    } else {
        assert(is_char_boundary(pop_first_scalar(b), i - n));
        assert(i >= n);
        lemma_boundary_after(pop_first_scalar(b), i - n);
    }
}

/// What [`last_start`] says of the bytes that it passes.
proof fn lemma_last_start(b: Seq<u8>, n: nat)
    requires
        0 < n <= b.len(),
    ensures
        last_start(b, n) < n,
        last_start(b, n) > 0 ==> !is_continuation_byte(b[last_start(b, n) as int]),
        forall|k: int| last_start(b, n) < k < n ==> is_continuation_byte(#[trigger] b[k]),
    decreases n,
{
    if n > 1 && is_continuation_byte(b[n - 1]) {
        lemma_last_start(b, (n - 1) as nat);
    }
}

/// A look at a followed log loses no byte and repeats none; what is shown ends
/// with a line feed, so no line is cut in two; and what is carried over holds no
/// line that has ended.
pub proof fn law_following_loses_nothing(carried: Seq<u8>, appended: Seq<u8>)
    ensures
        drained(carried, appended).0 + drained(carried, appended).1 == carried + appended,
        drained(carried, appended).0.len() > 0 ==> drained(carried, appended).0.last() == 10,
        !drained(carried, appended).1.contains(10),
{
    let all = carried + appended;
    lemma_after_last_feed(all, all.len());
    let p = after_last_feed(all, all.len());
    assert(all.take(p as int) + all.skip(p as int) =~= all);
    let rest = all.skip(p as int);
    if rest.contains(10) {
        let i = choose|i: int| 0 <= i < rest.len() && rest[i] == 10;
        assert(rest[i] == all[p + i]);
    }
}

/// No character is cut in two: where a log holds text, what is shown of its
/// beginning is text, what follows is text again, and reading the two one after the
/// other is reading the whole.
pub proof fn law_following_cuts_no_character(
    log: Seq<u8>,
    carried: Seq<u8>,
    appended: Seq<u8>,
)
    requires
        valid_utf8(log),
        (carried + appended).is_prefix_of(log),
    ensures
        valid_utf8(drained(carried, appended).0),
        valid_utf8(log.skip(drained(carried, appended).0.len() as int)),
        decode_utf8(log) == decode_utf8(drained(carried, appended).0) + decode_utf8(
            log.skip(drained(carried, appended).0.len() as int),
        ),
{
    let all = carried + appended;
    lemma_after_last_feed(all, all.len());
    let p = after_last_feed(all, all.len()) as int;
    let head = drained(carried, appended).0;
    assert(head =~= log.subrange(0, p));
    assert(log.skip(p) =~= log.subrange(p, log.len() as int));
    if p > 0 {
        assert(log[p - 1] == 10);
        is_char_boundary_iff_not_is_continuation_byte(log, p - 1);
        lemma_boundary_after(log, p - 1);
    } else {
        is_char_boundary_start_end_of_seq(log);
    }
    valid_utf8_split(log, p);
    decode_utf8_split(log, p);
}

/// Showing a line that fills the room loses no byte and repeats none, and leaves fewer
/// than four bytes: less than a character.
pub proof fn law_flushing_leaves_little(b: Seq<u8>)
    ensures
        flushed(b).0 + flushed(b).1 == b,
        flushed(b).1.len() < 4,
{
    if b.len() > 0 {
        lemma_last_start(b, b.len());
    }
    assert(b.take(whole_chars(b) as int) + b.skip(whole_chars(b) as int) =~= b);
}

/// Showing a line that fills the room cuts no character in two either: where a log
/// holds text, what is shown of its beginning is text, what follows is text again,
/// and reading the two one after the other is reading the whole.
pub proof fn law_flushing_cuts_no_character(log: Seq<u8>, carried: Seq<u8>)
    requires
        valid_utf8(log),
        carried.is_prefix_of(log),
    ensures
        valid_utf8(flushed(carried).0),
        valid_utf8(log.skip(flushed(carried).0.len() as int)),
        decode_utf8(log) == decode_utf8(flushed(carried).0) + decode_utf8(
            log.skip(flushed(carried).0.len() as int),
        ),
{
    let n = carried.len() as int;
    let p = whole_chars(carried) as int;
    is_char_boundary_start_end_of_seq(log);
    if n > 0 {
        lemma_last_start(carried, carried.len());
        let i = last_start(carried, carried.len()) as int;
        assert(log[i] == carried[i]);
        is_char_boundary_iff_not_is_continuation_byte(log, i);
        lemma_boundary_after(log, i);
        let e = i + char_width(log[i]);
        if e < n {
            assert(is_continuation_byte(carried[e]));
            assert(log[e] == carried[e]);
            is_char_boundary_iff_not_is_continuation_byte(log, e);
        }
        assert(is_char_boundary(log, p));
    }
    assert(flushed(carried).0 =~= log.subrange(0, p));
    assert(log.skip(p) =~= log.subrange(p, log.len() as int));
    valid_utf8_split(log, p);
    decode_utf8_split(log, p);
}

/// What is carried over never outgrows the room there is, as long as no more is
/// read than there is room for.
pub proof fn law_following_is_bounded(carried: Seq<u8>, appended: Seq<u8>)
    requires
        carried.len() + appended.len() <= READ_CAP,
    ensures
        drained(carried, appended).1.len() <= READ_CAP,
{
    lemma_after_last_feed(carried + appended, (carried + appended).len());
}

/// No more lines are shown than were asked for, and they are the last ones.
pub proof fn law_tail_is_the_end(text: Seq<char>)
    ensures
        tail(text).len() <= TAIL_LINES,
        tail(text).is_suffix_of(lines(text)),
{
}

/// Text that ends with a line feed is its lines one after the other: what stands before
/// the first line feed is the first line, and the rest gives the others. A last line
/// needs no line feed, and nothing is no line.
pub proof fn law_lines_end_with_line_feeds(line: Seq<char>, rest: Seq<char>)
    requires
        !line.contains('\n'),
    ensures
        lines(line + seq!['\n'] + rest) == seq![without_return(line)] + lines(rest),
        line.len() > 0 ==> lines(line) == seq![line],
        lines(Seq::empty()) == Seq::<Seq<char>>::empty(),
{
    law_joined_texts_split_apart(line, rest, line, '\n');
    law_joined_texts_split_apart(line, rest, Seq::<char>::empty(), '\n');
    lemma_split_parts(rest, '\n', 0);
    let parts = split(rest, '\n');
    let whole = split(line + seq!['\n'] + rest, '\n');
    assert(whole == seq![line] + parts);
    assert(whole.last() == parts.last());
    assert(lines(line + seq!['\n'] + rest) =~= seq![without_return(line)] + lines(rest));
    assert(lines(line) =~= if line.len() > 0 {
        seq![line]
    } else {
        Seq::empty()
    });
    assert(lines(Seq::<char>::empty()) =~= Seq::<Seq<char>>::empty());
}

/// Only a carriage return at the end of a line is left off, and only one.
pub proof fn law_one_return_is_left_off(line: Seq<char>)
    ensures
        without_return(line.push('\r')) == line,
        line.len() == 0 || line.last() != '\r' ==> without_return(line) == line,
{
    assert(line.push('\r').drop_last() =~= line);
}

/// The shown end of a log is its last forty lines, or all where it has no more.
pub proof fn law_tail_is_as_long_as_it_can_be(text: Seq<char>)
    ensures
        lines(text).len() <= 40 ==> tail(text) == lines(text),
        lines(text).len() > 40 ==> tail(text) == lines(text).subrange(
            lines(text).len() - 40,
            lines(text).len() as int,
        ),
{
    if lines(text).len() > 40 {
        assert(tail(text) =~= lines(text).subrange(
            lines(text).len() - 40,
            lines(text).len() as int,
        ));
    }
}

/// What is read of a log is its end: all of a short one, and of a long one as much as is
/// held in memory.
pub proof fn law_read_part_is_the_end(len: int)
    requires
        0 <= len,
    ensures
        0 <= tail_start(len) <= len,
        len <= 65_536 ==> tail_start(len) == 0,
        len > 65_536 ==> len - tail_start(len) == 65_536,
{
}

/// The two lines around a log name it.
pub proof fn law_logs_are_named(label: Seq<char>)
    ensures
        occurs_in(header_words(label), label),
        occurs_in(missing_words(label), label + ".log"@),
        header_words(label) != missing_words(label),
{
    lemma_stands_between("--- "@, label, " ---"@);
    assert(".log yet)"@ == ".log"@ + " yet)"@) by {
        reveal_strlit(".log yet)");
        reveal_strlit(".log");
        reveal_strlit(" yet)");
    }
    lemma_stands_between("  (no "@, label + ".log"@, " yet)"@);
    assert(missing_words(label) =~= "  (no "@ + (label + ".log"@) + " yet)"@);
    reveal_strlit("--- ");
    reveal_strlit("  (no ");
    assert(header_words(label)[0] == '-');
    assert(missing_words(label)[0] == ' ');
}

/// Making room loses no byte, shows nothing as long as there is some, and always leaves
/// some; what is carried over and what is read fill what is held in memory.
pub proof fn law_there_is_always_room(carried: Seq<u8>)
    ensures
        made_room(carried).0 + made_room(carried).1 == carried,
        carried.len() < 65_536 ==> made_room(carried).0.len() == 0,
        made_room(carried).1.len() < 65_536,
        room_beside(made_room(carried).1) > 0,
        made_room(carried).1.len() + room_beside(made_room(carried).1) == 65_536,
{
    law_flushing_leaves_little(carried);
    assert(Seq::<u8>::empty() + carried =~= carried);
}

/// A line that fills the room and ends with a whole character is shown whole.
pub proof fn law_whole_characters_are_shown(b: Seq<u8>)
    requires
        valid_utf8(b),
    ensures
        flushed(b) == (b, Seq::<u8>::empty()),
{
    if b.len() > 0 {
        lemma_last_start(b, b.len());
        let i = last_start(b, b.len()) as int;
        is_char_boundary_start_end_of_seq(b);
        is_char_boundary_iff_not_is_continuation_byte(b, i);
        lemma_boundary_after(b, i);
    }
    assert(b.take(b.len() as int) =~= b);
    assert(b.skip(b.len() as int) =~= Seq::<u8>::empty());
}

/// The end of a log is reached exactly where less came than there was room for.
pub proof fn law_a_full_read_may_not_be_the_end(read: usize, room: usize)
    requires
        read <= room,
    ensures
        at_end(read, room) <==> read != room,
{
}

/// Bytes are shown as the lines of the text that they hold, and no bytes as none.
pub proof fn law_bytes_are_shown_as_their_lines(bytes: Seq<u8>)
    ensures
        shown_lines(Seq::empty()).len() == 0,
        bytes.len() > 0 ==> shown_lines(bytes) == lines(lossy(bytes)),
{
}

} // verus!

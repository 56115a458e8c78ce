//! Text as sequences of characters: searching, splitting, trimming, ordering
//! and the decimal numerals.
//!
//! Contracts speak of a text by its view, a `Seq<char>`; executable code works
//! on a `Vec<char>` where it needs an index.

use vstd::prelude::*;
use vstd::string::*;

verus! {

/// `String::push` appends one character.
pub assume_specification[ String::push ](s: &mut String, c: char)
    ensures
        final(s)@ == old(s)@.push(c),
;

/// The views of a list of texts.
pub open spec fn texts(v: Seq<String>) -> Seq<Seq<char>> {
    Seq::new(v.len(), |i: int| v[i]@)
}

/// The view of an optional text.
pub open spec fn opt_text(o: Option<String>) -> Option<Seq<char>> {
    match o {
        Some(s) => Some(s@),
        None => None,
    }
}

/// The view of an optional borrowed text.
pub open spec fn opt_str(o: Option<&str>) -> Option<Seq<char>> {
    match o {
        Some(s) => Some(s@),
        None => None,
    }
}

/// The characters of `s`, in order.
pub fn chars_of(s: &str) -> (r: Vec<char>)
    ensures
        r@ == s@,
{
    let mut out: Vec<char> = Vec::new();
    for c in it: s.chars()
        invariant
            it.seq() == s@,
            out@ == s@.take(it.index() as int),
    {
        proof {
            let i = it.index() as int;
            assert(s@.take(i + 1) =~= s@.take(i).push(s@[i]));
        }
        out.push(c);
    }
    assert(s@.take(s@.len() as int) =~= s@);
    out
}

/// The text that `cs[from..to]` spells.
pub fn text_between(cs: &Vec<char>, from: usize, to: usize) -> (r: String)
    requires
        from <= to <= cs@.len(),
    ensures
        r@ == cs@.subrange(from as int, to as int),
{
    let mut out = String::new();
    let mut i: usize = from;
    while i < to
        invariant
            from <= i <= to <= cs@.len(),
            out@ == cs@.subrange(from as int, i as int),
        decreases to - i,
    {
        out.push(cs[i]);
        assert(cs@.subrange(from as int, i + 1) =~= cs@.subrange(from as int, i as int).push(
            cs@[i as int],
        ));
        i = i + 1;
    }
    out
}

/// Two texts behind one another.
pub fn concat2(a: &str, b: &str) -> (r: String)
    ensures
        r@ == a@ + b@,
{
    let mut out = a.to_owned();
    out.append(b);
    out
}

/// Three texts behind one another.
pub fn concat3(a: &str, b: &str, c: &str) -> (r: String)
    ensures
        r@ == a@ + b@ + c@,
{
    let mut out = concat2(a, b);
    out.append(c);
    out
}

/// Four texts behind one another.
pub fn concat4(a: &str, b: &str, c: &str, d: &str) -> (r: String)
    ensures
        r@ == a@ + b@ + c@ + d@,
{
    let mut out = concat3(a, b, c);
    out.append(d);
    out
}

/// Five texts behind one another.
pub fn concat5(a: &str, b: &str, c: &str, d: &str, e: &str) -> (r: String)
    ensures
        r@ == a@ + b@ + c@ + d@ + e@,
{
    let mut out = concat4(a, b, c, d);
    out.append(e);
    out
}

/// A copy of an optional text.
pub fn copy_opt(o: &Option<String>) -> (r: Option<String>)
    ensures
        r == *o,
{
    match o {
        Some(s) => Some(s.clone()),
        None => None,
    }
}

/// Whether two texts are the same.
pub fn text_eq(a: &str, b: &str) -> (r: bool)
    ensures
        r == (a@ == b@),
{
    let x = chars_of(a);
    let y = chars_of(b);
    if x.len() != y.len() {
        return false;
    }
    let mut i: usize = 0;
    while i < x.len()
        invariant
            x@ == a@,
            y@ == b@,
            x@.len() == y@.len(),
            i <= x@.len(),
            forall|k: int| 0 <= k < i ==> a@[k] == b@[k],
        decreases x@.len() - i,
    {
        if x[i] != y[i] {
            return false;
        }
        i = i + 1;
    }
    assert(a@ =~= b@);
    true
}

// ---------------------------------------------------------------------------
// Character classes
// ---------------------------------------------------------------------------

/// The characters with the Unicode property `White_Space`.
pub open spec fn is_white(c: char) -> bool {
    let n = c as u32;
    ||| 0x09 <= n <= 0x0d
    ||| n == 0x20
    ||| n == 0x85
    ||| n == 0xa0
    ||| n == 0x1680
    ||| 0x2000 <= n <= 0x200a
    ||| n == 0x2028
    ||| n == 0x2029
    ||| n == 0x202f
    ||| n == 0x205f
    ||| n == 0x3000
}

/// Whether `c` is white space.
pub fn char_is_white(c: char) -> (r: bool)
    ensures
        r == is_white(c),
{
    let n: u32 = c as u32;
    (0x09 <= n && n <= 0x0d) || n == 0x20 || n == 0x85 || n == 0xa0 || n == 0x1680 || (0x2000 <= n
        && n <= 0x200a) || n == 0x2028 || n == 0x2029 || n == 0x202f || n == 0x205f || n == 0x3000
}

/// The control characters: the Unicode general category `Cc`.
pub open spec fn is_control(c: char) -> bool {
    let n = c as u32;
    n <= 0x1f || 0x7f <= n <= 0x9f
}

/// Whether `c` is a control character.
pub fn char_is_control(c: char) -> (r: bool)
    ensures
        r == is_control(c),
{
    let n: u32 = c as u32;
    n <= 0x1f || (0x7f <= n && n <= 0x9f)
}

/// The ASCII digits.
pub open spec fn is_digit(c: char) -> bool {
    0x30 <= (c as u32) <= 0x39
}

/// Whether `c` is an ASCII digit.
pub fn char_is_digit(c: char) -> (r: bool)
    ensures
        r == is_digit(c),
{
    let n: u32 = c as u32;
    0x30 <= n && n <= 0x39
}

/// The ASCII letters.
pub open spec fn is_letter(c: char) -> bool {
    0x41 <= (c as u32) <= 0x5a || 0x61 <= (c as u32) <= 0x7a
}

/// Whether `c` is an ASCII letter.
pub fn char_is_letter(c: char) -> (r: bool)
    ensures
        r == is_letter(c),
{
    let n: u32 = c as u32;
    (0x41 <= n && n <= 0x5a) || (0x61 <= n && n <= 0x7a)
}

/// `c`, with an ASCII capital letter made small.
pub open spec fn lower(c: char) -> char {
    if 0x41 <= (c as u32) <= 0x5a {
        ((c as u32) + 32) as char
    } else {
        c
    }
}

/// Whether two texts are the same up to the case of ASCII letters.
pub open spec fn same_ignoring_case(a: Seq<char>, b: Seq<char>) -> bool {
    a.len() == b.len() && forall|i: int| 0 <= i < a.len() ==> lower(#[trigger] a[i]) == lower(b[i])
}

/// The code point of `c`, with that of an ASCII capital letter made small.
fn lower_code(c: char) -> (r: u32)
    ensures
        r == lower(c) as u32,
{
    let n: u32 = c as u32;
    if 0x41 <= n && n <= 0x5a {
        n + 32
    } else {
        n
    }
}

/// Whether two texts are the same up to the case of ASCII letters.
pub fn text_eq_ignoring_case(a: &str, b: &str) -> (r: bool)
    ensures
        r == same_ignoring_case(a@, b@),
{
    let x = chars_of(a);
    let y = chars_of(b);
    if x.len() != y.len() {
        return false;
    }
    let mut i: usize = 0;
    while i < x.len()
        invariant
            x@ == a@,
            y@ == b@,
            x@.len() == y@.len(),
            i <= x@.len(),
            forall|k: int| 0 <= k < i ==> lower(#[trigger] a@[k]) == lower(b@[k]),
        decreases x@.len() - i,
    {
        if lower_code(x[i]) != lower_code(y[i]) {
            assert(lower(a@[i as int]) != lower(b@[i as int]));
            return false;
        }
        i = i + 1;
    }
    true
}

// ---------------------------------------------------------------------------
// Searching
// ---------------------------------------------------------------------------

/// `needle` stands in `hay` at position `i`.
pub open spec fn occurs_at<T>(hay: Seq<T>, needle: Seq<T>, i: int) -> bool {
    0 <= i && i + needle.len() <= hay.len() && hay.subrange(i, i + needle.len()) == needle
}

/// `needle` stands somewhere in `hay`.
pub open spec fn occurs_in<T>(hay: Seq<T>, needle: Seq<T>) -> bool {
    exists|i: int| #[trigger] occurs_at(hay, needle, i)
}

/// The text starts with `prefix`.
pub open spec fn has_prefix<T>(s: Seq<T>, prefix: Seq<T>) -> bool {
    occurs_at(s, prefix, 0)
}

/// The text ends with `suffix`.
pub open spec fn has_suffix<T>(s: Seq<T>, suffix: Seq<T>) -> bool {
    occurs_at(s, suffix, s.len() - suffix.len())
}

/// Whether `needle` stands in `hay` at position `i`.
pub fn char_occurs_at(hay: &Vec<char>, needle: &Vec<char>, i: usize) -> (r: bool)
    requires
        i <= hay@.len(),
    ensures
        r == occurs_at(hay@, needle@, i as int),
{
    if needle.len() > hay.len() - i {
        return false;
    }
    let mut k: usize = 0;
    while k < needle.len()
        invariant
            k <= needle@.len(),
            i + needle@.len() <= hay.len(),
            forall|m: int| 0 <= m < k ==> hay@[i + m] == needle@[m],
        decreases needle@.len() - k,
    {
        if hay[i + k] != needle[k] {
            assert(hay@.subrange(i as int, i + needle@.len())[k as int] != needle@[k as int]);
            return false;
        }
        k = k + 1;
    }
    assert(hay@.subrange(i as int, i + needle@.len()) =~= needle@);
    true
}

/// Whether `needle` stands somewhere in `hay`.
pub fn text_contains(hay: &str, needle: &str) -> (r: bool)
    ensures
        r == occurs_in(hay@, needle@),
{
    let x = chars_of(hay);
    let y = chars_of(needle);
    let mut i: usize = 0;
    while i < x.len()
        invariant
            x@ == hay@,
            y@ == needle@,
            i <= x@.len(),
            forall|k: int| 0 <= k < i ==> !#[trigger] occurs_at(hay@, needle@, k),
        decreases x@.len() - i,
    {
        if char_occurs_at(&x, &y, i) {
            return true;
        }
        i = i + 1;
    }
    char_occurs_at(&x, &y, x.len())
}

/// The first position from `i` on at which `c` stands, or the length.
pub open spec fn index_from<T>(s: Seq<T>, c: T, i: int) -> int
    decreases s.len() - i,
{
    if i >= s.len() {
        s.len() as int
    } else if s[i] == c {
        i
    } else {
        index_from(s, c, i + 1)
    }
}

/// What [`index_from`] says of every position that it passes.
pub proof fn lemma_index_from<T>(s: Seq<T>, c: T, i: int)
    requires
        0 <= i <= s.len(),
    ensures
        i <= index_from(s, c, i) <= s.len(),
        index_from(s, c, i) < s.len() ==> s[index_from(s, c, i)] == c,
        forall|k: int| i <= k < index_from(s, c, i) ==> s[k] != c,
    decreases s.len() - i,
{
    if i < s.len() && s[i] != c {
        lemma_index_from(s, c, i + 1);
    }
}

/// The first position from `from` on at which `c` stands, or the length.
pub fn char_index_from(s: &Vec<char>, c: char, from: usize) -> (r: usize)
    requires
        from <= s@.len(),
    ensures
        r == index_from(s@, c, from as int),
        from <= r <= s@.len(),
{
    let mut i: usize = from;
    while i < s.len() && s[i] != c
        invariant
            from <= i <= s@.len(),
            index_from(s@, c, from as int) == index_from(s@, c, i as int),
        decreases s@.len() - i,
    {
        i = i + 1;
    }
    i
}

/// The parts of `s` before and after its first `c`.
pub open spec fn split_once<T>(s: Seq<T>, c: T) -> Option<(Seq<T>, Seq<T>)> {
    let i = index_from(s, c, 0);
    if i < s.len() {
        Some((s.subrange(0, i), s.subrange(i + 1, s.len() as int)))
    } else {
        None
    }
}

/// The parts of `s` before and after its first `c`, where there is one.
pub fn text_split_once(s: &str, c: char) -> (r: Option<(String, String)>)
    ensures
        match r {
            Some((a, b)) => split_once(s@, c) == Some((a@, b@)),
            None => split_once(s@, c) is None,
        },
{
    let x = chars_of(s);
    let i: usize = char_index_from(&x, c, 0);
    if i < x.len() {
        Some((text_between(&x, 0, i), text_between(&x, i + 1, x.len())))
    } else {
        None
    }
}

/// The parts between which `c` stands in `s`, from position `i` on.
pub open spec fn split_from<T>(s: Seq<T>, c: T, i: int) -> Seq<Seq<T>>
    decreases s.len() - i,
    when 0 <= i <= s.len()
{
    proof {
        lemma_index_from(s, c, i);
    }
    let j = index_from(s, c, i);
    if j < s.len() {
        seq![s.subrange(i, j)] + split_from(s, c, j + 1)
    } else {
        seq![s.subrange(i, s.len() as int)]
    }
}

/// The parts between which `c` stands in `s`: at least one, and none holds
/// `c`.
pub open spec fn split<T>(s: Seq<T>, c: T) -> Seq<Seq<T>> {
    split_from(s, c, 0)
}

/// The parts between which `c` stands in `s`.
pub fn text_split(s: &str, c: char) -> (r: Vec<String>)
    ensures
        texts(r@) == split(s@, c),
{
    let x = chars_of(s);
    let mut out: Vec<String> = Vec::new();
    let mut i: usize = 0;
    assert(texts(out@) + split_from(s@, c, 0) =~= split_from(s@, c, 0));
    loop
        invariant
            x@ == s@,
            i <= x@.len(),
            texts(out@) + split_from(s@, c, i as int) == split(s@, c),
        decreases x@.len() - i,
    {
        let j: usize = char_index_from(&x, c, i);
        let ghost before = out@;
        if j < x.len() {
            let part = text_between(&x, i, j);
            out.push(part);
            proof {
                assert(texts(out@) =~= texts(before) + seq![s@.subrange(i as int, j as int)]);
                assert(texts(out@) + split_from(s@, c, j + 1) =~= texts(before) + split_from(
                    s@,
                    c,
                    i as int,
                ));
            }
            i = j + 1;
        } else {
            let part = text_between(&x, i, x.len());
            out.push(part);
            assert(texts(out@) =~= texts(before) + split_from(s@, c, i as int));
            return out;
        }
    }
}

/// No part of a split text holds the separator.
pub proof fn lemma_split_parts<T>(s: Seq<T>, c: T, i: int)
    requires
        0 <= i <= s.len(),
    ensures
        split_from(s, c, i).len() >= 1,
        forall|k: int, m: int|
            0 <= k < split_from(s, c, i).len() && 0 <= m < split_from(s, c, i)[k].len() ==> #[trigger] split_from(
                s,
                c,
                i,
            )[k][m] != c,
    decreases s.len() - i,
{
    lemma_index_from(s, c, i);
    let j = index_from(s, c, i);
    if j < s.len() {
        lemma_split_parts(s, c, j + 1);
        let rest = split_from(s, c, j + 1);
        assert forall|k: int, m: int|
            0 <= k < split_from(s, c, i).len() && 0 <= m < split_from(s, c, i)[k].len() implies #[trigger] split_from(
            s,
            c,
            i,
        )[k][m] != c by {
            if k > 0 {
                assert(split_from(s, c, i)[k] == rest[k - 1]);
            }
        }
    }
}

// ---------------------------------------------------------------------------
// Trimming
// ---------------------------------------------------------------------------

/// The first position from `i` on whose character `p` does not hold of.
pub open spec fn skip_while(s: Seq<char>, p: spec_fn(char) -> bool, i: int) -> int
    decreases s.len() - i,
{
    if i < s.len() && p(s[i]) {
        skip_while(s, p, i + 1)
    } else {
        i
    }
}

/// The last position down to `lo` before which a character stands that `p`
/// does not hold of.
pub open spec fn drop_while(s: Seq<char>, p: spec_fn(char) -> bool, lo: int, j: int) -> int
    decreases j - lo,
{
    if lo < j && p(s[j - 1]) {
        drop_while(s, p, lo, j - 1)
    } else {
        j
    }
}

/// What [`skip_while`] says of every position that it passes.
pub proof fn lemma_skip_while(s: Seq<char>, p: spec_fn(char) -> bool, i: int)
    requires
        0 <= i <= s.len(),
    ensures
        i <= skip_while(s, p, i) <= s.len(),
        skip_while(s, p, i) < s.len() ==> !p(s[skip_while(s, p, i)]),
        forall|k: int| i <= k < skip_while(s, p, i) ==> p(s[k]),
    decreases s.len() - i,
{
    if i < s.len() && p(s[i]) {
        lemma_skip_while(s, p, i + 1);
    }
}

/// What [`drop_while`] says of every position that it passes.
pub proof fn lemma_drop_while(s: Seq<char>, p: spec_fn(char) -> bool, lo: int, j: int)
    requires
        0 <= lo <= j <= s.len(),
    ensures
        lo <= drop_while(s, p, lo, j) <= j,
        lo < drop_while(s, p, lo, j) ==> !p(s[drop_while(s, p, lo, j) - 1]),
        forall|k: int| drop_while(s, p, lo, j) <= k < j ==> p(s[k]),
    decreases j - lo,
{
    if lo < j && p(s[j - 1]) {
        lemma_drop_while(s, p, lo, j - 1);
    }
}

/// `s` without the characters at either end that `p` holds of.
pub open spec fn trim_matching(s: Seq<char>, p: spec_fn(char) -> bool) -> Seq<char> {
    let a = skip_while(s, p, 0);
    s.subrange(a, drop_while(s, p, a, s.len() as int))
}

/// White space, as a predicate.
pub open spec fn white() -> spec_fn(char) -> bool {
    |c: char| is_white(c)
}

/// `s` without the white space at either end.
pub open spec fn trim(s: Seq<char>) -> Seq<char> {
    trim_matching(s, white())
}

/// `s` without the white space at either end.
pub fn text_trim(s: &str) -> (r: String)
    ensures
        r@ == trim(s@),
{
    let x = chars_of(s);
    let mut a: usize = 0;
    while a < x.len() && char_is_white(x[a])
        invariant
            x@ == s@,
            a <= x@.len(),
            skip_while(s@, white(), 0) == skip_while(s@, white(), a as int),
        decreases x@.len() - a,
    {
        a = a + 1;
    }
    let mut b: usize = x.len();
    while a < b && char_is_white(x[b - 1])
        invariant
            x@ == s@,
            a <= b <= x@.len(),
            drop_while(s@, white(), a as int, x@.len() as int) == drop_while(
                s@,
                white(),
                a as int,
                b as int,
            ),
        decreases b - a,
    {
        b = b - 1;
    }
    text_between(&x, a, b)
}

/// Being the character `c`, as a predicate.
pub open spec fn only(c: char) -> spec_fn(char) -> bool {
    |d: char| d == c
}

/// `s` without the `c` at its start.
pub open spec fn trim_start_char(s: Seq<char>, c: char) -> Seq<char> {
    s.subrange(skip_while(s, only(c), 0), s.len() as int)
}

/// `s` without the `c` at its start.
pub fn text_trim_start_char(s: &str, c: char) -> (r: String)
    ensures
        r@ == trim_start_char(s@, c),
{
    let x = chars_of(s);
    let mut a: usize = 0;
    while a < x.len() && x[a] == c
        invariant
            x@ == s@,
            a <= x@.len(),
            skip_while(s@, only(c), 0) == skip_while(s@, only(c), a as int),
        decreases x@.len() - a,
    {
        a = a + 1;
    }
    text_between(&x, a, x.len())
}

/// A trimmed text starts and ends with no white space.
pub proof fn lemma_trim_ends(s: Seq<char>)
    ensures
        trim(s).len() > 0 ==> !is_white(trim(s)[0]) && !is_white(trim(s)[trim(s).len() - 1]),
{
    let a = skip_while(s, white(), 0);
    lemma_skip_while(s, white(), 0);
    lemma_drop_while(s, white(), a, s.len() as int);
}

/// A text that neither starts nor ends with white space trims to itself.
pub proof fn lemma_trim_clean(s: Seq<char>)
    requires
        s.len() > 0 ==> !is_white(s[0]) && !is_white(s[s.len() - 1]),
    ensures
        trim(s) == s,
{
    assert(s.subrange(0, s.len() as int) =~= s);
}

// ---------------------------------------------------------------------------
// Ordering
// ---------------------------------------------------------------------------

/// `a` stands no later than `b` in the order of their code points, from
/// position `i` on.
pub open spec fn lex_le_from(a: Seq<char>, b: Seq<char>, i: int) -> bool
    decreases a.len() - i,
{
    if i >= a.len() {
        true
    } else if i >= b.len() {
        false
    } else if a[i] == b[i] {
        lex_le_from(a, b, i + 1)
    } else {
        (a[i] as u32) < (b[i] as u32)
    }
}

/// `a` stands no later than `b` in the order of their code points.
pub open spec fn lex_le(a: Seq<char>, b: Seq<char>) -> bool {
    lex_le_from(a, b, 0)
}

/// Whether `a` stands no later than `b` in the order of their code points.
pub fn text_le(a: &str, b: &str) -> (r: bool)
    ensures
        r == lex_le(a@, b@),
{
    let x = chars_of(a);
    let y = chars_of(b);
    let mut i: usize = 0;
    while i < x.len()
        invariant
            x@ == a@,
            y@ == b@,
            i <= x@.len(),
            lex_le_from(a@, b@, 0) == lex_le_from(a@, b@, i as int),
        decreases x@.len() - i,
    {
        if i >= y.len() {
            return false;
        }
        if x[i] != y[i] {
            return (x[i] as u32) < (y[i] as u32);
        }
        i = i + 1;
    }
    true
}

/// Different characters have different code points.
pub proof fn lemma_char_code(c: char, d: char)
    ensures
        (c as u32) == (d as u32) <==> c == d,
{
}

/// The order of code points is total.
pub proof fn lemma_lex_total(a: Seq<char>, b: Seq<char>, i: int)
    requires
        0 <= i,
    ensures
        lex_le_from(a, b, i) || lex_le_from(b, a, i),
    decreases a.len() - i,
{
    if i < a.len() && i < b.len() {
        if a[i] == b[i] {
            lemma_lex_total(a, b, i + 1);
        } else {
            lemma_char_code(a[i], b[i]);
        }
    }
}

/// The order of code points is transitive.
pub proof fn lemma_lex_trans(a: Seq<char>, b: Seq<char>, c: Seq<char>, i: int)
    requires
        0 <= i,
        lex_le_from(a, b, i),
        lex_le_from(b, c, i),
    ensures
        lex_le_from(a, c, i),
    decreases a.len() - i,
{
    if i < a.len() && a[i] == b[i] && b[i] == c[i] {
        lemma_lex_trans(a, b, c, i + 1);
    }
}

/// Two texts that agree before position `i` and stand no later than each
/// other are the same.
pub proof fn lemma_lex_antisym(a: Seq<char>, b: Seq<char>, i: int)
    requires
        0 <= i <= a.len(),
        i <= b.len(),
        a.subrange(0, i) == b.subrange(0, i),
        lex_le_from(a, b, i),
        lex_le_from(b, a, i),
    ensures
        a == b,
    decreases a.len() - i,
{
    if i < a.len() && i < b.len() {
        assert(a.subrange(0, i + 1) =~= a.subrange(0, i).push(a[i]));
        assert(b.subrange(0, i + 1) =~= b.subrange(0, i).push(b[i]));
        lemma_lex_antisym(a, b, i + 1);
    } else {
        assert(a.subrange(0, i) =~= a);
        assert(b.subrange(0, i) =~= b);
    }
}

// ---------------------------------------------------------------------------
// Decimal numerals
// ---------------------------------------------------------------------------

/// The ASCII digit for `d`.
pub open spec fn digit(d: nat) -> char {
    (0x30 + d) as char
}

/// The decimal numeral of `n`, without leading zeros.
pub open spec fn decimal(n: nat) -> Seq<char>
    decreases n,
{
    if n < 10 {
        seq![digit(n)]
    } else {
        decimal(n / 10).push(digit(n % 10))
    }
}

/// Every character of `s` is an ASCII digit.
pub open spec fn all_digits(s: Seq<char>) -> bool {
    forall|i: int| 0 <= i < s.len() ==> is_digit(#[trigger] s[i])
}

/// The number that a row of digits stands for.
pub open spec fn decimal_value(s: Seq<char>) -> nat
    decreases s.len(),
{
    if s.len() == 0 {
        0
    } else {
        decimal_value(s.drop_last()) * 10 + ((s.last() as u32) - 0x30) as nat
    }
}

/// A numeral is made of digits and stands for its number.
pub proof fn lemma_decimal(n: nat)
    ensures
        decimal(n).len() >= 1,
        all_digits(decimal(n)),
        decimal_value(decimal(n)) == n,
    decreases n,
{
    reveal_with_fuel(decimal_value, 2);
    if n < 10 {
        assert(decimal(n).drop_last() =~= Seq::<char>::empty());
    } else {
        lemma_decimal(n / 10);
        assert(decimal(n).drop_last() =~= decimal(n / 10));
    }
}

/// Different numbers have different numerals.
pub proof fn lemma_decimal_injective(m: nat, n: nat)
    ensures
        decimal(m) == decimal(n) <==> m == n,
{
    lemma_decimal(m);
    lemma_decimal(n);
}

/// The ASCII digit for `d`.
fn digit_char(d: u8) -> (r: char)
    requires
        d < 10,
    ensures
        r == digit(d as nat),
{
    (48 + d) as char
}

/// The decimal numeral of a wide `n`.
pub fn wide_decimal_text(n: u128) -> (r: String)
    ensures
        r@ == decimal(n as nat),
    decreases n,
{
    if n < 10 {
        let mut out = String::new();
        out.push(digit_char(n as u8));
        assert(out@ =~= seq![digit(n as nat)]);
        out
    } else {
        let mut out = wide_decimal_text(n / 10);
        out.push(digit_char((n % 10) as u8));
        out
    }
}

/// The decimal numeral of `n`.
pub fn decimal_text(n: u64) -> (r: String)
    ensures
        r@ == decimal(n as nat),
{
    wide_decimal_text(n as u128)
}

/// Whether every character of `s` is an ASCII digit.
pub fn text_all_digits(s: &str) -> (r: bool)
    ensures
        r == all_digits(s@),
{
    let x = chars_of(s);
    let mut i: usize = 0;
    while i < x.len()
        invariant
            x@ == s@,
            i <= x@.len(),
            forall|k: int| 0 <= k < i ==> is_digit(#[trigger] s@[k]),
        decreases x@.len() - i,
    {
        if !char_is_digit(x[i]) {
            return false;
        }
        i = i + 1;
    }
    true
}

/// A row of digits does not stand for less than any of its beginnings.
proof fn lemma_decimal_value_prefix(s: Seq<char>, k: int)
    requires
        0 <= k <= s.len(),
        all_digits(s),
    ensures
        decimal_value(s.take(k)) <= decimal_value(s),
    decreases s.len() - k,
{
    if k < s.len() {
        assert(s.take(k + 1).drop_last() =~= s.take(k));
        lemma_decimal_value_prefix(s, k + 1);
    } else {
        assert(s.take(k) =~= s);
    }
}

/// The number that the digits of `s` stand for, where it fits.
pub fn parse_digits(s: &str) -> (r: Option<u64>)
    requires
        all_digits(s@),
    ensures
        match r {
            Some(n) => n as nat == decimal_value(s@),
            None => decimal_value(s@) > u64::MAX,
        },
{
    let x = chars_of(s);
    let mut n: u64 = 0;
    let mut i: usize = 0;
    assert(s@.take(0) =~= Seq::<char>::empty());
    while i < x.len()
        invariant
            x@ == s@,
            all_digits(s@),
            i <= x@.len(),
            n as nat == decimal_value(s@.take(i as int)),
        decreases x@.len() - i,
    {
        assert(is_digit(s@[i as int]));
        let d: u64 = (x[i] as u32 - 0x30) as u64;
        proof {
            assert(s@.take(i + 1).drop_last() =~= s@.take(i as int));
            lemma_decimal_value_prefix(s@, i + 1);
        }
        if n > (u64::MAX - d) / 10 {
            return None;
        }
        n = n * 10 + d;
        i = i + 1;
    }
    assert(s@.take(s@.len() as int) =~= s@);
    Some(n)
}

/// `s` behind enough zeros to be `width` characters long.
pub open spec fn pad_zeros(s: Seq<char>, width: int) -> Seq<char>
    decreases width - s.len(),
{
    if s.len() >= width {
        s
    } else {
        pad_zeros(seq!['0'] + s, width)
    }
}

/// The decimal numeral of `n` behind enough zeros to be `width` characters
/// long.
pub fn padded_decimal(n: u64, width: usize) -> (r: String)
    requires
        width <= 32,
    ensures
        r@ == pad_zeros(decimal(n as nat), width as int),
{
    let mut out = decimal_text(n);
    let mut len: usize = chars_of(out.as_str()).len();
    while len < width
        invariant
            width <= 32,
            len == out@.len(),
            pad_zeros(out@, width as int) == pad_zeros(decimal(n as nat), width as int),
        decreases width - len,
    {
        let mut next = String::new();
        next.push('0');
        assert(next@ =~= seq!['0']);
        next.append(out.as_str());
        out = next;
        len = len + 1;
    }
    out
}

// ---------------------------------------------------------------------------
// Laws
// ---------------------------------------------------------------------------

/// The two characters are one ASCII letter, once capital and once small.
pub open spec fn capital_and_small(c: char, d: char) -> bool {
    'A' <= c <= 'Z' && (d as u32) == (c as u32) + 32
}

/// Two characters are the same in small letters exactly where they are the same, or
/// one letter in two cases.
proof fn lemma_lower(c: char, d: char)
    ensures
        lower(c) == lower(d) <==> c == d || capital_and_small(c, d) || capital_and_small(d, c),
{
}

/// Only the case of ASCII letters is ignored: two texts that count as the same are as
/// long as each other, and wherever they differ, one letter stands once capital and
/// once small.
pub proof fn law_only_case_is_ignored(a: Seq<char>, b: Seq<char>)
    ensures
        same_ignoring_case(a, b) <==> a.len() == b.len() && forall|i: int|
            0 <= i < a.len() ==> (#[trigger] a[i] == b[i] || capital_and_small(a[i], b[i])
                || capital_and_small(b[i], a[i])),
{
    if same_ignoring_case(a, b) {
        assert forall|i: int| 0 <= i < a.len() implies (#[trigger] a[i] == b[i]
            || capital_and_small(a[i], b[i]) || capital_and_small(b[i], a[i])) by {
            assert(lower(a[i]) == lower(b[i]));
            lemma_lower(a[i], b[i]);
        }
    } else if a.len() == b.len() {
        let i = choose|i: int| 0 <= i < a.len() && lower(#[trigger] a[i]) != lower(b[i]);
        lemma_lower(a[i], b[i]);
    }
}

/// Space, tab, line feed and carriage return are white space; no character that ASCII
/// prints is, and none that is printed is a control character.
pub proof fn law_printed_characters_are_neither_white_nor_control(c: char)
    ensures
        c == ' ' || c == '\t' || c == '\n' || c == '\r' ==> is_white(c),
        '!' <= c <= '~' ==> !is_white(c) && !is_control(c),
        (c as u32) < 0x20 || c as u32 == 0x7f ==> is_control(c),
        c == ' ' ==> !is_control(c),
{
}

/// A digit or a letter is one of the ten or of the fifty-two that ASCII has.
pub proof fn law_digits_and_letters_are_ascii(c: char)
    ensures
        is_digit(c) <==> '0' <= c <= '9',
        is_letter(c) <==> 'a' <= c <= 'z' || 'A' <= c <= 'Z',
{
}

/// Trimming takes nothing but white space, only from the two ends, and leaves none
/// there.
pub proof fn law_trimming_takes_only_white_space(s: Seq<char>)
    ensures
        exists|i: int, j: int|
            0 <= i <= j <= s.len() && #[trigger] s.subrange(i, j) == trim(s) && (forall|k: int|
                0 <= k < i || j <= k < s.len() ==> is_white(#[trigger] s[k])),
        trim(s).len() > 0 ==> !is_white(trim(s)[0]) && !is_white(trim(s).last()),
{
    let p = white();
    lemma_skip_while(s, p, 0);
    let i = skip_while(s, p, 0);
    lemma_drop_while(s, p, i, s.len() as int);
    let j = drop_while(s, p, i, s.len() as int);
    assert(s.subrange(i, j) == trim(s));
    assert forall|k: int| 0 <= k < i || j <= k < s.len() implies is_white(#[trigger] s[k]) by {
        assert(p(s[k]));
    }
    if i < j {
        assert(!p(s[i]));
        assert(!p(s[j - 1]));
    }
}

/// Trimming the start takes every `c` there, and nothing else.
pub proof fn law_trimming_the_start_takes_only_it(s: Seq<char>, c: char)
    ensures
        exists|i: int|
            0 <= i <= s.len() && #[trigger] s.skip(i) == trim_start_char(s, c) && forall|k: int|
                0 <= k < i ==> #[trigger] s[k] == c,
        trim_start_char(s, c).len() > 0 ==> trim_start_char(s, c)[0] != c,
{
    lemma_skip_while(s, only(c), 0);
    let i = skip_while(s, only(c), 0);
    assert(s.skip(i) =~= trim_start_char(s, c));
    assert forall|k: int| 0 <= k < i implies #[trigger] s[k] == c by {
        assert(only(c)(s[k]));
    }
    if i < s.len() {
        assert(!only(c)(s[i]));
    }
}

/// The parts with `c` between each and the next.
pub open spec fn rejoined<T>(parts: Seq<Seq<T>>, c: T) -> Seq<T>
    decreases parts.len(),
{
    if parts.len() == 0 {
        Seq::empty()
    } else if parts.len() == 1 {
        parts[0]
    } else {
        parts[0].push(c) + rejoined(parts.skip(1), c)
    }
}

/// What is split can be put together again, from the position that it was split from.
proof fn lemma_rejoined<T>(s: Seq<T>, c: T, i: int)
    requires
        0 <= i <= s.len(),
    ensures
        rejoined(split_from(s, c, i), c) == s.skip(i),
    decreases s.len() - i,
{
    lemma_index_from(s, c, i);
    let j = index_from(s, c, i);
    let all = split_from(s, c, i);
    if j < s.len() {
        lemma_rejoined(s, c, j + 1);
        lemma_split_parts(s, c, j + 1);
        assert(all.skip(1) =~= split_from(s, c, j + 1));
        assert(all[0] == s.subrange(i, j));
        assert(s.skip(i) =~= s.subrange(i, j).push(c) + s.skip(j + 1));
    } else {
        assert(s.subrange(i, s.len() as int) =~= s.skip(i));
    }
}

/// Splitting loses nothing and splits everywhere: the parts with `c` between them are
/// the text, and none of them holds `c`.
pub proof fn law_split_parts_make_the_text<T>(s: Seq<T>, c: T)
    ensures
        rejoined(split(s, c), c) == s,
        split(s, c).len() >= 1,
        forall|k: int| 0 <= k < split(s, c).len() ==> !(#[trigger] split(s, c)[k]).contains(c),
{
    lemma_rejoined(s, c, 0);
    lemma_split_parts(s, c, 0);
    assert(s.skip(0) =~= s);
    assert forall|k: int| 0 <= k < split(s, c).len() implies !(#[trigger] split(s, c)[k]).contains(
        c,
    ) by {
        if split(s, c)[k].contains(c) {
            let m = choose|m: int| 0 <= m < split(s, c)[k].len() && split(s, c)[k][m] == c;
            assert(split_from(s, c, 0)[k][m] == c);
        }
    }
}

/// A text splits once at its first `c`, and only where it has one.
pub proof fn law_splitting_once_is_at_the_first<T>(s: Seq<T>, c: T)
    ensures
        split_once(s, c) is Some <==> s.contains(c),
        split_once(s, c) matches Some((a, b)) ==> a.push(c) + b == s && !a.contains(c),
{
    lemma_index_from(s, c, 0);
    let i = index_from(s, c, 0);
    if s.contains(c) {
        let k = choose|k: int| 0 <= k < s.len() && s[k] == c;
        assert(k >= i);
    }
    if i < s.len() {
        assert(s.subrange(0, i).push(c) + s.subrange(i + 1, s.len() as int) =~= s);
        assert(s[i] == c);
    }
}

/// What [`lex_le_from`] says of the first position at which two texts differ.
proof fn lemma_lex_at_difference(a: Seq<char>, b: Seq<char>, i: int, d: int)
    requires
        0 <= i <= d <= a.len(),
        d <= b.len(),
        forall|k: int| i <= k < d ==> #[trigger] a[k] == b[k],
    ensures
        lex_le_from(a, b, i) == lex_le_from(a, b, d),
    decreases d - i,
{
    if i < d {
        assert(a[i] == b[i]);
        lemma_lex_at_difference(a, b, i + 1, d);
    }
}

/// Characters stand in the order of their code points.
proof fn lemma_char_order(c: char, d: char)
    ensures
        c < d <==> (c as u32) < (d as u32),
{
}

/// Two texts stand in the order of the code points at the first position at which they
/// differ; one that the other begins with stands first.
pub proof fn law_texts_stand_in_the_order_of_code_points(a: Seq<char>, b: Seq<char>, d: int)
    requires
        0 <= d <= a.len(),
        d <= b.len(),
        forall|k: int| 0 <= k < d ==> #[trigger] a[k] == b[k],
    ensures
        d == a.len() ==> lex_le(a, b),
        d == b.len() && d < a.len() ==> !lex_le(a, b),
        d < a.len() && d < b.len() && a[d] != b[d] ==> (lex_le(a, b) <==> a[d] < b[d]),
{
    lemma_lex_at_difference(a, b, 0, d);
    if d < a.len() && d < b.len() {
        lemma_char_order(a[d], b[d]);
    }
}

/// A numeral is made of the ten digits, has no leading zero, and stands for its
/// number: the numeral of ten times a number and a digit is that of the number with the
/// digit behind it.
pub proof fn law_numerals(n: nat, d: nat)
    requires
        d < 10,
    ensures
        forall|i: int| 0 <= i < decimal(n).len() ==> '0' <= #[trigger] decimal(n)[i] <= '9',
        n > 0 ==> decimal(n)[0] != '0',
        n > 0 ==> decimal(10 * n + d) == decimal(n) + decimal(d),
        decimal(d).len() == 1 && decimal(d)[0] as u32 == 0x30 + d,
    decreases n,
{
    lemma_decimal(n);
    assert forall|i: int| 0 <= i < decimal(n).len() implies '0' <= #[trigger] decimal(n)[i]
        <= '9' by {
        assert(is_digit(decimal(n)[i]));
        law_digits_and_letters_are_ascii(decimal(n)[i]);
    }
    if n > 0 {
        assert((10 * n + d) / 10 == n && (10 * n + d) % 10 == d) by (nonlinear_arith)
            requires
                d < 10,
        ;
        assert(decimal(10 * n + d) =~= decimal(n) + decimal(d));
        if n >= 10 {
            law_numerals(n / 10, d);
        }
    }
}

/// A row of digits is read from the left, each digit worth ten times the one behind it.
pub proof fn law_digits_are_read_from_the_left(s: Seq<char>, c: char)
    requires
        '0' <= c <= '9',
    ensures
        decimal_value(s.push(c)) == 10 * decimal_value(s) + ((c as u32) - 0x30),
        decimal_value(Seq::empty()) == 0,
{
    assert(s.push(c).drop_last() =~= s);
}

/// Padding only puts zeros in front, and no more than the width asks for.
pub proof fn law_padding_puts_zeros_in_front(s: Seq<char>, width: int)
    ensures
        s.len() >= width ==> pad_zeros(s, width) == s,
        s.len() < width ==> pad_zeros(s, width).len() == width,
        has_suffix(pad_zeros(s, width), s),
        forall|i: int|
            0 <= i < pad_zeros(s, width).len() - s.len() ==> #[trigger] pad_zeros(s, width)[i]
                == '0',
    decreases width - s.len(),
{
    let r = pad_zeros(s, width);
    if s.len() < width {
        let t = seq!['0'] + s;
        law_padding_puts_zeros_in_front(t, width);
        let n = r.len() as int;
        assert(r.subrange(n - t.len(), n) == t);
        assert(r.subrange(n - s.len(), n) =~= s) by {
            assert forall|k: int| 0 <= k < s.len() implies r.subrange(n - s.len(), n)[k]
                == s[k] by {
                assert(r.subrange(n - t.len(), n)[k + 1] == t[k + 1]);
            }
        }
        assert forall|i: int| 0 <= i < n - s.len() implies #[trigger] r[i] == '0' by {
            if i == n - t.len() {
                assert(r.subrange(n - t.len(), n)[0] == t[0]);
            }
        }
    } else {
        assert(r.subrange(r.len() - s.len(), r.len() as int) =~= s);
    }
}

/// What stands between two texts stands in the whole.
pub proof fn lemma_stands_between<T>(before: Seq<T>, middle: Seq<T>, after: Seq<T>)
    ensures
        occurs_in(before + middle + after, middle),
        occurs_at(before + middle + after, middle, before.len() as int),
{
    let whole = before + middle + after;
    let i = before.len() as int;
    assert(whole.subrange(i, i + middle.len()) =~= middle);
    assert(occurs_at(whole, middle, i));
}

/// The first position of what stands nowhere before it; the end, where it stands
/// nowhere.
pub proof fn lemma_index_at<T>(s: Seq<T>, c: T, i: int, p: int)
    requires
        0 <= i <= p <= s.len(),
        p < s.len() ==> s[p] == c,
        forall|k: int| i <= k < p ==> #[trigger] s[k] != c,
    ensures
        index_from(s, c, i) == p,
    decreases p - i,
{
    if i < p {
        assert(s[i] != c);
        lemma_index_at(s, c, i + 1, p);
    }
}

/// The parts of what stands behind another text are found where it stands.
proof fn lemma_split_shift<T>(x: Seq<T>, b: Seq<T>, c: T, k: int)
    requires
        0 <= k <= b.len(),
    ensures
        split_from(x + b, c, x.len() + k) == split_from(b, c, k),
    decreases b.len() - k,
{
    let n = x.len() as int;
    lemma_index_from(b, c, k);
    let j = index_from(b, c, k);
    assert forall|m: int| n + k <= m < n + j implies #[trigger] (x + b)[m] != c by {
        assert((x + b)[m] == b[m - n]);
    }
    lemma_index_at(x + b, c, n + k, n + j);
    assert((x + b).subrange(n + k, n + j) =~= b.subrange(k, j));
    if j < b.len() {
        lemma_split_shift(x, b, c, j + 1);
    }
}

/// The parts of a joined text, from position `i` of the first part on.
proof fn lemma_split_joined<T>(a: Seq<T>, b: Seq<T>, c: T, i: int)
    requires
        0 <= i <= a.len(),
    ensures
        split_from(a + seq![c] + b, c, i) == split_from(a, c, i) + split(b, c),
    decreases a.len() - i,
{
    let whole = a + seq![c] + b;
    lemma_index_from(a, c, i);
    let j = index_from(a, c, i);
    assert forall|m: int| i <= m < j implies #[trigger] whole[m] != c by {
        assert(whole[m] == a[m]);
    }
    lemma_index_at(whole, c, i, j);
    assert(whole.subrange(i, j) =~= a.subrange(i, j));
    if j < a.len() {
        lemma_split_joined(a, b, c, j + 1);
    } else {
        let x = a + seq![c];
        assert(whole =~= x + b);
        lemma_split_shift(x, b, c, 0);
    }
    assert(split_from(whole, c, i) =~= split_from(a, c, i) + split(b, c));
}

/// What is joined by `c` splits into the parts of both; a text without `c` is its only
/// part.
pub proof fn law_joined_texts_split_apart<T>(a: Seq<T>, b: Seq<T>, name: Seq<T>, c: T)
    requires
        !name.contains(c),
    ensures
        split(a + seq![c] + b, c) == split(a, c) + split(b, c),
        split(name, c) == seq![name],
{
    lemma_split_joined(a, b, c, 0);
    assert forall|m: int| 0 <= m < name.len() implies #[trigger] name[m] != c by {
        assert(name.contains(name[m]));
    }
    lemma_index_at(name, c, 0, name.len() as int);
    assert(name.subrange(0, name.len() as int) =~= name);
    assert(split(name, c) =~= seq![name]);
}

/// What reaches across the joints of a text stands in it in one piece.
pub proof fn lemma_stands_across<T>(a: Seq<T>, b: Seq<T>, middle: Seq<T>, c: Seq<T>, d: Seq<T>)
    ensures
        occurs_in((a + b) + middle + (c + d), b + middle + c),
{
    lemma_stands_between(a, b + middle + c, d);
    assert((a + b) + middle + (c + d) =~= a + (b + middle + c) + d);
}

/// What stands in a part of a text stands in the text.
pub proof fn lemma_stands_in_part<T>(before: Seq<T>, part: Seq<T>, after: Seq<T>, middle: Seq<T>)
    requires
        occurs_in(part, middle),
    ensures
        occurs_in(before + part + after, middle),
{
    let k = choose|k: int| #[trigger] occurs_at(part, middle, k);
    let whole = before + part + after;
    let i = before.len() + k;
    assert(whole.subrange(i, i + middle.len()) =~= part.subrange(k, k + middle.len()));
    assert(occurs_at(whole, middle, i));
}

/// The view of a list of texts has every text, in its place.
pub proof fn law_texts_are_viewed_one_by_one(v: Seq<String>, i: int)
    requires
        0 <= i < v.len(),
    ensures
        texts(v).len() == v.len(),
        texts(v)[i] == v[i]@,
{
}

/// The view of an optional text is there exactly where the text is, and is its view.
pub proof fn law_optional_texts_are_viewed(owned: Option<String>, borrowed: Option<&str>)
    ensures
        opt_text(owned) is Some <==> owned is Some,
        owned matches Some(t) ==> opt_text(owned) == Some(t@),
        opt_str(borrowed) is Some <==> borrowed is Some,
        borrowed matches Some(t) ==> opt_str(borrowed) == Some(t@),
{
}

/// A text starts with what it is made of first and ends with what it is made of last, and
/// with nothing else of that length.
pub proof fn law_texts_start_and_end_with_their_parts<T>(a: Seq<T>, b: Seq<T>, other: Seq<T>)
    ensures
        has_prefix(a + b, a),
        has_suffix(a + b, b),
        other.len() == a.len() && has_prefix(a + b, other) ==> other == a,
        other.len() == b.len() && has_suffix(a + b, other) ==> other == b,
        other.len() > a.len() + b.len() ==> !has_prefix(a + b, other) && !has_suffix(a + b, other),
{
    let s = a + b;
    assert(s.subrange(0, a.len() as int) =~= a);
    assert(s.subrange(a.len() as int, s.len() as int) =~= b);
}

} // verus!

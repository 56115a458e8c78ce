//! Raw bytes: searching them, and reading them as text.

use vstd::prelude::*;
use vstd::string::*;
use vstd::utf8::*;

use crate::text::{index_from, occurs_at, occurs_in};

verus! {

/// The bytes as text, where they are UTF-8: `std::str::from_utf8`.
#[verifier::external_body]
pub(crate) fn utf8_text(bytes: &[u8]) -> (r: Option<String>)
    ensures
        match r {
            Some(s) => valid_utf8(bytes@) && s@ == decode_utf8(bytes@),
            None => !valid_utf8(bytes@),
        },
{
    std::str::from_utf8(bytes).ok().map(str::to_owned)
}

/// The text that the standard library makes of any bytes, with the replacement
/// character in place of what is not UTF-8.
pub uninterp spec fn lossy(bytes: Seq<u8>) -> Seq<char>;

/// The bytes as text, with the replacement character in place of what is not
/// UTF-8: `String::from_utf8_lossy`. Bytes that are UTF-8 are read as they are.
#[verifier::external_body]
pub(crate) fn lossy_text(bytes: &[u8]) -> (r: String)
    ensures
        r@ == lossy(bytes@),
        valid_utf8(bytes@) ==> r@ == decode_utf8(bytes@),
{
    String::from_utf8_lossy(bytes).into_owned()
}

/// The bytes of `v[from..to]`.
pub fn bytes_between(v: &[u8], from: usize, to: usize) -> (r: Vec<u8>)
    requires
        from <= to <= v@.len(),
    ensures
        r@ == v@.subrange(from as int, to as int),
{
    let mut out: Vec<u8> = Vec::new();
    let mut i: usize = from;
    while i < to
        invariant
            from <= i <= to <= v@.len(),
            out@ == v@.subrange(from as int, i as int),
        decreases to - i,
    {
        out.push(v[i]);
        assert(v@.subrange(from as int, i + 1) =~= v@.subrange(from as int, i as int).push(
            v@[i as int],
        ));
        i = i + 1;
    }
    out
}

/// The first position from `from` on at which `b` stands, or the length.
pub fn byte_index_from(v: &[u8], b: u8, from: usize) -> (r: usize)
    requires
        from <= v@.len(),
    ensures
        r == index_from(v@, b, from as int),
        from <= r <= v@.len(),
{
    let mut i: usize = from;
    while i < v.len() && v[i] != b
        invariant
            from <= i <= v@.len(),
            index_from(v@, b, from as int) == index_from(v@, b, i as int),
        decreases v@.len() - i,
    {
        i = i + 1;
    }
    i
}

/// Whether `needle` stands in `hay` at position `i`.
fn bytes_occur_at(hay: &[u8], needle: &[u8], i: usize) -> (r: bool)
    requires
        i <= hay@.len(),
    ensures
        r == occurs_at(hay@, needle@, i as int),
{
    if needle.len() > hay.len() - i {
        return false;
    }
    let mut k: usize = 0;
    while k < needle.len()
        invariant
            k <= needle@.len(),
            i + needle@.len() <= hay.len(),
            forall|m: int| 0 <= m < k ==> hay@[i + m] == needle@[m],
        decreases needle@.len() - k,
    {
        if hay[i + k] != needle[k] {
            assert(hay@.subrange(i as int, i + needle@.len())[k as int] != needle@[k as int]);
            return false;
        }
        k = k + 1;
    }
    assert(hay@.subrange(i as int, i + needle@.len()) =~= needle@);
    true
}

/// Whether `needle` stands somewhere in `haystack`.
pub fn memmem(haystack: &[u8], needle: &[u8]) -> (r: bool)
    ensures
        r == occurs_in(haystack@, needle@),
{
    let mut i: usize = 0;
    while i < haystack.len()
        invariant
            i <= haystack@.len(),
            forall|k: int| 0 <= k < i ==> !#[trigger] occurs_at(haystack@, needle@, k),
        decreases haystack@.len() - i,
    {
        if bytes_occur_at(haystack, needle, i) {
            return true;
        }
        i = i + 1;
    }
    bytes_occur_at(haystack, needle, haystack.len())
}

/// The ASCII white space: space, tab, line feed, form feed and carriage return.
pub open spec fn is_ascii_white(b: u8) -> bool {
    b == 0x20 || b == 0x09 || b == 0x0a || b == 0x0c || b == 0x0d
}

/// Every byte is ASCII white space.
pub open spec fn blank(v: Seq<u8>) -> bool {
    forall|i: int| 0 <= i < v.len() ==> is_ascii_white(#[trigger] v[i])
}

/// Whether every byte is ASCII white space.
pub fn is_blank(v: &[u8]) -> (r: bool)
    ensures
        r == blank(v@),
{
    let mut i: usize = 0;
    while i < v.len()
        invariant
            i <= v@.len(),
            forall|k: int| 0 <= k < i ==> is_ascii_white(#[trigger] v@[k]),
        decreases v@.len() - i,
    {
        let b: u8 = v[i];
        if !(b == 0x20 || b == 0x09 || b == 0x0a || b == 0x0c || b == 0x0d) {
            return false;
        }
        i = i + 1;
    }
    true
}

/// Whether the bytes of two texts can be told apart: they cannot exactly where
/// the texts are the same.
pub proof fn lemma_encode_injective(a: Seq<char>, b: Seq<char>)
    ensures
        encode_utf8(a) == encode_utf8(b) <==> a == b,
{
    encode_utf8_decode_utf8(a);
    encode_utf8_decode_utf8(b);
}

/// The bytes of two texts behind one another are those of the one behind those of
/// the other.
pub proof fn lemma_encode_concat(a: Seq<char>, b: Seq<char>)
    ensures
        encode_utf8(a + b) == encode_utf8(a) + encode_utf8(b),
    decreases a.len(),
{
    if a.len() == 0 {
        assert(a + b =~= b);
        assert(encode_utf8(a) + encode_utf8(b) =~= encode_utf8(b));
    } else {
        lemma_encode_concat(a.drop_first(), b);
        assert((a + b).drop_first() =~= a.drop_first() + b);
        assert((a + b)[0] == a[0]);
        assert(encode_utf8(a + b) =~= encode_utf8(a) + encode_utf8(b));
    }
}

/// Bytes are blank exactly where each is a space, a tab, a line feed, a form feed or a
/// carriage return.
pub proof fn law_blank_is_white_space_alone(v: Seq<u8>)
    ensures
        blank(v) <==> forall|i: int|
            0 <= i < v.len() ==> seq![0x20u8, 0x09, 0x0a, 0x0c, 0x0d].contains(#[trigger] v[i]),
        blank(Seq::empty()),
{
    let all = seq![0x20u8, 0x09, 0x0a, 0x0c, 0x0d];
    assert(all[0] == 0x20 && all[1] == 0x09 && all[2] == 0x0a && all[3] == 0x0c && all[4]
        == 0x0d);
    assert forall|b: u8| is_ascii_white(b) <==> #[trigger] all.contains(b) by {
        if is_ascii_white(b) {
            assert(all[0] == b || all[1] == b || all[2] == b || all[3] == b || all[4] == b);
        }
    }
}

} // verus!

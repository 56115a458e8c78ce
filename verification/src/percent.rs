//! Percent-encoding, as it stands in URLs.

use vstd::prelude::*;
use vstd::string::*;
use vstd::utf8::*;

verus! {

/// The value of a hexadecimal digit.
pub open spec fn hex_value(b: u8) -> Option<u8> {
    if 0x30 <= b <= 0x39 {
        Some((b - 0x30) as u8)
    } else if 0x41 <= b <= 0x46 {
        Some((b - 0x41 + 10) as u8)
    } else if 0x61 <= b <= 0x66 {
        Some((b - 0x61 + 10) as u8)
    } else {
        None
    }
}

/// The bytes start with `%` and two hexadecimal digits.
pub open spec fn starts_with_triplet(b: Seq<u8>) -> bool {
    b.len() >= 3 && b[0] == 0x25 && hex_value(b[1]) is Some && hex_value(b[2]) is Some
}

/// The bytes with every `%` and two hexadecimal digits replaced by the byte that
/// they stand for. A `%` that is followed by anything else stays.
pub open spec fn percent_decoded(b: Seq<u8>) -> Seq<u8>
    decreases b.len(),
{
    if b.len() == 0 {
        b
    } else if starts_with_triplet(b) {
        seq![(hex_value(b[1])->0 * 16 + hex_value(b[2])->0) as u8] + percent_decoded(
            b.subrange(3, b.len() as int),
        )
    } else {
        seq![b[0]] + percent_decoded(b.subrange(1, b.len() as int))
    }
}

/// The text that a percent-encoded text stands for, where it is UTF-8.
pub open spec fn decoded(s: Seq<char>) -> Option<Seq<char>> {
    let b = percent_decoded(encode_utf8(s));
    if valid_utf8(b) {
        Some(decode_utf8(b))
    } else {
        None
    }
}

/// The text that a percent-encoded text stands for, where it is UTF-8:
/// `percent_encoding::percent_decode` and `PercentDecode::decode_utf8`.
#[verifier::external_body]
pub(crate) fn percent_decode_text(s: &str) -> (r: Option<String>)
    ensures
        match r {
            Some(t) => decoded(s@) == Some(t@),
            None => decoded(s@) is None,
        },
{
    percent_encoding::percent_decode(s.as_bytes()).decode_utf8().ok().map(|t| t.into_owned())
}

/// The hexadecimal digit for `n`, a capital letter from ten on.
pub open spec fn hex_digit(n: u8) -> char {
    if n < 10 {
        (0x30 + n) as char
    } else {
        (0x41 + n - 10) as char
    }
}

/// `%` and the two hexadecimal digits of a byte.
pub open spec fn triplet(b: u8) -> Seq<char> {
    seq!['%', hex_digit(b / 16), hex_digit(b % 16)]
}

/// `percent_encoding::percent_encode_byte` gives `%` and the two hexadecimal digits
/// of the byte, in capital letters.
pub assume_specification[ percent_encoding::percent_encode_byte ](byte: u8) -> (r: &'static str)
    ensures
        r@ == triplet(byte),
;

/// The bytes that mean nothing of their own in a URL: letters, digits, `-`, `.`, `_`
/// and `~`.
pub open spec fn unreserved(b: u8) -> bool {
    ||| 0x30 <= b <= 0x39
    ||| 0x41 <= b <= 0x5a
    ||| 0x61 <= b <= 0x7a
    ||| b == 0x2d || b == 0x2e || b == 0x5f || b == 0x7e
}

/// The bytes that may not stand as they are in an `href`: all but the unreserved ones
/// and the slash.
pub open spec fn escaped_in_href(b: u8) -> bool {
    !unreserved(b) && b != 0x2f
}

/// How one byte stands in an `href`.
pub open spec fn href_byte(b: u8) -> Seq<char> {
    if escaped_in_href(b) {
        triplet(b)
    } else {
        seq![b as char]
    }
}

/// How the bytes of a name stand in an `href`.
pub open spec fn href_of(b: Seq<u8>) -> Seq<char>
    decreases b.len(),
{
    if b.len() == 0 {
        Seq::empty()
    } else {
        href_of(b.drop_last()) + href_byte(b.last())
    }
}

/// Percent-encode a name for an `href`: what is unreserved and the slash stay.
pub fn encode_href(name: &str) -> (r: String)
    ensures
        r@ == href_of(encode_utf8(name@)),
{
    let bytes = name.as_bytes();
    let mut out = String::new();
    let mut i: usize = 0;
    assert(bytes@.take(0) =~= Seq::<u8>::empty());
    while i < bytes.len()
        invariant
            bytes@ == encode_utf8(name@),
            i <= bytes@.len(),
            out@ == href_of(bytes@.take(i as int)),
        decreases bytes@.len() - i,
    {
        let b: u8 = bytes[i];
        assert(bytes@.take(i + 1).drop_last() =~= bytes@.take(i as int));
        let plain = (0x30 <= b && b <= 0x39) || (0x41 <= b && b <= 0x5a) || (0x61 <= b && b <= 0x7a)
            || b == 0x2d || b == 0x2e || b == 0x5f || b == 0x7e || b == 0x2f;
        if !plain {
            out.append(percent_encoding::percent_encode_byte(b));
        } else {
            out.push(b as char);
            assert(href_of(bytes@.take(i as int)).push(b as char) =~= href_of(
                bytes@.take(i as int),
            ) + seq![b as char]);
        }
        i = i + 1;
    }
    assert(bytes@.take(bytes@.len() as int) =~= bytes@);
    out
}

// ---------------------------------------------------------------------------
// Laws
// ---------------------------------------------------------------------------

/// What stands for one byte in an `href` is ASCII and holds nothing that markup
/// or a URL would take for its own.
proof fn lemma_href_byte(b: u8)
    ensures
        forall|i: int|
            0 <= i < href_byte(b).len() ==> {
                let c = #[trigger] href_byte(b)[i];
                '\u{21}' <= c <= '\u{7e}' && c != '"' && c != '\'' && c != '<' && c != '>' && c
                    != '&' && c != '#' && c != '?' && (c == '%' ==> i == 0)
            },
        href_byte(b).len() == 1 || href_byte(b).len() == 3,
{
}

/// An `href` is ASCII without spaces, and holds no quotation mark, angle bracket,
/// ampersand, `#` or `?`: it ends neither the attribute it stands in nor the path.
pub proof fn law_href_is_inert(b: Seq<u8>)
    ensures
        forall|i: int|
            0 <= i < href_of(b).len() ==> {
                let c = #[trigger] href_of(b)[i];
                '\u{21}' <= c <= '\u{7e}' && c != '"' && c != '\'' && c != '<' && c != '>' && c
                    != '&' && c != '#' && c != '?'
            },
    decreases b.len(),
{
    if b.len() > 0 {
        law_href_is_inert(b.drop_last());
        lemma_href_byte(b.last());
        let head = href_of(b.drop_last());
        assert forall|i: int| 0 <= i < href_of(b).len() implies {
            let c = #[trigger] href_of(b)[i];
            '\u{21}' <= c <= '\u{7e}' && c != '"' && c != '\'' && c != '<' && c != '>' && c != '&'
                && c != '#' && c != '?'
        } by {
            if i < head.len() {
                assert(href_of(b)[i] == head[i]);
            } else {
                assert(href_of(b)[i] == href_byte(b.last())[i - head.len()]);
            }
        }
    }
}

/// The bytes of ASCII text.
pub open spec fn ascii_bytes(s: Seq<char>) -> Seq<u8> {
    Seq::new(s.len(), |i: int| s[i] as u8)
}

/// What stands for a byte in an `href`, in front of anything, is decoded to that
/// byte in front of what the rest is decoded to.
proof fn lemma_decode_href_byte(b: u8, rest: Seq<u8>)
    ensures
        percent_decoded(ascii_bytes(href_byte(b)) + rest) == seq![b] + percent_decoded(rest),
{
    let e = ascii_bytes(href_byte(b));
    let all = e + rest;
    if escaped_in_href(b) {
        assert(b == 16 * (b / 16) + b % 16);
        assert(b / 16 < 16 && b % 16 < 16);
        assert(all[0] == 0x25);
        assert(hex_value(all[1]) == Some((b / 16) as u8));
        assert(hex_value(all[2]) == Some((b % 16) as u8));
        assert(all.subrange(3, all.len() as int) =~= rest);
    } else {
        assert(e =~= seq![b]);
        assert(all[0] == b && b != 0x25);
        assert(all.subrange(1, all.len() as int) =~= rest);
    }
}

/// Decoding goes through an `href` byte by byte.
proof fn lemma_decode_href(b: Seq<u8>, rest: Seq<u8>)
    ensures
        percent_decoded(ascii_bytes(href_of(b)) + rest) == b + percent_decoded(rest),
    decreases b.len(),
{
    if b.len() == 0 {
        assert(ascii_bytes(href_of(b)) + rest =~= rest);
        assert(b + percent_decoded(rest) =~= percent_decoded(rest));
    } else {
        let head = b.drop_last();
        let last = b.last();
        let tail = ascii_bytes(href_byte(last)) + rest;
        assert(ascii_bytes(href_of(b)) + rest =~= ascii_bytes(href_of(head)) + tail);
        lemma_decode_href(head, tail);
        lemma_decode_href_byte(last, rest);
        assert(head + (seq![last] + percent_decoded(rest)) =~= b + percent_decoded(rest));
    }
}

/// An `href` stands for the name it was made of: decoding gives the name back.
pub proof fn law_href_decodes_to_its_name(name: Seq<char>)
    ensures
        decoded(href_of(encode_utf8(name))) == Some(name),
{
    let b = encode_utf8(name);
    let h = href_of(b);
    law_href_is_inert(b);
    assert(is_ascii_chars(h));
    is_ascii_chars_encode_utf8(h);
    assert(encode_utf8(h) =~= ascii_bytes(h));
    lemma_decode_href(b, Seq::empty());
    assert(ascii_bytes(h) + Seq::<u8>::empty() =~= ascii_bytes(h));
    assert(b + percent_decoded(Seq::<u8>::empty()) =~= b);
    encode_utf8_valid_utf8(name);
    encode_utf8_decode_utf8(name);
}

/// Text without a `%` stands for itself.
pub proof fn law_plain_text_decodes_to_itself(s: Seq<char>)
    requires
        forall|i: int| 0 <= i < encode_utf8(s).len() ==> #[trigger] encode_utf8(s)[i] != 0x25,
    ensures
        decoded(s) == Some(s),
{
    lemma_decode_plain(encode_utf8(s));
    encode_utf8_valid_utf8(s);
    encode_utf8_decode_utf8(s);
}

/// Bytes without a `%` stand for themselves.
proof fn lemma_decode_plain(b: Seq<u8>)
    requires
        forall|i: int| 0 <= i < b.len() ==> #[trigger] b[i] != 0x25,
    ensures
        percent_decoded(b) == b,
    decreases b.len(),
{
    if b.len() > 0 {
        let rest = b.subrange(1, b.len() as int);
        assert forall|i: int| 0 <= i < rest.len() implies #[trigger] rest[i] != 0x25 by {
            assert(rest[i] == b[i + 1]);
        }
        lemma_decode_plain(rest);
        assert(seq![b[0]] + rest =~= b);
    }
}

/// The same holds behind a slash: the path to a name under the root stands for that
/// name behind a slash.
pub proof fn law_href_path_decodes(name: Seq<char>)
    ensures
        decoded(seq!['/'] + href_of(encode_utf8(name))) == Some(seq!['/'] + name),
{
    let b = encode_utf8(name);
    let h = href_of(b);
    let path = seq!['/'] + h;
    law_href_is_inert(b);
    assert(is_ascii_chars(path)) by {
        assert forall|i: int| 0 <= i < path.len() implies '\0' <= #[trigger] path[i] <= '\u{7f}' by {
            if i > 0 {
                assert(path[i] == h[i - 1]);
            }
        }
    }
    is_ascii_chars_encode_utf8(path);
    assert(encode_utf8(path) =~= ascii_bytes(path));
    let rest = ascii_bytes(h);
    assert(ascii_bytes(path) =~= seq![0x2fu8] + rest);
    assert(ascii_bytes(path).subrange(1, path.len() as int) =~= rest);
    lemma_decode_href(b, Seq::empty());
    assert(rest + Seq::<u8>::empty() =~= rest);
    assert(b + percent_decoded(Seq::<u8>::empty()) =~= b);
    let full = seq!['/'] + name;
    crate::bytes::lemma_encode_concat(seq!['/'], name);
    assert(is_ascii_chars(seq!['/']));
    is_ascii_chars_encode_utf8(seq!['/']);
    assert(encode_utf8(seq!['/']) =~= seq![0x2fu8]);
    assert(percent_decoded(ascii_bytes(path)) =~= encode_utf8(full));
    encode_utf8_valid_utf8(full);
    encode_utf8_decode_utf8(full);
}

/// Bytes are encoded piece by piece.
pub proof fn lemma_href_pieces(a: Seq<u8>, b: Seq<u8>)
    ensures
        href_of(a + b) == href_of(a) + href_of(b),
    decreases b.len(),
{
    if b.len() == 0 {
        assert(a + b =~= a);
        assert(href_of(a) + href_of(b) =~= href_of(a));
    } else {
        lemma_href_pieces(a, b.drop_last());
        assert((a + b).drop_last() =~= a + b.drop_last());
        assert(href_of(a + b) =~= href_of(a) + href_of(b));
    }
}

/// A byte stands for itself in an `href` exactly where it is a letter, a digit, a slash
/// or one of `-`, `.`, `_` and `~`, wherever it stands; every other stands as `%` and
/// two hexadecimal digits.
pub proof fn law_href_keeps_what_is_unreserved(before: Seq<u8>, b: u8, after: Seq<u8>)
    ensures
        ({
            let c = b as char;
            let kept = 'a' <= c <= 'z' || 'A' <= c <= 'Z' || '0' <= c <= '9' || c == '-' || c
                == '.' || c == '_' || c == '~' || c == '/';
            href_of(before + seq![b] + after) == href_of(before) + (if kept {
                seq![c]
            } else {
                triplet(b)
            }) + href_of(after)
        }),
{
    lemma_href_pieces(before + seq![b], after);
    lemma_href_pieces(before, seq![b]);
    reveal_with_fuel(href_of, 2);
    assert(seq![b].drop_last() =~= Seq::<u8>::empty());
    assert(href_of(seq![b]) =~= href_byte(b));
}

/// The sixteen hexadecimal digits have their values, in either case, and nothing else has
/// one.
pub proof fn law_hexadecimal_digits_have_their_values(b: u8)
    ensures
        '0' as u8 <= b <= '9' as u8 ==> hex_value(b) == Some((b - '0' as u8) as u8),
        'A' as u8 <= b <= 'F' as u8 ==> hex_value(b) == Some((b - 'A' as u8 + 10) as u8)
            && hex_value((b + 32) as u8) == hex_value(b),
        hex_value(b) is Some <==> '0' as u8 <= b <= '9' as u8 || 'A' as u8 <= b <= 'F' as u8
            || 'a' as u8 <= b <= 'f' as u8,
{
}

} // verus!

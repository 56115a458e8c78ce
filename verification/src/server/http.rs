//! What the origins share: credentials, query strings, and markup.

use vstd::prelude::*;
use vstd::string::*;
use vstd::utf8::*;

use crate::bytes::lemma_encode_injective;
use crate::percent::{decoded, percent_decode_text};
use crate::text::{
    chars_of, lemma_stands_between, occurs_in, opt_str, opt_text, same_ignoring_case, split,
    split_once, text_eq,
    text_eq_ignoring_case, text_split, text_split_once, texts,
};

verus! {

/// The method of a request, as far as the origins tell methods apart.
#[derive(Clone, Copy, Debug, PartialEq, Eq, Structural)]
pub enum Method {
    Get,
    Head,
    Post,
    Put,
    /// Any other method.
    Other,
}

impl Method {
    /// The method only reads.
    pub open spec fn reads(self) -> bool {
        self is Get || self is Head
    }

    /// Whether the method only reads.
    pub fn is_read(self) -> (r: bool)
        ensures
            r == self.reads(),
    {
        matches!(self, Method::Get | Method::Head)
    }
}

/// The body of an answer, and its status.
#[derive(Debug)]
pub struct Answer {
    /// The HTTP status.
    pub status: u16,
    /// The body.
    pub body: String,
}

/// The view of an [`Answer`].
pub ghost struct AnswerView {
    pub status: u16,
    pub body: Seq<char>,
}

impl View for Answer {
    type V = AnswerView;

    open spec fn view(&self) -> AnswerView {
        AnswerView { status: self.status, body: self.body@ }
    }
}

// ---------------------------------------------------------------------------
// Credentials
// ---------------------------------------------------------------------------

/// The byte at position `i`, and 0 behind the end.
pub open spec fn padded(b: Seq<u8>, i: int) -> u8 {
    if i < b.len() {
        b[i]
    } else {
        0
    }
}

/// The provided token is the expected one, which is not empty.
pub open spec fn same_token(provided: Seq<char>, expected: Seq<char>) -> bool {
    expected.len() > 0 && provided == expected
}

/// Whether the provided token is the expected one. Every byte of both is looked
/// at, and their lengths, whatever the outcome; an empty expected token matches
/// nothing.
pub fn tokens_match(provided: &str, expected: &str) -> (r: bool)
    ensures
        r == same_token(provided@, expected@),
{
    if expected.is_empty() {
        return false;
    }
    let a = provided.as_bytes();
    let b = expected.as_bytes();
    let la: usize = a.len();
    let lb: usize = b.len();
    let most: usize = if la > lb {
        la
    } else {
        lb
    };
    let mut diff: usize = la ^ lb;
    assert(la ^ lb == 0usize <==> la == lb) by (bit_vector);
    let mut i: usize = 0;
    while i < most
        invariant
            a@ == encode_utf8(provided@),
            b@ == encode_utf8(expected@),
            la == a@.len(),
            lb == b@.len(),
            most == if la > lb {
                la
            } else {
                lb
            },
            i <= most,
            diff == 0 <==> (la == lb && forall|k: int|
                0 <= k < i ==> #[trigger] padded(a@, k) == padded(b@, k)),
        decreases most - i,
    {
        let x: u8 = if i < a.len() {
            a[i]
        } else {
            0
        };
        let y: u8 = if i < b.len() {
            b[i]
        } else {
            0
        };
        assert(x == padded(a@, i as int) && y == padded(b@, i as int));
        let e: usize = (x ^ y) as usize;
        assert(x ^ y == 0u8 <==> x == y) by (bit_vector);
        assert(diff | e == 0usize <==> (diff == 0usize && e == 0usize)) by (bit_vector);
        diff = diff | e;
        i = i + 1;
    }
    proof {
        lemma_encode_injective(provided@, expected@);
        if diff == 0 {
            assert forall|k: int| 0 <= k < a@.len() implies a@[k] == b@[k] by {
                assert(padded(a@, k) == padded(b@, k));
            }
            assert(a@ =~= b@);
        }
    }
    diff == 0
}

/// The credentials of an `Authorization` header of the `Bearer` scheme, in
/// whichever case the scheme is written.
pub open spec fn bearer(value: Seq<char>) -> Option<Seq<char>> {
    match split_once(value, ' ') {
        Some((scheme, credentials)) => if same_ignoring_case(scheme, "bearer"@) {
            Some(credentials)
        } else {
            None
        },
        None => None,
    }
}

/// The credentials of an `Authorization` header of the `Bearer` scheme.
pub fn bearer_token(value: &str) -> (r: Option<String>)
    ensures
        opt_text(r) == bearer(value@),
{
    match text_split_once(value, ' ') {
        Some((scheme, credentials)) => {
            if text_eq_ignoring_case(scheme.as_str(), "bearer") {
                Some(credentials)
            } else {
                None
            }
        },
        None => None,
    }
}

/// The value that one pair of a query string gives for the key: the pair's key
/// must be the very text, and its value must be UTF-8 once percent-decoded.
pub open spec fn pair_value(pair: Seq<char>, key: Seq<char>) -> Option<Seq<char>> {
    match split_once(pair, '=') {
        Some((k, v)) => if k == key {
            decoded(v)
        } else {
            None
        },
        None => None,
    }
}

/// The first value that the pairs from position `i` on give for the key.
pub open spec fn value_from(pairs: Seq<Seq<char>>, key: Seq<char>, i: int) -> Option<Seq<char>>
    decreases pairs.len() - i,
{
    if i >= pairs.len() {
        None
    } else if pair_value(pairs[i], key) is Some {
        pair_value(pairs[i], key)
    } else {
        value_from(pairs, key, i + 1)
    }
}

/// The first value that a query string gives for the key.
pub open spec fn query_value(query: Seq<char>, key: Seq<char>) -> Option<Seq<char>> {
    value_from(split(query, '&'), key, 0)
}

/// The first value that a query string gives for the key, percent-decoded. A `+`
/// stays a plus.
pub fn query_param(query: &str, key: &str) -> (r: Option<String>)
    ensures
        opt_text(r) == query_value(query@, key@),
{
    let pairs = text_split(query, '&');
    let mut i: usize = 0;
    while i < pairs.len()
        invariant
            texts(pairs@) == split(query@, '&'),
            i <= pairs@.len(),
            query_value(query@, key@) == value_from(split(query@, '&'), key@, i as int),
        decreases pairs@.len() - i,
    {
        assert(texts(pairs@)[i as int] == pairs@[i as int]@);
        if let Some((k, v)) = text_split_once(pairs[i].as_str(), '=') {
            if text_eq(k.as_str(), key) {
                if let Some(d) = percent_decode_text(v.as_str()) {
                    return Some(d);
                }
            }
        }
        i = i + 1;
    }
    None
}

/// The credentials that an `Authorization` header brings.
pub open spec fn bearer_of(authorization: Option<Seq<char>>) -> Option<Seq<char>> {
    match authorization {
        Some(v) => bearer(v),
        None => None,
    }
}

/// The token that a query string brings.
pub open spec fn token_of(query: Option<Seq<char>>) -> Option<Seq<char>> {
    match query {
        Some(q) => query_value(q, "token"@),
        None => None,
    }
}

/// The request carries the secret: in its `Authorization` header or in its query
/// string. An empty secret is carried by no request.
pub open spec fn carried(
    authorization: Option<Seq<char>>,
    query: Option<Seq<char>>,
    expected: Seq<char>,
) -> bool {
    expected.len() > 0 && (bearer_of(authorization) == Some(expected) || token_of(query) == Some(
        expected,
    ))
}

/// Whether the request carries the expected token. Both places are looked at.
pub fn carries_token(authorization: Option<&str>, query: Option<&str>, expected: &str) -> (r: bool)
    ensures
        r == carried(opt_str(authorization), opt_str(query), expected@),
{
    let in_header = match authorization {
        Some(v) => match bearer_token(v) {
            Some(t) => tokens_match(t.as_str(), expected),
            None => false,
        },
        None => false,
    };
    let in_query = match query {
        Some(q) => match query_param(q, "token") {
            Some(t) => tokens_match(t.as_str(), expected),
            None => false,
        },
        None => false,
    };
    in_header || in_query
}

// ---------------------------------------------------------------------------
// Markup
// ---------------------------------------------------------------------------

/// How one character stands in markup.
pub open spec fn escaped_char(c: char) -> Seq<char> {
    if c == '&' {
        "&amp;"@
    } else if c == '<' {
        "&lt;"@
    } else if c == '>' {
        "&gt;"@
    } else if c == '"' {
        "&quot;"@
    } else if c == '\'' {
        "&#39;"@
    } else {
        seq![c]
    }
}

/// How a text stands in markup.
pub open spec fn escaped(s: Seq<char>) -> Seq<char>
    decreases s.len(),
{
    if s.len() == 0 {
        s
    } else {
        escaped(s.drop_last()) + escaped_char(s.last())
    }
}

/// Escape a text for markup.
pub fn escape_html(s: &str) -> (r: String)
    ensures
        r@ == escaped(s@),
{
    let cs = chars_of(s);
    let mut out = String::new();
    let mut i: usize = 0;
    assert(s@.take(0) =~= Seq::<char>::empty());
    while i < cs.len()
        invariant
            cs@ == s@,
            i <= cs@.len(),
            out@ == escaped(s@.take(i as int)),
        decreases cs@.len() - i,
    {
        let c = cs[i];
        assert(s@.take(i + 1).drop_last() =~= s@.take(i as int));
        if c == '&' {
            out.append("&amp;");
        } else if c == '<' {
            out.append("&lt;");
        } else if c == '>' {
            out.append("&gt;");
        } else if c == '"' {
            out.append("&quot;");
        } else if c == '\'' {
            out.append("&#39;");
        } else {
            out.push(c);
            assert(escaped(s@.take(i as int)).push(c) =~= escaped(s@.take(i as int)) + seq![c]);
        }
        i = i + 1;
    }
    assert(s@.take(s@.len() as int) =~= s@);
    out
}

/// The page around a title and a body that are markup already.
pub open spec fn page(title: Seq<char>, body: Seq<char>) -> Seq<char> {
    "<!DOCTYPE html>\n<html>\n<head>\n<meta charset=\"utf-8\">\n<title>"@ + title
        + "</title>\n<style>body{font-family:system-ui,sans-serif;max-width:42em;margin:2em auto;padding:0 1em}h1{font-size:1.3em}li{list-style:none;padding:.15em 0}.dir{font-weight:600}</style>\n</head>\n<body>\n<h1>"@
        + title + "</h1>\n<hr>\n"@ + body + "</body>\n</html>\n"@
}

/// The page around a title and a body that are markup already.
pub fn html_page(escaped_title: &str, escaped_body: &str) -> (r: String)
    ensures
        r@ == page(escaped_title@, escaped_body@),
{
    let mut out =
        "<!DOCTYPE html>\n<html>\n<head>\n<meta charset=\"utf-8\">\n<title>".to_owned();
    out.append(escaped_title);
    out.append(
        "</title>\n<style>body{font-family:system-ui,sans-serif;max-width:42em;margin:2em auto;padding:0 1em}h1{font-size:1.3em}li{list-style:none;padding:.15em 0}.dir{font-weight:600}</style>\n</head>\n<body>\n<h1>",
    );
    out.append(escaped_title);
    out.append("</h1>\n<hr>\n");
    out.append(escaped_body);
    out.append("</body>\n</html>\n");
    out
}

// ---------------------------------------------------------------------------
// Laws
// ---------------------------------------------------------------------------

/// The scheme of the header does not depend on case, and the credentials do:
/// whatever follows the first space is the token as it stands.
pub proof fn law_bearer_scheme_ignores_case(scheme: Seq<char>, credentials: Seq<char>)
    requires
        same_ignoring_case(scheme, "bearer"@),
    ensures
        bearer(scheme + seq![' '] + credentials) == Some(credentials),
{
    let v = scheme + seq![' '] + credentials;
    reveal_strlit("bearer");
    assert forall|i: int| 0 <= i < scheme.len() implies v[i] != ' ' by {
        assert(crate::text::lower(scheme[i]) == crate::text::lower("bearer"@[i]));
        assert(v[i] == scheme[i]);
    }
    assert(v[scheme.len() as int] == ' ');
    lemma_index_is(v, ' ', 0, scheme.len() as int);
    assert(v.subrange(0, scheme.len() as int) =~= scheme);
    assert(v.subrange(scheme.len() as int + 1, v.len() as int) =~= credentials);
}

/// The first position of a character that stands nowhere before it.
proof fn lemma_index_is(s: Seq<char>, c: char, i: int, p: int)
    requires
        0 <= i <= p < s.len(),
        s[p] == c,
        forall|k: int| i <= k < p ==> s[k] != c,
    ensures
        crate::text::index_from(s, c, i) == p,
    decreases p - i,
{
    if i < p {
        lemma_index_is(s, c, i + 1, p);
    }
}

/// Neither place takes from the other: whoever carries the secret in one of them is
/// let in, whatever stands in the other.
pub proof fn law_either_place_is_enough(
    authorization: Option<Seq<char>>,
    query: Option<Seq<char>>,
    expected: Seq<char>,
)
    requires
        expected.len() > 0,
    ensures
        carried(authorization, None, expected) ==> carried(authorization, query, expected),
        carried(None, query, expected) ==> carried(authorization, query, expected),
        carried(authorization, query, expected) ==> carried(authorization, None, expected)
            || carried(None, query, expected),
{
}

/// Escaped text opens no tag and ends no attribute: it holds none of `<`, `>`, `"`
/// and `'`.
pub proof fn law_escaped_text_is_inert(s: Seq<char>)
    ensures
        forall|i: int|
            0 <= i < escaped(s).len() ==> {
                let c = #[trigger] escaped(s)[i];
                c != '<' && c != '>' && c != '"' && c != '\''
            },
    decreases s.len(),
{
    if s.len() > 0 {
        law_escaped_text_is_inert(s.drop_last());
        reveal_strlit("&amp;");
        reveal_strlit("&lt;");
        reveal_strlit("&gt;");
        reveal_strlit("&quot;");
        reveal_strlit("&#39;");
        let head = escaped(s.drop_last());
        let e = escaped_char(s.last());
        assert forall|i: int| 0 <= i < escaped(s).len() implies {
            let c = #[trigger] escaped(s)[i];
            c != '<' && c != '>' && c != '"' && c != '\''
        } by {
            if i < head.len() {
                assert(escaped(s)[i] == head[i]);
            } else {
                assert(escaped(s)[i] == e[i - head.len()]);
            }
        }
    }
}

/// A text is escaped piece by piece.
pub proof fn lemma_escaped_pieces(a: Seq<char>, b: Seq<char>)
    ensures
        escaped(a + b) == escaped(a) + escaped(b),
    decreases b.len(),
{
    if b.len() == 0 {
        assert(a + b =~= a);
        assert(escaped(a) + escaped(b) =~= escaped(a));
    } else {
        lemma_escaped_pieces(a, b.drop_last());
        assert((a + b).drop_last() =~= a + b.drop_last());
        assert(escaped(a + b) =~= escaped(a) + escaped(b));
    }
}

/// One character is escaped on its own.
proof fn lemma_escaped_one(c: char)
    ensures
        escaped(seq![c]) == escaped_char(c),
{
    reveal_with_fuel(escaped, 2);
    assert(seq![c].drop_last() =~= Seq::<char>::empty());
    assert(escaped(seq![c]) =~= escaped_char(c));
}

/// Each character that means something in markup stands as its own entity, wherever in
/// a text it stands, and every other as itself.
pub proof fn law_markup_characters_stand_as_entities(a: Seq<char>, c: char, b: Seq<char>)
    ensures
        escaped(a + seq![c] + b) == escaped(a) + (match c {
            '&' => "&amp;"@,
            '<' => "&lt;"@,
            '>' => "&gt;"@,
            '"' => "&quot;"@,
            '\'' => "&#39;"@,
            _ => seq![c],
        }) + escaped(b),
        escaped(Seq::empty()) == Seq::<char>::empty(),
{
    lemma_escaped_pieces(a + seq![c], b);
    lemma_escaped_pieces(a, seq![c]);
    lemma_escaped_one(c);
}

/// Escaping loses nothing: different texts stand as different markup.
pub proof fn law_escaping_loses_nothing(a: Seq<char>, b: Seq<char>)
    requires
        escaped(a) == escaped(b),
    ensures
        a == b,
    decreases a.len() + b.len(),
{
    reveal_strlit("&amp;");
    reveal_strlit("&lt;");
    reveal_strlit("&gt;");
    reveal_strlit("&quot;");
    reveal_strlit("&#39;");
    if a.len() > 0 {
        lemma_escaped_pieces(seq![a[0]], a.skip(1));
        lemma_escaped_one(a[0]);
        assert(seq![a[0]] + a.skip(1) =~= a);
    }
    if b.len() > 0 {
        lemma_escaped_pieces(seq![b[0]], b.skip(1));
        lemma_escaped_one(b[0]);
        assert(seq![b[0]] + b.skip(1) =~= b);
    }
    if a.len() > 0 && b.len() > 0 {
        let x = escaped_char(a[0]);
        let y = escaped_char(b[0]);
        let p = escaped(a.skip(1));
        let q = escaped(b.skip(1));
        assert(x + p == y + q);
        assert((x + p)[0] == x[0] && (y + q)[0] == y[0]);
        if x.len() > 1 && y.len() > 1 {
            assert((x + p)[1] == x[1] && (y + q)[1] == y[1]);
        }
        assert(a[0] == b[0]);
        assert(p =~= (x + p).skip(x.len() as int));
        assert(q =~= (y + q).skip(y.len() as int));
        law_escaping_loses_nothing(a.skip(1), b.skip(1));
    } else if a.len() > 0 {
        assert(escaped(a)[0] == escaped_char(a[0])[0]);
    } else if b.len() > 0 {
        assert(escaped(b)[0] == escaped_char(b[0])[0]);
    } else {
        assert(a =~= b);
    }
}

/// A page says its title in its head and above its body, and shows its body whole.
pub proof fn law_page_shows_title_and_body(title: Seq<char>, body: Seq<char>)
    ensures
        occurs_in(page(title, body), "<title>"@ + title + "</title>"@),
        occurs_in(page(title, body), "<h1>"@ + title + "</h1>\n<hr>\n"@ + body + "</body>"@),
{
    reveal_strlit("<!DOCTYPE html>\n<html>\n<head>\n<meta charset=\"utf-8\">\n<title>");
    reveal_strlit("</title>\n<style>body{font-family:system-ui,sans-serif;max-width:42em;margin:2em auto;padding:0 1em}h1{font-size:1.3em}li{list-style:none;padding:.15em 0}.dir{font-weight:600}</style>\n</head>\n<body>\n<h1>");
    reveal_strlit("</h1>\n<hr>\n");
    reveal_strlit("</body>\n</html>\n");
    reveal_strlit("<title>");
    reveal_strlit("</title>");
    reveal_strlit("<h1>");
    reveal_strlit("</body>");
    let a = "<!DOCTYPE html>\n<html>\n<head>\n<meta charset=\"utf-8\">\n<title>"@;
    let b = "</title>\n<style>body{font-family:system-ui,sans-serif;max-width:42em;margin:2em auto;padding:0 1em}h1{font-size:1.3em}li{list-style:none;padding:.15em 0}.dir{font-weight:600}</style>\n</head>\n<body>\n<h1>"@;
    let c = "</h1>\n<hr>\n"@;
    let d = "</body>\n</html>\n"@;
    let la = a.len() as int;
    let lb = b.len() as int;
    let all = page(title, body);
    assert(a =~= a.take(la - 7) + "<title>"@);
    assert(b =~= "</title>"@ + b.skip(8));
    assert(b =~= b.take(lb - 4) + "<h1>"@);
    assert(d =~= "</body>"@ + d.skip(7));
    assert(all =~= a.take(la - 7) + ("<title>"@ + title + "</title>"@) + (b.skip(8) + title + c
        + body + d));
    lemma_stands_between(
        a.take(la - 7),
        "<title>"@ + title + "</title>"@,
        b.skip(8) + title + c + body + d,
    );
    assert(all =~= (a + title + b.take(lb - 4)) + ("<h1>"@ + title + c + body + "</body>"@)
        + d.skip(7));
    lemma_stands_between(
        a + title + b.take(lb - 4),
        "<h1>"@ + title + c + body + "</body>"@,
        d.skip(7),
    );
}

/// What [`value_from`] gives is what the first pair gives that gives anything.
proof fn lemma_value_from(pairs: Seq<Seq<char>>, key: Seq<char>, i: int)
    requires
        0 <= i <= pairs.len(),
    ensures
        value_from(pairs, key, i) is None <==> forall|k: int|
            i <= k < pairs.len() ==> pair_value(#[trigger] pairs[k], key) is None,
        value_from(pairs, key, i) is Some ==> exists|k: int|
            i <= k < pairs.len() && pair_value(#[trigger] pairs[k], key) == value_from(
                pairs,
                key,
                i,
            ) && forall|m: int| i <= m < k ==> pair_value(#[trigger] pairs[m], key) is None,
    decreases pairs.len() - i,
{
    if i < pairs.len() {
        lemma_value_from(pairs, key, i + 1);
        if pair_value(pairs[i], key) is Some {
            assert(pair_value(pairs[i], key) == value_from(pairs, key, i));
        } else if value_from(pairs, key, i + 1) is Some {
            let k = choose|k: int|
                i + 1 <= k < pairs.len() && pair_value(#[trigger] pairs[k], key) == value_from(
                    pairs,
                    key,
                    i + 1,
                ) && forall|m: int| i + 1 <= m < k ==> pair_value(#[trigger] pairs[m], key) is None;
            assert(pair_value(pairs[k], key) == value_from(pairs, key, i));
        }
    }
}

/// A pair of a query gives its value for its own key and for no other: the key is what
/// stands before its first `=`, and the value what the rest decodes to.
pub proof fn law_pair_gives_the_value_of_its_key(
    name: Seq<char>,
    value: Seq<char>,
    key: Seq<char>,
    bare: Seq<char>,
)
    requires
        !name.contains('='),
        !bare.contains('='),
    ensures
        pair_value(name + seq!['='] + value, key) == (if name == key {
            decoded(value)
        } else {
            None
        }),
        pair_value(bare, key) is None,
{
    let pair = name + seq!['='] + value;
    assert forall|k: int| 0 <= k < name.len() implies pair[k] != '=' by {
        assert(name.contains(name[k]));
    }
    lemma_index_is(pair, '=', 0, name.len() as int);
    assert(pair.subrange(0, name.len() as int) =~= name);
    assert(pair.subrange(name.len() as int + 1, pair.len() as int) =~= value);
    crate::text::law_splitting_once_is_at_the_first(bare, '=');
}

/// A query gives for a key what the first of its pairs gives that gives anything, and
/// nothing where none does.
pub proof fn law_first_value_of_a_query_counts(query: Seq<char>, key: Seq<char>, i: int)
    requires
        0 <= i < split(query, '&').len(),
        forall|k: int| 0 <= k < i ==> pair_value(#[trigger] split(query, '&')[k], key) is None,
    ensures
        pair_value(split(query, '&')[i], key) is Some ==> query_value(query, key) == pair_value(
            split(query, '&')[i],
            key,
        ),
        pair_value(split(query, '&')[i], key) is None && i == split(query, '&').len() - 1
            ==> query_value(query, key) is None,
{
    let pairs = split(query, '&');
    lemma_value_from(pairs, key, 0);
    if pair_value(pairs[i], key) is Some {
        let k = choose|k: int|
            0 <= k < pairs.len() && pair_value(#[trigger] pairs[k], key) == value_from(
                pairs,
                key,
                0,
            ) && forall|m: int| 0 <= m < k ==> pair_value(#[trigger] pairs[m], key) is None;
        assert(k == i);
    }
}

/// A request is let in by the secret itself and by nothing else: as the credentials of
/// a `Bearer` header, in whichever case that is written, or as the value of `token` in
/// the query. Where there is no secret, none is let in.
pub proof fn law_only_the_secret_lets_in(
    scheme: Seq<char>,
    credentials: Seq<char>,
    query: Seq<char>,
    expected: Seq<char>,
)
    requires
        !scheme.contains(' '),
    ensures
        carried(Some(scheme + seq![' '] + credentials), None, expected) <==> expected.len() > 0
            && credentials == expected && same_ignoring_case(scheme, "bearer"@),
        !carried(Some(scheme), None, expected),
        carried(None, Some(query), expected) <==> expected.len() > 0 && query_value(
            query,
            "token"@,
        ) == Some(expected),
        !carried(None, None, expected),
{
    let v = scheme + seq![' '] + credentials;
    crate::text::law_splitting_once_is_at_the_first(scheme, ' ');
    assert forall|k: int| 0 <= k < scheme.len() implies v[k] != ' ' by {
        assert(scheme.contains(scheme[k]));
    }
    lemma_index_is(v, ' ', 0, scheme.len() as int);
    assert(v.subrange(0, scheme.len() as int) =~= scheme);
    assert(v.subrange(scheme.len() as int + 1, v.len() as int) =~= credentials);
}

/// `GET` and `HEAD` read, and no other method does.
pub proof fn law_two_methods_read(m: Method)
    ensures
        m.reads() <==> m == Method::Get || m == Method::Head,
{
}

/// A token matches itself and nothing else; an empty one does not even match itself.
pub proof fn law_a_token_matches_itself_alone(provided: Seq<char>, expected: Seq<char>)
    ensures
        same_token(provided, expected) ==> provided == expected,
        expected.len() > 0 ==> same_token(expected, expected),
        !same_token(provided, Seq::empty()),
{
}

} // verus!

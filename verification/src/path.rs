//! Paths as text. Each system has a separator of its own: the slash, or the
//! backslash, beside which a slash separates too and a path may begin with a drive or
//! a share.

use vstd::prelude::*;
use vstd::string::*;

use crate::text::{
    char_is_letter, chars_of, index_from, is_letter, lemma_index_from, split, text_between,
    text_eq, text_split, texts,
};

verus! {

/// The separator of systems that have drives and shares.
pub const BACKSLASH: u8 = 0x5c;

/// The separator of some system.
pub open spec fn known_separator(sep: u8) -> bool {
    sep as char == '/' || sep == BACKSLASH
}

/// The character separates the components of a path.
pub open spec fn separates(c: char, sep: u8) -> bool {
    c == '/' || c == sep as char
}

/// Whether the character separates the components of a path.
fn is_separator(c: char, sep: u8) -> (r: bool)
    ensures
        r == separates(c, sep),
{
    c == '/' || c == sep as char
}

/// The path begins with a drive: a letter and a colon.
pub open spec fn has_drive(path: Seq<char>, sep: u8) -> bool {
    sep == BACKSLASH && path.len() >= 2 && is_letter(path[0]) && path[1] == ':'
}

/// Whether the path begins with a drive.
fn starts_with_drive(cs: &Vec<char>, sep: u8) -> (r: bool)
    ensures
        r == has_drive(cs@, sep),
{
    sep == BACKSLASH && cs.len() >= 2 && char_is_letter(cs[0]) && cs[1] == ':'
}

/// `leaf` under `base`: behind a separator, unless `base` ends with one, is empty or
/// is a bare drive.
pub open spec fn joined(base: Seq<char>, leaf: Seq<char>, sep: u8) -> Seq<char> {
    if base.len() == 0 || separates(base.last(), sep) || (has_drive(base, sep) && base.len() == 2) {
        base + leaf
    } else {
        base.push(sep as char) + leaf
    }
}

/// `leaf` under `base`. The leaf is a relative path.
pub fn join(base: &str, leaf: &str, sep: u8) -> (r: String)
    ensures
        r@ == joined(base@, leaf@, sep),
{
    let cs = chars_of(base);
    let mut r = base.to_owned();
    if !(cs.len() == 0 || is_separator(cs[cs.len() - 1], sep) || (starts_with_drive(&cs, sep)
        && cs.len() == 2)) {
        r.push(sep as char);
    }
    r.append(leaf);
    r
}

/// The text with a slash in place of every separator.
pub open spec fn unified(s: Seq<char>, sep: u8) -> Seq<char> {
    Seq::new(
        s.len(),
        |i: int|
            if separates(s[i], sep) {
                '/'
            } else {
                s[i]
            },
    )
}

/// The text with a slash in place of every separator.
fn unify(cs: &Vec<char>, sep: u8) -> (r: String)
    ensures
        r@ == unified(cs@, sep),
{
    let mut out = String::new();
    let mut i: usize = 0;
    while i < cs.len()
        invariant
            i <= cs@.len(),
            out@ == unified(cs@, sep).take(i as int),
        decreases cs@.len() - i,
    {
        if is_separator(cs[i], sep) {
            out.push('/');
        } else {
            out.push(cs[i]);
        }
        assert(unified(cs@, sep).take(i + 1) =~= unified(cs@, sep).take(i as int).push(
            unified(cs@, sep)[i as int],
        ));
        i = i + 1;
    }
    assert(unified(cs@, sep).take(cs@.len() as int) =~= unified(cs@, sep));
    out
}

/// The parts of a path between its separators.
pub open spec fn parts(path: Seq<char>, sep: u8) -> Seq<Seq<char>> {
    split(unified(path, sep), '/')
}

/// The parts of a path between its separators.
pub fn path_parts(path: &str, sep: u8) -> (r: Vec<String>)
    ensures
        texts(r@) == parts(path@, sep),
{
    text_split(unify(&chars_of(path), sep).as_str(), '/')
}

/// A text without separators is its only part.
pub proof fn lemma_one_part(s: Seq<char>, sep: u8)
    requires
        !s.contains('/'),
        !s.contains(sep as char),
    ensures
        parts(s, sep) == seq![s],
{
    assert forall|i: int| 0 <= i < s.len() implies !separates(#[trigger] s[i], sep) by {
        assert(s.contains(s[i]));
    }
    assert(unified(s, sep) =~= s);
    lemma_index_from(s, '/', 0);
    let j = index_from(s, '/', 0);
    if j < s.len() {
        assert(s.contains(s[j]));
    }
    assert(s.subrange(0, s.len() as int) =~= s);
    assert(parts(s, sep) =~= seq![s]);
}

/// The parts begin with a share: two separators, a server and a name.
pub open spec fn has_share(parts: Seq<Seq<char>>, sep: u8) -> bool {
    sep == BACKSLASH && parts.len() >= 4 && parts[0].len() == 0 && parts[1].len() == 0
        && parts[2].len() > 0 && parts[3].len() > 0
}

/// The last of the parts from `from` on and before `k` that names something: empty
/// parts and `.` are passed over, and `..` names nothing.
pub open spec fn last_named(parts: Seq<Seq<char>>, from: int, k: int) -> Option<Seq<char>>
    decreases k - from,
{
    if k <= from {
        None
    } else if parts[k - 1].len() == 0 || parts[k - 1] == "."@ {
        last_named(parts, from, k - 1)
    } else if parts[k - 1] == ".."@ {
        None
    } else {
        Some(parts[k - 1])
    }
}

/// The final component of a path, where it has one: neither a drive nor a share is
/// one.
pub open spec fn file_name(path: Seq<char>, sep: u8) -> Option<Seq<char>> {
    if has_drive(path, sep) {
        let p = parts(path.skip(2), sep);
        last_named(p, 0, p.len() as int)
    } else {
        let p = parts(path, sep);
        last_named(
            p,
            if has_share(p, sep) {
                4
            } else {
                0
            },
            p.len() as int,
        )
    }
}

/// The final component of a path, where it has one.
pub fn path_file_name(path: &str, sep: u8) -> (r: Option<String>)
    ensures
        match r {
            Some(s) => file_name(path@, sep) == Some(s@),
            None => file_name(path@, sep) is None,
        },
{
    let cs = chars_of(path);
    let drive = starts_with_drive(&cs, sep);
    let whole = if drive {
        let rest = text_between(&cs, 2, cs.len());
        assert(rest@ =~= path@.skip(2));
        rest
    } else {
        path.to_owned()
    };
    let names = path_parts(whole.as_str(), sep);
    let ghost p = parts(whole@, sep);
    assert(texts(names@) == p);
    assert(forall|i: int| 0 <= i < names@.len() ==> #[trigger] p[i] == names@[i]@);
    let share = !drive && sep == BACKSLASH && names.len() >= 4 && names[0].as_str().is_empty()
        && names[1].as_str().is_empty() && !names[2].as_str().is_empty()
        && !names[3].as_str().is_empty();
    let from: usize = if share {
        4
    } else {
        0
    };
    let mut k: usize = names.len();
    while k > from
        invariant
            texts(names@) == p,
            from <= k <= names@.len(),
            file_name(path@, sep) == last_named(p, from as int, k as int),
        decreases k,
    {
        let part = &names[k - 1];
        assert(texts(names@)[k - 1] == part@);
        if part.as_str().is_empty() || text_eq(part.as_str(), ".") {
            k = k - 1;
        } else if text_eq(part.as_str(), "..") {
            return None;
        } else {
            return Some(part.clone());
        }
    }
    None
}

// ---------------------------------------------------------------------------
// Laws
// ---------------------------------------------------------------------------

/// A leaf stands under its base behind exactly one separator: the base brings it, or it
/// is put between; only an empty base and a bare drive take the leaf as it is.
pub proof fn law_leaf_stands_behind_one_separator(base: Seq<char>, leaf: Seq<char>, sep: u8)
    requires
        known_separator(sep),
    ensures
        base.len() == 0 ==> joined(base, leaf, sep) == leaf,
        base.len() > 0 && (base.last() == '/' || base.last() == sep as char) ==> joined(
            base,
            leaf,
            sep,
        ) == base + leaf,
        base.len() > 0 && sep as char == '/' && base.last() != '/' ==> joined(base, leaf, sep)
            == base + seq!['/'] + leaf,
        base.len() > 2 && sep == BACKSLASH && base.last() != '/' && base.last() != '\\' ==> joined(
            base,
            leaf,
            sep,
        ) == base + seq!['\\'] + leaf,
{
    if base.len() == 0 {
        assert(base + leaf =~= leaf);
    }
    assert(base.push(sep as char) =~= base + seq![sep as char]);
}

/// The parts of a joined path are those of what is joined.
proof fn lemma_parts_joined(a: Seq<char>, c: char, b: Seq<char>, sep: u8)
    requires
        separates(c, sep),
    ensures
        parts(a + seq![c] + b, sep) == parts(a, sep) + parts(b, sep),
{
    let none = Seq::<char>::empty();
    assert(unified(a + seq![c] + b, sep) =~= unified(a, sep) + seq!['/'] + unified(b, sep));
    crate::text::law_joined_texts_split_apart(unified(a, sep), unified(b, sep), none, '/');
}

/// The name names something: it is filled, is neither `.` nor `..`, and holds nothing
/// that separates.
pub open spec fn names_something(name: Seq<char>, sep: u8) -> bool {
    &&& name.len() > 0
    &&& name != seq!['.']
    &&& name != seq!['.', '.']
    &&& !name.contains('/')
    &&& !name.contains(sep as char)
}

/// The final component of a path is the name behind its last separator, also where
/// separators follow it; where a path goes up last, it has none. On systems with drives
/// the same holds behind a drive.
pub proof fn law_final_component_is_the_last_name(
    dir: Seq<char>,
    c: char,
    name: Seq<char>,
    sep: u8,
)
    requires
        known_separator(sep),
        separates(c, sep),
        names_something(name, sep),
        sep as char == '/' || has_drive(dir, sep),
    ensures
        file_name(dir + seq![c] + name, sep) == Some(name),
        file_name(dir + seq![c] + name + seq![c], sep) == Some(name),
        file_name(dir + seq![c] + seq!['.', '.'], sep) is None,
        sep as char == '/' ==> file_name(name, sep) == Some(name),
        sep as char == '/' ==> file_name(Seq::empty(), sep) is None,
{
    reveal_strlit(".");
    reveal_strlit("..");
    assert("."@ =~= seq!['.']);
    assert(".."@ =~= seq!['.', '.']);
    let none = Seq::<char>::empty();
    let up = seq!['.', '.'];
    let whole = if has_drive(dir, sep) {
        dir.skip(2)
    } else {
        dir
    };
    lemma_one_part(name, sep);
    lemma_one_part(none, sep);
    lemma_one_part(up, sep);
    lemma_parts_joined(whole, c, name, sep);
    lemma_parts_joined(whole, c, up, sep);
    let p = parts(whole, sep);
    let a = whole + seq![c] + name;
    lemma_parts_joined(a, c, none, sep);
    assert(a + seq![c] + none =~= a + seq![c]);
    let n = p.len() as int;
    let x = parts(a, sep);
    let y = parts(a + seq![c], sep);
    let z = parts(whole + seq![c] + up, sep);
    assert(x =~= p.push(name));
    assert(y =~= p.push(name).push(none));
    assert(z =~= p.push(up));
    reveal_with_fuel(last_named, 3);
    assert(last_named(x, 0, n + 1) == Some(name));
    assert(last_named(y, 0, n + 2) == Some(name));
    assert(last_named(z, 0, n + 1) is None);
    if has_drive(dir, sep) {
        assert((dir + seq![c] + name).skip(2) =~= a);
        assert((dir + seq![c] + name + seq![c]).skip(2) =~= a + seq![c]);
        assert((dir + seq![c] + up).skip(2) =~= whole + seq![c] + up);
    } else {
        assert(last_named(seq![name], 0, 1) == Some(name));
        assert(last_named(seq![none], 0, 1) is None);
    }
}

} // verus!

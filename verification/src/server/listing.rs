//! Listings of a directory: which entries are shown, in which order, and how.

use vstd::prelude::*;
use vstd::string::*;
use vstd::utf8::*;

use crate::bytes::byte_index_from;
use crate::order::{
    law_sorted_is_a_permutation, law_sorted_is_in_order, sorted, stable_sort, Ranked,
};
use crate::percent::{encode_href, href_of};
use crate::server::http::{escape_html, escaped};
use crate::text::{
    chars_of, index_from, lemma_index_at, lemma_index_from, lemma_lex_total, lemma_lex_trans,
    lex_le, text_le,
};

verus! {

// ---------------------------------------------------------------------------
// Staying under a root
// ---------------------------------------------------------------------------

/// The non-empty pieces between the separators, from position `i` on.
pub open spec fn pieces_from(path: Seq<u8>, sep: u8, i: int) -> Seq<Seq<u8>>
    decreases path.len() - i,
    when 0 <= i <= path.len()
{
    proof {
        lemma_index_from(path, sep, i);
    }
    let j = index_from(path, sep, i);
    let head = if i < j {
        seq![path.subrange(i, j)]
    } else {
        Seq::empty()
    };
    if j < path.len() {
        head + pieces_from(path, sep, j + 1)
    } else {
        head
    }
}

/// The components of a resolved path: the non-empty pieces between its
/// separators.
pub open spec fn pieces(path: Seq<u8>, sep: u8) -> Seq<Seq<u8>> {
    pieces_from(path, sep, 0)
}

/// A resolved path lies under the root, or is the root: its components start with
/// those of the root.
pub open spec fn under(path: Seq<u8>, root: Seq<u8>, sep: u8) -> bool {
    pieces(root, sep).is_prefix_of(pieces(path, sep))
}

/// The components of a resolved path.
fn pieces_of(path: &[u8], sep: u8) -> (r: Vec<Vec<u8>>)
    ensures
        crate::proc::byte_lists(r@) == pieces(path@, sep),
{
    let mut out: Vec<Vec<u8>> = Vec::new();
    let mut i: usize = 0;
    assert(crate::proc::byte_lists(out@) + pieces_from(path@, sep, 0) =~= pieces(path@, sep));
    loop
        invariant
            i <= path@.len(),
            crate::proc::byte_lists(out@) + pieces_from(path@, sep, i as int) == pieces(path@, sep),
        decreases path@.len() - i,
    {
        let j: usize = byte_index_from(path, sep, i);
        let ghost before = out@;
        if i < j {
            let piece = crate::bytes::bytes_between(path, i, j);
            out.push(piece);
            assert(crate::proc::byte_lists(out@) =~= crate::proc::byte_lists(before).push(
                path@.subrange(i as int, j as int),
            ));
        }
        if j >= path.len() {
            assert(crate::proc::byte_lists(out@) =~= crate::proc::byte_lists(before) + pieces_from(
                path@,
                sep,
                i as int,
            ));
            return out;
        }
        assert(crate::proc::byte_lists(out@) + pieces_from(path@, sep, j + 1)
            =~= crate::proc::byte_lists(before) + pieces_from(path@, sep, i as int));
        i = j + 1;
    }
}

/// Whether two byte strings are the same.
fn bytes_eq(a: &Vec<u8>, b: &Vec<u8>) -> (r: bool)
    ensures
        r == (a@ == b@),
{
    if a.len() != b.len() {
        return false;
    }
    let mut i: usize = 0;
    while i < a.len()
        invariant
            a@.len() == b@.len(),
            i <= a@.len(),
            forall|k: int| 0 <= k < i ==> a@[k] == b@[k],
        decreases a@.len() - i,
    {
        if a[i] != b[i] {
            return false;
        }
        i = i + 1;
    }
    assert(a@ =~= b@);
    true
}

/// Whether a resolved path lies under the root, or is the root.
pub fn under_root(path: &[u8], root: &[u8], sep: u8) -> (r: bool)
    ensures
        r == under(path@, root@, sep),
{
    let p = pieces_of(path, sep);
    let q = pieces_of(root, sep);
    let ghost pp = crate::proc::byte_lists(p@);
    let ghost qq = crate::proc::byte_lists(q@);
    if q.len() > p.len() {
        return false;
    }
    let mut i: usize = 0;
    while i < q.len()
        invariant
            pp == crate::proc::byte_lists(p@),
            qq == crate::proc::byte_lists(q@),
            pp == pieces(path@, sep),
            qq == pieces(root@, sep),
            q@.len() <= p@.len(),
            i <= q@.len(),
            forall|k: int| 0 <= k < i ==> qq[k] == pp[k],
        decreases q@.len() - i,
    {
        assert(qq[i as int] == q@[i as int]@ && pp[i as int] == p@[i as int]@);
        if !bytes_eq(&q[i], &p[i]) {
            assert(pp.subrange(0, qq.len() as int)[i as int] != qq[i as int]);
            return false;
        }
        i = i + 1;
    }
    assert(qq =~= pp.subrange(0, qq.len() as int));
    true
}

// ---------------------------------------------------------------------------
// Entries
// ---------------------------------------------------------------------------

/// What a directory holds under one name.
#[derive(Debug)]
pub struct RawEntry {
    /// The name.
    pub name: String,
    /// The path that the entry resolves to, where it resolves.
    pub target: Option<Vec<u8>>,
    /// What it resolves to is a directory.
    pub target_is_dir: bool,
    /// Its size, in bytes.
    pub size: u64,
}

/// An entry of a listing.
#[derive(Debug)]
pub struct ListEntry {
    /// The name.
    pub name: String,
    /// The entry is a directory.
    pub is_dir: bool,
    /// The size of a file; 0 for a directory.
    pub size: u64,
}

impl Ranked for ListEntry {
    /// Directories stand before files; among each, names stand in the order of
    /// their code points.
    open spec fn not_after(self, other: Self) -> bool {
        if self.is_dir == other.is_dir {
            lex_le(self.name@, other.name@)
        } else {
            self.is_dir
        }
    }

    proof fn total(a: Self, b: Self) {
        lemma_lex_total(a.name@, b.name@, 0);
    }

    proof fn transitive(a: Self, b: Self, c: Self) {
        if a.is_dir == b.is_dir && b.is_dir == c.is_dir {
            lemma_lex_trans(a.name@, b.name@, c.name@, 0);
        }
    }

    fn is_not_after(&self, other: &Self) -> (r: bool) {
        if self.is_dir == other.is_dir {
            text_le(self.name.as_str(), other.name.as_str())
        } else {
            self.is_dir
        }
    }
}

/// The entry may be shown: its name does not start with a dot, and it resolves to
/// something under the root. What is not shown would not be served either.
pub open spec fn shown(e: RawEntry, root: Seq<u8>, sep: u8) -> bool {
    &&& !(e.name@.len() > 0 && e.name@[0] == '.')
    &&& e.target matches Some(t) && under(t@, root, sep)
}

/// The entries to be shown among the first `n`, in the order they came in.
pub open spec fn shown_entries(raw: Seq<RawEntry>, root: Seq<u8>, sep: u8, n: nat) -> Seq<ListEntry>
    decreases n,
{
    if n == 0 {
        Seq::empty()
    } else {
        let before = shown_entries(raw, root, sep, (n - 1) as nat);
        let e = raw[n - 1];
        if shown(e, root, sep) {
            before.push(
                ListEntry {
                    name: e.name,
                    is_dir: e.target_is_dir,
                    size: if e.target_is_dir {
                        0
                    } else {
                        e.size
                    },
                },
            )
        } else {
            before
        }
    }
}

/// The entries of a listing: those to be shown, directories first and then by
/// name.
pub open spec fn listed(raw: Seq<RawEntry>, root: Seq<u8>, sep: u8) -> Seq<ListEntry> {
    sorted(shown_entries(raw, root, sep, raw.len()))
}

/// The entries of a listing.
pub fn list_entries(raw: &Vec<RawEntry>, root: &[u8], sep: u8) -> (r: Vec<ListEntry>)
    ensures
        r@ == listed(raw@, root@, sep),
{
    let mut out: Vec<ListEntry> = Vec::new();
    let mut i: usize = 0;
    while i < raw.len()
        invariant
            i <= raw@.len(),
            out@ == shown_entries(raw@, root@, sep, i as nat),
        decreases raw@.len() - i,
    {
        let e = &raw[i];
        let cs = chars_of(e.name.as_str());
        let hidden = cs.len() > 0 && cs[0] == '.';
        let inside = match &e.target {
            Some(t) => under_root(t.as_slice(), root, sep),
            None => false,
        };
        if !hidden && inside {
            out.push(
                ListEntry {
                    name: e.name.clone(),
                    is_dir: e.target_is_dir,
                    size: if e.target_is_dir {
                        0
                    } else {
                        e.size
                    },
                },
            );
        }
        i = i + 1;
    }
    stable_sort(out)
}

/// One line of a listing, under the given base.
pub open spec fn item(base: Seq<char>, e: ListEntry, note: Seq<char>) -> Seq<char> {
    let slash = if e.is_dir {
        "/"@
    } else {
        ""@
    };
    "<li><a class=\""@ + (if e.is_dir {
        "dir"@
    } else {
        "file"@
    }) + "\" href=\""@ + base + href_of(encode_utf8(e.name@)) + slash + "\">"@ + escaped(e.name@)
        + slash + "</a>"@ + note + "</li>\n"@
}

/// One line of a listing, under the given base.
pub fn item_html(base: &str, e: &ListEntry, note: &str) -> (r: String)
    ensures
        r@ == item(base@, *e, note@),
{
    let slash = if e.is_dir {
        "/"
    } else {
        ""
    };
    let mut out = "<li><a class=\"".to_owned();
    out.append(
        if e.is_dir {
            "dir"
        } else {
            "file"
        },
    );
    out.append("\" href=\"");
    out.append(base);
    out.append(encode_href(e.name.as_str()).as_str());
    out.append(slash);
    out.append("\">");
    out.append(escape_html(e.name.as_str()).as_str());
    out.append(slash);
    out.append("</a>");
    out.append(note);
    out.append("</li>\n");
    out
}

// ---------------------------------------------------------------------------
// Laws
// ---------------------------------------------------------------------------

/// A path lies under itself, and what lies under something under the root lies
/// under the root.
pub proof fn law_under_is_an_order(a: Seq<u8>, b: Seq<u8>, c: Seq<u8>, sep: u8)
    ensures
        under(a, a, sep),
        under(a, b, sep) && under(b, c, sep) ==> under(a, c, sep),
{
    let p = pieces(a, sep);
    let q = pieces(b, sep);
    let r = pieces(c, sep);
    assert(p =~= p.subrange(0, p.len() as int));
    if under(a, b, sep) && under(b, c, sep) {
        assert(r =~= p.subrange(0, r.len() as int)) by {
            assert(q =~= p.subrange(0, q.len() as int));
            assert(r =~= q.subrange(0, r.len() as int));
            assert forall|i: int| 0 <= i < r.len() implies r[i] == p[i] by {
                assert(q.subrange(0, r.len() as int)[i] == q[i]);
                assert(p.subrange(0, q.len() as int)[i] == p[i]);
            }
        }
    }
}

/// Whatever is to be shown came in as something that may be shown.
proof fn lemma_shown_entries(raw: Seq<RawEntry>, root: Seq<u8>, sep: u8, n: nat, k: int)
    requires
        n <= raw.len(),
        0 <= k < shown_entries(raw, root, sep, n).len(),
    ensures
        exists|i: int|
            0 <= i < n && shown(#[trigger] raw[i], root, sep) && raw[i].name == shown_entries(
                raw,
                root,
                sep,
                n,
            )[k].name,
    decreases n,
{
    let before = shown_entries(raw, root, sep, (n - 1) as nat);
    if k < before.len() {
        lemma_shown_entries(raw, root, sep, (n - 1) as nat, k);
    } else {
        assert(shown(raw[n - 1], root, sep));
    }
}

/// Nothing that starts with a dot and nothing that resolves outside the root is
/// ever listed: every line of a listing is that of an entry that may be shown.
pub proof fn law_listing_hides_what_is_not_served(
    raw: Seq<RawEntry>,
    root: Seq<u8>,
    sep: u8,
    k: int,
)
    requires
        0 <= k < listed(raw, root, sep).len(),
    ensures
        exists|i: int|
            0 <= i < raw.len() && shown(#[trigger] raw[i], root, sep) && raw[i].name == listed(
                raw,
                root,
                sep,
            )[k].name,
{
    broadcast use vstd::seq_lib::group_to_multiset_ensures;

    let all = shown_entries(raw, root, sep, raw.len());
    let list = listed(raw, root, sep);
    law_sorted_is_a_permutation(all);
    assert(list.contains(list[k]));
    assert(list.to_multiset().contains(list[k]));
    assert(all.contains(list[k]));
    let i = choose|i: int| 0 <= i < all.len() && all[i] == list[k];
    lemma_shown_entries(raw, root, sep, raw.len(), i);
}

/// A listing shows directories first, and each in the order of their names.
pub proof fn law_listing_is_in_order(raw: Seq<RawEntry>, root: Seq<u8>, sep: u8, i: int, j: int)
    requires
        0 <= i < j < listed(raw, root, sep).len(),
    ensures
        ({
            let a = listed(raw, root, sep)[i];
            let b = listed(raw, root, sep)[j];
            &&& b.is_dir ==> a.is_dir
            &&& a.is_dir == b.is_dir ==> lex_le(a.name@, b.name@)
        }),
{
    law_sorted_is_in_order(shown_entries(raw, root, sep, raw.len()));
    assert(listed(raw, root, sep)[i].not_after(listed(raw, root, sep)[j]));
}

/// The components of what stands behind another text are found where it stands.
proof fn lemma_pieces_shift(x: Seq<u8>, b: Seq<u8>, sep: u8, k: int)
    requires
        0 <= k <= b.len(),
    ensures
        pieces_from(x + b, sep, x.len() + k) == pieces_from(b, sep, k),
    decreases b.len() - k,
{
    let n = x.len() as int;
    lemma_index_from(b, sep, k);
    let j = index_from(b, sep, k);
    assert forall|m: int| n + k <= m < n + j implies #[trigger] (x + b)[m] != sep by {
        assert((x + b)[m] == b[m - n]);
    }
    lemma_index_at(x + b, sep, n + k, n + j);
    assert((x + b).subrange(n + k, n + j) =~= b.subrange(k, j));
    if j < b.len() {
        lemma_pieces_shift(x, b, sep, j + 1);
    }
}

/// The components of a joined path, from position `i` of the first part on.
proof fn lemma_pieces_joined(a: Seq<u8>, b: Seq<u8>, sep: u8, i: int)
    requires
        0 <= i <= a.len(),
    ensures
        pieces_from(a + seq![sep] + b, sep, i) == pieces_from(a, sep, i) + pieces(b, sep),
    decreases a.len() - i,
{
    let whole = a + seq![sep] + b;
    lemma_index_from(a, sep, i);
    let j = index_from(a, sep, i);
    assert forall|m: int| i <= m < j implies #[trigger] whole[m] != sep by {
        assert(whole[m] == a[m]);
    }
    lemma_index_at(whole, sep, i, j);
    assert(whole.subrange(i, j) =~= a.subrange(i, j));
    if j < a.len() {
        lemma_pieces_joined(a, b, sep, j + 1);
        assert(pieces_from(whole, sep, i) =~= pieces_from(a, sep, i) + pieces(b, sep));
    } else {
        let x = a + seq![sep];
        assert(whole =~= x + b);
        lemma_pieces_shift(x, b, sep, 0);
        assert(pieces_from(whole, sep, i) =~= pieces_from(a, sep, i) + pieces(b, sep));
    }
}

/// The components of a path are those of what stands before a separator and then those
/// of what stands behind it; a name without a separator is its own component, and
/// nothing has none.
pub proof fn law_components_stand_between_separators(
    a: Seq<u8>,
    b: Seq<u8>,
    name: Seq<u8>,
    sep: u8,
)
    requires
        name.len() > 0,
        !name.contains(sep),
    ensures
        pieces(a + seq![sep] + b, sep) == pieces(a, sep) + pieces(b, sep),
        pieces(name, sep) == seq![name],
        pieces(Seq::empty(), sep) == Seq::<Seq<u8>>::empty(),
{
    lemma_pieces_joined(a, b, sep, 0);
    assert forall|m: int| 0 <= m < name.len() implies #[trigger] name[m] != sep by {
        assert(name.contains(name[m]));
    }
    lemma_index_at(name, sep, 0, name.len() as int);
    assert(name.subrange(0, name.len() as int) =~= name);
    lemma_index_at(Seq::<u8>::empty(), sep, 0, 0);
}

/// Whatever stands behind the root and a separator lies under the root; what only goes
/// on where the name of the root ends lies beside it, and so does everything under
/// that; and the directory that holds the root does not lie under it.
pub proof fn law_neighbours_of_the_root_are_not_under_it(
    dir: Seq<u8>,
    name: Seq<u8>,
    more: Seq<u8>,
    rest: Seq<u8>,
    sep: u8,
)
    requires
        name.len() > 0,
        !name.contains(sep),
        more.len() > 0,
        !more.contains(sep),
    ensures
        ({
            let root = dir + seq![sep] + name;
            &&& under(root + seq![sep] + rest, root, sep)
            &&& !under(root + more, root, sep)
            &&& !under(root + more + seq![sep] + rest, root, sep)
            &&& !under(dir, root, sep)
        }),
{
    let root = dir + seq![sep] + name;
    let longer = name + more;
    assert(!longer.contains(sep)) by {
        if longer.contains(sep) {
            let m = choose|m: int| 0 <= m < longer.len() && longer[m] == sep;
            if m < name.len() {
                assert(name.contains(name[m]));
            } else {
                assert(more.contains(more[m - name.len()]));
            }
        }
    }
    law_components_stand_between_separators(dir, name, name, sep);
    law_components_stand_between_separators(root, rest, name, sep);
    let p = pieces(root, sep);
    let inside = pieces(root + seq![sep] + rest, sep);
    assert(p =~= inside.subrange(0, p.len() as int));
    assert(root + more =~= dir + seq![sep] + longer);
    law_components_stand_between_separators(dir, longer, longer, sep);
    law_components_stand_between_separators(root + more, rest, name, sep);
    let last = p.len() - 1;
    assert(p[last] == name);
    let beside = pieces(root + more, sep);
    assert(beside[last] == longer);
    assert(name.len() != longer.len());
    assert(beside.subrange(0, p.len() as int)[last] == longer);
    let further = pieces(root + more + seq![sep] + rest, sep);
    assert(further[last] == longer);
    assert(further.subrange(0, p.len() as int)[last] == longer);
    assert(pieces(dir, sep).len() < p.len());
}

/// What is shown of the first `n` entries: each that may be shown, as what it is.
proof fn lemma_shown_entry_is_true(raw: Seq<RawEntry>, root: Seq<u8>, sep: u8, n: nat, k: int)
    requires
        n <= raw.len(),
        0 <= k < shown_entries(raw, root, sep, n).len(),
    ensures
        exists|i: int| 0 <= i < n && #[trigger] stands_for(
            raw[i],
            shown_entries(raw, root, sep, n)[k],
        ) && shown(raw[i], root, sep),
    decreases n,
{
    let before = shown_entries(raw, root, sep, (n - 1) as nat);
    let all = shown_entries(raw, root, sep, n);
    if k < before.len() {
        lemma_shown_entry_is_true(raw, root, sep, (n - 1) as nat, k);
        assert(all[k] == before[k]);
    } else {
        assert(stands_for(raw[n - 1], all[k]));
    }
}

/// Every entry among the first `n` that may be shown is shown.
proof fn lemma_shown_entry_is_there(raw: Seq<RawEntry>, root: Seq<u8>, sep: u8, n: nat, i: int)
    requires
        0 <= i < n <= raw.len(),
        shown(raw[i], root, sep),
    ensures
        exists|k: int| 0 <= k < shown_entries(raw, root, sep, n).len() && #[trigger] stands_for(
            raw[i],
            shown_entries(raw, root, sep, n)[k],
        ),
    decreases n,
{
    let before = shown_entries(raw, root, sep, (n - 1) as nat);
    let all = shown_entries(raw, root, sep, n);
    if i < n - 1 {
        lemma_shown_entry_is_there(raw, root, sep, (n - 1) as nat, i);
        let k = choose|k: int|
            0 <= k < before.len() && #[trigger] stands_for(raw[i], before[k]);
        assert(all[k] == before[k]);
    } else {
        assert(stands_for(raw[i], all[before.len() as int]));
    }
}

/// As many entries are shown as may be.
proof fn lemma_shown_count(raw: Seq<RawEntry>, root: Seq<u8>, sep: u8, n: nat)
    requires
        n <= raw.len(),
    ensures
        shown_entries(raw, root, sep, n).len() == raw.take(n as int).filter(
            |e: RawEntry| shown(e, root, sep),
        ).len(),
    decreases n,
{
    reveal(Seq::filter);
    if n > 0 {
        lemma_shown_count(raw, root, sep, (n - 1) as nat);
        assert(raw.take(n as int).drop_last() =~= raw.take(n - 1));
    }
}

/// The line stands for the entry: it has its name, says whether it is a directory, and
/// for a file gives its size.
pub open spec fn stands_for(e: RawEntry, line: ListEntry) -> bool {
    &&& line.name@ == e.name@
    &&& line.is_dir == e.target_is_dir
    &&& !line.is_dir ==> line.size == e.size
}

/// The entry is served: its name does not start with a dot, and it resolves to something
/// under the root.
pub open spec fn served(e: RawEntry, root: Seq<u8>, sep: u8) -> bool {
    (e.name@.len() == 0 || e.name@[0] != '.') && match e.target {
        Some(t) => under(t@, root, sep),
        None => false,
    }
}

/// A listing shows everything that is served: each entry that is has its line.
pub proof fn law_listing_shows_what_is_served(raw: Seq<RawEntry>, root: Seq<u8>, sep: u8, i: int)
    requires
        0 <= i < raw.len(),
        served(raw[i], root, sep),
    ensures
        exists|k: int| 0 <= k < listed(raw, root, sep).len() && #[trigger] stands_for(
            raw[i],
            listed(raw, root, sep)[k],
        ),
{
    broadcast use vstd::seq_lib::group_to_multiset_ensures;

    let all = shown_entries(raw, root, sep, raw.len());
    let list = listed(raw, root, sep);
    law_sorted_is_a_permutation(all);
    lemma_shown_entry_is_there(raw, root, sep, raw.len(), i);
    let m = choose|m: int| 0 <= m < all.len() && #[trigger] stands_for(raw[i], all[m]);
    assert(all.contains(all[m]));
    assert(all.to_multiset().contains(all[m]));
    assert(list.contains(all[m]));
    let k = choose|k: int| 0 <= k < list.len() && list[k] == all[m];
    assert(stands_for(raw[i], list[k]));
}

/// A listing shows nothing but what is served, as what it is: each line stands for such
/// an entry, and there are as many lines as such entries.
pub proof fn law_listed_lines_are_true(raw: Seq<RawEntry>, root: Seq<u8>, sep: u8, k: int)
    requires
        0 <= k < listed(raw, root, sep).len(),
    ensures
        exists|i: int|
            0 <= i < raw.len() && served(raw[i], root, sep) && #[trigger] stands_for(
                raw[i],
                listed(raw, root, sep)[k],
            ),
        listed(raw, root, sep).len() == raw.filter(|e: RawEntry| served(e, root, sep)).len(),
{
    broadcast use vstd::seq_lib::group_to_multiset_ensures;

    let all = shown_entries(raw, root, sep, raw.len());
    let list = listed(raw, root, sep);
    law_sorted_is_a_permutation(all);
    assert(list.contains(list[k]));
    assert(list.to_multiset().contains(list[k]));
    assert(all.contains(list[k]));
    let m = choose|m: int| 0 <= m < all.len() && all[m] == list[k];
    lemma_shown_entry_is_true(raw, root, sep, raw.len(), m);
    let i = choose|i: int|
        0 <= i < raw.len() && #[trigger] stands_for(raw[i], all[m]) && shown(raw[i], root, sep);
    assert(stands_for(raw[i], list[k]));
    lemma_shown_count(raw, root, sep, raw.len());
    assert(raw.take(raw.len() as int) =~= raw);
    let f = |e: RawEntry| shown(e, root, sep);
    let g = |e: RawEntry| served(e, root, sep);
    assert(f =~= g);
    assert(list.len() == list.to_multiset().len());
    assert(all.len() == all.to_multiset().len());
}

/// The line of an entry links to the entry under the base and shows its name; a
/// directory is marked as one, and its link and its name end with a slash.
pub proof fn law_item_links_to_its_entry(base: Seq<char>, e: ListEntry, note: Seq<char>)
    ensures
        e.is_dir ==> item(base, e, note) == "<li><a class=\"dir\" href=\""@ + base + href_of(
            encode_utf8(e.name@),
        ) + "/\">"@ + escaped(e.name@) + "/</a>"@ + note + "</li>\n"@,
        !e.is_dir ==> item(base, e, note) == "<li><a class=\"file\" href=\""@ + base + href_of(
            encode_utf8(e.name@),
        ) + "\">"@ + escaped(e.name@) + "</a>"@ + note + "</li>\n"@,
{
    reveal_strlit("<li><a class=\"dir\" href=\"");
    reveal_strlit("<li><a class=\"file\" href=\"");
    reveal_strlit("<li><a class=\"");
    reveal_strlit("dir");
    reveal_strlit("file");
    reveal_strlit("\" href=\"");
    reveal_strlit("/\">");
    reveal_strlit("\">");
    reveal_strlit("/</a>");
    reveal_strlit("</a>");
    reveal_strlit("/");
    reveal_strlit("");
    let h = href_of(encode_utf8(e.name@));
    let t = escaped(e.name@);
    assert("<li><a class=\"dir\" href=\""@ =~= "<li><a class=\""@ + "dir"@ + "\" href=\""@);
    assert("<li><a class=\"file\" href=\""@ =~= "<li><a class=\""@ + "file"@ + "\" href=\""@);
    assert("/\">"@ =~= "/"@ + "\">"@);
    assert("/</a>"@ =~= "/"@ + "</a>"@);
    if e.is_dir {
        assert(item(base, e, note) =~= "<li><a class=\"dir\" href=\""@ + base + h + "/\">"@ + t
            + "/</a>"@ + note + "</li>\n"@);
    } else {
        assert(item(base, e, note) =~= "<li><a class=\"file\" href=\""@ + base + h + "\">"@ + t
            + "</a>"@ + note + "</li>\n"@);
    }
}

} // verus!

//! Stable sorting.

use vstd::prelude::*;

verus! {

/// Things that have a place in an order. Two things may stand level.
pub trait Ranked: Sized {
    /// `self` stands before `other` or level with it.
    spec fn not_after(self, other: Self) -> bool;

    /// Of two things one does not stand after the other.
    proof fn total(a: Self, b: Self)
        ensures
            a.not_after(b) || b.not_after(a),
    ;

    /// The order carries over.
    proof fn transitive(a: Self, b: Self, c: Self)
        requires
            a.not_after(b),
            b.not_after(c),
        ensures
            a.not_after(c),
    ;

    /// Whether `self` stands before `other` or level with it.
    fn is_not_after(&self, other: &Self) -> (r: bool)
        ensures
            r == self.not_after(*other),
    ;
}

/// `s` with `x` put behind the last thing that does not stand after it.
pub open spec fn inserted<T: Ranked>(s: Seq<T>, x: T) -> Seq<T>
    decreases s.len(),
{
    if s.len() == 0 || s.last().not_after(x) {
        s.push(x)
    } else {
        inserted(s.drop_last(), x).push(s.last())
    }
}

/// The things of `s` in their order; those that stand level keep the order they
/// have in `s`.
pub open spec fn sorted<T: Ranked>(s: Seq<T>) -> Seq<T>
    decreases s.len(),
{
    if s.len() == 0 {
        s
    } else {
        inserted(sorted(s.drop_last()), s.last())
    }
}

/// No thing stands after a later one.
pub open spec fn in_order<T: Ranked>(s: Seq<T>) -> bool {
    forall|i: int, j: int| 0 <= i <= j < s.len() ==> (#[trigger] s[i]).not_after(#[trigger] s[j])
}

/// Where `x` is put into things that are in order.
proof fn lemma_inserted_at<T: Ranked>(s: Seq<T>, x: T, p: int)
    requires
        0 <= p <= s.len(),
        forall|i: int| 0 <= i < p ==> (#[trigger] s[i]).not_after(x),
        forall|i: int| p <= i < s.len() ==> !(#[trigger] s[i]).not_after(x),
    ensures
        inserted(s, x) == s.insert(p, x),
    decreases s.len(),
{
    if p == s.len() {
        if s.len() > 0 {
            assert(s.last() == s[s.len() - 1]);
        }
        assert(s.push(x) =~= s.insert(p, x));
    } else {
        assert(s.last() == s[s.len() - 1]);
        let rest = s.drop_last();
        assert forall|i: int| 0 <= i < p implies (#[trigger] rest[i]).not_after(x) by {
            assert(rest[i] == s[i]);
        }
        assert forall|i: int| p <= i < rest.len() implies !(#[trigger] rest[i]).not_after(x) by {
            assert(rest[i] == s[i]);
        }
        lemma_inserted_at(rest, x, p);
        assert(rest.insert(p, x).push(s.last()) =~= s.insert(p, x));
    }
}

/// Putting `x` where it belongs keeps things in order.
proof fn lemma_insert_keeps_order<T: Ranked>(s: Seq<T>, x: T, p: int)
    requires
        in_order(s),
        0 <= p <= s.len(),
        forall|i: int| 0 <= i < p ==> (#[trigger] s[i]).not_after(x),
        forall|i: int| p <= i < s.len() ==> !(#[trigger] s[i]).not_after(x),
    ensures
        in_order(s.insert(p, x)),
{
    let t = s.insert(p, x);
    assert forall|i: int, j: int| 0 <= i <= j < t.len() implies (#[trigger] t[i]).not_after(
        #[trigger] t[j],
    ) by {
        let a = if i < p {
            i
        } else {
            i - 1
        };
        let b = if j < p {
            j
        } else {
            j - 1
        };
        if i == p && j == p {
            T::total(x, x);
        } else if i == p {
            assert(t[j] == s[b]);
            T::total(x, s[b]);
        } else if j == p {
            assert(t[i] == s[a]);
        } else {
            assert(t[i] == s[a] && t[j] == s[b]);
        }
    }
}

/// The things of `v` in their order; those that stand level keep the order they
/// have in `v`.
pub fn stable_sort<T: Ranked>(v: Vec<T>) -> (r: Vec<T>)
    ensures
        r@ == sorted(v@),
        in_order(r@),
{
    let ghost all = v@;
    let mut out: Vec<T> = Vec::new();
    assert(all.take(0) =~= Seq::<T>::empty());
    for x in it: v
        invariant
            it.seq() == all,
            out@ == sorted(all.take(it.index() as int)),
            in_order(out@),
    {
        let mut lo: usize = 0;
        let mut hi: usize = out.len();
        while lo < hi
            invariant
                lo <= hi <= out@.len(),
                in_order(out@),
                forall|i: int| 0 <= i < lo ==> (#[trigger] out@[i]).not_after(x),
                forall|i: int| hi <= i < out@.len() ==> !(#[trigger] out@[i]).not_after(x),
            decreases hi - lo,
        {
            let mid: usize = lo + (hi - lo) / 2;
            if out[mid].is_not_after(&x) {
                proof {
                    assert forall|i: int| 0 <= i < mid + 1 implies (#[trigger] out@[i]).not_after(
                        x,
                    ) by {
                        T::transitive(out@[i], out@[mid as int], x);
                    }
                }
                lo = mid + 1;
            } else {
                proof {
                    assert forall|i: int| mid <= i < out@.len() implies !(
                    #[trigger] out@[i]).not_after(x) by {
                        if out@[i].not_after(x) {
                            T::transitive(out@[mid as int], out@[i], x);
                        }
                    }
                }
                hi = mid;
            }
        }
        proof {
            let i = it.index() as int;
            lemma_inserted_at(out@, x, lo as int);
            lemma_insert_keeps_order(out@, x, lo as int);
            assert(all.take(i + 1).drop_last() =~= all.take(i));
            assert(all.take(i + 1).last() == x);
        }
        out.insert(lo, x);
    }
    assert(all.take(all.len() as int) =~= all);
    out
}

/// Sorting neither loses nor adds anything.
pub proof fn law_sorted_is_a_permutation<T: Ranked>(s: Seq<T>)
    ensures
        sorted(s).to_multiset() == s.to_multiset(),
        sorted(s).len() == s.len(),
    decreases s.len(),
{
    broadcast use vstd::seq_lib::group_to_multiset_ensures;

    if s.len() > 0 {
        law_sorted_is_a_permutation(s.drop_last());
        lemma_inserted_multiset(sorted(s.drop_last()), s.last());
        assert(s =~= s.drop_last().push(s.last()));
    } else {
        assert(sorted(s) =~= s);
    }
}

/// Putting a thing into a list adds just that thing.
proof fn lemma_inserted_multiset<T: Ranked>(s: Seq<T>, x: T)
    ensures
        inserted(s, x).to_multiset() == s.to_multiset().insert(x),
        inserted(s, x).len() == s.len() + 1,
    decreases s.len(),
{
    broadcast use vstd::seq_lib::group_to_multiset_ensures;

    if s.len() > 0 && !s.last().not_after(x) {
        lemma_inserted_multiset(s.drop_last(), x);
        assert(s =~= s.drop_last().push(s.last()));
        assert(s.to_multiset() =~= s.drop_last().to_multiset().insert(s.last()));
        assert(inserted(s, x).to_multiset() =~= s.to_multiset().insert(x));
    }
}

/// Sorted things are in order.
pub proof fn law_sorted_is_in_order<T: Ranked>(s: Seq<T>)
    ensures
        in_order(sorted(s)),
    decreases s.len(),
{
    if s.len() > 0 {
        let before = sorted(s.drop_last());
        law_sorted_is_in_order(s.drop_last());
        lemma_inserted_in_order(before, s.last());
    }
}

/// Putting a thing into things that are in order keeps them so.
proof fn lemma_inserted_in_order<T: Ranked>(s: Seq<T>, x: T)
    requires
        in_order(s),
    ensures
        in_order(inserted(s, x)),
{
    let p = lemma_place(s, x, s.len() as int);
    lemma_inserted_at(s, x, p);
    lemma_insert_keeps_order(s, x, p);
}

/// There is a place for `x` among things that are in order.
proof fn lemma_place<T: Ranked>(s: Seq<T>, x: T, n: int) -> (p: int)
    requires
        in_order(s),
        0 <= n <= s.len(),
        forall|i: int| n <= i < s.len() ==> !(#[trigger] s[i]).not_after(x),
    ensures
        0 <= p <= s.len(),
        forall|i: int| 0 <= i < p ==> (#[trigger] s[i]).not_after(x),
        forall|i: int| p <= i < s.len() ==> !(#[trigger] s[i]).not_after(x),
    decreases n,
{
    if n == 0 {
        0
    } else if s[n - 1].not_after(x) {
        assert forall|i: int| 0 <= i < n implies (#[trigger] s[i]).not_after(x) by {
            T::transitive(s[i], s[n - 1], x);
        }
        n
    } else {
        lemma_place(s, x, n - 1)
    }
}

/// Things that are in order already are left as they are.
pub proof fn law_sorting_what_is_in_order_changes_nothing<T: Ranked>(s: Seq<T>)
    requires
        in_order(s),
    ensures
        sorted(s) == s,
    decreases s.len(),
{
    if s.len() > 0 {
        let rest = s.drop_last();
        assert(in_order(rest)) by {
            assert forall|i: int, j: int| 0 <= i <= j < rest.len() implies (
            #[trigger] rest[i]).not_after(#[trigger] rest[j]) by {
                assert(rest[i] == s[i] && rest[j] == s[j]);
            }
        }
        law_sorting_what_is_in_order_changes_nothing(rest);
        if rest.len() > 0 {
            assert(rest.last() == s[s.len() - 2]);
            assert(s.last() == s[s.len() - 1]);
        }
        assert(rest.push(s.last()) =~= s);
    }
}

/// Standing level with a thing, as a predicate.
pub open spec fn level_with<T: Ranked>(y: T) -> spec_fn(T) -> bool {
    |x: T| x.not_after(y) && y.not_after(x)
}

/// Filtering goes from the front to the back.
proof fn lemma_filter_push<T>(s: Seq<T>, x: T, p: spec_fn(T) -> bool)
    ensures
        s.push(x).filter(p) == if p(x) {
            s.filter(p).push(x)
        } else {
            s.filter(p)
        },
{
    reveal(Seq::filter);
    assert(s.push(x).drop_last() =~= s);
}

/// A thing is put behind those that it stands level with.
proof fn lemma_inserted_behind_its_level<T: Ranked>(s: Seq<T>, x: T, y: T)
    ensures
        inserted(s, x).filter(level_with(y)) == s.push(x).filter(level_with(y)),
    decreases s.len(),
{
    if s.len() > 0 && !s.last().not_after(x) {
        let last = s.last();
        let rest = s.drop_last();
        let p = level_with(y);
        lemma_inserted_behind_its_level(rest, x, y);
        assert(s =~= rest.push(last));
        lemma_filter_push(inserted(rest, x), last, p);
        lemma_filter_push(rest, last, p);
        lemma_filter_push(rest, x, p);
        lemma_filter_push(s, x, p);
        if p(x) && p(last) {
            T::transitive(last, y, x);
        }
    }
}

/// Things that stand level keep their order among themselves.
pub proof fn law_sorting_is_stable<T: Ranked>(s: Seq<T>, y: T)
    ensures
        sorted(s).filter(level_with(y)) == s.filter(level_with(y)),
    decreases s.len(),
{
    if s.len() > 0 {
        let rest = s.drop_last();
        law_sorting_is_stable(rest, y);
        lemma_inserted_behind_its_level(sorted(rest), s.last(), y);
        assert(s =~= rest.push(s.last()));
        lemma_filter_push(sorted(rest), s.last(), level_with(y));
        lemma_filter_push(rest, s.last(), level_with(y));
    }
}

} // verus!

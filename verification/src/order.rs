//! Ordering of table rows: a stable sort from highest to lowest rank, and the
//! order of 32-bit floats read from their bits.

use vstd::prelude::*;

verus! {

broadcast use vstd::seq_lib::group_to_multiset_ensures;

/// Items that a table orders by a rank, highest first.
pub trait Ranked: Sized {
    /// The item's rank.
    spec fn rank_of(&self) -> int;

    /// Computes the item's rank.
    fn rank(&self) -> (r: u128)
        ensures
            r as int == self.rank_of(),
    ;
}

/// Where an item of rank `r` goes in `s`: after the leading items ranked at
/// least `r`.
pub open spec fn insert_position<T: Ranked>(s: Seq<T>, r: int) -> nat
    decreases s.len(),
{
    if s.len() == 0 {
        0
    } else if s[0].rank_of() < r {
        0
    } else {
        1 + insert_position(s.drop_first(), r)
    }
}

/// `s` with `x` placed after the leading items ranked at least as high.
pub open spec fn insert_ranked<T: Ranked>(s: Seq<T>, x: T) -> Seq<T> {
    s.insert(insert_position(s, x.rank_of()) as int, x)
}

/// The items of `s` from highest to lowest rank, items of equal rank in the
/// order they had in `s`.
pub open spec fn sort_by_rank<T: Ranked>(s: Seq<T>) -> Seq<T>
    decreases s.len(),
{
    if s.len() == 0 {
        s
    } else {
        insert_ranked(sort_by_rank(s.drop_last()), s.last())
    }
}

/// Whether no item of `s` ranks above an item before it.
pub open spec fn ranked_descending<T: Ranked>(s: Seq<T>) -> bool {
    forall|i: int, j: int| 0 <= i < j < s.len() ==> s[i].rank_of() >= s[j].rank_of()
}

proof fn lemma_insert_position<T: Ranked>(s: Seq<T>, r: int)
    ensures
        insert_position(s, r) <= s.len(),
        forall|i: int| 0 <= i < insert_position(s, r) ==> s[i].rank_of() >= r,
        insert_position(s, r) < s.len() ==> s[insert_position(s, r) as int].rank_of() < r,
    decreases s.len(),
{
    if s.len() > 0 && s[0].rank_of() >= r {
        lemma_insert_position(s.drop_first(), r);
        assert forall|i: int| 0 <= i < insert_position(s, r) implies s[i].rank_of() >= r by {
            if i > 0 {
                assert(s[i] == s.drop_first()[i - 1]);
            }
        }
    }
}

/// Sorting by rank orders the items from highest to lowest rank.
pub proof fn lemma_sort_by_rank_descending<T: Ranked>(s: Seq<T>)
    ensures
        ranked_descending(sort_by_rank(s)),
        sort_by_rank(s).len() == s.len(),
    decreases s.len(),
{
    if s.len() > 0 {
        let t = sort_by_rank(s.drop_last());
        lemma_sort_by_rank_descending(s.drop_last());
        let x = s.last();
        let r = x.rank_of();
        lemma_insert_position(t, r);
        let p = insert_position(t, r) as int;
        let u = t.insert(p, x);
        assert forall|i: int, j: int| 0 <= i < j < u.len() implies u[i].rank_of() >= u[j].rank_of() by {
            if j < p {
            } else if j == p {
            } else if i < p {
                assert(u[j] == t[j - 1]);
                if p < t.len() {
                    assert(t[p].rank_of() < r);
                    assert(t[j - 1].rank_of() <= t[p].rank_of());
                }
            } else if i == p {
                assert(u[j] == t[j - 1]);
                assert(t[j - 1].rank_of() <= t[p].rank_of());
            } else {
                assert(u[i] == t[i - 1]);
                assert(u[j] == t[j - 1]);
            }
        }
    }
}

/// Sorting by rank keeps every item, as many times as it occurs.
pub proof fn lemma_sort_by_rank_permutes<T: Ranked>(s: Seq<T>)
    ensures
        sort_by_rank(s).to_multiset() == s.to_multiset(),
    decreases s.len(),
{
    if s.len() > 0 {
        let t = sort_by_rank(s.drop_last());
        lemma_sort_by_rank_permutes(s.drop_last());
        lemma_insert_position(t, s.last().rank_of());
        vstd::seq_lib::to_multiset_insert(t, insert_position(t, s.last().rank_of()) as int, s.last());
        assert(s =~= s.drop_last().push(s.last()));
        vstd::seq_lib::to_multiset_build(s.drop_last(), s.last());
    }
}

/// Sorting a sequence that is already in descending rank order leaves it as
/// it is: items of equal rank keep their order.
pub proof fn lemma_sort_by_rank_keeps_sorted<T: Ranked>(s: Seq<T>)
    requires
        ranked_descending(s),
    ensures
        sort_by_rank(s) == s,
    decreases s.len(),
{
    if s.len() > 0 {
        let d = s.drop_last();
        assert(ranked_descending(d));
        lemma_sort_by_rank_keeps_sorted(d);
        let r = s.last().rank_of();
        lemma_insert_position(d, r);
        let p = insert_position(d, r) as int;
        if p < d.len() {
            assert(d[p].rank_of() >= r);
        }
        assert(p == d.len());
        assert(d.insert(p, s.last()) =~= s);
    }
}

proof fn lemma_filter_none<T>(s: Seq<T>, p: spec_fn(T) -> bool)
    requires
        forall|i: int| 0 <= i < s.len() ==> !p(s[i]),
    ensures
        s.filter(p) == Seq::<T>::empty(),
    decreases s.len(),
{
    reveal(Seq::filter);
    if s.len() > 0 {
        assert(!p(s[s.len() - 1]));
        assert forall|i: int| 0 <= i < s.drop_last().len() implies !p(s.drop_last()[i]) by {
            assert(s.drop_last()[i] == s[i]);
        }
        lemma_filter_none(s.drop_last(), p);
        assert(s.filter(p) == s.drop_last().filter(p));
    }
}

/// Sorting by rank keeps items of equal rank in the order they had: the items
/// of any one rank, picked out by `p`, come out as they went in.
pub proof fn lemma_sort_by_rank_stable<T: Ranked>(s: Seq<T>, t: int, p: spec_fn(T) -> bool)
    requires
        forall|x: T| #[trigger] p(x) == (x.rank_of() == t),
    ensures
        sort_by_rank(s).filter(p) == s.filter(p),
    decreases s.len(),
{
    reveal(Seq::filter);
    if s.len() > 0 {
        let u = sort_by_rank(s.drop_last());
        lemma_sort_by_rank_stable(s.drop_last(), t, p);
        lemma_sort_by_rank_descending(s.drop_last());
        let x = s.last();
        let r = x.rank_of();
        lemma_insert_position(u, r);
        let k = insert_position(u, r) as int;
        let front = u.take(k);
        let back = u.skip(k);
        assert(u.insert(k, x) =~= front + seq![x] + back);
        assert(u =~= front + back);
        Seq::filter_distributes_over_add(front + seq![x], back, p);
        Seq::filter_distributes_over_add(front, seq![x], p);
        Seq::filter_distributes_over_add(front, back, p);
        let one = seq![x];
        assert(one.len() == 1);
        assert(one.last() == x);
        assert(one.drop_last() =~= Seq::<T>::empty());
        assert(Seq::<T>::empty().filter(p) =~= Seq::<T>::empty());
        if r == t {
            assert(p(x));
            assert forall|i: int| 0 <= i < back.len() implies !p(back[i]) by {
                assert(back[i] == u[k + i]);
                assert(u[k].rank_of() < r);
                assert(u[k].rank_of() >= u[k + i].rank_of());
            }
            lemma_filter_none(back, p);
            assert(seq![x].filter(p) =~= seq![x]);
            assert(sort_by_rank(s).filter(p) =~= front.filter(p) + seq![x]);
            assert(u.filter(p) =~= front.filter(p));
            assert(s.filter(p) == s.drop_last().filter(p).push(x));
            assert(sort_by_rank(s).filter(p) =~= s.filter(p));
        } else {
            assert(!p(x));
            assert(seq![x].filter(p) =~= Seq::<T>::empty());
            assert(sort_by_rank(s).filter(p) =~= front.filter(p) + back.filter(p));
            assert(s.filter(p) == s.drop_last().filter(p));
        }
    }
}

/// The items of `v` from highest to lowest rank, items of equal rank in the
/// order they had in `v`.
pub fn sort_by_rank_desc<T: Ranked>(v: Vec<T>) -> (out: Vec<T>)
    ensures
        out@ == sort_by_rank(v@),
{
    let ghost s = v@;
    let mut rest = v;
    let mut out: Vec<T> = Vec::new();
    let ghost mut done: int = 0;
    assert(s.take(0) =~= Seq::<T>::empty());
    while rest.len() > 0
        invariant
            0 <= done <= s.len(),
            rest@ == s.skip(done),
            out@ == sort_by_rank(s.take(done)),
        decreases rest.len(),
    {
        let x = rest.remove(0);
        assert(x == s[done]);
        let r = x.rank();
        let mut p: usize = 0;
        proof {
            assert(out@.skip(0) =~= out@);
        }
        while p < out.len() && out[p].rank() >= r
            invariant
                p <= out.len(),
                insert_position(out@, r as int) == p + insert_position(out@.skip(p as int), r as int),
            decreases out.len() - p,
        {
            assert(out@.skip(p as int).drop_first() =~= out@.skip(p + 1));
            p = p + 1;
        }
        proof {
            if p < out.len() {
                assert(out@.skip(p as int)[0] == out@[p as int]);
            }
            assert(s.take(done + 1).drop_last() =~= s.take(done));
            assert(s.take(done + 1).last() == x);
            assert(rest@ =~= s.skip(done + 1));
        }
        out.insert(p, x);
        proof {
            done = done + 1;
        }
    }
    assert(s.take(done) =~= s);
    out
}

/// Whether the bits of a 32-bit float encode a NaN.
pub open spec fn is_nan_bits(b: u32) -> bool {
    b % 0x8000_0000 > 0x7F80_0000
}

/// A number that orders the 32-bit floats that are not NaN by their bits as
/// the floats compare: negative values below positive ones, `-0.0` with `0.0`.
pub open spec fn f32_order_key(b: u32) -> int {
    if b == 0x8000_0000 {
        0x8000_0000
    } else if b >= 0x8000_0000 {
        0xFFFF_FFFF - b
    } else {
        b + 0x8000_0000
    }
}

/// Whether the float with bits `a` is greater than the one with bits `b`.
pub open spec fn f32_greater(a: u32, b: u32) -> bool {
    !is_nan_bits(a) && !is_nan_bits(b) && f32_order_key(a) > f32_order_key(b)
}

/// The order key of the 32-bit float with bits `b`.
pub fn f32_key(b: u32) -> (k: u32)
    ensures
        k as int == f32_order_key(b),
{
    if b == 0x8000_0000 {
        0x8000_0000
    } else if b >= 0x8000_0000 {
        0xFFFF_FFFF - b
    } else {
        b + 0x8000_0000
    }
}

/// Whether the bits of a 32-bit float encode a NaN.
pub fn f32_bits_are_nan(b: u32) -> (r: bool)
    ensures
        r == is_nan_bits(b),
{
    b % 0x8000_0000 > 0x7F80_0000
}

/// Compares two 32-bit floats given by their bits: whether the first is
/// greater, false where either is NaN.
pub fn f32_bits_greater(a: u32, b: u32) -> (r: bool)
    ensures
        r == f32_greater(a, b),
{
    !f32_bits_are_nan(a) && !f32_bits_are_nan(b) && f32_key(a) > f32_key(b)
}

} // verus!

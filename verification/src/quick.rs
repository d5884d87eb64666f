//! Quicksort: an in-place recursive sort. The pivot is the first element
//! of the range being sorted — a fixed, deterministic choice, so an
//! already-sorted or reverse-sorted input drives the partition to its
//! quadratic worst case; that trade-off is accepted here rather than hidden
//! behind randomisation.

use crate::order::lemma_swap_multiset;
use crate::order::sorted;
use vstd::prelude::*;
use vstd::seq_lib::lemma_multiset_commutative;

verus! {

/// Every element of `s` is strictly below `p`.
spec fn all_lt(s: Seq<i32>, p: i32) -> bool {
    forall|k: int| 0 <= k < s.len() ==> s[k] < p
}

/// Every element of `s` is at least `p`.
spec fn all_ge(s: Seq<i32>, p: i32) -> bool {
    forall|k: int| 0 <= k < s.len() ==> s[k] >= p
}

/// A bound that holds of every element of a sequence holds of every
/// element of any sequence with the same multiset.
proof fn lemma_multiset_keeps_lt(s: Seq<i32>, t: Seq<i32>, p: i32)
    requires
        s.to_multiset() == t.to_multiset(),
        all_lt(s, p),
    ensures
        all_lt(t, p),
{
    broadcast use vstd::seq_lib::group_to_multiset_ensures;

    assert forall|k: int| 0 <= k < t.len() implies t[k] < p by {
        assert(t.contains(t[k]));
        assert(t.to_multiset().count(t[k]) > 0);
        assert(s.contains(t[k]));
        let w = choose|w: int| 0 <= w < s.len() && s[w] == t[k];
        assert(s[w] < p);
    }
}

/// The counterpart of `lemma_multiset_keeps_lt` for a lower bound.
proof fn lemma_multiset_keeps_ge(s: Seq<i32>, t: Seq<i32>, p: i32)
    requires
        s.to_multiset() == t.to_multiset(),
        all_ge(s, p),
    ensures
        all_ge(t, p),
{
    broadcast use vstd::seq_lib::group_to_multiset_ensures;

    assert forall|k: int| 0 <= k < t.len() implies t[k] >= p by {
        assert(t.contains(t[k]));
        assert(t.to_multiset().count(t[k]) > 0);
        assert(s.contains(t[k]));
        let w = choose|w: int| 0 <= w < s.len() && s[w] == t[k];
        assert(s[w] >= p);
    }
}

/// Two sequences of equal length that agree on a window agree at each
/// position of the window.
proof fn lemma_window_eq_pointwise(s: Seq<i32>, t: Seq<i32>, a: int, b: int)
    requires
        s.len() == t.len(),
        0 <= a <= b <= s.len(),
        s.subrange(a, b) == t.subrange(a, b),
    ensures
        forall|k: int| a <= k < b ==> s[k] == t[k],
{
    assert forall|k: int| a <= k < b implies s[k] == t[k] by {
        assert(s.subrange(a, b)[k - a] == s[k]);
        assert(t.subrange(a, b)[k - a] == t[k]);
    }
}

/// Exchanges the elements of `v` at positions `a` and `b`.
fn swap_elems(v: &mut Vec<i32>, a: usize, b: usize)
    requires
        a < old(v)@.len(),
        b < old(v)@.len(),
    ensures
        final(v)@ == old(v)@.update(a as int, old(v)@[b as int]).update(
            b as int,
            old(v)@[a as int],
        ),
        final(v)@.len() == old(v)@.len(),
{
    let x = v[a];
    let y = v[b];
    v[a] = y;
    v[b] = x;
    proof {
        assert(v@ =~= old(v)@.update(a as int, old(v)@[b as int]).update(
            b as int,
            old(v)@[a as int],
        ));
    }
}

/// A swap of two positions inside a window changes nothing outside the
/// window and permutes the window itself.
proof fn lemma_swap_in_window(s: Seq<i32>, lo: int, hi: int, a: int, b: int)
    requires
        0 <= lo <= a < hi <= s.len(),
        lo <= b < hi,
    ensures
        s.update(a, s[b]).update(b, s[a]).subrange(lo, hi).to_multiset() == s.subrange(
            lo,
            hi,
        ).to_multiset(),
        s.update(a, s[b]).update(b, s[a]).subrange(0, lo) == s.subrange(0, lo),
        s.update(a, s[b]).update(b, s[a]).subrange(hi, s.len() as int) == s.subrange(
            hi,
            s.len() as int,
        ),
        s.update(a, s[b]).update(b, s[a]).len() == s.len(),
{
    let t = s.update(a, s[b]).update(b, s[a]);
    let w = s.subrange(lo, hi);
    assert(t.subrange(0, lo) =~= s.subrange(0, lo));
    assert(t.subrange(hi, s.len() as int) =~= s.subrange(hi, s.len() as int));
    assert(t.subrange(lo, hi) =~= w.update(a - lo, w[b - lo]).update(b - lo, w[a - lo]));
    lemma_swap_multiset(w, a - lo, b - lo);
}

/// Sorts the window `[lo, hi)` of `v` in place; everything outside the
/// window is left exactly as it was. The pivot is the first element of the
/// window; the remaining elements are partitioned into a front region
/// strictly below the pivot and a back region at or above it, the pivot is
/// placed on the boundary, and the two regions — never the pivot's own
/// position — are sorted recursively.
fn quicksort_window(v: &mut Vec<i32>, lo: usize, hi: usize)
    requires
        lo <= hi <= old(v)@.len(),
    ensures
        final(v)@.len() == old(v)@.len(),
        final(v)@.subrange(0, lo as int) == old(v)@.subrange(0, lo as int),
        final(v)@.subrange(hi as int, old(v)@.len() as int) == old(v)@.subrange(
            hi as int,
            old(v)@.len() as int,
        ),
        final(v)@.subrange(lo as int, hi as int).to_multiset() == old(v)@.subrange(
            lo as int,
            hi as int,
        ).to_multiset(),
        sorted(final(v)@.subrange(lo as int, hi as int)),
    decreases hi - lo,
{
    if hi - lo < 2 {
        return ;
    }
    let ghost v0 = v@;
    let pivot = v[lo];
    let mut m: usize = lo + 1;
    let mut k: usize = lo + 1;
    while k < hi
        invariant
            lo + 1 <= m <= k <= hi <= v@.len(),
            v@.len() == v0.len(),
            v@[lo as int] == pivot,
            v@.subrange(0, lo as int) == v0.subrange(0, lo as int),
            v@.subrange(hi as int, v0.len() as int) == v0.subrange(hi as int, v0.len() as int),
            v@.subrange(lo as int, hi as int).to_multiset() == v0.subrange(
                lo as int,
                hi as int,
            ).to_multiset(),
            forall|t: int| lo < t < m ==> v@[t] < pivot,
            forall|t: int| m <= t < k ==> v@[t] >= pivot,
        decreases hi - k,
    {
        if v[k] < pivot {
            let ghost s = v@;
            swap_elems(v, m, k);
            proof {
                lemma_swap_in_window(s, lo as int, hi as int, m as int, k as int);
            }
            m += 1;
        }
        k += 1;
    }
    let ghost s = v@;
    swap_elems(v, lo, m - 1);
    proof {
        lemma_swap_in_window(s, lo as int, hi as int, lo as int, m - 1);
    }
    let p = m - 1;
    let ghost v1 = v@;
    proof {
        assert(v1[p as int] == pivot);
        assert forall|t: int| lo <= t < p implies v1[t] < pivot by {}
        assert forall|t: int| (p as int) < t < (hi as int) implies v1[t] >= pivot by {}
    }
    quicksort_window(v, lo, p);
    let ghost v2 = v@;
    quicksort_window(v, p + 1, hi);
    let ghost v3 = v@;
    proof {
        lemma_quicksort_combine(v0, v1, v2, v3, lo as int, hi as int, p as int, pivot);
    }
}

/// Stitches the partition facts and the two recursive calls' contracts
/// into sortedness and multiset preservation of the whole window.
proof fn lemma_quicksort_combine(
    v0: Seq<i32>,
    v1: Seq<i32>,
    v2: Seq<i32>,
    v3: Seq<i32>,
    lo: int,
    hi: int,
    p: int,
    pivot: i32,
)
    requires
        0 <= lo <= p < hi <= v0.len(),
        v0.len() == v1.len() && v1.len() == v2.len() && v2.len() == v3.len(),
        // the partitioned state
        v1[p] == pivot,
        forall|t: int| lo <= t < p ==> v1[t] < pivot,
        forall|t: int| p < t < hi ==> v1[t] >= pivot,
        v1.subrange(0, lo) == v0.subrange(0, lo),
        v1.subrange(hi, v0.len() as int) == v0.subrange(hi, v0.len() as int),
        v1.subrange(lo, hi).to_multiset() == v0.subrange(lo, hi).to_multiset(),
        // the first recursive call sorted [lo, p)
        v2.subrange(0, lo) == v1.subrange(0, lo),
        v2.subrange(p, v1.len() as int) == v1.subrange(p, v1.len() as int),
        v2.subrange(lo, p).to_multiset() == v1.subrange(lo, p).to_multiset(),
        sorted(v2.subrange(lo, p)),
        // the second recursive call sorted [p + 1, hi)
        v3.subrange(0, p + 1) == v2.subrange(0, p + 1),
        v3.subrange(hi, v2.len() as int) == v2.subrange(hi, v2.len() as int),
        v3.subrange(p + 1, hi).to_multiset() == v2.subrange(p + 1, hi).to_multiset(),
        sorted(v3.subrange(p + 1, hi)),
    ensures
        v3.subrange(0, lo) == v0.subrange(0, lo),
        v3.subrange(hi, v0.len() as int) == v0.subrange(hi, v0.len() as int),
        v3.subrange(lo, hi).to_multiset() == v0.subrange(lo, hi).to_multiset(),
        sorted(v3.subrange(lo, hi)),
{
    let n = v0.len() as int;
    lemma_window_eq_pointwise(v2, v1, p, n);
    lemma_window_eq_pointwise(v3, v2, 0, p + 1);
    lemma_window_eq_pointwise(v3, v2, hi, n);
    lemma_window_eq_pointwise(v2, v1, 0, lo);
    lemma_window_eq_pointwise(v1, v0, 0, lo);
    lemma_window_eq_pointwise(v1, v0, hi, n);
    assert(all_lt(v1.subrange(lo, p), pivot)) by {
        assert forall|t: int| 0 <= t < p - lo implies v1.subrange(lo, p)[t] < pivot by {
            assert(v1.subrange(lo, p)[t] == v1[lo + t]);
        }
    }
    assert(all_ge(v1.subrange(p + 1, hi), pivot)) by {
        assert forall|t: int| 0 <= t < hi - p - 1 implies #[trigger] v1.subrange(p + 1, hi)[t]
            >= pivot by {
            assert(v1.subrange(p + 1, hi)[t] == v1[p + 1 + t]);
        }
    }

    // the window's three pieces in the final state
    lemma_multiset_keeps_lt(v1.subrange(lo, p), v2.subrange(lo, p), pivot);
    assert(v3.subrange(lo, p) =~= v2.subrange(lo, p));
    assert(v3.subrange(p + 1, hi).to_multiset() == v1.subrange(p + 1, hi).to_multiset()) by {
        assert(v2.subrange(p + 1, hi) =~= v1.subrange(p + 1, hi));
    }
    lemma_multiset_keeps_ge(v1.subrange(p + 1, hi), v3.subrange(p + 1, hi), pivot);
    assert(v3[p] == pivot);

    // everything outside the window is as it started
    assert(v3.subrange(0, lo) =~= v0.subrange(0, lo));
    assert(v3.subrange(hi, n) =~= v0.subrange(hi, n));

    // sortedness of the whole window
    let sub = v3.subrange(lo, hi);
    assert forall|x: int, y: int| 0 <= x < y < sub.len() implies sub[x] <= sub[y] by {
        let a = lo + x;
        let b = lo + y;
        assert(sub[x] == v3[a] && sub[y] == v3[b]);
        if b < p {
            assert(v3.subrange(lo, p)[x] == v3[a] && v3.subrange(lo, p)[y] == v3[b]);
        } else if b == p {
            assert(v3.subrange(lo, p)[a - lo] == v3[a]);
            assert(all_lt(v3.subrange(lo, p), pivot));
        } else if a < p {
            assert(v3.subrange(lo, p)[a - lo] == v3[a]);
            assert(all_lt(v3.subrange(lo, p), pivot));
            assert(v3.subrange(p + 1, hi)[b - p - 1] == v3[b]);
            assert(all_ge(v3.subrange(p + 1, hi), pivot));
        } else if a == p {
            assert(v3.subrange(p + 1, hi)[b - p - 1] == v3[b]);
            assert(all_ge(v3.subrange(p + 1, hi), pivot));
        } else {
            assert(v3.subrange(p + 1, hi)[x + lo - p - 1] == v3[a] && v3.subrange(p + 1, hi)[y
                + lo - p - 1] == v3[b]);
        }
    }

    // multiset preservation of the whole window
    assert(v3.subrange(lo, hi) =~= v3.subrange(lo, p) + v3.subrange(p, p + 1) + v3.subrange(
        p + 1,
        hi,
    ));
    assert(v1.subrange(lo, hi) =~= v1.subrange(lo, p) + v1.subrange(p, p + 1) + v1.subrange(
        p + 1,
        hi,
    ));
    lemma_multiset_commutative(v3.subrange(lo, p) + v3.subrange(p, p + 1), v3.subrange(p + 1, hi));
    lemma_multiset_commutative(v3.subrange(lo, p), v3.subrange(p, p + 1));
    lemma_multiset_commutative(v1.subrange(lo, p) + v1.subrange(p, p + 1), v1.subrange(p + 1, hi));
    lemma_multiset_commutative(v1.subrange(lo, p), v1.subrange(p, p + 1));
    assert(v3.subrange(p, p + 1) =~= v1.subrange(p, p + 1));
    assert(v3.subrange(lo, hi).to_multiset() == v1.subrange(lo, hi).to_multiset());
}

/// Reorders `v` in place into non-decreasing order by pivot partitioning
/// and recursion, keeping exactly the elements it started with. Nothing is
/// returned: the caller's vector is mutated directly.
pub fn quicksort(v: &mut Vec<i32>)
    ensures
        sorted(final(v)@),
        final(v)@.to_multiset() == old(v)@.to_multiset(),
        final(v)@.len() == old(v)@.len(),
{
    let n = v.len();
    quicksort_window(v, 0, n);
    proof {
        assert(v@.subrange(0, n as int) =~= v@);
        assert(old(v)@.subrange(0, n as int) =~= old(v)@);
    }
}

} // verus!

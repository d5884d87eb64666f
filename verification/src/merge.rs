//! Merge sort: an allocating O(n log n) sort by recursive halving and
//! two-pointer merging. The input is read through a shared borrow and left
//! untouched; a newly owned, sorted vector comes back.

use crate::order::sorted;
use vstd::prelude::*;
use vstd::seq_lib::lemma_multiset_commutative;

verus! {

/// Merges two sorted vectors into one sorted vector holding exactly the
/// elements of both, by advancing a cursor through each input and moving
/// the smaller head to the output. A tie is taken from the left input
/// first — the tie-break stability rests on, proved for elements with
/// identity in the `stable` module.
pub fn merge(xs: Vec<i32>, ys: Vec<i32>) -> (r: Vec<i32>)
    requires
        sorted(xs@),
        sorted(ys@),
    ensures
        sorted(r@),
        r@.to_multiset() == xs@.to_multiset().add(ys@.to_multiset()),
        r@.len() == xs@.len() + ys@.len(),
{
    broadcast use vstd::seq_lib::group_to_multiset_ensures;
    broadcast use vstd::multiset::group_multiset_axioms;

    let mut result: Vec<i32> = Vec::new();
    let mut i: usize = 0;
    let mut j: usize = 0;
    while i < xs.len() || j < ys.len()
        invariant
            i <= xs@.len(),
            j <= ys@.len(),
            sorted(xs@),
            sorted(ys@),
            sorted(result@),
            result@.len() == i + j,
            result@.to_multiset() == xs@.take(i as int).to_multiset().add(
                ys@.take(j as int).to_multiset(),
            ),
            result@.len() > 0 && i < xs@.len() ==> result@.last() <= xs@[i as int],
            result@.len() > 0 && j < ys@.len() ==> result@.last() <= ys@[j as int],
        decreases xs@.len() - i + ys@.len() - j,
    {
        let take_left = if i >= xs.len() {
            false
        } else if j >= ys.len() {
            true
        } else {
            xs[i] <= ys[j]
        };
        let ghost r0 = result@;
        if take_left {
            let e = xs[i];
            result.push(e);
            proof {
                broadcast use vstd::seq_lib::group_to_multiset_ensures;
                broadcast use vstd::multiset::group_multiset_axioms;

                assert(result@ == r0.push(e));
                assert(r0.push(e).to_multiset() =~= r0.to_multiset().insert(e));
                assert(xs@.take(i + 1) =~= xs@.take(i as int).push(e));
                assert(xs@.take(i as int).push(e).to_multiset() =~= xs@.take(
                    i as int,
                ).to_multiset().insert(e));
                assert(result@.to_multiset() =~= xs@.take(i + 1).to_multiset().add(
                    ys@.take(j as int).to_multiset(),
                ));
            }
            i += 1;
        } else {
            let e = ys[j];
            result.push(e);
            proof {
                broadcast use vstd::seq_lib::group_to_multiset_ensures;
                broadcast use vstd::multiset::group_multiset_axioms;

                assert(result@ == r0.push(e));
                assert(r0.push(e).to_multiset() =~= r0.to_multiset().insert(e));
                assert(ys@.take(j + 1) =~= ys@.take(j as int).push(e));
                assert(ys@.take(j as int).push(e).to_multiset() =~= ys@.take(
                    j as int,
                ).to_multiset().insert(e));
                assert(result@.to_multiset() =~= xs@.take(i as int).to_multiset().add(
                    ys@.take(j + 1).to_multiset(),
                ));
            }
            j += 1;
        }
    }
    proof {
        assert(xs@.take(i as int) =~= xs@);
        assert(ys@.take(j as int) =~= ys@);
    }
    result
}

/// Returns a new vector holding the elements of `v` in non-decreasing
/// order; `v` itself is not mutated. A sequence of length zero or one is
/// returned as a fresh copy; anything longer is split at the floor of half
/// its length, each half sorted recursively, and the two sorted halves
/// merged.
pub fn merge_sort(v: &[i32]) -> (r: Vec<i32>)
    ensures
        sorted(r@),
        r@.to_multiset() == v@.to_multiset(),
        r@.len() == v@.len(),
    decreases v@.len(),
{
    let len = v.len();
    if len == 0 {
        let result = Vec::<i32>::new();
        proof {
            assert(result@ =~= v@);
        }
        return result;
    }
    if len == 1 {
        let mut result = Vec::<i32>::new();
        result.push(v[0]);
        proof {
            assert(result@ =~= v@);
        }
        return result;
    }
    let middle = len / 2;
    let left = merge_sort(&v[0..middle]);
    let right = merge_sort(&v[middle..len]);
    proof {
        assert(v@ =~= v@.subrange(0, middle as int) + v@.subrange(middle as int, len as int));
        lemma_multiset_commutative(
            v@.subrange(0, middle as int),
            v@.subrange(middle as int, len as int),
        );
    }
    merge(left, right)
}

} // verus!

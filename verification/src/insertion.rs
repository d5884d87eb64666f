//! Insertion sort: an in-place, quadratic, stable sort by adjacent swaps.

use crate::order::lemma_swap_multiset;
use crate::order::sorted;
use vstd::prelude::*;

verus! {

/// Reorders `v` in place into non-decreasing order, swapping each element
/// leftwards past every strictly greater neighbour until it sits where it
/// no longer violates the order. Nothing is returned: the caller's vector
/// is mutated directly, keeping exactly the elements it started with.
pub fn insertion_sort(v: &mut Vec<i32>)
    ensures
        sorted(final(v)@),
        final(v)@.to_multiset() == old(v)@.to_multiset(),
        final(v)@.len() == old(v)@.len(),
{
    let n = v.len();
    let mut i: usize = 0;
    while i < n
        invariant
            n == v.len(),
            i <= n,
            v@.to_multiset() == old(v)@.to_multiset(),
            forall|x: int, y: int| 0 <= x < y < i ==> v@[x] <= v@[y],
        decreases n - i,
    {
        let mut j = i;
        while j > 0 && v[j - 1] > v[j]
            invariant
                n == v.len(),
                j <= i < n,
                v@.to_multiset() == old(v)@.to_multiset(),
                forall|x: int, y: int| 0 <= x < y <= i && y != j ==> v@[x] <= v@[y],
            decreases j,
        {
            let ghost s = v@;
            let a = v[j - 1];
            let b = v[j];
            v[j - 1] = b;
            v[j] = a;
            proof {
                lemma_swap_multiset(s, j - 1, j as int);
                assert(v@ == s.update(j - 1, b).update(j as int, a));
            }
            j -= 1;
        }
        i += 1;
    }
}

} // verus!

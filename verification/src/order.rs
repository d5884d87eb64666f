//! The order relation on sequences: what "sorted" means, the linear
//! sortedness check, and the lemmas every sorter's contract rests on.

use vstd::prelude::*;
use vstd::relations::{sorted_by, total_ordering};
use vstd::seq_lib::lemma_sorted_unique;

verus! {

/// A sequence is sorted when every earlier element is at most every later one.
pub open spec fn sorted(s: Seq<i32>) -> bool {
    forall|i: int, j: int| 0 <= i < j < s.len() ==> s[i] <= s[j]
}

/// The order the sorters use, as a binary relation on elements.
pub open spec fn leq() -> spec_fn(i32, i32) -> bool {
    |a: i32, b: i32| a <= b
}

/// `<=` on `i32` is a total order, so `sorted` coincides with vstd's
/// `sorted_by` under it.
pub proof fn lemma_sorted_is_sorted_by_leq(s: Seq<i32>)
    ensures
        sorted(s) <==> sorted_by(s, leq()),
        total_ordering(leq()),
{
    if sorted(s) {
        assert forall|i: int, j: int| 0 <= i < j < s.len() implies #[trigger] leq()(s[i], s[j]) by {
            assert(s[i] <= s[j]);
        }
    }
    if sorted_by(s, leq()) {
        assert forall|i: int, j: int| 0 <= i < j < s.len() implies s[i] <= s[j] by {
            assert(leq()(s[i], s[j]));
        }
    }
}

/// Two sorted sequences holding the same multiset of elements are equal:
/// sortedness together with multiset preservation pins a sorter's output
/// down completely.
pub proof fn lemma_sorted_same_multiset_equal(s: Seq<i32>, t: Seq<i32>)
    requires
        sorted(s),
        sorted(t),
        s.to_multiset() == t.to_multiset(),
    ensures
        s == t,
{
    lemma_sorted_is_sorted_by_leq(s);
    lemma_sorted_is_sorted_by_leq(t);
    lemma_sorted_unique(s, t, leq());
}

/// A sequence of length zero or one is trivially sorted.
pub proof fn lemma_short_sorted(s: Seq<i32>)
    requires
        s.len() <= 1,
    ensures
        sorted(s),
{
}

/// Idempotence of sorting: every sorter of this crate promises a sorted
/// output holding the input's multiset of elements, so on an input that is
/// already sorted the output is the identical sequence.
pub proof fn lemma_sort_of_sorted_is_identity(input: Seq<i32>, output: Seq<i32>)
    requires
        sorted(input),
        sorted(output),
        output.to_multiset() == input.to_multiset(),
    ensures
        output == input,
{
    lemma_sorted_same_multiset_equal(output, input);
}

/// Empty and singleton inputs pass through every sorter unchanged: a
/// sequence of length zero or one is already sorted, so the sorted output
/// with the same multiset of elements can only be that sequence itself.
pub proof fn lemma_trivial_input_unchanged(input: Seq<i32>, output: Seq<i32>)
    requires
        input.len() <= 1,
        sorted(output),
        output.to_multiset() == input.to_multiset(),
    ensures
        output == input,
{
    lemma_short_sorted(input);
    lemma_sorted_same_multiset_equal(output, input);
}

/// Exchanging the elements at two positions of a sequence leaves its
/// multiset of elements unchanged.
pub proof fn lemma_swap_multiset(s: Seq<i32>, i: int, j: int)
    requires
        0 <= i < s.len(),
        0 <= j < s.len(),
    ensures
        s.update(i, s[j]).update(j, s[i]).to_multiset() == s.to_multiset(),
{
    broadcast use vstd::seq_lib::group_to_multiset_ensures;
    broadcast use vstd::seq_lib::to_multiset_update;
    broadcast use vstd::multiset::group_multiset_axioms;

    if i == j {
        assert(s.update(i, s[j]).update(j, s[i]) =~= s);
    } else {
        let s1 = s.update(i, s[j]);
        assert(s.contains(s[i]));
        assert(s1.contains(s1[j]));
        assert(s1[j] == s[j]);
        assert(s1.update(j, s[i]).to_multiset() =~= s.to_multiset());
    }
}

/// Returns true iff every adjacent pair of `v` is in non-decreasing order,
/// by a linear scan that stops at the first violation. The empty sequence
/// is answered outright: a scan probing up to `length - 1` with an
/// unsigned length must guard that case rather than underflow.
pub fn is_sorted(v: &[i32]) -> (r: bool)
    ensures
        r == sorted(v@),
{
    let len = v.len();
    if len == 0 {
        return true;
    }
    let mut i: usize = 0;
    while i + 1 < len
        invariant
            len == v.len(),
            i < len,
            forall|x: int, y: int| 0 <= x < y <= i ==> v@[x] <= v@[y],
        decreases len - i,
    {
        if v[i] > v[i + 1] {
            return false;
        }
        i += 1;
    }
    true
}

} // verus!

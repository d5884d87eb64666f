//! Stability of merge sort. Over bare integers equal elements cannot be
//! told apart, so stability is stated here over elements that carry an
//! identity: sorting compares only the value, and the tag makes the
//! relative order of equal values observable. Merge sort keeps, for every
//! value, the subsequence of elements carrying that value exactly as it
//! stood in the input — tags, order and all.

use vstd::prelude::*;
use vstd::seq_lib::lemma_multiset_commutative;

verus! {

/// An element with an identity: the sort compares `value` alone, while
/// `tag` distinguishes elements of equal value.
#[derive(Clone, Copy, Debug, PartialEq, Eq, Structural)]
pub struct Tagged {
    pub value: i32,
    pub tag: u32,
}

/// Sortedness of tagged elements goes by `value` alone.
pub open spec fn sorted_tagged(s: Seq<Tagged>) -> bool {
    forall|i: int, j: int| 0 <= i < j < s.len() ==> s[i].value <= s[j].value
}

/// The subsequence of the elements of `s` that carry the value `w`, in
/// the order they stand in `s`.
pub open spec fn with_value(s: Seq<Tagged>, w: i32) -> Seq<Tagged> {
    s.filter(|e: Tagged| e.value == w)
}

/// Appending an element extends the subsequence of its own value and
/// leaves the subsequence of every other value alone.
proof fn lemma_with_value_push(s: Seq<Tagged>, e: Tagged, w: i32)
    ensures
        e.value == w ==> with_value(s.push(e), w) == with_value(s, w).push(e),
        e.value != w ==> with_value(s.push(e), w) == with_value(s, w),
{
    reveal(Seq::filter);
    assert(s.push(e).drop_last() =~= s);
    assert(s.push(e).last() == e);
}

/// A sequence none of whose elements carries the value `w` contributes
/// nothing to that value's subsequence.
proof fn lemma_with_value_absent(s: Seq<Tagged>, w: i32)
    requires
        forall|k: int| 0 <= k < s.len() ==> s[k].value != w,
    ensures
        with_value(s, w) == Seq::<Tagged>::empty(),
    decreases s.len(),
{
    reveal(Seq::filter);
    if s.len() > 0 {
        lemma_with_value_absent(s.drop_last(), w);
    }
}

/// Concatenating two sequences concatenates, value by value, their
/// subsequences of each value.
proof fn lemma_with_value_split(a: Seq<Tagged>, b: Seq<Tagged>, w: i32)
    ensures
        with_value(a + b, w) == with_value(a, w) + with_value(b, w),
{
    broadcast use vstd::seq_lib::group_filter_ensures;

}

/// Merges two sorted vectors of tagged elements, moving the smaller head
/// to the output and taking a tie from the left input first. That
/// tie-break is what stability rests on: for every value, the output's
/// subsequence of that value is the left input's followed by the right's.
pub fn merge_tagged(xs: Vec<Tagged>, ys: Vec<Tagged>) -> (r: Vec<Tagged>)
    requires
        sorted_tagged(xs@),
        sorted_tagged(ys@),
    ensures
        sorted_tagged(r@),
        r@.to_multiset() == xs@.to_multiset().add(ys@.to_multiset()),
        r@.len() == xs@.len() + ys@.len(),
        forall|w: i32| #[trigger] with_value(r@, w) == with_value(xs@, w) + with_value(ys@, w),
{
    broadcast use vstd::seq_lib::group_to_multiset_ensures;
    broadcast use vstd::multiset::group_multiset_axioms;

    let mut result: Vec<Tagged> = Vec::new();
    let mut i: usize = 0;
    let mut j: usize = 0;
    proof {
        reveal(Seq::filter);
        assert(xs@.take(0) =~= Seq::<Tagged>::empty());
        assert(ys@.take(0) =~= Seq::<Tagged>::empty());
        assert forall|w: i32| #[trigger] with_value(result@, w) == with_value(xs@.take(0), w)
            + with_value(ys@.take(0), w) by {
            assert(with_value(Seq::<Tagged>::empty(), w) =~= Seq::<Tagged>::empty());
            assert(result@ =~= Seq::<Tagged>::empty());
        }
        assert(result@.to_multiset() =~= xs@.take(0).to_multiset().add(ys@.take(0).to_multiset()));
    }
    while i < xs.len() || j < ys.len()
        invariant
            i <= xs@.len(),
            j <= ys@.len(),
            sorted_tagged(xs@),
            sorted_tagged(ys@),
            sorted_tagged(result@),
            result@.len() == i + j,
            result@.to_multiset() == xs@.take(i as int).to_multiset().add(
                ys@.take(j as int).to_multiset(),
            ),
            result@.len() > 0 && i < xs@.len() ==> result@.last().value <= xs@[i as int].value,
            result@.len() > 0 && j < ys@.len() ==> result@.last().value <= ys@[j as int].value,
            forall|w: i32| #[trigger] with_value(result@, w) == with_value(xs@.take(i as int), w)
                + with_value(ys@.take(j as int), w),
            forall|t: int|
                0 <= t < j && i < xs@.len() ==> #[trigger] ys@[t].value < xs@[i as int].value,
        decreases xs@.len() - i + ys@.len() - j,
    {
        let take_left = if i >= xs.len() {
            false
        } else if j >= ys.len() {
            true
        } else {
            xs[i].value <= ys[j].value
        };
        let ghost r0 = result@;
        if take_left {
            let e = xs[i];
            result.push(e);
            proof {
                broadcast use vstd::seq_lib::group_to_multiset_ensures;
                broadcast use vstd::multiset::group_multiset_axioms;

                assert(result@ == r0.push(e));
                assert(r0.push(e).to_multiset() =~= r0.to_multiset().insert(e));
                assert(xs@.take(i + 1) =~= xs@.take(i as int).push(e));
                assert(xs@.take(i as int).push(e).to_multiset() =~= xs@.take(
                    i as int,
                ).to_multiset().insert(e));
                assert(result@.to_multiset() =~= xs@.take(i + 1).to_multiset().add(
                    ys@.take(j as int).to_multiset(),
                ));
                assert forall|w: i32| #[trigger] with_value(result@, w) == with_value(
                    xs@.take(i + 1),
                    w,
                ) + with_value(ys@.take(j as int), w) by {
                    lemma_with_value_push(r0, e, w);
                    lemma_with_value_push(xs@.take(i as int), e, w);
                    if e.value == w {
                        lemma_with_value_absent(ys@.take(j as int), w);
                        assert(with_value(r0, w).push(e) =~= with_value(xs@.take(i as int), w).push(
                            e,
                        ) + with_value(ys@.take(j as int), w));
                    }
                }
            }
            i += 1;
        } else {
            let e = ys[j];
            result.push(e);
            proof {
                broadcast use vstd::seq_lib::group_to_multiset_ensures;
                broadcast use vstd::multiset::group_multiset_axioms;

                assert(result@ == r0.push(e));
                assert(r0.push(e).to_multiset() =~= r0.to_multiset().insert(e));
                assert(ys@.take(j + 1) =~= ys@.take(j as int).push(e));
                assert(ys@.take(j as int).push(e).to_multiset() =~= ys@.take(
                    j as int,
                ).to_multiset().insert(e));
                assert(result@.to_multiset() =~= xs@.take(i as int).to_multiset().add(
                    ys@.take(j + 1).to_multiset(),
                ));
                assert forall|w: i32| #[trigger] with_value(result@, w) == with_value(
                    xs@.take(i as int),
                    w,
                ) + with_value(ys@.take(j + 1), w) by {
                    lemma_with_value_push(r0, e, w);
                    lemma_with_value_push(ys@.take(j as int), e, w);
                    if e.value == w {
                        assert(with_value(r0, w).push(e) =~= with_value(xs@.take(i as int), w)
                            + with_value(ys@.take(j as int), w).push(e));
                    }
                }
            }
            j += 1;
        }
    }
    proof {
        assert(xs@.take(i as int) =~= xs@);
        assert(ys@.take(j as int) =~= ys@);
    }
    result
}

/// Returns a new vector holding the elements of `v` in non-decreasing
/// order of value, without mutating `v` — and stably: for every value,
/// the subsequence of elements carrying that value stands in the output
/// exactly as it stood in the input, tags and relative order preserved.
pub fn merge_sort_tagged(v: &[Tagged]) -> (r: Vec<Tagged>)
    ensures
        sorted_tagged(r@),
        r@.to_multiset() == v@.to_multiset(),
        r@.len() == v@.len(),
        forall|w: i32| #[trigger] with_value(r@, w) == with_value(v@, w),
    decreases v@.len(),
{
    let len = v.len();
    if len == 0 {
        let result = Vec::<Tagged>::new();
        proof {
            assert(result@ =~= v@);
        }
        return result;
    }
    if len == 1 {
        let mut result = Vec::<Tagged>::new();
        result.push(v[0]);
        proof {
            assert(result@ =~= v@);
        }
        return result;
    }
    let middle = len / 2;
    let left = merge_sort_tagged(&v[0..middle]);
    let right = merge_sort_tagged(&v[middle..len]);
    proof {
        let lh = v@.subrange(0, middle as int);
        let rh = v@.subrange(middle as int, len as int);
        assert(v@ =~= lh + rh);
        lemma_multiset_commutative(lh, rh);
        assert forall|w: i32| #[trigger] with_value(v@, w) == with_value(lh, w) + with_value(
            rh,
            w,
        ) by {
            lemma_with_value_split(lh, rh, w);
        }
    }
    merge_tagged(left, right)
}

} // verus!

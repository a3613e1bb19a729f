//! Sorting a sample by the total order of its kind.

use vstd::prelude::*;
use crate::maths::order::Operations;
use crate::maths::order::comes_after;
use crate::maths::order::order_specified;
use crate::maths::order::total_le;

verus! {

/// No element of `s` comes strictly after a later one.
pub open spec fn ordered<T: PartialOrd>(s: Seq<T>) -> bool {
    forall|i: int, j: int| 0 <= i < j < s.len() ==> total_le(#[trigger] s[i], #[trigger] s[j])
}

/// `t` holds the elements of `s`, each as often as `s` does, and in the
/// total order of the kind wherever that order is specified.
pub open spec fn is_sorted_copy<T: PartialOrd>(s: Seq<T>, t: Seq<T>) -> bool {
    &&& t.to_multiset() == s.to_multiset()
    &&& order_specified::<T>() ==> ordered(t)
}

/// Everything in `s` comes before everything in `rest`, or level with it.
pub open spec fn all_before<T: PartialOrd>(s: Seq<T>, rest: Seq<T>) -> bool {
    forall|i: int, j: int|
        0 <= i < s.len() && 0 <= j < rest.len() ==> total_le(#[trigger] s[i], #[trigger] rest[j])
}

/// Where `merged` holds what `left` and `right` hold together, one more
/// element at its end is one more at the end of either.
proof fn lemma_push_into_union<T>(merged: Seq<T>, left: Seq<T>, right: Seq<T>, x: T)
    requires
        merged.to_multiset() == left.to_multiset().add(right.to_multiset()),
    ensures
        merged.push(x).to_multiset() == left.push(x).to_multiset().add(right.to_multiset()),
        merged.push(x).to_multiset() == left.to_multiset().add(right.push(x).to_multiset()),
{
    broadcast use vstd::multiset::group_multiset_axioms;

    vstd::seq_lib::to_multiset_build(merged, x);
    vstd::seq_lib::to_multiset_build(left, x);
    vstd::seq_lib::to_multiset_build(right, x);
    assert(merged.push(x).to_multiset() =~= left.push(x).to_multiset().add(right.to_multiset()));
    assert(merged.push(x).to_multiset() =~= left.to_multiset().add(right.push(x).to_multiset()));
}

/// One step of a merge. `merged` is what was merged so far, `same` is what
/// is left of the side that gives the next element and `other` what is left
/// of the other side. Where that element comes no later than the first of
/// `other`, the merge stays in order and stays before all that is left.
proof fn lemma_merge_step<T: PartialOrd>(merged: Seq<T>, same: Seq<T>, other: Seq<T>)
    requires
        order_specified::<T>(),
        same.len() > 0,
        ordered(merged),
        ordered(same),
        ordered(other),
        all_before(merged, same),
        all_before(merged, other),
        other.len() > 0 ==> total_le(same[0], other[0]),
    ensures
        ordered(merged.push(same[0])),
        all_before(merged.push(same[0]), same.skip(1)),
        all_before(merged.push(same[0]), other),
{
    let x = same[0];
    let next = merged.push(x);
    assert forall|p: int, q: int| 0 <= p < q < next.len() implies total_le(
        #[trigger] next[p],
        #[trigger] next[q],
    ) by {
        if q == merged.len() {
            assert(total_le(merged[p], same[0]));
        } else {
            assert(total_le(merged[p], merged[q]));
        }
    }
    assert forall|p: int, q: int| 0 <= p < next.len() && 0 <= q < same.skip(1).len() implies total_le(
        #[trigger] next[p],
        #[trigger] same.skip(1)[q],
    ) by {
        assert(same.skip(1)[q] == same[q + 1]);
        if p == merged.len() {
            assert(total_le(same[0], same[q + 1]));
        } else {
            assert(total_le(merged[p], same[q + 1]));
        }
    }
    assert forall|p: int, q: int| 0 <= p < next.len() && 0 <= q < other.len() implies total_le(
        #[trigger] next[p],
        #[trigger] other[q],
    ) by {
        if p == merged.len() {
            if q > 0 {
                assert(total_le(other[0], other[q]));
            }
            assert(total_le(x, other[0]));
            assert(total_le(x, other[q]));
        } else {
            assert(total_le(merged[p], other[q]));
        }
    }
}

/// What is left of a sequence in order is in order.
proof fn lemma_ordered_skip<T: PartialOrd>(s: Seq<T>, k: int)
    requires
        ordered(s),
        0 <= k <= s.len(),
    ensures
        ordered(s.skip(k)),
{
    assert forall|p: int, q: int| 0 <= p < q < s.skip(k).len() implies total_le(
        #[trigger] s.skip(k)[p],
        #[trigger] s.skip(k)[q],
    ) by {
        assert(total_le(s[k + p], s[k + q]));
    }
}

/// The elements of `v` from `from` up to `to`, in a vector of their own.
fn copy_range<T: Copy>(v: &Vec<T>, from: usize, to: usize) -> (r: Vec<T>)
    requires
        from <= to <= v@.len(),
    ensures
        r@ == v@.subrange(from as int, to as int),
{
    let mut r: Vec<T> = Vec::new();
    let mut i: usize = from;
    while i < to
        invariant
            from <= i <= to <= v@.len(),
            r@ == v@.subrange(from as int, i as int),
        decreases to - i,
    {
        r.push(v[i]);
        i = i + 1;
        assert(r@ =~= v@.subrange(from as int, i as int));
    }
    r
}

/// Merges two vectors into one. Where both are in order, so is the result.
fn merge<T: Copy + Operations>(a: &Vec<T>, b: &Vec<T>) -> (r: Vec<T>)
    requires
        a@.len() + b@.len() <= usize::MAX,
    ensures
        r@.to_multiset() == a@.to_multiset().add(b@.to_multiset()),
        order_specified::<T>() && ordered(a@) && ordered(b@) ==> ordered(r@),
{
    let mut r: Vec<T> = Vec::new();
    let mut i: usize = 0;
    let mut j: usize = 0;
    let ghost in_order = order_specified::<T>() && ordered(a@) && ordered(b@);
    proof {
        broadcast use vstd::multiset::group_multiset_axioms;

        assert(a@.take(0) =~= Seq::<T>::empty());
        assert(b@.take(0) =~= Seq::<T>::empty());
        assert(r@ =~= Seq::<T>::empty());
        vstd::seq_lib::to_multiset_len(Seq::<T>::empty());
        vstd::multiset::lemma_multiset_empty_len(Seq::<T>::empty().to_multiset());
        assert(a@.take(0).to_multiset().add(b@.take(0).to_multiset()) =~= r@.to_multiset());
    }
    while i < a.len() || j < b.len()
        invariant
            i <= a@.len(),
            j <= b@.len(),
            a@.len() + b@.len() <= usize::MAX,
            r@.len() == i + j,
            in_order == (order_specified::<T>() && ordered(a@) && ordered(b@)),
            r@.to_multiset() == a@.take(i as int).to_multiset().add(b@.take(j as int).to_multiset()),
            in_order ==> ordered(r@),
            in_order ==> all_before(r@, a@.skip(i as int)),
            in_order ==> all_before(r@, b@.skip(j as int)),
        decreases a@.len() - i + b@.len() - j,
    {
        let from_left = if i == a.len() {
            false
        } else if j == b.len() {
            true
        } else {
            !comes_after(&a[i], &b[j])
        };
        let ghost merged = r@;
        let ghost left = a@.skip(i as int);
        let ghost right = b@.skip(j as int);
        proof {
            if in_order {
                lemma_ordered_skip(a@, i as int);
                lemma_ordered_skip(b@, j as int);
            }
        }
        if from_left {
            let x = a[i];
            r.push(x);
            proof {
                assert(a@.take(i + 1) =~= a@.take(i as int).push(x));
                assert(a@.skip(i + 1) =~= left.skip(1));
                lemma_push_into_union(merged, a@.take(i as int), b@.take(j as int), x);
                if in_order {
                    lemma_merge_step(merged, left, right);
                }
            }
            i = i + 1;
        } else {
            let y = b[j];
            r.push(y);
            proof {
                assert(b@.take(j + 1) =~= b@.take(j as int).push(y));
                assert(b@.skip(j + 1) =~= right.skip(1));
                lemma_push_into_union(merged, a@.take(i as int), b@.take(j as int), y);
                if in_order {
                    if left.len() > 0 {
                        assert(total_le(left[0], right[0]) || total_le(right[0], left[0]));
                    }
                    lemma_merge_step(merged, right, left);
                }
            }
            j = j + 1;
        }
    }
    proof {
        assert(a@.take(i as int) =~= a@);
        assert(b@.take(j as int) =~= b@);
    }
    r
}

/// The elements of `v` in the total order of their kind.
pub fn sorted_copy<T: Copy + Operations>(v: &Vec<T>) -> (r: Vec<T>)
    ensures
        is_sorted_copy(v@, r@),
        r@.len() == v@.len(),
    decreases v@.len(),
{
    let n = v.len();
    if n <= 1 {
        let r = copy_range(v, 0, n);
        assert(r@ =~= v@);
        return r;
    }
    let mid = n / 2;
    let left = copy_range(v, 0, mid);
    let right = copy_range(v, mid, n);
    let low = sorted_copy(&left);
    let high = sorted_copy(&right);
    let r = merge(&low, &high);
    proof {
        assert(v@ =~= left@ + right@);
        vstd::seq_lib::lemma_multiset_commutative(left@, right@);
        vstd::seq_lib::to_multiset_len(r@);
        vstd::seq_lib::to_multiset_len(v@);
    }
    r
}

} // verus!

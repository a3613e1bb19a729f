//! The total order of a numeric kind, and its not-a-number test.
//!
//! A kind brings a partial comparison. A value that does not compare with
//! itself is not a number. The total order places such values after all
//! others and level with each other, and otherwise follows the kind's own
//! comparison.

use vstd::prelude::*;
use vstd::std_specs::cmp::PartialOrdSpec;
use core::cmp::Ordering;

verus! {

/// The kind's comparison follows its specification.
pub open spec fn comparison_specified<T: PartialOrd>() -> bool {
    T::obeys_partial_cmp_spec()
}

/// `x` is not a number: it does not compare with itself.
pub open spec fn not_a_number<T: PartialOrd>(x: T) -> bool {
    x.partial_cmp_spec(&x) is None
}

/// How `a` stands to `b` in the total order.
pub open spec fn total_order<T: PartialOrd>(a: T, b: T) -> Ordering {
    match a.partial_cmp_spec(&b) {
        Some(o) => o,
        None => if not_a_number(a) && !not_a_number(b) {
            Ordering::Greater
        } else if !not_a_number(a) && not_a_number(b) {
            Ordering::Less
        } else {
            Ordering::Equal
        },
    }
}

/// `a` comes before `b` in the total order, or level with it.
pub open spec fn total_le<T: PartialOrd>(a: T, b: T) -> bool {
    !(total_order(a, b) is Greater)
}

/// The kind's comparison follows its specification, and `total_le` is a
/// total preorder on it: any two values compare, and the comparison is
/// transitive.
pub open spec fn order_specified<T: PartialOrd>() -> bool {
    &&& comparison_specified::<T>()
    &&& forall|a: T, b: T| #[trigger] total_le(a, b) || total_le(b, a)
    &&& forall|a: T, b: T, c: T| #[trigger]
        total_le(a, b) && #[trigger] total_le(b, c) ==> total_le(a, c)
}

/// No two different values are level in the total order.
pub open spec fn order_separates<T: PartialOrd>() -> bool {
    forall|a: T, b: T| #[trigger] total_le(a, b) && total_le(b, a) ==> a == b
}

/// The comparison and the not-a-number test that the statistics need of a
/// numeric kind. Every type with a partial comparison has them.
pub trait Operations: PartialOrd + Sized {
    /// Whether the value is not a number. Never true of an integer.
    fn _is_nan(&self) -> (r: bool)
        ensures
            comparison_specified::<Self>() ==> r == not_a_number(*self),
    ;

    /// Compares in the total order.
    fn _total_cmp(&self, b: &Self) -> (r: Ordering)
        ensures
            comparison_specified::<Self>() ==> r == total_order(*self, *b),
    ;
}

impl<T: PartialOrd> Operations for T {
    fn _is_nan(&self) -> (r: bool) {
        match self.partial_cmp(self) {
            Some(_) => false,
            None => true,
        }
    }

    fn _total_cmp(&self, b: &Self) -> (r: Ordering) {
        match self.partial_cmp(b) {
            Some(o) => o,
            None => {
                let left = self._is_nan();
                let right = b._is_nan();
                if left && !right {
                    Ordering::Greater
                } else if !left && right {
                    Ordering::Less
                } else {
                    Ordering::Equal
                }
            },
        }
    }
}

/// The elements of `s` that are numbers, in their order.
pub open spec fn numbers_only<T: PartialOrd>(s: Seq<T>) -> Seq<T> {
    s.filter(|x: T| !not_a_number(x))
}

/// The elements of `v` that are numbers, in their order.
pub fn without_nan<T: Copy + Operations>(v: &Vec<T>) -> (r: Vec<T>)
    ensures
        r@.len() <= v@.len(),
        comparison_specified::<T>() ==> r@ == numbers_only(v@),
{
    let n = v.len();
    let mut r: Vec<T> = Vec::new();
    proof {
        reveal(Seq::filter);
        assert(v@.take(0) =~= Seq::<T>::empty());
    }
    for i in 0..n
        invariant
            n == v@.len(),
            r@.len() <= i,
            comparison_specified::<T>() ==> r@ == numbers_only(v@.take(i as int)),
    {
        let x = v[i];
        proof {
            assert(v@.take(i + 1) =~= v@.take(i as int).push(x));
            v@.take(i as int).lemma_filter_push(x, |x: T| !not_a_number(x));
        }
        if !x._is_nan() {
            r.push(x);
        }
    }
    proof {
        assert(v@.take(n as int) =~= v@);
    }
    r
}

/// Whether `a` comes strictly after `b` in the total order.
pub fn comes_after<T: Operations>(a: &T, b: &T) -> (r: bool)
    ensures
        comparison_specified::<T>() ==> r == !total_le(*a, *b),
{
    match a._total_cmp(b) {
        Ordering::Greater => true,
        _ => false,
    }
}

} // verus!

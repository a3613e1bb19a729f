//! The integer kinds: numeric kinds whose values are whole numbers and whose
//! arithmetic is exact as long as it stays inside the kind.
//!
//! Nothing here runs. The traits state, and their impls prove, what the
//! standard operations do on the 32-bit and 64-bit integers, signed and
//! unsigned, so that the statistics of such samples can be stated in
//! ordinary arithmetic.

use vstd::prelude::*;
use vstd::std_specs::ops::AddSpec;
use vstd::std_specs::ops::DivSpec;
use crate::maths::numeric::is_converted;
use crate::maths::numeric::is_literal;
use crate::maths::numeric::is_zero;
use crate::maths::order::comparison_specified;
use crate::maths::order::not_a_number;
use crate::maths::order::total_le;

verus! {

/// The quotient of `a` by a positive `b`, rounded towards zero.
pub open spec fn truncated_quotient(a: int, b: int) -> int
    recommends
        b > 0,
{
    if a >= 0 {
        a / b
    } else {
        -((-a) / b)
    }
}

/// A numeric kind of whole numbers.
pub trait WholeKind: Copy + Default + PartialOrd + core::ops::Add<Output = Self> + core::ops::Div<
    Output = Self,
> + From<u8> {
    /// The whole number that the value stands for.
    spec fn number(self) -> int;

    /// The least number of the kind.
    spec fn least() -> int;

    /// The greatest number of the kind.
    spec fn greatest() -> int;

    /// Every value is a number within the kind's bounds. The kind's zero is
    /// 0, and a small literal stands for itself.
    proof fn lemma_number(a: Self)
        ensures
            Self::least() <= a.number() <= Self::greatest(),
            Self::least() <= 0,
            Self::greatest() >= 255,
            !not_a_number(a),
            is_zero(a) ==> a.number() == 0,
            forall|n: u8| #[trigger] is_literal(n, a) ==> a.number() == n,
    ;

    /// Two values that stand for the same number are the same value.
    proof fn lemma_same_number(a: Self, b: Self)
        requires
            a.number() == b.number(),
        ensures
            a == b,
    ;

    /// Addition is exact, and can be carried out exactly where the sum is
    /// within the kind's bounds.
    proof fn lemma_add(a: Self, b: Self)
        ensures
            Self::obeys_add_spec(),
            a.add_req(b) <==> Self::least() <= a.number() + b.number() <= Self::greatest(),
            a.add_req(b) ==> a.add_spec(b).number() == a.number() + b.number(),
    ;

    /// Division by a positive number can always be carried out, and rounds
    /// towards zero.
    proof fn lemma_div(a: Self, b: Self)
        ensures
            Self::obeys_div_spec(),
            b.number() > 0 ==> a.div_req(b) && a.div_spec(b).number() == truncated_quotient(
                a.number(),
                b.number(),
            ),
    ;

    /// The total order is the order of the numbers.
    proof fn lemma_order(a: Self, b: Self)
        ensures
            comparison_specified::<Self>(),
            total_le(a, b) <==> a.number() <= b.number(),
    ;
}

/// A kind of whole numbers whose values all convert into the kind `O`,
/// unchanged.
pub trait WidensTo<O: WholeKind>: WholeKind + Into<O> {
    /// Conversion keeps the number.
    proof fn lemma_widens(x: Self, y: O)
        requires
            is_converted::<Self, O>(x, y),
        ensures
            y.number() == x.number(),
    ;
}

/// A quotient by a positive number lies between zero and the dividend.
proof fn lemma_quotient_bounds(a: int, b: int)
    requires
        a >= 0,
        b > 0,
    ensures
        0 <= a / b <= a,
{
    vstd::arithmetic::div_mod::lemma_div_pos_is_pos(a, b);
    vstd::arithmetic::div_mod::lemma_div_is_ordered_by_denominator(a, 1, b);
    vstd::arithmetic::div_mod::lemma_div_basics(a);
}

impl WholeKind for i32 {
    open spec fn number(self) -> int {
        self as int
    }

    open spec fn least() -> int {
        i32::MIN as int
    }

    open spec fn greatest() -> int {
        i32::MAX as int
    }

    proof fn lemma_number(a: Self) {
    }

    proof fn lemma_same_number(a: Self, b: Self) {
    }

    proof fn lemma_add(a: Self, b: Self) {
    }

    proof fn lemma_div(a: Self, b: Self) {
        if b > 0 {
            if a >= 0 {
                lemma_quotient_bounds(a as int, b as int);
            } else {
                lemma_quotient_bounds(-(a as int), b as int);
            }
        }
    }

    proof fn lemma_order(a: Self, b: Self) {
    }
}

impl WholeKind for i64 {
    open spec fn number(self) -> int {
        self as int
    }

    open spec fn least() -> int {
        i64::MIN as int
    }

    open spec fn greatest() -> int {
        i64::MAX as int
    }

    proof fn lemma_number(a: Self) {
    }

    proof fn lemma_same_number(a: Self, b: Self) {
    }

    proof fn lemma_add(a: Self, b: Self) {
    }

    proof fn lemma_div(a: Self, b: Self) {
        if b > 0 {
            if a >= 0 {
                lemma_quotient_bounds(a as int, b as int);
            } else {
                lemma_quotient_bounds(-(a as int), b as int);
            }
        }
    }

    proof fn lemma_order(a: Self, b: Self) {
    }
}

impl WholeKind for u32 {
    open spec fn number(self) -> int {
        self as int
    }

    open spec fn least() -> int {
        0
    }

    open spec fn greatest() -> int {
        u32::MAX as int
    }

    proof fn lemma_number(a: Self) {
    }

    proof fn lemma_same_number(a: Self, b: Self) {
    }

    proof fn lemma_add(a: Self, b: Self) {
    }

    proof fn lemma_div(a: Self, b: Self) {
        if b > 0 {
            lemma_quotient_bounds(a as int, b as int);
        }
    }

    proof fn lemma_order(a: Self, b: Self) {
    }
}

impl WholeKind for u64 {
    open spec fn number(self) -> int {
        self as int
    }

    open spec fn least() -> int {
        0
    }

    open spec fn greatest() -> int {
        u64::MAX as int
    }

    proof fn lemma_number(a: Self) {
    }

    proof fn lemma_same_number(a: Self, b: Self) {
    }

    proof fn lemma_add(a: Self, b: Self) {
    }

    proof fn lemma_div(a: Self, b: Self) {
        if b > 0 {
            lemma_quotient_bounds(a as int, b as int);
        }
    }

    proof fn lemma_order(a: Self, b: Self) {
    }
}

impl WidensTo<i32> for i32 {
    proof fn lemma_widens(x: Self, y: i32) {
    }
}

impl WidensTo<i64> for i32 {
    proof fn lemma_widens(x: Self, y: i64) {
    }
}

impl WidensTo<i64> for i64 {
    proof fn lemma_widens(x: Self, y: i64) {
    }
}

impl WidensTo<u32> for u32 {
    proof fn lemma_widens(x: Self, y: u32) {
    }
}

impl WidensTo<u64> for u32 {
    proof fn lemma_widens(x: Self, y: u64) {
    }
}

impl WidensTo<i64> for u32 {
    proof fn lemma_widens(x: Self, y: i64) {
    }
}

impl WidensTo<u64> for u64 {
    proof fn lemma_widens(x: Self, y: u64) {
    }
}

} // verus!

//! What the statistics ask of a numeric kind: a zero, small literals,
//! conversion into the output kind, addition and division.
//!
//! A kind is any type that has these through the standard traits. What an
//! operation returns is stated through the kind's own specification, so that
//! the contracts are exact for the integer kinds and say nothing false of a
//! kind whose arithmetic rounds.

use vstd::prelude::*;
use vstd::std_specs::ops::AddSpec;

verus! {

/// `From::from` of a type into itself, which the standard library defines
/// for every type as the identity: the value comes back unchanged.
pub assume_specification<Same>[ <Same as std::convert::From<Same>>::from ](x: Same) -> (r: Same)
    ensures
        r == x,
;

/// `i32::from` on a `u8`: the same number, since every `u8` fits.
pub assume_specification[ <i32 as std::convert::From<u8>>::from ](x: u8) -> (r: i32)
    ensures
        r == x,
;

/// `i64::from` on a `u8`: the same number, since every `u8` fits.
pub assume_specification[ <i64 as std::convert::From<u8>>::from ](x: u8) -> (r: i64)
    ensures
        r == x,
;

/// `i64::from` on a `u32`: the same number, since every `u32` fits.
pub assume_specification[ <i64 as std::convert::From<u32>>::from ](x: u32) -> (r: i64)
    ensures
        r == x,
;

/// `text` is a text that formatting `x` may give.
pub open spec fn is_text_of<I: core::fmt::Display>(x: I, text: String) -> bool {
    vstd::string::to_string_from_display_ensures::<I>(&x, text)
}

/// `keys` are texts that formatting the elements of `s` may give, one for
/// each element and in the same order.
pub open spec fn are_texts_of<I: core::fmt::Display>(s: Seq<I>, keys: Seq<String>) -> bool {
    &&& keys.len() == s.len()
    &&& forall|i: int| 0 <= i < s.len() ==> is_text_of(s[i], #[trigger] keys[i])
}

/// `z` is a value that the kind's `default()` may return: its zero.
pub open spec fn is_zero<T: Default>(z: T) -> bool {
    call_ensures(T::default, (), z)
}

/// `y` is a value that converting the small literal `n` into the kind may
/// return.
pub open spec fn is_literal<T: From<u8>>(n: u8, y: T) -> bool {
    call_ensures(<T as From<u8>>::from, (n,), y)
}

/// `y` is a value that converting `x` into the output kind may return.
pub open spec fn is_converted<I: Into<O>, O>(x: I, y: O) -> bool {
    call_ensures(<I as Into<O>>::into, (x,), y)
}

/// The elements of `s` added up from left to right, starting at `zero`, in
/// the kind's own arithmetic.
pub open spec fn sum_from<I: core::ops::Add<Output = I>>(zero: I, s: Seq<I>) -> I
    decreases s.len(),
{
    if s.len() == 0 {
        zero
    } else {
        sum_from(zero, s.drop_last()).add_spec(s.last())
    }
}

/// Every addition that `sum_from` makes is one the kind can carry out.
pub open spec fn sum_defined<I: core::ops::Add<Output = I>>(zero: I, s: Seq<I>) -> bool
    decreases s.len(),
{
    s.len() > 0 ==> sum_defined(zero, s.drop_last()) && sum_from(zero, s.drop_last()).add_req(
        s.last(),
    )
}

/// `one` added `n` times to `zero`, in the kind's own arithmetic: the count
/// of `n` elements as a value of the output kind.
pub open spec fn count_from<O: core::ops::Add<Output = O>>(zero: O, one: O, n: nat) -> O
    decreases n,
{
    if n == 0 {
        zero
    } else {
        count_from(zero, one, (n - 1) as nat).add_spec(one)
    }
}

/// Every addition that `count_from` makes is one the kind can carry out.
pub open spec fn count_defined<O: core::ops::Add<Output = O>>(zero: O, one: O, n: nat) -> bool
    decreases n,
{
    n > 0 ==> count_defined(zero, one, (n - 1) as nat) && count_from(
        zero,
        one,
        (n - 1) as nat,
    ).add_req(one)
}

/// A sum that is defined is defined at every prefix.
pub proof fn lemma_sum_defined_prefix<I: core::ops::Add<Output = I>>(zero: I, s: Seq<I>, k: int)
    requires
        sum_defined(zero, s),
        0 <= k <= s.len(),
    ensures
        sum_defined(zero, s.take(k)),
    decreases s.len(),
{
    if k == s.len() {
        assert(s.take(k) =~= s);
    } else {
        lemma_sum_defined_prefix(zero, s.drop_last(), k);
        assert(s.drop_last().take(k) =~= s.take(k));
    }
}

/// A count that is defined is defined at every smaller number.
pub proof fn lemma_count_defined_below<O: core::ops::Add<Output = O>>(
    zero: O,
    one: O,
    n: nat,
    k: nat,
)
    requires
        count_defined(zero, one, n),
        k <= n,
    ensures
        count_defined(zero, one, k),
    decreases n,
{
    if k < n {
        lemma_count_defined_below(zero, one, (n - 1) as nat, k);
    }
}

} // verus!

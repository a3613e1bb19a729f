//! Evenly spaced integer ranges.

use vstd::prelude::*;

verus! {

/// How many values `arange` yields: as many steps of size `step` as it
/// takes to get from `start` to `end` or past it, and none where `start` is
/// not below `end`.
pub open spec fn arange_len(start: int, end: int, step: int) -> nat {
    if step > 0 && start < end {
        ((end - start + step - 1) / step) as nat
    } else {
        0
    }
}

/// `n` is the number of steps of size `step` that fit between `start` and
/// `end`, counting the first value: the last value is below `end`, and one
/// more step reaches or passes it.
proof fn lemma_arange_len(start: int, end: int, step: int, n: int)
    requires
        step > 0,
        n >= 1,
        start + (n - 1) * step < end,
        start + n * step >= end,
    ensures
        arange_len(start, end, step) == n,
{
    let d = end - start + step - 1;
    assert(start < end) by (nonlinear_arith)
        requires
            step > 0,
            n >= 1,
            start + (n - 1) * step < end,
    ;
    assert(n * step <= d < n * step + step) by (nonlinear_arith)
        requires
            d == end - start + step - 1,
            start + (n - 1) * step < end,
            start + n * step >= end,
    ;
    vstd::arithmetic::div_mod::lemma_fundamental_div_mod_converse(d, step, n, d - n * step);
}

/// The integers `start, start + step, ...` of the half-open interval from
/// `start` to `end`: `start` is in, `end` is out.
///
/// Where `start` is not below `end` the interval holds no value. A positive
/// `step` walks upwards until `end` is reached or passed. A negative `step`
/// would never arrive, so it is accepted only where the interval is empty.
pub fn arange(start: i64, end: i64, step: i64) -> (output: Vec<i64>)
    requires
        step != 0,
        step > 0 || start >= end,
    ensures
        output@.len() == arange_len(start as int, end as int, step as int),
        forall|k: int| 0 <= k < output@.len() ==> #[trigger] output@[k] == start + k * step,
{
    let mut output: Vec<i64> = Vec::new();
    if start >= end {
        return output;
    }
    let mut count: i64 = start;
    output.push(count);
    loop
        invariant_except_break
            step > 0,
            output@.len() >= 1,
            count == start + (output@.len() - 1) * step,
            count < end,
            forall|k: int| 0 <= k < output@.len() ==> output@[k] == start + k * step,
        ensures
            output@.len() >= 1,
            forall|k: int| 0 <= k < output@.len() ==> output@[k] == start + k * step,
            output@.len() == arange_len(start as int, end as int, step as int),
        decreases end - count,
    {
        let ghost n = output@.len() as int;
        assert(start + n * step == count + step) by (nonlinear_arith)
            requires
                count == start + (n - 1) * step,
        ;
        let next: i64 = match count.checked_add(step) {
            Some(next) => next,
            None => {
                proof {
                    lemma_arange_len(start as int, end as int, step as int, n);
                }
                break ;
            },
        };
        if next >= end {
            proof {
                lemma_arange_len(start as int, end as int, step as int, n);
            }
            break ;
        }
        count = next;
        output.push(count);
    }
    output
}

} // verus!

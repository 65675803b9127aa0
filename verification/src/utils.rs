//! Interpolation in a table of values.

use vstd::prelude::*;

verus! {

/// The quotient `n / d`, rounded to the nearest integer, a half upward.
pub open spec fn round_div(n: int, d: int) -> int {
    (2 * n + d) / (2 * d)
}

/// The value at `percentage` percent of the way through a table whose entries
/// stand at equal distances from 0 to 100 percent: linear between two
/// neighbours, rounded to the nearest integer.
pub open spec fn lerp_spec(values: Seq<u32>, percentage: int) -> int {
    let last = values.len() - 1;
    let floored_index = percentage * last / 100;
    let part = percentage * last % 100;
    if floored_index >= last {
        values[last] as int
    } else {
        round_div(values[floored_index] * (100 - part) + values[floored_index + 1] * part, 100)
    }
}

/// An interpolated value lies between a lower and an upper bound of the table.
pub proof fn lemma_lerp_bounds(values: Seq<u32>, percentage: int, low: int, high: int)
    requires
        values.len() >= 1,
        0 <= percentage <= 100,
        forall|i: int| 0 <= i < values.len() ==> low <= #[trigger] values[i] <= high,
    ensures
        low <= lerp_spec(values, percentage) <= high,
{
    let last = values.len() - 1;
    let floored_index = percentage * last / 100;
    let part = percentage * last % 100;
    assert(0 <= percentage * last) by (nonlinear_arith)
        requires
            0 <= percentage,
            0 <= last,
    ;
    if floored_index < last {
        let a = values[floored_index] as int;
        let b = values[floored_index + 1] as int;
        let weighted = a * (100 - part) + b * part;
        assert(low * 100 <= weighted <= high * 100) by (nonlinear_arith)
            requires
                weighted == a * (100 - part) + b * part,
                low <= a <= high,
                low <= b <= high,
                0 <= part < 100,
        ;
    }
}

/// At a percentage at which an entry of the table stands, the interpolation
/// gives that entry.
pub proof fn lemma_lerp_at_entry(values: Seq<u32>, percentage: int, j: int)
    requires
        0 <= j < values.len(),
        percentage * (values.len() - 1) == 100 * j,
    ensures
        lerp_spec(values, percentage) == values[j],
{
    let last = values.len() - 1;
    vstd::arithmetic::div_mod::lemma_fundamental_div_mod_converse(100 * j, 100, j, 0);
    if j < last {
        let a = values[j] as int;
        assert((2 * (a * 100) + 100) / 200 == a) by {
            vstd::arithmetic::div_mod::lemma_fundamental_div_mod_converse(
                2 * (a * 100) + 100,
                200,
                a,
                100,
            );
        }
        assert(values[j] * (100 - 0) + values[j + 1] * 0 == a * 100);
    }
}

/// Widens a table entry with `num::cast`. From `u32` to `u64` that cast always
/// succeeds and keeps the value.
#[verifier::external_body]
fn widen(value: u32) -> (wide: Option<u64>)
    ensures
        wide == Some(value as u64),
{
    num::cast(value)
}

/// Interpolates linearly in a table of values that stand at equal distances
/// from 0 to 100 percent.
pub fn lerp<const N: usize>(values: [u32; N], percentage: u32) -> (lerped: u64)
    requires
        N >= 1,
        percentage <= 100,
    ensures
        lerped == lerp_spec(values@, percentage as int),
{
    let last: usize = N - 1;
    assert(percentage * last <= 100 * usize::MAX) by (nonlinear_arith)
        requires
            percentage <= 100,
            0 <= last <= usize::MAX,
    ;
    let scaled: u128 = percentage as u128 * last as u128;
    let floored: u128 = scaled / 100;
    let part: u64 = (scaled % 100) as u64;
    assert(floored <= last) by (nonlinear_arith)
        requires
            floored == (percentage * last) / 100,
            percentage <= 100,
            last >= 0,
    ;
    let floored_index: usize = floored as usize;
    if floored_index == last {
        return widen(values[last]).unwrap();
    }
    let floored_val: u64 = widen(values[floored_index]).unwrap();
    let ceiled_val: u64 = widen(values[floored_index + 1]).unwrap();
    assert(floored_val * (100 - part) + ceiled_val * part <= 100 * u32::MAX) by (nonlinear_arith)
        requires
            floored_val <= u32::MAX,
            ceiled_val <= u32::MAX,
            0 <= part < 100,
    ;
    assert(floored_val * (100 - part) <= 100 * u32::MAX && ceiled_val * part <= 100 * u32::MAX)
        by (nonlinear_arith)
        requires
            floored_val <= u32::MAX,
            ceiled_val <= u32::MAX,
            0 <= part < 100,
    ;
    let weighted: u64 = floored_val * (100 - part) + ceiled_val * part;
    (2 * weighted + 100) / 200
}

} // verus!

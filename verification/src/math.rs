//! Reusable arithmetic helpers for contract amounts, counters, and fees.
//!
//! Operations that affect contract validity return `Option` so callers must
//! handle overflow explicitly. Aggregate helpers saturate deliberately, which
//! keeps read-only tallies bounded when an exact result is no longer
//! representable.

use vstd::prelude::*;

verus! {

/// Number of basis points in 100%.
pub const BASIS_POINTS_DENOMINATOR: u32 = 10_000;

/// The mathematical value `v` clamped into the `i128` range.
pub open spec fn clamp_i128(v: int) -> i128 {
    if v > i128::MAX {
        i128::MAX
    } else if v < i128::MIN {
        i128::MIN
    } else {
        v as i128
    }
}

/// The fee on `amount` at `basis_points`, rounded down.
pub open spec fn fee_spec(amount: int, basis_points: int) -> int {
    amount * basis_points / (BASIS_POINTS_DENOMINATOR as int)
}

/// Add two token amounts, returning `None` when the result is out of range.
pub fn checked_add_amount(lhs: i128, rhs: i128) -> (r: Option<i128>)
    ensures
        r == (if i128::MIN <= lhs + rhs <= i128::MAX {
            Some((lhs + rhs) as i128)
        } else {
            None::<i128>
        }),
{
    lhs.checked_add(rhs)
}

/// Subtract one token amount from another, returning `None` on overflow.
pub fn checked_sub_amount(lhs: i128, rhs: i128) -> (r: Option<i128>)
    ensures
        r == (if i128::MIN <= lhs - rhs <= i128::MAX {
            Some((lhs - rhs) as i128)
        } else {
            None::<i128>
        }),
{
    lhs.checked_sub(rhs)
}

/// Increment a counter, returning `None` when it has reached `u64::MAX`.
pub fn checked_increment(value: u64) -> (r: Option<u64>)
    ensures
        r == (if value < u64::MAX {
            Some((value + 1) as u64)
        } else {
            None::<u64>
        }),
{
    value.checked_add(1)
}

/// Add two token amounts and clamp the result to the `i128` range.
pub fn saturating_add_amount(lhs: i128, rhs: i128) -> (r: i128)
    ensures
        r == clamp_i128(lhs + rhs),
{
    match lhs.checked_add(rhs) {
        Some(sum) => sum,
        None => if rhs > 0 {
            i128::MAX
        } else {
            i128::MIN
        },
    }
}

/// Add to an aggregate counter and clamp the result to `cap`.
pub fn saturating_add_with_cap(value: u64, delta: u64, cap: u64) -> (r: u64)
    ensures
        r == (if value + delta > cap {
            cap as int
        } else {
            value + delta
        }),
{
    let sum = value.saturating_add(delta);
    if sum > cap {
        cap
    } else {
        sum
    }
}

proof fn lemma_fee_split(amount: int, rate: int)
    requires
        0 <= amount,
        0 <= rate <= 10_000,
    ensures
        (amount / 10_000) * rate + ((amount % 10_000) * rate) / 10_000 == amount * rate / 10_000,
        (amount / 10_000) * rate + ((amount % 10_000) * rate) / 10_000 <= amount,
        (amount / 10_000) * rate <= amount,
        (amount % 10_000) * rate < 10_000 * 10_000,
{
    let q = amount / 10_000;
    let r = amount % 10_000;
    assert(amount == q * 10_000 + r && 0 <= r < 10_000 && q >= 0) by (nonlinear_arith)
        requires
            0 <= amount,
            q == amount / 10_000,
            r == amount % 10_000,
    ;
    assert(amount * rate == (q * rate) * 10_000 + r * rate) by (nonlinear_arith)
        requires
            amount == q * 10_000 + r,
    ;
    assert(((q * rate) * 10_000 + r * rate) / 10_000 == q * rate + (r * rate) / 10_000)
        by (nonlinear_arith)
        requires
            0 <= r,
            0 <= rate,
            0 <= q,
    ;
    assert(amount * rate / 10_000 <= amount) by (nonlinear_arith)
        requires
            0 <= amount,
            0 <= rate <= 10_000,
    ;
    assert(q * rate <= amount) by (nonlinear_arith)
        requires
            amount == q * 10_000 + r,
            0 <= r,
            0 <= q,
            0 <= rate <= 10_000,
    ;
    assert(r * rate < 10_000 * 10_000) by (nonlinear_arith)
        requires
            0 <= r < 10_000,
            0 <= rate <= 10_000,
    ;
}

/// Calculate a non-negative fee expressed in basis points.
///
/// Returns `None` when `amount` is negative or `basis_points` is greater than
/// 100%. The calculation splits the amount into quotient and remainder before
/// multiplying, avoiding intermediate overflow for every valid `i128` amount.
/// Fractional units are rounded down.
pub fn calculate_fee(amount: i128, basis_points: u32) -> (r: Option<i128>)
    ensures
        r == (if amount < 0 || basis_points > BASIS_POINTS_DENOMINATOR {
            None::<i128>
        } else {
            Some(fee_spec(amount as int, basis_points as int) as i128)
        }),
        r matches Some(fee) ==> 0 <= fee <= amount,
{
    if amount < 0 || basis_points > BASIS_POINTS_DENOMINATOR {
        return None;
    }
    let denominator = BASIS_POINTS_DENOMINATOR as i128;
    let rate = basis_points as i128;
    let quotient = amount / denominator;
    let remainder = amount % denominator;
    proof {
        lemma_fee_split(amount as int, rate as int);
        assert(fee_spec(amount as int, basis_points as int) == amount * rate / 10_000);
        assert(0 <= amount * rate / 10_000) by (nonlinear_arith)
            requires
                0 <= amount,
                0 <= rate,
        ;
    }
    match quotient.checked_mul(rate) {
        Some(base) => match remainder.checked_mul(rate) {
            Some(remainder_product) => base.checked_add(remainder_product / denominator),
            None => None,
        },
        None => None,
    }
}

} // verus!

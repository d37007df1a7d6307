//! Volume-tiered swap fee discount.

use vstd::prelude::*;
use crate::fixed_math::{mul_up_spec, FixedMul, ONE};

verus! {

/// The fraction of the base fee kept at volume `x`: one below 10^14, then
/// one tenth less for each doubling of the volume, none from 5.12 * 10^16.
pub open spec fn retained_fraction(x: u64) -> u64 {
    if x < 100_000_000_000_000 {
        ONE
    } else if x < 200_000_000_000_000 {
        900_000_000
    } else if x < 400_000_000_000_000 {
        800_000_000
    } else if x < 800_000_000_000_000 {
        700_000_000
    } else if x < 1_600_000_000_000_000 {
        600_000_000
    } else if x < 3_200_000_000_000_000 {
        500_000_000
    } else if x < 6_400_000_000_000_000 {
        400_000_000
    } else if x < 12_800_000_000_000_000 {
        300_000_000
    } else if x < 25_600_000_000_000_000 {
        200_000_000
    } else if x < 51_200_000_000_000_000 {
        100_000_000
    } else {
        0
    }
}

/// The swap fee after the discount earned by volume `x_amount`: unchanged
/// below the first tier, zero from the last, and otherwise the retained
/// fraction of the fee rounded up.
pub open spec fn discounted_fee(swap_fee: u64, x_amount: u64) -> Option<u64> {
    if retained_fraction(x_amount) == ONE {
        Some(swap_fee)
    } else if retained_fraction(x_amount) == 0 {
        Some(0u64)
    } else {
        mul_up_spec(swap_fee, retained_fraction(x_amount))
    }
}

/// The swap fee after the discount earned by volume `x_amount`.
pub fn calc_swap_fee_in_discount(swap_fee: u64, x_amount: u64) -> (r: Option<u64>)
    ensures
        r == discounted_fee(swap_fee, x_amount),
{
    if x_amount < 100_000_000_000_000 {
        Some(swap_fee)
    } else if x_amount < 200_000_000_000_000 {
        swap_fee.mul_up(900_000_000)
    } else if x_amount < 400_000_000_000_000 {
        swap_fee.mul_up(800_000_000)
    } else if x_amount < 800_000_000_000_000 {
        swap_fee.mul_up(700_000_000)
    } else if x_amount < 1_600_000_000_000_000 {
        swap_fee.mul_up(600_000_000)
    } else if x_amount < 3_200_000_000_000_000 {
        swap_fee.mul_up(500_000_000)
    } else if x_amount < 6_400_000_000_000_000 {
        swap_fee.mul_up(400_000_000)
    } else if x_amount < 12_800_000_000_000_000 {
        swap_fee.mul_up(300_000_000)
    } else if x_amount < 25_600_000_000_000_000 {
        swap_fee.mul_up(200_000_000)
    } else if x_amount < 51_200_000_000_000_000 {
        swap_fee.mul_up(100_000_000)
    } else {
        Some(0)
    }
}

} // verus!

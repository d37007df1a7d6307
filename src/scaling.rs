//! Scaling between a token's own amounts and the common precision of pool
//! balances: a token amount is multiplied (`scaling_up`) or divided by its
//! scaling factor.

use vstd::prelude::*;
use crate::fixed_math::{complement_spec, mul_down_spec};

verus! {

/// A token amount in balance precision; absent on overflow or for a zero
/// divisor.
pub open spec fn wrap_spec(scaling_up: bool, factor: u64, amount: u64) -> Option<u64> {
    if factor == 1 {
        Some(amount)
    } else if scaling_up {
        if amount * factor > u64::MAX {
            None
        } else {
            Some((amount * factor) as u64)
        }
    } else if factor == 0 {
        None
    } else {
        Some(amount / factor)
    }
}

/// A balance amount in token precision: the inverse scaling of
/// [`wrap_spec`].
pub open spec fn unwrap_spec(scaling_up: bool, factor: u64, amount: u64) -> Option<u64> {
    if factor == 1 {
        Some(amount)
    } else if scaling_up {
        if factor == 0 {
            None
        } else {
            Some(amount / factor)
        }
    } else if amount * factor > u64::MAX {
        None
    } else {
        Some((amount * factor) as u64)
    }
}

/// A token amount rounded down to a multiple of the factor of a scaled-down
/// token, so that no part of it is lost in balance precision.
pub open spec fn round_spec(scaling_up: bool, factor: u64, amount: u64) -> Option<u64> {
    if scaling_up {
        Some(amount)
    } else if factor == 0 {
        None
    } else {
        Some((amount / factor * factor) as u64)
    }
}

/// Splits a swap's output in balance precision into the amount paid out,
/// net of the fee rounded in favour of the pool, and the fee kept, both
/// scaled back to token precision.
pub open spec fn split_fee_spec(scaling_up: bool, factor: u64, out_without_fee: u64, fee: u64) -> Option<
    (u64, u64),
> {
    match mul_down_spec(out_without_fee, complement_spec(fee)) {
        None => None,
        Some(out) => if out > out_without_fee {
            None
        } else {
            match (
                unwrap_spec(scaling_up, factor, out),
                unwrap_spec(scaling_up, factor, (out_without_fee - out) as u64),
            ) {
                (Some(a), Some(f)) => Some((a, f)),
                _ => None,
            }
        },
    }
}

pub fn wrap_amount(scaling_up: bool, factor: u64, amount: u64) -> (r: Option<u64>)
    ensures
        r == wrap_spec(scaling_up, factor, amount),
{
    if factor == 1 {
        Some(amount)
    } else if scaling_up {
        amount.checked_mul(factor)
    } else {
        amount.checked_div(factor)
    }
}

pub fn unwrap_amount(scaling_up: bool, factor: u64, amount: u64) -> (r: Option<u64>)
    ensures
        r == unwrap_spec(scaling_up, factor, amount),
{
    if factor == 1 {
        Some(amount)
    } else if scaling_up {
        amount.checked_div(factor)
    } else {
        amount.checked_mul(factor)
    }
}

pub fn round_amount(scaling_up: bool, factor: u64, amount: u64) -> (r: Option<u64>)
    ensures
        r == round_spec(scaling_up, factor, amount),
{
    if scaling_up {
        Some(amount)
    } else {
        match amount.checked_div(factor) {
            Some(q) => {
                assert(q * factor <= amount) by (nonlinear_arith)
                    requires
                        q == amount / factor,
                        factor > 0,
                ;
                q.checked_mul(factor)
            },
            None => None,
        }
    }
}

} // verus!

//! Proportional joins and exits, and the pieces of deposit math shared by
//! the weighted and stable pools.

use vstd::prelude::*;
use crate::fixed_math::{div_down_spec, mul_down_spec, ONE};
use crate::safe_math::{mul_div_down_u64, mul_div_up_u64, CheckedMulDiv};

verus! {

/// `(b + a) / b` rounded down: how much a balance grows by a deposit.
pub open spec fn ratio_with_fee(b: u64, a: u64) -> Option<u64> {
    if b + a > u64::MAX {
        None
    } else {
        div_down_spec((b + a) as u64, b)
    }
}

/// Pool tokens minted when the invariant grows by `ratio`: the supply times
/// the growth above one, rounded down, or zero when it does not grow.
pub open spec fn minted_for_growth(supply: u64, ratio: u64) -> Option<u64> {
    if ratio > ONE {
        mul_down_spec(supply, (ratio - ONE) as u64)
    } else {
        Some(0)
    }
}

/// Amounts of each token to deposit for `amount_out` pool tokens out of a
/// supply of `pool_token_supply`: `ceil(b * amount_out / pool_token_supply)`
/// per token.
pub fn compute_proportional_amounts_in(balances: &Vec<u64>, pool_token_supply: u64, amount_out: u64) -> (r: Vec<u64>)
    requires
        forall|i: int|
            0 <= i < balances@.len() ==> mul_div_up_u64(
                balances@[i] as nat,
                amount_out as nat,
                pool_token_supply as nat,
            ) is Some,
    ensures
        r@.len() == balances@.len(),
        forall|i: int|
            0 <= i < r@.len() ==> mul_div_up_u64(
                balances@[i] as nat,
                amount_out as nat,
                pool_token_supply as nat,
            ) == Some(r@[i]),
{
    let mut amounts_in: Vec<u64> = Vec::new();
    let mut i: usize = 0;
    while i < balances.len()
        invariant
            i <= balances@.len(),
            amounts_in@.len() == i,
            forall|j: int|
                0 <= j < balances@.len() ==> mul_div_up_u64(
                    balances@[j] as nat,
                    amount_out as nat,
                    pool_token_supply as nat,
                ) is Some,
            forall|j: int|
                0 <= j < i ==> mul_div_up_u64(
                    balances@[j] as nat,
                    amount_out as nat,
                    pool_token_supply as nat,
                ) == Some(amounts_in@[j]),
        decreases balances@.len() - i,
    {
        let v = balances[i].checked_mul_div_up(amount_out, pool_token_supply);
        match v {
            Some(x) => amounts_in.push(x),
            None => {
                assert(false);
            },
        }
        i = i + 1;
    }
    amounts_in
}

/// Amounts of each token paid out for burning `amount_in` pool tokens out of
/// a supply of `pool_token_supply`: `floor(b * amount_in / pool_token_supply)`
/// per token.
pub fn compute_proportional_amounts_out(balances: &Vec<u64>, pool_token_supply: u64, amount_in: u64) -> (r: Vec<u64>)
    requires
        forall|i: int|
            0 <= i < balances@.len() ==> mul_div_down_u64(
                balances@[i] as nat,
                amount_in as nat,
                pool_token_supply as nat,
            ) is Some,
    ensures
        r@.len() == balances@.len(),
        forall|i: int|
            0 <= i < r@.len() ==> mul_div_down_u64(
                balances@[i] as nat,
                amount_in as nat,
                pool_token_supply as nat,
            ) == Some(r@[i]),
{
    let mut amounts_out: Vec<u64> = Vec::new();
    let mut i: usize = 0;
    while i < balances.len()
        invariant
            i <= balances@.len(),
            amounts_out@.len() == i,
            forall|j: int|
                0 <= j < balances@.len() ==> mul_div_down_u64(
                    balances@[j] as nat,
                    amount_in as nat,
                    pool_token_supply as nat,
                ) is Some,
            forall|j: int|
                0 <= j < i ==> mul_div_down_u64(
                    balances@[j] as nat,
                    amount_in as nat,
                    pool_token_supply as nat,
                ) == Some(amounts_out@[j]),
        decreases balances@.len() - i,
    {
        let v = balances[i].checked_mul_div_down(amount_in, pool_token_supply);
        match v {
            Some(x) => amounts_out.push(x),
            None => {
                assert(false);
            },
        }
        i = i + 1;
    }
    amounts_out
}

} // verus!

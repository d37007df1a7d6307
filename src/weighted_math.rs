//! Weighted-product pool math: the invariant is the product of the balances
//! raised to their normalized weights.

use vstd::prelude::*;
use crate::base_pool_math::{minted_for_growth, ratio_with_fee};
use crate::fixed_math::{
    complement_spec, div_down_spec, div_up_spec, mul_down_spec, mul_up_spec, pow_down_spec,
    pow_up_spec, FixedComplement, FixedDiv, FixedMul, FixedPow, ONE,
};

verus! {

/// 5%
pub const MIN_WEIGHT: u64 = 50_000_000;

/// 95%
pub const MAX_WEIGHT: u64 = 950_000_000;

/// 0.01%
pub const MIN_SWAP_FEE: u64 = 100_000;

/// 2.5%
pub const MAX_SWAP_FEE: u64 = 25_000_000;

/// Largest balance for which the weighted math is meant to be used.
pub const MAX_SAFE_BALANCE: u64 = 4_000_000_000_000_000_000;

pub const MIN_TOKENS: usize = 2;

pub const MAX_TOKENS: usize = 4;

/// A swap may bring in at most this share of the balance in.
pub const MAX_IN_RATIO: u64 = 300_000_000;

/// A swap may take out at most this share of the balance out.
pub const MAX_OUT_RATIO: u64 = 300_000_000;

/// Non-proportional joins may grow the invariant at most by this ratio.
pub const MAX_INVARIANT_RATIO: u64 = 3_000_000_000;

/// Non-proportional exits may shrink the invariant at most to this ratio.
pub const MIN_INVARIANT_RATIO: u64 = 700_000_000;

/// Product of `bal[i]^w[i]` over the first `k` tokens, each power rounded
/// down and accumulated rounding down, starting from one.
pub open spec fn weighted_product(bal: Seq<u64>, w: Seq<u64>, k: nat) -> Option<u64>
    decreases k,
{
    if k == 0 {
        Some(ONE)
    } else {
        match weighted_product(bal, w, (k - 1) as nat) {
            None => None,
            Some(acc) => match pow_down_spec(bal[k - 1], w[k - 1]) {
                None => None,
                Some(p) => mul_down_spec(acc, p),
            },
        }
    }
}

pub open spec fn weighted_invariant_spec(bal: Seq<u64>, w: Seq<u64>) -> Option<u64> {
    match weighted_product(bal, w, bal.len()) {
        Some(v) => if v > 0 {
            Some(v)
        } else {
            None
        },
        None => None,
    }
}

proof fn lemma_weighted_product_none_stays(bal: Seq<u64>, w: Seq<u64>, k: nat, m: nat)
    requires
        k <= m,
        weighted_product(bal, w, k) is None,
    ensures
        weighted_product(bal, w, m) is None,
    decreases m - k,
{
    if k < m {
        lemma_weighted_product_none_stays(bal, w, k + 1, m);
    }
}

/// The invariant of a weighted pool; absent when it comes out zero or on
/// overflow.
pub fn calc_invariant(balances: &Vec<u64>, normalized_weights: &Vec<u64>) -> (r: Option<u64>)
    requires
        balances@.len() <= normalized_weights@.len(),
    ensures
        r == weighted_invariant_spec(balances@, normalized_weights@),
{
    let mut inv: u64 = ONE;
    let mut i: usize = 0;
    while i < balances.len()
        invariant
            i <= balances@.len(),
            balances@.len() <= normalized_weights@.len(),
            weighted_product(balances@, normalized_weights@, i as nat) == Some(inv),
        decreases balances@.len() - i,
    {
        let p = match balances[i].pow_down(normalized_weights[i]) {
            Some(v) => v,
            None => {
                proof {
                    lemma_weighted_product_none_stays(balances@, normalized_weights@, (i + 1) as nat, balances@.len());
                }
                return None;
            },
        };
        inv = match inv.mul_down(p) {
            Some(v) => v,
            None => {
                proof {
                    lemma_weighted_product_none_stays(balances@, normalized_weights@, (i + 1) as nat, balances@.len());
                }
                return None;
            },
        };
        i = i + 1;
    }
    if inv > 0 {
        Some(inv)
    } else {
        None
    }
}

/// `bo * (1 - (bi / (bi + ai))^(wi / wo))`: the base and the power round up,
/// the exponent and the product round down.
pub open spec fn weighted_out_given_in_spec(bi: u64, wi: u64, bo: u64, wo: u64, ai: u64) -> Option<u64> {
    match mul_down_spec(bi, MAX_IN_RATIO) {
        None => None,
        Some(cap) => if ai > cap || bi + ai > u64::MAX {
            None
        } else {
            match (div_up_spec(bi, (bi + ai) as u64), div_down_spec(wi, wo)) {
                (Some(base), Some(e)) => match pow_up_spec(base, e) {
                    Some(p) => mul_down_spec(bo, complement_spec(p)),
                    None => None,
                },
                _ => None,
            }
        },
    }
}

/// `bi * ((bo / (bo - ao))^(wo / wi) - 1)`, rounded up throughout.
pub open spec fn weighted_in_given_out_spec(bi: u64, wi: u64, bo: u64, wo: u64, ao: u64) -> Option<u64> {
    match mul_down_spec(bo, MAX_OUT_RATIO) {
        None => None,
        Some(cap) => if ao > cap || bo < ao {
            None
        } else {
            match (div_up_spec(bo, (bo - ao) as u64), div_up_spec(wo, wi)) {
                (Some(base), Some(e)) => match pow_up_spec(base, e) {
                    Some(p) => if p < ONE {
                        None
                    } else {
                        mul_up_spec(bi, (p - ONE) as u64)
                    },
                    None => None,
                },
                _ => None,
            }
        },
    }
}

/// Tokens out of a weighted pool for `amount_in` in; absent when
/// `amount_in` exceeds `MAX_IN_RATIO` of `balance_in`, or on overflow.
pub fn calc_out_given_in(
    balance_in: u64,
    weight_in: u64,
    balance_out: u64,
    weight_out: u64,
    amount_in: u64,
) -> (r: Option<u64>)
    ensures
        r == weighted_out_given_in_spec(balance_in, weight_in, balance_out, weight_out, amount_in),
{
    let cap = match balance_in.mul_down(MAX_IN_RATIO) {
        Some(v) => v,
        None => return None,
    };
    if amount_in > cap {
        return None;
    }
    let total = match balance_in.checked_add(amount_in) {
        Some(v) => v,
        None => return None,
    };
    let base = match balance_in.div_up(total) {
        Some(v) => v,
        None => return None,
    };
    let exponent = match weight_in.div_down(weight_out) {
        Some(v) => v,
        None => return None,
    };
    let power = match base.pow_up(exponent) {
        Some(v) => v,
        None => return None,
    };
    balance_out.mul_down(power.complement())
}

/// Tokens into a weighted pool for `amount_out` out; absent when
/// `amount_out` exceeds `MAX_OUT_RATIO` of `balance_out`, or on overflow.
pub fn calc_in_given_out(
    balance_in: u64,
    weight_in: u64,
    balance_out: u64,
    weight_out: u64,
    amount_out: u64,
) -> (r: Option<u64>)
    ensures
        r == weighted_in_given_out_spec(balance_in, weight_in, balance_out, weight_out, amount_out),
{
    let cap = match balance_out.mul_down(MAX_OUT_RATIO) {
        Some(v) => v,
        None => return None,
    };
    if amount_out > cap {
        return None;
    }
    let rest = match balance_out.checked_sub(amount_out) {
        Some(v) => v,
        None => return None,
    };
    let base = match balance_out.div_up(rest) {
        Some(v) => v,
        None => return None,
    };
    let exponent = match weight_out.div_up(weight_in) {
        Some(v) => v,
        None => return None,
    };
    let power = match base.pow_up(exponent) {
        Some(v) => v,
        None => return None,
    };
    match power.checked_sub(ONE) {
        Some(v) => balance_in.mul_up(v),
        None => None,
    }
}

/// The part of a single-token deposit `a` into balance `b` that counts after
/// the fee, which is charged on the amount above the proportional share.
pub open spec fn single_amount_without_fee(b: u64, w: u64, a: u64, fee: u64) -> Option<u64> {
    match ratio_with_fee(b, a) {
        None => None,
        Some(brwf) => match mul_down_spec(brwf, w) {
            None => None,
            Some(m) => if m + complement_spec(w) > u64::MAX {
                None
            } else {
                let irwf = (m + complement_spec(w)) as u64;
                if brwf > irwf {
                    let nt: Option<u64> = if irwf > ONE {
                        mul_down_spec(b, (irwf - ONE) as u64)
                    } else {
                        Some(0)
                    };
                    match nt {
                        None => None,
                        Some(nt) => if a < nt {
                            None
                        } else {
                            match mul_up_spec((a - nt) as u64, fee) {
                                None => None,
                                Some(f) => if a < f {
                                    None
                                } else {
                                    Some((a - f) as u64)
                                },
                            }
                        },
                    }
                } else {
                    Some(a)
                }
            },
        },
    }
}

pub open spec fn single_pool_token_out_spec(b: u64, w: u64, a: u64, supply: u64, fee: u64) -> Option<u64> {
    match single_amount_without_fee(b, w, a, fee) {
        None => None,
        Some(x) => if x == 0 {
            Some(0)
        } else {
            match ratio_with_fee(b, x) {
                None => None,
                Some(br) => match pow_down_spec(br, w) {
                    None => None,
                    Some(ir) => minted_for_growth(supply, ir),
                },
            }
        },
    }
}

/// Pool tokens minted for depositing `amount_in` of one token; rounds down.
pub fn calc_pool_token_out_given_exact_token_in(
    balance: u64,
    normalized_weight: u64,
    amount_in: u64,
    pool_token_supply: u64,
    swap_fee: u64,
) -> (r: Option<u64>)
    ensures
        r == single_pool_token_out_spec(balance, normalized_weight, amount_in, pool_token_supply, swap_fee),
{
    let grown = match balance.checked_add(amount_in) {
        Some(v) => v,
        None => return None,
    };
    let balance_ratio_with_fee = match grown.div_down(balance) {
        Some(v) => v,
        None => return None,
    };
    let m = match balance_ratio_with_fee.mul_down(normalized_weight) {
        Some(v) => v,
        None => return None,
    };
    let invariant_ratio_with_fees = match m.checked_add(normalized_weight.complement()) {
        Some(v) => v,
        None => return None,
    };
    let amount_in_without_fee = if balance_ratio_with_fee > invariant_ratio_with_fees {
        let non_taxable_amount = if invariant_ratio_with_fees > ONE {
            match balance.mul_down(invariant_ratio_with_fees - ONE) {
                Some(v) => v,
                None => return None,
            }
        } else {
            0
        };
        let taxable_amount = match amount_in.checked_sub(non_taxable_amount) {
            Some(v) => v,
            None => return None,
        };
        let swap_fee_amount = match taxable_amount.mul_up(swap_fee) {
            Some(v) => v,
            None => return None,
        };
        match (non_taxable_amount + taxable_amount).checked_sub(swap_fee_amount) {
            Some(v) => v,
            None => return None,
        }
    } else {
        amount_in
    };
    if amount_in_without_fee == 0 {
        return Some(0);
    }
    let grown = match balance.checked_add(amount_in_without_fee) {
        Some(v) => v,
        None => return None,
    };
    let balance_ratio = match grown.div_down(balance) {
        Some(v) => v,
        None => return None,
    };
    let invariant_ratio = match balance_ratio.pow_down(normalized_weight) {
        Some(v) => v,
        None => return None,
    };
    if invariant_ratio > ONE {
        pool_token_supply.mul_down(invariant_ratio - ONE)
    } else {
        Some(0)
    }
}

/// Sum over the first `k` tokens of each growth ratio times its weight,
/// rounded down.
pub open spec fn weighted_ratio_sum(bal: Seq<u64>, w: Seq<u64>, amts: Seq<u64>, k: nat) -> Option<u64>
    decreases k,
{
    if k == 0 {
        Some(0)
    } else {
        match weighted_ratio_sum(bal, w, amts, (k - 1) as nat) {
            None => None,
            Some(acc) => match ratio_with_fee(bal[k - 1], amts[k - 1]) {
                None => None,
                Some(r) => match mul_down_spec(r, w[k - 1]) {
                    None => None,
                    Some(m) => if m + acc > u64::MAX {
                        None
                    } else {
                        Some((m + acc) as u64)
                    },
                },
            },
        }
    }
}

/// The part of deposit `a` into balance `b` that counts after the fee, in a
/// multi-token deposit whose weighted growth is `irwf`.
pub open spec fn multi_amount_without_fee(b: u64, a: u64, ratio: u64, irwf: u64, fee: u64) -> Option<u64> {
    if ratio > irwf {
        let nt: Option<u64> = if irwf > ONE {
            mul_down_spec(b, (irwf - ONE) as u64)
        } else {
            Some(0)
        };
        match nt {
            None => None,
            Some(nt) => if a < nt {
                None
            } else {
                match mul_up_spec((a - nt) as u64, fee) {
                    None => None,
                    Some(f) => if a < f {
                        None
                    } else {
                        Some((a - f) as u64)
                    },
                }
            },
        }
    } else {
        Some(a)
    }
}

/// The growth of the invariant over the first `k` tokens of a multi-token
/// deposit, starting from one; a token whose deposit is zero and untaxed
/// leaves it unchanged.
pub open spec fn weighted_deposit_ratio(
    bal: Seq<u64>,
    w: Seq<u64>,
    amts: Seq<u64>,
    irwf: u64,
    fee: u64,
    k: nat,
) -> Option<u64>
    decreases k,
{
    if k == 0 {
        Some(ONE)
    } else {
        match weighted_deposit_ratio(bal, w, amts, irwf, fee, (k - 1) as nat) {
            None => None,
            Some(acc) => match ratio_with_fee(bal[k - 1], amts[k - 1]) {
                None => None,
                Some(r) => match multi_amount_without_fee(bal[k - 1], amts[k - 1], r, irwf, fee) {
                    None => None,
                    Some(x) => if r <= irwf && x == 0 {
                        Some(acc)
                    } else {
                        match ratio_with_fee(bal[k - 1], x) {
                            None => None,
                            Some(br) => match pow_down_spec(br, w[k - 1]) {
                                None => None,
                                Some(p) => mul_down_spec(acc, p),
                            },
                        }
                    },
                },
            },
        }
    }
}

pub open spec fn multi_pool_token_out_spec(
    bal: Seq<u64>,
    w: Seq<u64>,
    amts: Seq<u64>,
    supply: u64,
    fee: u64,
) -> Option<u64> {
    match weighted_ratio_sum(bal, w, amts, bal.len()) {
        None => None,
        Some(irwf) => match weighted_deposit_ratio(bal, w, amts, irwf, fee, bal.len()) {
            None => None,
            Some(ir) => minted_for_growth(supply, ir),
        },
    }
}

proof fn lemma_weighted_ratio_sum_none_stays(bal: Seq<u64>, w: Seq<u64>, amts: Seq<u64>, k: nat, m: nat)
    requires
        k <= m,
        weighted_ratio_sum(bal, w, amts, k) is None,
    ensures
        weighted_ratio_sum(bal, w, amts, m) is None,
    decreases m - k,
{
    if k < m {
        lemma_weighted_ratio_sum_none_stays(bal, w, amts, k + 1, m);
    }
}

proof fn lemma_weighted_deposit_none_stays(
    bal: Seq<u64>,
    w: Seq<u64>,
    amts: Seq<u64>,
    irwf: u64,
    fee: u64,
    k: nat,
    m: nat,
)
    requires
        k <= m,
        weighted_deposit_ratio(bal, w, amts, irwf, fee, k) is None,
    ensures
        weighted_deposit_ratio(bal, w, amts, irwf, fee, m) is None,
    decreases m - k,
{
    if k < m {
        lemma_weighted_deposit_none_stays(bal, w, amts, irwf, fee, k + 1, m);
    }
}

/// Pool tokens minted for depositing `amounts_in` (one per token); the fee
/// is charged only above each token's proportional share. Rounds down.
pub fn calc_pool_token_out_given_exact_tokens_in(
    balances: &Vec<u64>,
    normalized_weights: &Vec<u64>,
    amounts_in: &Vec<u64>,
    pool_token_supply: u64,
    swap_fee: u64,
) -> (r: Option<u64>)
    requires
        balances@.len() <= normalized_weights@.len(),
        balances@.len() <= amounts_in@.len(),
    ensures
        r == multi_pool_token_out_spec(
            balances@,
            normalized_weights@,
            amounts_in@,
            pool_token_supply,
            swap_fee,
        ),
{
    let ghost bal = balances@;
    let ghost w = normalized_weights@;
    let ghost amts = amounts_in@;
    let mut ratios: Vec<u64> = Vec::new();
    let mut irwf: u64 = 0;
    let mut i: usize = 0;
    while i < balances.len()
        invariant
            i <= bal.len(),
            bal == balances@,
            w == normalized_weights@,
            amts == amounts_in@,
            bal.len() <= w.len(),
            bal.len() <= amts.len(),
            ratios@.len() == i,
            forall|j: int| 0 <= j < i ==> ratio_with_fee(bal[j], amts[j]) == Some(ratios@[j]),
            weighted_ratio_sum(bal, w, amts, i as nat) == Some(irwf),
        decreases bal.len() - i,
    {
        let grown = match balances[i].checked_add(amounts_in[i]) {
            Some(v) => v,
            None => {
                proof {
                    lemma_weighted_ratio_sum_none_stays(bal, w, amts, (i + 1) as nat, bal.len());
                }
                return None;
            },
        };
        let ratio = match grown.div_down(balances[i]) {
            Some(v) => v,
            None => {
                proof {
                    lemma_weighted_ratio_sum_none_stays(bal, w, amts, (i + 1) as nat, bal.len());
                }
                return None;
            },
        };
        ratios.push(ratio);
        let m = match ratio.mul_down(normalized_weights[i]) {
            Some(v) => v,
            None => {
                proof {
                    lemma_weighted_ratio_sum_none_stays(bal, w, amts, (i + 1) as nat, bal.len());
                }
                return None;
            },
        };
        irwf = match m.checked_add(irwf) {
            Some(v) => v,
            None => {
                proof {
                    lemma_weighted_ratio_sum_none_stays(bal, w, amts, (i + 1) as nat, bal.len());
                }
                return None;
            },
        };
        i = i + 1;
    }
    let mut invariant_ratio: u64 = ONE;
    let mut i: usize = 0;
    while i < balances.len()
        invariant
            i <= bal.len(),
            bal == balances@,
            w == normalized_weights@,
            amts == amounts_in@,
            bal.len() <= w.len(),
            bal.len() <= amts.len(),
            ratios@.len() == bal.len(),
            forall|j: int| 0 <= j < bal.len() ==> ratio_with_fee(bal[j], amts[j]) == Some(ratios@[j]),
            weighted_ratio_sum(bal, w, amts, bal.len()) == Some(irwf),
            weighted_deposit_ratio(bal, w, amts, irwf, swap_fee, i as nat) == Some(invariant_ratio),
        decreases bal.len() - i,
    {
        assert(ratio_with_fee(bal[i as int], amts[i as int]) == Some(ratios@[i as int]));
        let amount_in_without_fee = if ratios[i] > irwf {
            let non_taxable_amount = if irwf > ONE {
                match balances[i].mul_down(irwf - ONE) {
                    Some(v) => v,
                    None => {
                        proof {
                            lemma_weighted_deposit_none_stays(bal, w, amts, irwf, swap_fee, (i + 1) as nat, bal.len());
                        }
                        return None;
                    },
                }
            } else {
                0
            };
            let taxable = match amounts_in[i].checked_sub(non_taxable_amount) {
                Some(v) => v,
                None => {
                    proof {
                        lemma_weighted_deposit_none_stays(bal, w, amts, irwf, swap_fee, (i + 1) as nat, bal.len());
                    }
                    return None;
                },
            };
            let swap_fee_amount = match taxable.mul_up(swap_fee) {
                Some(v) => v,
                None => {
                    proof {
                        lemma_weighted_deposit_none_stays(bal, w, amts, irwf, swap_fee, (i + 1) as nat, bal.len());
                    }
                    return None;
                },
            };
            match amounts_in[i].checked_sub(swap_fee_amount) {
                Some(v) => v,
                None => {
                    proof {
                        lemma_weighted_deposit_none_stays(bal, w, amts, irwf, swap_fee, (i + 1) as nat, bal.len());
                    }
                    return None;
                },
            }
        } else {
            if amounts_in[i] == 0 {
                i = i + 1;
                continue;
            }
            amounts_in[i]
        };
        let grown = match balances[i].checked_add(amount_in_without_fee) {
            Some(v) => v,
            None => {
                proof {
                    lemma_weighted_deposit_none_stays(bal, w, amts, irwf, swap_fee, (i + 1) as nat, bal.len());
                }
                return None;
            },
        };
        let balance_ratio = match grown.div_down(balances[i]) {
            Some(v) => v,
            None => {
                proof {
                    lemma_weighted_deposit_none_stays(bal, w, amts, irwf, swap_fee, (i + 1) as nat, bal.len());
                }
                return None;
            },
        };
        let p = match balance_ratio.pow_down(normalized_weights[i]) {
            Some(v) => v,
            None => {
                proof {
                    lemma_weighted_deposit_none_stays(bal, w, amts, irwf, swap_fee, (i + 1) as nat, bal.len());
                }
                return None;
            },
        };
        invariant_ratio = match invariant_ratio.mul_down(p) {
            Some(v) => v,
            None => {
                proof {
                    lemma_weighted_deposit_none_stays(bal, w, amts, irwf, swap_fee, (i + 1) as nat, bal.len());
                }
                return None;
            },
        };
        i = i + 1;
    }
    if invariant_ratio > ONE {
        pool_token_supply.mul_down(invariant_ratio - ONE)
    } else {
        Some(0)
    }
}

pub open spec fn single_token_out_spec(b: u64, w: u64, a: u64, supply: u64, fee: u64) -> Option<u64> {
    if supply < a {
        None
    } else {
        match div_up_spec((supply - a) as u64, supply) {
            None => None,
            Some(ir) => if ir < MIN_INVARIANT_RATIO {
                None
            } else {
                match div_down_spec(ONE, w) {
                    None => None,
                    Some(e) => match pow_up_spec(ir, e) {
                        None => None,
                        Some(br) => match mul_down_spec(b, complement_spec(br)) {
                            None => None,
                            Some(without_fee) => match mul_up_spec(without_fee, complement_spec(w)) {
                                None => None,
                                Some(taxable) => if without_fee < taxable {
                                    None
                                } else {
                                    match mul_down_spec(taxable, complement_spec(fee)) {
                                        None => None,
                                        Some(t) => if (without_fee - taxable) + t > u64::MAX {
                                            None
                                        } else {
                                            Some(((without_fee - taxable) + t) as u64)
                                        },
                                    }
                                },
                            },
                        },
                    },
                }
            },
        }
    }
}

/// Tokens paid out for burning `amount_in` pool tokens into one token;
/// absent when the invariant would fall below `MIN_INVARIANT_RATIO` of its
/// value, or on overflow. Rounds down.
pub fn calc_token_out_given_exact_pool_token_in(
    balance: u64,
    normalized_weight: u64,
    amount_in: u64,
    pool_token_supply: u64,
    swap_fee: u64,
) -> (r: Option<u64>)
    ensures
        r == single_token_out_spec(balance, normalized_weight, amount_in, pool_token_supply, swap_fee),
{
    let remaining = match pool_token_supply.checked_sub(amount_in) {
        Some(v) => v,
        None => return None,
    };
    let invariant_ratio = match remaining.div_up(pool_token_supply) {
        Some(v) => v,
        None => return None,
    };
    if invariant_ratio < MIN_INVARIANT_RATIO {
        return None;
    }
    let exponent = match ONE.div_down(normalized_weight) {
        Some(v) => v,
        None => return None,
    };
    let balance_ratio = match invariant_ratio.pow_up(exponent) {
        Some(v) => v,
        None => return None,
    };
    let amount_out_without_fee = match balance.mul_down(balance_ratio.complement()) {
        Some(v) => v,
        None => return None,
    };
    let taxable_amount = match amount_out_without_fee.mul_up(normalized_weight.complement()) {
        Some(v) => v,
        None => return None,
    };
    let non_taxable_amount = match amount_out_without_fee.checked_sub(taxable_amount) {
        Some(v) => v,
        None => return None,
    };
    let taxable_amount_minus_fees = match taxable_amount.mul_down(swap_fee.complement()) {
        Some(v) => v,
        None => return None,
    };
    non_taxable_amount.checked_add(taxable_amount_minus_fees)
}

/// A swap never pays out more than the balance of the token out: the amount
/// out is that balance times a fraction of at most one, rounded down.
pub proof fn lemma_amount_out_within_balance(bi: u64, wi: u64, bo: u64, wo: u64, ai: u64)
    ensures
        weighted_out_given_in_spec(bi, wi, bo, wo, ai) matches Some(o) ==> o <= bo,
{
    if let Some(o) = weighted_out_given_in_spec(bi, wi, bo, wo, ai) {
        let base = div_up_spec(bi, (bi + ai) as u64)->0;
        let e = div_down_spec(wi, wo)->0;
        let c = complement_spec(pow_up_spec(base, e)->0);
        assert(c <= ONE);
        assert(bo as nat * c as nat <= bo as nat * ONE as nat) by (nonlinear_arith)
            requires
                c <= ONE,
        ;
        vstd::arithmetic::div_mod::lemma_div_is_ordered(
            (bo as nat * c as nat) as int,
            (bo as nat * ONE as nat) as int,
            ONE as int,
        );
        vstd::arithmetic::div_mod::lemma_div_multiples_vanish(bo as int, ONE as int);
        assert(ONE as nat * bo as nat == bo as nat * ONE as nat) by (nonlinear_arith);
    }
}

} // verus!

//! StableSwap invariant math: the invariant and the balance of one token are
//! found by Newton-Raphson iteration in 192-bit arithmetic, with a fixed
//! budget of steps.

use vstd::prelude::*;
use crate::base_pool_math::{minted_for_growth, ratio_with_fee};
use crate::fixed_math::{
    complement_spec, div_down_spec, mul_down_spec, mul_up_spec, FixedComplement, FixedDiv,
    FixedMul, ONE,
};
use crate::safe_math::{
    mul_div_up_u64, wide_div_up, wide_mul_div_down, wide_mul_div_up, CheckedDivCeil,
    CheckedMulDiv, Downcast,
};
use crate::u192::{wide_add, wide_mul, wide_sub, U192};

verus! {

/// Scale of the amplification factor.
pub const AMP_PRECISION: u64 = 1_000;

pub const MIN_AMP: u16 = 1;

pub const MAX_AMP: u16 = 8000;

/// 0.0001%
pub const MIN_SWAP_FEE: u64 = 1_000;

/// 1%
pub const MAX_SWAP_FEE: u64 = 10_000_000;

/// Largest balance for which the stable math is meant to be used.
pub const MAX_SAFE_BALANCE: u64 = 3_000_000_000_000_000_000;

/// The invariant iteration stops once two iterates differ by at most this.
pub const INV_THRESHOLD: u64 = 100;

/// The balance iteration stops once two iterates differ by at most this.
pub const BALANCE_THRESHOLD: u64 = 1;

/// Number of Newton-Raphson steps before giving up.
pub const MAX_ITERATIONS: u64 = 255;

pub const MIN_TOKENS: usize = 2;

pub const MAX_TOKENS: usize = 5;

/// `|a - b|`.
pub open spec fn abs_diff(a: nat, b: nat) -> nat {
    if a >= b {
        (a - b) as nat
    } else {
        (b - a) as nat
    }
}

/// Sum of the first `k` entries of `s`, absent once a partial sum exceeds
/// `u64::MAX`.
pub open spec fn checked_sum(s: Seq<u64>, k: nat) -> Option<u64>
    decreases k,
{
    if k == 0 {
        Some(0)
    } else {
        match checked_sum(s, (k - 1) as nat) {
            None => None,
            Some(t) => if t + s[k - 1] > u64::MAX {
                None
            } else {
                Some((t + s[k - 1]) as u64)
            },
        }
    }
}

/// `b * n` when it fits in a `u64`.
pub open spec fn scaled(b: u64, n: u64) -> Option<nat> {
    if b as nat * n as nat > u64::MAX {
        None
    } else {
        Some(b as nat * n as nat)
    }
}

/// The product term of the invariant after `k` balances:
/// `p_0 = d`, `p_{k+1} = floor(p_k * d / (b_k * n))`.
pub open spec fn inv_product(bal: Seq<u64>, n: u64, d: nat, k: nat) -> Option<nat>
    decreases k,
{
    if k == 0 {
        Some(d)
    } else {
        match (inv_product(bal, n, d, (k - 1) as nat), scaled(bal[k - 1], n)) {
            (Some(p), Some(bn)) => wide_mul_div_down(p, d, bn),
            _ => None,
        }
    }
}

/// One Newton-Raphson step for the invariant:
/// `(amp_total * sum / AMP + p * n) * d / ((amp_total - AMP) * d / AMP + (n + 1) * p)`.
pub open spec fn inv_next(amp_total: u64, sum: nat, n: u64, d: nat, p: nat) -> Option<nat> {
    let num = match (wide_mul_div_down(amp_total as nat, sum, AMP_PRECISION as nat), wide_mul(p, n as nat)) {
        (Some(a), Some(b)) => wide_add(a, b),
        _ => None,
    };
    let den = if amp_total < AMP_PRECISION {
        None
    } else {
        match (
            wide_mul_div_down((amp_total - AMP_PRECISION) as nat, d, AMP_PRECISION as nat),
            wide_mul(n as nat + 1, p),
        ) {
            (Some(c), Some(e)) => wide_add(c, e),
            _ => None,
        }
    };
    match (num, den) {
        (Some(x), Some(y)) => wide_mul_div_down(x, d, y),
        _ => None,
    }
}

/// Runs at most `k` invariant steps from `d`; the first iterate within
/// `INV_THRESHOLD` of the one before it is the result. Absent when the steps
/// run out, or on overflow.
pub open spec fn inv_iter(amp_total: u64, sum: nat, bal: Seq<u64>, n: u64, d: nat, k: nat) -> Option<u64>
    decreases k,
{
    if k == 0 {
        None
    } else {
        match inv_product(bal, n, d, bal.len()) {
            None => None,
            Some(p) => match inv_next(amp_total, sum, n, d, p) {
                None => None,
                Some(d2) => if d2 > u64::MAX || d > u64::MAX {
                    None
                } else if abs_diff(d2, d) <= INV_THRESHOLD {
                    Some(d2 as u64)
                } else {
                    inv_iter(amp_total, sum, bal, n, d2, (k - 1) as nat)
                },
            },
        }
    }
}

/// The stable invariant of `bal` under amplification `amp`.
pub open spec fn invariant_spec(amp: u64, bal: Seq<u64>) -> Option<u64> {
    match checked_sum(bal, bal.len()) {
        None => None,
        Some(s) => if s == 0 {
            Some(0)
        } else if amp as nat * bal.len() > u64::MAX {
            None
        } else {
            inv_iter(
                (amp as nat * bal.len()) as u64,
                s as nat,
                bal,
                bal.len() as u64,
                s as nat,
                MAX_ITERATIONS as nat,
            )
        },
    }
}

/// The product term of the balance equation after `k >= 1` balances:
/// `p_1 = b_0 * n`, `p_{k+1} = floor(p_k * (b_k * n) / d)`.
pub open spec fn bal_product(bal: Seq<u64>, n: u64, d: nat, k: nat) -> Option<nat>
    decreases k,
{
    if k <= 1 {
        scaled(bal[0], n)
    } else {
        match (bal_product(bal, n, d, (k - 1) as nat), scaled(bal[k - 1], n)) {
            (Some(p), Some(bn)) => wide_mul_div_down(p, bn, d),
            _ => None,
        }
    }
}

/// The constants `(c, b)` of the balance equation and the first iterate.
pub open spec fn bal_setup(amp_total: nat, d: nat, p: nat, rest: nat, balance: u64) -> Option<
    (nat, nat, nat),
> {
    match wide_mul(d, d) {
        None => None,
        Some(d2) => {
            let c = match wide_mul(amp_total, p) {
                Some(ap) => match wide_mul_div_up(d2, AMP_PRECISION as nat, ap) {
                    Some(c0) => wide_mul(c0, balance as nat),
                    None => None,
                },
                None => None,
            };
            let b = match wide_mul_div_down(d, AMP_PRECISION as nat, amp_total) {
                Some(b0) => wide_add(b0, rest),
                None => None,
            };
            match (c, b) {
                (Some(c), Some(b)) => match (wide_add(d2, c), wide_add(d, b)) {
                    (Some(x), Some(y)) => match wide_div_up(x, y) {
                        Some(t) => Some((c, b, t)),
                        None => None,
                    },
                    _ => None,
                },
                _ => None,
            }
        },
    }
}

/// One Newton-Raphson step for the balance: `ceil((t^2 + c) / (2t + b - d))`.
pub open spec fn bal_next(c: nat, b: nat, d: nat, t: nat) -> Option<nat> {
    let num = match wide_mul(t, t) {
        Some(tt) => wide_add(tt, c),
        None => None,
    };
    let den = match wide_add(t, t) {
        Some(tt) => match wide_add(tt, b) {
            Some(x) => wide_sub(x, d),
            None => None,
        },
        None => None,
    };
    match (num, den) {
        (Some(x), Some(y)) => wide_div_up(x, y),
        _ => None,
    }
}

/// Runs at most `k` balance steps from `t`; the first iterate within
/// `BALANCE_THRESHOLD` of the one before it is the result.
pub open spec fn bal_iter(c: nat, b: nat, d: nat, t: nat, k: nat) -> Option<u64>
    decreases k,
{
    if k == 0 {
        None
    } else {
        match bal_next(c, b, d, t) {
            None => None,
            Some(t2) => if t2 > u64::MAX || t > u64::MAX {
                None
            } else if abs_diff(t2, t) <= BALANCE_THRESHOLD {
                Some(t2 as u64)
            } else {
                bal_iter(c, b, d, t2, (k - 1) as nat)
            },
        }
    }
}

/// The balance of one token, whose current balance is `balance`, that keeps
/// the invariant at `d` given the other entries of `bal`.
pub open spec fn balance_spec(amp: u64, bal: Seq<u64>, d: u64, balance: u64) -> Option<u64> {
    let n = bal.len() as u64;
    if amp as nat * n as nat > u64::MAX {
        None
    } else {
        match (bal_product(bal, n, d as nat, bal.len()), checked_sum(bal, bal.len())) {
            (Some(p), Some(s)) => {
                let rest: nat = if s >= balance {
                    (s - balance) as nat
                } else {
                    0
                };
                match bal_setup(amp as nat * n as nat, d as nat, p, rest, balance) {
                    None => None,
                    Some(cbt) => bal_iter(cbt.0, cbt.1, d as nat, cbt.2, MAX_ITERATIONS as nat),
                }
            },
            _ => None,
        }
    }
}

pub fn amp_precision_u192() -> (r: U192)
    ensures
        r@ == AMP_PRECISION,
{
    U192::from_u64(AMP_PRECISION)
}

fn sum_of(v: &Vec<u64>) -> (r: Option<u64>)
    ensures
        r == checked_sum(v@, v@.len()),
{
    let mut total: u64 = 0;
    let mut i: usize = 0;
    while i < v.len()
        invariant
            i <= v@.len(),
            checked_sum(v@, i as nat) == Some(total),
        decreases v@.len() - i,
    {
        total = match total.checked_add(v[i]) {
            Some(t) => t,
            None => {
                proof {
                    lemma_checked_sum_none_stays(v@, (i + 1) as nat, v@.len());
                }
                return None;
            },
        };
        i = i + 1;
    }
    Some(total)
}

proof fn lemma_checked_sum_none_stays(s: Seq<u64>, k: nat, m: nat)
    requires
        k <= m,
        checked_sum(s, k) is None,
    ensures
        checked_sum(s, m) is None,
    decreases m - k,
{
    if k < m {
        lemma_checked_sum_none_stays(s, k + 1, m);
    }
}

/// Computes the invariant of a stable pool by Newton-Raphson iteration.
/// The amplification is `A * n^(n-1)` scaled by `AMP_PRECISION`. The result is
/// absent on overflow and when no two iterates come within `INV_THRESHOLD`
/// of each other in `MAX_ITERATIONS` steps.
pub fn calc_invariant(amplification: u64, balances: &Vec<u64>) -> (r: Option<u64>)
    ensures
        r == invariant_spec(amplification, balances@),
{
    let sum = match sum_of(balances) {
        Some(s) => s,
        None => return None,
    };
    if sum == 0 {
        return Some(0);
    }
    let num_tokens = balances.len() as u64;
    let amp_times_total = match amplification.checked_mul(num_tokens) {
        Some(v) => v,
        None => return None,
    };
    let sum_w = U192::from_u64(sum);
    let mut inv = sum_w;
    let mut iter: u64 = 0;
    while iter < MAX_ITERATIONS
        invariant
            iter <= MAX_ITERATIONS,
            num_tokens == balances@.len() as u64,
            amp_times_total as nat == amplification as nat * balances@.len(),
            sum_w@ == sum as nat,
            inv_iter(
                amp_times_total,
                sum as nat,
                balances@,
                num_tokens,
                inv@,
                (MAX_ITERATIONS - iter) as nat,
            ) == invariant_spec(amplification, balances@),
        decreases MAX_ITERATIONS - iter,
    {
        let mut p = inv;
        let mut i: usize = 0;
        while i < balances.len()
            invariant
                i <= balances@.len(),
                iter < MAX_ITERATIONS,
                inv_product(balances@, num_tokens, inv@, i as nat) == Some(p@),
                inv_iter(
                    amp_times_total,
                    sum as nat,
                    balances@,
                    num_tokens,
                    inv@,
                    (MAX_ITERATIONS - iter) as nat,
                ) == invariant_spec(amplification, balances@),
            decreases balances@.len() - i,
        {
            let bn = match balances[i].checked_mul(num_tokens) {
                Some(v) => U192::from_u64(v),
                None => {
                    proof {
                        lemma_inv_product_none_stays(balances@, num_tokens, inv@, (i + 1) as nat, balances@.len());
                    }
                    return None;
                },
            };
            p = match p.checked_mul_div_down(inv, bn) {
                Some(v) => v,
                None => {
                    proof {
                        lemma_inv_product_none_stays(balances@, num_tokens, inv@, (i + 1) as nat, balances@.len());
                    }
                    return None;
                },
            };
            i = i + 1;
        }
        let prev_inv = inv;
        let amp_w = U192::from_u64(amp_times_total);
        let a = match amp_w.checked_mul_div_down(sum_w, amp_precision_u192()) {
            Some(v) => v,
            None => return None,
        };
        let b = match p.checked_mul(U192::from_u64(num_tokens)) {
            Some(v) => v,
            None => return None,
        };
        let num = match a.checked_add(b) {
            Some(v) => v,
            None => return None,
        };
        let amp_less = match amp_times_total.checked_sub(AMP_PRECISION) {
            Some(v) => U192::from_u64(v),
            None => return None,
        };
        let c = match amp_less.checked_mul_div_down(inv, amp_precision_u192()) {
            Some(v) => v,
            None => return None,
        };
        let e = match U192::from_u64(num_tokens).plus(U192::one()).checked_mul(p) {
            Some(v) => v,
            None => return None,
        };
        let den = match c.checked_add(e) {
            Some(v) => v,
            None => return None,
        };
        inv = match num.checked_mul_div_down(inv, den) {
            Some(v) => v,
            None => return None,
        };
        let cur = match inv.as_u64() {
            Some(v) => v,
            None => return None,
        };
        let prev = match prev_inv.as_u64() {
            Some(v) => v,
            None => return None,
        };
        if cur > prev {
            if cur - prev <= INV_THRESHOLD {
                return Some(cur);
            }
        } else if prev - cur <= INV_THRESHOLD {
            return Some(cur);
        }
        iter = iter + 1;
    }
    None
}

proof fn lemma_inv_product_none_stays(bal: Seq<u64>, n: u64, d: nat, k: nat, m: nat)
    requires
        k <= m,
        inv_product(bal, n, d, k) is None,
    ensures
        inv_product(bal, n, d, m) is None,
    decreases m - k,
{
    if k < m {
        lemma_inv_product_none_stays(bal, n, d, k + 1, m);
    }
}


proof fn lemma_bal_product_none_stays(bal: Seq<u64>, n: u64, d: nat, k: nat, m: nat)
    requires
        1 <= k <= m,
        bal_product(bal, n, d, k) is None,
    ensures
        bal_product(bal, n, d, m) is None,
    decreases m - k,
{
    if k < m {
        lemma_bal_product_none_stays(bal, n, d, k + 1, m);
    }
}

/// Solves for the balance of one token, whose current balance is `balance`,
/// given the invariant and the other balances, by Newton-Raphson iteration
/// from a closed-form first approximation. The result rounds up; it is absent
/// on overflow and when no two iterates come within `BALANCE_THRESHOLD` of
/// each other in `MAX_ITERATIONS` steps.
pub fn get_token_balance_given_invariant_n_all_other_balances(
    amplification: u64,
    balances: &Vec<u64>,
    inv: u64,
    balance: u64,
) -> (r: Option<u64>)
    requires
        balances@.len() >= 1,
    ensures
        r == balance_spec(amplification, balances@, inv, balance),
{
    let num_tokens = balances.len() as u64;
    let amp_times_total = match amplification.checked_mul(num_tokens) {
        Some(v) => U192::from_u64(v),
        None => return None,
    };
    let d = U192::from_u64(inv);
    let ghost bal = balances@;
    let mut sum = balances[0];
    let mut p = match balances[0].checked_mul(num_tokens) {
        Some(v) => U192::from_u64(v),
        None => {
            proof {
                lemma_bal_product_none_stays(bal, num_tokens, d@, 1, bal.len());
            }
            return None;
        },
    };
    assert(checked_sum(bal, 1) == Some(sum)) by {
        assert(checked_sum(bal, 0) == Some(0u64));
    }
    let mut i: usize = 1;
    while i < balances.len()
        invariant
            1 <= i <= bal.len(),
            bal == balances@,
            num_tokens == bal.len() as u64,
            amp_times_total@ == amplification as nat * num_tokens as nat,
            d@ == inv as nat,
            bal_product(bal, num_tokens, d@, i as nat) == Some(p@),
            checked_sum(bal, i as nat) == Some(sum),
        decreases bal.len() - i,
    {
        let p_i = match balances[i].checked_mul(num_tokens) {
            Some(v) => U192::from_u64(v),
            None => {
                proof {
                    lemma_bal_product_none_stays(bal, num_tokens, d@, (i + 1) as nat, bal.len());
                }
                return None;
            },
        };
        p = match p.checked_mul_div_down(p_i, d) {
            Some(v) => v,
            None => {
                proof {
                    lemma_bal_product_none_stays(bal, num_tokens, d@, (i + 1) as nat, bal.len());
                }
                return None;
            },
        };
        sum = match sum.checked_add(balances[i]) {
            Some(v) => v,
            None => {
                proof {
                    lemma_checked_sum_none_stays(bal, (i + 1) as nat, bal.len());
                }
                return None;
            },
        };
        i = i + 1;
    }
    let rest = U192::from_u64(sum.saturating_sub(balance));
    let d2 = match d.checked_mul(d) {
        Some(v) => v,
        None => return None,
    };
    let ap = match amp_times_total.checked_mul(p) {
        Some(v) => v,
        None => return None,
    };
    let c0 = match d2.checked_mul_div_up(amp_precision_u192(), ap) {
        Some(v) => v,
        None => return None,
    };
    let c = match c0.checked_mul(U192::from_u64(balance)) {
        Some(v) => v,
        None => return None,
    };
    let b0 = match d.checked_mul_div_down(amp_precision_u192(), amp_times_total) {
        Some(v) => v,
        None => return None,
    };
    let b = match b0.checked_add(rest) {
        Some(v) => v,
        None => return None,
    };
    let x = match d2.checked_add(c) {
        Some(v) => v,
        None => return None,
    };
    let y = match d.checked_add(b) {
        Some(v) => v,
        None => return None,
    };
    let mut token_balance = match x.checked_div_up(y) {
        Some(v) => v,
        None => return None,
    };
    assert(bal_setup(amp_times_total@, d@, p@, rest@, balance) == Some((c@, b@, token_balance@)));
    let mut iter: u64 = 0;
    while iter < MAX_ITERATIONS
        invariant
            iter <= MAX_ITERATIONS,
            d@ == inv as nat,
            bal_iter(c@, b@, d@, token_balance@, (MAX_ITERATIONS - iter) as nat) == balance_spec(
                amplification,
                balances@,
                inv,
                balance,
            ),
        decreases MAX_ITERATIONS - iter,
    {
        let prev = token_balance;
        let sq = match token_balance.checked_mul(token_balance) {
            Some(v) => v,
            None => return None,
        };
        let num = match sq.checked_add(c) {
            Some(v) => v,
            None => return None,
        };
        let twice = match token_balance.checked_add(token_balance) {
            Some(v) => v,
            None => return None,
        };
        let twice_b = match twice.checked_add(b) {
            Some(v) => v,
            None => return None,
        };
        let den = match twice_b.checked_sub(d) {
            Some(v) => v,
            None => return None,
        };
        token_balance = match num.checked_div_up(den) {
            Some(v) => v,
            None => return None,
        };
        let cur = match token_balance.as_u64() {
            Some(v) => v,
            None => return None,
        };
        let before = match prev.as_u64() {
            Some(v) => v,
            None => return None,
        };
        if cur > before {
            if cur - before <= BALANCE_THRESHOLD {
                return Some(cur);
            }
        } else if before - cur <= BALANCE_THRESHOLD {
            return Some(cur);
        }
        iter = iter + 1;
    }
    None
}


/// `bal` with `amt` added to entry `i`; unchanged when `i` is out of range,
/// absent when the entry would overflow.
pub open spec fn with_added(bal: Seq<u64>, i: int, amt: u64) -> Option<Seq<u64>> {
    if 0 <= i < bal.len() {
        if bal[i] + amt > u64::MAX {
            None
        } else {
            Some(bal.update(i, (bal[i] + amt) as u64))
        }
    } else {
        Some(bal)
    }
}

/// `bal` with `amt` taken from entry `i`; unchanged when `i` is out of range,
/// absent when the entry would go below zero.
pub open spec fn with_removed(bal: Seq<u64>, i: int, amt: u64) -> Option<Seq<u64>> {
    if 0 <= i < bal.len() {
        if bal[i] < amt {
            None
        } else {
            Some(bal.update(i, (bal[i] - amt) as u64))
        }
    } else {
        Some(bal)
    }
}

/// Amount out of a swap: the old balance of the token out, less its solved
/// new balance, less one unit so that rounding favours the pool.
pub open spec fn out_given_in_spec(
    amp: u64,
    bal: Seq<u64>,
    i_in: int,
    i_out: int,
    amount_in: u64,
    d: u64,
) -> Option<u64> {
    match with_added(bal, i_in, amount_in) {
        None => None,
        Some(nb) => if 0 <= i_out < bal.len() {
            match balance_spec(amp, nb, d, bal[i_out]) {
                None => None,
                Some(f) => if f + 1 <= bal[i_out] {
                    Some((bal[i_out] - f - 1) as u64)
                } else {
                    None
                },
            }
        } else {
            None
        },
    }
}

/// Amount in of a swap: the solved new balance of the token in, less its old
/// balance, plus one unit so that rounding favours the pool.
pub open spec fn in_given_out_spec(
    amp: u64,
    bal: Seq<u64>,
    i_in: int,
    i_out: int,
    amount_out: u64,
    d: u64,
) -> Option<u64> {
    match with_removed(bal, i_out, amount_out) {
        None => None,
        Some(nb) => if 0 <= i_in < bal.len() {
            match balance_spec(amp, nb, d, bal[i_in]) {
                None => None,
                Some(f) => if bal[i_in] <= f && f - bal[i_in] + 1 <= u64::MAX {
                    Some((f - bal[i_in] + 1) as u64)
                } else {
                    None
                },
            }
        } else {
            None
        },
    }
}

fn adjusted_balances(balances: &Vec<u64>, index: usize, amount: u64, add: bool) -> (r: Option<
    Vec<u64>,
>)
    ensures
        add ==> vec_opt(r) == with_added(balances@, index as int, amount),
        !add ==> vec_opt(r) == with_removed(balances@, index as int, amount),
{
    let mut out: Vec<u64> = Vec::with_capacity(balances.len());
    let mut i: usize = 0;
    while i < balances.len()
        invariant
            i <= balances@.len(),
            out@.len() == i,
            forall|j: int|
                0 <= j < i ==> out@[j] == if j == index as int {
                    if add {
                        (balances@[j] + amount) as u64
                    } else {
                        (balances@[j] - amount) as u64
                    }
                } else {
                    balances@[j]
                },
            index < i ==> (add ==> balances@[index as int] + amount <= u64::MAX),
            index < i ==> (!add ==> balances@[index as int] >= amount),
        decreases balances@.len() - i,
    {
        if i == index {
            let v = if add {
                match balances[i].checked_add(amount) {
                    Some(v) => v,
                    None => return None,
                }
            } else {
                match balances[i].checked_sub(amount) {
                    Some(v) => v,
                    None => return None,
                }
            };
            out.push(v);
        } else {
            out.push(balances[i]);
        }
        i = i + 1;
    }
    proof {
        if index < balances@.len() {
            if add {
                assert(out@ =~= balances@.update(index as int, (balances@[index as int] + amount) as u64));
            } else {
                assert(out@ =~= balances@.update(index as int, (balances@[index as int] - amount) as u64));
            }
        } else {
            assert(out@ =~= balances@);
        }
    }
    Some(out)
}

/// The contents of an optional vector.
pub open spec fn vec_opt(r: Option<Vec<u64>>) -> Option<Seq<u64>> {
    match r {
        Some(v) => Some(v@),
        None => None,
    }
}

/// Computes how many tokens leave the pool when `token_amount_in` of token
/// `token_index_in` are sent in, keeping the invariant; rounds down.
pub fn calc_out_given_in(
    amplification: u64,
    balances: &Vec<u64>,
    token_index_in: usize,
    token_index_out: usize,
    token_amount_in: u64,
    inv: u64,
) -> (r: Option<u64>)
    ensures
        r == out_given_in_spec(
            amplification,
            balances@,
            token_index_in as int,
            token_index_out as int,
            token_amount_in,
            inv,
        ),
{
    let new_balances = match adjusted_balances(balances, token_index_in, token_amount_in, true) {
        Some(v) => v,
        None => return None,
    };
    if token_index_out >= balances.len() {
        return None;
    }
    let balance_out = balances[token_index_out];
    let final_balance_out = match get_token_balance_given_invariant_n_all_other_balances(
        amplification,
        &new_balances,
        inv,
        balance_out,
    ) {
        Some(v) => v,
        None => return None,
    };
    match balance_out.checked_sub(final_balance_out) {
        Some(v) => v.checked_sub(1),
        None => None,
    }
}

/// Computes how many tokens of `token_index_in` must be sent in for
/// `token_amount_out` of `token_index_out` to leave the pool, keeping the
/// invariant; rounds up.
pub fn calc_in_given_out(
    amplification: u64,
    balances: &Vec<u64>,
    token_index_in: usize,
    token_index_out: usize,
    token_amount_out: u64,
    inv: u64,
) -> (r: Option<u64>)
    ensures
        r == in_given_out_spec(
            amplification,
            balances@,
            token_index_in as int,
            token_index_out as int,
            token_amount_out,
            inv,
        ),
{
    let new_balances = match adjusted_balances(balances, token_index_out, token_amount_out, false) {
        Some(v) => v,
        None => return None,
    };
    if token_index_in >= balances.len() {
        return None;
    }
    let balance_in = balances[token_index_in];
    let final_balance_in = match get_token_balance_given_invariant_n_all_other_balances(
        amplification,
        &new_balances,
        inv,
        balance_in,
    ) {
        Some(v) => v,
        None => return None,
    };
    match final_balance_in.checked_sub(balance_in) {
        Some(v) => v.checked_add(1),
        None => None,
    }
}


/// Sum over the first `k` tokens of each growth ratio times the token's share
/// `b_i / sum` of the pool, all rounded down.
pub open spec fn ratio_sum(bal: Seq<u64>, amts: Seq<u64>, sum: u64, k: nat) -> Option<u64>
    decreases k,
{
    if k == 0 {
        Some(0)
    } else {
        match ratio_sum(bal, amts, sum, (k - 1) as nat) {
            None => None,
            Some(acc) => match (
                div_down_spec(bal[k - 1], sum),
                ratio_with_fee(bal[k - 1], amts[k - 1]),
            ) {
                (Some(w), Some(r)) => match mul_down_spec(r, w) {
                    Some(m) => if m + acc > u64::MAX {
                        None
                    } else {
                        Some((m + acc) as u64)
                    },
                    None => None,
                },
                _ => None,
            },
        }
    }
}

/// The part of deposit `a` into balance `b` that counts after the swap fee:
/// where the token grows by more than the pool as a whole (`ratio > irwf`),
/// the fee is taken from the excess over the proportional share.
pub open spec fn stable_amount_without_fee(b: u64, a: u64, ratio: u64, irwf: u64, fee: u64) -> Option<
    u64,
> {
    if ratio > irwf {
        if irwf < ONE {
            None
        } else {
            match mul_down_spec(b, (irwf - ONE) as u64) {
                None => None,
                Some(nt) => if a < nt {
                    None
                } else {
                    match mul_down_spec((a - nt) as u64, complement_spec(fee)) {
                        None => None,
                        Some(t) => if t + nt > u64::MAX {
                            None
                        } else {
                            Some((t + nt) as u64)
                        },
                    }
                },
            }
        }
    } else {
        Some(a)
    }
}

/// The first `k` balances after the deposit, net of fees.
pub open spec fn deposit_balances(bal: Seq<u64>, amts: Seq<u64>, irwf: u64, fee: u64, k: nat) -> Option<
    Seq<u64>,
>
    decreases k,
{
    if k == 0 {
        Some(Seq::empty())
    } else {
        match deposit_balances(bal, amts, irwf, fee, (k - 1) as nat) {
            None => None,
            Some(nb) => match ratio_with_fee(bal[k - 1], amts[k - 1]) {
                None => None,
                Some(r) => match stable_amount_without_fee(bal[k - 1], amts[k - 1], r, irwf, fee) {
                    None => None,
                    Some(x) => if bal[k - 1] + x > u64::MAX {
                        None
                    } else {
                        Some(nb.push((bal[k - 1] + x) as u64))
                    },
                },
            },
        }
    }
}

pub open spec fn stable_pool_token_out_spec(
    amp: u64,
    bal: Seq<u64>,
    amts: Seq<u64>,
    supply: u64,
    current: u64,
    fee: u64,
) -> Option<u64> {
    match checked_sum(bal, bal.len()) {
        None => None,
        Some(sum) => match ratio_sum(bal, amts, sum, bal.len()) {
            None => None,
            Some(irwf) => match deposit_balances(bal, amts, irwf, fee, bal.len()) {
                None => None,
                Some(nb) => match invariant_spec(amp, nb) {
                    None => None,
                    Some(ni) => match div_down_spec(ni, current) {
                        None => None,
                        Some(ratio) => minted_for_growth(supply, ratio),
                    },
                },
            },
        },
    }
}

proof fn lemma_ratio_sum_none_stays(bal: Seq<u64>, amts: Seq<u64>, sum: u64, k: nat, m: nat)
    requires
        k <= m,
        ratio_sum(bal, amts, sum, k) is None,
    ensures
        ratio_sum(bal, amts, sum, m) is None,
    decreases m - k,
{
    if k < m {
        lemma_ratio_sum_none_stays(bal, amts, sum, k + 1, m);
    }
}

proof fn lemma_deposit_none_stays(bal: Seq<u64>, amts: Seq<u64>, irwf: u64, fee: u64, k: nat, m: nat)
    requires
        k <= m,
        deposit_balances(bal, amts, irwf, fee, k) is None,
    ensures
        deposit_balances(bal, amts, irwf, fee, m) is None,
    decreases m - k,
{
    if k < m {
        lemma_deposit_none_stays(bal, amts, irwf, fee, k + 1, m);
    }
}

/// Pool tokens minted for depositing `amounts_in` (one per token) into a
/// stable pool; the fee is charged only on the part of a deposit above its
/// proportional share. Rounds down.
pub fn calc_pool_token_out_given_exact_tokens_in(
    amplification: u64,
    balances: &Vec<u64>,
    amounts_in: &Vec<u64>,
    pool_token_supply: u64,
    current_invariant: u64,
    swap_fee: u64,
) -> (r: Option<u64>)
    requires
        balances@.len() <= amounts_in@.len(),
    ensures
        r == stable_pool_token_out_spec(
            amplification,
            balances@,
            amounts_in@,
            pool_token_supply,
            current_invariant,
            swap_fee,
        ),
{
    let ghost bal = balances@;
    let ghost amts = amounts_in@;
    let sum = match sum_of(balances) {
        Some(s) => s,
        None => return None,
    };
    let mut ratios: Vec<u64> = Vec::with_capacity(balances.len());
    let mut irwf: u64 = 0;
    let mut i: usize = 0;
    while i < balances.len()
        invariant
            i <= bal.len(),
            bal == balances@,
            amts == amounts_in@,
            bal.len() <= amts.len(),
            ratios@.len() == i,
            checked_sum(bal, bal.len()) == Some(sum),
            forall|j: int| 0 <= j < i ==> ratio_with_fee(bal[j], amts[j]) == Some(ratios@[j]),
            ratio_sum(bal, amts, sum, i as nat) == Some(irwf),
        decreases bal.len() - i,
    {
        let w = match balances[i].div_down(sum) {
            Some(v) => v,
            None => {
                proof {
                    lemma_ratio_sum_none_stays(bal, amts, sum, (i + 1) as nat, bal.len());
                }
                return None;
            },
        };
        let grown = match balances[i].checked_add(amounts_in[i]) {
            Some(v) => v,
            None => {
                proof {
                    lemma_ratio_sum_none_stays(bal, amts, sum, (i + 1) as nat, bal.len());
                }
                return None;
            },
        };
        let ratio = match grown.div_down(balances[i]) {
            Some(v) => v,
            None => {
                proof {
                    lemma_ratio_sum_none_stays(bal, amts, sum, (i + 1) as nat, bal.len());
                }
                return None;
            },
        };
        ratios.push(ratio);
        let m = match ratio.mul_down(w) {
            Some(v) => v,
            None => {
                proof {
                    lemma_ratio_sum_none_stays(bal, amts, sum, (i + 1) as nat, bal.len());
                }
                return None;
            },
        };
        irwf = match m.checked_add(irwf) {
            Some(v) => v,
            None => {
                proof {
                    lemma_ratio_sum_none_stays(bal, amts, sum, (i + 1) as nat, bal.len());
                }
                return None;
            },
        };
        i = i + 1;
    }
    let fee_complement = swap_fee.complement();
    let mut new_balances: Vec<u64> = Vec::with_capacity(balances.len());
    let mut i: usize = 0;
    while i < balances.len()
        invariant
            i <= bal.len(),
            bal == balances@,
            amts == amounts_in@,
            bal.len() <= amts.len(),
            ratios@.len() == bal.len(),
            fee_complement == complement_spec(swap_fee),
            checked_sum(bal, bal.len()) == Some(sum),
            ratio_sum(bal, amts, sum, bal.len()) == Some(irwf),
            forall|j: int| 0 <= j < bal.len() ==> ratio_with_fee(bal[j], amts[j]) == Some(ratios@[j]),
            deposit_balances(bal, amts, irwf, swap_fee, i as nat) == Some(new_balances@),
        decreases bal.len() - i,
    {
        let amount_in_without_fee = if ratios[i] > irwf {
            let excess = match irwf.checked_sub(ONE) {
                Some(v) => v,
                None => {
                    proof {
                        lemma_deposit_none_stays(bal, amts, irwf, swap_fee, (i + 1) as nat, bal.len());
                    }
                    return None;
                },
            };
            let non_taxable = match balances[i].mul_down(excess) {
                Some(v) => v,
                None => {
                    proof {
                        lemma_deposit_none_stays(bal, amts, irwf, swap_fee, (i + 1) as nat, bal.len());
                    }
                    return None;
                },
            };
            let taxable = match amounts_in[i].checked_sub(non_taxable) {
                Some(v) => v,
                None => {
                    proof {
                        lemma_deposit_none_stays(bal, amts, irwf, swap_fee, (i + 1) as nat, bal.len());
                    }
                    return None;
                },
            };
            let taxed = match taxable.mul_down(fee_complement) {
                Some(v) => v,
                None => {
                    proof {
                        lemma_deposit_none_stays(bal, amts, irwf, swap_fee, (i + 1) as nat, bal.len());
                    }
                    return None;
                },
            };
            match taxed.checked_add(non_taxable) {
                Some(v) => v,
                None => {
                    proof {
                        lemma_deposit_none_stays(bal, amts, irwf, swap_fee, (i + 1) as nat, bal.len());
                    }
                    return None;
                },
            }
        } else {
            amounts_in[i]
        };
        let nb = match balances[i].checked_add(amount_in_without_fee) {
            Some(v) => v,
            None => {
                proof {
                    lemma_deposit_none_stays(bal, amts, irwf, swap_fee, (i + 1) as nat, bal.len());
                }
                return None;
            },
        };
        new_balances.push(nb);
        i = i + 1;
    }
    let new_invariant = match calc_invariant(amplification, &new_balances) {
        Some(v) => v,
        None => return None,
    };
    let invariant_ratio = match new_invariant.div_down(current_invariant) {
        Some(v) => v,
        None => return None,
    };
    if invariant_ratio > ONE {
        pool_token_supply.mul_down(invariant_ratio - ONE)
    } else {
        Some(0)
    }
}

pub open spec fn stable_token_out_spec(
    amp: u64,
    bal: Seq<u64>,
    index: int,
    amount_in: u64,
    supply: u64,
    current: u64,
    fee: u64,
) -> Option<u64> {
    if supply < amount_in {
        None
    } else {
        match mul_div_up_u64((supply - amount_in) as nat, current as nat, supply as nat) {
            None => None,
            Some(ni) => if 0 <= index < bal.len() {
                let balance = bal[index];
                match balance_spec(amp, bal, ni, balance) {
                    None => None,
                    Some(nbal) => if balance < nbal {
                        None
                    } else {
                        let without_fee = (balance - nbal) as u64;
                        match checked_sum(bal, bal.len()) {
                            None => None,
                            Some(sum) => match div_down_spec(balance, sum) {
                                None => None,
                                Some(w) => match mul_up_spec(without_fee, complement_spec(w)) {
                                    None => None,
                                    Some(taxable) => {
                                        let non_taxable: nat = if without_fee >= taxable {
                                            (without_fee - taxable) as nat
                                        } else {
                                            0
                                        };
                                        match mul_down_spec(taxable, complement_spec(fee)) {
                                            None => None,
                                            Some(x) => if x + non_taxable > u64::MAX {
                                                None
                                            } else {
                                                Some((x + non_taxable) as u64)
                                            },
                                        }
                                    },
                                },
                            },
                        }
                    },
                }
            } else {
                None
            },
        }
    }
}

/// Tokens of `token_index` paid out for burning `amount_in` pool tokens;
/// the fee is charged on the part of the withdrawal above the token's
/// proportional share. Rounds down.
pub fn calc_token_out_given_exact_pool_token_in(
    amplification: u64,
    balances: &Vec<u64>,
    token_index: usize,
    amount_in: u64,
    pool_token_supply: u64,
    current_invariant: u64,
    swap_fee: u64,
) -> (r: Option<u64>)
    ensures
        r == stable_token_out_spec(
            amplification,
            balances@,
            token_index as int,
            amount_in,
            pool_token_supply,
            current_invariant,
            swap_fee,
        ),
{
    let remaining = match pool_token_supply.checked_sub(amount_in) {
        Some(v) => v,
        None => return None,
    };
    let new_invariant = match remaining.checked_mul_div_up(current_invariant, pool_token_supply) {
        Some(v) => v,
        None => return None,
    };
    if token_index >= balances.len() {
        return None;
    }
    let balance = balances[token_index];
    let new_balance = match get_token_balance_given_invariant_n_all_other_balances(
        amplification,
        balances,
        new_invariant,
        balance,
    ) {
        Some(v) => v,
        None => return None,
    };
    let amount_out_without_fee = match balance.checked_sub(new_balance) {
        Some(v) => v,
        None => return None,
    };
    let sum = match sum_of(balances) {
        Some(v) => v,
        None => return None,
    };
    let current_weight = match balance.div_down(sum) {
        Some(v) => v,
        None => return None,
    };
    let taxable_percentage = current_weight.complement();
    let taxable_amount = match amount_out_without_fee.mul_up(taxable_percentage) {
        Some(v) => v,
        None => return None,
    };
    let non_taxable_amount = amount_out_without_fee.saturating_sub(taxable_amount);
    match taxable_amount.mul_down(swap_fee.complement()) {
        Some(v) => v.checked_add(non_taxable_amount),
        None => None,
    }
}

/// One invariant step from `d`.
pub open spec fn inv_step(amp_total: u64, sum: nat, bal: Seq<u64>, n: u64, d: nat) -> Option<nat> {
    match inv_product(bal, n, d, bal.len()) {
        None => None,
        Some(p) => inv_next(amp_total, sum, n, d, p),
    }
}

/// The invariant iterate after `j` steps from `d`; absent when a step
/// overflows.
pub open spec fn inv_iterate(amp_total: u64, sum: nat, bal: Seq<u64>, n: u64, d: nat, j: nat) -> Option<
    nat,
>
    decreases j,
{
    if j == 0 {
        Some(d)
    } else {
        match inv_iterate(amp_total, sum, bal, n, d, (j - 1) as nat) {
            None => None,
            Some(x) => inv_step(amp_total, sum, bal, n, x),
        }
    }
}

/// Step `j + 1` of the iteration from `d` lands within `INV_THRESHOLD` of
/// step `j`, both fitting in a `u64`.
pub open spec fn inv_converged_at(amp_total: u64, sum: nat, bal: Seq<u64>, n: u64, d: nat, j: nat) -> bool {
    match (inv_iterate(amp_total, sum, bal, n, d, j), inv_iterate(amp_total, sum, bal, n, d, j + 1)) {
        (Some(a), Some(b)) => a <= u64::MAX && b <= u64::MAX && abs_diff(b, a) <= INV_THRESHOLD,
        _ => false,
    }
}

proof fn lemma_inv_iterate_shift(amp_total: u64, sum: nat, bal: Seq<u64>, n: u64, d: nat, j: nat)
    ensures
        inv_iterate(amp_total, sum, bal, n, d, j + 1) == match inv_step(amp_total, sum, bal, n, d) {
            Some(d2) => inv_iterate(amp_total, sum, bal, n, d2, j),
            None => None,
        },
    decreases j,
{
    assert(inv_iterate(amp_total, sum, bal, n, d, 0) == Some(d));
    if j > 0 {
        lemma_inv_iterate_shift(amp_total, sum, bal, n, d, (j - 1) as nat);
        match inv_step(amp_total, sum, bal, n, d) {
            Some(d2) => {
                assert(inv_iterate(amp_total, sum, bal, n, d, j) == inv_iterate(
                    amp_total,
                    sum,
                    bal,
                    n,
                    d2,
                    (j - 1) as nat,
                ));
            },
            None => {
                assert(inv_iterate(amp_total, sum, bal, n, d, j) is None);
            },
        }
    } else {
        match inv_step(amp_total, sum, bal, n, d) {
            Some(d2) => {
                assert(inv_iterate(amp_total, sum, bal, n, d2, 0) == Some(d2));
            },
            None => {},
        }
    }
}

proof fn lemma_inv_iter_converged(amp_total: u64, sum: nat, bal: Seq<u64>, n: u64, d: nat, k: nat)
    ensures
        inv_iter(amp_total, sum, bal, n, d, k) matches Some(v) ==> exists|j: nat|
            j < k && #[trigger] inv_converged_at(amp_total, sum, bal, n, d, j) && inv_iterate(
                amp_total,
                sum,
                bal,
                n,
                d,
                j + 1,
            ) == Some(v as nat),
    decreases k,
{
    if k > 0 {
        if let Some(v) = inv_iter(amp_total, sum, bal, n, d, k) {
            assert(inv_step(amp_total, sum, bal, n, d) is Some);
            let d2 = inv_step(amp_total, sum, bal, n, d)->0;
            assert(d <= u64::MAX && d2 <= u64::MAX);
            assert(inv_iterate(amp_total, sum, bal, n, d, 0) == Some(d));
            assert(inv_iterate(amp_total, sum, bal, n, d, 1) == Some(d2));
            if abs_diff(d2, d) <= INV_THRESHOLD {
                assert(inv_converged_at(amp_total, sum, bal, n, d, 0));
                assert(inv_iterate(amp_total, sum, bal, n, d, 0 + 1) == Some(v as nat));
            } else {
                lemma_inv_iter_converged(amp_total, sum, bal, n, d2, (k - 1) as nat);
                let j = choose|j: nat|
                    j < k - 1 && #[trigger] inv_converged_at(amp_total, sum, bal, n, d2, j)
                        && inv_iterate(amp_total, sum, bal, n, d2, j + 1) == Some(v as nat);
                lemma_inv_iterate_shift(amp_total, sum, bal, n, d, j);
                lemma_inv_iterate_shift(amp_total, sum, bal, n, d, j + 1);
                assert(inv_converged_at(amp_total, sum, bal, n, d, j + 1));
                assert(inv_iterate(amp_total, sum, bal, n, d, (j + 1) + 1) == Some(v as nat));
            }
        }
    }
}

/// A stable invariant is returned only once the Newton-Raphson iteration has
/// converged: it is zero for balances that sum to zero, and otherwise an
/// iterate, reached within `MAX_ITERATIONS` steps from the sum of the
/// balances, that lies within `INV_THRESHOLD` of the iterate before it. So
/// where no step converges, no value is returned.
pub proof fn lemma_invariant_only_when_converged(amp: u64, bal: Seq<u64>)
    ensures
        invariant_spec(amp, bal) matches Some(v) ==> checked_sum(bal, bal.len()) matches Some(s) && (
        (s == 0 && v == 0) || exists|j: nat|
            j < MAX_ITERATIONS && #[trigger] inv_converged_at(
                (amp as nat * bal.len()) as u64,
                s as nat,
                bal,
                bal.len() as u64,
                s as nat,
                j,
            ) && inv_iterate(
                (amp as nat * bal.len()) as u64,
                s as nat,
                bal,
                bal.len() as u64,
                s as nat,
                j + 1,
            ) == Some(v as nat)),
{
    if let Some(s) = checked_sum(bal, bal.len()) {
        if s != 0 && amp as nat * bal.len() <= u64::MAX {
            lemma_inv_iter_converged(
                (amp as nat * bal.len()) as u64,
                s as nat,
                bal,
                bal.len() as u64,
                s as nat,
                MAX_ITERATIONS as nat,
            );
        }
    }
}

} // verus!

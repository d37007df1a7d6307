//! A stable pool's state as plain values, with its amplification ramp, the
//! scaling between token amounts and pool balances, and swap quotes.

use vstd::prelude::*;
use crate::fixed_math::{FixedComplement, FixedMul};
use crate::layout::{
    as_signed, check_discriminator, discriminator_check, key_at, le_value, read_key, read_le,
    to_signed, AccountError,
};
use crate::safe_math::{mul_div_down_u64, CheckedMulDiv};
use crate::scaling::{
    round_amount, round_spec, split_fee_spec, unwrap_amount, unwrap_spec, wrap_amount, wrap_spec,
};
use crate::stable_math::{self, invariant_spec, out_given_in_spec, AMP_PRECISION};
use crate::swap_fee_math::{calc_swap_fee_in_discount, discounted_fee};

verus! {

/// One token of a pool. Pool balances are kept in a common precision: a
/// token amount is multiplied (`scaling_up`) or divided by `scaling_factor`
/// to give its balance amount.
#[derive(Clone, Copy, Debug)]
pub struct PoolToken {
    pub mint: [u8; 32],
    pub decimals: u8,
    pub scaling_up: bool,
    pub scaling_factor: u64,
    pub balance: u64,
}

/// A stable pool. The amplification moves linearly from
/// `amp_initial_factor` to `amp_target_factor` between `ramp_start_ts` and
/// `ramp_stop_ts`.
#[derive(Clone, Debug)]
pub struct Pool {
    pub vault: [u8; 32],
    pub is_active: bool,
    pub amp_initial_factor: u16,
    pub amp_target_factor: u16,
    pub ramp_start_ts: i64,
    pub ramp_stop_ts: i64,
    pub swap_fee: u64,
    pub tokens: Vec<PoolToken>,
}

/// `a - b` for timestamps with `a > b`, capped at `i64::MAX`.
pub open spec fn elapsed_seconds(a: i64, b: i64) -> u64 {
    if a - b > i64::MAX {
        i64::MAX as u64
    } else {
        (a - b) as u64
    }
}

/// The amplification at time `now`, scaled by `AMP_PRECISION`: the initial
/// factor up to the start of the ramp, the target factor from its end, and in
/// between the initial factor moved towards the target in proportion to the
/// time elapsed, counted in whole minutes and rounded down.
pub open spec fn amplification_at(init: u16, target: u16, start: i64, stop: i64, now: i64) -> Option<u64> {
    if now <= start {
        Some((init * AMP_PRECISION) as u64)
    } else if now >= stop {
        Some((target * AMP_PRECISION) as u64)
    } else {
        let elapsed = elapsed_seconds(now, start) / 60 * 60;
        let duration = elapsed_seconds(stop, start);
        if init <= target {
            match mul_div_down_u64(((target - init) * AMP_PRECISION) as nat, elapsed as nat, duration as nat) {
                Some(off) => Some((init * AMP_PRECISION + off) as u64),
                None => None,
            }
        } else {
            match mul_div_down_u64(((init - target) * AMP_PRECISION) as nat, elapsed as nat, duration as nat) {
                Some(off) => if off <= init * AMP_PRECISION {
                    Some((init * AMP_PRECISION - off) as u64)
                } else {
                    Some(0)
                },
                None => None,
            }
        }
    }
}

/// The balances of `tokens`, in order.
pub open spec fn balances_of(tokens: Seq<PoolToken>) -> Seq<u64> {
    tokens.map_values(|t: PoolToken| t.balance)
}

/// A token amount in balance precision; absent when `i` is not a token of
/// the pool.
pub open spec fn wrapped_of(tokens: Seq<PoolToken>, amount: u64, i: int) -> Option<u64> {
    if 0 <= i < tokens.len() {
        wrap_spec(tokens[i].scaling_up, tokens[i].scaling_factor, amount)
    } else {
        None
    }
}

/// A balance amount in token precision; absent when `i` is not a token of
/// the pool.
pub open spec fn unwrapped_of(tokens: Seq<PoolToken>, amount: u64, i: int) -> Option<u64> {
    if 0 <= i < tokens.len() {
        unwrap_spec(tokens[i].scaling_up, tokens[i].scaling_factor, amount)
    } else {
        None
    }
}

/// A token amount that scales without loss; absent when `i` is not a token
/// of the pool.
pub open spec fn rounded_of(tokens: Seq<PoolToken>, amount: u64, i: int) -> Option<u64> {
    if 0 <= i < tokens.len() {
        round_spec(tokens[i].scaling_up, tokens[i].scaling_factor, amount)
    } else {
        None
    }
}

/// Splits a swap's output into the amount paid out and the fee kept, both
/// in the precision of token `i`.
pub open spec fn split_fee(tokens: Seq<PoolToken>, out_without_fee: u64, fee: u64, i: int) -> Option<(u64, u64)> {
    if 0 <= i < tokens.len() {
        split_fee_spec(tokens[i].scaling_up, tokens[i].scaling_factor, out_without_fee, fee)
    } else {
        None
    }
}

pub open spec fn stable_swap_result_spec(
    pool: Pool,
    now: i64,
    i_in: int,
    i_out: int,
    amount_in: u64,
    fee: Option<u64>,
) -> Option<(u64, u64)> {
    let bal = balances_of(pool.tokens@);
    match amplification_at(
        pool.amp_initial_factor,
        pool.amp_target_factor,
        pool.ramp_start_ts,
        pool.ramp_stop_ts,
        now,
    ) {
        None => None,
        Some(amp) => match (invariant_spec(amp, bal), fee, wrapped_of(pool.tokens@, amount_in, i_in)) {
            (Some(d), Some(fee), Some(w)) => match out_given_in_spec(amp, bal, i_in, i_out, w, d) {
                None => None,
                Some(o) => split_fee(pool.tokens@, o, fee, i_out),
            },
            _ => None,
        },
    }
}

/// The eight bytes that open the data of a stable pool account.
pub const POOL_DISCRIMINATOR: [u8; 8] = [241, 154, 109, 4, 17, 177, 109, 188];

/// Offset of the first token record in the account data.
pub const TOKENS_OFFSET: usize = 138;

/// Size of one token record.
pub const TOKEN_SIZE: usize = 50;

/// The token record at `off` holds `t`.
pub open spec fn token_at(t: PoolToken, s: Seq<u8>, off: int) -> bool {
    &&& key_at(s, off, t.mint)
    &&& t.decimals == s[off + 32]
    &&& t.scaling_up == (s[off + 33] != 0)
    &&& t.scaling_factor == le_value(s, off + 34, 8)
    &&& t.balance == le_value(s, off + 42, 8)
}

/// The data is long enough for the header and the token records it
/// announces.
pub open spec fn pool_fits(s: Seq<u8>) -> bool {
    s.len() >= TOKENS_OFFSET && s.len() >= TOKENS_OFFSET + TOKEN_SIZE * le_value(s, 134, 4)
}

/// The account data `s` holds `p`.
pub open spec fn pool_at(p: Pool, s: Seq<u8>) -> bool {
    &&& key_at(s, 40, p.vault)
    &&& p.is_active == (s[105] != 0)
    &&& p.amp_initial_factor == le_value(s, 106, 2)
    &&& p.amp_target_factor == le_value(s, 108, 2)
    &&& p.ramp_start_ts == as_signed(le_value(s, 110, 8))
    &&& p.ramp_stop_ts == as_signed(le_value(s, 118, 8))
    &&& p.swap_fee == le_value(s, 126, 8)
    &&& p.tokens@.len() == le_value(s, 134, 4)
    &&& forall|k: int|
        0 <= k < p.tokens@.len() ==> token_at(#[trigger] p.tokens@[k], s, TOKENS_OFFSET + TOKEN_SIZE * k)
}

fn read_token(data: &[u8], off: usize) -> (r: PoolToken)
    requires
        off + TOKEN_SIZE <= data@.len() <= usize::MAX,
    ensures
        token_at(r, data@, off as int),
{
    let mint = match read_key(data, off) {
        Some(k) => k,
        None => [0u8; 32],
    };
    let scaling_factor = match read_le(data, off + 34, 8) {
        Some(v) => v,
        None => 0,
    };
    let balance = match read_le(data, off + 42, 8) {
        Some(v) => v,
        None => 0,
    };
    PoolToken { mint, decimals: data[off + 32], scaling_up: data[off + 33] != 0, scaling_factor, balance }
}

fn elapsed(a: i64, b: i64) -> (r: u64)
    requires
        a > b,
    ensures
        r == elapsed_seconds(a, b),
{
    let d = a as i128 - b as i128;
    if d > i64::MAX as i128 {
        i64::MAX as u64
    } else {
        d as u64
    }
}

impl Pool {
    /// Reads a pool from its account data.
    pub fn try_deserialize(data: &[u8]) -> (r: Result<Pool, AccountError>)
        ensures
            discriminator_check(data@, POOL_DISCRIMINATOR) matches Err(e) ==> r == Err::<Pool, AccountError>(e),
            discriminator_check(data@, POOL_DISCRIMINATOR) is Ok ==> (r is Ok <==> pool_fits(data@)),
            discriminator_check(data@, POOL_DISCRIMINATOR) is Ok ==> (r matches Err(e) ==> e
                == AccountError::AccountDidNotDeserialize),
            r matches Ok(p) ==> pool_at(p, data@),
    {
        match check_discriminator(data, &POOL_DISCRIMINATOR) {
            Ok(()) => {},
            Err(e) => return Err(e),
        }
        let len = data.len();
        if len < TOKENS_OFFSET {
            return Err(AccountError::AccountDidNotDeserialize);
        }
        let vault = match read_key(data, 40) {
            Some(k) => k,
            None => return Err(AccountError::AccountDidNotDeserialize),
        };
        let is_active = data[105] != 0;
        let amp_initial_factor = match read_le(data, 106, 2) {
            Some(v) => v as u16,
            None => return Err(AccountError::AccountDidNotDeserialize),
        };
        let amp_target_factor = match read_le(data, 108, 2) {
            Some(v) => v as u16,
            None => return Err(AccountError::AccountDidNotDeserialize),
        };
        let ramp_start_ts = match read_le(data, 110, 8) {
            Some(v) => to_signed(v),
            None => return Err(AccountError::AccountDidNotDeserialize),
        };
        let ramp_stop_ts = match read_le(data, 118, 8) {
            Some(v) => to_signed(v),
            None => return Err(AccountError::AccountDidNotDeserialize),
        };
        let swap_fee = match read_le(data, 126, 8) {
            Some(v) => v,
            None => return Err(AccountError::AccountDidNotDeserialize),
        };
        let token_count = match read_le(data, 134, 4) {
            Some(v) => v,
            None => return Err(AccountError::AccountDidNotDeserialize),
        };
        proof {
            crate::layout::lemma_le_value_bound(data@, 106, 2);
            crate::layout::lemma_le_value_bound(data@, 108, 2);
            assert(crate::layout::pow256(2) == 65536) by {
                reveal_with_fuel(crate::layout::pow256, 3);
            }
            assert(amp_initial_factor as nat == le_value(data@, 106, 2));
            assert(amp_target_factor as nat == le_value(data@, 108, 2));
        }
        let mut tokens: Vec<PoolToken> = Vec::new();
        let mut off: usize = TOKENS_OFFSET;
        let mut k: u64 = 0;
        while k < token_count
            invariant
                discriminator_check(data@, POOL_DISCRIMINATOR) is Ok,
                len == data@.len(),
                k <= token_count,
                token_count == le_value(data@, 134, 4),
                off == TOKENS_OFFSET + TOKEN_SIZE * k,
                off <= len,
                tokens@.len() == k,
                forall|j: int| 0 <= j < k ==> token_at(#[trigger] tokens@[j], data@, TOKENS_OFFSET + TOKEN_SIZE * j),
            decreases token_count - k,
        {
            if len - off < TOKEN_SIZE {
                proof {
                    assert(TOKEN_SIZE * (k + 1) <= TOKEN_SIZE * token_count) by (nonlinear_arith)
                        requires
                            k + 1 <= token_count,
                    ;
                }
                return Err(AccountError::AccountDidNotDeserialize);
            }
            let t = read_token(data, off);
            tokens.push(t);
            off = off + TOKEN_SIZE;
            k = k + 1;
        }
        Ok(Pool {
            vault,
            is_active,
            amp_initial_factor,
            amp_target_factor,
            ramp_start_ts,
            ramp_stop_ts,
            swap_fee,
            tokens,
        })
    }

    /// The amplification at `current_ts`, scaled by `AMP_PRECISION`.
    pub fn get_amplification(&self, current_ts: i64) -> (r: Option<u64>)
        ensures
            r == amplification_at(
                self.amp_initial_factor,
                self.amp_target_factor,
                self.ramp_start_ts,
                self.ramp_stop_ts,
                current_ts,
            ),
    {
        let amp_initial_factor = self.amp_initial_factor as u64;
        let amp_target_factor = self.amp_target_factor as u64;
        if current_ts <= self.ramp_start_ts {
            Some(amp_initial_factor * AMP_PRECISION)
        } else if current_ts >= self.ramp_stop_ts {
            Some(amp_target_factor * AMP_PRECISION)
        } else {
            let ramp_elapsed = elapsed(current_ts, self.ramp_start_ts) / 60 * 60;
            let ramp_duration = elapsed(self.ramp_stop_ts, self.ramp_start_ts);
            if amp_initial_factor <= amp_target_factor {
                let amp_offset = match ((amp_target_factor - amp_initial_factor) * AMP_PRECISION).checked_mul_div_down(
                    ramp_elapsed,
                    ramp_duration,
                ) {
                    Some(v) => v,
                    None => return None,
                };
                assert(amp_offset <= (amp_target_factor - amp_initial_factor) * AMP_PRECISION) by {
                    assert(ramp_elapsed <= ramp_duration);
                    lemma_scaled_down_not_larger(
                        ((amp_target_factor - amp_initial_factor) * AMP_PRECISION) as nat,
                        ramp_elapsed as nat,
                        ramp_duration as nat,
                    );
                }
                Some(amp_initial_factor * AMP_PRECISION + amp_offset)
            } else {
                let amp_offset = match ((amp_initial_factor - amp_target_factor) * AMP_PRECISION).checked_mul_div_down(
                    ramp_elapsed,
                    ramp_duration,
                ) {
                    Some(v) => v,
                    None => return None,
                };
                Some((amp_initial_factor * AMP_PRECISION).saturating_sub(amp_offset))
            }
        }
    }

    pub fn get_balances(&self) -> (r: Vec<u64>)
        ensures
            r@ == balances_of(self.tokens@),
    {
        let mut out: Vec<u64> = Vec::new();
        let mut i: usize = 0;
        while i < self.tokens.len()
            invariant
                i <= self.tokens@.len(),
                out@ == balances_of(self.tokens@.take(i as int)),
            decreases self.tokens@.len() - i,
        {
            out.push(self.tokens[i].balance);
            proof {
                assert(balances_of(self.tokens@.take(i + 1)) =~= balances_of(self.tokens@.take(i as int)).push(
                    self.tokens@[i as int].balance,
                ));
            }
            i = i + 1;
        }
        proof {
            assert(self.tokens@.take(i as int) =~= self.tokens@);
        }
        out
    }

    /// The index of the token with mint `mint`, the first if several match.
    pub fn get_token_index(&self, mint: [u8; 32]) -> (r: Option<usize>)
        ensures
            r matches Some(i) ==> i < self.tokens@.len() && self.tokens@[i as int].mint == mint && forall|
                j: int,
            | 0 <= j < i ==> self.tokens@[j].mint != mint,
            r is None ==> forall|j: int| 0 <= j < self.tokens@.len() ==> self.tokens@[j].mint != mint,
    {
        let mut i: usize = 0;
        while i < self.tokens.len()
            invariant
                i <= self.tokens@.len(),
                forall|j: int| 0 <= j < i ==> self.tokens@[j].mint != mint,
            decreases self.tokens@.len() - i,
        {
            if same_key(&self.tokens[i].mint, &mint) {
                return Some(i);
            }
            i = i + 1;
        }
        None
    }

    /// Scales a token amount up or down to balance precision.
    pub fn calc_wrapped_amount(&self, amount: u64, token_index: usize) -> (r: Option<u64>)
        ensures
            r == wrapped_of(self.tokens@, amount, token_index as int),
    {
        if token_index >= self.tokens.len() {
            return None;
        }
        let t = &self.tokens[token_index];
        wrap_amount(t.scaling_up, t.scaling_factor, amount)
    }

    /// Scales a balance amount back to token precision.
    pub fn calc_unwrapped_amount(&self, amount: u64, token_index: usize) -> (r: Option<u64>)
        ensures
            r == unwrapped_of(self.tokens@, amount, token_index as int),
    {
        if token_index >= self.tokens.len() {
            return None;
        }
        let t = &self.tokens[token_index];
        unwrap_amount(t.scaling_up, t.scaling_factor, amount)
    }

    /// Rounds a token amount down so that scaling it down loses nothing.
    pub fn calc_rounded_amount(&self, amount: u64, token_index: usize) -> (r: Option<u64>)
        ensures
            r == rounded_of(self.tokens@, amount, token_index as int),
    {
        if token_index >= self.tokens.len() {
            return None;
        }
        let t = &self.tokens[token_index];
        round_amount(t.scaling_up, t.scaling_factor, amount)
    }

    /// The amount out and the fee of swapping `amount_in` of token
    /// `token_in_index` for token `token_out_index` at `current_ts`, with the
    /// fee discounted for volume `x_amount`.
    pub fn get_swap_result(
        &self,
        current_ts: i64,
        token_in_index: usize,
        token_out_index: usize,
        amount_in: u64,
        x_amount: u64,
    ) -> (r: Option<(u64, u64)>)
        ensures
            r == stable_swap_result_spec(
                *self,
                current_ts,
                token_in_index as int,
                token_out_index as int,
                amount_in,
                discounted_fee(self.swap_fee, x_amount),
            ),
    {
        let amplification = match self.get_amplification(current_ts) {
            Some(v) => v,
            None => return None,
        };
        let balances = self.get_balances();
        let current_invariant = match stable_math::calc_invariant(amplification, &balances) {
            Some(v) => v,
            None => return None,
        };
        let swap_fee = match calc_swap_fee_in_discount(self.swap_fee, x_amount) {
            Some(v) => v,
            None => return None,
        };
        let wrapped_amount_in = match self.calc_wrapped_amount(amount_in, token_in_index) {
            Some(v) => v,
            None => return None,
        };
        let wrapped_amount_out_without_fee = match stable_math::calc_out_given_in(
            amplification,
            &balances,
            token_in_index,
            token_out_index,
            wrapped_amount_in,
            current_invariant,
        ) {
            Some(v) => v,
            None => return None,
        };
        let wrapped_amount_out = match wrapped_amount_out_without_fee.mul_down(swap_fee.complement()) {
            Some(v) => v,
            None => return None,
        };
        let wrapped_amount_fee = match wrapped_amount_out_without_fee.checked_sub(wrapped_amount_out) {
            Some(v) => v,
            None => return None,
        };
        let amount_out = match self.calc_unwrapped_amount(wrapped_amount_out, token_out_index) {
            Some(v) => v,
            None => return None,
        };
        let amount_fee = match self.calc_unwrapped_amount(wrapped_amount_fee, token_out_index) {
            Some(v) => v,
            None => return None,
        };
        Some((amount_out, amount_fee))
    }
}

proof fn lemma_scaled_down_not_larger(a: nat, b: nat, c: nat)
    requires
        b <= c,
        c > 0,
    ensures
        a * b / c <= a,
{
    assert(a * b <= a * c) by (nonlinear_arith)
        requires
            b <= c,
    ;
    vstd::arithmetic::div_mod::lemma_div_is_ordered((a * b) as int, (a * c) as int, c as int);
    vstd::arithmetic::div_mod::lemma_div_multiples_vanish(a as int, c as int);
    assert(c * a == a * c) by (nonlinear_arith);
}

/// Whether two 32-byte keys are equal.
pub fn same_key(a: &[u8; 32], b: &[u8; 32]) -> (r: bool)
    ensures
        r <==> *a == *b,
{
    let mut i: usize = 0;
    while i < 32
        invariant
            i <= 32,
            forall|j: int| 0 <= j < i ==> a[j] == b[j],
        decreases 32 - i,
    {
        if a[i] != b[i] {
            return false;
        }
        i = i + 1;
    }
    proof {
        assert(*a =~= *b);
    }
    true
}

} // verus!

//! A weighted pool's state as plain values, with the scaling between token
//! amounts and pool balances, and swap quotes.

use vstd::prelude::*;
use crate::fixed_math::{FixedComplement, FixedMul};
use crate::layout::{check_discriminator, discriminator_check, key_at, le_value, read_key, read_le, AccountError};
use crate::scaling::{
    round_amount, round_spec, split_fee_spec, unwrap_amount, unwrap_spec, wrap_amount, wrap_spec,
};
use crate::stable_pool::same_key;
use crate::weighted_math::{self, weighted_out_given_in_spec};

verus! {

/// One token of a weighted pool, with its normalized weight. A token amount
/// is multiplied (`scaling_up`) or divided by `scaling_factor` to give its
/// balance amount.
#[derive(Clone, Copy, Debug)]
pub struct PoolToken {
    pub mint: [u8; 32],
    pub decimals: u8,
    pub scaling_up: bool,
    pub scaling_factor: u64,
    pub balance: u64,
    pub weight: u64,
}

/// A weighted pool and its last recorded invariant.
#[derive(Clone, Debug)]
pub struct Pool {
    pub vault: [u8; 32],
    pub is_active: bool,
    pub current_invariant: u64,
    pub swap_fee: u64,
    pub tokens: Vec<PoolToken>,
}

pub open spec fn weights_of(tokens: Seq<PoolToken>) -> Seq<u64> {
    tokens.map_values(|t: PoolToken| t.weight)
}

pub open spec fn balances_of(tokens: Seq<PoolToken>) -> Seq<u64> {
    tokens.map_values(|t: PoolToken| t.balance)
}

/// The amount out and the fee of a swap of `amount_in` of token `i_in` for
/// token `i_out`; nothing is paid out of a pool whose invariant is zero.
pub open spec fn weighted_swap_result_spec(pool: Pool, i_in: int, i_out: int, amount_in: u64) -> Option<
    (u64, u64),
> {
    let tokens = pool.tokens@;
    if pool.current_invariant == 0 {
        Some((0, 0))
    } else if 0 <= i_in < tokens.len() && 0 <= i_out < tokens.len() {
        match wrap_spec(tokens[i_in].scaling_up, tokens[i_in].scaling_factor, amount_in) {
            None => None,
            Some(w) => match weighted_out_given_in_spec(
                tokens[i_in].balance,
                tokens[i_in].weight,
                tokens[i_out].balance,
                tokens[i_out].weight,
                w,
            ) {
                None => None,
                Some(o) => split_fee_spec(tokens[i_out].scaling_up, tokens[i_out].scaling_factor, o, pool.swap_fee),
            },
        }
    } else {
        None
    }
}

/// The eight bytes that open the data of a weighted pool account.
pub const POOL_DISCRIMINATOR: [u8; 8] = [241, 154, 109, 4, 17, 177, 109, 188];

/// Offset of the first token record in the account data.
pub const TOKENS_OFFSET: usize = 126;

/// Size of one token record.
pub const TOKEN_SIZE: usize = 58;

/// The token record at `off` holds `t`.
pub open spec fn token_at(t: PoolToken, s: Seq<u8>, off: int) -> bool {
    &&& key_at(s, off, t.mint)
    &&& t.decimals == s[off + 32]
    &&& t.scaling_up == (s[off + 33] != 0)
    &&& t.scaling_factor == le_value(s, off + 34, 8)
    &&& t.balance == le_value(s, off + 42, 8)
    &&& t.weight == le_value(s, off + 50, 8)
}

/// The data is long enough for the header and the token records it
/// announces.
pub open spec fn pool_fits(s: Seq<u8>) -> bool {
    s.len() >= TOKENS_OFFSET && s.len() >= TOKENS_OFFSET + TOKEN_SIZE * le_value(s, 122, 4)
}

/// The account data `s` holds `p`.
pub open spec fn pool_at(p: Pool, s: Seq<u8>) -> bool {
    &&& key_at(s, 40, p.vault)
    &&& p.is_active == (s[105] != 0)
    &&& p.current_invariant == le_value(s, 106, 8)
    &&& p.swap_fee == le_value(s, 114, 8)
    &&& p.tokens@.len() == le_value(s, 122, 4)
    &&& forall|k: int|
        0 <= k < p.tokens@.len() ==> token_at(#[trigger] p.tokens@[k], s, TOKENS_OFFSET + TOKEN_SIZE * k)
}

fn read_token(data: &[u8], off: usize) -> (r: PoolToken)
    requires
        off + TOKEN_SIZE <= data@.len() <= usize::MAX,
    ensures
        token_at(r, data@, off as int),
{
    let mint = match read_key(data, off) {
        Some(k) => k,
        None => [0u8; 32],
    };
    let scaling_factor = match read_le(data, off + 34, 8) {
        Some(v) => v,
        None => 0,
    };
    let balance = match read_le(data, off + 42, 8) {
        Some(v) => v,
        None => 0,
    };
    let weight = match read_le(data, off + 50, 8) {
        Some(v) => v,
        None => 0,
    };
    PoolToken {
        mint,
        decimals: data[off + 32],
        scaling_up: data[off + 33] != 0,
        scaling_factor,
        balance,
        weight,
    }
}

impl Pool {
    /// Reads a pool from its account data.
    pub fn try_deserialize(data: &[u8]) -> (r: Result<Pool, AccountError>)
        ensures
            discriminator_check(data@, POOL_DISCRIMINATOR) matches Err(e) ==> r == Err::<Pool, AccountError>(e),
            discriminator_check(data@, POOL_DISCRIMINATOR) is Ok ==> (r is Ok <==> pool_fits(data@)),
            discriminator_check(data@, POOL_DISCRIMINATOR) is Ok ==> (r matches Err(e) ==> e
                == AccountError::AccountDidNotDeserialize),
            r matches Ok(p) ==> pool_at(p, data@),
    {
        match check_discriminator(data, &POOL_DISCRIMINATOR) {
            Ok(()) => {},
            Err(e) => return Err(e),
        }
        let len = data.len();
        if len < TOKENS_OFFSET {
            return Err(AccountError::AccountDidNotDeserialize);
        }
        let vault = match read_key(data, 40) {
            Some(k) => k,
            None => return Err(AccountError::AccountDidNotDeserialize),
        };
        let is_active = data[105] != 0;
        let current_invariant = match read_le(data, 106, 8) {
            Some(v) => v,
            None => return Err(AccountError::AccountDidNotDeserialize),
        };
        let swap_fee = match read_le(data, 114, 8) {
            Some(v) => v,
            None => return Err(AccountError::AccountDidNotDeserialize),
        };
        let token_count = match read_le(data, 122, 4) {
            Some(v) => v,
            None => return Err(AccountError::AccountDidNotDeserialize),
        };
        let mut tokens: Vec<PoolToken> = Vec::new();
        let mut off: usize = TOKENS_OFFSET;
        let mut k: u64 = 0;
        while k < token_count
            invariant
                discriminator_check(data@, POOL_DISCRIMINATOR) is Ok,
                len == data@.len(),
                k <= token_count,
                token_count == le_value(data@, 122, 4),
                off == TOKENS_OFFSET + TOKEN_SIZE * k,
                off <= len,
                tokens@.len() == k,
                forall|j: int| 0 <= j < k ==> token_at(#[trigger] tokens@[j], data@, TOKENS_OFFSET + TOKEN_SIZE * j),
            decreases token_count - k,
        {
            if len - off < TOKEN_SIZE {
                proof {
                    assert(TOKEN_SIZE * (k + 1) <= TOKEN_SIZE * token_count) by (nonlinear_arith)
                        requires
                            k + 1 <= token_count,
                    ;
                }
                return Err(AccountError::AccountDidNotDeserialize);
            }
            let t = read_token(data, off);
            tokens.push(t);
            off = off + TOKEN_SIZE;
            k = k + 1;
        }
        Ok(Pool { vault, is_active, current_invariant, swap_fee, tokens })
    }

    pub fn get_normalized_weights(&self) -> (r: Vec<u64>)
        ensures
            r@ == weights_of(self.tokens@),
    {
        let mut out: Vec<u64> = Vec::new();
        let mut i: usize = 0;
        while i < self.tokens.len()
            invariant
                i <= self.tokens@.len(),
                out@ == weights_of(self.tokens@.take(i as int)),
            decreases self.tokens@.len() - i,
        {
            out.push(self.tokens[i].weight);
            proof {
                assert(weights_of(self.tokens@.take(i + 1)) =~= weights_of(self.tokens@.take(i as int)).push(
                    self.tokens@[i as int].weight,
                ));
            }
            i = i + 1;
        }
        proof {
            assert(self.tokens@.take(i as int) =~= self.tokens@);
        }
        out
    }

    pub fn get_balances(&self) -> (r: Vec<u64>)
        ensures
            r@ == balances_of(self.tokens@),
    {
        let mut out: Vec<u64> = Vec::new();
        let mut i: usize = 0;
        while i < self.tokens.len()
            invariant
                i <= self.tokens@.len(),
                out@ == balances_of(self.tokens@.take(i as int)),
            decreases self.tokens@.len() - i,
        {
            out.push(self.tokens[i].balance);
            proof {
                assert(balances_of(self.tokens@.take(i + 1)) =~= balances_of(self.tokens@.take(i as int)).push(
                    self.tokens@[i as int].balance,
                ));
            }
            i = i + 1;
        }
        proof {
            assert(self.tokens@.take(i as int) =~= self.tokens@);
        }
        out
    }

    /// The index of the token with mint `mint`, the first if several match.
    pub fn get_token_index(&self, mint: [u8; 32]) -> (r: Option<usize>)
        ensures
            r matches Some(i) ==> i < self.tokens@.len() && self.tokens@[i as int].mint == mint && forall|
                j: int,
            | 0 <= j < i ==> self.tokens@[j].mint != mint,
            r is None ==> forall|j: int| 0 <= j < self.tokens@.len() ==> self.tokens@[j].mint != mint,
    {
        let mut i: usize = 0;
        while i < self.tokens.len()
            invariant
                i <= self.tokens@.len(),
                forall|j: int| 0 <= j < i ==> self.tokens@[j].mint != mint,
            decreases self.tokens@.len() - i,
        {
            if same_key(&self.tokens[i].mint, &mint) {
                return Some(i);
            }
            i = i + 1;
        }
        None
    }

    /// Scales a token amount up or down to balance precision.
    pub fn calc_wrapped_amount(&self, amount: u64, token_index: usize) -> (r: Option<u64>)
        ensures
            r == if token_index < self.tokens@.len() {
                wrap_spec(
                    self.tokens@[token_index as int].scaling_up,
                    self.tokens@[token_index as int].scaling_factor,
                    amount,
                )
            } else {
                None
            },
    {
        if token_index >= self.tokens.len() {
            return None;
        }
        let t = &self.tokens[token_index];
        wrap_amount(t.scaling_up, t.scaling_factor, amount)
    }

    /// Scales a balance amount back to token precision.
    pub fn calc_unwrapped_amount(&self, amount: u64, token_index: usize) -> (r: Option<u64>)
        ensures
            r == if token_index < self.tokens@.len() {
                unwrap_spec(
                    self.tokens@[token_index as int].scaling_up,
                    self.tokens@[token_index as int].scaling_factor,
                    amount,
                )
            } else {
                None
            },
    {
        if token_index >= self.tokens.len() {
            return None;
        }
        let t = &self.tokens[token_index];
        unwrap_amount(t.scaling_up, t.scaling_factor, amount)
    }

    /// Rounds a token amount down so that scaling it down loses nothing.
    pub fn calc_rounded_amount(&self, amount: u64, token_index: usize) -> (r: Option<u64>)
        ensures
            r == if token_index < self.tokens@.len() {
                round_spec(
                    self.tokens@[token_index as int].scaling_up,
                    self.tokens@[token_index as int].scaling_factor,
                    amount,
                )
            } else {
                None
            },
    {
        if token_index >= self.tokens.len() {
            return None;
        }
        let t = &self.tokens[token_index];
        round_amount(t.scaling_up, t.scaling_factor, amount)
    }

    /// The amount out and the fee of swapping `amount_in` of token
    /// `token_in_index` for token `token_out_index`.
    pub fn get_swap_result(&self, token_in_index: usize, token_out_index: usize, amount_in: u64) -> (r: Option<
        (u64, u64),
    >)
        ensures
            r == weighted_swap_result_spec(*self, token_in_index as int, token_out_index as int, amount_in),
    {
        if self.current_invariant == 0 {
            return Some((0, 0));
        }
        let wrapped_amount_in = match self.calc_wrapped_amount(amount_in, token_in_index) {
            Some(v) => v,
            None => return None,
        };
        if token_out_index >= self.tokens.len() {
            return None;
        }
        let token_in = &self.tokens[token_in_index];
        let token_out = &self.tokens[token_out_index];
        let wrapped_amount_out_without_fee = match weighted_math::calc_out_given_in(
            token_in.balance,
            token_in.weight,
            token_out.balance,
            token_out.weight,
            wrapped_amount_in,
        ) {
            Some(v) => v,
            None => return None,
        };
        let wrapped_amount_out = match wrapped_amount_out_without_fee.mul_down(self.swap_fee.complement()) {
            Some(v) => v,
            None => return None,
        };
        let wrapped_amount_fee = match wrapped_amount_out_without_fee.checked_sub(wrapped_amount_out) {
            Some(v) => v,
            None => return None,
        };
        let amount_out = match self.calc_unwrapped_amount(wrapped_amount_out, token_out_index) {
            Some(v) => v,
            None => return None,
        };
        let amount_fee = match self.calc_unwrapped_amount(wrapped_amount_fee, token_out_index) {
            Some(v) => v,
            None => return None,
        };
        Some((amount_out, amount_fee))
    }
}

} // verus!

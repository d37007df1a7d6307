//! Multiply-then-divide with a chosen rounding direction, computed in double
//! width so that an intermediate product never overflows on its own.

use vstd::prelude::*;
use crate::u192::{lemma_view_bound, u192_bound, wide_opt, U192};

verus! {

/// `floor(val * num / denom)` as a `u64`: absent when `denom` is zero or the
/// quotient does not fit.
pub open spec fn mul_div_down_u64(val: nat, num: nat, denom: nat) -> Option<u64> {
    if denom == 0 || val * num / denom > u64::MAX {
        None
    } else {
        Some((val * num / denom) as u64)
    }
}

/// `ceil(val * num / denom)` as a `u64`: absent when `denom` is zero or the
/// quotient does not fit.
pub open spec fn mul_div_up_u64(val: nat, num: nat, denom: nat) -> Option<u64> {
    if denom == 0 || ((val * num + denom - 1) as nat) / denom > u64::MAX {
        None
    } else {
        Some((((val * num + denom - 1) as nat) / denom) as u64)
    }
}

/// `ceil(val / denom)` as a `u64`: absent when `denom` is zero.
pub open spec fn div_up_u64(val: nat, denom: nat) -> Option<u64> {
    if denom == 0 {
        None
    } else {
        Some((((val + denom - 1) as nat) / denom) as u64)
    }
}

/// `floor(val * num / denom)` in wide arithmetic, the product taken in double
/// width: absent only when `denom` is zero or the quotient does not fit in
/// 192 bits.
pub open spec fn wide_mul_div_down(val: nat, num: nat, denom: nat) -> Option<nat> {
    if denom == 0 || val * num / denom >= u192_bound() {
        None
    } else {
        Some(val * num / denom)
    }
}

/// `ceil(val * num / denom)` in wide arithmetic, the product taken in double
/// width: absent only when `denom` is zero or the quotient does not fit in
/// 192 bits.
pub open spec fn wide_mul_div_up(val: nat, num: nat, denom: nat) -> Option<nat> {
    if denom == 0 || ((val * num + denom - 1) as nat) / denom >= u192_bound() {
        None
    } else {
        Some(((val * num + denom - 1) as nat) / denom)
    }
}

/// `ceil(val / denom)` in wide arithmetic: [`wide_mul_div_up`] for
/// `num == 1`.
pub open spec fn wide_div_up(val: nat, denom: nat) -> Option<nat> {
    wide_mul_div_up(val, 1, denom)
}

/// `floor(val / denom)` in wide arithmetic: absent only when `denom` is zero.
pub open spec fn wide_div_down(val: nat, denom: nat) -> Option<nat> {
    if denom == 0 {
        None
    } else {
        Some(val / denom)
    }
}

/// `val * num / denom` with a chosen rounding direction. An implementation
/// returns the correct quotient whenever it fits, even where the product
/// `val * num` alone would not fit in the type.
pub trait CheckedMulDiv: Sized {
    /// `floor(val * num / denom)`.
    fn checked_mul_div_down(self, num: Self, denom: Self) -> Option<Self>;

    /// `ceil(val * num / denom)`.
    fn checked_mul_div_up(self, num: Self, denom: Self) -> Option<Self>;
}

/// Division rounding up.
pub trait CheckedDivCeil: Sized {
    /// `ceil(val / denom)`.
    fn checked_div_up(self, denom: Self) -> Option<Self>;
}

/// Division rounding down.
pub trait CheckedDivFloor: Sized {
    /// `floor(val / denom)`.
    fn checked_div_down(self, denom: Self) -> Option<Self>;
}

/// Widening to 192 bits.
pub trait Upcast {
    fn as_u192(self) -> U192;
}

/// Narrowing to 64 bits, absent when the value does not fit.
pub trait Downcast {
    fn as_u64(self) -> Option<u64>;
}

impl Upcast for u128 {
    fn as_u192(self) -> (r: U192)
        ensures
            r@ == self as nat,
    {
        U192::from_u128(self)
    }
}

impl Downcast for U192 {
    fn as_u64(self) -> (r: Option<u64>)
        ensures
            r is Some <==> self@ <= u64::MAX,
            r matches Some(v) ==> v as nat == self@,
    {
        if self.hi == 0 && self.lo <= u64::MAX as u128 {
            Some(self.lo as u64)
        } else {
            None
        }
    }
}

proof fn lemma_u64_product(a: u64, b: u64)
    ensures
        a as nat * b as nat <= u128::MAX - u64::MAX,
{
    assert(a as nat * b as nat <= u64::MAX as nat * u64::MAX as nat) by (nonlinear_arith)
        requires
            a <= u64::MAX,
            b <= u64::MAX,
    ;
}

impl CheckedMulDiv for u64 {
    fn checked_mul_div_down(self, num: u64, denom: u64) -> (r: Option<u64>)
        ensures
            r == mul_div_down_u64(self as nat, num as nat, denom as nat),
    {
        if denom == 0 {
            return None;
        }
        proof {
            lemma_u64_product(self, num);
        }
        let r = (self as u128) * (num as u128) / (denom as u128);
        if r > u64::MAX as u128 {
            None
        } else {
            Some(r as u64)
        }
    }

    fn checked_mul_div_up(self, num: u64, denom: u64) -> (r: Option<u64>)
        ensures
            r == mul_div_up_u64(self as nat, num as nat, denom as nat),
    {
        if denom == 0 {
            return None;
        }
        proof {
            lemma_u64_product(self, num);
        }
        let r = ((self as u128) * (num as u128) + (denom - 1) as u128) / (denom as u128);
        if r > u64::MAX as u128 {
            None
        } else {
            Some(r as u64)
        }
    }
}

impl CheckedDivCeil for u64 {
    fn checked_div_up(self, denom: u64) -> (r: Option<u64>)
        ensures
            r == div_up_u64(self as nat, denom as nat),
    {
        if denom == 0 {
            return None;
        }
        let r = ((self as u128) + (denom - 1) as u128) / (denom as u128);
        assert(r <= self) by {
            assert((self as nat + (denom - 1) as nat) / (denom as nat) <= self as nat)
                by (nonlinear_arith)
                requires
                    denom >= 1,
            ;
        }
        Some(r as u64)
    }
}

/// `ceil(x / c)` is the floor quotient, plus one when the division leaves a
/// remainder.
proof fn lemma_ceil_from_floor(x: nat, c: nat)
    requires
        c > 0,
    ensures
        ((x + c - 1) as nat) / c == x / c + if x % c == 0 {
            0nat
        } else {
            1nat
        },
{
    let q = x / c;
    let r = x % c;
    vstd::arithmetic::div_mod::lemma_fundamental_div_mod(x as int, c as int);
    assert(x == q * c + r) by (nonlinear_arith)
        requires
            x == c * q + r,
    ;
    if r == 0 {
        vstd::arithmetic::div_mod::lemma_fundamental_div_mod_converse(
            (x + c - 1) as int,
            c as int,
            q as int,
            (c - 1) as int,
        );
    } else {
        assert((q + 1) * c == q * c + c) by (nonlinear_arith);
        vstd::arithmetic::div_mod::lemma_fundamental_div_mod_converse(
            (x + c - 1) as int,
            c as int,
            (q + 1) as int,
            (r - 1) as int,
        );
    }
}

impl CheckedMulDiv for U192 {
    fn checked_mul_div_down(self, num: U192, denom: U192) -> (r: Option<U192>)
        ensures
            wide_opt(r) == wide_mul_div_down(self@, num@, denom@),
    {
        if denom.is_zero() {
            return None;
        }
        match self.mul_div_rem(num, denom) {
            Some(qr) => Some(qr.0),
            None => None,
        }
    }

    fn checked_mul_div_up(self, num: U192, denom: U192) -> (r: Option<U192>)
        ensures
            wide_opt(r) == wide_mul_div_up(self@, num@, denom@),
    {
        if denom.is_zero() {
            return None;
        }
        proof {
            lemma_ceil_from_floor(self@ * num@, denom@);
        }
        match self.mul_div_rem(num, denom) {
            Some(qr) => if qr.1.is_zero() {
                Some(qr.0)
            } else {
                qr.0.checked_add(U192::one())
            },
            None => None,
        }
    }
}

impl CheckedDivCeil for U192 {
    fn checked_div_up(self, denom: U192) -> (r: Option<U192>)
        ensures
            wide_opt(r) == wide_div_up(self@, denom@),
            denom@ != 0 ==> r is Some,
    {
        if denom.is_zero() {
            return None;
        }
        proof {
            lemma_ceil_at_least_floor(self@, denom@);
            lemma_ceil_from_floor(self@, denom@);
            vstd::arithmetic::div_mod::lemma_fundamental_div_mod(self@ as int, denom@ as int);
            assert(self@ * 1 == self@);
            if self@ % denom@ != 0 {
                assert(self@ / denom@ < self@) by (nonlinear_arith)
                    requires
                        self@ == denom@ * (self@ / denom@) + self@ % denom@,
                        self@ % denom@ > 0,
                        denom@ >= 1,
                ;
            }
            lemma_view_bound(self);
        }
        self.checked_mul_div_up(U192::one(), denom)
    }
}

impl CheckedDivFloor for U192 {
    fn checked_div_down(self, denom: U192) -> (r: Option<U192>)
        ensures
            wide_opt(r) == wide_div_down(self@, denom@),
    {
        self.checked_div(denom)
    }
}

proof fn lemma_ceil_at_least_floor(x: nat, c: nat)
    requires
        c > 0,
    ensures
        x / c <= ((x + c - 1) as nat) / c,
        x / c <= x,
{
    vstd::arithmetic::div_mod::lemma_div_is_ordered(x as int, (x + c - 1) as int, c as int);
    vstd::arithmetic::div_mod::lemma_div_basics_5(x as int, c as int);
}

/// Multiplying by one and dividing by one gives the value back in both
/// rounding directions, and rounding up never gives less than rounding down:
/// where the rounded-up quotient exists, so does the rounded-down one, and it
/// is not larger.
pub proof fn lemma_rounding_order(a: u64, b: u64, c: u64)
    ensures
        mul_div_down_u64(a as nat, 1, 1) == Some(a),
        mul_div_up_u64(a as nat, 1, 1) == Some(a),
        mul_div_up_u64(a as nat, b as nat, c as nat) matches Some(up) ==> (mul_div_down_u64(
            a as nat,
            b as nat,
            c as nat,
        ) matches Some(down) && down <= up),
{
    vstd::arithmetic::div_mod::lemma_div_basics(a as int);
    if c > 0 {
        lemma_ceil_at_least_floor(a as nat * b as nat, c as nat);
    }
}

/// The same order in 192-bit arithmetic: multiplying and dividing by one
/// keeps every 192-bit value, and where the rounded-up quotient
/// exists the rounded-down one does too and is not larger.
pub proof fn lemma_wide_rounding_order(a: nat, b: nat, c: nat)
    ensures
        a < u192_bound() ==> wide_mul_div_down(a, 1, 1) == Some(a),
        a < u192_bound() ==> wide_mul_div_up(a, 1, 1) == Some(a),
        wide_mul_div_up(a, b, c) matches Some(up) ==> (wide_mul_div_down(a, b, c) matches Some(
            down,
        ) && down <= up),
{
    vstd::arithmetic::div_mod::lemma_div_basics(a as int);
    if c > 0 {
        lemma_ceil_at_least_floor(a * b, c);
    }
}

} // verus!

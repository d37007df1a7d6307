//! Fixed-point scalar operations on `u64` values scaled by 10^9, each with an
//! explicit rounding direction.

use vstd::prelude::*;
use crate::fixed_exp::{pow_fixed, Fix30, FixedPowF};
use crate::safe_math::{mul_div_down_u64, mul_div_up_u64, CheckedMulDiv};

verus! {

pub const ZERO: u64 = 0;

/// The value one: 10^9.
pub const ONE: u64 = 1_000_000_000;

pub const TWO: u64 = 2_000_000_000;

pub const FOUR: u64 = 4_000_000_000;

/// Number of decimal places of a fixed-point value.
pub const SCALE: u32 = 9;

/// One in the binary fixed-point format of the power function: 2^30.
pub const BITS_ONE: u64 = 1073741824;

/// `floor(a * b / ONE)`.
pub open spec fn mul_down_spec(a: u64, b: u64) -> Option<u64> {
    mul_div_down_u64(a as nat, b as nat, ONE as nat)
}

/// `ceil(a * b / ONE)`.
pub open spec fn mul_up_spec(a: u64, b: u64) -> Option<u64> {
    mul_div_up_u64(a as nat, b as nat, ONE as nat)
}

/// `floor(a * ONE / b)`.
pub open spec fn div_down_spec(a: u64, b: u64) -> Option<u64> {
    mul_div_down_u64(a as nat, ONE as nat, b as nat)
}

/// `ceil(a * ONE / b)`.
pub open spec fn div_up_spec(a: u64, b: u64) -> Option<u64> {
    mul_div_up_u64(a as nat, ONE as nat, b as nat)
}

/// `ONE - a`, clamped at zero.
pub open spec fn complement_spec(a: u64) -> u64 {
    if a < ONE {
        (ONE - a) as u64
    } else {
        0
    }
}

/// The general case of `pow_down`: the base and exponent are converted to the
/// binary format rounding down, raised, and converted back rounding down.
pub open spec fn pow_general_down(base: u64, exp: u64) -> Option<u64> {
    match (mul_down_spec(base, BITS_ONE), mul_down_spec(exp, BITS_ONE)) {
        (Some(b), Some(e)) => match pow_fixed(b, e) {
            Some(p) => div_down_spec(p, BITS_ONE),
            None => None,
        },
        _ => None,
    }
}

/// The general case of `pow_up`: every conversion rounds up.
pub open spec fn pow_general_up(base: u64, exp: u64) -> Option<u64> {
    match (mul_up_spec(base, BITS_ONE), mul_up_spec(exp, BITS_ONE)) {
        (Some(b), Some(e)) => match pow_fixed(b, e) {
            Some(p) => div_up_spec(p, BITS_ONE),
            None => None,
        },
        _ => None,
    }
}

/// `base^exp` rounded down, with exact shortcuts for the exponents 0, 1, 2
/// and 4.
pub open spec fn pow_down_spec(base: u64, exp: u64) -> Option<u64> {
    if exp == ZERO {
        Some(ONE)
    } else if exp == ONE {
        Some(base)
    } else if exp == TWO {
        mul_down_spec(base, base)
    } else if exp == FOUR {
        match mul_down_spec(base, base) {
            Some(sq) => mul_down_spec(sq, sq),
            None => None,
        }
    } else {
        pow_general_down(base, exp)
    }
}

/// `base^exp` rounded up, with exact shortcuts for the exponents 0, 1, 2 and
/// 4.
pub open spec fn pow_up_spec(base: u64, exp: u64) -> Option<u64> {
    if exp == ZERO {
        Some(ONE)
    } else if exp == ONE {
        Some(base)
    } else if exp == TWO {
        mul_up_spec(base, base)
    } else if exp == FOUR {
        match mul_up_spec(base, base) {
            Some(sq) => mul_up_spec(sq, sq),
            None => None,
        }
    } else {
        pow_general_up(base, exp)
    }
}

/// Fixed-point power with a rounding direction.
pub trait FixedPow: Sized {
    fn pow_down(self, rhs: Self) -> Option<Self>;

    fn pow_up(self, rhs: Self) -> Option<Self>;
}

/// Fixed-point multiplication with a rounding direction.
pub trait FixedMul: Sized {
    fn mul_down(self, rhs: Self) -> Option<Self>;

    fn mul_up(self, rhs: Self) -> Option<Self>;
}

/// Fixed-point division with a rounding direction.
pub trait FixedDiv: Sized {
    fn div_down(self, rhs: Self) -> Option<Self>;

    fn div_up(self, rhs: Self) -> Option<Self>;
}

/// `ONE - x`, never below zero.
pub trait FixedComplement: Sized {
    fn complement(self) -> Self;
}

impl FixedMul for u64 {
    fn mul_down(self, rhs: u64) -> (r: Option<u64>)
        ensures
            r == mul_down_spec(self, rhs),
    {
        self.checked_mul_div_down(rhs, ONE)
    }

    fn mul_up(self, rhs: u64) -> (r: Option<u64>)
        ensures
            r == mul_up_spec(self, rhs),
    {
        self.checked_mul_div_up(rhs, ONE)
    }
}

impl FixedDiv for u64 {
    fn div_down(self, rhs: u64) -> (r: Option<u64>)
        ensures
            r == div_down_spec(self, rhs),
    {
        self.checked_mul_div_down(ONE, rhs)
    }

    fn div_up(self, rhs: u64) -> (r: Option<u64>)
        ensures
            r == div_up_spec(self, rhs),
    {
        self.checked_mul_div_up(ONE, rhs)
    }
}

impl FixedComplement for u64 {
    fn complement(self) -> (r: u64)
        ensures
            r == complement_spec(self),
    {
        ONE.saturating_sub(self)
    }
}

impl FixedPow for u64 {
    fn pow_down(self, rhs: u64) -> (r: Option<u64>)
        ensures
            r == pow_down_spec(self, rhs),
    {
        if rhs == ZERO {
            Some(ONE)
        } else if rhs == ONE {
            Some(self)
        } else if rhs == TWO {
            self.mul_down(self)
        } else if rhs == FOUR {
            let square = match self.mul_down(self) {
                Some(v) => v,
                None => return None,
            };
            square.mul_down(square)
        } else {
            let base = match self.mul_down(BITS_ONE) {
                Some(v) => Fix30::from_bits(v),
                None => return None,
            };
            let exp = match rhs.mul_down(BITS_ONE) {
                Some(v) => Fix30::from_bits(v),
                None => return None,
            };
            match base.powf(exp) {
                Some(p) => p.to_bits().div_down(BITS_ONE),
                None => None,
            }
        }
    }

    fn pow_up(self, rhs: u64) -> (r: Option<u64>)
        ensures
            r == pow_up_spec(self, rhs),
    {
        if rhs == ZERO {
            Some(ONE)
        } else if rhs == ONE {
            Some(self)
        } else if rhs == TWO {
            self.mul_up(self)
        } else if rhs == FOUR {
            let square = match self.mul_up(self) {
                Some(v) => v,
                None => return None,
            };
            square.mul_up(square)
        } else {
            let base = match self.mul_up(BITS_ONE) {
                Some(v) => Fix30::from_bits(v),
                None => return None,
            };
            let exp = match rhs.mul_up(BITS_ONE) {
                Some(v) => Fix30::from_bits(v),
                None => return None,
            };
            match base.powf(exp) {
                Some(p) => p.to_bits().div_up(BITS_ONE),
                None => None,
            }
        }
    }
}

} // verus!

//! Exponentiation of unsigned fixed-point numbers with 30 fractional bits
//! (34 integer bits), by binary exponentiation for the integer part of the
//! exponent and repeated square roots for its fractional part.

use vstd::prelude::*;
use crate::u192::two_pow;

verus! {

/// The value one: 2^30.
pub const FIX_ONE: u64 = 1073741824;

/// The highest fractional bit: 2^29.
pub const FIX_TOP_FRAC_BIT: u64 = 536870912;

/// Number of refinement steps of the square root: the bit width of the type.
pub const FIX_NUM_BITS: u64 = 64;

/// Product of two fixed-point values, truncated to 30 fractional bits; absent
/// when it does not fit in 64 bits.
pub open spec fn fixed_mul(a: u64, b: u64) -> Option<u64> {
    if (a as nat * b as nat) / (FIX_ONE as nat) <= u64::MAX {
        Some(((a as nat * b as nat) / (FIX_ONE as nat)) as u64)
    } else {
        None
    }
}

/// Relies on `fixed::FixedU64::<U30>::checked_mul` (`fixed::types::U34F30`):
/// it multiplies the raw values in double width and drops the 30 low bits of
/// the product, or returns `None` when the result does not fit in 64 bits.
#[verifier::external_body]
fn fixed_checked_mul(a: u64, b: u64) -> (r: Option<u64>)
    ensures
        r == fixed_mul(a, b),
{
    let x = fixed::types::U34F30::from_bits(a);
    let y = fixed::types::U34F30::from_bits(b);
    match x.checked_mul(y) {
        Some(v) => Some(v.to_bits()),
        None => None,
    }
}

/// Square-and-multiply over the bits of `n`, starting from accumulator `acc`
/// and base `x`; every multiplication is checked.
pub open spec fn powi_loop(acc: u64, x: u64, n: nat) -> Option<u64>
    decreases n,
{
    if n == 0 {
        Some(acc)
    } else {
        let acc2 = if n % 2 == 1 {
            fixed_mul(acc, x)
        } else {
            Some(acc)
        };
        match acc2 {
            None => None,
            Some(a) => match fixed_mul(x, x) {
                None => None,
                Some(xx) => powi_loop(a, xx, n / 2),
            },
        }
    }
}

/// `x^n` for a whole exponent `n >= 1`.
pub open spec fn powi_spec(x: u64, n: nat) -> Option<u64> {
    powi_loop(x, x, (n - 1) as nat)
}

/// First phase of the square root below one: halve `p` while `p * p` is
/// still at least `x`.
pub open spec fn sqrt_descend(x: u64, p: u64) -> Option<u64>
    decreases p,
{
    match fixed_mul(p, p) {
        None => None,
        Some(m) => if x <= m && p > 0 {
            sqrt_descend(x, p / 2)
        } else {
            Some(p)
        },
    }
}

/// First phase of the square root above one: double `p` while `p * p` is at
/// most `x`.
pub open spec fn sqrt_ascend(x: u64, p: u64) -> Option<u64>
    decreases u64::MAX - p,
{
    match fixed_mul(p, p) {
        None => None,
        Some(m) => if m <= x && 0 < p && p <= u64::MAX / 2 {
            sqrt_ascend(x, (2 * p) as u64)
        } else {
            Some(p)
        },
    }
}

/// Second phase of the square root: for each of `steps` halvings of `pow2`,
/// add the halved step to `result` where its square stays at most `x`.
pub open spec fn sqrt_refine(x: u64, result: u64, pow2: u64, steps: nat) -> Option<u64>
    decreases steps,
{
    if steps == 0 {
        Some(result)
    } else {
        let half = pow2 / 2;
        if result + half > u64::MAX {
            None
        } else {
            let next = (result + half) as u64;
            match fixed_mul(next, next) {
                None => None,
                Some(m) => sqrt_refine(
                    x,
                    if m <= x {
                        next
                    } else {
                        result
                    },
                    half,
                    (steps - 1) as nat,
                ),
            }
        }
    }
}

/// The fixed-point square root found by bisection.
pub open spec fn sqrt_spec(x: u64) -> Option<u64> {
    if x == 0 || x == FIX_ONE {
        Some(x)
    } else if x < FIX_ONE {
        match sqrt_descend(x, FIX_ONE) {
            None => None,
            Some(p) => sqrt_refine(x, p, p, FIX_NUM_BITS as nat),
        }
    } else {
        match sqrt_ascend(x, FIX_ONE) {
            None => None,
            Some(p) => sqrt_refine(x, p / 2, p, FIX_NUM_BITS as nat),
        }
    }
}

/// `x^f` for a fractional exponent given by its 30 fraction bits `n`: at each
/// step the base is replaced by its square root, and it joins the product
/// when the top fraction bit of `n` is set; `n` then moves up by one bit.
/// `acc` is the product so far, absent while no bit has been taken.
pub open spec fn powf01_loop(x: u64, n: u64, acc: Option<u64>, i: nat) -> Option<u64>
    decreases 30 - i,
{
    if i >= 30 || n == 0 {
        acc
    } else {
        match sqrt_spec(x) {
            None => None,
            Some(s) => {
                let next: Option<Option<u64>> = if n >= FIX_TOP_FRAC_BIT {
                    match acc {
                        Some(a) => match fixed_mul(a, s) {
                            Some(p) => Some(Some(p)),
                            None => None,
                        },
                        None => Some(Some(s)),
                    }
                } else {
                    Some(acc)
                };
                match next {
                    None => None,
                    Some(a2) => powf01_loop(
                        s,
                        ((2 * n as nat) % (FIX_ONE as nat)) as u64,
                        a2,
                        i + 1,
                    ),
                }
            },
        }
    }
}

/// `x^n` for a positive fixed-point exponent `n`.
pub open spec fn powf_spec(x: u64, n: u64) -> Option<u64> {
    if x == 0 {
        Some(0)
    } else {
        let whole = n / FIX_ONE;
        let frac = n % FIX_ONE;
        if whole == 0 {
            if frac == 0 {
                Some(FIX_ONE)
            } else {
                powf01_loop(x, frac, None, 0)
            }
        } else {
            match powi_spec(x, whole as nat) {
                None => None,
                Some(p) => if frac == 0 {
                    Some(p)
                } else {
                    match powf01_loop(x, frac, None, 0) {
                        None => None,
                        Some(f) => fixed_mul(p, f),
                    }
                },
            }
        }
    }
}

/// `x^n` for any fixed-point exponent: `x^0` is one (also for `x == 0`).
pub open spec fn pow_fixed(x: u64, n: u64) -> Option<u64> {
    if n == 0 {
        Some(FIX_ONE)
    } else {
        powf_spec(x, n)
    }
}

fn powi(x: u64, n: u64) -> (r: Option<u64>)
    requires
        n >= 1,
    ensures
        r == powi_spec(x, n as nat),
{
    let mut acc = x;
    let mut base = x;
    let mut k = n - 1;
    while k > 0
        invariant
            powi_loop(acc, base, k as nat) == powi_spec(x, n as nat),
        decreases k,
    {
        if k % 2 == 1 {
            acc = match fixed_checked_mul(acc, base) {
                Some(v) => v,
                None => return None,
            };
        }
        base = match fixed_checked_mul(base, base) {
            Some(v) => v,
            None => return None,
        };
        k = k / 2;
    }
    Some(acc)
}

/// `v * v` in fixed point, truncated.
pub open spec fn fixed_square(v: nat) -> nat {
    (v * v) / (FIX_ONE as nat)
}

/// The square root by bisection. Its square never exceeds `x`, and the next
/// representable value squares to at least `x` (to more than `x` from one
/// on, where it is the largest such value).
pub fn sqrt(x: u64) -> (r: Option<u64>)
    ensures
        r == sqrt_spec(x),
        r matches Some(v) ==> fixed_square(v as nat) <= x <= fixed_square((v + 1) as nat),
        r matches Some(v) ==> (x >= FIX_ONE ==> x < fixed_square((v + 1) as nat)),
{
    proof {
        lemma_square_of_one();
        assert(two_pow(30) == FIX_ONE) by {
            reveal_with_fuel(two_pow, 31);
        }
    }
    if x == 0 || x == FIX_ONE {
        proof {
            if x == 0 {
                assert(fixed_square(1) == 0);
            } else {
                lemma_fixed_square_monotone(FIX_ONE as nat + 1, FIX_ONE as nat + 1);
                assert((FIX_ONE as nat + 1) * (FIX_ONE as nat + 1) >= FIX_ONE as nat * FIX_ONE as nat + FIX_ONE as nat) by (nonlinear_arith);
                vstd::arithmetic::div_mod::lemma_div_is_ordered(
                    (FIX_ONE as nat * FIX_ONE as nat + FIX_ONE as nat) as int,
                    ((FIX_ONE as nat + 1) * (FIX_ONE as nat + 1)) as int,
                    FIX_ONE as int,
                );
                vstd::arithmetic::div_mod::lemma_div_multiples_vanish(FIX_ONE as int + 1, FIX_ONE as int);
                assert(FIX_ONE as nat * FIX_ONE as nat + FIX_ONE as nat == FIX_ONE as nat * (FIX_ONE as nat + 1)) by (nonlinear_arith);
                assert((FIX_ONE as nat + 1) * FIX_ONE as nat == FIX_ONE as nat * (FIX_ONE as nat + 1)) by (nonlinear_arith);
            }
        }
        return Some(x);
    }
    let mut pow2: u64 = FIX_ONE;
    let ghost mut k: int = 30;
    let mut result: u64;
    if x < FIX_ONE {
        loop
            invariant
                0 < x < FIX_ONE,
                fixed_square(0) == 0,
                fixed_square(FIX_ONE as nat) == FIX_ONE,
                0 <= k <= 30,
                pow2 == two_pow(k as nat),
                pow2 == FIX_ONE || x <= fixed_square((2 * pow2) as nat),
                sqrt_descend(x, pow2) == sqrt_descend(x, FIX_ONE),
            ensures
                sqrt_descend(x, FIX_ONE) == Some(pow2),
                0 <= k <= 30,
                pow2 == two_pow(k as nat),
                fixed_square(pow2 as nat) <= x <= fixed_square((2 * pow2) as nat),
            decreases pow2,
        {
            let m = match fixed_checked_mul(pow2, pow2) {
                Some(m) => m,
                None => {
                    assert(sqrt_descend(x, pow2) is None);
                    return None;
                },
            };
            assert(m as nat == fixed_square(pow2 as nat));
            if x <= m && pow2 > 0 {
                proof {
                    if k == 0 {
                        lemma_square_of_one();
                    }
                    lemma_two_pow_double((k - 1) as nat);
                    k = k - 1;
                }
                pow2 = pow2 / 2;
            } else {
                break;
            }
        }
        result = pow2;
    } else {
        loop
            invariant
                x > FIX_ONE,
                30 <= k <= 47,
                pow2 == two_pow(k as nat),
                pow2 == FIX_ONE || fixed_square((pow2 / 2) as nat) <= x,
                sqrt_ascend(x, pow2) == sqrt_ascend(x, FIX_ONE),
            ensures
                sqrt_ascend(x, FIX_ONE) == Some(pow2),
                30 <= k <= 47,
                pow2 == two_pow(k as nat),
                fixed_square((pow2 / 2) as nat) <= x < fixed_square(pow2 as nat),
            decreases u64::MAX - pow2,
        {
            let m = match fixed_checked_mul(pow2, pow2) {
                Some(m) => m,
                None => {
                    assert(sqrt_ascend(x, pow2) is None);
                    return None;
                },
            };
            assert(m as nat == fixed_square(pow2 as nat));
            proof {
                lemma_square_bound(pow2);
            }
            if m <= x && 0 < pow2 && pow2 <= u64::MAX / 2 {
                proof {
                    lemma_two_pow_double(k as nat);
                    if k == 47 {
                        assert(two_pow(47) == 0x8000_0000_0000) by {
                            reveal_with_fuel(two_pow, 48);
                        }
                    }
                    k = k + 1;
                }
                pow2 = pow2 * 2;
            } else {
                proof {
                    lemma_square_of_one();
                    lemma_two_pow_double(k as nat);
                }
                break;
            }
        }
        result = pow2 / 2;
        proof {
            lemma_two_pow_double((k - 1) as nat);
            lemma_fixed_square_monotone(pow2 as nat, (result + pow2) as nat);
        }
    }
    let ghost r0 = result;
    let ghost p0 = pow2;
    let mut i: u64 = 0;
    while i < FIX_NUM_BITS
        invariant
            i <= FIX_NUM_BITS,
            k + i <= 47,
            k >= 0 ==> pow2 == two_pow(k as nat),
            k < 0 ==> pow2 == 0,
            sqrt_refine(x, result, pow2, (FIX_NUM_BITS - i) as nat) == sqrt_refine(
                x,
                r0,
                p0,
                FIX_NUM_BITS as nat,
            ),
            sqrt_spec(x) == sqrt_refine(x, r0, p0, FIX_NUM_BITS as nat),
            fixed_square(result as nat) <= x,
            x <= fixed_square(
                (result + if pow2 == 0 {
                    1
                } else {
                    pow2
                }) as nat,
            ),
            x >= FIX_ONE ==> x < fixed_square(
                (result + if pow2 == 0 {
                    1
                } else {
                    pow2
                }) as nat,
            ),
        decreases FIX_NUM_BITS - i,
    {
        let ghost old_pow2 = pow2;
        let ghost old_result = result;
        proof {
            if k >= 1 {
                lemma_two_pow_double((k - 1) as nat);
            }
            if k == 0 {
                assert(pow2 == 1);
            }
        }
        pow2 = pow2 / 2;
        let next = match result.checked_add(pow2) {
            Some(v) => v,
            None => return None,
        };
        let m = match fixed_checked_mul(next, next) {
            Some(m) => m,
            None => return None,
        };
        assert(m as nat == fixed_square(next as nat));
        if m <= x {
            result = next;
        }
        proof {
            k = k - 1;
            if old_pow2 <= 1 {
                assert(next == old_result);
                assert(result == old_result);
            }
        }
        i = i + 1;
    }
    proof {
        assert(k < 0);
    }
    Some(result)
}

proof fn lemma_two_pow_double(k: nat)
    ensures
        two_pow(k + 1) == 2 * two_pow(k),
        two_pow(k) >= 1,
    decreases k,
{
    if k > 0 {
        lemma_two_pow_double((k - 1) as nat);
    }
}

proof fn lemma_square_bound(p: u64)
    ensures
        fixed_square(p as nat) <= u64::MAX ==> p < 0x8000_0000_0000,
{
    if p >= 0x8000_0000_0000 {
        assert(p as nat * p as nat >= 0x8000_0000_0000nat * 0x8000_0000_0000nat) by (nonlinear_arith)
            requires
                p >= 0x8000_0000_0000,
        ;
        vstd::arithmetic::div_mod::lemma_div_is_ordered(
            (0x8000_0000_0000nat * 0x8000_0000_0000nat) as int,
            (p as nat * p as nat) as int,
            FIX_ONE as int,
        );
    }
}

proof fn lemma_square_of_one()
    ensures
        fixed_square(FIX_ONE as nat) == FIX_ONE,
        fixed_square(0) == 0,
        fixed_square(1) == 0,
{
    assert(FIX_ONE as nat * FIX_ONE as nat == 1073741824nat * 1073741824nat);
    vstd::arithmetic::div_mod::lemma_div_multiples_vanish(1073741824, 1073741824);
}

proof fn lemma_fixed_square_monotone(a: nat, b: nat)
    requires
        a <= b,
    ensures
        fixed_square(a) <= fixed_square(b),
{
    assert(a * a <= b * b) by (nonlinear_arith)
        requires
            a <= b,
    ;
    vstd::arithmetic::div_mod::lemma_div_is_ordered((a * a) as int, (b * b) as int, FIX_ONE as int);
}

fn powf01(x: u64, n: u64) -> (r: Option<u64>)
    ensures
        r == powf01_loop(x, n, None, 0),
{
    let mut base = x;
    let mut bits = n;
    let mut acc: Option<u64> = None;
    let mut i: u64 = 0;
    while i < 30 && bits != 0
        invariant
            i <= 30,
            powf01_loop(base, bits, acc, i as nat) == powf01_loop(x, n, None, 0),
        decreases 30 - i,
    {
        base = match sqrt(base) {
            Some(s) => s,
            None => return None,
        };
        if bits >= FIX_TOP_FRAC_BIT {
            acc = match acc {
                Some(a) => match fixed_checked_mul(a, base) {
                    Some(p) => Some(p),
                    None => return None,
                },
                None => Some(base),
            };
        }
        bits = ((2 * (bits as u128)) % (FIX_ONE as u128)) as u64;
        i = i + 1;
    }
    acc
}

fn powf(x: u64, n: u64) -> (r: Option<u64>)
    ensures
        r == powf_spec(x, n),
{
    if x == 0 {
        return Some(0);
    }
    let whole = n / FIX_ONE;
    let frac = n % FIX_ONE;
    if whole == 0 {
        if frac == 0 {
            Some(FIX_ONE)
        } else {
            powf01(x, frac)
        }
    } else {
        let p = match powi(x, whole) {
            Some(p) => p,
            None => return None,
        };
        if frac == 0 {
            Some(p)
        } else {
            let f = match powf01(x, frac) {
                Some(f) => f,
                None => return None,
            };
            fixed_checked_mul(p, f)
        }
    }
}

/// An unsigned fixed-point number with 34 integer and 30 fractional bits,
/// held as its raw bits: the value is `bits / 2^30`.
#[derive(Clone, Copy, Debug, PartialEq, Eq, Structural)]
pub struct Fix30 {
    pub bits: u64,
}

impl Fix30 {
    pub fn from_bits(bits: u64) -> (r: Fix30)
        ensures
            r.bits == bits,
    {
        Fix30 { bits }
    }

    pub fn to_bits(self) -> (r: u64)
        ensures
            r == self.bits,
    {
        self.bits
    }
}

/// Raising a fixed-point number to a fixed-point power.
pub trait FixedPowF: Sized {
    /// `self^n`, or `None` on overflow.
    fn powf(self, n: Self) -> Option<Self>;
}

impl FixedPowF for Fix30 {
    fn powf(self, n: Fix30) -> (r: Option<Fix30>)
        ensures
            r matches Some(v) ==> pow_fixed(self.bits, n.bits) == Some(v.bits),
            r is None <==> pow_fixed(self.bits, n.bits) is None,
    {
        if n.bits == 0 {
            return Some(Fix30 { bits: FIX_ONE });
        }
        match powf(self.bits, n.bits) {
            Some(b) => Some(Fix30 { bits: b }),
            None => None,
        }
    }
}

} // verus!

//! A 192-bit unsigned integer with checked arithmetic.

use vstd::prelude::*;

verus! {

/// 2^192: one more than the largest value a [`U192`] holds.
pub open spec fn u192_bound() -> nat {
    0x1_0000_0000_0000_0000_0000_0000_0000_0000_0000_0000_0000_0000nat
}

/// 2^k.
pub open spec fn two_pow(k: nat) -> nat
    decreases k,
{
    if k == 0 {
        1
    } else {
        2 * two_pow((k - 1) as nat)
    }
}

/// The numeric value of an optional wide integer.
pub open spec fn wide_opt(r: Option<U192>) -> Option<nat> {
    match r {
        Some(v) => Some(v@),
        None => None,
    }
}

/// `a + b`, absent when it does not fit in 192 bits.
pub open spec fn wide_add(a: nat, b: nat) -> Option<nat> {
    if a + b < u192_bound() {
        Some(a + b)
    } else {
        None
    }
}

/// `a - b`, absent when it would be negative.
pub open spec fn wide_sub(a: nat, b: nat) -> Option<nat> {
    if b <= a {
        Some((a - b) as nat)
    } else {
        None
    }
}

/// `a * b`, absent when it does not fit in 192 bits.
pub open spec fn wide_mul(a: nat, b: nat) -> Option<nat> {
    if a * b < u192_bound() {
        Some(a * b)
    } else {
        None
    }
}

/// `floor(a / b)`, absent when `b` is zero.
pub open spec fn wide_div(a: nat, b: nat) -> Option<nat> {
    if b != 0 {
        Some(a / b)
    } else {
        None
    }
}

/// `2 * v` with the bit shifted out at the top dropped.
pub open spec fn shl1_value(v: nat) -> nat {
    if v * 2 < u192_bound() {
        v * 2
    } else {
        (v * 2 - u192_bound()) as nat
    }
}

/// `floor(v / 2)`.
pub open spec fn shr1_value(v: nat) -> nat {
    v / 2
}

/// An unsigned integer of 192 bits, held as a 64-bit high part and a 128-bit
/// low part. Every pair of parts is a valid value.
#[derive(Clone, Copy, Debug, PartialEq, Eq, Structural)]
pub struct U192 {
    pub hi: u64,
    pub lo: u128,
}

impl View for U192 {
    type V = nat;

    open spec fn view(&self) -> nat {
        self.hi as nat * 0x1_0000_0000_0000_0000_0000_0000_0000_0000nat + self.lo as nat
    }
}

pub proof fn lemma_view_bound(v: U192)
    ensures
        v@ < u192_bound(),
{
}

impl U192 {
    pub fn zero() -> (r: U192)
        ensures
            r@ == 0,
    {
        U192 { hi: 0, lo: 0 }
    }

    pub fn one() -> (r: U192)
        ensures
            r@ == 1,
    {
        U192 { hi: 0, lo: 1 }
    }

    pub fn from_u64(v: u64) -> (r: U192)
        ensures
            r@ == v as nat,
    {
        U192 { hi: 0, lo: v as u128 }
    }

    pub fn from_u128(v: u128) -> (r: U192)
        ensures
            r@ == v as nat,
    {
        U192 { hi: 0, lo: v }
    }

    /// The value as a `u128`, if it fits.
    pub fn as_u128(self) -> (r: Option<u128>)
        ensures
            r is Some <==> self@ <= u128::MAX,
            r matches Some(v) ==> v as nat == self@,
    {
        if self.hi == 0 {
            Some(self.lo)
        } else {
            None
        }
    }

    pub fn is_zero(&self) -> (r: bool)
        ensures
            r <==> self@ == 0,
    {
        self.hi == 0 && self.lo == 0
    }

    pub fn is_odd(&self) -> (r: bool)
        ensures
            r <==> self@ % 2 == 1,
    {
        let r = self.lo % 2 == 1;
        proof {
            let q = self.hi as int * 0x8000_0000_0000_0000_0000_0000_0000_0000int + self.lo as int / 2;
            vstd::arithmetic::div_mod::lemma_fundamental_div_mod_converse(
                self@ as int,
                2,
                q,
                self.lo as int % 2,
            );
        }
        r
    }

    pub fn lt(&self, rhs: &U192) -> (r: bool)
        ensures
            r <==> self@ < rhs@,
    {
        self.hi < rhs.hi || (self.hi == rhs.hi && self.lo < rhs.lo)
    }

    pub fn le(&self, rhs: &U192) -> (r: bool)
        ensures
            r <==> self@ <= rhs@,
    {
        self.hi < rhs.hi || (self.hi == rhs.hi && self.lo <= rhs.lo)
    }

    pub fn checked_add(self, rhs: U192) -> (r: Option<U192>)
        ensures
            wide_opt(r) == wide_add(self@, rhs@),
    {
        let (lo, carry) = if self.lo <= u128::MAX - rhs.lo {
            (self.lo + rhs.lo, 0u64)
        } else {
            (self.lo - (u128::MAX - rhs.lo) - 1, 1u64)
        };
        let hi = match self.hi.checked_add(rhs.hi) {
            Some(h) => h,
            None => return None,
        };
        let hi = match hi.checked_add(carry) {
            Some(h) => h,
            None => return None,
        };
        Some(U192 { hi, lo })
    }

    pub fn checked_sub(self, rhs: U192) -> (r: Option<U192>)
        ensures
            wide_opt(r) == wide_sub(self@, rhs@),
    {
        let (lo, borrow) = if rhs.lo <= self.lo {
            (self.lo - rhs.lo, 0u64)
        } else {
            (u128::MAX - (rhs.lo - self.lo) + 1, 1u64)
        };
        let hi = match self.hi.checked_sub(rhs.hi) {
            Some(h) => h,
            None => return None,
        };
        let hi = match hi.checked_sub(borrow) {
            Some(h) => h,
            None => return None,
        };
        Some(U192 { hi, lo })
    }

    /// Sum of two values whose sum is known to fit.
    pub fn plus(self, rhs: U192) -> (r: U192)
        requires
            self@ + rhs@ < u192_bound(),
        ensures
            r@ == self@ + rhs@,
    {
        let (lo, carry) = if self.lo <= u128::MAX - rhs.lo {
            (self.lo + rhs.lo, 0u64)
        } else {
            (self.lo - (u128::MAX - rhs.lo) - 1, 1u64)
        };
        U192 { hi: self.hi + rhs.hi + carry, lo }
    }

    /// Difference of two values, the second not above the first.
    pub fn minus(self, rhs: U192) -> (r: U192)
        requires
            rhs@ <= self@,
        ensures
            r@ == self@ - rhs@,
    {
        let (lo, borrow) = if rhs.lo <= self.lo {
            (self.lo - rhs.lo, 0u64)
        } else {
            (u128::MAX - (rhs.lo - self.lo) + 1, 1u64)
        };
        U192 { hi: self.hi - rhs.hi - borrow, lo }
    }

    /// Shift left by one bit; the bit shifted out at the top is lost.
    pub fn shl1(self) -> (r: U192)
        ensures
            r@ == shl1_value(self@),
    {
        let (lo, carry) = if self.lo >= 0x8000_0000_0000_0000_0000_0000_0000_0000u128 {
            ((self.lo - 0x8000_0000_0000_0000_0000_0000_0000_0000u128) * 2, 1u64)
        } else {
            (self.lo * 2, 0u64)
        };
        let hi = if self.hi >= 0x8000_0000_0000_0000u64 {
            (self.hi - 0x8000_0000_0000_0000u64) * 2 + carry
        } else {
            self.hi * 2 + carry
        };
        U192 { hi, lo }
    }

    /// Shift right by one bit.
    pub fn shr1(self) -> (r: U192)
        ensures
            r@ == shr1_value(self@),
    {
        let lo = self.lo / 2 + (self.hi as u128 % 2) * 0x8000_0000_0000_0000_0000_0000_0000_0000u128;
        let r = U192 { hi: self.hi / 2, lo };
        proof {
            vstd::arithmetic::div_mod::lemma_fundamental_div_mod_converse(
                self@ as int,
                2,
                r@ as int,
                self.lo as int % 2,
            );
        }
        r
    }

    pub fn checked_mul(self, rhs: U192) -> (r: Option<U192>)
        ensures
            wide_opt(r) == wide_mul(self@, rhs@),
    {
        let mut acc = U192::zero();
        let mut a = self;
        let mut b = rhs;
        while !b.is_zero()
            invariant
                acc@ + a@ * b@ == self@ * rhs@,
            decreases b@,
        {
            let ghost b0 = b@;
            let ghost a0 = a@;
            let ghost acc0 = acc@;
            proof {
                assert(a0 * b0 >= a0) by (nonlinear_arith)
                    requires
                        b0 >= 1,
                ;
            }
            let odd = b.is_odd();
            proof {
                if odd {
                    assert(a0 * (b0 % 2) == a0) by (nonlinear_arith)
                        requires
                            b0 % 2 == 1,
                    ;
                } else {
                    assert(a0 * (b0 % 2) == 0) by (nonlinear_arith)
                        requires
                            b0 % 2 == 0,
                    ;
                }
            }
            if odd {
                acc = match acc.checked_add(a) {
                    Some(v) => v,
                    None => return None,
                };
            }
            b = b.shr1();
            proof {
                let h = b0 / 2;
                assert(a0 * b0 == 2 * a0 * h + a0 * (b0 % 2)) by (nonlinear_arith)
                    requires
                        b0 == 2 * h + b0 % 2,
                ;
            }
            if !b.is_zero() {
                proof {
                    let h = b@;
                    assert(2 * a0 * h >= 2 * a0) by (nonlinear_arith)
                        requires
                            h >= 1,
                    ;
                }
                a = match a.checked_add(a) {
                    Some(v) => v,
                    None => return None,
                };
                proof {
                    let h = b@;
                    assert(a@ * h == 2 * a0 * h) by (nonlinear_arith)
                        requires
                            a@ == 2 * a0,
                    ;
                }
            } else {
                proof {
                    assert(2 * a0 * 0 == 0) by (nonlinear_arith);
                }
            }
        }
        Some(acc)
    }

    pub fn checked_div(self, denom: U192) -> (r: Option<U192>)
        ensures
            wide_opt(r) == wide_div(self@, denom@),
    {
        if denom.is_zero() {
            return None;
        }
        Some(self.div_rem(denom).0)
    }

    /// Quotient and remainder of a division by a nonzero value.
    pub fn div_rem(self, denom: U192) -> (r: (U192, U192))
        requires
            denom@ != 0,
        ensures
            r.0@ == self@ / denom@,
            r.1@ == self@ % denom@,
    {
        let n = self;
        let d = denom;
        let mut ds = d;
        let mut bit = U192::one();
        let ghost mut k: nat = 0;
        loop
            invariant
                d@ > 0,
                bit@ == two_pow(k),
                ds@ == d@ * bit@,
                ds@ >= d@,
                ds@ <= n@ || k == 0,
            ensures
                bit@ == two_pow(k),
                ds@ == d@ * bit@,
                n@ < 2 * ds@,
            decreases n@ - ds@ + d@,
        {
            let rest = match n.checked_sub(ds) {
                Some(v) => v,
                None => break,
            };
            if rest.lt(&ds) {
                break;
            }
            proof {
                assert(d@ * (2 * bit@) == 2 * (d@ * bit@)) by (nonlinear_arith);
                assert(bit@ <= ds@) by (nonlinear_arith)
                    requires
                        ds@ == d@ * bit@,
                        d@ >= 1,
                ;
            }
            ds = ds.plus(ds);
            bit = bit.plus(bit);
            proof {
                k = k + 1;
            }
        }
        let mut q = U192::zero();
        let mut r = n;
        loop
            invariant
                d@ > 0,
                bit@ == two_pow(k),
                ds@ == d@ * bit@,
                n@ == q@ * d@ + r@,
                r@ < 2 * ds@,
            ensures
                n@ == q@ * d@ + r@,
                r@ < d@,
            decreases k,
        {
            if ds.le(&r) {
                proof {
                    assert((q@ + bit@) * d@ == q@ * d@ + ds@) by (nonlinear_arith)
                        requires
                            ds@ == d@ * bit@,
                    ;
                    assert(q@ + bit@ <= (q@ + bit@) * d@) by (nonlinear_arith)
                        requires
                            d@ >= 1,
                    ;
                    lemma_view_bound(n);
                }
                r = r.minus(ds);
                q = q.plus(bit);
            }
            assert(r@ < ds@);
            if bit.hi == 0 && bit.lo == 1 {
                proof {
                    if k > 0 {
                        lemma_two_pow_even((k - 1) as nat);
                    }
                    assert(d@ * 1 == d@);
                }
                break;
            }
            proof {
                if k == 0 {
                    assert(bit@ == 1);
                }
                let h = two_pow((k - 1) as nat);
                assert(ds@ == 2 * (d@ * h)) by (nonlinear_arith)
                    requires
                        ds@ == d@ * bit@,
                        bit@ == 2 * h,
                ;
            }
            ds = ds.shr1();
            bit = bit.shr1();
            proof {
                k = (k - 1) as nat;
            }
        }
        proof {
            vstd::arithmetic::div_mod::lemma_fundamental_div_mod_converse(
                n@ as int,
                d@ as int,
                q@ as int,
                r@ as int,
            );
        }
        (q, r)
    }

    /// `floor(self * num / denom)` and the remainder, with the product taken
    /// in double width: absent only when the quotient does not fit in 192
    /// bits.
    pub fn mul_div_rem(self, num: U192, denom: U192) -> (r: Option<(U192, U192)>)
        requires
            denom@ != 0,
        ensures
            r is Some <==> (self@ * num@) / denom@ < u192_bound(),
            r matches Some(qr) ==> qr.0@ == (self@ * num@) / denom@ && qr.1@ == (self@ * num@)
                % denom@,
    {
        let ghost total = self@ * num@;
        let ghost c = denom@;
        let (xq0, xr0) = self.div_rem(denom);
        proof {
            vstd::arithmetic::div_mod::lemma_fundamental_div_mod(self@ as int, c as int);
            assert(self@ == xq0@ * c + xr0@) by (nonlinear_arith)
                requires
                    self@ == c * (self@ / c) + self@ % c,
                    xq0@ == self@ / c,
                    xr0@ == self@ % c,
            ;
            assert(total == 0 * c + 0 + (xq0@ * c + xr0@) * num@) by (nonlinear_arith)
                requires
                    total == self@ * num@,
                    self@ == xq0@ * c + xr0@,
            ;
        }
        let mut xq = xq0;
        let mut xr = xr0;
        let mut aq = U192::zero();
        let mut ar = U192::zero();
        let mut b = num;
        while !b.is_zero()
            invariant
                total == self@ * num@,
                c == denom@,
                c > 0,
                ar@ < c,
                xr@ < c,
                total == aq@ * c + ar@ + (xq@ * c + xr@) * b@,
            decreases b@,
        {
            let ghost b0 = b@;
            let ghost x0 = xq@ * c + xr@;
            let ghost acc0 = aq@ * c + ar@;
            proof {
                assert(x0 * b0 >= x0) by (nonlinear_arith)
                    requires
                        b0 >= 1,
                ;
            }
            let odd = b.is_odd();
            if odd {
                let (s, carry) = add_mod(ar, xr, denom);
                let ghost k: nat = aq@ + xq@ + if carry {
                    1nat
                } else {
                    0nat
                };
                proof {
                    assert(k * c + s@ == acc0 + x0) by (nonlinear_arith)
                        requires
                            k == aq@ + xq@ + (if carry {
                                1nat
                            } else {
                                0nat
                            }),
                            ar@ + xr@ == (if carry {
                                c
                            } else {
                                0
                            }) + s@,
                            acc0 == aq@ * c + ar@,
                            x0 == xq@ * c + xr@,
                    ;
                    assert(k * c <= total);
                }
                let t = match aq.checked_add(xq) {
                    Some(t) => t,
                    None => {
                        proof {
                            lemma_quotient_at_least(total, c, k);
                        }
                        return None;
                    },
                };
                let t = if carry {
                    match t.checked_add(U192::one()) {
                        Some(t) => t,
                        None => {
                            proof {
                                lemma_quotient_at_least(total, c, k);
                            }
                            return None;
                        },
                    }
                } else {
                    t
                };
                aq = t;
                ar = s;
            }
            let ghost acc1 = aq@ * c + ar@;
            proof {
                if odd {
                    assert(x0 * (b0 % 2) == x0) by (nonlinear_arith)
                        requires
                            b0 % 2 == 1,
                    ;
                } else {
                    assert(x0 * (b0 % 2) == 0) by (nonlinear_arith)
                        requires
                            b0 % 2 == 0,
                    ;
                }
                assert(acc1 == acc0 + x0 * (b0 % 2));
            }
            b = b.shr1();
            proof {
                let h = b0 / 2;
                assert(x0 * b0 == 2 * x0 * h + x0 * (b0 % 2)) by (nonlinear_arith)
                    requires
                        b0 == 2 * h + b0 % 2,
                ;
                assert(total == acc1 + 2 * x0 * h);
            }
            if !b.is_zero() {
                let (s, carry) = add_mod(xr, xr, denom);
                let ghost k: nat = 2 * xq@ + if carry {
                    1nat
                } else {
                    0nat
                };
                proof {
                    let h = b@;
                    assert(k * c + s@ == 2 * x0) by (nonlinear_arith)
                        requires
                            k == 2 * xq@ + (if carry {
                                1nat
                            } else {
                                0nat
                            }),
                            xr@ + xr@ == (if carry {
                                c
                            } else {
                                0
                            }) + s@,
                            x0 == xq@ * c + xr@,
                    ;
                    assert(2 * x0 * h >= 2 * x0) by (nonlinear_arith)
                        requires
                            h >= 1,
                    ;
                    assert(k * c <= total);
                }
                let t = match xq.checked_add(xq) {
                    Some(t) => t,
                    None => {
                        proof {
                            lemma_quotient_at_least(total, c, k);
                        }
                        return None;
                    },
                };
                let t = if carry {
                    match t.checked_add(U192::one()) {
                        Some(t) => t,
                        None => {
                            proof {
                                lemma_quotient_at_least(total, c, k);
                            }
                            return None;
                        },
                    }
                } else {
                    t
                };
                xq = t;
                xr = s;
                proof {
                    let h = b@;
                    assert((xq@ * c + xr@) * h == 2 * x0 * h) by (nonlinear_arith)
                        requires
                            xq@ * c + xr@ == 2 * x0,
                    ;
                }
            } else {
                proof {
                    assert(2 * x0 * 0 == 0) by (nonlinear_arith);
                    assert((xq@ * c + xr@) * 0 == 0) by (nonlinear_arith);
                }
            }
        }
        proof {
            assert((xq@ * c + xr@) * 0 == 0) by (nonlinear_arith);
            vstd::arithmetic::div_mod::lemma_fundamental_div_mod_converse(
                total as int,
                c as int,
                aq@ as int,
                ar@ as int,
            );
            lemma_view_bound(aq);
        }
        Some((aq, ar))
    }
}

/// `(x + y) mod c` for `x, y < c`, and whether the sum reached `c`.
fn add_mod(x: U192, y: U192, c: U192) -> (r: (U192, bool))
    requires
        x@ < c@,
        y@ < c@,
    ensures
        r.0@ < c@,
        x@ + y@ == (if r.1 {
            c@
        } else {
            0
        }) + r.0@,
{
    proof {
        lemma_view_bound(c);
    }
    let room = c.minus(y);
    if x.lt(&room) {
        (x.plus(y), false)
    } else {
        (x.minus(room), true)
    }
}

proof fn lemma_quotient_at_least(total: nat, c: nat, k: nat)
    requires
        c > 0,
        k * c <= total,
        k >= u192_bound(),
    ensures
        total / c >= u192_bound(),
{
    vstd::arithmetic::div_mod::lemma_div_is_ordered((k * c) as int, total as int, c as int);
    vstd::arithmetic::div_mod::lemma_div_multiples_vanish(k as int, c as int);
    assert(c * k == k * c) by (nonlinear_arith);
}

proof fn lemma_two_pow_even(k: nat)
    ensures
        two_pow(k + 1) == 2 * two_pow(k),
        two_pow(k + 1) >= 2,
    decreases k,
{
    if k > 0 {
        lemma_two_pow_even((k - 1) as nat);
    }
}

/// Shifting left by one bit doubles a value whose double fits, and shifting
/// right by one bit halves it, rounding down.
pub proof fn lemma_shift_is_arithmetic(v: nat)
    requires
        v < u192_bound(),
    ensures
        wide_mul(v, 2) matches Some(d) ==> shl1_value(v) == d,
        wide_div(v, 2) == Some(shr1_value(v)),
{
}

} // verus!

use stabble_math::safe_math::{CheckedDivCeil, CheckedDivFloor, CheckedMulDiv, Downcast, Upcast};
use stabble_math::u192::U192;

fn w(v: u128) -> U192 {
    U192::from_u128(v)
}

#[test]
fn test_shift_for_div_by_2() {
    assert_eq!(w(u128::MAX).shr1(), w(u128::MAX).checked_div(w(2)).unwrap());
}

#[test]
fn test_shift_for_mul_by_2() {
    assert_eq!(w(u128::MAX).shl1(), w(u128::MAX).checked_mul(w(2)).unwrap());
}

#[test]
fn test_casting_overflow() {
    assert_eq!(U192::from_u64(0), U192::zero());
    assert_eq!(U192::one().as_u64().unwrap(), 1);
    assert_eq!(U192::from_u64(u64::MAX).as_u64().unwrap(), u64::MAX);
    assert_eq!(U192::from_u64(u64::MAX).checked_add(U192::one()).unwrap().as_u64(), None);
    assert_eq!(w(u128::MAX).as_u128().unwrap(), u128::MAX);
    assert_eq!(w(u128::MAX), u128::MAX.as_u192());
}

#[test]
fn wide_shift_of_odd_values() {
    assert_eq!(w(7).shr1(), w(3));
    assert_eq!(w(7).shl1(), w(14));
    let top = U192 { hi: u64::MAX, lo: u128::MAX };
    assert_eq!(top.shl1(), U192 { hi: u64::MAX, lo: u128::MAX - 1 });
    assert_eq!(top.shr1(), U192 { hi: u64::MAX >> 1, lo: u128::MAX });
}

#[test]
fn wide_add_sub_carry_and_bounds() {
    let big = w(u128::MAX).checked_add(w(1)).unwrap();
    assert_eq!(big, U192 { hi: 1, lo: 0 });
    assert_eq!(big.checked_sub(w(1)).unwrap(), w(u128::MAX));
    assert_eq!(w(1).checked_sub(w(2)), None);
    let top = U192 { hi: u64::MAX, lo: u128::MAX };
    assert_eq!(top.checked_add(w(1)), None);
}

#[test]
fn wide_mul_div_exact_values() {
    let a = w(u128::MAX);
    let b = w(3);
    let p = a.checked_mul(b).unwrap();
    assert_eq!(p.checked_div(b).unwrap(), a);
    assert_eq!(p.checked_div(a).unwrap(), b);
    assert_eq!(a.checked_mul(a), None);
    assert_eq!(a.checked_div(U192::zero()), None);
    assert_eq!(w(100).checked_div(w(7)).unwrap(), w(14));
}

#[test]
fn wide_mul_div_rounding() {
    assert_eq!(w(10).checked_mul_div_down(w(10), w(3)).unwrap(), w(33));
    assert_eq!(w(10).checked_mul_div_up(w(10), w(3)).unwrap(), w(34));
    assert_eq!(w(10).checked_mul_div_down(w(10), w(0)), None);
    assert_eq!(w(9).checked_div_up(w(2)).unwrap(), w(5));
    assert_eq!(w(9).checked_div_down(w(2)).unwrap(), w(4));
    let big = U192 { hi: 1, lo: 0 };
    assert_eq!(big.checked_div_down(w(1)).unwrap(), big);
    assert_eq!(big.checked_div_up(w(1)).unwrap(), big);
    assert_eq!(big.checked_mul_div_down(w(1), w(2)).unwrap(), w(1u128 << 127));
}

#[test]
fn wide_mul_div_fails_only_when_the_quotient_does_not_fit() {
    let top = U192 { hi: u64::MAX, lo: u128::MAX };
    let twice_max = U192 { hi: 1, lo: u128::MAX - 1 };
    assert_eq!(w(u128::MAX).checked_mul_div_down(w(2), w(1)).unwrap(), twice_max);
    assert_eq!(w(u128::MAX).checked_mul_div_up(w(2), w(1)).unwrap(), twice_max);
    // the product top * top needs 384 bits, the quotient fits
    assert_eq!(top.checked_mul_div_down(top, top).unwrap(), top);
    assert_eq!(top.checked_mul_div_up(top, top).unwrap(), top);
    assert_eq!(top.checked_mul_div_down(w(3), w(4)).unwrap(), U192 { hi: 0xBFFF_FFFF_FFFF_FFFF, lo: u128::MAX });
    assert_eq!(top.checked_mul_div_up(w(3), w(4)).unwrap(), U192 { hi: 0xC000_0000_0000_0000, lo: 0 });
    assert_eq!(top.checked_mul_div_down(top, top.checked_sub(w(1)).unwrap()), None);
    assert_eq!(top.checked_mul_div_down(w(2), w(1)), None);
    assert_eq!(top.checked_mul_div_up(top, top.checked_sub(w(1)).unwrap()), None);
    assert_eq!(w(7).checked_mul_div_up(w(1), w(0)), None);
    assert_eq!(top.checked_div_up(w(1)).unwrap(), top);
    assert_eq!(top.checked_div_up(w(2)).unwrap(), U192 { hi: 1 << 63, lo: 0 });
}

#[test]
fn u64_mul_div_beyond_64_bit_product() {
    assert_eq!(u64::MAX.checked_mul_div_down(4, 8).unwrap(), u64::MAX / 2);
    assert_eq!(u64::MAX.checked_mul_div_up(4, 8).unwrap(), u64::MAX / 2 + 1);
    assert_eq!(u64::MAX.checked_mul_div_down(2, 1), None);
    assert_eq!(5u64.checked_mul_div_down(1, 0), None);
    assert_eq!(5u64.checked_div_up(2).unwrap(), 3);
    assert_eq!(5u64.checked_div_up(0), None);
}

#[test]
fn mul_div_by_one_round_trip() {
    for a in [0u64, 1, 7, 1_000_000_000, u64::MAX] {
        assert_eq!(a.checked_mul_div_down(1, 1).unwrap(), a);
        assert_eq!(a.checked_mul_div_up(1, 1).unwrap(), a);
    }
    for (a, b, c) in [(7u64, 3u64, 2u64), (10, 10, 3), (u64::MAX, 3, 7), (5, 0, 9)] {
        assert!(a.checked_mul_div_up(b, c).unwrap() >= a.checked_mul_div_down(b, c).unwrap());
    }
}

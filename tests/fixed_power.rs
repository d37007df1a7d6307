use fixed::types::U34F30;
use stabble_math::fixed_exp::{Fix30, FixedPowF};
use stabble_math::fixed_math::{FixedComplement, FixedDiv, FixedMul, FixedPow, ONE};
use stabble_math::weighted_math::MAX_SAFE_BALANCE;

fn delta(a: U34F30, b: U34F30) -> U34F30 {
    if a > b {
        a - b
    } else {
        b - a
    }
}

fn powf_float(x: U34F30, n: U34F30) -> U34F30 {
    let x: f64 = x.to_num();
    let n: f64 = n.to_num();
    U34F30::from_num(x.powf(n))
}

fn powf_lib(x: U34F30, n: U34F30) -> U34F30 {
    let r = Fix30::from_bits(x.to_bits()).powf(Fix30::from_bits(n.to_bits())).unwrap();
    U34F30::from_bits(r.to_bits())
}

#[test]
fn test_powf() {
    let epsilon = U34F30::from_num(0.0001);

    let test_cases = &[
        (U34F30::from_num(1.0), U34F30::from_num(7.2)),
        (U34F30::from_num(0.8), U34F30::from_num(4.5)),
        (U34F30::from_num(1.2), U34F30::from_num(5.0)),
        (U34F30::from_num(2.6), U34F30::from_num(6.7)),
        (U34F30::from_num(1.6), U34F30::from_num(0.1)),
        (U34F30::from_num(5.9), U34F30::from_num(0.3)),
        (U34F30::from_num(3.1), U34F30::from_num(0.5)),
        (U34F30::from_num(9.4), U34F30::from_num(0.7)),
        (U34F30::from_num(0.7), U34F30::from_num(0.9)),
    ];

    for &(x, n) in test_cases {
        assert!(delta(powf_float(x, n), powf_lib(x, n)) < epsilon);
    }
}

#[test]
fn powf_exact_values() {
    let four = U34F30::from_num(4.0);
    assert_eq!(powf_lib(four, U34F30::from_num(1.5)), U34F30::from_num(8.0));
    assert_eq!(powf_lib(four, U34F30::from_num(2.0)), U34F30::from_num(16.0));
    assert_eq!(powf_lib(four, U34F30::from_num(0.5)), U34F30::from_num(2.0));
    let zero = Fix30::from_bits(0);
    let one_bits = 1u64 << 30;
    assert_eq!(zero.powf(Fix30::from_bits(0)).unwrap().to_bits(), one_bits);
    assert_eq!(zero.powf(Fix30::from_bits(3 << 30)).unwrap().to_bits(), 0);
    assert_eq!(Fix30::from_bits(5 << 30).powf(Fix30::from_bits(0)).unwrap().to_bits(), one_bits);
    // 2^40 does not fit in 34 integer bits
    assert_eq!(Fix30::from_bits(2 << 30).powf(Fix30::from_bits(40 << 30)), None);
}

pub const MAX_INVARIANT_RATIO: u64 = 999_999_999; // 0.999999999
pub const MIN_INVARIANT_RATIO: u64 = 700_000_000; // 0.7

pub const AVAILABLE_WEIGHTS: [u64; 30] = [
    100_000_000,
    150_000_000,
    200_000_000,
    250_000_000,
    300_000_000,
    350_000_000,
    400_000_000,
    450_000_000,
    500_000_000,
    550_000_000,
    600_000_000,
    650_000_000,
    700_000_000,
    750_000_000,
    800_000_000,
    900_000_000,
    111_111_111,
    137_137_137,
    222_222_222,
    247_247_247,
    333_333_333,
    377_377_377,
    444_444_444,
    473_473_473,
    555_555_555,
    589_589_589,
    666_666_666,
    699_888_999,
    777_777_777,
    888_888_888,
];

fn check_epsilon(exact: u64, similar: u64) {
    let diff = if exact > similar { exact - similar } else { similar - exact };
    assert!(diff.div_up(exact).unwrap() < 100);
}

#[test]
fn test_powers_for_invariant() {
    for normalized_weight in AVAILABLE_WEIGHTS {
        let value = ((MAX_SAFE_BALANCE as f64 / 1e9).powf(normalized_weight as f64 / 1e9) * 1e9) as u64;
        let value_1 = MAX_SAFE_BALANCE.pow_down(normalized_weight).unwrap();
        let value_2 = MAX_SAFE_BALANCE.pow_up(normalized_weight).unwrap();
        check_epsilon(value, value_1);
        check_epsilon(value, value_2);
        assert!(value_2 >= value_1);
    }
}

#[test]
fn test_powers_for_deposit() {
    for normalized_weight in AVAILABLE_WEIGHTS {
        let value = ((MIN_INVARIANT_RATIO as f64 / 1e9).powf(normalized_weight as f64 / 1e9) * 1e9) as u64;
        let value_1 = MIN_INVARIANT_RATIO.pow_down(normalized_weight).unwrap();
        let value_2 = MIN_INVARIANT_RATIO.pow_up(normalized_weight).unwrap();
        check_epsilon(value, value_1);
        check_epsilon(value, value_2);
        assert!(value_2 >= value_1);
    }
}

#[test]
fn test_powers_for_withdraw() {
    for normalized_weight in AVAILABLE_WEIGHTS {
        let exp = ONE.div_down(normalized_weight).unwrap();
        let value = ((MAX_INVARIANT_RATIO as f64 / 1e9).powf(exp as f64 / 1e9) * 1e9) as u64;
        let value_1 = MAX_INVARIANT_RATIO.pow_down(exp).unwrap();
        let value_2 = MAX_INVARIANT_RATIO.pow_up(exp).unwrap();
        check_epsilon(value, value_1);
        check_epsilon(value, value_2);
        assert!(value_2 >= value_1);
    }
}

#[test]
fn test_powers_for_swap() {
    for w_i in AVAILABLE_WEIGHTS {
        for w_o in AVAILABLE_WEIGHTS {
            let exp = w_i.div_up(w_o).unwrap();
            let value = ((MAX_INVARIANT_RATIO as f64 / 1e9).powf(exp as f64 / 1e9) * 1e9) as u64;
            let value_1 = MAX_INVARIANT_RATIO.pow_down(exp).unwrap();
            let value_2 = MAX_INVARIANT_RATIO.pow_up(exp).unwrap();
            check_epsilon(value, value_1);
            check_epsilon(value, value_2);
            assert!(value_2 >= value_1);

            let exp = w_o.div_up(w_i).unwrap();
            let value = ((MAX_INVARIANT_RATIO as f64 / 1e9).powf(exp as f64 / 1e9) * 1e9) as u64;
            let value_1 = MAX_INVARIANT_RATIO.pow_down(exp).unwrap();
            let value_2 = MAX_INVARIANT_RATIO.pow_up(exp).unwrap();
            check_epsilon(value, value_1);
            check_epsilon(value, value_2);
            assert!(value_2 >= value_1);
        }
    }
}

#[test]
fn fixed_scalar_operations() {
    assert_eq!(3 * ONE / 2, 1_500_000_000);
    assert_eq!(1_500_000_000u64.mul_down(1_500_000_000).unwrap(), 2_250_000_000);
    assert_eq!(1u64.mul_down(1).unwrap(), 0);
    assert_eq!(1u64.mul_up(1).unwrap(), 1);
    assert_eq!(ONE.div_down(3 * ONE).unwrap(), 333_333_333);
    assert_eq!(ONE.div_up(3 * ONE).unwrap(), 333_333_334);
    assert_eq!(ONE.div_down(0), None);
    assert_eq!(300_000_000u64.complement(), 700_000_000);
    assert_eq!((2 * ONE).complement(), 0);
}

#[test]
fn pow_shortcut_exponents() {
    let x = 1_500_000_000u64;
    assert_eq!(x.pow_down(0).unwrap(), ONE);
    assert_eq!(x.pow_down(ONE).unwrap(), x);
    assert_eq!(x.pow_down(2 * ONE).unwrap(), 2_250_000_000);
    assert_eq!(x.pow_up(4 * ONE).unwrap(), 5_062_500_000);
    assert_eq!(x.pow_down(4 * ONE).unwrap(), 5_062_500_000);
    assert!(x.pow_up(ONE / 2).unwrap() >= x.pow_down(ONE / 2).unwrap());
}

use stabble_math::base_pool_math::{compute_proportional_amounts_in, compute_proportional_amounts_out};
use stabble_math::error::{StableMathError, WeightedMathError};
use stabble_math::swap_fee_math::calc_swap_fee_in_discount;

#[test]
fn test_compute_proportional_amounts() {
    let balances = vec![5_000_000_000, 3_000_000_000];
    let pool_token_supply = 1_000_000_000;

    let amounts_in = compute_proportional_amounts_in(&balances, pool_token_supply, 100_000_000);
    assert_eq!(amounts_in[0], 500000000);
    assert_eq!(amounts_in[1], 300000000);

    let amounts_out = compute_proportional_amounts_out(&balances, pool_token_supply, 100_000_000);
    assert_eq!(amounts_out[0], 500000000);
    assert_eq!(amounts_out[1], 300000000);

    let amounts_in = compute_proportional_amounts_in(&balances, pool_token_supply, 333_333_333);
    assert_eq!(amounts_in[0], 1666666665);
    assert_eq!(amounts_in[1], 999999999);

    let amounts_out = compute_proportional_amounts_out(&balances, pool_token_supply, 333_333_333);
    assert_eq!(amounts_out[0], 1666666665);
    assert_eq!(amounts_out[1], 999999999);

    let amounts_in = compute_proportional_amounts_in(&balances, pool_token_supply, 777_777_777);
    assert_eq!(amounts_in[0], 3888888885);
    assert_eq!(amounts_in[1], 2333333331);

    let amounts_out = compute_proportional_amounts_out(&balances, pool_token_supply, 777_777_777);
    assert_eq!(amounts_out[0], 3888888885);
    assert_eq!(amounts_out[1], 2333333331);
}

#[test]
fn proportional_amounts_round_in_opposite_directions() {
    let balances = vec![10, 7];
    assert_eq!(compute_proportional_amounts_in(&balances, 3, 1), vec![4, 3]);
    assert_eq!(compute_proportional_amounts_out(&balances, 3, 1), vec![3, 2]);
    assert_eq!(compute_proportional_amounts_in(&vec![], 3, 1), Vec::<u64>::new());
}

pub const SWAP_FEE: u64 = 10_000;

#[test]
fn test_swap_fee_in_discount() {
    let swap_fee = calc_swap_fee_in_discount(SWAP_FEE, 99_999_999_999_999).unwrap();
    assert_eq!(swap_fee, SWAP_FEE);

    let swap_fee = calc_swap_fee_in_discount(SWAP_FEE, 100_000_000_000_000).unwrap();
    assert_eq!(swap_fee, 9_000);
    let swap_fee = calc_swap_fee_in_discount(SWAP_FEE, 199_999_999_999_999).unwrap();
    assert_eq!(swap_fee, 9_000);

    let swap_fee = calc_swap_fee_in_discount(SWAP_FEE, 200_000_000_000_000).unwrap();
    assert_eq!(swap_fee, 8_000);
    let swap_fee = calc_swap_fee_in_discount(SWAP_FEE, 399_999_999_999_999).unwrap();
    assert_eq!(swap_fee, 8_000);

    let swap_fee = calc_swap_fee_in_discount(SWAP_FEE, 400_000_000_000_000).unwrap();
    assert_eq!(swap_fee, 7_000);
    let swap_fee = calc_swap_fee_in_discount(SWAP_FEE, 799_999_999_999_999).unwrap();
    assert_eq!(swap_fee, 7_000);

    let swap_fee = calc_swap_fee_in_discount(SWAP_FEE, 800_000_000_000_000).unwrap();
    assert_eq!(swap_fee, 6_000);
    let swap_fee = calc_swap_fee_in_discount(SWAP_FEE, 1_599_999_999_999_999).unwrap();
    assert_eq!(swap_fee, 6_000);

    let swap_fee = calc_swap_fee_in_discount(SWAP_FEE, 1_600_000_000_000_000).unwrap();
    assert_eq!(swap_fee, 5_000);
    let swap_fee = calc_swap_fee_in_discount(SWAP_FEE, 3_199_999_999_999_999).unwrap();
    assert_eq!(swap_fee, 5_000);

    let swap_fee = calc_swap_fee_in_discount(SWAP_FEE, 3_200_000_000_000_000).unwrap();
    assert_eq!(swap_fee, 4_000);
    let swap_fee = calc_swap_fee_in_discount(SWAP_FEE, 6_399_999_999_999_999).unwrap();
    assert_eq!(swap_fee, 4_000);

    let swap_fee = calc_swap_fee_in_discount(SWAP_FEE, 6_400_000_000_000_000).unwrap();
    assert_eq!(swap_fee, 3_000);
    let swap_fee = calc_swap_fee_in_discount(SWAP_FEE, 12_799_999_999_999_999).unwrap();
    assert_eq!(swap_fee, 3_000);

    let swap_fee = calc_swap_fee_in_discount(SWAP_FEE, 12_800_000_000_000_000).unwrap();
    assert_eq!(swap_fee, 2_000);
    let swap_fee = calc_swap_fee_in_discount(SWAP_FEE, 25_599_999_999_999_999).unwrap();
    assert_eq!(swap_fee, 2_000);

    let swap_fee = calc_swap_fee_in_discount(SWAP_FEE, 25_600_000_000_000_000).unwrap();
    assert_eq!(swap_fee, 1_000);
    let swap_fee = calc_swap_fee_in_discount(SWAP_FEE, 51_199_999_999_999_999).unwrap();
    assert_eq!(swap_fee, 1_000);

    let swap_fee = calc_swap_fee_in_discount(SWAP_FEE, 51_200_000_000_000_000).unwrap();
    assert_eq!(swap_fee, 0);
    let swap_fee = calc_swap_fee_in_discount(SWAP_FEE, 51_200_000_000_000_001).unwrap();
    assert_eq!(swap_fee, 0);
}

#[test]
fn swap_fee_discount_rounds_up() {
    assert_eq!(calc_swap_fee_in_discount(1, 100_000_000_000_000).unwrap(), 1);
    assert_eq!(calc_swap_fee_in_discount(u64::MAX, u64::MAX).unwrap(), 0);
}

#[test]
fn error_messages() {
    assert_eq!(WeightedMathError::ZeroInvariant.message(), "Zero invariant");
    assert_eq!(WeightedMathError::MaxInRatio.message(), "MaxInRatio");
    assert_eq!(WeightedMathError::MaxOutRatio.message(), "MaxOutRatio");
    assert_eq!(WeightedMathError::MinInvariantRatio.message(), "MinInvariantRatio");
    assert_eq!(WeightedMathError::MaxInvariantRatio.message(), "MaxInvariantRatio");
    assert_eq!(StableMathError::InvariantDidntConverge.message(), "Invariant didnt converge");
    assert_eq!(StableMathError::GetBalanceDidntConverge.message(), "Get balance didnt converge");
}

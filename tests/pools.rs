use stabble_math::layout::AccountError;
use stabble_math::stable_pool;
use stabble_math::vault::{Vault, VAULT_DISCRIMINATOR};
use stabble_math::weighted_pool;

fn stable_token(mint: u8, scaling_up: bool, scaling_factor: u64, balance: u64) -> stable_pool::PoolToken {
    stable_pool::PoolToken { mint: [mint; 32], decimals: 6, scaling_up, scaling_factor, balance }
}

fn stable_pool_with(tokens: Vec<stable_pool::PoolToken>) -> stable_pool::Pool {
    stable_pool::Pool {
        vault: [9; 32],
        is_active: true,
        amp_initial_factor: 100,
        amp_target_factor: 200,
        ramp_start_ts: 0,
        ramp_stop_ts: 6000,
        swap_fee: 0,
        tokens,
    }
}

#[test]
fn stable_amplification_ramp() {
    let mut pool = stable_pool_with(vec![]);
    assert_eq!(pool.get_amplification(-5), Some(100_000));
    assert_eq!(pool.get_amplification(0), Some(100_000));
    assert_eq!(pool.get_amplification(6000), Some(200_000));
    assert_eq!(pool.get_amplification(i64::MAX), Some(200_000));
    // whole minutes only: 3030 s count as 3000 s
    assert_eq!(pool.get_amplification(3030), Some(150_000));
    assert_eq!(pool.get_amplification(59), Some(100_000));
    pool.amp_initial_factor = 200;
    pool.amp_target_factor = 100;
    assert_eq!(pool.get_amplification(3030), Some(150_000));
    assert_eq!(pool.get_amplification(5999), Some(101_000));
}

#[test]
fn stable_pool_scaling() {
    let pool = stable_pool_with(vec![stable_token(1, true, 1000, 0), stable_token(2, false, 1000, 0), stable_token(3, true, 1, 0)]);
    assert_eq!(pool.calc_wrapped_amount(5, 0), Some(5000));
    assert_eq!(pool.calc_unwrapped_amount(5000, 0), Some(5));
    assert_eq!(pool.calc_wrapped_amount(5500, 1), Some(5));
    assert_eq!(pool.calc_unwrapped_amount(5, 1), Some(5000));
    assert_eq!(pool.calc_rounded_amount(5500, 1), Some(5000));
    assert_eq!(pool.calc_rounded_amount(5500, 0), Some(5500));
    assert_eq!(pool.calc_wrapped_amount(7, 2), Some(7));
    assert_eq!(pool.calc_wrapped_amount(u64::MAX, 0), None);
    assert_eq!(pool.calc_wrapped_amount(1, 3), None);
    assert_eq!(pool.get_token_index([2; 32]), Some(1));
    assert_eq!(pool.get_token_index([7; 32]), None);
    assert_eq!(pool.get_balances(), vec![0, 0, 0]);
}

#[test]
fn stable_pool_swap_result() {
    let mut pool = stable_pool_with(vec![
        stable_token(1, true, 1, 40_000_000_000_000_000),
        stable_token(2, true, 1, 60_000_000_000_000_000),
    ]);
    pool.amp_initial_factor = 5000;
    pool.amp_target_factor = 5000;
    assert_eq!(pool.get_swap_result(10_000, 1, 0, 100_000_000_000_000, 0), Some((99991271119067, 0)));
    pool.swap_fee = 100_000;
    let o: u128 = 99991271119067;
    let out = (o * 999_900_000 / 1_000_000_000) as u64;
    assert_eq!(pool.get_swap_result(10_000, 1, 0, 100_000_000_000_000, 0), Some((out, 99991271119067 - out)));
    assert_eq!(pool.get_swap_result(10_000, 1, 2, 100_000_000_000_000, 0), None);
}

fn put(data: &mut Vec<u8>, off: usize, bytes: &[u8]) {
    data[off..off + bytes.len()].copy_from_slice(bytes);
}

fn stable_account(token_count: u32) -> Vec<u8> {
    let mut data = vec![0u8; 138 + 50 * token_count as usize];
    put(&mut data, 0, &stable_pool::POOL_DISCRIMINATOR);
    put(&mut data, 40, &[7u8; 32]);
    data[105] = 1;
    put(&mut data, 106, &300u16.to_le_bytes());
    put(&mut data, 108, &400u16.to_le_bytes());
    put(&mut data, 110, &(-5i64).to_le_bytes());
    put(&mut data, 118, &1_700_000_000i64.to_le_bytes());
    put(&mut data, 126, &1_000_000u64.to_le_bytes());
    put(&mut data, 134, &token_count.to_le_bytes());
    for k in 0..token_count as usize {
        let off = 138 + 50 * k;
        put(&mut data, off, &[k as u8 + 1; 32]);
        data[off + 32] = 6;
        data[off + 33] = 1;
        put(&mut data, off + 34, &1000u64.to_le_bytes());
        put(&mut data, off + 42, &(123_456_789u64 + k as u64).to_le_bytes());
    }
    data
}

#[test]
fn stable_pool_from_account_data() {
    let data = stable_account(2);
    let pool = stable_pool::Pool::try_deserialize(&data).unwrap();
    assert_eq!(pool.vault, [7u8; 32]);
    assert!(pool.is_active);
    assert_eq!(pool.amp_initial_factor, 300);
    assert_eq!(pool.amp_target_factor, 400);
    assert_eq!(pool.ramp_start_ts, -5);
    assert_eq!(pool.ramp_stop_ts, 1_700_000_000);
    assert_eq!(pool.swap_fee, 1_000_000);
    assert_eq!(pool.tokens.len(), 2);
    assert_eq!(pool.tokens[1].mint, [2u8; 32]);
    assert_eq!(pool.tokens[1].decimals, 6);
    assert!(pool.tokens[1].scaling_up);
    assert_eq!(pool.tokens[1].scaling_factor, 1000);
    assert_eq!(pool.tokens[1].balance, 123_456_790);

    let short = &data[..data.len() - 1];
    assert_eq!(stable_pool::Pool::try_deserialize(short).unwrap_err(), AccountError::AccountDidNotDeserialize);
    assert_eq!(stable_pool::Pool::try_deserialize(&data[..7]).unwrap_err(), AccountError::AccountDiscriminatorNotFound);
    let mut wrong = data.clone();
    wrong[3] ^= 1;
    assert_eq!(stable_pool::Pool::try_deserialize(&wrong).unwrap_err(), AccountError::AccountDiscriminatorMismatch);
}

fn weighted_token(mint: u8, balance: u64, weight: u64) -> weighted_pool::PoolToken {
    weighted_pool::PoolToken { mint: [mint; 32], decimals: 9, scaling_up: true, scaling_factor: 1, balance, weight }
}

#[test]
fn weighted_pool_swap_result() {
    let mut pool = weighted_pool::Pool {
        vault: [0; 32],
        is_active: true,
        current_invariant: 1,
        swap_fee: 0,
        tokens: vec![
            weighted_token(1, 5_000_000_000_000_000_000, 500_000_000),
            weighted_token(2, 1_000_000_000_000_000_000, 500_000_000),
        ],
    };
    assert_eq!(pool.get_swap_result(0, 1, 100_000_000_000), Some((19000000000, 0)));
    pool.swap_fee = 10_000_000;
    assert_eq!(pool.get_swap_result(0, 1, 100_000_000_000), Some((18810000000, 190000000)));
    assert_eq!(pool.get_swap_result(0, 2, 100_000_000_000), None);
    assert_eq!(pool.get_normalized_weights(), vec![500_000_000, 500_000_000]);
    assert_eq!(pool.get_balances(), vec![5_000_000_000_000_000_000, 1_000_000_000_000_000_000]);
    assert_eq!(pool.get_token_index([2; 32]), Some(1));
    assert_eq!(pool.calc_rounded_amount(5, 0), Some(5));
    pool.current_invariant = 0;
    assert_eq!(pool.get_swap_result(0, 1, 100_000_000_000), Some((0, 0)));
}

#[test]
fn weighted_pool_from_account_data() {
    let mut data = vec![0u8; 126 + 58];
    put(&mut data, 0, &weighted_pool::POOL_DISCRIMINATOR);
    put(&mut data, 40, &[3u8; 32]);
    put(&mut data, 106, &42u64.to_le_bytes());
    put(&mut data, 114, &2_500_000u64.to_le_bytes());
    put(&mut data, 122, &1u32.to_le_bytes());
    put(&mut data, 126, &[5u8; 32]);
    data[126 + 32] = 8;
    put(&mut data, 126 + 34, &10u64.to_le_bytes());
    put(&mut data, 126 + 42, &77u64.to_le_bytes());
    put(&mut data, 126 + 50, &500_000_000u64.to_le_bytes());
    let pool = weighted_pool::Pool::try_deserialize(&data).unwrap();
    assert_eq!(pool.vault, [3u8; 32]);
    assert!(!pool.is_active);
    assert_eq!(pool.current_invariant, 42);
    assert_eq!(pool.swap_fee, 2_500_000);
    assert_eq!(pool.tokens.len(), 1);
    assert_eq!(pool.tokens[0].mint, [5u8; 32]);
    assert_eq!(pool.tokens[0].decimals, 8);
    assert!(!pool.tokens[0].scaling_up);
    assert_eq!(pool.tokens[0].scaling_factor, 10);
    assert_eq!(pool.tokens[0].balance, 77);
    assert_eq!(pool.tokens[0].weight, 500_000_000);
    assert_eq!(
        weighted_pool::Pool::try_deserialize(&data[..150]).unwrap_err(),
        AccountError::AccountDidNotDeserialize
    );
}

#[test]
fn vault_from_account_data() {
    let mut data = vec![0u8; 107];
    put(&mut data, 0, &VAULT_DISCRIMINATOR);
    data[74] = 1;
    put(&mut data, 75, &[4u8; 32]);
    let vault = Vault::try_deserialize(&data).unwrap();
    assert!(vault.is_active);
    assert_eq!(vault.beneficiary, [4u8; 32]);
    assert_eq!(Vault::try_deserialize(&data[..106]).unwrap_err(), AccountError::AccountDidNotDeserialize);
    data[0] = 0;
    assert_eq!(Vault::try_deserialize(&data).unwrap_err(), AccountError::AccountDiscriminatorMismatch);
}

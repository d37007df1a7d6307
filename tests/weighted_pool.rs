use stabble_math::weighted_math::{
    calc_in_given_out, calc_invariant, calc_out_given_in, calc_pool_token_out_given_exact_token_in,
    calc_pool_token_out_given_exact_tokens_in, calc_token_out_given_exact_pool_token_in,
};

#[test]
fn test_calc_invariant() {
    let invariant = calc_invariant(
        &vec![4_000_000_000_000_000_000, 1_000_000_000_000_000_000],
        &vec![500_000_000, 500_000_000],
    )
    .unwrap();
    assert_eq!(invariant, 1999999999999899652);

    let invariant = calc_invariant(
        &vec![
            4_000_000_000_000_000_000,
            4_000_000_000_000_000_000,
            4_000_000_000_000_000_000,
            4_000_000_000_000_000_000,
        ],
        &vec![100_000_000, 200_000_000, 300_000_000, 400_000_000],
    )
    .unwrap();
    assert_eq!(invariant, 3999999829243548079);

    let invariant = calc_invariant(
        &vec![4_000_000_000_000_000_000, 4_000_000_000_000_000_000, 4_000_000_000_000_000_000],
        &vec![330_000_000, 330_000_000, 340_000_000],
    )
    .unwrap();
    assert_eq!(invariant, 3999999845679133687);

    let invariant = calc_invariant(
        &vec![4_000_000_000_000_000_000, 4_000_000_000_000_000_000, 4_000_000_000_000_000_000],
        &vec![200_000_000, 200_000_000, 600_000_000],
    )
    .unwrap();
    assert_eq!(invariant, 3999999833239242752);

    let invariant = calc_invariant(
        &vec![4_000_000_000_000_000_000, 4_000_000_000_000_000_000],
        &vec![100_000_000, 900_000_000],
    )
    .unwrap();
    assert_eq!(invariant, 3999999913148972546);

    let invariant = calc_invariant(
        &vec![4_000_000_000_000_000_000, 4_000_000_000_000_000_000],
        &vec![200_000_000, 800_000_000],
    )
    .unwrap();
    assert_eq!(invariant, 3999999916139535002);

    let invariant = calc_invariant(
        &vec![4_000_000_000_000_000_000, 4_000_000_000_000_000_000],
        &vec![50_000_000, 950_000_000],
    )
    .unwrap();
    assert_eq!(invariant, 3999999908179373469);
}

#[test]
fn weighted_invariant_zero_is_rejected() {
    assert_eq!(calc_invariant(&vec![0, 1_000_000_000], &vec![500_000_000, 500_000_000]), None);
    assert_eq!(calc_invariant(&vec![], &vec![]), Some(1_000_000_000));
}

#[test]
fn weighted_math_test_calc_out_given_in() {
    let amount_out = calc_out_given_in(
        5_000_000_000_000_000_000,
        500_000_000,
        1_000_000_000_000_000_000,
        500_000_000,
        100_000_000_000,
    )
    .unwrap();
    assert_eq!(amount_out, 19000000000);

    let amount_out = calc_out_given_in(
        5_000_000_000_000_000_000,
        500_000_000,
        1_000_000_000_000_000_000,
        500_000_000,
        1_000_000_000_000_000,
    )
    .unwrap();
    assert_eq!(amount_out, 199960000000000);

    let amount_out =
        calc_out_given_in(538787471_887000000, 700_000_000, 898152_463000000, 300_000_000, 100_000_000_000).unwrap();
    assert_eq!(amount_out, 396983388);

    let amount_out =
        calc_out_given_in(366851436508161000, 600_000_000, 958530278657000, 400_000_000, 100_000_000_000).unwrap();
    assert_eq!(amount_out, 390121823);

    let amount_out =
        calc_out_given_in(366851436508161000, 50_000_000, 958530278657000, 950_000_000, 100_000_000_000).unwrap();
    assert_eq!(amount_out, 25880317);
}

#[test]
fn weighted_swap_ratio_limits() {
    // at most 30% of the balance in
    assert!(calc_out_given_in(1_000_000_000, 500_000_000, 1_000_000_000, 500_000_000, 300_000_000).is_some());
    assert_eq!(calc_out_given_in(1_000_000_000, 500_000_000, 1_000_000_000, 500_000_000, 300_000_001), None);
    assert_eq!(calc_in_given_out(1_000_000_000, 500_000_000, 1_000_000_000, 500_000_000, 300_000_001), None);
    let amount_in = calc_in_given_out(
        5_000_000_000_000_000_000,
        500_000_000,
        1_000_000_000_000_000_000,
        500_000_000,
        19000000000,
    )
    .unwrap();
    assert!(amount_in >= 95_000_000_000);
}

#[test]
fn test_calc_pool_token_out() {
    let amount_out = calc_pool_token_out_given_exact_token_in(
        5_000_000_000_000_000_000,
        500_000_000,
        5_000_000_000_000_000,
        2236021719197214567 << 1,
        10_000_000,
    )
    .unwrap();
    assert_eq!(amount_out, 2224287077214867);

    let amount_out = calc_pool_token_out_given_exact_token_in(
        5_000_000_000_000_000_000,
        500_000_000,
        5_000_000_000_000,
        2236021719197214567 << 1,
        10_000_000,
    )
    .unwrap();
    assert_eq!(amount_out, 2222605588882);

    let amount_out = calc_pool_token_out_given_exact_token_in(
        1_000_000_000_000_000_000,
        500_000_000,
        1_000_000_000_000_000,
        2236021719197214567 << 1,
        10_000_000,
    )
    .unwrap();
    assert_eq!(amount_out, 2224287077214867);

    let amount_out = calc_pool_token_out_given_exact_token_in(
        1_000_000_000_000_000_000,
        500_000_000,
        1_000_000_000_000,
        2236021719197214567 << 1,
        10_000_000,
    )
    .unwrap();
    assert_eq!(amount_out, 2222605588882);

    let amount_out = calc_pool_token_out_given_exact_tokens_in(
        &vec![5_000_000_000_000_000_000, 1_000_000_000_000_000_000],
        &vec![500_000_000, 500_000_000],
        &vec![5_000_000_000_000_000 >> 1, 1_000_000_000_000_000 >> 1],
        2236021719197214567 << 1,
        10_000_000,
    )
    .unwrap();
    assert_eq!(amount_out, 2236003831023460);

    let amount_out = calc_pool_token_out_given_exact_tokens_in(
        &vec![5_000_000_000_000_000_000, 1_000_000_000_000_000_000],
        &vec![50_000_000, 950_000_000],
        &vec![5_000_000_000_000_000 >> 1, 1_000_000_000_000_000 >> 1],
        2236021719197214567 << 1,
        10_000_000,
    )
    .unwrap();
    assert_eq!(amount_out, 2235968054675953);
}

#[test]
fn weighted_zero_deposit_mints_nothing() {
    assert_eq!(
        calc_pool_token_out_given_exact_token_in(1_000_000_000_000, 500_000_000, 0, 1_000_000_000, 10_000_000),
        Some(0)
    );
    assert_eq!(
        calc_pool_token_out_given_exact_tokens_in(
            &vec![1_000_000_000_000, 1_000_000_000_000],
            &vec![500_000_000, 500_000_000],
            &vec![0, 0],
            1_000_000_000,
            10_000_000,
        ),
        Some(0)
    );
}

#[test]
fn test_calc_token_out_given_exact_pool_token_in() {
    let amount_out = calc_token_out_given_exact_pool_token_in(
        5_000_000_000_000_000_000,
        500_000_000,
        2222605588882,
        2236021719197214567 << 1,
        10_000_000,
    )
    .unwrap();
    assert_eq!(amount_out, 4930225000000);

    let amount_out = calc_token_out_given_exact_pool_token_in(
        1_000_000_000_000_000_000,
        500_000_000,
        2222605588882,
        2236021719197214567 << 1,
        10_000_000,
    )
    .unwrap();
    assert_eq!(amount_out, 986045000000);

    let amount_out = calc_token_out_given_exact_pool_token_in(
        1_000_000_000_000_000_000,
        50_000_000,
        2222605588882,
        2236021719197214567 << 1,
        10_000_000,
    )
    .unwrap();
    assert_eq!(amount_out, 9814864500000);

    let amount_out = calc_token_out_given_exact_pool_token_in(
        1_000_000_000_000_000_000,
        950_000_000,
        2222605588882,
        2236021719197214567 << 1,
        10_000_000,
    )
    .unwrap();
    assert_eq!(amount_out, 532733500000);
}

#[test]
fn weighted_exit_below_minimum_ratio() {
    // burning 31% of the supply would shrink the invariant below 70%
    assert_eq!(
        calc_token_out_given_exact_pool_token_in(1_000_000_000_000, 500_000_000, 310, 1_000, 10_000_000),
        None
    );
    assert_eq!(calc_token_out_given_exact_pool_token_in(1_000_000_000_000, 500_000_000, 1_001, 1_000, 10_000_000), None);
}

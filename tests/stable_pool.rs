use stabble_math::stable_math::{
    calc_in_given_out, calc_invariant, calc_out_given_in, calc_pool_token_out_given_exact_tokens_in,
    calc_token_out_given_exact_pool_token_in, get_token_balance_given_invariant_n_all_other_balances,
};

#[test]
fn stable_math_test_calc_out_given_in() {
    let balances = vec![
        776199829833940141,
        2206504616663253113,
        1763368950384576155,
        38416709841306561,
        18833762826780,
    ];
    let amplification = 500_000;
    calc_invariant(amplification, &balances).unwrap();

    let balances = vec![1332693902458055177, 534042038714371533, 93673549035235];
    let amplification = 10_000;
    calc_invariant(amplification, &balances).unwrap();

    let balances = vec![2397586296768312160, 2300831385038136337, 1410688950371];
    let amplification = 1_000;
    calc_invariant(amplification, &balances).unwrap();

    let amplification = 5_000_000;
    let balances = vec![40_000_000_000_000_000, 60_000_000_000_000_000];
    let invariant = calc_invariant(amplification, &balances).unwrap();
    assert_eq!(invariant, 99999583421855646);

    let token_amount_in = 100_000_000_000_000;
    let token_a_out = calc_out_given_in(amplification, &balances, 1, 0, token_amount_in, invariant).unwrap();
    let token_b_out = calc_out_given_in(amplification, &balances, 0, 1, token_amount_in, invariant).unwrap();
    assert_eq!(token_a_out, 99991271119067);
    assert_eq!(token_b_out, 100008628389994);

    let amplification = 750_000;
    let balances = vec![40_000_000_000_000_000, 50_000_000_000_000_000, 60_000_000_000_000_000];
    let invariant = calc_invariant(amplification, &balances).unwrap();
    assert_eq!(invariant, 149997226126050479);

    let amplification = 150_000;
    let balances = vec![
        40_000_000_000_000_000,
        50_000_000_000_000_000,
        60_000_000_000_000_000,
        70_000_000_000_000_000,
    ];
    let invariant = calc_invariant(amplification, &balances).unwrap();
    assert_eq!(invariant, 219967475585041316);

    let amplification = 5_000_000;
    let balances = vec![894_520_800_000_000, 467_581_800_000_000];
    let invariant = calc_invariant(amplification, &balances).unwrap();

    let token_amount_in = 1_000_000_000_000;
    let token_amount_out = calc_out_given_in(amplification, &balances, 0, 1, token_amount_in, invariant).unwrap();
    assert_eq!(token_amount_out, 999845351779);

    let token_amount_in = 1_000_000_000;
    let token_amount_out = calc_out_given_in(amplification, &balances, 0, 1, token_amount_in, invariant).unwrap();
    assert_eq!(token_amount_out, 999845869);

    let token_amount_in = 1_000_000;
    let token_amount_out = calc_out_given_in(amplification, &balances, 0, 1, token_amount_in, invariant).unwrap();
    assert_eq!(token_amount_out, 999845);
}

#[test]
fn test_calc_pool_token_out_given_exact_tokens_in() {
    let amplification = 5_000_000;
    let balances = vec![894_520_800_000_000, 467_581_800_000_000];
    let invariant = calc_invariant(amplification, &balances).unwrap();

    let amounts_in = vec![1_000_000_000_000_000, 1_000_000_000_000_000];
    let amount_out =
        calc_pool_token_out_given_exact_tokens_in(amplification, &balances, &amounts_in, invariant, invariant, 100_000)
            .unwrap();
    assert_eq!(amount_out, 1999977982041509);

    let amounts_in = vec![0, 2_000_000_000_000];
    let amount_out =
        calc_pool_token_out_given_exact_tokens_in(amplification, &balances, &amounts_in, invariant, invariant, 100_000)
            .unwrap();
    assert_eq!(amount_out, 2000047447155);

    let amounts_in = vec![1_000_000_000_000, 1_000_000_000_000];
    let amount_out =
        calc_pool_token_out_given_exact_tokens_in(amplification, &balances, &amounts_in, invariant, invariant, 100_000)
            .unwrap();
    assert!(amount_out < 2000047447155);
    assert_eq!(amount_out, 1999994325732);

    let amounts_in = vec![2_000_000_000_000, 0];
    let amount_out =
        calc_pool_token_out_given_exact_tokens_in(amplification, &balances, &amounts_in, invariant, invariant, 100_000)
            .unwrap();
    assert!(amount_out < 1999994325732);
    assert_eq!(amount_out, 1999802271357);
    let amount_out =
        calc_pool_token_out_given_exact_tokens_in(amplification, &balances, &amounts_in, invariant, invariant, 150_000)
            .unwrap();
    assert!(amount_out < 1999802271357);
    let amount_out =
        calc_pool_token_out_given_exact_tokens_in(amplification, &balances, &amounts_in, invariant, invariant, 50_000)
            .unwrap();
    assert!(amount_out > 1999802271357);

    // balanced deposit
    let amounts_in = vec![1_313_441_146_063, 686_558_853_937];
    let amount_out =
        calc_pool_token_out_given_exact_tokens_in(amplification, &balances, &amounts_in, invariant, invariant, 100_000)
            .unwrap();
    assert_eq!(amount_out, 1999977980679);
    let amount_out =
        calc_pool_token_out_given_exact_tokens_in(amplification, &balances, &amounts_in, invariant, invariant, 150_000)
            .unwrap();
    assert_eq!(amount_out, 1999977980679);
    let amount_out =
        calc_pool_token_out_given_exact_tokens_in(amplification, &balances, &amounts_in, invariant, invariant, 50_000)
            .unwrap();
    assert_eq!(amount_out, 1999977980679);
    let amount_out =
        calc_pool_token_out_given_exact_tokens_in(amplification, &balances, &amounts_in, invariant, invariant, 300_000)
            .unwrap();
    assert_eq!(amount_out, 1999977980679);
}

#[test]
fn stable_invariant_edge_cases() {
    assert_eq!(calc_invariant(5_000_000, &vec![0, 0]), Some(0));
    assert_eq!(calc_invariant(5_000_000, &vec![]), Some(0));
    // an amplification below its precision cannot be used
    assert_eq!(calc_invariant(100, &vec![1_000_000_000, 1_000_000_000]), None);
    // the sum of the balances must fit
    assert_eq!(calc_invariant(5_000_000, &vec![u64::MAX, 1]), None);
    // equal balances: the invariant is their sum
    let d = calc_invariant(5_000_000, &vec![1_000_000_000_000, 1_000_000_000_000]).unwrap();
    assert!(d.abs_diff(2_000_000_000_000) <= 100);
}

#[test]
fn stable_swap_index_errors_and_round_trip() {
    let amplification = 5_000_000;
    let balances = vec![40_000_000_000_000_000, 60_000_000_000_000_000];
    let invariant = calc_invariant(amplification, &balances).unwrap();
    assert_eq!(calc_out_given_in(amplification, &balances, 1, 2, 1_000, invariant), None);
    assert_eq!(calc_in_given_out(amplification, &balances, 2, 0, 1_000, invariant), None);
    assert_eq!(calc_in_given_out(amplification, &balances, 1, 0, 50_000_000_000_000_000, invariant), None);

    let out = calc_out_given_in(amplification, &balances, 1, 0, 100_000_000_000_000, invariant).unwrap();
    let back = calc_in_given_out(amplification, &balances, 1, 0, out, invariant).unwrap();
    // paying in rounds up, paying out rounds down
    assert!(back >= 100_000_000_000_000 - 2);
    assert!(back <= 100_000_000_000_000 + 2);

    let balance = get_token_balance_given_invariant_n_all_other_balances(
        amplification,
        &balances,
        invariant,
        balances[0],
    )
    .unwrap();
    assert!(balance.abs_diff(balances[0]) <= 2);
}

#[test]
fn stable_single_token_exit() {
    let amplification = 5_000_000;
    let balances = vec![40_000_000_000_000_000, 60_000_000_000_000_000];
    let invariant = calc_invariant(amplification, &balances).unwrap();
    let supply = invariant;
    let out = calc_token_out_given_exact_pool_token_in(amplification, &balances, 0, supply / 1000, supply, invariant, 100_000)
        .unwrap();
    assert!(out > 0);
    assert!(out < balances[0] / 1000 + balances[1] / 1000);
    assert_eq!(
        calc_token_out_given_exact_pool_token_in(amplification, &balances, 0, supply + 1, supply, invariant, 100_000),
        None
    );
    assert_eq!(
        calc_token_out_given_exact_pool_token_in(amplification, &balances, 5, 1, supply, invariant, 100_000),
        None
    );
}

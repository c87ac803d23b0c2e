//! Pool-engine arithmetic: wide integers, square roots, liquidity shares
//! and swap quoting on concrete values.
use ref_exchange::{
    check_token_duplicates, div_wide, integer_sqrt, mul_div_u128, mul_u128, ExchangeError,
    SimplePool, SwapVolume, U256, FEE_DIVISOR, INIT_SHARES_SUPPLY,
};

fn pool_ab(fee: u32) -> SimplePool {
    SimplePool::new(vec!["a".to_string(), "b".to_string()], fee, 0, 0).unwrap()
}

#[test]
fn mul_div_small_values() {
    assert_eq!(mul_div_u128(6, 7, 2), 21);
    assert_eq!(mul_div_u128(10, 10, 3), 33);
    assert_eq!(mul_div_u128(0, 12345, 17), 0);
    assert_eq!(mul_div_u128(1, 1, u128::MAX), 0);
}

#[test]
fn mul_div_wide_intermediate() {
    // The product exceeds 128 bits by far; the quotient still fits.
    let big = u128::MAX;
    assert_eq!(mul_div_u128(big, big, big), big);
    assert_eq!(mul_div_u128(1u128 << 127, 2, 4), 1u128 << 126);
    assert_eq!(mul_div_u128(1 << 100, 1 << 27, 1 << 64), 1 << 63);
}

#[test]
fn div_wide_exact_values() {
    let n = mul_u128(u128::MAX, u128::MAX);
    let q = div_wide(n, U256::from_u128(u128::MAX));
    assert_eq!(q.as_u128(), u128::MAX);
    let q2 = div_wide(U256::from_u128(1000), U256::from_u128(7));
    assert_eq!(q2.as_u128(), 142);
}

#[test]
fn integer_sqrt_exact_values() {
    assert_eq!(integer_sqrt(0), 0);
    assert_eq!(integer_sqrt(1), 1);
    assert_eq!(integer_sqrt(15), 3);
    assert_eq!(integer_sqrt(16), 4);
    assert_eq!(integer_sqrt(17), 4);
    assert_eq!(integer_sqrt(1_000_000), 1000);
    assert_eq!(integer_sqrt(u128::MAX), (1u128 << 64) - 1);
}

#[test]
fn duplicate_tokens_are_refused() {
    let r = check_token_duplicates(&vec!["a".to_string(), "b".to_string(), "a".to_string()]);
    assert_eq!(r, Err(ExchangeError::DuplicateTokens));
    assert!(check_token_duplicates(&vec!["a".to_string(), "b".to_string()]).is_ok());
}

#[test]
fn new_pool_checks_fee_and_tokens() {
    let r = SimplePool::new(vec!["a".to_string(), "b".to_string()], FEE_DIVISOR, 0, 0);
    assert_eq!(r.err(), Some(ExchangeError::FeeTooLarge));
    let r = SimplePool::new(vec!["a".to_string()], 30, 0, 0);
    assert_eq!(r.err(), Some(ExchangeError::WrongTokenCount));
    let r = SimplePool::new(vec!["a".to_string(), "a".to_string()], 30, 0, 0);
    assert_eq!(r.err(), Some(ExchangeError::DuplicateTokens));
}

#[test]
fn first_deposit_mints_initial_supply() {
    // Whatever the amounts, the first deposit mints exactly the fixed
    // initial supply and writes the reserves verbatim.
    let mut pool = pool_ab(30);
    let alice = "alice".to_string();
    let mut amounts = vec![7u128, 9u128];
    let minted = pool.add_liquidity(&alice, &mut amounts).unwrap();
    assert_eq!(minted, INIT_SHARES_SUPPLY);
    assert_eq!(amounts, vec![7, 9]);
    assert_eq!(pool.share_total_balance(), INIT_SHARES_SUPPLY);
    assert_eq!(pool.share_balance_of(&alice), INIT_SHARES_SUPPLY);

    let mut pool2 = pool_ab(0);
    let mut amounts2 = vec![0u128, 123u128];
    let minted2 = pool2.add_liquidity(&alice, &mut amounts2).unwrap();
    assert_eq!(minted2, INIT_SHARES_SUPPLY);
}

#[test]
fn lopsided_deposit_is_capped_to_pool_ratio() {
    // Reserves 1_000_000 / 1_000_000 with supply 10^24: requesting
    // 500_000 and 400_000 yields the smaller ratio, 4 * 10^23 shares,
    // and consumes 400_000 of each token.
    let mut pool = pool_ab(30);
    let alice = "alice".to_string();
    let bob = "bob".to_string();
    let mut first = vec![1_000_000u128, 1_000_000u128];
    pool.add_liquidity(&alice, &mut first).unwrap();
    assert_eq!(pool.share_total_balance(), 1_000_000_000_000_000_000_000_000);

    let mut requested = vec![500_000u128, 400_000u128];
    let minted = pool.add_liquidity(&bob, &mut requested).unwrap();
    assert_eq!(minted, 400_000_000_000_000_000_000_000);
    assert_eq!(requested, vec![400_000, 400_000]);
    assert_eq!(pool.share_balance_of(&bob), 400_000_000_000_000_000_000_000);
    assert_eq!(
        pool.share_total_balance(),
        1_400_000_000_000_000_000_000_000
    );
}

#[test]
fn zero_amount_deposit_is_refused() {
    let mut pool = pool_ab(30);
    let alice = "alice".to_string();
    let mut first = vec![1_000u128, 1_000u128];
    pool.add_liquidity(&alice, &mut first).unwrap();
    let mut requested = vec![0u128, 10u128];
    let r = pool.add_liquidity(&alice, &mut requested);
    assert_eq!(r, Err(ExchangeError::ZeroAmount));
    // A dust deposit rounds to zero consumed tokens and is refused too.
    let mut big = vec![u128::MAX / 4, u128::MAX / 4];
    let mut pool2 = pool_ab(30);
    pool2.add_liquidity(&alice, &mut big).unwrap();
    let mut dust = vec![1u128, 1u128];
    let r2 = pool2.add_liquidity(&alice, &mut dust);
    assert_eq!(r2, Err(ExchangeError::ZeroAmount));
}

#[test]
fn quote_matches_reference_formula() {
    let mut pool = pool_ab(30);
    let alice = "alice".to_string();
    let mut first = vec![1_000_000u128, 1_000_000u128];
    pool.add_liquidity(&alice, &mut first).unwrap();
    let a = "a".to_string();
    let b = "b".to_string();
    let got = pool.get_return(&a, 1000, &b).unwrap();
    let expected = (1000u128 * 9970 * 1_000_000) / (10_000u128 * 1_000_000 + 1000 * 9970);
    assert_eq!(got, expected);
    assert_eq!(got, 996);
}

#[test]
fn quote_rejects_bad_requests() {
    let mut pool = pool_ab(30);
    let alice = "alice".to_string();
    let a = "a".to_string();
    let b = "b".to_string();
    let c = "c".to_string();
    // Empty reserves.
    assert_eq!(pool.get_return(&a, 1000, &b), Err(ExchangeError::Invalid));
    let mut first = vec![1_000u128, 1_000u128];
    pool.add_liquidity(&alice, &mut first).unwrap();
    // Same token on both sides.
    assert_eq!(pool.get_return(&a, 1000, &a), Err(ExchangeError::Invalid));
    // Unknown token.
    assert_eq!(pool.get_return(&c, 1000, &b), Err(ExchangeError::Invalid));
    // Zero input.
    assert_eq!(pool.get_return(&a, 0, &b), Err(ExchangeError::Invalid));
}

#[test]
fn swap_charges_the_quote_and_grows_the_product() {
    let mut pool = pool_ab(30);
    let alice = "alice".to_string();
    let a = "a".to_string();
    let b = "b".to_string();
    let mut first = vec![1_000_000u128, 1_000_000u128];
    pool.add_liquidity(&alice, &mut first).unwrap();
    let before = 1_000_000u128 * 1_000_000;
    let quoted = pool.get_return(&a, 1000, &b).unwrap();
    let out = pool.swap(&a, 1000, &b, 990).unwrap();
    assert_eq!(out, quoted);
    let info = pool.tokens().clone();
    assert_eq!(info, vec!["a".to_string(), "b".to_string()]);
    let volumes = pool.get_volumes();
    assert_eq!(volumes[0].input, 1000);
    assert_eq!(volumes[0].output, 0);
    assert_eq!(volumes[1].input, 0);
    assert_eq!(volumes[1].output, out);
    // With a nonzero fee the product of the reserves strictly grows.
    let res_a = 1_000_000 + 1000;
    let res_b = 1_000_000 - out;
    assert!(res_a * res_b > before);
}

#[test]
fn fee_free_swap_keeps_product_within_rounding() {
    let mut pool = pool_ab(0);
    let alice = "alice".to_string();
    let a = "a".to_string();
    let b = "b".to_string();
    let mut first = vec![1_000_000u128, 1_000_000u128];
    pool.add_liquidity(&alice, &mut first).unwrap();
    let out = pool.swap(&a, 1000, &b, 0).unwrap();
    // x*y/(x+dx) rounded down: the product never decreases.
    assert_eq!(out, (1000u128 * 1_000_000) / (1_000_000 + 1000));
    let res_a = 1_000_000u128 + 1000;
    let res_b = 1_000_000u128 - out;
    assert!(res_a * res_b >= 1_000_000u128 * 1_000_000);
}

#[test]
fn swap_slippage_floor_is_enforced() {
    let mut pool = pool_ab(30);
    let alice = "alice".to_string();
    let a = "a".to_string();
    let b = "b".to_string();
    let mut first = vec![1_000_000u128, 1_000_000u128];
    pool.add_liquidity(&alice, &mut first).unwrap();
    let r = pool.swap(&a, 1000, &b, 10_000);
    assert_eq!(r, Err(ExchangeError::MinAmountNotMet));
    // The refused swap left the volumes untouched.
    let volumes = pool.get_volumes();
    assert_eq!(volumes[0].input, 0);
    assert_eq!(volumes[1].output, 0);
}

#[test]
fn full_share_withdrawal_returns_reserves_and_zeroes_balance() {
    let mut pool = pool_ab(30);
    let alice = "alice".to_string();
    let mut first = vec![777_777u128, 123_456u128];
    pool.add_liquidity(&alice, &mut first).unwrap();
    let shares = pool.share_balance_of(&alice);
    let amounts = pool
        .remove_liquidity(&alice, shares, vec![0, 0])
        .unwrap();
    // floor(reserve * shares / total) with shares == total is the whole
    // reserve, and the balance ends at exactly zero.
    assert_eq!(amounts, vec![777_777, 123_456]);
    assert_eq!(pool.share_balance_of(&alice), 0);
    assert_eq!(pool.share_total_balance(), 0);
}

#[test]
fn partial_share_withdrawal_rounds_down() {
    let mut pool = pool_ab(30);
    let alice = "alice".to_string();
    let mut first = vec![1_000u128, 999u128];
    pool.add_liquidity(&alice, &mut first).unwrap();
    let third = INIT_SHARES_SUPPLY / 3;
    let amounts = pool.remove_liquidity(&alice, third, vec![0, 0]).unwrap();
    let expected_a =
        (1_000u128 * third) / INIT_SHARES_SUPPLY;
    let expected_b = (999u128 * third) / INIT_SHARES_SUPPLY;
    assert_eq!(amounts, vec![expected_a, expected_b]);
    assert_eq!(pool.share_balance_of(&alice), INIT_SHARES_SUPPLY - third);
}

#[test]
fn share_withdrawal_errors() {
    let mut pool = pool_ab(30);
    let alice = "alice".to_string();
    let bob = "bob".to_string();
    let mut first = vec![1_000u128, 1_000u128];
    pool.add_liquidity(&alice, &mut first).unwrap();
    assert_eq!(
        pool.remove_liquidity(&bob, 1, vec![0, 0]),
        Err(ExchangeError::NoShares)
    );
    assert_eq!(
        pool.remove_liquidity(&alice, INIT_SHARES_SUPPLY + 1, vec![0, 0]),
        Err(ExchangeError::NotEnoughShares)
    );
    assert_eq!(
        pool.remove_liquidity(&alice, INIT_SHARES_SUPPLY, vec![1_001, 0]),
        Err(ExchangeError::MinAmountNotMet)
    );
    assert_eq!(
        pool.remove_liquidity(&alice, 1, vec![0]),
        Err(ExchangeError::WrongTokenCount)
    );
}

#[test]
fn share_register_and_transfer() {
    let mut pool = pool_ab(30);
    let alice = "alice".to_string();
    let bob = "bob".to_string();
    let carol = "carol".to_string();
    let mut first = vec![1_000u128, 1_000u128];
    pool.add_liquidity(&alice, &mut first).unwrap();
    assert_eq!(
        pool.share_register(&alice),
        Err(ExchangeError::AlreadyRegistered)
    );
    pool.share_register(&bob).unwrap();
    assert_eq!(
        pool.share_transfer(&alice, &carol, 10),
        Err(ExchangeError::NotRegistered)
    );
    assert_eq!(
        pool.share_transfer(&carol, &bob, 10),
        Err(ExchangeError::NoShares)
    );
    assert_eq!(
        pool.share_transfer(&alice, &bob, INIT_SHARES_SUPPLY + 1),
        Err(ExchangeError::NoShares)
    );
    pool.share_transfer(&alice, &bob, 400).unwrap();
    assert_eq!(pool.share_balance_of(&bob), 400);
    assert_eq!(pool.share_balance_of(&alice), INIT_SHARES_SUPPLY - 400);
    assert_eq!(pool.share_total_balance(), INIT_SHARES_SUPPLY);
}

#[test]
fn volumes_start_at_zero() {
    let v = SwapVolume::default();
    assert_eq!(v.input, 0);
    assert_eq!(v.output, 0);
    let pool = pool_ab(5);
    assert_eq!(pool.get_fee(), 5);
    let vs = pool.get_volumes();
    assert_eq!(vs.len(), 2);
    assert_eq!(vs[0].input, 0);
    assert_eq!(vs[1].output, 0);
}

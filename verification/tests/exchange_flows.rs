//! Contract-level flows: rent accounting, token registration, liquidity
//! through the ledger, and the withdrawal settlement protocol.
use ref_exchange::{
    Account, Contract, ExchangeError, TransferResult, INIT_SHARES_SUPPLY,
    STORAGE_PRICE_PER_BYTE,
};

fn s(x: &str) -> String {
    x.to_string()
}

/// Rent that comfortably covers a handful of token entries.
const PLENTY: u128 = 1_000_000_000_000_000_000_000_000;

/// A contract whose operator is "owner", with "alice" registered and
/// funded with 600 of token "tok".
fn funded_exchange() -> Contract {
    let mut c = Contract::new(s("owner"), 0, 0);
    c.internal_register_account(&s("alice"), PLENTY).unwrap();
    c.internal_save_information_to_contract(&s("alice"), &s("tok"), 600)
        .unwrap();
    c
}

#[test]
fn min_storage_usage_is_the_empty_account_cost() {
    // 98 fixed bytes at the per-byte price.
    assert_eq!(Account::min_storage_usage(), 98 * STORAGE_PRICE_PER_BYTE);
}

#[test]
fn storage_cost_grows_per_token() {
    let mut c = Contract::new(s("owner"), 0, 0);
    c.internal_register_account(&s("alice"), PLENTY).unwrap();
    c.register_tokens(&s("alice"), &vec![s("t1"), s("t2")]).unwrap();
    let deposits = c.get_deposits(&s("alice"));
    assert_eq!(deposits.len(), 2);
    assert_eq!(deposits[0].0, s("t1"));
    assert_eq!(deposits[0].1, 0);
    // Each token entry costs 148 bytes; the margin shrinks accordingly.
    let w = c.internal_storage_withdraw(&s("alice"), 0).unwrap();
    assert_eq!(w, PLENTY - (98 + 2 * 148) * STORAGE_PRICE_PER_BYTE);
}

#[test]
fn registering_beyond_the_rent_is_refused() {
    // Rent covers the bare record only: registering a token would cost
    // 148 more bytes than the deposit pays for.
    let mut c = Contract::new(s("owner"), 0, 0);
    c.internal_register_account(&s("alice"), 98 * STORAGE_PRICE_PER_BYTE)
        .unwrap();
    let r = c.register_tokens(&s("alice"), &vec![s("t1")]);
    assert_eq!(r, Err(ExchangeError::InsufficientStorage));
    // The token set is unchanged.
    assert_eq!(c.get_deposits(&s("alice")).len(), 0);
}

#[test]
fn register_account_needs_the_minimum_rent() {
    let mut c = Contract::new(s("owner"), 0, 0);
    let r = c.internal_register_account(&s("poor"), 97 * STORAGE_PRICE_PER_BYTE);
    assert_eq!(r, Err(ExchangeError::InsufficientStorage));
    assert_eq!(c.get_deposit(&s("poor"), &s("tok")), 0);
}

#[test]
fn unknown_account_operations_are_refused() {
    let mut c = Contract::new(s("owner"), 0, 0);
    assert_eq!(
        c.register_tokens(&s("ghost"), &vec![s("t1")]),
        Err(ExchangeError::AccountNotRegistered)
    );
    assert_eq!(
        c.withdraw(&s("ghost"), &s("tok"), 5, None).err(),
        Some(ExchangeError::AccountNotRegistered)
    );
    assert_eq!(
        c.internal_storage_withdraw(&s("ghost"), 0),
        Err(ExchangeError::AccountNotRegistered)
    );
}

#[test]
fn inbound_deposit_credits_the_sender() {
    let mut c = funded_exchange();
    assert_eq!(c.get_deposit(&s("alice"), &s("tok")), 600);
    // A second notification accumulates.
    let unused = c.ft_on_transfer(&s("alice"), &s("tok"), 40, &s("")).unwrap();
    assert_eq!(unused, 0);
    assert_eq!(c.get_deposit(&s("alice"), &s("tok")), 640);
}

#[test]
fn inbound_deposit_of_zero_is_refused() {
    let mut c = funded_exchange();
    assert_eq!(
        c.ft_on_transfer(&s("alice"), &s("tok"), 0, &s("")),
        Err(ExchangeError::AmountMustBePositive)
    );
}

#[test]
fn unregister_with_balance_is_refused() {
    // The balance and the entry survive the refused unregistration.
    let mut c = funded_exchange();
    let r = c.unregister_tokens(&s("alice"), &vec![s("tok")]);
    assert_eq!(r, Err(ExchangeError::NonZeroTokenBalance));
    assert_eq!(c.get_deposit(&s("alice"), &s("tok")), 600);
    assert_eq!(c.get_deposits(&s("alice")).len(), 1);
}

#[test]
fn unregister_zero_balance_token_succeeds() {
    let mut c = funded_exchange();
    c.register_tokens(&s("alice"), &vec![s("t2")]).unwrap();
    c.unregister_tokens(&s("alice"), &vec![s("t2")]).unwrap();
    assert_eq!(c.get_deposits(&s("alice")).len(), 1);
}

#[test]
fn withdraw_debits_and_requests_the_transfer() {
    let mut c = funded_exchange();
    let req = c.withdraw(&s("alice"), &s("tok"), 500, None).unwrap();
    assert_eq!(req.sender_id, s("alice"));
    assert_eq!(req.token_id, s("tok"));
    assert_eq!(req.amount, 500);
    assert_eq!(c.get_deposit(&s("alice"), &s("tok")), 100);
}

#[test]
fn withdraw_zero_means_the_full_balance() {
    let mut c = funded_exchange();
    let req = c.withdraw(&s("alice"), &s("tok"), 0, None).unwrap();
    assert_eq!(req.amount, 600);
    assert_eq!(c.get_deposit(&s("alice"), &s("tok")), 0);
}

#[test]
fn withdraw_errors() {
    let mut c = funded_exchange();
    assert_eq!(
        c.withdraw(&s("alice"), &s("tok"), 601, None).err(),
        Some(ExchangeError::NotEnoughFunds)
    );
    assert_eq!(
        c.withdraw(&s("alice"), &s("other"), 5, None).err(),
        Some(ExchangeError::TokenNotRegistered)
    );
    assert_eq!(
        c.withdraw(&s("alice"), &s("other"), 0, None).err(),
        Some(ExchangeError::TokenNotRegistered)
    );
    // A partial withdrawal cannot unregister the token.
    assert_eq!(
        c.withdraw(&s("alice"), &s("tok"), 500, Some(true)).err(),
        Some(ExchangeError::NonZeroTokenBalance)
    );
    assert_eq!(c.get_deposit(&s("alice"), &s("tok")), 600);
    // A zero resolved amount is illegal.
    c.register_tokens(&s("alice"), &vec![s("t2")]).unwrap();
    assert_eq!(
        c.withdraw(&s("alice"), &s("t2"), 0, None).err(),
        Some(ExchangeError::IllegalWithdrawAmount)
    );
}

#[test]
fn full_withdraw_may_unregister() {
    let mut c = funded_exchange();
    let req = c.withdraw(&s("alice"), &s("tok"), 0, Some(true)).unwrap();
    assert_eq!(req.amount, 600);
    assert_eq!(c.get_deposits(&s("alice")).len(), 0);
}

#[test]
fn callback_needs_exactly_one_result() {
    let mut c = funded_exchange();
    let r = c.exchange_callback_post_withdraw(&s("tok"), &s("alice"), 500, vec![]);
    assert_eq!(r, Err(ExchangeError::CallbackArityViolation));
    let r = c.exchange_callback_post_withdraw(
        &s("tok"),
        &s("alice"),
        500,
        vec![TransferResult::Successful, TransferResult::Failed],
    );
    assert_eq!(r, Err(ExchangeError::CallbackArityViolation));
}

#[test]
fn callback_success_keeps_the_debit() {
    let mut c = funded_exchange();
    c.withdraw(&s("alice"), &s("tok"), 500, None).unwrap();
    c.exchange_callback_post_withdraw(
        &s("tok"),
        &s("alice"),
        500,
        vec![TransferResult::Successful],
    )
    .unwrap();
    assert_eq!(c.get_deposit(&s("alice"), &s("tok")), 100);
    assert_eq!(c.get_deposit(&s("owner"), &s("tok")), 0);
}

#[test]
fn failed_transfer_restores_the_balance() {
    // The debited 500 flows back to alice; nothing reaches lost-and-found.
    let mut c = funded_exchange();
    c.withdraw(&s("alice"), &s("tok"), 500, None).unwrap();
    assert_eq!(c.get_deposit(&s("alice"), &s("tok")), 100);
    c.exchange_callback_post_withdraw(
        &s("tok"),
        &s("alice"),
        500,
        vec![TransferResult::Failed],
    )
    .unwrap();
    assert_eq!(c.get_deposit(&s("alice"), &s("tok")), 600);
    assert_eq!(c.get_deposit(&s("owner"), &s("tok")), 0);
}

#[test]
fn failed_transfer_for_a_gone_account_parks_in_lost_and_found() {
    // The withdrawing account is gone by the time the outcome arrives;
    // the token is allow-listed, so the amount lands on the operator's
    // ledger and the account stays absent.
    let mut c = Contract::new(s("owner"), 0, 0);
    c.extend_whitelisted_tokens(vec![s("tok")]);
    let r = c.exchange_callback_post_withdraw(
        &s("tok"),
        &s("gone"),
        500,
        vec![TransferResult::Failed],
    );
    assert!(r.is_ok());
    assert_eq!(c.get_deposit(&s("owner"), &s("tok")), 500);
    assert_eq!(c.get_deposits(&s("gone")).len(), 0);
}

#[test]
fn failed_transfer_of_unlisted_token_fails_fatally() {
    // No allow-list entry: the callback must refuse loudly and credit
    // nobody.
    let mut c = Contract::new(s("owner"), 0, 0);
    let r = c.exchange_callback_post_withdraw(
        &s("tok"),
        &s("gone"),
        500,
        vec![TransferResult::Failed],
    );
    assert_eq!(r, Err(ExchangeError::NonWhitelistedLostFound));
    assert_eq!(c.get_deposit(&s("owner"), &s("tok")), 0);
}

#[test]
fn restore_that_breaks_the_rent_falls_through_to_lost_and_found() {
    // Alice withdraws everything and unregisters; her rent is then cut
    // to exactly the bare record, so restoring the token entry would
    // break the rent check and the amount goes to the operator instead.
    let mut c = Contract::new(s("owner"), 0, 0);
    c.extend_whitelisted_tokens(vec![s("tok")]);
    c.internal_register_account(&s("alice"), PLENTY).unwrap();
    c.internal_save_information_to_contract(&s("alice"), &s("tok"), 500)
        .unwrap();
    c.withdraw(&s("alice"), &s("tok"), 0, Some(true)).unwrap();
    c.internal_storage_withdraw(&s("alice"), 0).unwrap();
    let r = c.exchange_callback_post_withdraw(
        &s("tok"),
        &s("alice"),
        500,
        vec![TransferResult::Failed],
    );
    assert!(r.is_ok());
    assert_eq!(c.get_deposit(&s("alice"), &s("tok")), 0);
    assert_eq!(c.get_deposit(&s("owner"), &s("tok")), 500);
}

#[test]
fn storage_bill_refund() {
    let c = Contract::new(s("owner"), 0, 0);
    // 50 new bytes cost 50 units of per-byte rent; the rest comes back.
    let cost = 50 * STORAGE_PRICE_PER_BYTE;
    assert_eq!(c.internal_check_storage(100, 150, cost + 7), Ok(7));
    assert_eq!(c.internal_check_storage(100, 150, cost), Ok(0));
    assert_eq!(
        c.internal_check_storage(100, 150, cost - 1),
        Err(ExchangeError::InsufficientStorage)
    );
    // Shrinking storage owes nothing.
    assert_eq!(c.internal_check_storage(150, 100, 42), Ok(42));
}

#[test]
fn whitelist_membership() {
    let mut c = Contract::new(s("owner"), 0, 0);
    assert!(!c.is_whitelisted(&s("tok")));
    c.extend_whitelisted_tokens(vec![s("tok"), s("tok2")]);
    assert!(c.is_whitelisted(&s("tok")));
    assert!(c.is_whitelisted(&s("tok2")));
    assert!(!c.is_whitelisted(&s("tok3")));
}

#[test]
fn pool_creation_and_views() {
    let mut c = Contract::new(s("owner"), 0, 0);
    assert_eq!(c.get_number_of_pools(), 0);
    assert_eq!(c.get_pool(0).err(), Some(ExchangeError::NoPool));
    let id = c.add_simple_pool(vec![s("a"), s("b")], 30).unwrap();
    assert_eq!(id, 0);
    assert_eq!(c.get_number_of_pools(), 1);
    let info = c.get_pool(0).unwrap();
    assert_eq!(info.pool_kind, s("SIMPLE_POOL"));
    assert_eq!(info.token_account_ids, vec![s("a"), s("b")]);
    assert_eq!(info.amounts, vec![0, 0]);
    assert_eq!(info.total_fee, 30);
    assert_eq!(info.shares_total_supply, 0);
    assert_eq!(info.amp, 0);
    assert_eq!(c.get_pool_total_shares(0).unwrap(), 0);
    assert_eq!(c.get_pool_shares(0, &s("owner")).unwrap(), 0);
    let vols = c.get_pool_volumes(0).unwrap();
    assert_eq!(vols.len(), 2);
    let listed = c.get_pools(0, 10);
    assert_eq!(listed.len(), 1);
    assert_eq!(
        c.add_simple_pool(vec![s("a"), s("a")], 30).err(),
        Some(ExchangeError::DuplicateTokens)
    );
    assert_eq!(
        c.add_simple_pool(vec![s("a"), s("b")], 10_000).err(),
        Some(ExchangeError::FeeTooLarge)
    );
    assert_eq!(
        c.add_simple_pool(vec![s("a")], 30).err(),
        Some(ExchangeError::WrongTokenCount)
    );
}

#[test]
fn liquidity_through_the_ledger() {
    let mut c = Contract::new(s("owner"), 0, 0);
    c.internal_register_account(&s("alice"), PLENTY).unwrap();
    c.internal_save_information_to_contract(&s("alice"), &s("a"), 1_000_000)
        .unwrap();
    c.internal_save_information_to_contract(&s("alice"), &s("b"), 1_000_000)
        .unwrap();
    let pid = c.add_simple_pool(vec![s("a"), s("b")], 30).unwrap();
    c.add_liquidity(&s("alice"), pid, vec![400_000, 300_000], None)
        .unwrap();
    // The first deposit is taken verbatim from the ledger.
    assert_eq!(c.get_deposit(&s("alice"), &s("a")), 600_000);
    assert_eq!(c.get_deposit(&s("alice"), &s("b")), 700_000);
    assert_eq!(c.get_pool_shares(pid, &s("alice")).unwrap(), INIT_SHARES_SUPPLY);
    let info = c.get_pool(pid).unwrap();
    assert_eq!(info.amounts, vec![400_000, 300_000]);

    // Removing half the shares returns half of each reserve, rounded
    // down, back to the ledger.
    c.remove_liquidity(&s("alice"), pid, INIT_SHARES_SUPPLY / 2, vec![0, 0])
        .unwrap();
    assert_eq!(c.get_deposit(&s("alice"), &s("a")), 800_000);
    assert_eq!(c.get_deposit(&s("alice"), &s("b")), 850_000);
    assert_eq!(
        c.get_pool_shares(pid, &s("alice")).unwrap(),
        INIT_SHARES_SUPPLY - INIT_SHARES_SUPPLY / 2
    );
}

#[test]
fn liquidity_beyond_the_ledger_is_refused() {
    let mut c = Contract::new(s("owner"), 0, 0);
    c.internal_register_account(&s("alice"), PLENTY).unwrap();
    c.internal_save_information_to_contract(&s("alice"), &s("a"), 100)
        .unwrap();
    let pid = c.add_simple_pool(vec![s("a"), s("b")], 30).unwrap();
    // Token b was never deposited.
    assert_eq!(
        c.add_liquidity(&s("alice"), pid, vec![50, 50], None),
        Err(ExchangeError::TokenNotRegistered)
    );
    c.internal_save_information_to_contract(&s("alice"), &s("b"), 10)
        .unwrap();
    assert_eq!(
        c.add_liquidity(&s("alice"), pid, vec![50, 50], None),
        Err(ExchangeError::NotEnoughFunds)
    );
    assert_eq!(
        c.add_liquidity(&s("alice"), 99, vec![50, 50], None),
        Err(ExchangeError::NoPool)
    );
    // Nothing moved.
    assert_eq!(c.get_deposit(&s("alice"), &s("a")), 100);
    assert_eq!(c.get_deposit(&s("alice"), &s("b")), 10);
    assert_eq!(c.get_pool(pid).unwrap().amounts, vec![0, 0]);
}

#[test]
fn liquidity_slippage_floor() {
    let mut c = Contract::new(s("owner"), 0, 0);
    c.internal_register_account(&s("alice"), PLENTY).unwrap();
    c.internal_save_information_to_contract(&s("alice"), &s("a"), 2_000_000)
        .unwrap();
    c.internal_save_information_to_contract(&s("alice"), &s("b"), 2_000_000)
        .unwrap();
    let pid = c.add_simple_pool(vec![s("a"), s("b")], 30).unwrap();
    c.add_liquidity(&s("alice"), pid, vec![1_000_000, 1_000_000], None)
        .unwrap();
    // A lopsided follow-up is capped to 400_000 of each; a floor of
    // 450_000 on the first token therefore fails, and nothing moves.
    let r = c.add_liquidity(
        &s("alice"),
        pid,
        vec![500_000, 400_000],
        Some(vec![450_000, 0]),
    );
    assert_eq!(r, Err(ExchangeError::MinAmountNotMet));
    assert_eq!(c.get_deposit(&s("alice"), &s("a")), 1_000_000);
    c.add_liquidity(
        &s("alice"),
        pid,
        vec![500_000, 400_000],
        Some(vec![400_000, 400_000]),
    )
    .unwrap();
    assert_eq!(c.get_deposit(&s("alice"), &s("a")), 600_000);
    assert_eq!(c.get_deposit(&s("alice"), &s("b")), 600_000);
}

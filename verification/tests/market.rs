use nft_market::common::ContractError;
use nft_market::common::RemoteResult;
use nft_market::market_contract::Contract;

const STORAGE_PER_SALE: u128 = 1_000 * 10_000_000_000_000_000_000;

fn market_with_listing() -> (Contract, String, String, String) {
    let alice = "alice".to_string();
    let nft = "nft".to_string();
    let token = "T1".to_string();
    let mut market = Contract::new("marketowner".to_string());
    market
        .storage_deposit(None, &alice, STORAGE_PER_SALE)
        .unwrap();
    market
        .nft_on_approve(
            token.clone(),
            alice.clone(),
            0,
            b"{\"sale_conditions\":\"100\"}".to_vec(),
            &nft,
            &alice,
        )
        .unwrap();
    (market, alice, nft, token)
}

#[test]
fn deposit_and_withdraw_round_trip() {
    let alice = "alice".to_string();
    let mut market = Contract::new("marketowner".to_string());

    let too_small = market.storage_deposit(None, &alice, STORAGE_PER_SALE - 1);
    assert_eq!(too_small.unwrap_err(), ContractError::InsufficientFunds);

    market
        .storage_deposit(None, &alice, 2 * STORAGE_PER_SALE)
        .unwrap();
    assert_eq!(market.storage_balance_of(None, &alice), 2 * STORAGE_PER_SALE);
    assert_eq!(market.storage_minimun_balance(), STORAGE_PER_SALE);

    // Nothing is listed, so everything comes back.
    let refund = market.storage_withdraw(&alice, 1).unwrap().unwrap();
    assert_eq!(refund.receiver_id, alice);
    assert_eq!(refund.amount, 2 * STORAGE_PER_SALE);
    assert_eq!(market.storage_balance_of(None, &alice), 0);
}

#[test]
fn withdraw_keeps_rent_for_active_listings() {
    let (mut market, alice, _nft, _token) = market_with_listing();
    market
        .storage_deposit(None, &alice, STORAGE_PER_SALE)
        .unwrap();
    // One listing is active: exactly one rent unit stays locked.
    let refund = market.storage_withdraw(&alice, 1).unwrap().unwrap();
    assert_eq!(refund.amount, STORAGE_PER_SALE);
    assert_eq!(market.storage_balance_of(None, &alice), STORAGE_PER_SALE);
}

#[test]
fn notification_hook_creates_the_listing() {
    let (market, alice, nft, token) = market_with_listing();
    assert_eq!(market.get_supply_sales(), 1);
    assert_eq!(market.get_supply_by_owner_id(alice.clone()), 1);
    assert_eq!(market.get_supply_by_contract_id(nft.clone()), 1);
    let sales = market.get_sales(None, Some(10));
    assert_eq!(sales.len(), 1);
    assert_eq!(sales[0].owner_id, alice);
    assert_eq!(sales[0].nft_contract_id, nft);
    assert_eq!(sales[0].token_id, token);
    assert_eq!(sales[0].sale_conditions, 100);
    let by_owner = market.get_sale_by_owner_id(alice, None, Some(10));
    assert_eq!(by_owner.len(), 1);
    assert_eq!(by_owner[0].sale_conditions, 100);
    let by_contract = market.get_sale_by_contract_id(nft, None, Some(10));
    assert_eq!(by_contract.len(), 1);
    assert_eq!(by_contract[0].token_id, token);
}

#[test]
fn hook_rejects_spoofed_or_unfunded_calls() {
    let alice = "alice".to_string();
    let nft = "nft".to_string();
    let mut market = Contract::new("marketowner".to_string());

    // A user calling the hook directly: caller equals signer.
    let spoofed = market.nft_on_approve(
        "T1".to_string(),
        alice.clone(),
        0,
        b"{\"sale_conditions\":\"100\"}".to_vec(),
        &alice,
        &alice,
    );
    assert_eq!(spoofed.unwrap_err(), ContractError::Authorization);

    // A signer who is not the claimed owner.
    let forged = market.nft_on_approve(
        "T1".to_string(),
        "bob".to_string(),
        0,
        b"{\"sale_conditions\":\"100\"}".to_vec(),
        &nft,
        &alice,
    );
    assert_eq!(forged.unwrap_err(), ContractError::Authorization);

    // No rent on deposit.
    let unfunded = market.nft_on_approve(
        "T1".to_string(),
        alice.clone(),
        0,
        b"{\"sale_conditions\":\"100\"}".to_vec(),
        &nft,
        &alice,
    );
    assert_eq!(unfunded.unwrap_err(), ContractError::InsufficientFunds);

    // A malformed message.
    market
        .storage_deposit(None, &alice, STORAGE_PER_SALE)
        .unwrap();
    let malformed = market.nft_on_approve(
        "T1".to_string(),
        alice.clone(),
        0,
        b"{\"sale_conditions\":100}".to_vec(),
        &nft,
        &alice,
    );
    assert_eq!(malformed.unwrap_err(), ContractError::InvalidArgument);
    assert_eq!(market.get_supply_sales(), 0);
}

#[test]
fn offer_settles_at_the_attached_amount() {
    let (mut market, _alice, nft, token) = market_with_listing();
    let bob = "bob".to_string();
    // The listed price is 100, the buyer attaches 150: the settlement is
    // scheduled with 150, the attached amount.
    let receipt = market.offer(nft.clone(), token.clone(), &bob, 150).unwrap();
    assert_eq!(receipt.payout_call.nft_contract_id, nft);
    assert_eq!(receipt.payout_call.receiver_id, bob);
    assert_eq!(receipt.payout_call.token_id, token);
    assert_eq!(receipt.payout_call.approval_id, 0);
    assert_eq!(receipt.payout_call.amount, 150);
    assert_eq!(receipt.payout_call.max_len_payout, 10);
    assert_eq!(receipt.resolution.buyer_id, bob);
    assert_eq!(receipt.resolution.price, 150);
    // The listing is gone before the remote call is made.
    assert_eq!(market.get_supply_sales(), 0);
}

#[test]
fn re_offering_a_purchased_listing_reports_not_found() {
    let (mut market, _alice, nft, token) = market_with_listing();
    let bob = "bob".to_string();
    market.offer(nft.clone(), token.clone(), &bob, 150).unwrap();
    let again = market.offer(nft, token, &bob, 150);
    assert_eq!(again.unwrap_err(), ContractError::NotFound);
}

#[test]
fn offer_preconditions() {
    let (mut market, alice, nft, token) = market_with_listing();
    let bob = "bob".to_string();
    let zero = market.offer(nft.clone(), token.clone(), &bob, 0);
    assert_eq!(zero.unwrap_err(), ContractError::InsufficientFunds);
    let own_sale = market.offer(nft.clone(), token.clone(), &alice, 150);
    assert_eq!(own_sale.unwrap_err(), ContractError::InvalidArgument);
    let below_price = market.offer(nft.clone(), token.clone(), &bob, 99);
    assert_eq!(below_price.unwrap_err(), ContractError::InsufficientFunds);
    assert_eq!(market.get_supply_sales(), 1);
}

#[test]
fn update_price_and_remove_sale_are_owner_gated() {
    let (mut market, alice, nft, token) = market_with_listing();
    let eve = "eve".to_string();
    let forged = market.update_price(nft.clone(), token.clone(), 7, &eve, 1);
    assert_eq!(forged.unwrap_err(), ContractError::Authorization);
    market
        .update_price(nft.clone(), token.clone(), 250, &alice, 1)
        .unwrap();
    assert_eq!(market.get_sales(None, Some(1))[0].sale_conditions, 250);

    let forged_removal = market.remove_sale(nft.clone(), token.clone(), &eve, 1);
    assert_eq!(forged_removal.unwrap_err(), ContractError::Authorization);
    market.remove_sale(nft.clone(), token.clone(), &alice, 1).unwrap();
    assert_eq!(market.get_supply_sales(), 0);
    let gone = market.update_price(nft, token, 7, &alice, 1);
    assert_eq!(gone.unwrap_err(), ContractError::NotFound);
}

#[test]
fn valid_payout_is_disbursed_once_each() {
    let market = Contract::new("marketowner".to_string());
    let bob = "bob".to_string();
    let outcome = RemoteResult::Succeeded(
        b"{\"payout\":{\"alice\":\"140\",\"royal\":\"10\"}}".to_vec(),
    );
    let (settled, transfers) = market.resolve_purchase(bob, 150, outcome);
    assert_eq!(settled, 150);
    assert_eq!(transfers.len(), 2);
    assert_eq!(transfers[0].receiver_id, "alice");
    assert_eq!(transfers[0].amount, 140);
    assert_eq!(transfers[1].receiver_id, "royal");
    assert_eq!(transfers[1].amount, 10);
}

#[test]
fn payout_one_unit_short_is_still_valid() {
    let market = Contract::new("marketowner".to_string());
    let outcome = RemoteResult::Succeeded(b"{\"payout\":{\"alice\":\"149\"}}".to_vec());
    let (_, transfers) = market.resolve_purchase("bob".to_string(), 150, outcome);
    assert_eq!(transfers.len(), 1);
    assert_eq!(transfers[0].receiver_id, "alice");
    assert_eq!(transfers[0].amount, 149);
}

#[test]
fn invalid_payouts_refund_the_buyer_in_full() {
    let market = Contract::new("marketowner".to_string());
    let bob = "bob".to_string();
    let cases: Vec<RemoteResult> = vec![
        RemoteResult::Failed,
        RemoteResult::Succeeded(b"not json".to_vec()),
        // Empty split.
        RemoteResult::Succeeded(b"{\"payout\":{}}".to_vec()),
        // Two units short of the paid amount.
        RemoteResult::Succeeded(b"{\"payout\":{\"alice\":\"148\"}}".to_vec()),
        // More than the paid amount.
        RemoteResult::Succeeded(b"{\"payout\":{\"alice\":\"151\"}}".to_vec()),
        // The same payee twice.
        RemoteResult::Succeeded(
            b"{\"payout\":{\"alice\":\"100\",\"alice\":\"50\"}}".to_vec(),
        ),
        // Eleven payees.
        RemoteResult::Succeeded(
            b"{\"payout\":{\"a\":\"5\",\"b\":\"5\",\"c\":\"5\",\"d\":\"5\",\"e\":\"5\",\"f\":\"5\",\"g\":\"5\",\"h\":\"5\",\"i\":\"5\",\"j\":\"5\",\"k\":\"100\"}}"
                .to_vec(),
        ),
    ];
    for outcome in cases {
        let (settled, transfers) = market.resolve_purchase(bob.clone(), 150, outcome);
        assert_eq!(settled, 150);
        assert_eq!(transfers.len(), 1);
        assert_eq!(transfers[0].receiver_id, bob);
        assert_eq!(transfers[0].amount, 150);
    }
}

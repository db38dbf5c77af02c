use nft_market::common::RemoteResult;
use nft_market::market_contract::Contract as Market;
use nft_market::metadata::TokenMetadata;
use nft_market::nft_contract::Contract as Registry;

const MINT_STORAGE_COST: u128 = 58_700_000_000_000_000_000_000;
const MINT_STORAGE_BYTES: u64 = 5_870;
const PRICE_PER_BYTE: u128 = 10_000_000_000_000_000_000;
const STORAGE_PER_SALE: u128 = 1_000 * PRICE_PER_BYTE;

fn empty_metadata() -> TokenMetadata {
    TokenMetadata {
        title: None,
        description: None,
        media: None,
        media_hash: None,
        copies: None,
        issued_at: None,
        expires_at: None,
        starts_at: None,
        updated_at: None,
        extra: None,
        reference: None,
        reference_hash: None,
    }
}

fn entry_cost(account: &str) -> u128 {
    (account.len() as u128 + 32) * PRICE_PER_BYTE
}

/// Mint, deposit rent, approve the marketplace with a price message, and
/// deliver the scheduled notification to the marketplace's hook once: the
/// full listing path across both components.
#[test]
fn mint_approve_notify_list_and_sell() {
    let alice = "alice".to_string();
    let bob = "bob".to_string();
    let nft_account = "nft".to_string();
    let market_account = "market".to_string();

    let mut registry = Registry::new_default_metadata(alice.clone());
    let mut market = Market::new("marketowner".to_string());

    registry
        .nft_mint(
            "T1".to_string(),
            empty_metadata(),
            alice.clone(),
            &alice,
            MINT_STORAGE_COST,
            MINT_STORAGE_BYTES,
        )
        .unwrap();
    market.storage_deposit(None, &alice, STORAGE_PER_SALE).unwrap();

    let out = registry
        .nft_approve(
            "T1".to_string(),
            market_account.clone(),
            Some("{\"sale_conditions\":\"100\"}".to_string()),
            &alice,
            entry_cost("market"),
        )
        .unwrap();
    let call = out.notification.unwrap();
    market
        .nft_on_approve(
            call.token_id,
            call.owner_id,
            call.approval_id,
            call.msg.into_bytes(),
            &nft_account,
            &alice,
        )
        .unwrap();

    let sales = market.get_sales(None, Some(10));
    assert_eq!(sales.len(), 1);
    assert_eq!(sales[0].owner_id, alice);
    assert_eq!(sales[0].sale_conditions, 100);
    assert_eq!(sales[0].approval_id, 0);

    // The buyer overpays; the settlement is scheduled with the attached
    // 150, and the approval id snapshot rides along.
    let receipt = market.offer(nft_account.clone(), "T1".to_string(), &bob, 150).unwrap();
    assert_eq!(receipt.payout_call.amount, 150);
    assert_eq!(receipt.payout_call.approval_id, 0);

    // The origin registry settles: transfer to the buyer under the
    // snapshot's approval id, then the split is disbursed.
    registry
        .nft_transfer(bob.clone(), "T1".to_string(), 0, None, &market_account, 1)
        .unwrap();
    assert_eq!(registry.nft_token("T1".to_string()).unwrap().owner_id, bob);

    let (settled, transfers) = market.resolve_purchase(
        receipt.resolution.buyer_id,
        receipt.resolution.price,
        RemoteResult::Succeeded(b"{\"payout\":{\"alice\":\"150\"}}".to_vec()),
    );
    assert_eq!(settled, 150);
    assert_eq!(transfers.len(), 1);
    assert_eq!(transfers[0].receiver_id, alice);
    assert_eq!(transfers[0].amount, 150);
}

/// A token approved to the marketplace a second time replaces its listing
/// in place: one listing, the new price, both indexes still consistent.
#[test]
fn re_approval_replaces_the_listing() {
    let alice = "alice".to_string();
    let nft_account = "nft".to_string();
    let mut market = Market::new("marketowner".to_string());
    market.storage_deposit(None, &alice, 2 * STORAGE_PER_SALE).unwrap();
    market
        .nft_on_approve(
            "T1".to_string(),
            alice.clone(),
            0,
            b"{\"sale_conditions\":\"100\"}".to_vec(),
            &nft_account,
            &alice,
        )
        .unwrap();
    market
        .nft_on_approve(
            "T1".to_string(),
            alice.clone(),
            1,
            b"{\"sale_conditions\":\"250\"}".to_vec(),
            &nft_account,
            &alice,
        )
        .unwrap();
    assert_eq!(market.get_supply_sales(), 1);
    assert_eq!(market.get_supply_by_owner_id(alice.clone()), 1);
    assert_eq!(market.get_supply_by_contract_id(nft_account.clone()), 1);
    let sales = market.get_sale_by_owner_id(alice, None, Some(10));
    assert_eq!(sales.len(), 1);
    assert_eq!(sales[0].sale_conditions, 250);
    assert_eq!(sales[0].approval_id, 1);
}

/// A rollback returns the approvals the receiver had granted in the
/// meantime to the receiver as a storage refund, and restores the previous
/// owner's snapshot.
#[test]
fn rollback_refunds_receiver_approvals_and_restores_snapshot() {
    let alice = "alice".to_string();
    let bob = "bob".to_string();
    let carol = "carol".to_string();
    let dave = "dave".to_string();
    let mut registry = Registry::new_default_metadata(alice.clone());
    registry
        .nft_mint(
            "t".to_string(),
            empty_metadata(),
            alice.clone(),
            &alice,
            MINT_STORAGE_COST,
            MINT_STORAGE_BYTES,
        )
        .unwrap();
    registry
        .nft_approve("t".to_string(), carol.clone(), None, &alice, entry_cost("carol"))
        .unwrap();

    let receipt = registry
        .nft_transfer_call(bob.clone(), "t".to_string(), None, 0, String::new(), &alice, 1)
        .unwrap();

    // The receiver grants an approval of its own before the hook settles.
    registry
        .nft_approve("t".to_string(), dave.clone(), None, &bob, entry_cost("dave"))
        .unwrap();

    let (stands, refund) = registry.nft_resolve_transfer(
        receipt.resolution.owner_id,
        receipt.resolution.receiver_id,
        receipt.resolution.token_id,
        receipt.resolution.approved_account_ids,
        RemoteResult::Failed,
    );
    assert!(!stands);
    assert_eq!(refund.receiver_id, bob);
    assert_eq!(refund.amount, entry_cost("dave"));
    assert_eq!(registry.nft_token("t".to_string()).unwrap().owner_id, alice);
    // The snapshot is back; the receiver's own grant is gone.
    assert_eq!(registry.nft_is_approved("t".to_string(), carol, Some(0)), Ok(true));
    assert_eq!(registry.nft_is_approved("t".to_string(), dave, None), Ok(false));
}

/// An approved account, not just the owner, can start the asynchronous
/// transfer.
#[test]
fn approved_account_can_transfer_with_callback() {
    let alice = "alice".to_string();
    let market_account = "market".to_string();
    let bob = "bob".to_string();
    let mut registry = Registry::new_default_metadata(alice.clone());
    registry
        .nft_mint(
            "t".to_string(),
            empty_metadata(),
            alice.clone(),
            &alice,
            MINT_STORAGE_COST,
            MINT_STORAGE_BYTES,
        )
        .unwrap();
    registry
        .nft_approve("t".to_string(), market_account.clone(), None, &alice, entry_cost("market"))
        .unwrap();
    let receipt = registry
        .nft_transfer_call(
            bob.clone(),
            "t".to_string(),
            None,
            0,
            String::new(),
            &market_account,
            1,
        )
        .unwrap();
    assert_eq!(receipt.on_transfer.sender_id, market_account);
    assert_eq!(receipt.on_transfer.previous_owner_id, alice);
    assert_eq!(registry.nft_token("t".to_string()).unwrap().owner_id, bob);
}

/// Tokens of several owners stay under their owners through transfers.
#[test]
fn owner_index_tracks_transfers_across_owners() {
    let alice = "alice".to_string();
    let bob = "bob".to_string();
    let mut registry = Registry::new_default_metadata(alice.clone());
    for name in ["a", "b", "c"] {
        registry
            .nft_mint(
                name.to_string(),
                empty_metadata(),
                alice.clone(),
                &alice,
                MINT_STORAGE_COST,
                MINT_STORAGE_BYTES,
            )
            .unwrap();
    }
    registry.nft_transfer(bob.clone(), "b".to_string(), 0, None, &alice, 1).unwrap();
    assert_eq!(registry.nft_supply_for_owner(alice.clone()), 2);
    assert_eq!(registry.nft_supply_for_owner(bob.clone()), 1);
    let alices = registry.nft_tokens_for_owner(alice, None, Some(10));
    assert_eq!(alices.len(), 2);
    assert_eq!(alices[0].token_id, "a");
    assert_eq!(alices[1].token_id, "c");
    let bobs = registry.nft_tokens_for_owner(bob, None, Some(10));
    assert_eq!(bobs.len(), 1);
    assert_eq!(bobs[0].token_id, "b");
}

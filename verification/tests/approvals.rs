use nft_market::common::ContractError;
use nft_market::metadata::TokenMetadata;
use nft_market::nft_contract::Contract;

const MINT_STORAGE_COST: u128 = 58_700_000_000_000_000_000_000;
const MINT_STORAGE_BYTES: u64 = 5_870;
const PRICE_PER_BYTE: u128 = 10_000_000_000_000_000_000;

fn empty_metadata() -> TokenMetadata {
    TokenMetadata {
        title: None,
        description: None,
        media: None,
        media_hash: None,
        copies: None,
        issued_at: None,
        expires_at: None,
        starts_at: None,
        updated_at: None,
        extra: None,
        reference: None,
        reference_hash: None,
    }
}

fn registry_with_token(owner: &str, token: &str) -> Contract {
    let owner_s = owner.to_string();
    let mut contract = Contract::new_default_metadata(owner_s.clone());
    contract
        .nft_mint(
            token.to_string(),
            empty_metadata(),
            owner_s.clone(),
            &owner_s,
            MINT_STORAGE_COST,
            MINT_STORAGE_BYTES,
        )
        .unwrap();
    contract
}

fn entry_cost(account: &str) -> u128 {
    (account.len() as u128 + 32) * PRICE_PER_BYTE
}

#[test]
fn approve_grants_increasing_ids() {
    let alice = "alice".to_string();
    let market = "market".to_string();
    let mut contract = registry_with_token("alice", "t");

    let out = contract
        .nft_approve("t".to_string(), market.clone(), None, &alice, entry_cost("market"))
        .unwrap();
    assert!(out.refund.is_none());
    assert!(out.notification.is_none());
    assert!(contract
        .nft_is_approved("t".to_string(), market.clone(), Some(0))
        .unwrap());
    assert!(!contract
        .nft_is_approved("t".to_string(), market.clone(), Some(1))
        .unwrap());
    assert!(contract
        .nft_is_approved("t".to_string(), market.clone(), None)
        .unwrap());

    // Revoke, then grant again: the old id is gone for good.
    let refund = contract
        .nft_revoke("t".to_string(), market.clone(), &alice, 1)
        .unwrap()
        .unwrap();
    assert_eq!(refund.receiver_id, alice);
    assert_eq!(refund.amount, entry_cost("market"));
    assert_eq!(
        contract.nft_is_approved("t".to_string(), market.clone(), None),
        Ok(false)
    );

    let out2 = contract
        .nft_approve("t".to_string(), market.clone(), None, &alice, entry_cost("market"))
        .unwrap();
    assert_eq!(out2.notification.is_none(), true);
    assert!(contract
        .nft_is_approved("t".to_string(), market.clone(), Some(1))
        .unwrap());
    assert!(!contract
        .nft_is_approved("t".to_string(), market.clone(), Some(0))
        .unwrap());
}

#[test]
fn approve_with_message_schedules_one_notification() {
    let alice = "alice".to_string();
    let market = "market".to_string();
    let mut contract = registry_with_token("alice", "t");
    let out = contract
        .nft_approve(
            "t".to_string(),
            market.clone(),
            Some("{\"sale_conditions\":\"100\"}".to_string()),
            &alice,
            entry_cost("market"),
        )
        .unwrap();
    let call = out.notification.unwrap();
    assert_eq!(call.receiver_id, market);
    assert_eq!(call.token_id, "t");
    assert_eq!(call.owner_id, alice);
    assert_eq!(call.approval_id, 0);
    assert_eq!(call.msg, "{\"sale_conditions\":\"100\"}");
}

#[test]
fn approve_by_non_owner_is_rejected() {
    let eve = "eve".to_string();
    let mut contract = registry_with_token("alice", "t");
    let r = contract.nft_approve("t".to_string(), "m".to_string(), None, &eve, entry_cost("m"));
    assert_eq!(r.unwrap_err(), ContractError::Authorization);
}

#[test]
fn revoking_an_absent_approval_is_a_no_op() {
    let alice = "alice".to_string();
    let mut contract = registry_with_token("alice", "t");
    let r = contract
        .nft_revoke("t".to_string(), "stranger".to_string(), &alice, 1)
        .unwrap();
    assert!(r.is_none());
    assert_eq!(
        contract.nft_is_approved("t".to_string(), "stranger".to_string(), None),
        Ok(false)
    );
}

#[test]
fn revoke_all_refunds_every_entry() {
    let alice = "alice".to_string();
    let mut contract = registry_with_token("alice", "t");
    for grantee in ["m1", "m2"] {
        contract
            .nft_approve("t".to_string(), grantee.to_string(), None, &alice, entry_cost(grantee))
            .unwrap();
    }
    let refund = contract
        .nft_revoke_all("t".to_string(), &alice, 1)
        .unwrap()
        .unwrap();
    assert_eq!(refund.receiver_id, alice);
    assert_eq!(refund.amount, entry_cost("m1") + entry_cost("m2"));
    assert_eq!(contract.nft_is_approved("t".to_string(), "m1".to_string(), None), Ok(false));

    // Clearing an already empty map schedules nothing.
    let again = contract.nft_revoke_all("t".to_string(), &alice, 1).unwrap();
    assert!(again.is_none());
}

#[test]
fn approved_account_can_transfer_with_exact_id_only() {
    let alice = "alice".to_string();
    let market = "market".to_string();
    let mut contract = registry_with_token("alice", "t");
    contract
        .nft_approve("t".to_string(), market.clone(), None, &alice, entry_cost("market"))
        .unwrap();

    // A stale id fails the exact-match check.
    let stale = contract.nft_transfer("bob".to_string(), "t".to_string(), 7, None, &market, 1);
    assert_eq!(stale.unwrap_err(), ContractError::Authorization);

    let refund = contract
        .nft_transfer("bob".to_string(), "t".to_string(), 0, None, &market, 1)
        .unwrap();
    // The cleared approval map's storage flows back to the previous
    // owner, who paid for those entries, even though an approved account
    // made the call.
    assert_eq!(refund.receiver_id, alice);
    assert_eq!(refund.amount, entry_cost("market"));
    assert_eq!(contract.nft_token("t".to_string()).unwrap().owner_id, "bob");
    // The new owner starts with a clean approval map.
    assert_eq!(contract.nft_is_approved("t".to_string(), market, None), Ok(false));
}

#[test]
fn helper_formulas_are_exact() {
    assert_eq!(
        nft_market::utils::bytes_for_approved_account_id(&"abc".to_string()),
        35
    );
    assert_eq!(nft_market::utils::royalty_to_payout(1_000, 10_000), 1_000);
    assert_eq!(nft_market::utils::royalty_to_payout(2_500, 99), 24);
}

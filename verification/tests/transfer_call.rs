use nft_market::common::RemoteResult;
use nft_market::metadata::TokenMetadata;
use nft_market::nft_contract::Contract;

const MINT_STORAGE_COST: u128 = 58_700_000_000_000_000_000_000;
const MINT_STORAGE_BYTES: u64 = 5_870;
const PRICE_PER_BYTE: u128 = 10_000_000_000_000_000_000;

fn empty_metadata() -> TokenMetadata {
    TokenMetadata {
        title: None,
        description: None,
        media: None,
        media_hash: None,
        copies: None,
        issued_at: None,
        expires_at: None,
        starts_at: None,
        updated_at: None,
        extra: None,
        reference: None,
        reference_hash: None,
    }
}

fn registry_with_approved_token() -> (Contract, String, String, String) {
    let alice = "alice".to_string();
    let carol = "carol".to_string();
    let token = "t".to_string();
    let mut contract = Contract::new_default_metadata(alice.clone());
    contract
        .nft_mint(
            token.clone(),
            empty_metadata(),
            alice.clone(),
            &alice,
            MINT_STORAGE_COST,
            MINT_STORAGE_BYTES,
        )
        .unwrap();
    contract
        .nft_approve(
            token.clone(),
            carol.clone(),
            None,
            &alice,
            (carol.len() as u128 + 32) * PRICE_PER_BYTE,
        )
        .unwrap();
    (contract, alice, carol, token)
}

#[test]
fn transfer_call_schedules_hook_and_resolver() {
    let (mut contract, alice, _carol, token) = registry_with_approved_token();
    let bob = "bob".to_string();
    let receipt = contract
        .nft_transfer_call(
            bob.clone(),
            token.clone(),
            None,
            0,
            "take it".to_string(),
            &alice,
            1,
        )
        .unwrap();
    assert_eq!(receipt.on_transfer.receiver_id, bob);
    assert_eq!(receipt.on_transfer.sender_id, alice);
    assert_eq!(receipt.on_transfer.previous_owner_id, alice);
    assert_eq!(receipt.on_transfer.token_id, token);
    assert_eq!(receipt.on_transfer.msg, "take it");
    assert_eq!(receipt.resolution.owner_id, alice);
    assert_eq!(receipt.resolution.receiver_id, bob);
    // Phase one already moved the token.
    assert_eq!(contract.nft_token(token).unwrap().owner_id, bob);
}

#[test]
fn failed_hook_rolls_the_transfer_back() {
    let (mut contract, alice, carol, token) = registry_with_approved_token();
    let bob = "bob".to_string();
    let receipt = contract
        .nft_transfer_call(bob.clone(), token.clone(), None, 0, String::new(), &alice, 1)
        .unwrap();
    let (stands, refund) = contract.nft_resolve_transfer(
        receipt.resolution.owner_id,
        receipt.resolution.receiver_id,
        receipt.resolution.token_id,
        receipt.resolution.approved_account_ids,
        RemoteResult::Failed,
    );
    assert!(!stands);
    // The receiver had granted no approvals, so its refund is empty.
    assert_eq!(refund.receiver_id, bob);
    assert_eq!(refund.amount, 0);
    // The previous owner and the approval snapshot are restored.
    assert_eq!(contract.nft_token(token.clone()).unwrap().owner_id, alice);
    assert_eq!(
        contract.nft_is_approved(token, carol, Some(0)),
        Ok(true)
    );
}

#[test]
fn hook_requesting_rollback_rolls_the_transfer_back() {
    let (mut contract, alice, _carol, token) = registry_with_approved_token();
    let receipt = contract
        .nft_transfer_call("bob".to_string(), token.clone(), None, 0, String::new(), &alice, 1)
        .unwrap();
    let (stands, _refund) = contract.nft_resolve_transfer(
        receipt.resolution.owner_id,
        receipt.resolution.receiver_id,
        receipt.resolution.token_id,
        receipt.resolution.approved_account_ids,
        RemoteResult::Succeeded(b"true".to_vec()),
    );
    assert!(!stands);
    assert_eq!(contract.nft_token(token).unwrap().owner_id, alice);
}

#[test]
fn malformed_hook_answer_counts_as_failure() {
    let (mut contract, alice, _carol, token) = registry_with_approved_token();
    let receipt = contract
        .nft_transfer_call("bob".to_string(), token.clone(), None, 0, String::new(), &alice, 1)
        .unwrap();
    let (stands, _refund) = contract.nft_resolve_transfer(
        receipt.resolution.owner_id,
        receipt.resolution.receiver_id,
        receipt.resolution.token_id,
        receipt.resolution.approved_account_ids,
        RemoteResult::Succeeded(b"maybe".to_vec()),
    );
    assert!(!stands);
    assert_eq!(contract.nft_token(token).unwrap().owner_id, alice);
}

#[test]
fn accepting_hook_commits_and_refunds_previous_owner() {
    let (mut contract, alice, carol, token) = registry_with_approved_token();
    let bob = "bob".to_string();
    let receipt = contract
        .nft_transfer_call(bob.clone(), token.clone(), None, 0, String::new(), &alice, 1)
        .unwrap();
    let (stands, refund) = contract.nft_resolve_transfer(
        receipt.resolution.owner_id,
        receipt.resolution.receiver_id,
        receipt.resolution.token_id,
        receipt.resolution.approved_account_ids,
        RemoteResult::Succeeded(b"false".to_vec()),
    );
    assert!(stands);
    // The cleared snapshot's storage flows back to the previous owner.
    assert_eq!(refund.receiver_id, alice);
    assert_eq!(refund.amount, (carol.len() as u128 + 32) * PRICE_PER_BYTE);
    assert_eq!(contract.nft_token(token).unwrap().owner_id, bob);
}

#[test]
fn rollback_is_skipped_when_the_token_moved_on() {
    let (mut contract, alice, _carol, token) = registry_with_approved_token();
    let bob = "bob".to_string();
    let dave = "dave".to_string();
    let receipt = contract
        .nft_transfer_call(bob.clone(), token.clone(), None, 0, String::new(), &alice, 1)
        .unwrap();
    // The receiver passes the token along before the resolver runs.
    contract
        .nft_transfer(dave.clone(), token.clone(), 0, None, &bob, 1)
        .unwrap();
    let (stands, _refund) = contract.nft_resolve_transfer(
        receipt.resolution.owner_id,
        receipt.resolution.receiver_id,
        receipt.resolution.token_id,
        receipt.resolution.approved_account_ids,
        RemoteResult::Failed,
    );
    assert!(stands);
    assert_eq!(contract.nft_token(token).unwrap().owner_id, dave);
}

use nft_market::common::ContractError;
use nft_market::metadata::TokenMetadata;
use nft_market::nft_contract::Contract;

const MINT_STORAGE_COST: u128 = 58_700_000_000_000_000_000_000;
const MINT_STORAGE_BYTES: u64 = 5_870;

fn get_sample_metadata() -> TokenMetadata {
    TokenMetadata {
        title: Some("TOKEN TEST".to_owned()),
        description: Some("Description".to_owned()),
        media: None,
        media_hash: None,
        copies: None,
        issued_at: None,
        expires_at: None,
        starts_at: None,
        updated_at: None,
        extra: None,
        reference: None,
        reference_hash: None,
    }
}

#[test]
fn test_mint_token() {
    let alice = "alice".to_string();
    let mut contract = Contract::new_default_metadata(alice.clone());

    let token_id = "ZNG_NFT".to_string();
    contract
        .nft_mint(
            token_id.clone(),
            get_sample_metadata(),
            alice.clone(),
            &alice,
            MINT_STORAGE_COST,
            MINT_STORAGE_BYTES,
        )
        .unwrap();

    let token = contract.nft_token(token_id.clone()).unwrap();

    assert_eq!(alice, token.owner_id);
    assert_eq!(token_id.clone(), token.token_id);
    assert_eq!(token.metadata, get_sample_metadata());
}

#[test]
fn test_transfer_nft() {
    let alice = "alice".to_string();
    let bob = "bob".to_string();
    let mut contract = Contract::new_default_metadata(alice.clone());

    let token_id = "zng_nft".to_owned();
    contract
        .nft_mint(
            token_id.clone(),
            get_sample_metadata(),
            alice.clone(),
            &alice,
            MINT_STORAGE_COST,
            MINT_STORAGE_BYTES,
        )
        .unwrap();

    let token = contract.nft_token(token_id.clone()).unwrap();
    assert_eq!(token.owner_id, alice);
    assert_eq!(token.token_id, token_id);
    assert_eq!(get_sample_metadata(), token.metadata);

    contract
        .nft_transfer(bob.clone(), token_id.clone(), 1, None, &alice, 1)
        .unwrap();

    let new_token = contract.nft_token(token_id.clone()).unwrap();
    assert_eq!(new_token.owner_id, bob);
    assert_eq!(new_token.token_id, token_id);
    assert_eq!(get_sample_metadata(), new_token.metadata);
}

#[test]
fn mint_existing_id_is_rejected() {
    let alice = "alice".to_string();
    let mut contract = Contract::new_default_metadata(alice.clone());
    contract
        .nft_mint(
            "t".to_string(),
            get_sample_metadata(),
            alice.clone(),
            &alice,
            MINT_STORAGE_COST,
            MINT_STORAGE_BYTES,
        )
        .unwrap();
    let again = contract.nft_mint(
        "t".to_string(),
        get_sample_metadata(),
        alice.clone(),
        &alice,
        MINT_STORAGE_COST,
        MINT_STORAGE_BYTES,
    );
    assert_eq!(again.unwrap_err(), ContractError::InvalidArgument);
}

#[test]
fn mint_underpaid_is_rejected_and_excess_is_refunded() {
    let alice = "alice".to_string();
    let mut contract = Contract::new_default_metadata(alice.clone());
    let poor = contract.nft_mint(
        "t".to_string(),
        get_sample_metadata(),
        alice.clone(),
        &alice,
        MINT_STORAGE_COST - 1,
        MINT_STORAGE_BYTES,
    );
    assert_eq!(poor.unwrap_err(), ContractError::InsufficientFunds);
    assert!(contract.nft_token("t".to_string()).is_none());

    let refund = contract
        .nft_mint(
            "t".to_string(),
            get_sample_metadata(),
            alice.clone(),
            &alice,
            MINT_STORAGE_COST + 7,
            MINT_STORAGE_BYTES,
        )
        .unwrap()
        .unwrap();
    assert_eq!(refund.receiver_id, alice);
    assert_eq!(refund.amount, 7);
}

#[test]
fn transfer_of_missing_token_reports_not_found() {
    let alice = "alice".to_string();
    let mut contract = Contract::new_default_metadata(alice.clone());
    let r = contract.nft_transfer("bob".to_string(), "nope".to_string(), 0, None, &alice, 1);
    assert_eq!(r.unwrap_err(), ContractError::NotFound);
}

#[test]
fn transfer_by_stranger_is_rejected() {
    let alice = "alice".to_string();
    let eve = "eve".to_string();
    let mut contract = Contract::new_default_metadata(alice.clone());
    contract
        .nft_mint(
            "t".to_string(),
            get_sample_metadata(),
            alice.clone(),
            &alice,
            MINT_STORAGE_COST,
            MINT_STORAGE_BYTES,
        )
        .unwrap();
    let r = contract.nft_transfer("eve2".to_string(), "t".to_string(), 0, None, &eve, 1);
    assert_eq!(r.unwrap_err(), ContractError::Authorization);
    assert_eq!(contract.nft_token("t".to_string()).unwrap().owner_id, alice);
}

#[test]
fn enumeration_views_follow_pagination_conventions() {
    let alice = "alice".to_string();
    let mut contract = Contract::new_default_metadata(alice.clone());
    for name in ["a", "b", "c"] {
        contract
            .nft_mint(
                name.to_string(),
                get_sample_metadata(),
                alice.clone(),
                &alice,
                MINT_STORAGE_COST,
                MINT_STORAGE_BYTES,
            )
            .unwrap();
    }
    assert_eq!(contract.nft_total_supply(), 3);
    assert_eq!(contract.nft_supply_for_owner(alice.clone()), 3);
    assert_eq!(contract.nft_supply_for_owner("bob".to_string()), 0);
    // An absent limit means a limit of zero.
    assert_eq!(contract.nft_tokens(None, None).len(), 0);
    let page = contract.nft_tokens(Some(1), Some(5));
    assert_eq!(page.len(), 2);
    assert_eq!(page[0].token_id, "b");
    assert_eq!(page[1].token_id, "c");
    let owned = contract.nft_tokens_for_owner(alice.clone(), None, Some(2));
    assert_eq!(owned.len(), 2);
    assert_eq!(owned[0].token_id, "a");
}

#[test]
fn metadata_round_trip() {
    let alice = "alice".to_string();
    let contract = Contract::new_default_metadata(alice);
    let meta = contract.nft_metadata();
    assert_eq!(meta.spec_version, "zng-nft-2.0.0");
    assert_eq!(meta.name, "ZNG NFT");
    assert_eq!(meta.symbol, "ZNGT");
    assert!(meta.icon.is_none());
}

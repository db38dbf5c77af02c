use nft_market::codec::parse_bool;
use nft_market::codec::parse_payout;
use nft_market::codec::parse_sale_args;

#[test]
fn bool_tokens_parse_exactly() {
    assert_eq!(parse_bool(&b"true".to_vec()), Some(true));
    assert_eq!(parse_bool(&b"false".to_vec()), Some(false));
    assert_eq!(parse_bool(&b"True".to_vec()), None);
    assert_eq!(parse_bool(&b"".to_vec()), None);
    assert_eq!(parse_bool(&b"false ".to_vec()), None);
}

#[test]
fn sale_args_parse_the_decimal_price() {
    assert_eq!(parse_sale_args(&b"{\"sale_conditions\":\"100\"}".to_vec()), Some(100));
    assert_eq!(parse_sale_args(&b"{\"sale_conditions\":\"0\"}".to_vec()), Some(0));
    assert_eq!(
        parse_sale_args(
            &b"{\"sale_conditions\":\"340282366920938463463374607431768211455\"}".to_vec()
        ),
        Some(u128::MAX)
    );
    // One past the largest balance.
    assert_eq!(
        parse_sale_args(
            &b"{\"sale_conditions\":\"340282366920938463463374607431768211456\"}".to_vec()
        ),
        None
    );
    assert_eq!(parse_sale_args(&b"{\"sale_conditions\":\"\"}".to_vec()), None);
    assert_eq!(parse_sale_args(&b"{\"sale_conditions\":100}".to_vec()), None);
    assert_eq!(parse_sale_args(&b"{\"price\":\"100\"}".to_vec()), None);
    assert_eq!(parse_sale_args(&b"{\"sale_conditions\":\"1x0\"}".to_vec()), None);
}

#[test]
fn payout_messages_parse_into_entries() {
    let entries = parse_payout(&b"{\"payout\":{\"alice\":\"1\",\"bob.near\":\"2\"}}".to_vec())
        .unwrap();
    assert_eq!(entries.len(), 2);
    assert_eq!(entries[0].0, "alice");
    assert_eq!(entries[0].1, 1);
    assert_eq!(entries[1].0, "bob.near");
    assert_eq!(entries[1].1, 2);

    assert_eq!(parse_payout(&b"{\"payout\":{}}".to_vec()).unwrap().len(), 0);
    assert!(parse_payout(&b"{\"payout\":{\"a\":\"1\",}}".to_vec()).is_none());
    assert!(parse_payout(&b"{\"payout\":{\"\":\"1\"}}".to_vec()).is_none());
    assert!(parse_payout(&b"{\"payout\":{\"a\":1}}".to_vec()).is_none());
    assert!(parse_payout(&b"{\"payout\":\"a\"}".to_vec()).is_none());
    assert!(parse_payout(&b"nonsense".to_vec()).is_none());
}

use marketplace::market::{MarketError, Marketplace};
use marketplace::token::{Offer, Token};

#[test]
fn created_token_is_readable_under_its_derived_id() {
    let mut m = Marketplace::new();
    m.new_token("s1".to_string(), "alice".to_string(), 7, None)
        .unwrap();
    let t = m.get_token(&"s1.7".to_string()).unwrap();
    assert_eq!(t.owner_id, "alice");
    assert_eq!(t.store_id, "s1");
    assert_eq!(t.token_id, 7);
    assert!(t.royalties.is_none());
    assert!(t.get_offer_at_index(0).is_none());
}

#[test]
fn get_token_on_an_id_never_created_is_not_found() {
    let mut m = Marketplace::new();
    m.new_token("s1".to_string(), "alice".to_string(), 7, None)
        .unwrap();
    match m.get_token(&"s1.8".to_string()) {
        Err(e) => assert_eq!(e, MarketError::NotFound),
        Ok(_) => panic!("an id never created must not resolve"),
    }
    match m.get_token(&"never".to_string()) {
        Err(e) => assert_eq!(e, MarketError::NotFound),
        Ok(_) => panic!("an id never created must not resolve"),
    }
}

#[test]
fn fresh_token_has_absent_offer_not_an_error() {
    let mut m = Marketplace::new();
    m.new_token("s1".to_string(), "alice".to_string(), 7, None)
        .unwrap();
    let o = m.get_offer_at_index(&"s1.7".to_string(), 0).unwrap();
    assert!(o.is_none());
}

#[test]
fn missing_token_is_a_hard_error_for_offer_lookup() {
    let m = Marketplace::new();
    assert_eq!(
        m.get_offer_at_index(&"s1.7".to_string(), 0),
        Err(MarketError::NotFound)
    );
}

#[test]
fn recreating_a_token_replaces_the_prior_record() {
    let mut m = Marketplace::new();
    m.new_token("s1".to_string(), "alice".to_string(), 7, None)
        .unwrap();
    m.record_offer(&"s1.7".to_string(), 500).unwrap();
    assert!(m
        .get_offer_at_index(&"s1.7".to_string(), 0)
        .unwrap()
        .is_some());

    m.new_token("s1".to_string(), "bob".to_string(), 7, None)
        .unwrap();
    let t = m.get_token(&"s1.7".to_string()).unwrap();
    assert_eq!(t.owner_id, "bob");
    // The prior offer history is unrecoverable after the replacement.
    assert!(m
        .get_offer_at_index(&"s1.7".to_string(), 0)
        .unwrap()
        .is_none());
}

#[test]
fn recorded_offers_are_readable_in_order() {
    let mut m = Marketplace::new();
    m.new_token("s1".to_string(), "alice".to_string(), 7, None)
        .unwrap();
    m.record_offer(&"s1.7".to_string(), 100).unwrap();
    m.record_offer(&"s1.7".to_string(), 250).unwrap();
    let uid = "s1.7".to_string();
    assert_eq!(m.get_offer_at_index(&uid, 0).unwrap().map(|o| o.price), Some(100));
    assert_eq!(m.get_offer_at_index(&uid, 1).unwrap().map(|o| o.price), Some(250));
    assert!(m.get_offer_at_index(&uid, 2).unwrap().is_none());
}

#[test]
fn record_offer_on_a_missing_token_is_not_found() {
    let mut m = Marketplace::new();
    assert_eq!(
        m.record_offer(&"s1.7".to_string(), 100),
        Err(MarketError::NotFound)
    );
}

#[test]
fn royalties_are_returned_when_present() {
    let mut m = Marketplace::new();
    m.new_token(
        "s1".to_string(),
        "alice".to_string(),
        7,
        Some((25, vec![("alice".to_string(), 60), ("bob".to_string(), 40)])),
    )
    .unwrap();
    let r = m.get_royalties(&"s1.7".to_string()).unwrap().unwrap();
    assert_eq!(r.percentage(), 25);
    assert_eq!(r.share_of(&"alice".to_string()), Some(60));
    assert_eq!(r.share_of(&"bob".to_string()), Some(40));
}

#[test]
fn royalties_are_absent_when_none_were_supplied() {
    let mut m = Marketplace::new();
    m.new_token("s1".to_string(), "alice".to_string(), 7, None)
        .unwrap();
    assert!(m.get_royalties(&"s1.7".to_string()).unwrap().is_none());
}

#[test]
fn royalties_on_a_missing_token_are_not_found() {
    let m = Marketplace::new();
    match m.get_royalties(&"s1.7".to_string()) {
        Err(e) => assert_eq!(e, MarketError::NotFound),
        Ok(_) => panic!("a missing token must be a hard error"),
    }
}

#[test]
fn two_stores_mint_the_same_number_without_aliasing() {
    let mut m = Marketplace::new();
    m.new_token("s1".to_string(), "alice".to_string(), 7, None)
        .unwrap();
    m.new_token("s2".to_string(), "bob".to_string(), 7, None)
        .unwrap();
    assert_eq!(m.get_token(&"s1.7".to_string()).unwrap().owner_id, "alice");
    assert_eq!(m.get_token(&"s2.7".to_string()).unwrap().owner_id, "bob");
}

#[test]
fn uninitialized_marketplace_rejects_every_operation() {
    let mut m = Marketplace::default();
    assert_eq!(
        m.new_token("s1".to_string(), "alice".to_string(), 7, None),
        Err(MarketError::Uninitialized)
    );
    match m.get_token(&"s1.7".to_string()) {
        Err(e) => assert_eq!(e, MarketError::Uninitialized),
        Ok(_) => panic!("an uninitialized store must reject reads"),
    }
    assert_eq!(
        m.get_offer_at_index(&"s1.7".to_string(), 0),
        Err(MarketError::Uninitialized)
    );
    match m.get_royalties(&"s1.7".to_string()) {
        Err(e) => assert_eq!(e, MarketError::Uninitialized),
        Ok(_) => panic!("an uninitialized store must reject reads"),
    }
    assert_eq!(
        m.record_offer(&"s1.7".to_string(), 100),
        Err(MarketError::Uninitialized)
    );
    assert_eq!(
        m.lookup_within_vector(0),
        Err(MarketError::Uninitialized)
    );
}

#[test]
fn lookup_within_vector_is_absent_on_an_empty_list() {
    let m = Marketplace::new();
    assert_eq!(m.lookup_within_vector(0), Ok(None));
}

#[test]
fn token_new_builds_the_record_directly() {
    let t = Token::new(
        "alice".to_string(),
        "s1".to_string(),
        9,
        Some((10, vec![("alice".to_string(), 100)])),
    );
    assert_eq!(t.owner_id, "alice");
    assert_eq!(t.store_id, "s1");
    assert_eq!(t.token_id, 9);
    let r = t.royalties.as_ref().expect("a royalty policy was supplied");
    assert_eq!(r.percentage(), 10);
    assert!(t.get_offer_at_index(0).is_none());
}

#[test]
fn offer_is_an_immutable_price_record() {
    let o = Offer::new(123456789012345678901234567890u128);
    assert_eq!(o.price, 123456789012345678901234567890u128);
    let copy = o;
    assert_eq!(copy, o);
}

use marketplace::royalty::Royalty;

#[test]
fn royalty_round_trips_percentage_and_shares() {
    let r = Royalty::new(
        25,
        vec![("alice".to_string(), 60), ("bob".to_string(), 40)],
    );
    assert_eq!(r.percentage(), 25);
    assert_eq!(r.share_of(&"alice".to_string()), Some(60));
    assert_eq!(r.share_of(&"bob".to_string()), Some(40));
    assert_eq!(r.share_of(&"carol".to_string()), None);
}

#[test]
fn royalty_shares_do_not_depend_on_supply_order() {
    let forward = Royalty::new(
        25,
        vec![("alice".to_string(), 60), ("bob".to_string(), 40)],
    );
    let backward = Royalty::new(
        25,
        vec![("bob".to_string(), 40), ("alice".to_string(), 60)],
    );
    assert_eq!(forward.percentage(), backward.percentage());
    for account in ["alice", "bob", "carol"] {
        assert_eq!(
            forward.share_of(&account.to_string()),
            backward.share_of(&account.to_string())
        );
    }
}

#[test]
fn royalty_with_no_beneficiaries_has_no_shares() {
    let r = Royalty::new(0, vec![]);
    assert_eq!(r.percentage(), 0);
    assert_eq!(r.share_of(&"anyone".to_string()), None);
}

#[test]
fn royalty_later_binding_of_a_key_wins() {
    let r = Royalty::new(
        10,
        vec![("alice".to_string(), 60), ("alice".to_string(), 40)],
    );
    assert_eq!(r.share_of(&"alice".to_string()), Some(40));
}

#[test]
fn royalty_duplicate_preserves_the_policy() {
    let r = Royalty::new(30, vec![("alice".to_string(), 100)]);
    let copy = r.duplicate();
    assert_eq!(copy.percentage(), 30);
    assert_eq!(copy.share_of(&"alice".to_string()), Some(100));
    assert_eq!(copy.share_of(&"bob".to_string()), None);
}

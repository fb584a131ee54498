use marketplace::ids::gen_unique_id;

#[test]
fn unique_id_joins_store_and_number() {
    assert_eq!(gen_unique_id("s1".to_string(), 7), "s1.7");
    assert_eq!(gen_unique_id("store".to_string(), 0), "store.0");
    assert_eq!(gen_unique_id("a".to_string(), 120), "a.120");
}

#[test]
fn unique_id_handles_extreme_numbers() {
    assert_eq!(gen_unique_id("s".to_string(), u32::MAX), "s.4294967295");
    assert_eq!(gen_unique_id(String::new(), 1), ".1");
}

#[test]
fn unique_id_is_reproducible() {
    let a = gen_unique_id("gallery".to_string(), 42);
    let b = gen_unique_id("gallery".to_string(), 42);
    assert_eq!(a, b);
    assert_eq!(a, "gallery.42");
}

#[test]
fn unique_id_separates_distinct_pairs() {
    let ids = [
        gen_unique_id("s".to_string(), 1),
        gen_unique_id("s".to_string(), 11),
        gen_unique_id("s1".to_string(), 1),
        gen_unique_id("s.1".to_string(), 1),
        gen_unique_id("s".to_string(), 2),
    ];
    for i in 0..ids.len() {
        for j in 0..ids.len() {
            if i != j {
                assert_ne!(ids[i], ids[j]);
            }
        }
    }
}

use url_crawler::data_store::{DataStore, DataStoreEntry, Store};

#[test]
fn data_store_adds_key_and_value_correctly() {
    let mut s = Store::new();
    let key = "key".to_owned();
    let val = "val".to_owned();

    s.add(key.clone(), Some(val.clone()));

    assert!(s.has_entry(&key.clone()));
    assert_eq!(
        s.get(&key),
        Some(&DataStoreEntry {
            visited: false,
            urls_found: vec![val]
        })
    );
}

#[test]
fn data_store_updates_value_correctly() {
    let mut s = Store::new();
    let key = "key".to_owned();
    let val = "val".to_owned();
    let val2 = "val2".to_owned();

    s.add(key.clone(), Some(val.clone()));
    s.add(key.clone(), Some(val2.clone()));

    assert!(s.has_entry(&key.clone()));
    assert_eq!(
        s.get(&key),
        Some(&DataStoreEntry {
            visited: false,
            urls_found: vec![val, val2]
        })
    );
}

#[test]
fn data_store_adds_key_without_value_correctly() {
    let mut s: Store = Store::new();
    let key = "key".to_owned();

    s.add(key.clone(), None);

    assert!(s.has_entry(&key.clone()));
    assert_eq!(
        s.get(&key),
        Some(&DataStoreEntry {
            visited: false,
            urls_found: vec![]
        })
    );
}

#[test]
fn data_store_set_has_visited_state_to_false_if_not_visited() {
    let mut s = Store::new();
    let key = "key".to_owned();
    let val = Some("val".to_owned());

    s.add(key.clone(), val.clone());

    assert!(!s.has_visited(&key.clone()));
}

#[test]
fn data_store_set_has_visited_state_to_true_if_visited() {
    let mut s = Store::new();
    let key = "key".to_owned();
    let val = Some("val".to_owned());

    s.add(key.clone(), val.clone());
    s.visited(&key);

    assert!(s.has_visited(&key.clone()));
}

#[test]
fn add_without_value_is_idempotent() {
    let mut s = Store::new();
    let key = "page".to_owned();

    s.add(key.clone(), None);
    s.add(key.clone(), None);
    s.add(key.clone(), None);

    assert_eq!(
        s.get(&key),
        Some(&DataStoreEntry {
            visited: false,
            urls_found: vec![]
        })
    );
}

#[test]
fn add_without_value_keeps_existing_entry() {
    let mut s = Store::new();
    let key = "page".to_owned();
    let link = "link".to_owned();

    s.add(key.clone(), Some(link.clone()));
    s.visited(&key);
    s.add(key.clone(), None);

    assert_eq!(
        s.get(&key),
        Some(&DataStoreEntry {
            visited: true,
            urls_found: vec![link]
        })
    );
}

#[test]
fn visited_is_monotonic_and_idempotent() {
    let mut s = Store::new();
    let key = "page".to_owned();

    s.add(key.clone(), None);
    s.visited(&key);
    assert!(s.has_visited(&key));

    s.visited(&key);
    assert!(s.has_visited(&key));

    s.add(key.clone(), Some("somewhere".to_owned()));
    assert!(s.has_visited(&key));
}

#[test]
fn visited_on_absent_key_is_a_no_op() {
    let mut s = Store::new();
    let key = "missing".to_owned();

    s.visited(&key);

    assert!(!s.has_entry(&key));
    assert!(!s.has_visited(&key));
    assert_eq!(s.get(&key), None);
}

#[test]
fn edge_is_recorded_regardless_of_state() {
    let mut s = Store::new();
    let src = "https://example.com".to_owned();
    let external = "https://external.com/x".to_owned();

    s.add(src.clone(), None);
    s.visited(&src);
    s.add(src.clone(), Some(external.clone()));
    s.add(src.clone(), Some(external.clone()));

    assert_eq!(
        s.get(&src),
        Some(&DataStoreEntry {
            visited: true,
            urls_found: vec![external.clone(), external]
        })
    );
}

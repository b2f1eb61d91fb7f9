use chat_relay::registry::Registry;

#[test]
fn register_keeps_insertion_order() {
    let mut r: Registry<&str> = Registry::new();
    r.register(7, "a");
    r.register(3, "b");
    r.register(9, "c");
    assert_eq!(r.ids(), vec![7, 3, 9]);
    assert_eq!(r.len(), 3);
    assert!(r.contains(3));
    assert!(!r.contains(4));
    assert_eq!(r.handle_of(9), Some(&"c"));
    assert_eq!(r.handle_of(4), None);
}

#[test]
fn unregister_twice_is_a_no_op_the_second_time() {
    let mut r: Registry<&str> = Registry::new();
    r.register(1, "a");
    r.register(2, "b");
    assert!(r.unregister(1));
    assert_eq!(r.ids(), vec![2]);
    assert!(!r.unregister(1));
    assert_eq!(r.ids(), vec![2]);
    assert_eq!(r.len(), 1);
}

#[test]
fn unregister_absent_identity_changes_nothing() {
    let mut r: Registry<&str> = Registry::new();
    assert!(!r.unregister(5));
    assert_eq!(r.len(), 0);
    r.register(5, "x");
    assert!(!r.unregister(6));
    assert_eq!(r.ids(), vec![5]);
}

#[test]
fn take_hands_back_the_removed_handle() {
    let mut r: Registry<String> = Registry::new();
    r.register(1, "a".to_string());
    r.register(2, "b".to_string());
    r.register(3, "c".to_string());
    assert_eq!(r.take(2), Some("b".to_string()));
    assert_eq!(r.ids(), vec![1, 3]);
    assert_eq!(r.take(2), None);
    assert_eq!(r.handle_of(3), Some(&"c".to_string()));
}

#[test]
fn drop_all_removes_listed_identities_only() {
    let mut r: Registry<u8> = Registry::new();
    for id in 1..=5u64 {
        r.register(id, id as u8);
    }
    r.drop_all(&vec![4, 2, 42]);
    assert_eq!(r.ids(), vec![1, 3, 5]);
    assert_eq!(r.handle_of(5), Some(&5u8));
    r.drop_all(&vec![]);
    assert_eq!(r.ids(), vec![1, 3, 5]);
}

#[test]
fn size_counts_joins_minus_effective_leaves() {
    let mut r: Registry<()> = Registry::new();
    let mut joins = 0usize;
    let mut leaves = 0usize;
    for id in 0..10u64 {
        r.register(id, ());
        joins += 1;
    }
    for id in [3u64, 3, 11, 7, 0, 7] {
        if r.unregister(id) {
            leaves += 1;
        }
    }
    assert_eq!(leaves, 3);
    assert_eq!(r.len(), joins - leaves);
    assert_eq!(r.ids(), vec![1, 2, 4, 5, 6, 8, 9]);
}

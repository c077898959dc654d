use redis_bigkeys::key_type::KeyTypeCode;
use redis_bigkeys::stats::{AllStats, TypeStats, TOP_N};

#[test]
fn single_slot_keeps_largest_of_three() {
    let mut s = TypeStats::with_limit(1);
    s.add_key(10, "key1");
    s.add_key(20, "key2");
    s.add_key(15, "key3");
    assert_eq!(s.sorted_top_desc(), vec![(20u64, "key2".to_string())]);
    assert_eq!(s.count(), 3);
    assert_eq!(s.total_mem(), 45);
}

#[test]
fn fills_before_evicting() {
    let mut s = TypeStats::with_limit(3);
    s.add_key(5, "a");
    s.add_key(1, "b");
    assert_eq!(s.top_len(), 2);
    s.add_key(3, "c");
    assert_eq!(s.top_len(), 3);
    s.add_key(2, "d");
    assert_eq!(
        s.sorted_top_desc(),
        vec![(5u64, "a".to_string()), (3, "c".to_string()), (2, "d".to_string())]
    );
    assert_eq!(s.count(), 4);
    assert_eq!(s.total_mem(), 11);
}

#[test]
fn equal_size_does_not_replace() {
    let mut s = TypeStats::with_limit(2);
    s.add_key(7, "first");
    s.add_key(9, "second");
    s.add_key(7, "late");
    assert_eq!(
        s.sorted_top_desc(),
        vec![(9u64, "second".to_string()), (7, "first".to_string())]
    );
}

#[test]
fn first_least_entry_is_evicted() {
    let mut s = TypeStats::with_limit(3);
    s.add_key(4, "x");
    s.add_key(4, "y");
    s.add_key(8, "z");
    s.add_key(6, "w");
    assert_eq!(
        s.sorted_top_desc(),
        vec![(8u64, "z".to_string()), (6, "w".to_string()), (4, "y".to_string())]
    );
}

#[test]
fn ties_keep_storage_order_when_sorted() {
    let mut s = TypeStats::with_limit(4);
    s.add_key(3, "p");
    s.add_key(9, "q");
    s.add_key(3, "r");
    assert_eq!(
        s.sorted_top_desc(),
        vec![(9u64, "q".to_string()), (3, "p".to_string()), (3, "r".to_string())]
    );
}

#[test]
fn sorting_does_not_change_tracker() {
    let mut s = TypeStats::new();
    s.add_key(1, "a");
    s.add_key(2, "b");
    let first = s.sorted_top_desc();
    let second = s.sorted_top_desc();
    assert_eq!(first, second);
    assert_eq!(s.count(), 2);
}

#[test]
fn empty_tracker() {
    let s = TypeStats::new();
    assert_eq!(s.limit(), TOP_N);
    assert_eq!(s.count(), 0);
    assert_eq!(s.total_mem(), 0);
    assert!(s.sorted_top_desc().is_empty());
}

#[test]
fn default_limit_retains_ten_largest() {
    let mut s = TypeStats::new();
    let names = ["k0", "k1", "k2", "k3", "k4", "k5", "k6", "k7", "k8", "k9", "k10", "k11"];
    for (i, n) in names.iter().enumerate() {
        s.add_key(i as u64 * 10, n);
    }
    let top = s.sorted_top_desc();
    assert_eq!(top.len(), 10);
    assert_eq!(top[0], (110, "k11".to_string()));
    assert_eq!(top[9], (20, "k2".to_string()));
    assert_eq!(s.count(), 12);
    assert_eq!(s.total_mem(), 660);
}

#[test]
fn order_of_adds_does_not_change_retained_sizes() {
    let items = [(5u64, "a"), (9, "b"), (1, "c"), (9, "d"), (4, "e"), (7, "f")];
    let mut forward = TypeStats::with_limit(3);
    for (m, k) in items.iter() {
        forward.add_key(*m, k);
    }
    let mut backward = TypeStats::with_limit(3);
    for (m, k) in items.iter().rev() {
        backward.add_key(*m, k);
    }
    let sizes = |v: Vec<(u64, String)>| v.into_iter().map(|p| p.0).collect::<Vec<u64>>();
    assert_eq!(sizes(forward.sorted_top_desc()), vec![9, 9, 7]);
    assert_eq!(sizes(backward.sorted_top_desc()), vec![9, 9, 7]);
    assert_eq!(forward.total_mem(), backward.total_mem());
    assert_eq!(forward.count(), backward.count());
}

#[test]
fn all_stats_slots_are_separate() {
    let mut a = AllStats::new();
    a.add_key(KeyTypeCode::HashKey, 50, "h");
    a.add_key(KeyTypeCode::StringKey, 100, "s1");
    a.add_key(KeyTypeCode::StringKey, 300, "s2");
    assert_eq!(a.get(KeyTypeCode::StringKey).count(), 2);
    assert_eq!(a.get(KeyTypeCode::StringKey).total_mem(), 400);
    assert_eq!(a.get(KeyTypeCode::HashKey).count(), 1);
    assert_eq!(a.get(KeyTypeCode::ListKey).count(), 0);
    assert_eq!(a.total_mem(), 450);
}

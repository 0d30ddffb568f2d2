use concept::snapshot::{
    bytes_equal, key_order, starts_with, KeyOrder, MemorySnapshot, ReadableSnapshot,
    WritableSnapshot,
};

#[test]
fn memory_snapshot_puts_gets_and_deletes() {
    let mut snapshot = MemorySnapshot::new();
    assert_eq!(snapshot.len(), 0);
    assert_eq!(snapshot.get(&[1, 2]), None);
    snapshot.put(vec![1, 2]);
    assert_eq!(snapshot.get(&[1, 2]), Some(vec![]));
    snapshot.put_val(vec![1, 2], vec![9]);
    assert_eq!(snapshot.get(&[1, 2]), Some(vec![9]));
    assert_eq!(snapshot.len(), 1);
    snapshot.put_val(vec![1, 3], vec![8]);
    assert_eq!(snapshot.len(), 2);
    snapshot.delete(vec![1, 2]);
    assert_eq!(snapshot.get(&[1, 2]), None);
    assert_eq!(snapshot.get(&[1, 3]), Some(vec![8]));
    snapshot.delete(vec![7]);
    assert_eq!(snapshot.len(), 1);
}

#[test]
fn memory_snapshot_lists_a_prefix_once_each() {
    let mut snapshot = MemorySnapshot::new();
    snapshot.put_val(vec![1, 2], vec![1]);
    snapshot.put_val(vec![1, 3], vec![2]);
    snapshot.put_val(vec![2, 3], vec![3]);
    snapshot.put_val(vec![1], vec![4]);
    snapshot.put_val(vec![1, 2], vec![5]);
    let found = snapshot.iterate_prefix(&[1]);
    assert_eq!(found, vec![(vec![1], vec![4]), (vec![1, 2], vec![5]), (vec![1, 3], vec![2])]);
    assert_eq!(snapshot.iterate_prefix(&[3]), vec![]);
    assert_eq!(snapshot.iterate_prefix(&[]).len(), 4);
}

#[test]
fn byte_helpers_compare_whole_strings_and_prefixes() {
    assert!(bytes_equal(&[], &[]));
    assert!(bytes_equal(&[1, 2], &[1, 2]));
    assert!(!bytes_equal(&[1, 2], &[1, 3]));
    assert!(!bytes_equal(&[1, 2], &[1]));
    assert!(starts_with(&[1, 2, 3], &[1, 2]));
    assert!(starts_with(&[1, 2], &[]));
    assert!(!starts_with(&[1], &[1, 2]));
    assert!(!starts_with(&[2, 2], &[1]));
}

#[test]
fn keys_are_ordered_byte_by_byte() {
    assert_eq!(key_order(&[], &[]), KeyOrder::Same);
    assert_eq!(key_order(&[], &[0]), KeyOrder::Before);
    assert_eq!(key_order(&[1], &[]), KeyOrder::After);
    assert_eq!(key_order(&[1, 2], &[1, 2]), KeyOrder::Same);
    assert_eq!(key_order(&[1, 2], &[1, 3]), KeyOrder::Before);
    assert_eq!(key_order(&[2], &[1, 3]), KeyOrder::After);
    assert_eq!(key_order(&[1, 2], &[1, 2, 0]), KeyOrder::Before);
    assert_eq!(key_order(&[255], &[0, 255]), KeyOrder::After);
}

#[test]
fn memory_snapshot_keeps_its_keys_in_order() {
    let mut snapshot = MemorySnapshot::new();
    for key in [vec![5u8], vec![1], vec![3, 1], vec![3], vec![0, 9], vec![], vec![4]] {
        snapshot.put_val(key.clone(), key);
    }
    snapshot.delete(vec![3]);
    snapshot.delete(vec![6]);
    let all = snapshot.iterate_prefix(&[]);
    let keys: Vec<Vec<u8>> = all.iter().map(|(key, _)| key.clone()).collect();
    assert_eq!(keys, vec![vec![], vec![0, 9], vec![1], vec![3, 1], vec![4], vec![5]]);
    for (key, value) in all {
        assert_eq!(snapshot.get(&key), Some(value));
    }
}

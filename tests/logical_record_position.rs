use distringo::LogicalRecordPositionIndex;

#[test]
fn inserted_offsets_are_found() {
    let mut index = LogicalRecordPositionIndex::new_with_size(10);
    index.insert(1, 0);
    index.insert(2, 512);
    index.insert(7, 4096);
    assert_eq!(index.get(1), Some(0));
    assert_eq!(index.get(2), Some(512));
    assert_eq!(index.get(7), Some(4096));
}

#[test]
fn unset_slots_are_not_found() {
    let mut index = LogicalRecordPositionIndex::new_with_size(10);
    assert_eq!(index.get(0), None);
    assert_eq!(index.get(3), None);
    index.insert(3, 0);
    assert_eq!(index.get(3), Some(0));
    assert_eq!(index.get(4), None);
    assert_eq!(index.get(1_000_000), None);
}

#[test]
fn insert_grows_past_the_allocated_slots() {
    let mut index = LogicalRecordPositionIndex::new_with_size(2);
    index.insert(100, 77);
    assert_eq!(index.get(100), Some(77));
    assert_eq!(index.get(99), None);
    let mut empty = LogicalRecordPositionIndex::new_with_size(0);
    empty.insert(0, 5);
    assert_eq!(empty.get(0), Some(5));
}

#[test]
fn later_insert_overwrites() {
    let mut index = LogicalRecordPositionIndex::new_with_size(4);
    index.insert(2, 10);
    index.insert(2, 20);
    assert_eq!(index.get(2), Some(20));
}

#[test]
fn extend_matches_inserts_in_turn() {
    let pairs: Vec<(u64, u64)> = vec![(1, 1), (2, 2), (3, 30), (2, 200), (12, 1200)];
    let mut batch = LogicalRecordPositionIndex::new_with_size(10);
    batch.extend(pairs.clone());
    let mut single = LogicalRecordPositionIndex::new_with_size(10);
    for (n, offset) in pairs {
        single.insert(n, offset);
    }
    for n in 0..20u64 {
        assert_eq!(batch.get(n), single.get(n));
    }
    assert_eq!(batch.get(2), Some(200));
    assert_eq!(batch.get(12), Some(1200));
    assert_eq!(batch.get(4), None);
}

#[test]
fn extend_of_nothing_changes_nothing() {
    let mut index = LogicalRecordPositionIndex::new_with_size(3);
    index.insert(1, 9);
    index.extend(Vec::new());
    assert_eq!(index.get(1), Some(9));
    assert_eq!(index.get(2), None);
}

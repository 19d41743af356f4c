use pigeon::{Direction, Partition, RecordStore, StoreError, Tweet};

fn tweet(id: &str, text: &str) -> Tweet {
    Tweet { id: id.to_string(), created_at: "2022-11-01T00:00:00.000Z".to_string(), text: text.to_string() }
}

fn filled(keys: &[u64]) -> Partition {
    let mut p = Partition::new();
    for k in keys {
        p.put(*k, tweet(&k.to_string(), "x"));
    }
    p
}

#[test]
fn put_overwrites_existing_key() {
    let mut p = Partition::new();
    p.put(5, tweet("5", "first"));
    p.put(5, tweet("5", "second"));
    assert_eq!(p.len(), 1);
    assert_eq!(p.get(5).unwrap().text, "second");
    assert!(p.get(6).is_none());
}

#[test]
fn scan_forward_and_backward() {
    let p = filled(&[40, 10, 30, 20]);
    assert_eq!(p.scan(None, Direction::Forward), vec![10, 20, 30, 40]);
    assert_eq!(p.scan(Some(20), Direction::Forward), vec![20, 30, 40]);
    assert_eq!(p.scan(Some(25), Direction::Forward), vec![30, 40]);
    assert_eq!(p.scan(None, Direction::Backward), vec![40, 30, 20, 10]);
    assert_eq!(p.scan(Some(30), Direction::Backward), vec![30, 20, 10]);
    assert_eq!(p.scan(Some(5), Direction::Backward), Vec::<u64>::new());
}

#[test]
fn delete_range_is_inclusive_exclusive() {
    let mut p = filled(&[1, 2, 3, 4, 5]);
    p.delete_range(2, 4);
    assert_eq!(p.scan(None, Direction::Forward), vec![1, 4, 5]);
    p.delete_range(4, 4);
    assert_eq!(p.len(), 3);
    p.remove(5);
    p.remove(9);
    assert_eq!(p.scan(None, Direction::Forward), vec![1, 4]);
}

#[test]
fn first_and_last_keys() {
    let p = filled(&[7, 3, 9]);
    assert_eq!(p.first_key(), Some(3));
    assert_eq!(p.last_key(), Some(9));
    let e = Partition::new();
    assert_eq!(e.first_key(), None);
    assert_eq!(e.last_key(), None);
    assert!(e.is_empty());
}

#[test]
fn largest_key_is_stored() {
    let mut p = Partition::new();
    p.put(u64::MAX, tweet("18446744073709551615", "max"));
    p.put(0, tweet("0", "zero"));
    assert_eq!(p.scan(None, Direction::Forward), vec![0, u64::MAX]);
}

#[test]
fn missing_partition_is_an_error() {
    let mut s = RecordStore::new();
    assert_eq!(s.put("a", 1, tweet("1", "x")), Err(StoreError::NoSuchPartition));
    assert!(matches!(s.get("a", 1), Err(StoreError::NoSuchPartition)));
    assert!(matches!(s.scan("a", None, Direction::Forward), Err(StoreError::NoSuchPartition)));
    assert_eq!(s.delete_range("a", 0, 9), Err(StoreError::NoSuchPartition));
    assert_eq!(s.remove("a", 1), Err(StoreError::NoSuchPartition));
    assert_eq!(s.drop_partition("a"), Err(StoreError::NoSuchPartition));
}

#[test]
fn partitions_are_created_listed_and_dropped() {
    let mut s = RecordStore::new();
    s.create_partition("a");
    s.create_partition("b");
    s.put("a", 1, tweet("1", "x")).unwrap();
    s.create_partition("a");
    assert_eq!(s.get("a", 1).unwrap().unwrap().text, "x");
    let mut names = s.list_partitions();
    names.sort();
    assert_eq!(names, vec!["a".to_string(), "b".to_string()]);
    s.drop_partition("a").unwrap();
    assert_eq!(s.list_partitions(), vec!["b".to_string()]);
    assert!(s.partition("a").is_none());
}

#[test]
fn store_range_operations_touch_one_partition() {
    let mut s = RecordStore::new();
    s.create_partition("a");
    s.create_partition("b");
    for k in 1..=4u64 {
        s.put("a", k, tweet(&k.to_string(), "a")).unwrap();
        s.put("b", k, tweet(&k.to_string(), "b")).unwrap();
    }
    s.delete_range("a", 1, 3).unwrap();
    s.remove("a", 4).unwrap();
    assert_eq!(s.scan("a", None, Direction::Forward).unwrap(), vec![3]);
    assert_eq!(s.scan("b", Some(2), Direction::Forward).unwrap(), vec![2, 3, 4]);
}

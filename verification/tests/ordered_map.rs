use usd::ordered_map::OrderedMap;

#[test]
fn new_map_is_empty() {
    let map: OrderedMap<u32> = OrderedMap::new();
    assert!(map.is_empty());
    assert_eq!(map.len(), 0);
    assert_eq!(map.get("a"), None);
}

#[test]
fn insert_keeps_first_order() {
    let mut map: OrderedMap<u32> = OrderedMap::new();
    assert_eq!(map.insert("b".to_string(), 1), None);
    assert_eq!(map.insert("a".to_string(), 2), None);
    assert_eq!(map.insert("c".to_string(), 3), None);
    assert_eq!(map.len(), 3);
    assert!(!map.is_empty());
    assert_eq!(map.key_at(0), "b");
    assert_eq!(map.key_at(1), "a");
    assert_eq!(map.key_at(2), "c");
    assert_eq!(*map.value_at(1), 2);
}

#[test]
fn insert_overwrites_in_place() {
    let mut map: OrderedMap<u32> = OrderedMap::new();
    map.insert("b".to_string(), 1);
    map.insert("a".to_string(), 2);
    map.insert("c".to_string(), 3);
    assert_eq!(map.insert("a".to_string(), 20), Some(2));
    assert_eq!(map.insert("b".to_string(), 10), Some(1));
    assert_eq!(map.len(), 3);
    assert_eq!(map.key_at(0), "b");
    assert_eq!(*map.value_at(0), 10);
    assert_eq!(map.key_at(1), "a");
    assert_eq!(*map.value_at(1), 20);
    assert_eq!(map.key_at(2), "c");
    assert_eq!(*map.value_at(2), 3);
}

#[test]
fn get_finds_by_name() {
    let mut map: OrderedMap<u32> = OrderedMap::new();
    map.insert("one".to_string(), 1);
    map.insert("".to_string(), 0);
    assert_eq!(map.get("one"), Some(&1));
    assert_eq!(map.get(""), Some(&0));
    assert_eq!(map.get("on"), None);
    assert_eq!(map.get("One"), None);
}

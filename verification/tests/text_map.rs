use formchain::text_map::TextMap;

#[test]
fn insert_get_remove() {
    let mut m: TextMap<u32> = TextMap::new();
    assert!(!m.contains_key(&"a".to_string()));
    m.insert("a".to_string(), 1);
    m.insert("b".to_string(), 2);
    m.insert("a".to_string(), 3);
    assert_eq!(m.get(&"a".to_string()), Some(&3));
    assert_eq!(m.get(&"b".to_string()), Some(&2));
    assert_eq!(m.remove(&"a".to_string()), Some(3));
    assert_eq!(m.remove(&"a".to_string()), None);
    assert!(m.contains_key(&"b".to_string()));
    assert_eq!(m.into_pairs(), vec![("b".to_string(), 2)]);
}

#[test]
fn from_pairs_later_wins() {
    let m = TextMap::from_pairs(vec![("k".to_string(), 1), ("j".to_string(), 2), ("k".to_string(), 3)]);
    assert_eq!(m.get(&"k".to_string()), Some(&3));
    assert_eq!(m.get(&"j".to_string()), Some(&2));
    assert_eq!(m.into_pairs().len(), 2);
}

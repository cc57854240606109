use chat_server::namemap::NameMap;

#[test]
fn name_map_keeps_first_insertion_order() {
    let mut m: NameMap<usize> = NameMap::new();
    m.insert("x".to_string(), 1);
    m.insert("y".to_string(), 2);
    m.insert("x".to_string(), 3);
    assert_eq!(m.len(), 2);
    assert_eq!(m.key_at(0), "x");
    assert_eq!(*m.value_at(0), 3);
    assert_eq!(m.key_at(1), "y");
    assert_eq!(m.get(&"y".to_string()), Some(&2));
    assert_eq!(m.get(&"z".to_string()), None);
    assert_eq!(m.remove(&"x".to_string()), Some(3));
    assert_eq!(m.remove(&"x".to_string()), None);
    assert_eq!(m.len(), 1);
    assert_eq!(m.key_at(0), "y");
    assert!(!m.contains_key(&"x".to_string()));
}

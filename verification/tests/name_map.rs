use mcp_federation::name_map::NameMap;

fn s(x: &str) -> String {
    x.to_string()
}

#[test]
fn name_map_insert_get_remove() {
    let mut m: NameMap<u8> = NameMap::new();
    assert_eq!(m.len(), 0);
    m.insert(s("b"), 1);
    m.insert(s("a"), 2);
    m.insert(s("b"), 3);
    assert_eq!(m.len(), 2);
    assert_eq!(m.get("b"), Some(&3));
    assert_eq!(m.names_vec(), vec![s("b"), s("a")]);
    m.insert_if_absent(s("a"), 9);
    m.insert_if_absent(s("c"), 4);
    assert_eq!(m.get("a"), Some(&2));
    assert_eq!(m.get("c"), Some(&4));
    assert_eq!(m.remove("b"), Some(3));
    assert_eq!(m.remove("b"), None);
    assert!(!m.contains_key("b"));
    assert_eq!(m.names_vec(), vec![s("a"), s("c")]);
    let (k, v) = m.entry_at(1);
    assert_eq!((k.as_str(), *v), ("c", 4));
}

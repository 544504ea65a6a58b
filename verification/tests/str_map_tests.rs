use solc_bytecode::StrMap;

#[test]
fn insert_get_remove() {
    let mut m: StrMap<Vec<u8>> = StrMap::new();
    assert!(m.is_empty());
    assert_eq!(m.insert("b".to_string(), vec![2]), None);
    assert_eq!(m.insert("a".to_string(), vec![1]), None);
    assert_eq!(m.insert("b".to_string(), vec![3]), Some(vec![2]));
    assert_eq!(m.len(), 2);
    assert_eq!(m.get("b"), Some(&vec![3]));
    assert_eq!(m.get("c"), None);
    assert_eq!(m.remove("a"), Some(vec![1]));
    assert_eq!(m.remove("a"), None);
    assert_eq!(m.remove_entry("b"), Some(("b".to_string(), vec![3])));
    assert!(m.is_empty());
}

#[test]
fn entries_are_ordered_by_key() {
    let mut m: StrMap<Vec<u8>> = StrMap::new();
    for k in ["zeta", "alpha", "alp", "beta", "Zed", "é"] {
        m.insert(k.to_string(), vec![]);
    }
    let keys: Vec<&str> = m.entries().iter().map(|e| e.0.as_str()).collect();
    assert_eq!(keys, vec!["Zed", "alp", "alpha", "beta", "zeta", "é"]);
}

#[test]
fn equality_does_not_depend_on_insertion_order() {
    let mut a: StrMap<Vec<u8>> = StrMap::new();
    a.insert("x".to_string(), vec![1]);
    a.insert("y".to_string(), vec![2]);
    let mut b: StrMap<Vec<u8>> = StrMap::new();
    b.insert("y".to_string(), vec![2]);
    b.insert("x".to_string(), vec![1]);
    assert_eq!(a, b);
    let c = a.clone();
    assert_eq!(c, b);
}

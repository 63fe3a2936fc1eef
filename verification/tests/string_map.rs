use armature_testing::StringMap;

#[test]
fn get_after_insert_sees_latest_value() {
    let mut m = StringMap::new();
    assert!(m.is_empty());
    m.insert("a".to_string(), "1".to_string());
    m.insert("b".to_string(), "2".to_string());
    m.insert("a".to_string(), "3".to_string());
    assert_eq!(m.len(), 2);
    assert_eq!(m.get("a"), Some(&"3".to_string()));
    assert_eq!(m.get("b"), Some(&"2".to_string()));
    assert_eq!(m.get("c"), None);
    assert!(m.contains_key("b"));
    assert!(!m.contains_key("c"));
    let (k, v) = m.entry(0);
    assert_eq!((k.as_str(), v.as_str()), ("a", "3"));
}

#[test]
fn clone_keeps_entries() {
    let mut m = StringMap::new();
    m.insert("k".to_string(), "v".to_string());
    let c = m.clone();
    assert_eq!(c.get("k"), Some(&"v".to_string()));
    assert_eq!(c.len(), 1);
}

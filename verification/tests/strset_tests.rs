use recorder_core::strset::StrSet;

#[test]
fn insert_contains_remove() {
    let mut s = StrSet::new();
    assert_eq!(s.len(), 0);
    assert!(s.insert("alice"));
    assert!(!s.insert("alice"));
    assert!(s.insert("bob"));
    assert!(s.contains("alice"));
    assert!(!s.contains("carol"));
    assert_eq!(s.len(), 2);
    assert_eq!(s.to_vec(), vec!["alice".to_string(), "bob".to_string()]);
    assert!(s.remove("alice"));
    assert!(!s.remove("alice"));
    assert!(!s.contains("alice"));
    assert_eq!(s.len(), 1);
    assert_eq!(s.to_vec(), vec!["bob".to_string()]);
}

use dify_console::strmap::StrMap;

#[test]
fn insert_get_and_replace() {
    let mut m: StrMap<String> = StrMap::new();
    assert_eq!(m.len(), 0);
    m.insert("a".to_string(), "1".to_string());
    m.insert("b".to_string(), "2".to_string());
    m.insert("a".to_string(), "3".to_string());
    assert_eq!(m.len(), 2);
    assert_eq!(m.get("a").map(|s| s.as_str()), Some("3"));
    assert_eq!(m.get("b").map(|s| s.as_str()), Some("2"));
    assert!(m.get("c").is_none());
    assert!(m.contains_key("b"));
    let keys: Vec<&str> = m.entries().iter().map(|(k, _)| k.as_str()).collect();
    assert_eq!(keys, vec!["a", "b"]);
}

#[test]
fn remove_prefixed_keeps_others() {
    let mut m: StrMap<String> = StrMap::new();
    m.insert("workflows/a.yml".to_string(), "1".to_string());
    m.insert("chatflows/b.yml".to_string(), "2".to_string());
    m.insert("workflows/c.yml".to_string(), "3".to_string());
    m.insert("workflowsx.yml".to_string(), "4".to_string());
    m.remove_prefixed("workflows/");
    assert_eq!(m.len(), 2);
    assert!(m.get("workflows/a.yml").is_none());
    assert!(m.get("workflows/c.yml").is_none());
    assert_eq!(m.get("chatflows/b.yml").map(|s| s.as_str()), Some("2"));
    assert_eq!(m.get("workflowsx.yml").map(|s| s.as_str()), Some("4"));
}

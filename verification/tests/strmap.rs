use browserless_html_to_pdf::strmap::StringMap;

#[test]
fn read_gives_back_the_last_write() {
    let mut m = StringMap::new();
    assert!(m.insert("a".into(), "1".into()).is_none());
    assert_eq!(m.insert("a".into(), "2".into()), Some("1".to_string()));
    assert!(m.insert("b".into(), "3".into()).is_none());
    assert_eq!(m.get("a").map(String::as_str), Some("2"));
    assert_eq!(m.get("b").map(String::as_str), Some("3"));
    assert!(m.get("c").is_none());
    assert_eq!(m.len(), 2);
    let (k, v) = m.entry(0);
    assert_eq!((k.as_str(), v.as_str()), ("a", "2"));
}

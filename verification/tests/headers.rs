use brio::Headers;

#[test]
fn headers_insert_then_get() {
    let mut h = Headers::new();
    assert!(h.is_empty());
    assert_eq!(h.insert("content-type".to_owned(), "text/html".to_owned()), None);
    assert_eq!(h.insert("math".to_owned(), "1".to_owned()), None);
    assert_eq!(h.get("content-type").unwrap(), "text/html");
    assert_eq!(h.get("math").unwrap(), "1");
    assert_eq!(h.get("missing"), None);
    assert!(h.contains_key("math"));
    assert!(!h.contains_key("Math"));
    assert_eq!(h.len(), 2);
}

#[test]
fn headers_insert_replaces_in_place() {
    let mut h = Headers::new();
    h.insert("a".to_owned(), "1".to_owned());
    h.insert("b".to_owned(), "2".to_owned());
    assert_eq!(h.insert("a".to_owned(), "3".to_owned()), Some("1".to_owned()));
    assert_eq!(h.len(), 2);
    assert_eq!(h.get("a").unwrap(), "3");
    assert_eq!(h.get("b").unwrap(), "2");
    let fields = h.drain();
    assert_eq!(
        fields,
        vec![("a".to_owned(), "3".to_owned()), ("b".to_owned(), "2".to_owned())]
    );
    assert!(h.is_empty());
    assert_eq!(h.get("a"), None);
}

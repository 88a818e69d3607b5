use clipture::credentials::CredentialMap;

fn to_s(s: &str) -> String {
    s.to_string()
}

#[test]
fn persisted_map_round_trips_unchanged() {
    let mut m = CredentialMap::new();
    m.insert(to_s("sid"), to_s("a1"));
    m.insert(to_s("token"), to_s("b2"));
    m.insert(to_s("odd\"key"), to_s("back\\slash"));
    let text = m.encode();
    let back = CredentialMap::decode(text.as_str()).expect("canonical text decodes");
    assert_eq!(back.len(), m.len());
    assert_eq!(back.get(&to_s("sid")), Some(&to_s("a1")));
    assert_eq!(back.get(&to_s("token")), Some(&to_s("b2")));
    assert_eq!(back.get(&to_s("odd\"key")), Some(&to_s("back\\slash")));
    assert_eq!(back.encode(), text);
}

#[test]
fn encoding_is_canonical_json() {
    let mut m = CredentialMap::new();
    assert_eq!(m.encode(), "{}");
    m.insert(to_s("a"), to_s("b"));
    assert_eq!(m.encode(), "{\"a\":\"b\"}");
    m.insert(to_s("c"), to_s("d"));
    assert_eq!(m.encode(), "{\"a\":\"b\",\"c\":\"d\"}");
}

#[test]
fn escaping_covers_quotes_and_backslashes() {
    let mut m = CredentialMap::new();
    m.insert(to_s("k"), to_s("a\"b\\c"));
    assert_eq!(m.encode(), "{\"k\":\"a\\\"b\\\\c\"}");
}

#[test]
fn insert_replaces_the_entry_in_place() {
    let mut m = CredentialMap::new();
    m.insert(to_s("a"), to_s("1"));
    m.insert(to_s("b"), to_s("2"));
    m.insert(to_s("a"), to_s("3"));
    assert_eq!(m.len(), 2);
    assert_eq!(m.get(&to_s("a")), Some(&to_s("3")));
    assert_eq!(m.encode(), "{\"a\":\"3\",\"b\":\"2\"}");
}

#[test]
fn from_entries_folds_duplicate_keys() {
    let m = CredentialMap::from_entries(vec![
        (to_s("a"), to_s("1")),
        (to_s("b"), to_s("2")),
        (to_s("a"), to_s("3")),
    ]);
    assert_eq!(m.len(), 2);
    assert_eq!(m.get(&to_s("a")), Some(&to_s("3")));
    assert_eq!(m.get(&to_s("b")), Some(&to_s("2")));
}

#[test]
fn decoding_refuses_anything_but_one_object() {
    assert!(CredentialMap::decode("").is_none());
    assert!(CredentialMap::decode("{").is_none());
    assert!(CredentialMap::decode("[]").is_none());
    assert!(CredentialMap::decode("{\"a\":\"b\"").is_none());
    assert!(CredentialMap::decode("{\"a\":\"b\"} ").is_none());
    assert!(CredentialMap::decode("{\"a\":1}").is_none());
    assert!(CredentialMap::decode("{}").map(|m| m.len()) == Some(0));
}

#[test]
fn decoding_an_escaped_string_undoes_the_escapes() {
    let m = CredentialMap::decode("{\"k\":\"a\\\"b\\\\c\"}").expect("decodes");
    assert_eq!(m.get(&to_s("k")), Some(&to_s("a\"b\\c")));
}

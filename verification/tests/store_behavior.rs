use webshell::store::KeyValueStore;

#[test]
fn insert_and_get() {
    let mut store = KeyValueStore::new();
    store.insert("x".to_string(), "1".to_string());
    store.insert("y".to_string(), "2".to_string());
    assert_eq!(store.get("x"), Some(&"1".to_string()));
    assert_eq!(store.get("y"), Some(&"2".to_string()));
    assert_eq!(store.get("z"), None);
    assert_eq!(store.len(), 2);
}

#[test]
fn insert_overwrites() {
    let mut store = KeyValueStore::new();
    store.insert("a".to_string(), "1".to_string());
    store.insert("a".to_string(), "2".to_string());
    assert_eq!(store.get("a"), Some(&"2".to_string()));
    assert_eq!(store.len(), 1);
}

#[test]
fn merge_then_serialize_reparses_to_same_mapping() {
    let mut store = KeyValueStore::new();
    store.merge_from_header("k=v; k2=v2");
    assert_eq!(store.get("k"), Some(&"v".to_string()));
    assert_eq!(store.get("k2"), Some(&"v2".to_string()));
    assert_eq!(store.len(), 2);

    let header = store.serialize_header();
    let mut reparsed = KeyValueStore::new();
    reparsed.merge_from_header(header.as_str());
    assert_eq!(reparsed.len(), 2);
    assert_eq!(reparsed.get("k"), Some(&"v".to_string()));
    assert_eq!(reparsed.get("k2"), Some(&"v2".to_string()));

    let mut individual = KeyValueStore::new();
    individual.insert("k".to_string(), "v".to_string());
    individual.insert("k2".to_string(), "v2".to_string());
    assert_eq!(individual.serialize_header(), header);
}

#[test]
fn merge_skips_malformed_segments() {
    let mut store = KeyValueStore::new();
    store.merge_from_header("a=1; malformed; b=2");
    assert_eq!(store.len(), 2);
    assert_eq!(store.get("a"), Some(&"1".to_string()));
    assert_eq!(store.get("b"), Some(&"2".to_string()));
    assert_eq!(store.get("malformed"), None);
}

#[test]
fn merge_keeps_value_with_equals_sign() {
    let mut store = KeyValueStore::new();
    store.merge_from_header("c=d=e");
    assert_eq!(store.get("c"), Some(&"d=e".to_string()));
    assert_eq!(store.len(), 1);
}

#[test]
fn merge_skips_empty_key_or_value() {
    let mut store = KeyValueStore::new();
    store.merge_from_header("=v; k=; ; x=1");
    assert_eq!(store.len(), 1);
    assert_eq!(store.get("x"), Some(&"1".to_string()));
}

#[test]
fn merge_trims_segments() {
    let mut store = KeyValueStore::new();
    store.merge_from_header("  k=v  ;\tq=w");
    assert_eq!(store.get("k"), Some(&"v".to_string()));
    assert_eq!(store.get("q"), Some(&"w".to_string()));
}

#[test]
fn serialize_joins_with_separator() {
    let mut store = KeyValueStore::new();
    store.insert("name".to_string(), "value".to_string());
    store.insert("other".to_string(), "thing".to_string());
    assert_eq!(store.serialize_header(), "name=value; other=thing");
}

#[test]
fn merge_with_repeated_key_keeps_last_value() {
    let mut store = KeyValueStore::new();
    store.merge_from_header("a=1; a=2");
    assert_eq!(store.get("a"), Some(&"2".to_string()));
    assert_eq!(store.len(), 1);
}

#[test]
fn empty_store_serializes_to_empty_header() {
    let store = KeyValueStore::new();
    assert_eq!(store.serialize_header(), "");
    assert_eq!(store.len(), 0);
}

#[test]
fn load_missing_file_yields_empty_store() {
    let store = KeyValueStore::load_from_content(None);
    assert_eq!(store.len(), 0);
}

#[test]
fn load_malformed_content_yields_empty_store() {
    let store = KeyValueStore::load_from_content(Some("not json"));
    assert_eq!(store.len(), 0);
}

#[test]
fn save_then_load_round_trip() {
    let mut store = KeyValueStore::new();
    store.insert("x".to_string(), "1".to_string());
    store.insert("y".to_string(), "2".to_string());
    let content = store.save_content();
    let loaded = KeyValueStore::load_from_content(Some(content.as_str()));
    assert_eq!(loaded.len(), 2);
    assert_eq!(loaded.get("x"), Some(&"1".to_string()));
    assert_eq!(loaded.get("y"), Some(&"2".to_string()));
}

#[test]
fn save_then_load_keeps_special_characters() {
    let mut store = KeyValueStore::new();
    store.insert("a\"b".to_string(), "c\\d".to_string());
    let content = store.save_content();
    let loaded = KeyValueStore::load_from_content(Some(content.as_str()));
    assert_eq!(loaded.get("a\"b"), Some(&"c\\d".to_string()));
    assert_eq!(loaded.len(), 1);
}

#[test]
fn load_keeps_string_fields_and_ignores_others() {
    let store = KeyValueStore::load_from_content(Some("{\"a\":\"1\",\"n\":5}"));
    assert_eq!(store.get("a"), Some(&"1".to_string()));
    assert_eq!(store.len(), 1);
}

use sds::attribute::{AttributeMap, AttributeValue};

fn string(s: &str) -> AttributeValue {
    AttributeValue { s: Some(s.to_string()), n: None, boolean: None, m: None }
}

#[test]
fn a_new_map_is_empty() {
    let m = AttributeMap::new();
    assert_eq!(m.len(), 0);
    assert!(m.get("service").is_none());
    assert!(m.into_entries().is_empty());
}

#[test]
fn an_empty_value_has_no_type() {
    let v = AttributeValue::empty();
    assert!(v.s.is_none() && v.n.is_none() && v.boolean.is_none() && v.m.is_none());
}

#[test]
fn insert_adds_and_get_finds() {
    let mut m = AttributeMap::new();
    assert!(m.insert("service".to_string(), string("web")).is_none());
    assert!(m.insert("revision".to_string(), string("r1")).is_none());
    assert_eq!(m.len(), 2);
    assert_eq!(m.get("service").unwrap().s.as_deref(), Some("web"));
    assert_eq!(m.get("revision").unwrap().s.as_deref(), Some("r1"));
    assert!(m.get("tags").is_none());
}

#[test]
fn insert_under_a_name_twice_replaces_the_value() {
    let mut m = AttributeMap::new();
    m.insert("revision".to_string(), string("r1"));
    m.insert("service".to_string(), string("web"));
    let before = m.insert("revision".to_string(), string("r2"));
    assert_eq!(before.unwrap().s.as_deref(), Some("r1"));
    assert_eq!(m.len(), 2);
    assert_eq!(m.get("revision").unwrap().s.as_deref(), Some("r2"));
    assert_eq!(m.get("service").unwrap().s.as_deref(), Some("web"));
}

#[test]
fn remove_takes_the_value_out() {
    let mut m = AttributeMap::new();
    m.insert("a".to_string(), string("1"));
    m.insert("b".to_string(), string("2"));
    m.insert("c".to_string(), string("3"));
    assert_eq!(m.remove("b").unwrap().s.as_deref(), Some("2"));
    assert!(m.remove("b").is_none());
    assert!(m.remove("z").is_none());
    assert_eq!(m.len(), 2);
    assert_eq!(m.get("a").unwrap().s.as_deref(), Some("1"));
    assert_eq!(m.get("c").unwrap().s.as_deref(), Some("3"));
}

#[test]
fn entries_hold_each_name_once() {
    let mut m = AttributeMap::new();
    m.insert("a".to_string(), string("1"));
    m.insert("b".to_string(), string("2"));
    m.insert("a".to_string(), string("3"));
    let mut entries: Vec<(String, Option<String>)> =
        m.into_entries().into_iter().map(|(k, v)| (k, v.s)).collect();
    entries.sort();
    assert_eq!(
        entries,
        vec![("a".to_string(), Some("3".to_string())), ("b".to_string(), Some("2".to_string()))]
    );
}

#[test]
fn a_map_nests_in_a_value() {
    let mut inner = AttributeMap::new();
    inner.insert("az".to_string(), string("a"));
    let mut outer = AttributeMap::new();
    outer.insert(
        "tags".to_string(),
        AttributeValue { s: None, n: None, boolean: None, m: Some(inner) },
    );
    let tags = outer.get("tags").unwrap().m.as_ref().unwrap();
    assert_eq!(tags.get("az").unwrap().s.as_deref(), Some("a"));
}

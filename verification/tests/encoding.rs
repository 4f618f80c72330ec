use oss_rust_sdk::resources::ResourceMap;

fn map_of(entries: &[(&str, Option<&str>)]) -> ResourceMap {
    let mut m = ResourceMap::new();
    for (k, v) in entries {
        m.insert(k.to_string(), v.map(|s| s.to_string()));
    }
    m
}

#[test]
fn empty_map_encodes_to_empty_strings() {
    let (signable, queryable) = ResourceMap::new().encode_resources();
    assert_eq!(signable, "");
    assert_eq!(queryable, "");
}

#[test]
fn valued_and_presence_parameters_round_trip() {
    // `max-keys` is not a signable sub-resource, so it reaches the query
    // string only; entries sort alphabetically ("acl" < "max-keys").
    let m = map_of(&[("max-keys", Some("5")), ("acl", None)]);
    let (signable, queryable) = m.encode_resources();
    assert_eq!(signable, "acl");
    assert_eq!(queryable, "acl&max-keys=5");
}

#[test]
fn valued_and_presence_parameters_sort_alphabetically() {
    let m = map_of(&[("uploadId", Some("5")), ("acl", None)]);
    let (signable, queryable) = m.encode_resources();
    assert_eq!(signable, "acl&uploadId=5");
    assert_eq!(queryable, "acl&uploadId=5");
}

#[test]
fn insertion_order_does_not_change_encoding() {
    let a = map_of(&[("max-keys", Some("5")), ("acl", None), ("uploads", None)]);
    let b = map_of(&[("uploads", None), ("max-keys", Some("5")), ("acl", None)]);
    assert_eq!(a.encode_resources(), b.encode_resources());
    assert_eq!(a.signable_str(), "acl&uploads");
    assert_eq!(a.query_str(), "acl&max-keys=5&uploads");
}

#[test]
fn unlisted_parameter_reaches_query_string_only() {
    let with = map_of(&[("uploadId", Some("5")), ("acl", None), ("foo", Some("1"))]);
    let without = map_of(&[("uploadId", Some("5")), ("acl", None)]);
    assert_eq!(with.signable_str(), "acl&uploadId=5");
    assert_eq!(with.signable_str(), without.signable_str());
    assert_eq!(with.query_str(), "acl&foo=1&uploadId=5");
}

#[test]
fn inserting_an_existing_name_replaces_its_value() {
    let mut m = map_of(&[("acl", None), ("max-keys", Some("5"))]);
    m.insert("max-keys".to_string(), Some("10".to_string()));
    assert_eq!(m.query_str(), "acl&max-keys=10");
}

#[test]
fn from_entries_keeps_the_given_entries() {
    let m = ResourceMap::from_entries(vec![
        ("acl".to_string(), None),
        ("uploadId".to_string(), Some("7".to_string())),
    ]);
    assert_eq!(m.signable_str(), "acl&uploadId=7");
}

#[test]
fn values_are_not_url_encoded() {
    let m = map_of(&[("response-content-type", Some("a b&c"))]);
    assert_eq!(m.signable_str(), "response-content-type=a b&c");
}

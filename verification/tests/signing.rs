use oss_rust_sdk::auth::{canonicalized_headers, get_oss_resource_str, sign};
use oss_rust_sdk::headers::Headers;

const DATE: &str = "Tue, 01 Jun 2021 12:00:00 GMT";

fn headers_of(entries: &[(&str, &str)]) -> Headers {
    let mut h = Headers::new();
    for (k, v) in entries {
        h.insert(k, v).unwrap();
    }
    h
}

#[test]
fn canonical_resource_shape() {
    assert_eq!(get_oss_resource_str("b", "o", "acl"), "/b/o?acl");
    assert_eq!(get_oss_resource_str("b", "o", ""), "/b/o");
    assert_eq!(get_oss_resource_str("", "o", ""), "/");
    assert_eq!(get_oss_resource_str("", "", "acl"), "/?acl");
    assert_eq!(get_oss_resource_str("b", "", ""), "/b/");
}

#[test]
fn signature_matches_known_vector() {
    let h = headers_of(&[("Date", DATE)]);
    let auth = sign("GET", "accessid", "secretkey", "bucket", "object", "", &h);
    assert_eq!(auth, "OSS accessid:dL7lC6mutclb6fwJF5f/SPEyBs8=");
}

#[test]
fn signing_is_deterministic() {
    let h = headers_of(&[("Date", DATE), ("X-Oss-Meta-Foo", "bar")]);
    let a = sign("GET", "accessid", "secretkey", "bucket", "object", "acl", &h);
    let b = sign("GET", "accessid", "secretkey", "bucket", "object", "acl", &h);
    assert_eq!(a, b);
}

#[test]
fn header_insertion_order_does_not_change_signature() {
    let h1 = headers_of(&[
        ("Date", DATE),
        ("X-Oss-Meta-A", "1"),
        ("X-Oss-Meta-B", "2"),
        ("Content-Type", "text/plain"),
    ]);
    let h2 = headers_of(&[
        ("X-Oss-Meta-B", "2"),
        ("Content-Type", "text/plain"),
        ("X-Oss-Meta-A", "1"),
        ("Date", DATE),
    ]);
    let a = sign("PUT", "accessid", "secretkey", "b", "o", "", &h1);
    let b = sign("PUT", "accessid", "secretkey", "b", "o", "", &h2);
    assert_eq!(a, b);
}

#[test]
fn only_vendor_headers_reach_the_canonical_block() {
    let h = headers_of(&[("X-Oss-Meta-Foo", "bar"), ("Content-Type", "text/plain")]);
    assert_eq!(canonicalized_headers(&h), "x-oss-meta-foo:bar\n");
}

#[test]
fn no_vendor_headers_give_an_empty_block() {
    let h = headers_of(&[("Date", DATE), ("Content-Type", "text/plain")]);
    assert_eq!(canonicalized_headers(&h), "");
}

#[test]
fn vendor_headers_are_sorted_by_name() {
    let h = headers_of(&[("X-Oss-Z", "1"), ("X-Oss-A", "2")]);
    assert_eq!(canonicalized_headers(&h), "x-oss-a:2\nx-oss-z:1\n");
}

#[test]
fn content_md5_is_re_encoded_and_vendor_block_signed() {
    let h = headers_of(&[
        ("Date", DATE),
        ("Content-Type", "text/plain"),
        ("Content-MD5", "rawmd5value"),
        ("X-Oss-Meta-Foo", "bar"),
    ]);
    let auth = sign("PUT", "accessid", "secretkey", "b", "o", "", &h);
    assert_eq!(auth, "OSS accessid:NnaiCtZsJy71T9xaOT/nGHPpyfk=");
}

#[test]
fn missing_date_and_content_type_default_to_empty() {
    let h = Headers::new();
    let a = sign("GET", "id", "secretkey", "bucket", "object", "", &h);
    // the string-to-sign collapses to "GET\n\n\n\n/bucket/object"
    assert!(a.starts_with("OSS id:"));
    let h2 = headers_of(&[("Date", "")]);
    let b = sign("GET", "id", "secretkey", "bucket", "object", "", &h2);
    assert_eq!(a, b);
}

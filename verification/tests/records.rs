use oss_rust_sdk::multi_part::{CompleteMultipartUploadResult, InitiateMultipartUploadResult};
use oss_rust_sdk::object::{CommonPrefix, ListObjects, Object, Owner};
use oss_rust_sdk::service::{Bucket, ListBuckets};

fn owner() -> Owner {
    Owner { id: "uid-1".to_string(), display_name: "alice".to_string() }
}

#[test]
fn object_record_carries_its_fields() {
    let o = Object::new(
        "photos/cat.png".to_string(),
        "2023-02-24T03:15:40.000Z".to_string(),
        1024,
        "\"etag\"".to_string(),
        "Normal".to_string(),
        "Standard".to_string(),
        owner(),
    );
    assert_eq!(o.key(), "photos/cat.png");
    assert_eq!(o.last_modified(), "2023-02-24T03:15:40.000Z");
    assert_eq!(o.size(), 1024);
    assert_eq!(o.e_tag(), "\"etag\"");
    assert_eq!(o.type_(), "Normal");
    assert_eq!(o.storage_class(), "Standard");
    assert_eq!(o.id(), "uid-1");
    assert_eq!(o.display_name(), "alice");
}

#[test]
fn list_objects_record_carries_its_fields() {
    let o = Object::new(
        "k".to_string(),
        "lm".to_string(),
        1,
        "e".to_string(),
        "Normal".to_string(),
        "Standard".to_string(),
        owner(),
    );
    let l = ListObjects::new(
        "bucket".to_string(),
        "/".to_string(),
        "photos/".to_string(),
        "m".to_string(),
        "100".to_string(),
        true,
        vec![o],
        vec![CommonPrefix { prefix: "photos/2023/".to_string() }],
    );
    assert_eq!(l.name(), "bucket");
    assert_eq!(l.delimiter(), "/");
    assert_eq!(l.prefix(), "photos/");
    assert_eq!(l.marker(), "m");
    assert_eq!(l.max_keys(), "100");
    assert!(l.is_truncated());
    assert_eq!(l.contents().len(), 1);
    assert_eq!(l.contents()[0].key(), "k");
    assert_eq!(l.common_prefixes()[0].prefix, "photos/2023/");
}

#[test]
fn bucket_listing_records_carry_their_fields() {
    let b = Bucket::new(
        "mybucket".to_string(),
        "2016-11-05T13:10:10.000Z".to_string(),
        "oss-cn-shanghai".to_string(),
        "oss-cn-shanghai.example.com".to_string(),
        "oss-cn-shanghai-internal.example.com".to_string(),
        "Standard".to_string(),
    );
    assert_eq!(b.name(), "mybucket");
    assert_eq!(b.creation_date(), "2016-11-05T13:10:10.000Z");
    assert_eq!(b.location(), "oss-cn-shanghai");
    assert_eq!(b.extranet_endpoint(), "oss-cn-shanghai.example.com");
    assert_eq!(b.intranet_endpoint(), "oss-cn-shanghai-internal.example.com");
    assert_eq!(b.storage_class(), "Standard");

    let l = ListBuckets::new(
        "".to_string(),
        "".to_string(),
        "".to_string(),
        false,
        "".to_string(),
        owner(),
        vec![b],
    );
    assert_eq!(l.prefix(), "");
    assert_eq!(l.marker(), "");
    assert_eq!(l.max_keys(), "");
    assert!(!l.is_truncated());
    assert_eq!(l.next_marker(), "");
    assert_eq!(l.id(), "uid-1");
    assert_eq!(l.display_name(), "alice");
    assert_eq!(l.buckets()[0].name(), "mybucket");
}

#[test]
fn async_bucket_record_carries_its_fields() {
    let b = oss_rust_sdk::async_service::Bucket::new(
        "b".to_string(),
        "cd".to_string(),
        "loc".to_string(),
        "ee".to_string(),
        "ie".to_string(),
        "IA".to_string(),
    );
    assert_eq!(b.name(), "b");
    assert_eq!(b.creation_date(), "cd");
    assert_eq!(b.location(), "loc");
    assert_eq!(b.extranet_endpoint(), "ee");
    assert_eq!(b.intranet_endpoint(), "ie");
    assert_eq!(b.storage_class(), "IA");
}

#[test]
fn multipart_records_carry_their_fields() {
    let i = InitiateMultipartUploadResult {
        bucket: "b".to_string(),
        key: "k".to_string(),
        upload_id: "u".to_string(),
    };
    assert_eq!(i.bucket, "b");
    assert_eq!(i.key, "k");
    assert_eq!(i.upload_id, "u");
    let c = CompleteMultipartUploadResult {
        location: "l".to_string(),
        bucket: "b".to_string(),
        key: "k".to_string(),
        e_tag: "e".to_string(),
    };
    assert_eq!(c.location, "l");
    assert_eq!(c.bucket, "b");
    assert_eq!(c.key, "k");
    assert_eq!(c.e_tag, "e");
}

#[test]
fn legacy_object_error_variants() {
    let e = oss_rust_sdk::error::ObjectError::GetError("boom".to_string());
    assert!(matches!(e, oss_rust_sdk::error::ObjectError::GetError(_)));
}

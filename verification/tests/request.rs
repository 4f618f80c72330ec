use oss_rust_sdk::oss::{RequestType, OSS};
use oss_rust_sdk::resources::ResourceMap;

const DATE: &str = "Tue, 01 Jun 2021 12:00:00 GMT";

fn client() -> OSS {
    OSS::new(
        "accessid".to_string(),
        "secretkey".to_string(),
        "https://oss.example.com".to_string(),
        "mybucket".to_string(),
    )
}

#[test]
fn host_builds_virtual_hosted_url() {
    let oss = client();
    assert_eq!(
        oss.host("mybucket", "file.txt", "max-keys=5"),
        "https://mybucket.oss.example.com/file.txt?max-keys=5"
    );
}

#[test]
fn host_assumes_http_for_unschemed_endpoints() {
    let oss = OSS::new(
        "id".to_string(),
        "secret".to_string(),
        "oss-cn.example.com".to_string(),
        "b".to_string(),
    );
    assert_eq!(oss.host("b", "o", ""), "http://b.oss-cn.example.com/o?");
}

#[test]
fn client_accessors_and_bucket_swap() {
    let mut oss = client();
    assert_eq!(oss.bucket(), "mybucket");
    assert_eq!(oss.endpoint(), "https://oss.example.com");
    assert_eq!(oss.key_id(), "accessid");
    assert_eq!(oss.key_secret(), "secretkey");
    oss.set_bucket("other".to_string());
    assert_eq!(oss.bucket(), "other");
}

#[test]
fn request_type_verbs() {
    assert_eq!(RequestType::Get.as_str(), "GET");
    assert_eq!(RequestType::Put.as_str(), "PUT");
    assert_eq!(RequestType::Delete.as_str(), "DELETE");
    assert_eq!(RequestType::Head.as_str(), "HEAD");
    assert_eq!(RequestType::Post.as_str(), "POST");
}

#[test]
fn build_request_with_date_signs_and_dates_the_request() {
    let oss = client();
    let mut params = ResourceMap::new();
    params.insert("acl".to_string(), None);
    let (url, headers) = oss
        .build_request_with_date(RequestType::Get, "file.txt", None, Some(&params), DATE)
        .unwrap();
    assert_eq!(url, "https://mybucket.oss.example.com/file.txt?acl");
    assert_eq!(headers.get("Date").unwrap(), DATE);
    assert_eq!(
        headers.get("Authorization").unwrap(),
        "OSS accessid:yIusqMn/78dCDePcvf98k7o7Qmo="
    );
}

#[test]
fn build_request_with_date_keeps_caller_headers() {
    let oss = client();
    let hs = vec![("X-Oss-Meta-Foo".to_string(), "bar".to_string())];
    let (_, headers) = oss
        .build_request_with_date(RequestType::Put, "o", Some(hs), None, DATE)
        .unwrap();
    assert_eq!(headers.get("x-oss-meta-foo").unwrap(), "bar");
    assert_eq!(headers.get("date").unwrap(), DATE);
    assert!(headers.get("authorization").is_some());
}

#[test]
fn build_request_rejects_unrepresentable_caller_headers() {
    let oss = client();
    let hs = vec![("bad name".to_string(), "v".to_string())];
    let r = oss.build_request_with_date(RequestType::Get, "o", Some(hs), None, DATE);
    assert!(r.is_err());
}

#[test]
fn build_request_rejects_unrepresentable_date() {
    let oss = client();
    let r = oss.build_request_with_date(RequestType::Get, "o", None, None, "bad\u{7f}date");
    assert!(r.is_err());
}

#[test]
fn build_request_reads_the_clock_once_and_signs() {
    let oss = client();
    let (url, headers) = oss.build_request(RequestType::Get, "file.txt", None, None).unwrap();
    assert_eq!(url, "https://mybucket.oss.example.com/file.txt?");
    let date = headers.get("Date").expect("a date header").clone();
    assert!(date.ends_with(" GMT"));
    let auth = headers.get("Authorization").expect("an authorization header");
    assert!(auth.starts_with("OSS accessid:"));
}

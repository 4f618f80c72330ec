use oss_rust_sdk::digits::{parse_usize, u16_to_dec};
use oss_rust_sdk::errors::{check_status, Error, HttpError, ObjectError, OpKind};
use oss_rust_sdk::headers::{to_headers, Headers};
use oss_rust_sdk::object::extract_grant;
use oss_rust_sdk::oss::ObjectMeta;

#[test]
fn header_names_are_stored_lower_cased() {
    let mut h = Headers::new();
    h.insert("X-Oss-Meta-Foo", "bar").unwrap();
    assert_eq!(h.get("x-oss-meta-foo").unwrap(), "bar");
    assert_eq!(h.get("X-OSS-META-FOO").unwrap(), "bar");
    assert_eq!(h.len(), 1);
    let (name, value) = h.entry_at(0);
    assert_eq!(name, "x-oss-meta-foo");
    assert_eq!(value, "bar");
}

#[test]
fn inserting_an_existing_header_replaces_its_value() {
    let mut h = Headers::new();
    h.insert("Date", "a").unwrap();
    h.insert("date", "b").unwrap();
    assert_eq!(h.len(), 1);
    assert_eq!(h.get("Date").unwrap(), "b");
}

#[test]
fn invalid_header_name_is_rejected() {
    let mut h = Headers::new();
    let e = h.insert("bad name", "v").unwrap_err();
    assert_eq!(
        e,
        Error::Http(HttpError::HttpInvalidHeaderName("bad name".to_string()))
    );
    assert_eq!(h.len(), 0);
}

#[test]
fn invalid_header_value_is_rejected() {
    let mut h = Headers::new();
    let e = h.insert("ok", "bad\u{7f}").unwrap_err();
    assert_eq!(
        e,
        Error::Http(HttpError::HttpInvalidHeaderValue("bad\u{7f}".to_string()))
    );
}

#[test]
fn to_headers_reports_the_first_invalid_pair() {
    let pairs = vec![
        ("Content-Type".to_string(), "text/plain".to_string()),
        ("bad name".to_string(), "v".to_string()),
    ];
    let e = to_headers(pairs).unwrap_err();
    assert_eq!(
        e,
        Error::Http(HttpError::HttpInvalidHeaderName("bad name".to_string()))
    );
    let ok = to_headers(vec![("A".to_string(), "1".to_string())]).unwrap();
    assert_eq!(ok.get("a").unwrap(), "1");
}

#[test]
fn object_meta_reads_the_three_headers() {
    let mut h = Headers::new();
    h.insert("Last-Modified", "Fri, 24 Feb 2023 03:15:40 GMT").unwrap();
    h.insert("Content-Length", "1024").unwrap();
    h.insert("Content-Md5", "md5val").unwrap();
    let m = ObjectMeta::from_header_map(&h).unwrap();
    assert_eq!(m.last_modified, 1677208540);
    assert_eq!(m.size, 1024);
    assert_eq!(m.md5, "md5val");
}

#[test]
fn object_meta_reports_what_is_missing_or_malformed() {
    let header_err = |h: &Headers| match ObjectMeta::from_header_map(h).unwrap_err() {
        Error::Object(ObjectError::HeadError { msg }) => msg,
        other => panic!("unexpected error: {:?}", other),
    };
    let mut h = Headers::new();
    assert_eq!(header_err(&h), "can not find Last-Modified in head response");
    h.insert("Last-Modified", "notadate").unwrap();
    assert_eq!(header_err(&h), "cannot parse to system time");
    h.insert("Last-Modified", "Fri, 24 Feb 2023 03:15:40 GMT").unwrap();
    assert_eq!(header_err(&h), "can not find Content-Length in head response");
    h.insert("Content-Length", "12x").unwrap();
    assert_eq!(header_err(&h), "cannot parse to number");
    h.insert("Content-Length", "7").unwrap();
    assert_eq!(header_err(&h), "can not find Content-Md5 in head response");
}

#[test]
fn status_mapping_surfaces_operation_and_code() {
    assert!(check_status(OpKind::Get, 200).is_ok());
    assert!(check_status(OpKind::Put, 204).is_ok());
    assert!(check_status(OpKind::Head, 299).is_ok());
    let e = check_status(OpKind::Get, 404).unwrap_err();
    assert_eq!(
        e,
        Error::Object(ObjectError::GetError {
            msg: "can not get object, status code: 404".to_string()
        })
    );
    let e = check_status(OpKind::Put, 500).unwrap_err();
    assert_eq!(
        e,
        Error::Object(ObjectError::PutError {
            msg: "can not put object, status code: 500".to_string()
        })
    );
    let e = check_status(OpKind::Copy, 403).unwrap_err();
    assert!(matches!(e, Error::Object(ObjectError::CopyError { .. })));
    let e = check_status(OpKind::Delete, 301).unwrap_err();
    assert!(matches!(e, Error::Object(ObjectError::DeleteError { .. })));
    let e = check_status(OpKind::Post, 199).unwrap_err();
    assert!(matches!(e, Error::Object(ObjectError::PostError { .. })));
}

#[test]
fn decimal_parsing_follows_std() {
    assert_eq!(parse_usize("123"), Some(123));
    assert_eq!(parse_usize("+7"), Some(7));
    assert_eq!(parse_usize("0"), Some(0));
    assert_eq!(parse_usize(""), None);
    assert_eq!(parse_usize("+"), None);
    assert_eq!(parse_usize("1a"), None);
    assert_eq!(parse_usize("-1"), None);
    assert_eq!(parse_usize("18446744073709551615"), Some(usize::MAX));
    assert_eq!(parse_usize("18446744073709551616"), None);
}

#[test]
fn decimal_rendering() {
    assert_eq!(u16_to_dec(0), "0");
    assert_eq!(u16_to_dec(404), "404");
    assert_eq!(u16_to_dec(65535), "65535");
}

#[test]
fn grant_extraction_from_acl_body() {
    let body = "<AccessControlPolicy><AccessControlList><Grant>public-read</Grant></AccessControlList></AccessControlPolicy>";
    assert_eq!(extract_grant(body).unwrap(), "public-read");
    assert_eq!(extract_grant("<AccessControlPolicy/>").unwrap(), "");
    assert_eq!(extract_grant("<Grant>never closed"), None);
}

#[test]
fn grant_extraction_trims_pretty_printed_text() {
    let body = "<AccessControlList>\n  <Grant>\n    public-read\n  </Grant>\n</AccessControlList>";
    assert_eq!(extract_grant(body).unwrap(), "public-read");
}

#[test]
fn grant_extraction_keeps_the_last_grant() {
    let body = "<Grant>private</Grant><Grant>public-read-write</Grant>";
    assert_eq!(extract_grant(body).unwrap(), "public-read-write");
    assert_eq!(extract_grant("<Grant>a</Grant><Grant>unclosed"), None);
}

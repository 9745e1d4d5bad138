use spider_downloader::errors::DownloadError;
use spider_downloader::model::{MetaValue, Method};
use spider_downloader::response::{normalize_response, validate_status};

#[test]
fn validate_status_accepts_exactly_the_valid_range() {
    assert_eq!(validate_status(100).unwrap(), 100);
    assert_eq!(validate_status(200).unwrap(), 200);
    assert_eq!(validate_status(999).unwrap(), 999);
    assert!(matches!(validate_status(99), Err(DownloadError::InvalidStatus(99))));
    assert!(matches!(validate_status(1000), Err(DownloadError::InvalidStatus(1000))));
    assert!(matches!(validate_status(0), Err(DownloadError::InvalidStatus(0))));
}

#[test]
fn the_submitted_url_survives_a_redirect() {
    // The transport followed a redirect: the resolved URL differs from the
    // submitted one, and both are reported.
    let resp = normalize_response(
        "http://example.com/a".to_string(),
        Vec::new(),
        "http://example.com/b".to_string(),
        200,
        Vec::new(),
        b"done".to_vec(),
    )
    .unwrap();
    assert_eq!(resp.request_url, "http://example.com/a");
    assert_eq!(resp.url, "http://example.com/b");
    assert_eq!(resp.status, 200);
    assert_eq!(resp.body, b"done".to_vec());
    assert!(!resp.cached);
}

#[test]
fn metadata_is_echoed_back_unchanged() {
    let meta = vec![("tag".to_string(), MetaValue::Str("alpha".to_string()))];
    let resp = normalize_response(
        "http://a.test/".to_string(),
        meta,
        "http://a.test/".to_string(),
        204,
        vec![("server".to_string(), "demo".to_string())],
        Vec::new(),
    )
    .unwrap();
    assert_eq!(resp.meta.len(), 1);
    assert_eq!(resp.meta[0].0, "tag");
    assert!(matches!(&resp.meta[0].1, MetaValue::Str(s) if s == "alpha"));
    assert_eq!(resp.headers, vec![("server".to_string(), "demo".to_string())]);
}

#[test]
fn an_out_of_range_status_fails_with_the_invalid_status_error() {
    let err = normalize_response(
        "http://a.test/".to_string(),
        Vec::new(),
        "http://a.test/".to_string(),
        1000,
        Vec::new(),
        Vec::new(),
    )
    .unwrap_err();
    assert!(matches!(err, DownloadError::InvalidStatus(1000)));
}

#[test]
fn error_kinds_carry_distinct_labels() {
    assert_eq!(DownloadError::UrlParse(String::new()).kind_label(), "url parse error");
    assert_eq!(DownloadError::Transport(String::new()).kind_label(), "transport error");
    assert_eq!(DownloadError::InvalidStatus(7).kind_label(), "invalid status code");
    assert_eq!(DownloadError::BodyIo(String::new()).kind_label(), "body read error");
}

#[test]
fn methods_name_themselves_on_the_wire() {
    assert_eq!(Method::Get.name(), "GET");
    assert_eq!(Method::Post.name(), "POST");
    assert_eq!(Method::Delete.name(), "DELETE");
    assert_eq!(Method::Patch.name(), "PATCH");
}

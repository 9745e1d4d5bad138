use spider_downloader::errors::DownloadError;
use spider_downloader::model::{Body, MetaValue, Method, Request};
use spider_downloader::outbound::{encode_body, outgoing_headers, prepare};
use spider_downloader::pool::{build_pooled_client, default_client_settings};

fn pooled() -> reqwest::Client {
    build_pooled_client(&default_client_settings(30_000)).expect("client construction")
}

fn plain_request(url: &str) -> Request {
    Request {
        url: url.to_string(),
        method: Method::Get,
        headers: Vec::new(),
        body: None,
        meta: Vec::new(),
    }
}

#[test]
fn a_request_without_a_body_carries_none() {
    assert!(encode_body(&None).is_none());
    let headers = outgoing_headers(&Vec::new(), &None);
    assert!(headers.is_empty());
}

#[test]
fn raw_bytes_pass_through_unchanged() {
    let input = vec![0u8, 1, 2, 255, 38, 61, 37];
    let body = Some(Body::Bytes(input.clone()));
    assert_eq!(encode_body(&body).unwrap(), input);
    // Raw bytes derive no content header.
    let headers = outgoing_headers(&Vec::new(), &body);
    assert!(headers.is_empty());
}

#[test]
fn a_json_body_round_trips_to_the_same_value() {
    let mut obj = serde_json::Map::new();
    obj.insert("k".to_string(), serde_json::Value::String("v".to_string()));
    obj.insert(
        "n".to_string(),
        serde_json::Value::Array(vec![
            serde_json::Value::Bool(true),
            serde_json::Value::Null,
            serde_json::Value::from(7i64),
        ]),
    );
    let value = serde_json::Value::Object(obj);
    let encoded = encode_body(&Some(Body::Json(value.clone()))).unwrap();
    let back: serde_json::Value = serde_json::from_slice(&encoded).unwrap();
    assert_eq!(back, value);
}

#[test]
fn a_json_body_derives_its_content_header() {
    let body = Some(Body::Json(serde_json::Value::Null));
    let headers = outgoing_headers(&Vec::new(), &body);
    assert_eq!(headers, vec![("content-type".to_string(), "application/json".to_string())]);
}

#[test]
fn a_form_body_derives_its_content_header() {
    let body = Some(Body::Form(vec![("a".to_string(), "b".to_string())]));
    let headers = outgoing_headers(&Vec::new(), &body);
    assert_eq!(
        headers,
        vec![("content-type".to_string(), "application/x-www-form-urlencoded".to_string())]
    );
}

#[test]
fn a_caller_supplied_content_header_overrides_the_default() {
    let body = Some(Body::Json(serde_json::Value::Null));
    let explicit = vec![("Content-Type".to_string(), "text/plain".to_string())];
    let headers = outgoing_headers(&explicit, &body);
    assert_eq!(headers, explicit);
}

#[test]
fn prepare_without_a_proxy_uses_the_pooled_client() {
    let prepared = prepare(&plain_request("http://a.test/"), &pooled(), 30_000).unwrap();
    assert!(!prepared.uses_proxy);
    assert_eq!(prepared.url, "http://a.test/");
    assert!(prepared.body.is_none());
}

#[test]
fn prepare_rejects_an_unparseable_url() {
    let err = prepare(&plain_request("no scheme here"), &pooled(), 30_000).unwrap_err();
    assert!(matches!(err, DownloadError::UrlParse(_)));
}

#[test]
fn a_proxy_directive_switches_to_a_one_off_client() {
    let mut req = plain_request("http://a.test/");
    req.meta.push((
        "proxy".to_string(),
        MetaValue::Str("http://127.0.0.1:9".to_string()),
    ));
    let prepared = prepare(&req, &pooled(), 30_000).unwrap();
    assert!(prepared.uses_proxy);
}

#[test]
fn a_proxy_that_cannot_be_built_fails_the_call() {
    // Fail-closed: the call errors instead of falling back to the pooled
    // client.
    let mut req = plain_request("http://a.test/");
    req.meta.push((
        "proxy".to_string(),
        MetaValue::Str("::not a proxy url::".to_string()),
    ));
    let err = prepare(&req, &pooled(), 30_000).unwrap_err();
    assert!(matches!(err, DownloadError::Transport(_)));
}

#[test]
fn prepare_encodes_a_form_body_with_its_header() {
    let mut req = plain_request("http://a.test/submit");
    req.method = Method::Post;
    req.body = Some(Body::Form(vec![("a b".to_string(), "c&d".to_string())]));
    let prepared = prepare(&req, &pooled(), 30_000).unwrap();
    assert_eq!(prepared.body.unwrap(), b"a+b=c%26d".to_vec());
    assert_eq!(
        prepared.headers,
        vec![("content-type".to_string(), "application/x-www-form-urlencoded".to_string())]
    );
    assert_eq!(prepared.method, Method::Post);
}

#[test]
fn json_encoding_produces_the_standard_compact_form() {
    let encoded = encode_body(&Some(Body::Json(serde_json::Value::Null))).unwrap();
    assert_eq!(encoded, b"null".to_vec());
    let mut obj = serde_json::Map::new();
    obj.insert("k".to_string(), serde_json::Value::String("v".to_string()));
    let encoded = encode_body(&Some(Body::Json(serde_json::Value::Object(obj)))).unwrap();
    assert_eq!(encoded, b"{\"k\":\"v\"}".to_vec());
}

#[test]
fn prepare_keeps_explicit_headers_and_appends_the_default() {
    let mut req = plain_request("http://a.test/");
    req.headers = vec![
        ("accept".to_string(), "text/html".to_string()),
        ("x-tag".to_string(), "7".to_string()),
    ];
    req.body = Some(Body::Json(serde_json::Value::Bool(true)));
    let prepared = prepare(&req, &pooled(), 30_000).unwrap();
    assert_eq!(
        prepared.headers,
        vec![
            ("accept".to_string(), "text/html".to_string()),
            ("x-tag".to_string(), "7".to_string()),
            ("content-type".to_string(), "application/json".to_string()),
        ]
    );
    assert_eq!(prepared.body.unwrap(), b"true".to_vec());
}

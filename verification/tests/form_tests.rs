use spider_downloader::form::encode_form;

fn pairs(v: &[(&str, &str)]) -> Vec<(String, String)> {
    v.iter().map(|(k, val)| (k.to_string(), val.to_string())).collect()
}

#[test]
fn empty_form_encodes_to_nothing() {
    let encoded = encode_form(&Vec::new());
    assert_eq!(encoded, Vec::<u8>::new());
}

#[test]
fn single_pair_uses_plus_and_percent_escapes() {
    let encoded = encode_form(&pairs(&[("a b", "c&d")]));
    assert_eq!(encoded, b"a+b=c%26d".to_vec());
}

#[test]
fn unreserved_bytes_pass_through() {
    let encoded = encode_form(&pairs(&[("A1*-._z", "ok")]));
    assert_eq!(encoded, b"A1*-._z=ok".to_vec());
}

#[test]
fn pairs_join_with_ampersand() {
    let encoded = encode_form(&pairs(&[("k1", "v1"), ("k2", "v2")]));
    assert_eq!(encoded, b"k1=v1&k2=v2".to_vec());
}

#[test]
fn empty_key_and_value_still_carry_the_equals_sign() {
    let encoded = encode_form(&pairs(&[("", "")]));
    assert_eq!(encoded, b"=".to_vec());
}

#[test]
fn escapes_use_uppercase_hex_of_utf8_bytes() {
    let encoded = encode_form(&pairs(&[("k", "café")]));
    assert_eq!(encoded, b"k=caf%C3%A9".to_vec());
}

#[test]
fn encoded_form_decodes_to_the_same_pairs() {
    let input = pairs(&[("key one", "val/ue"), ("snowman", "☃"), ("x", "1=2&3")]);
    let encoded = encode_form(&input);
    let decoded: Vec<(String, String)> = url::form_urlencoded::parse(&encoded)
        .map(|(k, v)| (k.into_owned(), v.into_owned()))
        .collect();
    assert_eq!(decoded, input);
}

fn byte_pairs(v: &[(&[u8], &[u8])]) -> Vec<(Vec<u8>, Vec<u8>)> {
    v.iter().map(|(k, val)| (k.to_vec(), val.to_vec())).collect()
}

#[test]
fn decoding_inverts_encoding() {
    let input = pairs(&[("a b", "c&d"), ("café", "x=y"), ("", "")]);
    let encoded = spider_downloader::form::encode_form(&input);
    let decoded = spider_downloader::form::decode_form(&encoded).unwrap();
    let expected: Vec<(Vec<u8>, Vec<u8>)> = input
        .iter()
        .map(|(k, v)| (k.as_bytes().to_vec(), v.as_bytes().to_vec()))
        .collect();
    assert_eq!(decoded, expected);
}

#[test]
fn decoding_reads_plus_and_escapes_of_either_case() {
    let decoded = spider_downloader::form::decode_form(&b"a+b=c%26d&k=caf%c3%A9".to_vec()).unwrap();
    assert_eq!(
        decoded,
        byte_pairs(&[(b"a b", b"c&d"), (b"k", "café".as_bytes())])
    );
}

#[test]
fn decoding_treats_a_segment_without_equals_as_an_empty_value() {
    let decoded = spider_downloader::form::decode_form(&b"lone".to_vec()).unwrap();
    assert_eq!(decoded, byte_pairs(&[(b"lone", b"")]));
}

#[test]
fn decoding_rejects_malformed_escapes() {
    assert!(spider_downloader::form::decode_form(&b"k=%2".to_vec()).is_none());
    assert!(spider_downloader::form::decode_form(&b"k=%zz".to_vec()).is_none());
}

#[test]
fn decoding_empty_input_yields_no_pairs() {
    let decoded = spider_downloader::form::decode_form(&Vec::new()).unwrap();
    assert!(decoded.is_empty());
}

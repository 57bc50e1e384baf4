use flate2::write::GzEncoder;
use flate2::Compression;
use statsai::json_limit::{
    read_encoded_json_limited, read_json_limited, read_limited_bytes, JsonLimitError,
    JSON_RESPONSE_LIMIT_AUTH, JSON_RESPONSE_LIMIT_DEFAULT, JSON_RESPONSE_LIMIT_HEALTH,
};
use std::io::Write;

fn parsed(bytes: &[u8]) -> serde_json::Value {
    serde_json::from_slice(bytes).expect("JSON")
}

fn compressed(bytes: &[u8]) -> Vec<u8> {
    let mut encoder = GzEncoder::new(Vec::new(), Compression::default());
    encoder.write_all(bytes).expect("compress");
    encoder.finish().expect("finish")
}

#[test]
fn exact_limit_parses_and_one_extra_byte_is_rejected() {
    let payload = br#"{"ok":true}"#;
    let body = read_json_limited(payload.to_vec(), payload.len()).expect("exact");
    assert_eq!(parsed(&body)["ok"], true);
    let error = read_json_limited(payload.to_vec(), payload.len() - 1).expect_err("overflow");
    assert!(matches!(error, JsonLimitError::TooLarge { .. }));
    assert_eq!(error.text(), "JSON response exceeds the 10 byte limit");
}

#[test]
fn gzip_expansion_is_counted_after_decompression() {
    let json = br#"{"token":"expanded"}"#;
    let compressed = compressed(json);
    assert!(!compressed.is_empty());
    let body = read_encoded_json_limited(compressed.clone(), Some("gzip"), json.len())
        .expect("gzip within limit");
    assert_eq!(parsed(&body)["token"], "expanded");
    let error = read_encoded_json_limited(compressed, Some("gzip"), json.len() - 1)
        .expect_err("gzip overflow");
    assert!(matches!(error, JsonLimitError::TooLarge { .. }));
}

#[test]
fn malformed_json_is_rejected_after_the_size_check() {
    let error = read_json_limited(b"{".to_vec(), 16).expect_err("malformed");
    assert!(matches!(error, JsonLimitError::Parse));
}

#[test]
fn response_limit_defaults_match_the_security_bounds() {
    assert_eq!(JSON_RESPONSE_LIMIT_HEALTH, 64 * 1024);
    assert_eq!(JSON_RESPONSE_LIMIT_AUTH, 1024 * 1024);
    assert_eq!(JSON_RESPONSE_LIMIT_DEFAULT, 10 * 1024 * 1024);
}

#[test]
fn chunked_gzip_and_misleading_lengths_are_bounded_on_the_wire() {
    let exact = r#"{"ok":true}"#;
    let body = read_json_limited(exact.as_bytes().to_vec(), exact.len()).expect("chunked exact");
    assert_eq!(parsed(&body)["ok"], true);
    let error = read_json_limited(exact.as_bytes().to_vec(), exact.len() - 1)
        .expect_err("chunked overflow");
    assert!(matches!(error, JsonLimitError::TooLarge { .. }));

    let json = br#"{"token":"expanded-through-http"}"#;
    let compressed = compressed(json);
    let body = read_encoded_json_limited(compressed.clone(), Some("gzip"), json.len())
        .expect("gzip http");
    assert_eq!(parsed(&body)["token"], "expanded-through-http");
    let error = read_encoded_json_limited(compressed, Some("gzip"), json.len() - 1)
        .expect_err("gzip http overflow");
    assert!(matches!(error, JsonLimitError::TooLarge { .. }));

    let misleading_body = vec![b'{'; 32];
    let error = read_json_limited(misleading_body, 16)
        .expect_err("declared length must not raise the read cap");
    assert!(matches!(error, JsonLimitError::TooLarge { .. }));

    let error = read_json_limited(b"{".to_vec(), 16).expect_err("malformed");
    assert!(matches!(error, JsonLimitError::Parse));
}

#[test]
fn encodings_are_told_apart() {
    assert_eq!(
        read_limited_bytes(b"abc".to_vec(), Some("  Identity "), 3),
        Ok(b"abc".to_vec())
    );
    assert_eq!(read_limited_bytes(b"abc".to_vec(), Some(""), 3), Ok(b"abc".to_vec()));
    assert_eq!(
        read_limited_bytes(compressed(b"abc"), Some("X-GZIP"), 3),
        Ok(b"abc".to_vec())
    );
    let error = read_limited_bytes(b"abc".to_vec(), Some(" br "), 3).unwrap_err();
    assert_eq!(
        error,
        JsonLimitError::UnsupportedEncoding { encoding: "br".to_string() }
    );
    assert_eq!(error.text(), "unsupported JSON content encoding br");
    assert_eq!(
        read_limited_bytes(b"not gzip at all".to_vec(), Some("gzip"), 30),
        Err(JsonLimitError::Read)
    );
}

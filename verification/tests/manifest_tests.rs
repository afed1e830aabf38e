use registry_core::manifest::parse_manifest;

#[test]
fn parses_image_manifest_refs_in_order() {
    let body = format!(
        "{{\"schemaVersion\":2,\"config\":{{\"digest\":\"sha256:{}\"}},\"layers\":[{{\"digest\":\"sha256:{}\"}},{{\"digest\":\"sha256:{}\"}}]}}",
        "a".repeat(64),
        "b".repeat(64),
        "c".repeat(64)
    );
    let m = parse_manifest(body.as_bytes()).unwrap();
    assert!(!m.is_index);
    assert_eq!(m.refs.len(), 3);
    assert_eq!(m.refs[0], format!("sha256:{}", "a".repeat(64)).into_bytes());
    assert_eq!(m.refs[1], format!("sha256:{}", "b".repeat(64)).into_bytes());
    assert_eq!(m.refs[2], format!("sha256:{}", "c".repeat(64)).into_bytes());
}

#[test]
fn parses_index_manifest() {
    let body = format!(
        "{{\"schemaVersion\":2,\"manifests\":[{{\"digest\":\"sha256:{}\",\"platform\":{{\"os\":\"linux\"}}}}]}}",
        "d".repeat(64)
    );
    let m = parse_manifest(body.as_bytes()).unwrap();
    assert!(m.is_index);
    assert_eq!(m.refs.len(), 1);
    assert_eq!(m.refs[0], format!("sha256:{}", "d".repeat(64)).into_bytes());
}

#[test]
fn tolerates_whitespace_and_unknown_keys() {
    let body = format!(
        " {{ \"schemaVersion\" : 2 ,\n\t\"annotations\": {{\"a\": [1, -2.5e3, true, false, null]}},\r\n\"config\": {{\"size\": 12, \"digest\": \"sha256:{}\"}}, \"layers\": [] }} ",
        "e".repeat(64)
    );
    let m = parse_manifest(body.as_bytes()).unwrap();
    assert!(!m.is_index);
    assert_eq!(m.refs.len(), 1);
}

#[test]
fn unescapes_string_escapes() {
    let body = format!(
        "{{\"schemaVersion\":2,\"annotations\":{{\"note\":\"a\\\"b\\\\c\\n\"}},\"config\":{{\"digest\":\"sha256:{}\"}},\"layers\":[]}}",
        "f".repeat(64)
    );
    assert!(parse_manifest(body.as_bytes()).is_some());
}

#[test]
fn rejects_bad_bodies() {
    assert!(parse_manifest(b"").is_none());
    assert!(parse_manifest(b"[]").is_none());
    assert!(parse_manifest(b"{}").is_none());
    assert!(parse_manifest(b"{\"schemaVersion\":2").is_none());
    assert!(parse_manifest(b"{\"schemaVersion\":1,\"manifests\":[]}").is_none());
    assert!(parse_manifest(b"{\"schemaVersion\":\"2\",\"manifests\":[]}").is_none());
    assert!(parse_manifest(b"{\"schemaVersion\":2,\"layers\":[]}").is_none());
    assert!(parse_manifest(b"{\"schemaVersion\":2,\"manifests\":[]} trailing").is_none());
    // a layer descriptor without a digest
    assert!(
        parse_manifest(
            b"{\"schemaVersion\":2,\"config\":{\"digest\":\"x\"},\"layers\":[{\"size\":3}]}"
        )
        .is_none()
    );
}

#[test]
fn empty_lists_are_recognized() {
    let body = format!(
        "{{\"schemaVersion\":2,\"config\":{{\"digest\":\"sha256:{}\"}},\"layers\":[]}}",
        "a".repeat(64)
    );
    let m = parse_manifest(body.as_bytes()).unwrap();
    assert_eq!(m.refs.len(), 1);
    let empty_index = "{\"schemaVersion\":2,\"manifests\":[]}";
    let m = parse_manifest(empty_index.as_bytes()).unwrap();
    assert!(m.is_index);
    assert_eq!(m.refs.len(), 0);
}

#[test]
fn rejects_non_utf8_bodies() {
    // a raw 0xFF byte inside an ignored string field
    let mut body = b"{\"schemaVersion\":2,\"annotations\":{\"a\":\"".to_vec();
    body.push(0xFF);
    body.extend_from_slice(b"\"},\"manifests\":[]}");
    assert!(parse_manifest(&body).is_none());
    // an overlong two-byte encoding of '/'
    let mut body2 = b"{\"schemaVersion\":2,\"annotations\":{\"a\":\"".to_vec();
    body2.extend_from_slice(&[0xC0, 0xAF]);
    body2.extend_from_slice(b"\"},\"manifests\":[]}");
    assert!(parse_manifest(&body2).is_none());
    // a truncated three-byte sequence at the end of a string
    let mut body3 = b"{\"schemaVersion\":2,\"annotations\":{\"a\":\"".to_vec();
    body3.push(0xE2);
    body3.extend_from_slice(b"\"},\"manifests\":[]}");
    assert!(parse_manifest(&body3).is_none());
}

#[test]
fn accepts_multibyte_utf8_in_strings() {
    let body = format!(
        "{{\"schemaVersion\":2,\"annotations\":{{\"note\":\"caf\u{e9} \u{2603} \u{1F40B}\"}},\"manifests\":[]}}"
    );
    let m = parse_manifest(body.as_bytes()).unwrap();
    assert!(m.is_index);
}

#[test]
fn unicode_escapes_are_decoded() {
    // basic escapes, a BMP character and a surrogate pair
    let body =
        "{\"schemaVersion\":2,\"annotations\":{\"a\":\"\\u0041 \\u2603 \\uD83D\\uDC0B\"},\"manifests\":[]}";
    assert!(parse_manifest(body.as_bytes()).is_some());
    // the decoded bytes feed the logic: a key spelled through an escape
    let esc = "{\"schemaVersion\":2,\"\\u006danifests\":[]}";
    let m = parse_manifest(esc.as_bytes()).unwrap();
    assert!(m.is_index);
    assert_eq!(m.refs.len(), 0);
}

#[test]
fn bad_unicode_escapes_are_rejected() {
    // a lone high surrogate
    let bad = "{\"schemaVersion\":2,\"annotations\":{\"a\":\"\\uD83D\"},\"manifests\":[]}";
    assert!(parse_manifest(bad.as_bytes()).is_none());
    // a truncated escape
    let bad2 = "{\"schemaVersion\":2,\"annotations\":{\"a\":\"\\u00\"},\"manifests\":[]}";
    assert!(parse_manifest(bad2.as_bytes()).is_none());
    // non-hex digits
    let bad3 = "{\"schemaVersion\":2,\"annotations\":{\"a\":\"\\uZZZZ\"},\"manifests\":[]}";
    assert!(parse_manifest(bad3.as_bytes()).is_none());
}

use registry_core::digest::{digest_eq, format_digest, parse_digest, Algorithm, ContentDigest};
use registry_core::errors::ErrorKind;
use registry_core::hashing::sha256_digest;

const HELLO_HEX: &str = "2cf24dba5fb0a30e26e83b2ac5b9e29e1b161e5c1fa7425e73043362938b9824";

fn hello_digest_str() -> String {
    format!("sha256:{}", HELLO_HEX)
}

#[test]
fn parse_valid_sha256() {
    let s = hello_digest_str();
    let d = parse_digest(s.as_bytes()).unwrap();
    assert_eq!(d.alg, Algorithm::Sha256);
    assert_eq!(d.hex, HELLO_HEX.as_bytes().to_vec());
}

#[test]
fn parse_format_round_trip() {
    let s = hello_digest_str();
    let d = parse_digest(s.as_bytes()).unwrap();
    let f = format_digest(&d);
    assert_eq!(f, s.as_bytes().to_vec());
    let d2 = parse_digest(&f).unwrap();
    assert_eq!(d2, d);
}

#[test]
fn parse_valid_sha512() {
    let s = format!("sha512:{}", "ab".repeat(64));
    let d = parse_digest(s.as_bytes()).unwrap();
    assert_eq!(d.alg, Algorithm::Sha512);
    let f = format_digest(&d);
    assert_eq!(f, s.as_bytes().to_vec());
}

#[test]
fn parse_rejects_missing_colon() {
    let s = format!("sha256{}", HELLO_HEX);
    assert_eq!(parse_digest(s.as_bytes()), Err(ErrorKind::DigestInvalid));
}

#[test]
fn parse_rejects_unknown_algorithm() {
    let s = format!("sha384:{}", "ab".repeat(32));
    assert_eq!(parse_digest(s.as_bytes()), Err(ErrorKind::DigestInvalid));
}

#[test]
fn parse_rejects_wrong_length() {
    let s = format!("sha256:{}", "ab".repeat(16));
    assert_eq!(parse_digest(s.as_bytes()), Err(ErrorKind::DigestInvalid));
    let s = format!("sha256:{}x", HELLO_HEX);
    assert_eq!(parse_digest(s.as_bytes()), Err(ErrorKind::DigestInvalid));
}

#[test]
fn parse_rejects_uppercase_hex() {
    let s = format!("sha256:{}", HELLO_HEX.to_uppercase());
    assert_eq!(parse_digest(s.as_bytes()), Err(ErrorKind::DigestInvalid));
}

#[test]
fn parse_rejects_non_hex() {
    let s = format!("sha256:{}", "zz".repeat(32));
    assert_eq!(parse_digest(s.as_bytes()), Err(ErrorKind::DigestInvalid));
}

#[test]
fn sha256_digest_of_hello() {
    let d = sha256_digest(b"hello");
    assert_eq!(d.alg, Algorithm::Sha256);
    assert_eq!(d.hex, HELLO_HEX.as_bytes().to_vec());
}

#[test]
fn sha256_digest_of_empty() {
    let d = sha256_digest(b"");
    assert_eq!(
        d.hex,
        b"e3b0c44298fc1c149afbf4c8996fb92427ae41e4649b934ca495991b7852b855".to_vec()
    );
}

#[test]
fn digest_eq_compares_canonically() {
    let a = sha256_digest(b"hello");
    let b = parse_digest(hello_digest_str().as_bytes()).unwrap();
    assert!(digest_eq(&a, &b));
    let c = sha256_digest(b"other");
    assert!(!digest_eq(&a, &c));
}

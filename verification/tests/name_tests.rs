use registry_core::errors::{http_status, wire_code, ErrorKind};
use registry_core::name::{check_repo_name, check_tag, join_levels};

#[test]
fn repo_names_accepted() {
    assert!(check_repo_name(b"x"));
    assert!(check_repo_name(b"library/ubuntu"));
    assert!(check_repo_name(b"a/b/c"));
    assert!(check_repo_name(b"my-org/my.repo/name_1"));
    assert!(check_repo_name(b"a0/9z"));
}

#[test]
fn repo_names_rejected() {
    assert!(!check_repo_name(b""));
    assert!(!check_repo_name(b"/leading"));
    assert!(!check_repo_name(b"trailing/"));
    assert!(!check_repo_name(b"a//b"));
    assert!(!check_repo_name(b"Upper/case"));
    assert!(!check_repo_name(b"a/./b"));
    assert!(!check_repo_name(b"a/../b"));
    assert!(!check_repo_name(b"-start"));
    assert!(!check_repo_name(b"end-"));
    assert!(!check_repo_name(b"dou__ble")); // doubled separator
    assert!(!check_repo_name(b"sp ace"));
    assert!(!check_repo_name("caf\u{e9}".as_bytes()));
    let long = vec![b'a'; 256];
    assert!(!check_repo_name(&long));
    let max = vec![b'a'; 255];
    assert!(check_repo_name(&max));
}

#[test]
fn tags_accepted_and_rejected() {
    assert!(check_tag(b"latest"));
    assert!(check_tag(b"v1.2.3"));
    assert!(check_tag(b"_internal"));
    assert!(check_tag(b"A-2"));
    assert!(!check_tag(b""));
    assert!(!check_tag(b".hidden"));
    assert!(!check_tag(b"-dash"));
    assert!(!check_tag(b"has space"));
    let long = vec![b'a'; 129];
    assert!(!check_tag(&long));
    let max = vec![b'a'; 128];
    assert!(check_tag(&max));
}

#[test]
fn join_levels_builds_slash_separated_names() {
    let one = vec![b"repo".to_vec()];
    assert_eq!(join_levels(&one), b"repo".to_vec());
    let two = vec![b"org".to_vec(), b"repo".to_vec()];
    assert_eq!(join_levels(&two), b"org/repo".to_vec());
    let three = vec![b"a".to_vec(), b"b".to_vec(), b"c".to_vec()];
    assert_eq!(join_levels(&three), b"a/b/c".to_vec());
}

#[test]
fn wire_codes_match_protocol() {
    assert_eq!(wire_code(ErrorKind::BlobUnknown), "BLOB_UNKNOWN");
    assert_eq!(wire_code(ErrorKind::DigestInvalid), "DIGEST_INVALID");
    assert_eq!(wire_code(ErrorKind::ManifestInvalid), "MANIFEST_INVALID");
    assert_eq!(wire_code(ErrorKind::ManifestUnknown), "MANIFEST_UNKNOWN");
    assert_eq!(wire_code(ErrorKind::NameInvalid), "NAME_INVALID");
    assert_eq!(wire_code(ErrorKind::NameUnknown), "NAME_UNKNOWN");
    assert_eq!(wire_code(ErrorKind::SizeInvalid), "SIZE_INVALID");
    assert_eq!(wire_code(ErrorKind::Unsupported), "UNSUPPORTED");
    assert_eq!(wire_code(ErrorKind::Unauthorized), "UNAUTHORIZED");
    assert_eq!(wire_code(ErrorKind::Denied), "DENIED");
    assert_eq!(wire_code(ErrorKind::UploadConflict), "UPLOAD_CONFLICT");
    assert_eq!(wire_code(ErrorKind::UploadUnknown), "BLOB_UPLOAD_UNKNOWN");
}

#[test]
fn http_statuses_match_protocol() {
    assert_eq!(http_status(ErrorKind::ManifestUnknown), 404);
    assert_eq!(http_status(ErrorKind::BlobUnknown), 404);
    assert_eq!(http_status(ErrorKind::DigestInvalid), 400);
    assert_eq!(http_status(ErrorKind::ManifestInvalid), 400);
    assert_eq!(http_status(ErrorKind::UploadConflict), 416);
    assert_eq!(http_status(ErrorKind::Unsupported), 405);
    assert_eq!(http_status(ErrorKind::Internal), 500);
}

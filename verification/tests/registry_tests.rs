use registry_core::digest::{format_digest, parse_digest, ContentDigest};
use registry_core::errors::ErrorKind;
use registry_core::hashing::sha256_digest;
use registry_core::registry::Registry;

const HELLO_HEX: &str = "2cf24dba5fb0a30e26e83b2ac5b9e29e1b161e5c1fa7425e73043362938b9824";

fn hello_digest() -> ContentDigest {
    parse_digest(format!("sha256:{}", HELLO_HEX).as_bytes()).unwrap()
}

/// Pushes one blob through the full upload protocol and returns its digest.
fn push_blob(reg: &mut Registry, repo: &[u8], content: &[u8]) -> ContentDigest {
    let start = reg.begin_upload(repo, 0).unwrap();
    assert_eq!(start.offset, 0);
    let off = reg.patch_upload(&start.uuid, content, Some(0), 0).unwrap();
    assert_eq!(off, content.len());
    let claimed = sha256_digest(content);
    reg.complete_upload(&start.uuid, &claimed, None).unwrap()
}

#[test]
fn monolithic_push_and_pull() {
    let mut reg = Registry::new();
    let start = reg.begin_upload(b"x", 0).unwrap();
    assert_eq!(start.offset, 0);
    let off = reg.patch_upload(&start.uuid, b"hello", None, 0).unwrap();
    assert_eq!(off, 5);
    let claimed = hello_digest();
    let committed = reg.complete_upload(&start.uuid, &claimed, None).unwrap();
    assert_eq!(committed.hex, HELLO_HEX.as_bytes().to_vec());
    let bytes = reg.pull_blob(b"x", &claimed).unwrap();
    assert_eq!(bytes, &b"hello".to_vec());
}

#[test]
fn digest_mismatch_aborts_session_and_commits_nothing() {
    let mut reg = Registry::new();
    let start = reg.begin_upload(b"x", 0).unwrap();
    reg.patch_upload(&start.uuid, b"hello", None, 0).unwrap();
    let wrong = parse_digest(format!("sha256:{}", "0".repeat(64)).as_bytes()).unwrap();
    let r = reg.complete_upload(&start.uuid, &wrong, None);
    assert_eq!(r, Err(ErrorKind::DigestInvalid));
    // the session id is no longer valid
    assert_eq!(reg.upload_status(&start.uuid), Err(ErrorKind::UploadUnknown));
    // no blob is visible under either digest
    assert_eq!(reg.pull_blob(b"x", &wrong), Err(ErrorKind::BlobUnknown));
    assert_eq!(reg.pull_blob(b"x", &hello_digest()), Err(ErrorKind::BlobUnknown));
}

#[test]
fn out_of_order_patch_leaves_session_unchanged() {
    let mut reg = Registry::new();
    let start = reg.begin_upload(b"x", 0).unwrap();
    reg.patch_upload(&start.uuid, b"hello", Some(0), 0).unwrap();
    let r = reg.patch_upload(&start.uuid, b"world", Some(0), 0);
    assert_eq!(r, Err(ErrorKind::UploadConflict));
    let (off, repo) = reg.upload_status(&start.uuid).unwrap();
    assert_eq!(off, 5);
    assert_eq!(repo, b"x".to_vec());
    // resuming at the right offset still works
    let off = reg.patch_upload(&start.uuid, b" world", Some(5), 0).unwrap();
    assert_eq!(off, 11);
}

#[test]
fn finalize_with_trailing_bytes() {
    let mut reg = Registry::new();
    let start = reg.begin_upload(b"x", 0).unwrap();
    reg.patch_upload(&start.uuid, b"hel", None, 0).unwrap();
    let claimed = hello_digest();
    let committed = reg.complete_upload(&start.uuid, &claimed, Some(b"lo")).unwrap();
    assert_eq!(committed.hex, HELLO_HEX.as_bytes().to_vec());
    let bytes = reg.pull_blob(b"x", &committed).unwrap();
    assert_eq!(bytes, &b"hello".to_vec());
}

#[test]
fn concurrent_uploads_get_distinct_ids() {
    let mut reg = Registry::new();
    let a = reg.begin_upload(b"x", 0).unwrap();
    let b = reg.begin_upload(b"x", 0).unwrap();
    let c = reg.begin_upload(b"y", 0).unwrap();
    assert_ne!(a.uuid, b.uuid);
    assert_ne!(a.uuid, c.uuid);
    assert_ne!(b.uuid, c.uuid);
    assert_eq!(a.uuid.len(), 36);
}

#[test]
fn sessions_in_same_repo_are_independent() {
    let mut reg = Registry::new();
    let a = reg.begin_upload(b"x", 0).unwrap();
    let b = reg.begin_upload(b"x", 0).unwrap();
    reg.patch_upload(&a.uuid, b"aaa", None, 0).unwrap();
    reg.patch_upload(&b.uuid, b"bbbbb", None, 0).unwrap();
    assert_eq!(reg.upload_status(&a.uuid).unwrap().0, 3);
    assert_eq!(reg.upload_status(&b.uuid).unwrap().0, 5);
}

#[test]
fn abort_frees_the_session_idempotently() {
    let mut reg = Registry::new();
    let a = reg.begin_upload(b"x", 0).unwrap();
    reg.patch_upload(&a.uuid, b"abc", None, 0).unwrap();
    reg.abort_upload(&a.uuid);
    assert_eq!(reg.upload_status(&a.uuid), Err(ErrorKind::UploadUnknown));
    reg.abort_upload(&a.uuid);
    assert_eq!(reg.upload_status(&a.uuid), Err(ErrorKind::UploadUnknown));
}

#[test]
fn begin_upload_rejects_invalid_name() {
    let mut reg = Registry::new();
    let r = reg.begin_upload(b"Bad/Name", 0);
    assert!(matches!(r, Err(ErrorKind::NameInvalid)));
}

#[test]
fn patch_unknown_session_is_rejected() {
    let mut reg = Registry::new();
    let r = reg.patch_upload(b"no-such-session", b"x", None, 0);
    assert_eq!(r, Err(ErrorKind::UploadUnknown));
}

#[test]
fn committed_blob_idempotent_recommit() {
    let mut reg = Registry::new();
    let d1 = push_blob(&mut reg, b"x", b"hello");
    let d2 = push_blob(&mut reg, b"x", b"hello");
    assert_eq!(format_digest(&d1), format_digest(&d2));
    let bytes = reg.pull_blob(b"x", &d1).unwrap();
    assert_eq!(bytes, &b"hello".to_vec());
}

#[test]
fn pulled_blob_hashes_to_its_digest() {
    let mut reg = Registry::new();
    let content = b"layer-bytes-0123456789".to_vec();
    let d = push_blob(&mut reg, b"a/b", &content);
    let bytes = reg.pull_blob(b"a/b", &d).unwrap();
    let again = sha256_digest(bytes);
    assert_eq!(again.hex, d.hex);
}

#[test]
fn cross_depth_repositories_are_distinct() {
    let mut reg = Registry::new();
    let content = b"blob-x".to_vec();
    let d = push_blob(&mut reg, b"a/b/c", &content);
    // pulling through the 3-level name returns the bytes
    assert_eq!(reg.pull_blob(b"a/b/c", &d).unwrap(), &content);
    // pulling through a prefix name finds nothing
    assert_eq!(reg.pull_blob(b"a/b", &d), Err(ErrorKind::BlobUnknown));
    assert_eq!(reg.pull_blob(b"a", &d), Err(ErrorKind::BlobUnknown));
}

fn image_manifest(config: &ContentDigest, layers: &[&ContentDigest]) -> Vec<u8> {
    let cfg = String::from_utf8(format_digest(config)).unwrap();
    let layer_objs: Vec<String> = layers
        .iter()
        .map(|d| {
            format!(
                "{{\"mediaType\":\"application/vnd.oci.image.layer.v1.tar\",\"size\":5,\"digest\":\"{}\"}}",
                String::from_utf8(format_digest(d)).unwrap()
            )
        })
        .collect();
    format!(
        "{{\"schemaVersion\":2,\"mediaType\":\"application/vnd.oci.image.manifest.v1+json\",\"config\":{{\"mediaType\":\"application/vnd.oci.image.config.v1+json\",\"size\":2,\"digest\":\"{}\"}},\"layers\":[{}]}}",
        cfg,
        layer_objs.join(",")
    )
    .into_bytes()
}

const OCI_MANIFEST: &str = "application/vnd.oci.image.manifest.v1+json";

#[test]
fn manifest_push_then_pull_by_tag_and_digest() {
    let mut reg = Registry::new();
    let cfg = push_blob(&mut reg, b"x", b"{}");
    let layer = push_blob(&mut reg, b"x", b"hello");
    let body = image_manifest(&cfg, &[&layer]);
    let dig = reg.put_manifest(b"x", b"v1", &body, OCI_MANIFEST.as_bytes()).unwrap();
    // by tag
    let (bytes, ctype, d) = reg.get_manifest(b"x", b"v1").unwrap();
    assert_eq!(bytes, body);
    assert_eq!(ctype, OCI_MANIFEST.as_bytes().to_vec());
    assert_eq!(d.hex, dig.hex);
    // by digest
    let key = format_digest(&dig);
    let (bytes2, _, d2) = reg.get_manifest(b"x", &key).unwrap();
    assert_eq!(bytes2, body);
    assert_eq!(d2.hex, dig.hex);
    // the manifest digest is the digest of its bytes
    assert_eq!(sha256_digest(&body).hex, dig.hex);
}

#[test]
fn manifest_with_missing_layer_is_rejected_and_nothing_stored() {
    let mut reg = Registry::new();
    let cfg = push_blob(&mut reg, b"x", b"{}");
    let missing = hello_digest();
    let body = image_manifest(&cfg, &[&missing]);
    let r = reg.put_manifest(b"x", b"v1", &body, OCI_MANIFEST.as_bytes());
    assert_eq!(r, Err(ErrorKind::ManifestInvalid));
    assert_eq!(reg.get_manifest(b"x", b"v1"), Err(ErrorKind::ManifestUnknown));
    let key = format_digest(&sha256_digest(&body));
    assert_eq!(reg.get_manifest(b"x", &key), Err(ErrorKind::ManifestUnknown));
}

#[test]
fn tag_overwrite_resolves_to_the_new_manifest() {
    let mut reg = Registry::new();
    let cfg = push_blob(&mut reg, b"x", b"{}");
    let l1 = push_blob(&mut reg, b"x", b"hello");
    let l2 = push_blob(&mut reg, b"x", b"world");
    let m1 = image_manifest(&cfg, &[&l1]);
    let m2 = image_manifest(&cfg, &[&l2]);
    let d1 = reg.put_manifest(b"x", b"latest", &m1, OCI_MANIFEST.as_bytes()).unwrap();
    let (b1, _, _) = reg.get_manifest(b"x", b"latest").unwrap();
    assert_eq!(b1, m1);
    let d2 = reg.put_manifest(b"x", b"latest", &m2, OCI_MANIFEST.as_bytes()).unwrap();
    let (b2, _, got) = reg.get_manifest(b"x", b"latest").unwrap();
    assert_eq!(b2, m2);
    assert_eq!(got.hex, d2.hex);
    // the earlier manifest stays reachable by digest
    let (old_bytes, _, _) = reg.get_manifest(b"x", &format_digest(&d1)).unwrap();
    assert_eq!(old_bytes, m1);
}

#[test]
fn manifest_by_digest_reference_must_match() {
    let mut reg = Registry::new();
    let cfg = push_blob(&mut reg, b"x", b"{}");
    let layer = push_blob(&mut reg, b"x", b"hello");
    let body = image_manifest(&cfg, &[&layer]);
    let right = format_digest(&sha256_digest(&body));
    let wrong = format!("sha256:{}", "0".repeat(64));
    let r = reg.put_manifest(b"x", wrong.as_bytes(), &body, OCI_MANIFEST.as_bytes());
    assert_eq!(r, Err(ErrorKind::ManifestInvalid));
    let d = reg.put_manifest(b"x", &right, &body, OCI_MANIFEST.as_bytes()).unwrap();
    assert_eq!(format_digest(&d), right);
}

#[test]
fn manifest_index_references_child_manifests() {
    let mut reg = Registry::new();
    let cfg = push_blob(&mut reg, b"x", b"{}");
    let layer = push_blob(&mut reg, b"x", b"hello");
    let child = image_manifest(&cfg, &[&layer]);
    let child_dig = reg
        .put_manifest(b"x", format_digest(&sha256_digest(&child)).as_slice(), &child, OCI_MANIFEST.as_bytes())
        .unwrap();
    let index = format!(
        "{{\"schemaVersion\":2,\"mediaType\":\"application/vnd.oci.image.index.v1+json\",\"manifests\":[{{\"mediaType\":\"{}\",\"size\":1,\"digest\":\"{}\"}}]}}",
        OCI_MANIFEST,
        String::from_utf8(format_digest(&child_dig)).unwrap()
    );
    let idx_dig = reg
        .put_manifest(b"x", b"multi", index.as_bytes(), b"application/vnd.oci.image.index.v1+json")
        .unwrap();
    let (bytes, _, d) = reg.get_manifest(b"x", b"multi").unwrap();
    assert_eq!(bytes, index.as_bytes().to_vec());
    assert_eq!(d.hex, idx_dig.hex);
}

#[test]
fn index_with_missing_child_is_rejected() {
    let mut reg = Registry::new();
    let index = format!(
        "{{\"schemaVersion\":2,\"manifests\":[{{\"size\":1,\"digest\":\"sha256:{}\"}}]}}",
        "1".repeat(64)
    );
    let r = reg.put_manifest(b"x", b"multi", index.as_bytes(), b"application/json");
    assert_eq!(r, Err(ErrorKind::ManifestInvalid));
}

#[test]
fn manifest_invalid_bodies_are_rejected() {
    let mut reg = Registry::new();
    // not JSON
    let r = reg.put_manifest(b"x", b"v1", b"not json", b"application/json");
    assert_eq!(r, Err(ErrorKind::ManifestInvalid));
    // wrong schema version
    let r = reg.put_manifest(
        b"x",
        b"v1",
        b"{\"schemaVersion\":1,\"config\":{\"digest\":\"x\"},\"layers\":[]}",
        b"application/json",
    );
    assert_eq!(r, Err(ErrorKind::ManifestInvalid));
    // no config or manifests
    let r = reg.put_manifest(b"x", b"v1", b"{\"schemaVersion\":2}", b"application/json");
    assert_eq!(r, Err(ErrorKind::ManifestInvalid));
}

#[test]
fn put_manifest_rejects_invalid_repo_name() {
    let mut reg = Registry::new();
    let r = reg.put_manifest(b"Bad", b"v1", b"{}", b"application/json");
    assert_eq!(r, Err(ErrorKind::NameInvalid));
}

#[test]
fn delete_manifest_is_unsupported() {
    let reg = Registry::new();
    assert_eq!(reg.delete_manifest(b"x", b"v1"), Err(ErrorKind::Unsupported));
}

#[test]
fn blob_exists_tracks_commits() {
    let mut reg = Registry::new();
    let d = sha256_digest(b"hello");
    assert!(!reg.blob_exists(b"x", &d));
    push_blob(&mut reg, b"x", b"hello");
    assert!(reg.blob_exists(b"x", &d));
    assert!(!reg.blob_exists(b"y", &d));
}

#[test]
fn idle_sessions_are_swept_and_active_ones_kept() {
    let mut reg = Registry::new();
    let stale = reg.begin_upload(b"x", 100).unwrap();
    let live = reg.begin_upload(b"x", 100).unwrap();
    reg.patch_upload(&live.uuid, b"abc", None, 4000).unwrap();
    // ttl 3600: the stale session (last activity 100) is idle at 4000
    reg.sweep_idle(4000, 3600);
    assert_eq!(reg.upload_status(&stale.uuid), Err(ErrorKind::UploadUnknown));
    assert_eq!(reg.upload_status(&live.uuid).unwrap().0, 3);
    // sweeping again at the same instant removes nothing further
    reg.sweep_idle(4000, 3600);
    assert_eq!(reg.upload_status(&live.uuid).unwrap().0, 3);
}

#[test]
fn pull_blob_by_digest_string() {
    let mut reg = Registry::new();
    let d = push_blob(&mut reg, b"x", b"hello");
    let key = format_digest(&d);
    assert_eq!(reg.pull_blob_str(b"x", &key).unwrap(), &b"hello".to_vec());
    assert_eq!(
        reg.pull_blob_str(b"x", b"not-a-digest"),
        Err(ErrorKind::DigestInvalid)
    );
    let absent = format!("sha256:{}", "9".repeat(64));
    assert_eq!(
        reg.pull_blob_str(b"x", absent.as_bytes()),
        Err(ErrorKind::BlobUnknown)
    );
}

#[test]
fn non_utf8_manifest_is_rejected() {
    let mut reg = Registry::new();
    let mut body = b"{\"schemaVersion\":2,\"annotations\":{\"a\":\"".to_vec();
    body.push(0xFF);
    body.extend_from_slice(b"\"},\"manifests\":[]}");
    let r = reg.put_manifest(b"x", b"v1", &body, b"application/json");
    assert_eq!(r, Err(ErrorKind::ManifestInvalid));
    assert_eq!(reg.get_manifest(b"x", b"v1"), Err(ErrorKind::ManifestUnknown));
}

#[test]
fn pushing_one_tag_leaves_other_tags_alone() {
    let mut reg = Registry::new();
    let cfg = push_blob(&mut reg, b"x", b"{}");
    let l1 = push_blob(&mut reg, b"x", b"hello");
    let l2 = push_blob(&mut reg, b"x", b"world");
    let m1 = image_manifest(&cfg, &[&l1]);
    let m2 = image_manifest(&cfg, &[&l2]);
    let d1 = reg.put_manifest(b"x", b"stable", &m1, OCI_MANIFEST.as_bytes()).unwrap();
    reg.put_manifest(b"x", b"latest", &m2, OCI_MANIFEST.as_bytes()).unwrap();
    // the earlier tag still resolves to its own manifest
    let (bytes, _, d) = reg.get_manifest(b"x", b"stable").unwrap();
    assert_eq!(bytes, m1);
    assert_eq!(d.hex, d1.hex);
}

#[test]
fn finalize_leaves_other_sessions_alone() {
    let mut reg = Registry::new();
    let a = reg.begin_upload(b"x", 0).unwrap();
    let b = reg.begin_upload(b"x", 0).unwrap();
    reg.patch_upload(&a.uuid, b"hello", None, 0).unwrap();
    reg.patch_upload(&b.uuid, b"wor", None, 0).unwrap();
    let claimed = hello_digest();
    reg.complete_upload(&a.uuid, &claimed, None).unwrap();
    // the concurrent session keeps its offset and can still finish
    assert_eq!(reg.upload_status(&b.uuid).unwrap().0, 3);
    let d = sha256_digest(b"world");
    let committed = reg.complete_upload(&b.uuid, &d, Some(b"ld")).unwrap();
    assert_eq!(reg.pull_blob(b"x", &committed).unwrap(), &b"world".to_vec());
}

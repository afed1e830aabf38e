use registry_core::errors::ErrorKind;
use registry_core::wire::{blob_location, error_envelope, manifest_location, upload_location};

#[test]
fn error_envelope_shape() {
    let body = error_envelope(ErrorKind::ManifestInvalid);
    assert_eq!(
        body,
        "{\"errors\":[{\"code\":\"MANIFEST_INVALID\",\"message\":\"manifest invalid\"}]}"
    );
}

#[test]
fn error_envelope_digest_invalid() {
    let body = error_envelope(ErrorKind::DigestInvalid);
    assert_eq!(
        body,
        "{\"errors\":[{\"code\":\"DIGEST_INVALID\",\"message\":\"provided digest did not match uploaded content\"}]}"
    );
}

#[test]
fn location_paths() {
    assert_eq!(
        upload_location(b"a/b/c", b"some-uuid"),
        b"/v2/a/b/c/blobs/uploads/some-uuid".to_vec()
    );
    assert_eq!(
        blob_location(b"x", b"sha256:abcd"),
        b"/v2/x/blobs/sha256:abcd".to_vec()
    );
    assert_eq!(
        manifest_location(b"x", b"latest"),
        b"/v2/x/manifests/latest".to_vec()
    );
}

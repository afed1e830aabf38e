use vstd::prelude::*;
use vstd::string::StringExecFns;
use crate::bytes::push_bytes;
use crate::errors::{spec_wire_code, wire_code, ErrorKind};

verus! {

/// The fixed message the registry attaches to each error code.
pub open spec fn spec_error_message(kind: ErrorKind) -> Seq<char> {
    match kind {
        ErrorKind::NameInvalid => "invalid repository name"@,
        ErrorKind::NameUnknown => "repository name not known to registry"@,
        ErrorKind::BlobUnknown => "blob unknown to registry"@,
        ErrorKind::DigestInvalid => "provided digest did not match uploaded content"@,
        ErrorKind::ManifestInvalid => "manifest invalid"@,
        ErrorKind::ManifestUnknown => "manifest unknown"@,
        ErrorKind::UploadUnknown => "blob upload unknown to registry"@,
        ErrorKind::UploadConflict => "blob upload invalid"@,
        ErrorKind::SizeInvalid => "provided length did not match content length"@,
        ErrorKind::Unauthorized => "authentication required"@,
        ErrorKind::Denied => "requested access to the resource is denied"@,
        ErrorKind::Unsupported => "the operation is unsupported"@,
        ErrorKind::Internal => "internal error"@,
    }
}

/// The message the registry attaches to each error code.
pub fn error_message(kind: ErrorKind) -> (r: &'static str)
    ensures
        r@ == spec_error_message(kind),
{
    match kind {
        ErrorKind::NameInvalid => "invalid repository name",
        ErrorKind::NameUnknown => "repository name not known to registry",
        ErrorKind::BlobUnknown => "blob unknown to registry",
        ErrorKind::DigestInvalid => "provided digest did not match uploaded content",
        ErrorKind::ManifestInvalid => "manifest invalid",
        ErrorKind::ManifestUnknown => "manifest unknown",
        ErrorKind::UploadUnknown => "blob upload unknown to registry",
        ErrorKind::UploadConflict => "blob upload invalid",
        ErrorKind::SizeInvalid => "provided length did not match content length",
        ErrorKind::Unauthorized => "authentication required",
        ErrorKind::Denied => "requested access to the resource is denied",
        ErrorKind::Unsupported => "the operation is unsupported",
        ErrorKind::Internal => "internal error",
    }
}

/// The error response body every 4xx and 5xx answer carries:
/// `{"errors":[{"code":"<CODE>","message":"<msg>"}]}`.
pub open spec fn spec_error_envelope(kind: ErrorKind) -> Seq<char> {
    "{\"errors\":[{\"code\":\""@ + spec_wire_code(kind) + "\",\"message\":\""@
        + spec_error_message(kind) + "\"}]}"@
}

/// Builds the error response body for an error kind.
pub fn error_envelope(kind: ErrorKind) -> (r: String)
    ensures
        r@ == spec_error_envelope(kind),
{
    let mut out = String::new();
    out.append("{\"errors\":[{\"code\":\"");
    out.append(wire_code(kind));
    out.append("\",\"message\":\"");
    out.append(error_message(kind));
    out.append("\"}]}");
    out
}

/// The bytes of `/v2/`.
pub open spec fn seg_v2() -> Seq<u8> {
    seq![47u8, 118u8, 50u8, 47u8]
}

/// The bytes of `/blobs/`.
pub open spec fn seg_blobs() -> Seq<u8> {
    seq![47u8, 98u8, 108u8, 111u8, 98u8, 115u8, 47u8]
}

/// The bytes of `/blobs/uploads/`.
pub open spec fn seg_uploads() -> Seq<u8> {
    seq![
        47u8,
        98u8,
        108u8,
        111u8,
        98u8,
        115u8,
        47u8,
        117u8,
        112u8,
        108u8,
        111u8,
        97u8,
        100u8,
        115u8,
        47u8,
    ]
}

/// The bytes of `/manifests/`.
pub open spec fn seg_manifests() -> Seq<u8> {
    seq![47u8, 109u8, 97u8, 110u8, 105u8, 102u8, 101u8, 115u8, 116u8, 115u8, 47u8]
}

/// The location path of an open upload session:
/// `/v2/<name>/blobs/uploads/<uuid>`.
pub open spec fn spec_upload_location(repo: Seq<u8>, uuid: Seq<u8>) -> Seq<u8> {
    seg_v2() + repo + seg_uploads() + uuid
}

/// The location path of a committed blob: `/v2/<name>/blobs/<digest>`.
pub open spec fn spec_blob_location(repo: Seq<u8>, digest: Seq<u8>) -> Seq<u8> {
    seg_v2() + repo + seg_blobs() + digest
}

/// The location path of a manifest: `/v2/<name>/manifests/<reference>`.
pub open spec fn spec_manifest_location(repo: Seq<u8>, reference: Seq<u8>) -> Seq<u8> {
    seg_v2() + repo + seg_manifests() + reference
}

/// Builds the bytes of `/v2/`.
fn v2_bytes() -> (r: Vec<u8>)
    ensures
        r@ == seg_v2(),
{
    let mut v: Vec<u8> = Vec::new();
    v.push(47);
    v.push(118);
    v.push(50);
    v.push(47);
    proof {
        assert(v@ =~= seg_v2());
    }
    v
}

/// Builds the bytes of `/blobs/`.
fn blobs_bytes() -> (r: Vec<u8>)
    ensures
        r@ == seg_blobs(),
{
    let mut v: Vec<u8> = Vec::new();
    v.push(47);
    v.push(98);
    v.push(108);
    v.push(111);
    v.push(98);
    v.push(115);
    v.push(47);
    proof {
        assert(v@ =~= seg_blobs());
    }
    v
}

/// Builds the bytes of `/blobs/uploads/`.
fn uploads_bytes() -> (r: Vec<u8>)
    ensures
        r@ == seg_uploads(),
{
    let mut v: Vec<u8> = Vec::new();
    v.push(47);
    v.push(98);
    v.push(108);
    v.push(111);
    v.push(98);
    v.push(115);
    v.push(47);
    v.push(117);
    v.push(112);
    v.push(108);
    v.push(111);
    v.push(97);
    v.push(100);
    v.push(115);
    v.push(47);
    proof {
        assert(v@ =~= seg_uploads());
    }
    v
}

/// Builds the bytes of `/manifests/`.
fn manifests_bytes() -> (r: Vec<u8>)
    ensures
        r@ == seg_manifests(),
{
    let mut v: Vec<u8> = Vec::new();
    v.push(47);
    v.push(109);
    v.push(97);
    v.push(110);
    v.push(105);
    v.push(102);
    v.push(101);
    v.push(115);
    v.push(116);
    v.push(115);
    v.push(47);
    proof {
        assert(v@ =~= seg_manifests());
    }
    v
}

/// Builds the location path of an upload session.
pub fn upload_location(repo: &[u8], uuid: &[u8]) -> (r: Vec<u8>)
    ensures
        r@ == spec_upload_location(repo@, uuid@),
{
    let mut out = v2_bytes();
    push_bytes(&mut out, repo);
    let mid = uploads_bytes();
    push_bytes(&mut out, mid.as_slice());
    push_bytes(&mut out, uuid);
    proof {
        assert(out@ =~= spec_upload_location(repo@, uuid@));
    }
    out
}

/// Builds the location path of a committed blob.
pub fn blob_location(repo: &[u8], digest: &[u8]) -> (r: Vec<u8>)
    ensures
        r@ == spec_blob_location(repo@, digest@),
{
    let mut out = v2_bytes();
    push_bytes(&mut out, repo);
    let mid = blobs_bytes();
    push_bytes(&mut out, mid.as_slice());
    push_bytes(&mut out, digest);
    proof {
        assert(out@ =~= spec_blob_location(repo@, digest@));
    }
    out
}

/// Builds the location path of a manifest.
pub fn manifest_location(repo: &[u8], reference: &[u8]) -> (r: Vec<u8>)
    ensures
        r@ == spec_manifest_location(repo@, reference@),
{
    let mut out = v2_bytes();
    push_bytes(&mut out, repo);
    let mid = manifests_bytes();
    push_bytes(&mut out, mid.as_slice());
    push_bytes(&mut out, reference);
    proof {
        assert(out@ =~= spec_manifest_location(repo@, reference@));
    }
    out
}

} // verus!

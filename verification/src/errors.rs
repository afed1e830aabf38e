use vstd::prelude::*;

verus! {

/// The error taxonomy of the registry core.
///
/// Components report these kinds to the facade; the facade maps them to the
/// wire codes and HTTP status numbers of the distribution protocol.
#[derive(Clone, Copy, Debug, PartialEq, Eq, Structural)]
pub enum ErrorKind {
    /// A repository name failed normalization.
    NameInvalid,
    /// A repository is not known to the registry.
    NameUnknown,
    /// A referenced blob digest is missing.
    BlobUnknown,
    /// A claimed digest does not match the computed one, or a digest string
    /// failed to parse.
    DigestInvalid,
    /// A manifest body is not valid JSON of a recognized schema, or it
    /// references content that is absent.
    ManifestInvalid,
    /// A manifest or tag was not found.
    ManifestUnknown,
    /// An upload session id is not in the session table.
    UploadUnknown,
    /// An out-of-order chunk was rejected.
    UploadConflict,
    /// A declared size disagrees with the content.
    SizeInvalid,
    /// The caller presented no acceptable identity.
    Unauthorized,
    /// The caller is not allowed to perform the operation.
    Denied,
    /// The operation is not implemented.
    Unsupported,
    /// An unexpected internal failure.
    Internal,
}

/// The wire code of each error kind, as the protocol spells it.
pub open spec fn spec_wire_code(kind: ErrorKind) -> Seq<char> {
    match kind {
        ErrorKind::NameInvalid => "NAME_INVALID"@,
        ErrorKind::NameUnknown => "NAME_UNKNOWN"@,
        ErrorKind::BlobUnknown => "BLOB_UNKNOWN"@,
        ErrorKind::DigestInvalid => "DIGEST_INVALID"@,
        ErrorKind::ManifestInvalid => "MANIFEST_INVALID"@,
        ErrorKind::ManifestUnknown => "MANIFEST_UNKNOWN"@,
        ErrorKind::UploadUnknown => "BLOB_UPLOAD_UNKNOWN"@,
        ErrorKind::UploadConflict => "UPLOAD_CONFLICT"@,
        ErrorKind::SizeInvalid => "SIZE_INVALID"@,
        ErrorKind::Unauthorized => "UNAUTHORIZED"@,
        ErrorKind::Denied => "DENIED"@,
        ErrorKind::Unsupported => "UNSUPPORTED"@,
        ErrorKind::Internal => "INTERNAL_ERROR"@,
    }
}

/// The HTTP status that surfaces each error kind.
pub open spec fn spec_http_status(kind: ErrorKind) -> u16 {
    match kind {
        ErrorKind::NameInvalid => 400,
        ErrorKind::NameUnknown => 404,
        ErrorKind::BlobUnknown => 404,
        ErrorKind::DigestInvalid => 400,
        ErrorKind::ManifestInvalid => 400,
        ErrorKind::ManifestUnknown => 404,
        ErrorKind::UploadUnknown => 404,
        ErrorKind::UploadConflict => 416,
        ErrorKind::SizeInvalid => 400,
        ErrorKind::Unauthorized => 401,
        ErrorKind::Denied => 403,
        ErrorKind::Unsupported => 405,
        ErrorKind::Internal => 500,
    }
}

/// Maps an error kind to its protocol wire code.
pub fn wire_code(kind: ErrorKind) -> (r: &'static str)
    ensures
        r@ == spec_wire_code(kind),
{
    match kind {
        ErrorKind::NameInvalid => "NAME_INVALID",
        ErrorKind::NameUnknown => "NAME_UNKNOWN",
        ErrorKind::BlobUnknown => "BLOB_UNKNOWN",
        ErrorKind::DigestInvalid => "DIGEST_INVALID",
        ErrorKind::ManifestInvalid => "MANIFEST_INVALID",
        ErrorKind::ManifestUnknown => "MANIFEST_UNKNOWN",
        ErrorKind::UploadUnknown => "BLOB_UPLOAD_UNKNOWN",
        ErrorKind::UploadConflict => "UPLOAD_CONFLICT",
        ErrorKind::SizeInvalid => "SIZE_INVALID",
        ErrorKind::Unauthorized => "UNAUTHORIZED",
        ErrorKind::Denied => "DENIED",
        ErrorKind::Unsupported => "UNSUPPORTED",
        ErrorKind::Internal => "INTERNAL_ERROR",
    }
}

/// Maps an error kind to the HTTP status the transport should answer with.
pub fn http_status(kind: ErrorKind) -> (r: u16)
    ensures
        r == spec_http_status(kind),
{
    match kind {
        ErrorKind::NameInvalid => 400,
        ErrorKind::NameUnknown => 404,
        ErrorKind::BlobUnknown => 404,
        ErrorKind::DigestInvalid => 400,
        ErrorKind::ManifestInvalid => 400,
        ErrorKind::ManifestUnknown => 404,
        ErrorKind::UploadUnknown => 404,
        ErrorKind::UploadConflict => 416,
        ErrorKind::SizeInvalid => 400,
        ErrorKind::Unauthorized => 401,
        ErrorKind::Denied => 403,
        ErrorKind::Unsupported => 405,
        ErrorKind::Internal => 500,
    }
}

} // verus!

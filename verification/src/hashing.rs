use vstd::prelude::*;
use crate::digest::{is_hex_lower, valid_digest, Algorithm, ContentDigest};
use crypto::digest::Digest;

verus! {

#[verifier::external_type_specification]
#[verifier::external_body]
pub struct ExSha256(crypto::sha2::Sha256);

/// The bytes fed so far to a streaming SHA-256 hasher.
pub uninterp spec fn hasher_fed(h: crypto::sha2::Sha256) -> Seq<u8>;

/// A hasher that may still take input: one whose digest has not been read.
/// rust-crypto's engine panics if `input` runs after `result`, so every
/// update demands liveness and reading the digest forfeits it.
pub uninterp spec fn hasher_live(h: crypto::sha2::Sha256) -> bool;

/// The lowercase hex digest that SHA-256 assigns to a byte string.
pub uninterp spec fn sha256_hex(data: Seq<u8>) -> Seq<u8>;

/// Relies on crypto::sha2::Sha256::new: a fresh hasher that has seen no input.
#[verifier::external_body]
pub fn hasher_new() -> (h: crypto::sha2::Sha256)
    ensures
        hasher_fed(h) == Seq::<u8>::empty(),
        hasher_live(h),
{
    crypto::sha2::Sha256::new()
}

/// Relies on crypto::digest::Digest::input: appends the bytes to the hash
/// state, in order. Only a live hasher may take input: the engine asserts
/// that its digest has not been read.
#[verifier::external_body]
pub fn hasher_update(h: &mut crypto::sha2::Sha256, data: &[u8])
    requires
        hasher_live(*old(h)),
    ensures
        hasher_fed(*final (h)) == hasher_fed(*old(h)) + data@,
        hasher_live(*final (h)),
{
    h.input(data);
}

/// Relies on crypto::digest::Digest::result_str: the lowercase hex form of
/// the 32-byte SHA-256 digest of everything fed so far, 64 hex digits.
/// Reading the digest finishes the engine: nothing is promised of the
/// hasher afterwards, and in particular not that it is still live.
#[verifier::external_body]
pub fn hasher_finish(h: &mut crypto::sha2::Sha256) -> (r: Vec<u8>)
    requires
        hasher_live(*old(h)),
    ensures
        r@ == sha256_hex(hasher_fed(*old(h))),
        r@.len() == 64,
        forall|i: int| 0 <= i < r@.len() ==> is_hex_lower(#[trigger] r@[i]),
{
    h.result_str().into_bytes()
}

/// Computes the SHA-256 digest of a byte string in one pass.
pub fn sha256_digest(data: &[u8]) -> (d: ContentDigest)
    ensures
        d.alg == Algorithm::Sha256,
        d.hex@ == sha256_hex(data@),
        valid_digest(d),
{
    let mut h = hasher_new();
    hasher_update(&mut h, data);
    proof {
        assert(hasher_fed(h) =~= data@);
    }
    let hex = hasher_finish(&mut h);
    ContentDigest { alg: Algorithm::Sha256, hex }
}

} // verus!

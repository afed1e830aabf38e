use vstd::prelude::*;
use crate::errors::ErrorKind;

verus! {

/// Byte value of `:`, the separator of a canonical digest.
pub const COLON: u8 = 58;

/// A digest algorithm the store recognizes.
///
/// Writes always use SHA-256; reads accept any recognized algorithm.
#[derive(Clone, Copy, Debug, PartialEq, Eq, Structural)]
pub enum Algorithm {
    Sha256,
    Sha512,
}

/// A content digest: an algorithm and its lowercase hex value.
///
/// Canonical form `<alg>:<hex>`; equality is byte-exact on that form.
#[derive(Debug, PartialEq, Eq)]
pub struct ContentDigest {
    pub alg: Algorithm,
    pub hex: Vec<u8>,
}

/// The hex length each algorithm requires.
pub open spec fn spec_hex_len(alg: Algorithm) -> int {
    match alg {
        Algorithm::Sha256 => 64,
        Algorithm::Sha512 => 128,
    }
}

/// A lowercase hex digit byte.
pub open spec fn is_hex_lower(b: u8) -> bool {
    (48 <= b && b <= 57) || (97 <= b && b <= 102)
}

/// The name of an algorithm, as a byte string.
pub open spec fn spec_alg_name(alg: Algorithm) -> Seq<u8> {
    match alg {
        Algorithm::Sha256 => seq![115u8, 104u8, 97u8, 50u8, 53u8, 54u8],  // "sha256"
        Algorithm::Sha512 => seq![115u8, 104u8, 97u8, 53u8, 49u8, 50u8],  // "sha512"
    }
}

/// A well-formed digest: hex of the right length, all lowercase hex digits.
pub open spec fn valid_digest(d: ContentDigest) -> bool {
    &&& d.hex@.len() == spec_hex_len(d.alg)
    &&& forall|i: int| 0 <= i < d.hex@.len() ==> is_hex_lower(#[trigger] d.hex@[i])
}

/// The canonical form `<alg>:<hex>` of a digest.
pub open spec fn spec_canonical(alg: Algorithm, hex: Seq<u8>) -> Seq<u8> {
    spec_alg_name(alg) + seq![COLON] + hex
}

/// Whether a byte string is the canonical form of some well-formed digest.
pub open spec fn digest_parseable(s: Seq<u8>) -> bool {
    exists|d: ContentDigest| valid_digest(d) && s == spec_canonical(d.alg, #[trigger] d.hex@)
}

/// Parses a canonical digest string.
///
/// Returns the digest whose canonical form is exactly the input, and
/// `DigestInvalid` when the input has an unknown algorithm, a wrong hex
/// length, or a byte outside lowercase hex.
pub fn parse_digest(s: &[u8]) -> (r: Result<ContentDigest, ErrorKind>)
    ensures
        match r {
            Ok(d) => valid_digest(d) && s@ == spec_canonical(d.alg, d.hex@),
            Err(e) => e == ErrorKind::DigestInvalid && !digest_parseable(s@),
        },
{
    let n = s.len();
    if n != 71 && n != 135 {
        proof {
            lemma_parseable_shape(s@);
        }
        return Err(ErrorKind::DigestInvalid);
    }
    if !(s[0] == 115 && s[1] == 104 && s[2] == 97 && s[6] == COLON) {
        proof {
            lemma_parseable_shape(s@);
        }
        return Err(ErrorKind::DigestInvalid);
    }
    let alg: Algorithm;
    if s[3] == 50 && s[4] == 53 && s[5] == 54 && n == 71 {
        alg = Algorithm::Sha256;
    } else if s[3] == 53 && s[4] == 49 && s[5] == 50 && n == 135 {
        alg = Algorithm::Sha512;
    } else {
        proof {
            lemma_parseable_shape(s@);
        }
        return Err(ErrorKind::DigestInvalid);
    }
    let mut hex: Vec<u8> = Vec::new();
    let mut i: usize = 7;
    while i < n
        invariant
            n == s@.len(),
            7 <= i <= n,
            hex@ == s@.subrange(7, i as int),
            forall|j: int| 0 <= j < hex@.len() ==> is_hex_lower(#[trigger] hex@[j]),
        decreases n - i,
    {
        let b = s[i];
        if !((48 <= b && b <= 57) || (97 <= b && b <= 102)) {
            proof {
                lemma_parseable_shape(s@);
            }
            return Err(ErrorKind::DigestInvalid);
        }
        hex.push(b);
        i = i + 1;
    }
    let d = ContentDigest { alg, hex };
    proof {
        assert(s@ =~= spec_canonical(d.alg, d.hex@));
    }
    Ok(d)
}

/// Formats a digest in canonical form.
pub fn format_digest(d: &ContentDigest) -> (r: Vec<u8>)
    ensures
        r@ == spec_canonical(d.alg, d.hex@),
{
    let mut out: Vec<u8> = Vec::new();
    out.push(115);
    out.push(104);
    out.push(97);
    match d.alg {
        Algorithm::Sha256 => {
            out.push(50);
            out.push(53);
            out.push(54);
        },
        Algorithm::Sha512 => {
            out.push(53);
            out.push(49);
            out.push(50);
        },
    }
    out.push(COLON);
    let mut i: usize = 0;
    let n = d.hex.len();
    while i < n
        invariant
            n == d.hex@.len(),
            i <= n,
            out@ == spec_alg_name(d.alg) + seq![COLON] + d.hex@.take(i as int),
        decreases n - i,
    {
        out.push(d.hex[i]);
        i = i + 1;
    }
    proof {
        assert(d.hex@.take(n as int) =~= d.hex@);
        assert(out@ =~= spec_canonical(d.alg, d.hex@));
    }
    out
}

/// Compares two digests for canonical equality.
pub fn digest_eq(a: &ContentDigest, b: &ContentDigest) -> (r: bool)
    ensures
        r == (a.alg == b.alg && a.hex@ == b.hex@),
{
    let alg_same = match (a.alg, b.alg) {
        (Algorithm::Sha256, Algorithm::Sha256) => true,
        (Algorithm::Sha512, Algorithm::Sha512) => true,
        _ => false,
    };
    alg_same && crate::bytes::bytes_eq(a.hex.as_slice(), b.hex.as_slice())
}

/// No byte string is the canonical form of two different digests: the
/// canonical form pins down the algorithm and the hex.
pub proof fn lemma_canonical_injective(a: ContentDigest, b: ContentDigest)
    requires
        valid_digest(a),
        valid_digest(b),
        spec_canonical(a.alg, a.hex@) == spec_canonical(b.alg, b.hex@),
    ensures
        a.alg == b.alg,
        a.hex@ == b.hex@,
{
    let ca = spec_canonical(a.alg, a.hex@);
    let cb = spec_canonical(b.alg, b.hex@);
    if a.alg != b.alg {
        assert(ca[3] != cb[3]);
    }
    assert(a.hex@ =~= ca.subrange(7, ca.len() as int));
    assert(b.hex@ =~= cb.subrange(7, cb.len() as int));
}

/// Every well-formed digest's canonical form parses back: the round trip
/// `parse(format(d))` recovers `d` exactly.
pub proof fn lemma_parse_format_round_trip(d: ContentDigest)
    requires
        valid_digest(d),
    ensures
        digest_parseable(spec_canonical(d.alg, d.hex@)),
        forall|r: ContentDigest|
            valid_digest(r) && spec_canonical(r.alg, #[trigger] r.hex@) == spec_canonical(
                d.alg,
                d.hex@,
            ) ==> r.alg == d.alg && r.hex@ == d.hex@,
{
    assert(digest_parseable(spec_canonical(d.alg, d.hex@)));
    assert forall|r: ContentDigest|
        valid_digest(r) && spec_canonical(r.alg, #[trigger] r.hex@) == spec_canonical(
            d.alg,
            d.hex@,
        ) implies r.alg == d.alg && r.hex@ == d.hex@ by {
        lemma_canonical_injective(r, d);
    }
}

/// A string that fails the canonical shape is the canonical form of no digest.
proof fn lemma_parseable_shape(s: Seq<u8>)
    ensures
        digest_parseable(s) ==> {
            &&& (s.len() == 71 || s.len() == 135)
            &&& s[0] == 115 && s[1] == 104 && s[2] == 97 && s[6] == COLON
            &&& (s.len() == 71 ==> s[3] == 50 && s[4] == 53 && s[5] == 54)
            &&& (s.len() == 135 ==> s[3] == 53 && s[4] == 49 && s[5] == 50)
            &&& forall|j: int| 7 <= j < s.len() ==> is_hex_lower(#[trigger] s[j])
        },
{
    if digest_parseable(s) {
        let d = choose|d: ContentDigest|
            valid_digest(d) && s == spec_canonical(d.alg, #[trigger] d.hex@);
        assert(s == spec_canonical(d.alg, d.hex@));
        assert forall|j: int| 7 <= j < s.len() implies is_hex_lower(#[trigger] s[j]) by {
            assert(s[j] == d.hex@[j - 7]);
        }
    }
}

} // verus!

use vstd::prelude::*;

verus! {

/// Relies on uuid::Uuid::new_v4 and its hyphenated text form: a fresh random
/// version-4 UUID, printed as 36 ASCII bytes.
///
/// Nothing more is promised of the value: distinctness of session ids is
/// enforced by the session table, not assumed of the generator.
#[verifier::external_body]
pub fn fresh_uuid() -> (r: Vec<u8>)
    ensures
        r@.len() == 36,
{
    format!("{}", uuid::Uuid::new_v4()).into_bytes()
}

} // verus!

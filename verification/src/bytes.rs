use vstd::prelude::*;

verus! {

/// Compares two byte strings for equality of contents.
pub fn bytes_eq(a: &[u8], b: &[u8]) -> (r: bool)
    ensures
        r == (a@ == b@),
{
    if a.len() != b.len() {
        proof {
            assert(a@.len() != b@.len());
        }
        return false;
    }
    let n = a.len();
    let mut i: usize = 0;
    while i < n
        invariant
            n == a@.len(),
            n == b@.len(),
            i <= n,
            forall|j: int| 0 <= j < i ==> a@[j] == b@[j],
        decreases n - i,
    {
        if a[i] != b[i] {
            proof {
                assert(a@[i as int] != b@[i as int]);
            }
            return false;
        }
        i = i + 1;
    }
    proof {
        assert(a@ =~= b@);
    }
    true
}

/// Copies a byte string into an owned vector.
pub fn copy_bytes(a: &[u8]) -> (r: Vec<u8>)
    ensures
        r@ == a@,
{
    let mut out: Vec<u8> = Vec::new();
    let n = a.len();
    let mut i: usize = 0;
    while i < n
        invariant
            n == a@.len(),
            i <= n,
            out@ == a@.take(i as int),
        decreases n - i,
    {
        out.push(a[i]);
        i = i + 1;
    }
    proof {
        assert(a@.take(n as int) =~= a@);
    }
    out
}

/// Appends one byte string to another.
pub fn push_bytes(out: &mut Vec<u8>, a: &[u8])
    ensures
        final (out)@ == old(out)@ + a@,
{
    let n = a.len();
    let mut i: usize = 0;
    while i < n
        invariant
            n == a@.len(),
            i <= n,
            out@ == old(out)@ + a@.take(i as int),
        decreases n - i,
    {
        out.push(a[i]);
        i = i + 1;
    }
    proof {
        assert(a@.take(n as int) =~= a@);
        assert(out@ =~= old(out)@ + a@);
    }
}

} // verus!

//! Command authentication: an inbound invocation carries a shared secret,
//! which must match the expected secret exactly.

use vstd::prelude::*;
use vstd::string::*;

verus! {

/// Why an inbound invocation was rejected.
#[derive(Clone, Copy, Debug, PartialEq, Eq, Structural)]
pub enum AuthError {
    /// The caller supplied no shared secret at all.
    Missing,
    /// The caller supplied a secret that differs from the expected one.
    Mismatch,
}

/// Character-by-character string comparison.
fn str_eq(a: &str, b: &str) -> (r: bool)
    ensures
        r == (a@ == b@),
{
    let alen = a.unicode_len();
    let blen = b.unicode_len();
    if alen != blen {
        return false;
    }
    let mut i: usize = 0;
    while i < alen
        invariant
            i <= alen,
            alen == a@.len(),
            blen == b@.len(),
            alen == blen,
            forall|j: int| 0 <= j < i ==> a@[j] == b@[j],
        decreases alen - i,
    {
        if a.get_char(i) != b.get_char(i) {
            return false;
        }
        i += 1;
    }
    proof {
        assert(a@ =~= b@);
    }
    true
}

/// Checks an inbound shared secret against the expected one.
///
/// An empty secret is reported as absent; a non-empty secret that differs
/// from the expected value (exact, case-sensitive comparison) is reported
/// as a mismatch.  Either failure is terminal for the request.
pub fn authenticate(provided: &str, expected: &str) -> (r: Result<(), AuthError>)
    ensures
        provided@.len() == 0 ==> r == Err::<(), AuthError>(AuthError::Missing),
        provided@.len() > 0 && provided@ != expected@ ==> r == Err::<(), AuthError>(
            AuthError::Mismatch,
        ),
        provided@.len() > 0 && provided@ == expected@ ==> r == Ok::<(), AuthError>(()),
{
    if provided.unicode_len() == 0 {
        Err(AuthError::Missing)
    } else if !str_eq(provided, expected) {
        Err(AuthError::Mismatch)
    } else {
        Ok(())
    }
}

} // verus!

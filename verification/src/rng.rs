//! Randomness for topic identifiers and envelope nonces.
use vstd::prelude::*;

verus! {

/// Relies on rand::random: draws one byte from the thread-local generator.
/// Nothing can be promised of a random value.
#[verifier::external_body]
pub(crate) fn random_byte() -> u8 {
    rand::random()
}

/// Draws `n` random bytes.
pub fn random_bytes(n: usize) -> (r: Vec<u8>)
    ensures
        r@.len() == n,
{
    let mut out: Vec<u8> = Vec::new();
    let mut i: usize = 0;
    while i < n
        invariant
            i <= n,
            out@.len() == i,
        decreases n - i,
    {
        out.push(random_byte());
        i = i + 1;
    }
    out
}

} // verus!

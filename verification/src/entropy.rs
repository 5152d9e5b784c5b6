//! Random bytes, for nonces and for names that must not collide.

use vstd::prelude::*;

verus! {

/// Calls `rand::random` for an array of `N` bytes. Trusted: nothing is claimed of
/// the bytes.
#[verifier::external_body]
pub(crate) fn random_bytes<const N: usize>() -> (bytes: [u8; N]) {
    rand::random()
}

/// The number that four bytes spell, the first byte lowest.
pub open spec fn number_of(bytes: Seq<u8>) -> nat {
    (bytes[0] + 256 * bytes[1] + 65536 * bytes[2] + 16777216 * bytes[3]) as nat
}

/// Reads four bytes as one number, the first byte lowest.
pub fn number_from(bytes: &[u8; 4]) -> (n: u32)
    ensures
        n == number_of(bytes@),
{
    let b0: u32 = bytes[0] as u32;
    let b1: u32 = bytes[1] as u32;
    let b2: u32 = bytes[2] as u32;
    let b3: u32 = bytes[3] as u32;
    b0 + 256 * b1 + 65536 * b2 + 16777216 * b3
}

} // verus!

//! Random numbers.

use rand::Rng;
use vstd::prelude::*;

verus! {

/// Calls `rand::random` for one 64-bit word. The value depends on the
/// generator, so nothing is claimed of it.
#[verifier::external_body]
pub(crate) fn random_word() -> u64 {
    rand::random()
}

/// Calls `rand::Rng::fill` on the thread's generator to fill a fresh buffer of
/// `len` bytes. Only the length of the buffer is claimed.
#[verifier::external_body]
pub(crate) fn random_bytes(len: usize) -> (bytes: Vec<u8>)
    ensures
        bytes@.len() == len,
{
    let mut bytes = vec![0u8; len];
    rand::thread_rng().fill(&mut bytes[..]);
    bytes
}

} // verus!

//! Random bytes.

use rand::RngCore;
use vstd::prelude::*;

verus! {

/// The generator that `rand::rng()` gives.
#[verifier::external_type_specification]
#[verifier::external_body]
pub struct ExThreadRng(rand::rngs::ThreadRng);

/// `RngCore::fill_bytes` of the `rand` crate on a buffer of `n` bytes: every byte
/// is drawn, so of the result only its length is known.
#[verifier::external_body]
pub(crate) fn random_bytes(rng: &mut rand::rngs::ThreadRng, n: usize) -> (bytes: Vec<u8>)
    requires
        n <= isize::MAX,
    ensures
        bytes@.len() == n,
{
    let mut bytes = vec![0u8; n];
    rng.fill_bytes(&mut bytes);
    bytes
}

} // verus!

//! The random generator that keys and initialization vectors are drawn from.

#[allow(deprecated)]
use rand::ChaChaRng;
use rand::rngs::EntropyRng;
use rand::{RngCore, SeedableRng};
use vstd::prelude::*;

verus! {

/// The generator `rand::ChaChaRng`, carried through unread.
#[verifier::external_type_specification]
#[verifier::external_body]
#[allow(deprecated)]
pub struct ExChaChaRng(ChaChaRng);

/// The error of `SeedableRng::from_rng`, carried through unread.
#[verifier::external_type_specification]
#[verifier::external_body]
pub struct ExRandError(rand::Error);

/// Calls `SeedableRng::from_rng` on a new `EntropyRng`. Nothing is claimed
/// of the generator returned, nor that one is returned.
#[verifier::external_body]
#[allow(deprecated)]
pub(crate) fn seeded_from_entropy() -> (rng: Result<ChaChaRng, rand::Error>) {
    ChaChaRng::from_rng(EntropyRng::new())
}

/// Calls `RngCore::fill_bytes`. Trusted: the call does not panic and the
/// buffer keeps its length. Nothing is claimed of the bytes written.
#[verifier::external_body]
#[allow(deprecated)]
pub(crate) fn fill_bytes(rng: &mut ChaChaRng, dest: &mut Vec<u8>)
    ensures
        final(dest)@.len() == old(dest)@.len(),
    no_unwind
{
    rng.fill_bytes(dest.as_mut_slice())
}

} // verus!

//! Randomness for key generation and encryption, drawn through two trusted
//! entry points: a uniform draw below a bound from the thread-local
//! generator, and a raw draw from the operating system's entropy source that
//! can report failure.

use vstd::prelude::*;

verus! {

/// The error type with which rand's `OsRng` reports a failing entropy
/// source.
#[verifier::external_type_specification]
#[verifier::external_body]
pub struct ExRandError(rand::Error);

/// Relies on rand's `Rng::gen_range` over `0..bound`: a uniform draw below
/// `bound` from the thread-local generator. `bound >= 1` keeps the range
/// non-empty, the one case `gen_range` refuses.
#[verifier::external_body]
pub(crate) fn random_below(bound: u128) -> (r: u128)
    requires
        bound >= 1,
    ensures
        r < bound,
{
    rand::Rng::gen_range(&mut rand::thread_rng(), 0..bound)
}

/// Relies on rand's `OsRng` and `RngCore::try_fill_bytes`: either fills a
/// buffer from the operating system's entropy source or reports that the
/// source failed. Nothing is promised of the value drawn.
#[verifier::external_body]
pub(crate) fn os_random() -> (r: Result<u128, rand::Error>)
{
    let mut buf = [0u8; 16];
    match rand::RngCore::try_fill_bytes(&mut rand::rngs::OsRng, &mut buf) {
        Ok(()) => Ok(u128::from_le_bytes(buf)),
        Err(e) => Err(e),
    }
}

} // verus!

//! Pseudo-random sampling, drawn from the `rand` crate.
//!
//! The generator is threaded explicitly through every sampling call, so
//! a fixed seed reproduces a rendering exactly. Nothing is assumed about
//! the values a generator yields: verified callers state what holds of
//! every possible draw.

use vstd::prelude::*;

verus! {

/// The `rand` crate's standard generator, declared so that verified code
/// can own one and pass it along.
#[verifier::external_type_specification]
#[verifier::external_body]
pub struct ExStdRng(rand::rngs::StdRng);

/// Relies on rand's `SeedableRng::seed_from_u64` to construct a
/// generator from a seed. Nothing is assumed of the stream it yields.
#[verifier::external_body]
pub fn rng_from_seed(seed: u64) -> (r: rand::rngs::StdRng) {
    <rand::rngs::StdRng as rand::SeedableRng>::seed_from_u64(seed)
}

/// Relies on rand's `Rng::next_u64`. A draw may be any value, so nothing
/// is assumed of the result.
#[verifier::external_body]
pub fn next_u64(rng: &mut rand::rngs::StdRng) -> (r: u64) {
    rand::Rng::next_u64(rng)
}

} // verus!

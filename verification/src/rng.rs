//! The randomness provider handed to the planner and the corruption
//! engine. It is an explicit value, so a caller can seed it and make a
//! whole run reproducible, or draw the seed from the operating system.

use vstd::prelude::*;
use rand::Rng;
use rand::SeedableRng;

verus! {

#[verifier::external_type_specification]
#[verifier::external_body]
pub struct ExStdRng(rand::rngs::StdRng);

/// A pseudo-random number generator with an explicit origin: either a
/// caller-chosen seed or operating-system entropy.
pub struct SeededRng {
    inner: rand::rngs::StdRng,
}

impl SeededRng {
    /// Relies on rand::SeedableRng::seed_from_u64: builds a generator
    /// whose stream of draws is a function of the seed alone.
    #[verifier::external_body]
    pub fn from_seed(seed: u64) -> SeededRng {
        SeededRng { inner: rand::rngs::StdRng::seed_from_u64(seed) }
    }

    /// Relies on rand::SeedableRng::from_entropy: builds a generator
    /// seeded from the operating system.
    #[verifier::external_body]
    pub fn from_entropy() -> SeededRng {
        SeededRng { inner: rand::rngs::StdRng::from_entropy() }
    }

    /// Relies on rand::Rng::gen_range over `lo..=hi`: returns a uniform
    /// draw from the inclusive range, and panics only on an empty range,
    /// which the precondition rules out.
    #[verifier::external_body]
    pub(crate) fn next_u64(&mut self, lo: u64, hi: u64) -> (r: u64)
        requires
            lo <= hi,
        ensures
            lo <= r <= hi,
    {
        self.inner.gen_range(lo..=hi)
    }

    /// Relies on rand::Rng::gen_range over `lo..=hi`: returns a uniform
    /// draw from the inclusive range, and panics only on an empty range,
    /// which the precondition rules out.
    #[verifier::external_body]
    pub(crate) fn next_u8(&mut self, lo: u8, hi: u8) -> (r: u8)
        requires
            lo <= hi,
        ensures
            lo <= r <= hi,
    {
        self.inner.gen_range(lo..=hi)
    }
}

} // verus!

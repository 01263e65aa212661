//! The random source of one worker.

use vstd::prelude::*;
use std::ops::Range;
use rand::rngs::{OsRng, SmallRng};
use rand::{Rng, SeedableRng};

verus! {

/// The generator `rand::rngs::SmallRng`, of which nothing is known here.
#[verifier::external_type_specification]
#[verifier::external_body]
pub struct ExSmallRng(SmallRng);

/// A pseudo-random generator. Every worker has one of its own and hands it
/// to whatever needs randomness.
pub struct RNG {
    pub rng: SmallRng,
}

/// The error `rand::Error`, of which nothing is known here.
#[verifier::external_type_specification]
#[verifier::external_body]
pub struct ExRandError(rand::Error);

/// Calls `SmallRng::from_rng` on `OsRng`, which asks the operating system for
/// a seed and hands back the system's error when it gives none. Nothing is
/// claimed of which of the two comes back, nor of the state.
#[verifier::external_body]
fn from_system() -> (rng: Result<SmallRng, rand::Error>) {
    SmallRng::from_rng(OsRng)
}

/// Calls `SmallRng::seed_from_u64`, which spreads the seed over the state of
/// a new generator. Nothing is claimed of the state.
#[verifier::external_body]
fn seeded(seed: u64) -> (rng: SmallRng) {
    SmallRng::seed_from_u64(seed)
}

impl RNG {
    /// A generator with a given seed. Within one build of the program,
    /// generators of one seed give the same numbers in the same order; that
    /// is not stated here, as nothing is known of a generator's state.
    pub fn from_seed(seed: u64) -> (r: RNG) {
        RNG { rng: seeded(seed) }
    }

    /// A generator seeded from the entropy of the operating system, or
    /// nothing when the system gives none. Nothing is known of its state.
    pub fn new() -> (r: Option<RNG>) {
        match from_system() {
            Ok(rng) => Some(RNG { rng }),
            Err(_) => None,
        }
    }

    /// A random integer from the range, by `Rng::gen_range`, which refuses an
    /// empty range. The integer lies in the range; nothing else is known
    /// of it.
    #[verifier::external_body]
    pub fn random_int(&mut self, a: Range<i32>) -> (n: i32)
        requires
            a.start < a.end,
        ensures
            a.start <= n < a.end,
    {
        self.rng.gen_range(a)
    }

    /// A random integer from the range, or nothing when the range is empty.
    pub fn random_int_in(&mut self, a: Range<i32>) -> (n: Option<i32>)
        ensures
            n.is_some() == (a.start < a.end),
            n matches Some(v) ==> a.start <= v < a.end,
    {
        if a.start < a.end {
            Some(self.random_int(a))
        } else {
            None
        }
    }
}

} // verus!

//! The pseudo-random source threaded through sampling code.
//!
//! [`Rand`] wraps an optional generator: acquiring one from the environment
//! may fail, and every consumer of randomness degrades to a deterministic
//! fallback when no generator is available, rather than failing the render.

use vstd::prelude::*;

use crate::fixed::SCALE;

verus! {

/// Declares rand's small fast generator so that it can stand in fields.
#[verifier::external_type_specification]
#[verifier::external_body]
pub struct ExSmallRng(rand::rngs::SmallRng);

/// Relies on rand's `SeedableRng::seed_from_u64`, which expands a seed into
/// a generator state and cannot fail.
#[verifier::external_body]
fn small_rng_from_seed(seed: u64) -> rand::rngs::SmallRng {
    <rand::rngs::SmallRng as rand::SeedableRng>::seed_from_u64(seed)
}

/// Relies on rand's `SeedableRng::from_rng` applied to `OsRng`, whose
/// `try_fill_bytes` returns entropy failures as errors rather than
/// aborting, so a failure to draw a seed is handed back as `None`.
#[verifier::external_body]
fn small_rng_from_entropy() -> Option<rand::rngs::SmallRng> {
    match <rand::rngs::SmallRng as rand::SeedableRng>::from_rng(rand::rngs::OsRng) {
        Ok(rng) => Some(rng),
        Err(_) => None,
    }
}

/// Relies on rand's `Rng::gen_range` over `0..bound`, which returns a
/// uniform value below `bound` and panics only on an empty range (excluded
/// here by `bound > 0`).
#[verifier::external_body]
fn small_rng_below(rng: &mut Option<rand::rngs::SmallRng>, bound: u64) -> (r: Option<u64>)
    requires
        bound > 0,
    ensures
        (r is Some) == ((*old(rng)) is Some),
        ((*final(rng)) is Some) == ((*old(rng)) is Some),
        r matches Some(v) ==> v < bound,
{
    match rng {
        Some(g) => Some(rand::Rng::gen_range(g, 0..bound)),
        None => None,
    }
}

/// A possibly-absent pseudo-random source.
pub struct Rand {
    src: Option<rand::rngs::SmallRng>,
}

impl Rand {
    /// Whether a generator is present.  When it is not, every draw comes
    /// back `None` and samplers fall back to deterministic values.
    pub closed spec fn available(self) -> bool {
        self.src is Some
    }

    /// A deterministic source seeded from the given value.
    pub fn from_seed(seed: u64) -> (r: Rand)
        ensures
            r.available(),
    {
        Rand { src: Some(small_rng_from_seed(seed)) }
    }

    /// A source seeded from the environment; may come back unavailable.
    pub fn from_entropy() -> (r: Rand) {
        Rand { src: small_rng_from_entropy() }
    }

    /// The absent source: every consumer takes its deterministic fallback.
    pub fn none() -> (r: Rand)
        ensures
            !r.available(),
    {
        Rand { src: None }
    }

    /// Draw a fixed-point value uniform in `[0, 1)`, scaled; `None` when no
    /// generator is available.
    pub fn try_unit(&mut self) -> (r: Option<i128>)
        ensures
            (r is Some) == old(self).available(),
            final(self).available() == old(self).available(),
            r matches Some(v) ==> 0 <= v < SCALE,
    {
        let d: Option<u64> = small_rng_below(&mut self.src, 65536);
        match d {
            Some(v) => Some(v as i128),
            None => None,
        }
    }
}

} // verus!

//! Random draws for path sampling.
//!
//! Each worker owns one seedable generator, passed explicitly into every
//! sampling call, so unit runs are reproducible per seed. The generator
//! itself comes from the rand crate; nothing is assumed about the values
//! it yields, and everything downstream is verified for every outcome.

use vstd::prelude::*;
use crate::fixed::FX_ONE;

verus! {

#[verifier::external_type_specification]
#[verifier::external_body]
pub struct ExStdRng(rand::rngs::StdRng);

/// Relies on rand's `SeedableRng::seed_from_u64` to build a generator
/// from a seed; nothing is claimed about the stream it produces.
#[verifier::external_body]
fn std_rng_from_seed(seed: u64) -> rand::rngs::StdRng {
    <rand::rngs::StdRng as rand::SeedableRng>::seed_from_u64(seed)
}

/// Relies on rand's `RngCore::next_u64` for the next draw of the stream;
/// nothing is claimed about the value.
#[verifier::external_body]
fn std_rng_next(rng: &mut rand::rngs::StdRng) -> u64 {
    rand::RngCore::next_u64(rng)
}

/// One worker's private random stream.
pub struct Rng {
    inner: rand::rngs::StdRng,
}

impl Rng {
    pub fn new(seed: u64) -> Rng {
        Rng { inner: std_rng_from_seed(seed) }
    }

    /// A draw over the fixed-point unit interval `[0, 1)`.
    pub fn gen_unit(&mut self) -> (r: i64)
        ensures
            0 <= r < FX_ONE,
    {
        let bits = std_rng_next(&mut self.inner);
        (bits % 65536) as i64
    }

    /// A raw 64-bit draw.
    pub fn next_bits(&mut self) -> u64 {
        std_rng_next(&mut self.inner)
    }
}

} // verus!

//! The source of film-grain noise: a thread-local random generator behind
//! trusted declarations, and the verified damping of a drawn sample.
//!
//! A noise sample is drawn as a step index `d` in `[0, NOISE_STEPS)`; step
//! `d` stands for the noise value `(d - 242) / 10`, a tenth of a channel
//! unit per step across the range `[-24.2, 24.2)`.

use vstd::prelude::*;
use rand::RngExt;
use crate::model::{damped_delta, full_delta, noise_delta};

verus! {

#[verifier::external_type_specification]
#[verifier::external_body]
pub struct ExThreadRng(rand::rngs::ThreadRng);

/// Relies on rand::rng: a handle to the thread-local random generator.
#[verifier::external_body]
pub(crate) fn fresh_rng() -> rand::rngs::ThreadRng {
    rand::rng()
}

/// Relies on rand's RngExt::random_range: a draw from `lo..hi` is uniform
/// over `[lo, hi)`, and panics only when the range is empty.
#[verifier::external_body]
pub(crate) fn draw_uniform(rng: &mut rand::rngs::ThreadRng, lo: u32, hi: u32) -> (d: u32)
    requires
        lo < hi,
    ensures
        lo <= d < hi,
{
    rng.random_range(lo..hi)
}

/// The noise delta a draw contributes to a channel at value `c`: the floor
/// of the drawn noise value, halved first when the channel sits at an
/// extreme (exactly 0 or exactly 255), so that grain is damped where it
/// could only push one way.
pub fn adjust_noise(c: u8, d: u32) -> (delta: i32)
    requires
        d < 484,
    ensures
        delta == noise_delta(c as int, d as int),
        -25 <= delta <= 24,
{
    if c == 0 || c == 255 {
        // floor((d - 242) / 20), shifted to keep the dividend nonnegative
        let q: u32 = (d + 18) / 20;
        assert(damped_delta(d as int) == q - 13);
        q as i32 - 13
    } else {
        // floor((d - 242) / 10), shifted to keep the dividend nonnegative
        let q: u32 = (d + 8) / 10;
        assert(full_delta(d as int) == q - 25);
        q as i32 - 25
    }
}

} // verus!

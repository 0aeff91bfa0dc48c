//! Shared renderer utilities: angle conversion and the random source that
//! every sampling routine draws from.
//!
//! The random source is an explicit, passed-in dependency. It either
//! delegates to the process-wide generator of the `rand` crate, or runs a
//! small deterministic generator from a caller-supplied seed so that a
//! render can be reproduced exactly.

use vstd::prelude::*;
use crate::fixed::{SCALE, fx_mul, fx_mul_s, fx_raw_div, tdiv};

verus! {

/// Largest representable hit parameter, used as the "no upper bound" value
/// of scene queries.
pub const INFINITY: i64 = i64::MAX;

/// Fixed-point approximation of pi (six decimal places).
pub const PI: i64 = 3_141_593;

/// Degrees to radians: `d * PI / 180`, with fixed-point truncation.
pub open spec fn degrees_to_radians_s(d: int) -> int {
    tdiv(fx_mul_s(d, PI as int), 180)
}

/// Converts an angle in degrees to radians (both fixed point).
pub fn degrees_to_radians(degrees: i64) -> (r: i64)
    requires
        i64::MIN <= fx_mul_s(degrees as int, PI as int) <= i64::MAX,
    ensures
        r as int == degrees_to_radians_s(degrees as int),
{
    fx_raw_div(fx_mul(degrees, PI), 180)
}

/// One step of the xorshift generator driving the seeded random source.
pub open spec fn xorshift_next_s(s: u64) -> u64 {
    let a = s ^ (s >> (12 as u64));
    let b = a ^ (a << (25 as u64));
    b ^ (b >> (27 as u64))
}

/// Multiplier finishing a seeded draw (the xorshift* output mix).
pub const MIX_FACTOR: u64 = 0x2545_F491_4F6C_DD1D;

/// The value a seeded source returns for the range `[min, max)` right
/// after stepping its state to `s`.
pub open spec fn seeded_draw_s(s: u64, min: int, max: int) -> int {
    min + (s.wrapping_mul(MIX_FACTOR) as int) % (max - min)
}

/// Source of uniform fixed-point randomness. `ThreadRng` draws from the
/// `rand` crate's thread-local generator; `Seeded` runs a deterministic
/// xorshift* generator so renders can be reproduced.
pub enum RandomSource {
    ThreadRng,
    Seeded { state: u64 },
}

/// Relies on `rand::Rng::gen_range` over `rand::thread_rng()`: it returns
/// a value uniformly drawn from the half-open range `[min, max)` and
/// panics only on an empty range, which the precondition excludes.
#[verifier::external_body]
fn thread_rand_range(min: i64, max: i64) -> (r: i64)
    requires
        min < max,
    ensures
        min <= r < max,
{
    rand::Rng::gen_range(&mut rand::thread_rng(), min..max)
}

impl RandomSource {
    /// Creates a deterministic source from a seed.
    pub fn seeded(seed: u64) -> (r: RandomSource)
        ensures
            r == (RandomSource::Seeded { state: seed }),
    {
        RandomSource::Seeded { state: seed }
    }

    /// Draws the next value in `[min, max)`. A seeded source is fully
    /// deterministic: the new state and the value drawn are pinned down.
    pub fn next_in_range(&mut self, min: i64, max: i64) -> (r: i64)
        requires
            min < max,
        ensures
            min <= r < max,
            *old(self) is ThreadRng ==> *final(self) is ThreadRng,
            *old(self) is Seeded ==> {
                let s2 = xorshift_next_s((*old(self))->state);
                &&& *final(self) == (RandomSource::Seeded { state: s2 })
                &&& r as int == seeded_draw_s(s2, min as int, max as int)
            },
    {
        match self {
            RandomSource::ThreadRng => thread_rand_range(min, max),
            RandomSource::Seeded { state } => {
                let s = *state;
                let a = s ^ (s >> 12);
                let b = a ^ (a << 25);
                let s2 = b ^ (b >> 27);
                *state = s2;
                let span: u64 = ((max as i128) - (min as i128)) as u64;
                let rem: u64 = s2.wrapping_mul(MIX_FACTOR) % span;
                let r = ((min as i128) + (rem as i128)) as i64;
                r
            },
        }
    }
}

/// Draws a fixed-point value in `[0, 1)`.
pub fn random_double(rng: &mut RandomSource) -> (r: i64)
    ensures
        0 <= r < SCALE,
{
    rng.next_in_range(0, SCALE)
}

/// Draws a fixed-point value in `[min, max)`.
pub fn random_double_range(rng: &mut RandomSource, min: i64, max: i64) -> (r: i64)
    requires
        min < max,
    ensures
        min <= r < max,
{
    rng.next_in_range(min, max)
}

} // verus!

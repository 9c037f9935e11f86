//! Deterministic pseudo-random stream for sampling.
//!
//! Every render worker owns an explicit stream, seeded from the render
//! seed and the pixel position, so the same seed always reproduces the
//! same image and rows can be drawn independently of one another.

use vstd::prelude::*;

use crate::fixed::FP;

verus! {

/// Addition modulo `2^64`.
pub open spec fn wadd(a: u64, b: u64) -> u64 {
    ((a + b) % 0x1_0000_0000_0000_0000) as u64
}

/// Multiplication modulo `2^64`.
pub open spec fn wmul(a: u64, b: u64) -> u64 {
    ((a * b) % 0x1_0000_0000_0000_0000) as u64
}

/// A xor-shift-multiply finalizer: scrambles all bits of the word.
#[verifier::opaque]
pub open spec fn mix64(z: u64) -> u64 {
    let z1 = wmul(z ^ (z >> 33u64), 0xFF51_AFD7_ED55_8CCD);
    let z2 = wmul(z1 ^ (z1 >> 33u64), 0xC4CE_B9FE_1A85_EC53);
    z2 ^ (z2 >> 33u64)
}

/// The stream state that follows `s`.
pub open spec fn rng_next_state(s: u64) -> u64 {
    wadd(s, 0x9E37_79B9_7F4A_7C15)
}

/// The word that the stream hands out when stepping from state `s`.
#[verifier::opaque]
pub open spec fn rng_output(s: u64) -> u64 {
    mix64(rng_next_state(s))
}

/// The fixed-point jitter in `[0, 1)` drawn when stepping from state `s`.
#[verifier::opaque]
pub open spec fn rng_unit(s: u64) -> int {
    (rng_output(s) % (FP as u64)) as int
}

/// The starting state of the stream owned by pixel `(row, col)` of a
/// render with the given seed.
#[verifier::opaque]
pub open spec fn pixel_seed(seed: u64, row: u32, col: u32) -> u64 {
    mix64(wadd(wadd(mix64(seed), wmul(row as u64, 0x9E37_79B9_7F4A_7C15)), wmul(
        col as u64,
        0xC2B2_AE3D_27D4_EB4F,
    )))
}

fn add_wrap(a: u64, b: u64) -> (r: u64)
    ensures
        r == wadd(a, b),
{
    ((a as u128 + b as u128) % 0x1_0000_0000_0000_0000u128) as u64
}

fn mul_wrap(a: u64, b: u64) -> (r: u64)
    ensures
        r == wmul(a, b),
{
    proof {
        assert((a as int) * (b as int) <= u128::MAX as int) by (nonlinear_arith)
            requires
                0 <= a as int <= u64::MAX,
                0 <= b as int <= u64::MAX,
        ;
    }
    ((a as u128 * b as u128) % 0x1_0000_0000_0000_0000u128) as u64
}

fn mix(z: u64) -> (r: u64)
    ensures
        r == mix64(z),
{
    proof {
        reveal(mix64);
    }
    let z1: u64 = mul_wrap(z ^ (z >> 33u64), 0xFF51_AFD7_ED55_8CCD);
    let z2: u64 = mul_wrap(z1 ^ (z1 >> 33u64), 0xC4CE_B9FE_1A85_EC53);
    z2 ^ (z2 >> 33u64)
}

/// An explicit pseudo-random stream; a value of this type stands for the
/// entire remainder of the stream.
pub struct Rng {
    pub state: u64,
}

impl Rng {
    /// The stream owned by pixel `(row, col)` of a render with this seed.
    pub fn seeded(seed: u64, row: u32, col: u32) -> (r: Rng)
        ensures
            r.state == pixel_seed(seed, row, col),
    {
        proof {
            reveal(pixel_seed);
        }
        let a: u64 = mix(seed);
        let b: u64 = add_wrap(a, mul_wrap(row as u64, 0x9E37_79B9_7F4A_7C15));
        let c: u64 = add_wrap(b, mul_wrap(col as u64, 0xC2B2_AE3D_27D4_EB4F));
        Rng { state: mix(c) }
    }

    /// Draws the next word and advances the stream.
    pub fn next_u64(&mut self) -> (r: u64)
        ensures
            final(self).state == rng_next_state(old(self).state),
            r == rng_output(old(self).state),
    {
        proof {
            reveal(rng_output);
        }
        self.state = add_wrap(self.state, 0x9E37_79B9_7F4A_7C15);
        mix(self.state)
    }

    /// Draws a fixed-point value uniform over `[0, 1)` and advances the
    /// stream.
    pub fn next_unit(&mut self) -> (r: i64)
        ensures
            final(self).state == rng_next_state(old(self).state),
            r as int == rng_unit(old(self).state),
            0 <= r < FP,
    {
        proof {
            reveal(rng_unit);
        }
        let w: u64 = self.next_u64();
        (w % (FP as u64)) as i64
    }
}

} // verus!

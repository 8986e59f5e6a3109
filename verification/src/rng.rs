//! The source of randomness: a counter-based generator whose stream is fixed
//! by a seed, a pixel and the index of a sample, so that what a pixel draws
//! never depends on the order in which pixels are rendered.

use vstd::prelude::*;
use crate::fixed::ONE;
use crate::vec3::{Vec3, Vector};

verus! {

/// The increment of the generator's counter.
pub const STEP: u64 = 0x9E37_79B9_7F4A_7C15;

/// The first multiplier of the mixing function.
pub const MIX_A: u64 = 0xBF58_476D_1CE4_E5B9;

/// The second multiplier of the mixing function.
pub const MIX_B: u64 = 0x94D0_49BB_1331_11EB;

/// The mixing function: a bijection of the 64-bit words that spreads every
/// input bit over the whole output.
pub open spec fn mix_spec(z: u64) -> u64 {
    let a = (z ^ (z >> 30)).wrapping_mul(MIX_A);
    let b = (a ^ (a >> 27)).wrapping_mul(MIX_B);
    b ^ (b >> 31)
}

/// The generator's state after one more draw.
pub open spec fn advance(state: u64) -> u64 {
    state.wrapping_add(STEP)
}

/// The generator's state after `n` more draws.
pub open spec fn advance_by(state: u64, n: nat) -> u64
    decreases n,
{
    if n == 0 {
        state
    } else {
        advance(advance_by(state, (n - 1) as nat))
    }
}

/// The word drawn when the generator leaves `state`.
pub open spec fn draw(state: u64) -> u64 {
    mix_spec(advance(state))
}

/// The fraction in `[0, ONE)` drawn when the generator leaves `state`.
pub open spec fn draw_unit(state: u64) -> int {
    (draw(state) >> 48) as int
}

/// The scalar in `[-ONE, ONE)` drawn when the generator leaves `state`.
pub open spec fn draw_signed(state: u64) -> int {
    (draw(state) >> 47) as int - ONE as int
}

/// The vector drawn by three draws that start at `state`: each component a
/// scalar in `[-ONE, ONE)`, the whole normalized. It is the zero vector
/// where the three scalars are all zero.
pub open spec fn draw_direction(state: u64) -> Vector {
    (Vector {
        x: draw_signed(state),
        y: draw_signed(advance(state)),
        z: draw_signed(advance(advance(state))),
    }).normalized()
}

/// A direction drawn is the zero vector or has length `ONE` to within four
/// units.
pub proof fn lemma_draw_direction_length(state: u64)
    ensures
        draw_direction(state) == (Vector { x: 0, y: 0, z: 0 }) || (ONE - 4 <= draw_direction(
            state,
        ).norm() <= ONE + 3),
{
    let v = Vector {
        x: draw_signed(state),
        y: draw_signed(advance(state)),
        z: draw_signed(advance(advance(state))),
    };
    if v.norm_sq() != 0 {
        crate::vec3::lemma_normalized_length(v);
    }
}

/// The state from which the samples of one pixel draw: the seed mixed with
/// the pixel's column, its row and the index of the sample, in turn.
pub open spec fn sample_state(seed: u64, x: u32, y: u32, sample: u32) -> u64 {
    mix_spec(mix_spec(mix_spec(seed.wrapping_add(x as u64)) ^ (y as u64)) ^ (sample as u64))
}

/// The mixing function.
pub fn mix(z: u64) -> (r: u64)
    ensures
        r == mix_spec(z),
{
    let a: u64 = (z ^ (z >> 30)).wrapping_mul(MIX_A);
    let b: u64 = (a ^ (a >> 27)).wrapping_mul(MIX_B);
    b ^ (b >> 31)
}

/// A generator of pseudo-random numbers.
#[derive(Clone, Copy, Debug, PartialEq, Eq, Structural)]
pub struct Rng {
    pub state: u64,
}

impl Rng {
    /// The generator that starts at `state`.
    pub fn new(state: u64) -> (r: Rng)
        ensures
            r.state == state,
    {
        Rng { state }
    }

    /// The generator for one sample of one pixel.
    pub fn for_sample(seed: u64, x: u32, y: u32, sample: u32) -> (r: Rng)
        ensures
            r.state == sample_state(seed, x, y, sample),
    {
        let a: u64 = mix(seed.wrapping_add(x as u64));
        let b: u64 = mix(a ^ (y as u64));
        Rng { state: mix(b ^ (sample as u64)) }
    }

    /// Draws a word.
    pub fn next_u64(&mut self) -> (r: u64)
        ensures
            r == draw(old(self).state),
            final(self).state == advance(old(self).state),
    {
        self.state = self.state.wrapping_add(STEP);
        mix(self.state)
    }

    /// Draws a fraction in `[0, ONE)`.
    pub fn next_unit(&mut self) -> (r: i64)
        ensures
            r == draw_unit(old(self).state),
            0 <= r < ONE,
            final(self).state == advance(old(self).state),
    {
        let w: u64 = self.next_u64();
        assert(w >> 48 < 65536) by (bit_vector);
        (w >> 48) as i64
    }

    /// Draws a scalar in `[-ONE, ONE)`.
    pub fn next_signed(&mut self) -> (r: i64)
        ensures
            r == draw_signed(old(self).state),
            -ONE <= r < ONE,
            final(self).state == advance(old(self).state),
    {
        let w: u64 = self.next_u64();
        assert(w >> 47 < 131072) by (bit_vector);
        (w >> 47) as i64 - ONE
    }

    /// Draws a direction: a vector of length `ONE` to within four units, or
    /// the zero vector where the three scalars drawn are all zero.
    pub fn next_direction(&mut self) -> (r: Vec3)
        ensures
            r.wf(),
            r@ == draw_direction(old(self).state),
            final(self).state == advance_by(old(self).state, 3),
    {
        let x: i64 = self.next_signed();
        let y: i64 = self.next_signed();
        let z: i64 = self.next_signed();
        proof {
            reveal_with_fuel(advance_by, 4);
        }
        let v = Vec3 { x, y, z };
        v.normalize()
    }
}

} // verus!

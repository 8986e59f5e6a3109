//! Colours: linear radiance per channel in `[0, ONE]`, the sky that a ray
//! sees where it leaves the scene, the loss at a bounce, and the way from an
//! averaged radiance to a byte.

use vstd::prelude::*;
use vstd::arithmetic::div_mod::{lemma_div_is_ordered, lemma_div_multiples_vanish};
use crate::fixed::{clamp_int, clamp_unit, floor_div, is_isqrt, isqrt, isqrt_spec,
    lemma_isqrt_monotone, ONE};
use crate::vec3::{wide_product, Vec3, Vector};

verus! {

/// The share of the light that a surface passes on at a bounce.
pub const REFLECTANCE: i64 = 32768;

/// The red, green and blue of the sky toward the horizon.
pub const HORIZON_R: i64 = 65536;

pub const HORIZON_G: i64 = 65536;

pub const HORIZON_B: i64 = 65536;

/// The red, green and blue of the sky overhead.
pub const ZENITH_R: i64 = 32768;

pub const ZENITH_G: i64 = 45875;

pub const ZENITH_B: i64 = 65536;

/// A colour of the model: three channels of linear radiance.
pub struct Rgb {
    pub r: int,
    pub g: int,
    pub b: int,
}

/// The value a fraction `t` of the way from `a` to `b`.
pub open spec fn blend(a: int, b: int, t: int) -> int {
    a + ((b - a) * t) / (ONE as int)
}

/// How far up a direction points, as a fraction: 0 straight down, `ONE`
/// straight up.
pub open spec fn elevation(direction: Vector) -> int {
    clamp_int((direction.normalized().y + ONE) / 2, 0, ONE as int)
}

/// The colour of the sky in a direction: a blend from the horizon colour to
/// the zenith colour by the direction's elevation.
pub open spec fn background(direction: Vector) -> Rgb {
    let t = elevation(direction);
    Rgb {
        r: blend(HORIZON_R as int, ZENITH_R as int, t),
        g: blend(HORIZON_G as int, ZENITH_G as int, t),
        b: blend(HORIZON_B as int, ZENITH_B as int, t),
    }
}

/// The colour of no light at all.
pub open spec fn black() -> Rgb {
    Rgb { r: 0, g: 0, b: 0 }
}

/// What is left of one channel after a bounce.
pub open spec fn attenuate_channel(c: int) -> int {
    (c * REFLECTANCE) / (ONE as int)
}

/// What is left of a colour after a bounce.
pub open spec fn attenuate(c: Rgb) -> Rgb {
    Rgb { r: attenuate_channel(c.r), g: attenuate_channel(c.g), b: attenuate_channel(c.b) }
}

/// What is left of a colour after `n` bounces.
pub open spec fn attenuate_n(c: Rgb, n: nat) -> Rgb
    decreases n,
{
    if n == 0 {
        c
    } else {
        attenuate(attenuate_n(c, (n - 1) as nat))
    }
}

/// Whether every channel lies in `[0, ONE]`.
pub open spec fn rgb_in_unit(c: Rgb) -> bool {
    0 <= c.r <= ONE && 0 <= c.g <= ONE && 0 <= c.b <= ONE
}

/// The gamma-corrected value of a channel: the square root of the radiance,
/// both taken as fractions of `ONE`.
pub open spec fn gamma(c: int) -> int {
    isqrt_spec((clamp_int(c, 0, ONE as int) * ONE) as nat) as int
}

/// The byte that stands for a channel: its gamma-corrected value in steps of
/// `ONE / 256`, with full radiance at 255.
pub open spec fn quantize(c: int) -> int {
    vstd::math::min(gamma(c) / 256, 255)
}

/// The pixel that stands for a colour: each channel gamma-corrected and
/// brought to a byte, fully opaque.
pub open spec fn pixel_of(c: Rgb) -> Pixel {
    Pixel { r: quantize(c.r) as u8, g: quantize(c.g) as u8, b: quantize(c.b) as u8, a: 255 }
}

/// A blend of two fractions is a fraction.
pub proof fn lemma_blend_in_unit(a: int, b: int, t: int)
    requires
        0 <= a <= ONE,
        0 <= b <= ONE,
        0 <= t <= ONE,
    ensures
        0 <= blend(a, b, t) <= ONE,
        a <= b ==> a <= blend(a, b, t) <= b,
        b <= a ==> b <= blend(a, b, t) <= a,
{
    let one = ONE as int;
    let p = (b - a) * t;
    if a <= b {
        assert(0 <= p <= (b - a) * one) by (nonlinear_arith)
            requires
                p == (b - a) * t,
                0 <= t <= one,
                a <= b,
        ;
        lemma_div_is_ordered(0, p, one);
        lemma_div_is_ordered(p, (b - a) * one, one);
        lemma_div_multiples_vanish(b - a, one);
    } else {
        assert((b - a) * one <= p <= 0) by (nonlinear_arith)
            requires
                p == (b - a) * t,
                0 <= t <= one,
                b < a,
        ;
        lemma_div_is_ordered(p, 0, one);
        lemma_div_is_ordered((b - a) * one, p, one);
        lemma_div_multiples_vanish(b - a, one);
    }
}

/// The elevation of a direction is half of what the height of its unit
/// vector exceeds `-ONE` by: the limits of the fraction are never needed.
pub proof fn lemma_elevation_exact(direction: Vector)
    ensures
        elevation(direction) == (direction.normalized().y + ONE) / 2,
        0 <= elevation(direction) <= ONE,
{
    crate::vec3::lemma_normalized_in_unit_cube(direction);
}

/// The sky is a colour with every channel a fraction.
pub proof fn lemma_background_in_unit(direction: Vector)
    ensures
        rgb_in_unit(background(direction)),
{
    let t = elevation(direction);
    lemma_blend_in_unit(HORIZON_R as int, ZENITH_R as int, t);
    lemma_blend_in_unit(HORIZON_G as int, ZENITH_G as int, t);
    lemma_blend_in_unit(HORIZON_B as int, ZENITH_B as int, t);
}

/// A bounce never adds light: what is left of a fraction is a fraction, and
/// no more than there was.
pub proof fn lemma_attenuate_channel(c: int)
    requires
        0 <= c <= ONE,
    ensures
        0 <= attenuate_channel(c) <= c,
{
    let one = ONE as int;
    let p = c * REFLECTANCE;
    assert(0 <= p <= c * one) by (nonlinear_arith)
        requires
            p == c * REFLECTANCE,
            0 <= c,
            0 <= REFLECTANCE <= one,
    ;
    lemma_div_is_ordered(0, p, one);
    lemma_div_is_ordered(p, c * one, one);
    lemma_div_multiples_vanish(c, one);
}

/// Attenuation keeps every channel a fraction.
pub proof fn lemma_attenuate_in_unit(c: Rgb)
    requires
        rgb_in_unit(c),
    ensures
        rgb_in_unit(attenuate(c)),
{
    lemma_attenuate_channel(c.r);
    lemma_attenuate_channel(c.g);
    lemma_attenuate_channel(c.b);
}

/// A bounce before `n` others loses what a bounce after them loses.
pub proof fn lemma_attenuate_n_shift(c: Rgb, n: nat)
    ensures
        attenuate_n(attenuate(c), n) == attenuate_n(c, n + 1),
    decreases n,
{
    reveal_with_fuel(attenuate_n, 2);
    if n > 0 {
        lemma_attenuate_n_shift(c, (n - 1) as nat);
    }
}

/// A colour: linear radiance per channel.
#[derive(Clone, Copy, Debug, PartialEq, Eq, Structural)]
pub struct Color {
    pub r: i64,
    pub g: i64,
    pub b: i64,
}

impl View for Color {
    type V = Rgb;

    open spec fn view(&self) -> Rgb {
        Rgb { r: self.r as int, g: self.g as int, b: self.b as int }
    }
}

/// A pixel as it is stored: red, green, blue and opacity, a byte each.
#[derive(Clone, Copy, Debug, PartialEq, Eq, Structural)]
pub struct Pixel {
    pub r: u8,
    pub g: u8,
    pub b: u8,
    pub a: u8,
}

/// Computes a blend of two fractions.
pub fn blend_channel(a: i64, b: i64, t: i64) -> (r: i64)
    requires
        0 <= a <= ONE,
        0 <= b <= ONE,
        0 <= t <= ONE,
    ensures
        r == blend(a as int, b as int, t as int),
        0 <= r <= ONE,
{
    proof {
        lemma_blend_in_unit(a as int, b as int, t as int);
    }
    let q: i128 = floor_div(wide_product(b - a, t), ONE as i128);
    (a as i128 + q) as i64
}

/// Computes the byte that stands for a channel.
pub fn quantize_channel(c: i64) -> (r: u8)
    ensures
        r == quantize(c as int),
{
    let f: i64 = clamp_unit(c);
    let wide: i128 = wide_product(f, ONE);
    let root: u64 = isqrt(wide as u128);
    proof {
        assert(wide <= 65536 * 65536) by (nonlinear_arith)
            requires
                wide == f * ONE,
                0 <= f <= ONE,
                ONE == 65536,
        ;
        assert(wide >= 0) by (nonlinear_arith)
            requires
                wide == f * ONE,
                0 <= f <= ONE,
                ONE == 65536,
        ;
        assert(is_isqrt(4294967296nat, 65536nat)) by (nonlinear_arith);
        lemma_isqrt_monotone(wide as nat, root as nat, 4294967296nat, 65536nat);
    }
    let level: u64 = root / 256;
    if level > 255 {
        255
    } else {
        level as u8
    }
}

impl Color {
    /// Whether every channel lies in `[0, ONE]`.
    pub open spec fn wf(&self) -> bool {
        rgb_in_unit(self@)
    }

    /// The colour of no light at all.
    pub fn black() -> (c: Color)
        ensures
            c.wf(),
            c@ == black(),
    {
        Color { r: 0, g: 0, b: 0 }
    }

    /// The colour with the given channels, each limited to `[0, ONE]`.
    pub fn new(r: i64, g: i64, b: i64) -> (c: Color)
        ensures
            c.wf(),
            c.r == clamp_int(r as int, 0, ONE as int),
            c.g == clamp_int(g as int, 0, ONE as int),
            c.b == clamp_int(b as int, 0, ONE as int),
    {
        Color { r: clamp_unit(r), g: clamp_unit(g), b: clamp_unit(b) }
    }

    /// The colour of the sky in a direction.
    pub fn background(direction: Vec3) -> (c: Color)
        requires
            direction.wf(),
        ensures
            c.wf(),
            c@ == background(direction@),
    {
        let unit: Vec3 = direction.normalize();
        let t: i64 = clamp_unit((unit.y + ONE) / 2);
        Color {
            r: blend_channel(HORIZON_R, ZENITH_R, t),
            g: blend_channel(HORIZON_G, ZENITH_G, t),
            b: blend_channel(HORIZON_B, ZENITH_B, t),
        }
    }

    /// What is left of the colour after a bounce.
    pub fn attenuate(self) -> (c: Color)
        requires
            self.wf(),
        ensures
            c.wf(),
            c@ == attenuate(self@),
    {
        proof {
            lemma_attenuate_in_unit(self@);
        }
        Color {
            r: floor_div(wide_product(self.r, REFLECTANCE), ONE as i128) as i64,
            g: floor_div(wide_product(self.g, REFLECTANCE), ONE as i128) as i64,
            b: floor_div(wide_product(self.b, REFLECTANCE), ONE as i128) as i64,
        }
    }

    /// The pixel that stands for the colour: each channel gamma-corrected
    /// and brought to a byte, fully opaque.
    pub fn to_pixel(self) -> (p: Pixel)
        ensures
            p == pixel_of(self@),
    {
        Pixel {
            r: quantize_channel(self.r),
            g: quantize_channel(self.g),
            b: quantize_channel(self.b),
            a: 255,
        }
    }
}

} // verus!

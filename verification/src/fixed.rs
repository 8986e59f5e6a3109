//! Fixed-point scalars: the unit, the range of a coordinate, and the basic
//! total operations on them (clamping, floor division, integer square root).

use vstd::prelude::*;
use vstd::arithmetic::div_mod::lemma_fundamental_div_mod_converse;

verus! {

/// The fixed-point representation of 1.0: a scalar `v` stands for `v / ONE`.
pub const ONE: i64 = 65536;

/// The largest magnitude of a coordinate. Vector operations saturate here.
pub const COORD_MAX: i64 = 1073741824;

/// The largest magnitude of a coordinate of a sphere's center, and the
/// largest radius: half the world, so that a sphere lies wholly within it.
pub const SCENE_MAX: i64 = 536870912;

/// `v` limited to the closed interval from `lo` to `hi`.
pub open spec fn clamp_int(v: int, lo: int, hi: int) -> int {
    if v < lo {
        lo
    } else if v > hi {
        hi
    } else {
        v
    }
}

/// `v` limited to the range of a coordinate.
pub open spec fn clamp_coord_spec(v: int) -> int {
    clamp_int(v, -(COORD_MAX as int), COORD_MAX as int)
}

/// Whether `v` lies in the range of a coordinate.
pub open spec fn in_coord_range(v: int) -> bool {
    -(COORD_MAX as int) <= v <= COORD_MAX as int
}

/// Saturates a wide intermediate value to the range of a coordinate.
pub fn clamp_coord(v: i128) -> (r: i64)
    ensures
        r == clamp_coord_spec(v as int),
        in_coord_range(r as int),
{
    if v < -(COORD_MAX as i128) {
        -COORD_MAX
    } else if v > COORD_MAX as i128 {
        COORD_MAX
    } else {
        v as i64
    }
}

/// `v` limited to the range of a coordinate of a sphere's center.
pub open spec fn clamp_scene_spec(v: int) -> int {
    clamp_int(v, -(SCENE_MAX as int), SCENE_MAX as int)
}

/// Saturates a coordinate to the range of a sphere's center.
pub fn clamp_scene(v: i64) -> (r: i64)
    ensures
        r == clamp_scene_spec(v as int),
        -SCENE_MAX <= r <= SCENE_MAX,
{
    if v < -SCENE_MAX {
        -SCENE_MAX
    } else if v > SCENE_MAX {
        SCENE_MAX
    } else {
        v
    }
}

/// Limits a scalar to the unit interval `[0, ONE]`.
pub fn clamp_unit(v: i64) -> (r: i64)
    ensures
        r == clamp_int(v as int, 0, ONE as int),
        0 <= r <= ONE,
{
    if v < 0 {
        0
    } else if v > ONE {
        ONE
    } else {
        v
    }
}

/// The fixed-point scalar that stands for the whole number `v`: `v * ONE`.
pub fn times_one(v: i128) -> (r: i128)
    requires
        -0x1_0000_0000_0000_0000_0000_0000 <= v <= 0x1_0000_0000_0000_0000_0000_0000,
    ensures
        r == v * (ONE as int),
{
    assert(-0x1_0000_0000_0000_0000_0000_0000_0000 <= v * (ONE as int)
        <= 0x1_0000_0000_0000_0000_0000_0000_0000) by (nonlinear_arith)
        requires
            -0x1_0000_0000_0000_0000_0000_0000 <= v <= 0x1_0000_0000_0000_0000_0000_0000,
            ONE == 65536,
    ;
    v * (ONE as i128)
}

/// The quotient of `n` by a positive `d`, rounded toward minus infinity.
pub fn floor_div(n: i128, d: i128) -> (q: i128)
    requires
        d > 0,
    ensures
        q == (n as int) / (d as int),
{
    if n >= 0 {
        n / d
    } else {
        let m: i128 = -(n + 1);
        let k: i128 = m / d;
        proof {
            let r: int = (m as int) % (d as int);
            assert(m as int == (d as int) * (k as int) + r && 0 <= r < d) by {
                vstd::arithmetic::div_mod::lemma_fundamental_div_mod(m as int, d as int);
                vstd::arithmetic::div_mod::lemma_mod_bound(m as int, d as int);
            }
            assert(n as int == (-(k as int) - 1) * (d as int) + ((d as int) - 1 - r))
                by (nonlinear_arith)
                requires
                    n as int == -(m as int) - 1,
                    m as int == (d as int) * (k as int) + r,
            ;
            lemma_fundamental_div_mod_converse(
                n as int,
                d as int,
                -(k as int) - 1,
                (d as int) - 1 - r,
            );
        }
        -k - 1
    }
}

/// `r` is the integer square root of `n`: the largest natural number whose
/// square does not exceed `n`.
pub open spec fn is_isqrt(n: nat, r: nat) -> bool {
    r * r <= n < (r + 1) * (r + 1)
}

/// The integer square root of `n`.
pub open spec fn isqrt_spec(n: nat) -> nat {
    choose|r: nat| is_isqrt(n, r)
}

/// Squaring is strictly monotone on the natural numbers.
pub proof fn lemma_square_monotone(a: nat, b: nat)
    requires
        a < b,
    ensures
        a * a < b * b,
        (a + 1) * (a + 1) <= b * b,
{
    assert(a * a < b * b && (a + 1) * (a + 1) <= b * b) by (nonlinear_arith)
        requires
            a < b,
    ;
}

/// A number has at most one integer square root, and `isqrt_spec` names it.
pub proof fn lemma_isqrt_unique(n: nat, r: nat)
    requires
        is_isqrt(n, r),
    ensures
        isqrt_spec(n) == r,
{
    let s = isqrt_spec(n);
    if s < r {
        lemma_square_monotone(s, r);
    } else if r < s {
        lemma_square_monotone(r, s);
    }
}

/// Every natural number has an integer square root, and `isqrt_spec` is it.
pub proof fn lemma_isqrt_exists(n: nat)
    ensures
        is_isqrt(n, isqrt_spec(n)),
    decreases n,
{
    if n == 0 {
        assert(is_isqrt(0, 0)) by (nonlinear_arith);
    } else {
        lemma_isqrt_exists((n - 1) as nat);
        let r = isqrt_spec((n - 1) as nat);
        if (r + 1) * (r + 1) <= n {
            assert(n < (r + 2) * (r + 2)) by (nonlinear_arith)
                requires
                    n - 1 < (r + 1) * (r + 1),
            ;
            assert(is_isqrt(n, r + 1));
        } else {
            assert(r * r <= n) by (nonlinear_arith)
                requires
                    r * r <= n - 1,
            ;
            assert(is_isqrt(n, r));
        }
    }
}

/// The integer square root is monotone.
pub proof fn lemma_isqrt_monotone(a: nat, ra: nat, b: nat, rb: nat)
    requires
        is_isqrt(a, ra),
        is_isqrt(b, rb),
        a <= b,
    ensures
        ra <= rb,
{
    if rb < ra {
        lemma_square_monotone(rb, ra);
    }
}

/// Computes the integer square root by bisection.
pub fn isqrt(n: u128) -> (r: u64)
    ensures
        is_isqrt(n as nat, r as nat),
        r == isqrt_spec(n as nat),
{
    let mut lo: u128 = 0;
    let mut hi: u128 = 18446744073709551616;
    assert(hi * hi > n) by (nonlinear_arith)
        requires
            hi == 18446744073709551616,
            n <= u128::MAX,
    ;
    while hi - lo > 1
        invariant
            lo < hi <= 18446744073709551616,
            lo * lo <= n,
            hi * hi > n,
        decreases hi - lo,
    {
        let mid: u128 = lo + (hi - lo) / 2;
        assert(mid * mid < 0x1_0000_0000_0000_0000_0000_0000_0000_0000) by (nonlinear_arith)
            requires
                0 <= mid < 18446744073709551616,
        ;
        if mid * mid <= n {
            lo = mid;
        } else {
            hi = mid;
        }
    }
    proof {
        lemma_isqrt_unique(n as nat, lo as nat);
    }
    lo as u64
}

} // verus!

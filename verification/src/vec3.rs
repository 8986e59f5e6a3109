//! Three-dimensional vectors: the mathematical model over unbounded integers
//! and the machine type whose operations saturate at the edge of the world.

use vstd::prelude::*;
use crate::fixed::{clamp_coord, clamp_coord_spec, floor_div, in_coord_range, is_isqrt, isqrt,
    isqrt_spec, lemma_isqrt_exists, lemma_isqrt_monotone, times_one, COORD_MAX, ONE};

verus! {

/// A vector of the model: three unbounded integers in units of `1 / ONE`.
pub struct Vector {
    pub x: int,
    pub y: int,
    pub z: int,
}

impl Vector {
    /// The componentwise sum.
    pub open spec fn plus(self, o: Vector) -> Vector {
        Vector { x: self.x + o.x, y: self.y + o.y, z: self.z + o.z }
    }

    /// The componentwise difference.
    pub open spec fn minus(self, o: Vector) -> Vector {
        Vector { x: self.x - o.x, y: self.y - o.y, z: self.z - o.z }
    }

    /// The opposite vector.
    pub open spec fn negated(self) -> Vector {
        Vector { x: -self.x, y: -self.y, z: -self.z }
    }

    /// The dot product, in units of `1 / (ONE * ONE)`.
    pub open spec fn dot(self, o: Vector) -> int {
        self.x * o.x + self.y * o.y + self.z * o.z
    }

    /// The squared length, in units of `1 / (ONE * ONE)`.
    pub open spec fn norm_sq(self) -> int {
        self.dot(self)
    }

    /// The length, rounded down.
    pub open spec fn norm(self) -> int {
        isqrt_spec(self.norm_sq() as nat) as int
    }

    /// The product with the fixed-point scalar `k`, each component rounded
    /// toward minus infinity.
    pub open spec fn scaled(self, k: int) -> Vector {
        Vector {
            x: (self.x * k) / (ONE as int),
            y: (self.y * k) / (ONE as int),
            z: (self.z * k) / (ONE as int),
        }
    }

    /// The cross product, brought back to units of `1 / ONE`.
    pub open spec fn cross(self, o: Vector) -> Vector {
        Vector {
            x: (self.y * o.z - self.z * o.y) / (ONE as int),
            y: (self.z * o.x - self.x * o.z) / (ONE as int),
            z: (self.x * o.y - self.y * o.x) / (ONE as int),
        }
    }

    /// Each component limited to the range of a coordinate.
    pub open spec fn saturate(self) -> Vector {
        Vector {
            x: clamp_coord_spec(self.x),
            y: clamp_coord_spec(self.y),
            z: clamp_coord_spec(self.z),
        }
    }

    /// Whether every component lies in the range of a coordinate.
    pub open spec fn in_range(self) -> bool {
        in_coord_range(self.x) && in_coord_range(self.y) && in_coord_range(self.z)
    }

    /// The length in units of `1 / (ONE * ONE)`, rounded down: the length
    /// taken finely enough that the shortest vector has one of `ONE`.
    pub open spec fn fine_norm(self) -> int {
        isqrt_spec((self.norm_sq() * ONE * ONE) as nat) as int
    }

    /// The vector of length `ONE` in the direction of `self`, each component
    /// rounded toward minus infinity; the zero vector has no direction and
    /// is its own normalization.
    pub open spec fn normalized(self) -> Vector {
        if self.norm_sq() == 0 {
            Vector { x: 0, y: 0, z: 0 }
        } else {
            Vector {
                x: (self.x * ONE * ONE) / self.fine_norm(),
                y: (self.y * ONE * ONE) / self.fine_norm(),
                z: (self.z * ONE * ONE) / self.fine_norm(),
            }
        }
    }
}

/// A vector or point of the scene, in fixed-point coordinates.
#[derive(Clone, Copy, Debug, PartialEq, Eq, Structural)]
pub struct Vec3 {
    pub x: i64,
    pub y: i64,
    pub z: i64,
}

impl View for Vec3 {
    type V = Vector;

    open spec fn view(&self) -> Vector {
        Vector { x: self.x as int, y: self.y as int, z: self.z as int }
    }
}

/// A saturated dot product fits a machine word with room to spare.
pub proof fn lemma_dot_bound(a: Vector, b: Vector)
    requires
        a.in_range(),
        b.in_range(),
    ensures
        -3 * (COORD_MAX as int) * (COORD_MAX as int) <= a.dot(b) <= 3 * (COORD_MAX as int) * (
        COORD_MAX as int),
        a.norm_sq() >= 0,
{
    let m = COORD_MAX as int;
    lemma_product_bound(a.x, b.x, m, m);
    lemma_product_bound(a.y, b.y, m, m);
    lemma_product_bound(a.z, b.z, m, m);
    assert(a.x * a.x >= 0 && a.y * a.y >= 0 && a.z * a.z >= 0) by (nonlinear_arith);
}

/// The product of two bounded integers is bounded by the product of the bounds.
pub proof fn lemma_product_bound(a: int, b: int, m: int, n: int)
    requires
        -m <= a <= m,
        -n <= b <= n,
    ensures
        -(m * n) <= a * b <= m * n,
{
    assert(-(m * n) <= a * b <= m * n) by (nonlinear_arith)
        requires
            -m <= a <= m,
            -n <= b <= n,
    ;
}

/// No component of a vector exceeds the vector's length.
pub proof fn lemma_component_within_norm(v: Vector)
    ensures
        -v.norm() <= v.x <= v.norm(),
        -v.norm() <= v.y <= v.norm(),
        -v.norm() <= v.z <= v.norm(),
        v.norm_sq() >= 0,
{
    let n = v.norm_sq();
    assert(n >= v.x * v.x && n >= v.y * v.y && n >= v.z * v.z && v.x * v.x >= 0 && v.y * v.y >= 0
        && v.z * v.z >= 0) by (nonlinear_arith)
        requires
            n == v.x * v.x + v.y * v.y + v.z * v.z,
    ;
    lemma_isqrt_exists(n as nat);
    let r = isqrt_spec(n as nat);
    lemma_magnitude_within_root(v.x, n as nat, r);
    lemma_magnitude_within_root(v.y, n as nat, r);
    lemma_magnitude_within_root(v.z, n as nat, r);
}

/// A number whose square does not exceed `n` does not exceed the integer
/// square root of `n` in magnitude.
pub proof fn lemma_magnitude_within_root(x: int, n: nat, r: nat)
    requires
        x * x <= n,
        is_isqrt(n, r),
    ensures
        -r <= x <= r,
{
    if x > r {
        assert(x * x >= (r + 1) * (r + 1)) by (nonlinear_arith)
            requires
                x >= r + 1,
                r >= 0,
        ;
    } else if x < -r {
        assert(x * x >= (r + 1) * (r + 1)) by (nonlinear_arith)
            requires
                x <= -(r + 1),
                r >= 0,
        ;
    }
}

/// The fine length of a vector that is not zero is at least `ONE`, and no
/// component, taken in the same units, exceeds it.
pub proof fn lemma_fine_norm(v: Vector)
    requires
        v.norm_sq() != 0,
    ensures
        v.norm_sq() > 0,
        v.fine_norm() >= ONE,
        is_isqrt((v.norm_sq() * ONE * ONE) as nat, v.fine_norm() as nat),
        -v.fine_norm() <= v.x * ONE <= v.fine_norm(),
        -v.fine_norm() <= v.y * ONE <= v.fine_norm(),
        -v.fine_norm() <= v.z * ONE <= v.fine_norm(),
{
    let one = ONE as int;
    let n = v.norm_sq();
    let m = n * one * one;
    assert(n >= v.x * v.x && n >= v.y * v.y && n >= v.z * v.z && n >= 1 && m >= one * one && m
        >= (v.x * one) * (v.x * one) && m >= (v.y * one) * (v.y * one) && m >= (v.z * one) * (v.z
        * one)) by (nonlinear_arith)
        requires
            n == v.x * v.x + v.y * v.y + v.z * v.z,
            n != 0,
            m == n * one * one,
            one == 65536,
    ;
    lemma_isqrt_exists(m as nat);
    let len = isqrt_spec(m as nat);
    assert(is_isqrt((one * one) as nat, one as nat)) by (nonlinear_arith)
        requires
            one == 65536,
    ;
    lemma_isqrt_monotone((one * one) as nat, one as nat, m as nat, len);
    lemma_magnitude_within_root(v.x * one, m as nat, len);
    lemma_magnitude_within_root(v.y * one, m as nat, len);
    lemma_magnitude_within_root(v.z * one, m as nat, len);
}

/// Every component of a normalized vector lies between `-ONE` and `ONE`.
pub proof fn lemma_normalized_in_unit_cube(v: Vector)
    ensures
        -ONE <= v.normalized().x <= ONE,
        -ONE <= v.normalized().y <= ONE,
        -ONE <= v.normalized().z <= ONE,
{
    if v.norm_sq() != 0 {
        lemma_fine_norm(v);
        lemma_unit_quotient(v.x * ONE, v.fine_norm());
        lemma_unit_quotient(v.y * ONE, v.fine_norm());
        lemma_unit_quotient(v.z * ONE, v.fine_norm());
    }
}

/// The square of a rounded quotient: for `u` within a length `len` that is
/// at least `ONE`, the quotient of `u * ONE` by `len`, times `len`, squared,
/// differs from the square of `u * ONE` by little.
pub proof fn lemma_rounded_square(u: int, len: int)
    requires
        len >= ONE,
        -len <= u <= len,
    ensures
        (u * u) * (ONE * ONE) - 2 * (ONE * (len * len)) <= (((u * ONE) / len) * ((u * ONE) / len)) * (
        len * len) <= (u * u) * (ONE * ONE) + 2 * (ONE * (len * len)) + len * len,
{
    let one = ONE as int;
    let q = u * one;
    let c = q / len;
    let e = q % len;
    let p = c * len;
    vstd::arithmetic::div_mod::lemma_fundamental_div_mod(q, len);
    vstd::arithmetic::div_mod::lemma_mod_bound(q, len);
    let ue = u * e;
    let ee = e * e;
    let ll = len * len;
    assert(-ll <= ue <= ll && 0 <= ee <= ll) by (nonlinear_arith)
        requires
            ue == u * e,
            ee == e * e,
            ll == len * len,
            -len <= u <= len,
            0 <= e < len,
    ;
    assert(p == q - e) by (nonlinear_arith)
        requires
            q == len * c + e,
            p == c * len,
    ;
    assert(p * p == q * q - 2 * (q * e) + ee) by (nonlinear_arith)
        requires
            p == q - e,
            ee == e * e,
    ;
    assert(p * p == (c * c) * ll) by (nonlinear_arith)
        requires
            p == c * len,
            ll == len * len,
    ;
    assert(q * q == (u * u) * (one * one)) by (nonlinear_arith)
        requires
            q == u * one,
    ;
    assert(q * e == one * ue) by (nonlinear_arith)
        requires
            q == u * one,
            ue == u * e,
    ;
    assert(-(2 * (one * ll)) <= 2 * (one * ue) <= 2 * (one * ll)) by (nonlinear_arith)
        requires
            -ll <= ue <= ll,
            one == 65536,
    ;
    assert((c * c) * ll == (u * u) * (one * one) - 2 * (one * ue) + ee);
    assert((u * u) * (one * one) - 2 * (one * ll) <= (c * c) * ll);
    assert((c * c) * ll <= (u * u) * (one * one) + 2 * (one * ll) + ll);
}

/// A normalized vector has length `ONE` to within four units, whatever the
/// length of the vector it was made from, as long as that was not zero.
pub proof fn lemma_normalized_length(v: Vector)
    requires
        v.norm_sq() != 0,
    ensures
        4294574080 <= v.normalized().norm_sq() <= 4295491587,
        ONE - 4 <= v.normalized().norm() <= ONE + 3,
{
    let one = ONE as int;
    let len = v.fine_norm();
    let m = v.norm_sq() * one * one;
    let c = v.normalized();
    let s = c.norm_sq();
    let ll = len * len;
    lemma_fine_norm(v);
    lemma_rounded_square(v.x * one, len);
    lemma_rounded_square(v.y * one, len);
    lemma_rounded_square(v.z * one, len);
    let ux = (v.x * one) * (v.x * one);
    let uy = (v.y * one) * (v.y * one);
    let uz = (v.z * one) * (v.z * one);
    let k = one * one;
    let px = v.x * v.x;
    let py = v.y * v.y;
    let pz = v.z * v.z;
    assert(ux == px * k) by (nonlinear_arith)
        requires
            ux == (v.x * one) * (v.x * one),
            px == v.x * v.x,
            k == one * one,
    ;
    assert(uy == py * k) by (nonlinear_arith)
        requires
            uy == (v.y * one) * (v.y * one),
            py == v.y * v.y,
            k == one * one,
    ;
    assert(uz == pz * k) by (nonlinear_arith)
        requires
            uz == (v.z * one) * (v.z * one),
            pz == v.z * v.z,
            k == one * one,
    ;
    assert(m == (px + py + pz) * k) by (nonlinear_arith)
        requires
            m == (px + py + pz) * one * one,
            k == one * one,
    ;
    assert((px + py + pz) * k == px * k + py * k + pz * k) by (nonlinear_arith);
    assert(ux + uy + uz == m);
    assert(c.x == ((v.x * one) * one) / len);
    assert(c.y == ((v.y * one) * one) / len);
    assert(c.z == ((v.z * one) * one) / len);
    let sx = (c.x * c.x) * ll;
    let sy = (c.y * c.y) * ll;
    let sz = (c.z * c.z) * ll;
    assert(s * ll == sx + sy + sz) by (nonlinear_arith)
        requires
            s == c.x * c.x + c.y * c.y + c.z * c.z,
            sx == (c.x * c.x) * ll,
            sy == (c.y * c.y) * ll,
            sz == (c.z * c.z) * ll,
    ;
    assert(ux * k + uy * k + uz * k == m * k) by (nonlinear_arith)
        requires
            ux + uy + uz == m,
    ;
    assert(m * k >= ll * k && m * k <= ll * k + 2 * (one * ll)) by (nonlinear_arith)
        requires
            ll == len * len,
            ll <= m < (len + 1) * (len + 1),
            len >= one,
            k == one * one,
            one == 65536,
    ;
    assert(ux * k - 2 * (one * ll) <= sx <= ux * k + 2 * (one * ll) + ll);
    assert(uy * k - 2 * (one * ll) <= sy <= uy * k + 2 * (one * ll) + ll);
    assert(uz * k - 2 * (one * ll) <= sz <= uz * k + 2 * (one * ll) + ll);
    assert(ll * k - 6 * (one * ll) <= s * ll <= ll * k + 8 * (one * ll) + 3 * ll);
    assert(4294574080 <= s <= 4295491587) by (nonlinear_arith)
        requires
            ll * k - 6 * (one * ll) <= s * ll <= ll * k + 8 * (one * ll) + 3 * ll,
            ll >= 1,
            k == 4294967296,
            one == 65536,
    ;
    lemma_isqrt_exists(s as nat);
    let r = isqrt_spec(s as nat);
    assert((one - 4) * (one - 4) <= 4294574080) by (nonlinear_arith)
        requires
            one == 65536,
    ;
    lemma_magnitude_within_root(one - 4, s as nat, r);
    if r >= one + 4 {
        assert(r * r >= 4295491600) by (nonlinear_arith)
            requires
                r >= one + 4,
                one == 65536,
        ;
    }
}

/// The quotient of `x * ONE` by a length that `x` does not exceed in
/// magnitude lies between `-ONE` and `ONE`.
pub proof fn lemma_unit_quotient(x: int, len: int)
    requires
        len > 0,
        -len <= x <= len,
    ensures
        -ONE <= (x * ONE) / len <= ONE,
{
    let one = ONE as int;
    assert(len * (-one) <= x * one <= len * one) by (nonlinear_arith)
        requires
            -len <= x <= len,
            one == 65536,
    ;
    vstd::arithmetic::div_mod::lemma_div_is_ordered(len * (-one), x * one, len);
    vstd::arithmetic::div_mod::lemma_div_is_ordered(x * one, len * one, len);
    vstd::arithmetic::div_mod::lemma_div_multiples_vanish(one, len);
    vstd::arithmetic::div_mod::lemma_div_multiples_vanish(-one, len);
}

impl Vec3 {
    /// Whether every coordinate lies within the world.
    pub open spec fn wf(&self) -> bool {
        self@.in_range()
    }

    /// Tells whether every coordinate lies within the world.
    pub fn is_wf(&self) -> (b: bool)
        ensures
            b == self.wf(),
    {
        -COORD_MAX <= self.x && self.x <= COORD_MAX && -COORD_MAX <= self.y && self.y <= COORD_MAX
            && -COORD_MAX <= self.z && self.z <= COORD_MAX
    }

    /// The vector with the given coordinates, each saturated to the world.
    pub fn new(x: i64, y: i64, z: i64) -> (r: Vec3)
        ensures
            r.wf(),
            r@ == (Vector { x: x as int, y: y as int, z: z as int }).saturate(),
    {
        Vec3 { x: clamp_coord(x as i128), y: clamp_coord(y as i128), z: clamp_coord(z as i128) }
    }

    /// The zero vector.
    pub fn zero() -> (r: Vec3)
        ensures
            r.wf(),
            r@ == (Vector { x: 0, y: 0, z: 0 }),
    {
        Vec3 { x: 0, y: 0, z: 0 }
    }

    /// The saturated sum of two vectors.
    pub fn plus(self, o: Vec3) -> (r: Vec3)
        ensures
            r.wf(),
            r@ == self@.plus(o@).saturate(),
    {
        Vec3 {
            x: clamp_coord(self.x as i128 + o.x as i128),
            y: clamp_coord(self.y as i128 + o.y as i128),
            z: clamp_coord(self.z as i128 + o.z as i128),
        }
    }

    /// The saturated difference of two vectors.
    pub fn minus(self, o: Vec3) -> (r: Vec3)
        ensures
            r.wf(),
            r@ == self@.minus(o@).saturate(),
    {
        Vec3 {
            x: clamp_coord(self.x as i128 - o.x as i128),
            y: clamp_coord(self.y as i128 - o.y as i128),
            z: clamp_coord(self.z as i128 - o.z as i128),
        }
    }

    /// The opposite vector.
    pub fn negate(self) -> (r: Vec3)
        requires
            self.wf(),
        ensures
            r.wf(),
            r@ == self@.negated(),
    {
        Vec3 { x: -self.x, y: -self.y, z: -self.z }
    }

    /// The saturated product with the fixed-point scalar `k`.
    pub fn scale(self, k: i64) -> (r: Vec3)
        ensures
            r.wf(),
            r@ == self@.scaled(k as int).saturate(),
    {
        Vec3 {
            x: clamp_coord(floor_div(wide_product(self.x, k), ONE as i128)),
            y: clamp_coord(floor_div(wide_product(self.y, k), ONE as i128)),
            z: clamp_coord(floor_div(wide_product(self.z, k), ONE as i128)),
        }
    }

    /// The exact dot product, in units of `1 / (ONE * ONE)`.
    pub fn dot(self, o: Vec3) -> (r: i64)
        requires
            self.wf(),
            o.wf(),
        ensures
            r == self@.dot(o@),
    {
        proof {
            lemma_dot_bound(self@, o@);
            lemma_product_bound(self.x as int, o.x as int, COORD_MAX as int, COORD_MAX as int);
            lemma_product_bound(self.y as int, o.y as int, COORD_MAX as int, COORD_MAX as int);
            lemma_product_bound(self.z as int, o.z as int, COORD_MAX as int, COORD_MAX as int);
        }
        self.x * o.x + self.y * o.y + self.z * o.z
    }

    /// The exact squared length, in units of `1 / (ONE * ONE)`.
    pub fn length_squared(self) -> (r: i64)
        requires
            self.wf(),
        ensures
            r == self@.norm_sq(),
            r >= 0,
    {
        proof {
            lemma_dot_bound(self@, self@);
        }
        self.dot(self)
    }

    /// The length, rounded down.
    pub fn length(self) -> (r: i64)
        requires
            self.wf(),
        ensures
            r == self@.norm(),
            is_isqrt(self@.norm_sq() as nat, r as nat),
            0 <= r <= 2 * COORD_MAX,
    {
        let sq: i64 = self.length_squared();
        let root: u64 = isqrt(sq as u128);
        proof {
            lemma_dot_bound(self@, self@);
            let top: nat = 4 * (COORD_MAX as nat) * (COORD_MAX as nat);
            assert(is_isqrt(top, 2 * (COORD_MAX as nat))) by (nonlinear_arith)
                requires
                    top == 4 * (COORD_MAX as nat) * (COORD_MAX as nat),
            ;
            lemma_isqrt_monotone(sq as nat, root as nat, top, 2 * (COORD_MAX as nat));
        }
        root as i64
    }

    /// The saturated cross product.
    pub fn cross(self, o: Vec3) -> (r: Vec3)
        requires
            self.wf(),
            o.wf(),
        ensures
            r.wf(),
            r@ == self@.cross(o@).saturate(),
    {
        proof {
            let m = COORD_MAX as int;
            lemma_product_bound(self.y as int, o.z as int, m, m);
            lemma_product_bound(self.z as int, o.y as int, m, m);
            lemma_product_bound(self.z as int, o.x as int, m, m);
            lemma_product_bound(self.x as int, o.z as int, m, m);
            lemma_product_bound(self.x as int, o.y as int, m, m);
            lemma_product_bound(self.y as int, o.x as int, m, m);
        }
        let x: i128 = wide_product(self.y, o.z) - wide_product(self.z, o.y);
        let y: i128 = wide_product(self.z, o.x) - wide_product(self.x, o.z);
        let z: i128 = wide_product(self.x, o.y) - wide_product(self.y, o.x);
        Vec3 {
            x: clamp_coord(floor_div(x, ONE as i128)),
            y: clamp_coord(floor_div(y, ONE as i128)),
            z: clamp_coord(floor_div(z, ONE as i128)),
        }
    }

    /// The vector of length `ONE` in the same direction, to within a few
    /// units. The zero vector gives the zero vector.
    pub fn normalize(self) -> (r: Vec3)
        requires
            self.wf(),
        ensures
            r.wf(),
            r@ == self@.normalized(),
    {
        let n: i64 = self.length_squared();
        if n == 0 {
            return Vec3::zero();
        }
        proof {
            lemma_dot_bound(self@, self@);
            lemma_fine_norm(self@);
            lemma_normalized_in_unit_cube(self@);
        }
        let fine: i128 = isqrt(times_one(times_one(n as i128)) as u128) as i128;
        Vec3 {
            x: floor_div(times_one(times_one(self.x as i128)), fine) as i64,
            y: floor_div(times_one(times_one(self.y as i128)), fine) as i64,
            z: floor_div(times_one(times_one(self.z as i128)), fine) as i64,
        }
    }
}

/// The exact product of two machine words.
pub fn wide_product(a: i64, b: i64) -> (r: i128)
    ensures
        r == (a as int) * (b as int),
        -0x4000_0000_0000_0000_0000_0000_0000_0000 <= r <= 0x4000_0000_0000_0000_0000_0000_0000_0000,
{
    proof {
        lemma_product_bound(
            a as int,
            b as int,
            0x8000_0000_0000_0000,
            0x8000_0000_0000_0000,
        );
        assert(0x8000_0000_0000_0000int * 0x8000_0000_0000_0000int
            == 0x4000_0000_0000_0000_0000_0000_0000_0000int) by (nonlinear_arith);
    }
    (a as i128) * (b as i128)
}

} // verus!

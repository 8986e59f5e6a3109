//! Spheres and the intersection of a ray with one.
//!
//! A point `origin + s * direction` lies on the sphere where
//! `a * s^2 + 2 * half_b * s + c == 0`, with `a` the squared length of the
//! direction, `half_b` the dot product of `origin - center` with the
//! direction, and `c` the squared length of `origin - center` less the
//! squared radius. The roots are `(-half_b - root) / a` and
//! `(-half_b + root) / a`, with `root` the square root of
//! `half_b^2 - a * c`. The point of a hit is taken from the numerator of its
//! root, before the division, so that it does not move with the length of the
//! direction. A sphere whose radius is not positive is never hit.

use vstd::prelude::*;
use crate::fixed::{clamp_coord, clamp_scene, clamp_scene_spec, floor_div, isqrt, isqrt_spec,
    times_one, ONE, SCENE_MAX};
use crate::ray::{Ray, RayModel};
use crate::vec3::{lemma_dot_bound, lemma_product_bound, Vec3, Vector};

verus! {

/// What is known of the surface where a ray meets it, in the model.
pub struct SurfaceModel {
    pub t: int,
    pub point: Vector,
    pub normal: Vector,
    pub front_face: bool,
}

/// A sphere of the model.
pub struct SphereModel {
    pub center: Vector,
    pub radius: int,
}

impl SphereModel {
    /// The vector from the center to the ray's origin.
    pub open spec fn offset(self, ray: RayModel) -> Vector {
        ray.origin.minus(self.center)
    }

    /// The quadratic's leading coefficient.
    pub open spec fn quad_a(self, ray: RayModel) -> int {
        ray.direction.norm_sq()
    }

    /// Half of the quadratic's linear coefficient.
    pub open spec fn quad_half_b(self, ray: RayModel) -> int {
        self.offset(ray).dot(ray.direction)
    }

    /// The quadratic's constant coefficient.
    pub open spec fn quad_c(self, ray: RayModel) -> int {
        self.offset(ray).norm_sq() - self.radius * self.radius
    }

    /// A quarter of the quadratic's discriminant.
    pub open spec fn discriminant(self, ray: RayModel) -> int {
        self.quad_half_b(ray) * self.quad_half_b(ray) - self.quad_a(ray) * self.quad_c(ray)
    }

    /// Whether the line of the ray meets the sphere at all: the radius is
    /// positive, the direction is not zero, and the roots are real.
    pub open spec fn meets(self, ray: RayModel) -> bool {
        self.radius > 0 && self.quad_a(ray) > 0 && self.discriminant(ray) >= 0
    }

    /// The square root of the quarter discriminant, rounded down.
    pub open spec fn root(self, ray: RayModel) -> int {
        isqrt_spec(self.discriminant(ray) as nat) as int
    }

    /// The numerator of the smaller root.
    pub open spec fn near_numerator(self, ray: RayModel) -> int {
        -self.quad_half_b(ray) - self.root(ray)
    }

    /// The numerator of the larger root.
    pub open spec fn far_numerator(self, ray: RayModel) -> int {
        -self.quad_half_b(ray) + self.root(ray)
    }

    /// The fixed-point ray parameter of the root with the given numerator,
    /// rounded down.
    pub open spec fn param(self, ray: RayModel, numerator: int) -> int {
        (numerator * ONE) / self.quad_a(ray)
    }

    /// The smaller root, as a fixed-point ray parameter rounded down.
    pub open spec fn near_root(self, ray: RayModel) -> int {
        self.param(ray, self.near_numerator(ray))
    }

    /// The larger root, as a fixed-point ray parameter rounded down.
    pub open spec fn far_root(self, ray: RayModel) -> int {
        self.param(ray, self.far_numerator(ray))
    }

    /// The numerator of the root at which the ray enters the open interval
    /// from `t_min` to `t_max` on the sphere's surface: that of the smaller
    /// root where its parameter lies in the interval, else that of the
    /// larger root where that one's does.
    pub open spec fn hit_numerator(self, ray: RayModel, t_min: int, t_max: int) -> Option<int> {
        if !self.meets(ray) {
            None
        } else if t_min < self.near_root(ray) < t_max {
            Some(self.near_numerator(ray))
        } else if t_min < self.far_root(ray) < t_max {
            Some(self.far_numerator(ray))
        } else {
            None
        }
    }

    /// The quadratic's leading coefficient times the vector from the center
    /// to the point of the ray at the root with the given numerator. It is
    /// exact: nothing has been divided yet.
    pub open spec fn scaled_radial(self, ray: RayModel, numerator: int) -> Vector {
        let a = self.quad_a(ray);
        let oc = self.offset(ray);
        let d = ray.direction;
        Vector {
            x: a * oc.x + d.x * numerator,
            y: a * oc.y + d.y * numerator,
            z: a * oc.z + d.z * numerator,
        }
    }

    /// The vector from the center to the point of the hit: the exact one
    /// divided by the leading coefficient, each coordinate rounded once,
    /// toward minus infinity.
    pub open spec fn radial(self, ray: RayModel, numerator: int) -> Vector {
        let a = self.quad_a(ray);
        let w = self.scaled_radial(ray, numerator);
        Vector { x: w.x / a, y: w.y / a, z: w.z / a }
    }

    /// Whether the ray approaches the center where it meets the surface at
    /// the root with the given numerator: the dot product of the direction
    /// with the exact vector from the center to the point is negative.
    pub open spec fn approaches(self, ray: RayModel, numerator: int) -> bool {
        self.quad_half_b(ray) + numerator < 0
    }

    /// The normal where the vector from the center to the point of a hit is
    /// `radial`: the unit vector along it where the ray comes from outside,
    /// else its opposite. On a sphere so small that the point of the hit is
    /// the center itself, the normal is the unit vector against the ray.
    pub open spec fn normal_at(ray: RayModel, radial: Vector, front_face: bool) -> Vector {
        if radial == (Vector { x: 0, y: 0, z: 0 }) {
            ray.direction.negated().normalized()
        } else if front_face {
            radial.normalized()
        } else {
            radial.normalized().negated()
        }
    }

    /// The surface at the root with the given numerator.
    pub open spec fn surface(self, ray: RayModel, numerator: int) -> SurfaceModel {
        let radial = self.radial(ray, numerator).saturate();
        let front_face = self.approaches(ray, numerator);
        SurfaceModel {
            t: self.param(ray, numerator),
            point: self.center.plus(radial).saturate(),
            normal: SphereModel::normal_at(ray, radial, front_face),
            front_face,
        }
    }

    /// The intersection of the ray with the sphere within the open interval
    /// from `t_min` to `t_max`, if there is one.
    pub open spec fn hit(self, ray: RayModel, t_min: int, t_max: int) -> Option<SurfaceModel> {
        match self.hit_numerator(ray, t_min, t_max) {
            Some(n) => Some(self.surface(ray, n)),
            None => None,
        }
    }

    /// Whether the sphere lies within the world: its center within half the
    /// world in every coordinate, its radius no more than that.
    pub open spec fn in_scene(self) -> bool {
        &&& -SCENE_MAX <= self.center.x <= SCENE_MAX
        &&& -SCENE_MAX <= self.center.y <= SCENE_MAX
        &&& -SCENE_MAX <= self.center.z <= SCENE_MAX
        &&& self.radius <= SCENE_MAX
    }
}

/// The surface where a ray meets a primitive.
#[derive(Clone, Copy, Debug, PartialEq, Eq, Structural)]
pub struct Intersection {
    /// The ray parameter of the hit, in multiples of the ray's direction,
    /// rounded down. Hits are compared, and held against an interval, by it.
    pub t: i64,
    /// The point of the hit. It is taken from the root before the ray
    /// parameter is rounded, and does not move with the direction's length.
    pub point: Vec3,
    /// The surface normal, of length `ONE` to within four units: along the
    /// line from the center of the primitive through the point, toward the
    /// side that the ray came from.
    pub normal: Vec3,
    /// Whether the ray came from outside the surface.
    pub front_face: bool,
}

impl View for Intersection {
    type V = SurfaceModel;

    open spec fn view(&self) -> SurfaceModel {
        SurfaceModel {
            t: self.t as int,
            point: self.point@,
            normal: self.normal@,
            front_face: self.front_face,
        }
    }
}

impl Intersection {
    /// Whether point and normal lie within the world.
    pub open spec fn wf(&self) -> bool {
        self.point.wf() && self.normal.wf()
    }
}

/// A sphere of the scene.
#[derive(Clone, Copy, Debug, PartialEq, Eq, Structural)]
pub struct Sphere {
    pub center: Vec3,
    pub radius: i64,
}

impl View for Sphere {
    type V = SphereModel;

    open spec fn view(&self) -> SphereModel {
        SphereModel { center: self.center@, radius: self.radius as int }
    }
}

impl Sphere {
    /// Whether the sphere lies within the world.
    pub open spec fn wf(&self) -> bool {
        self@.in_scene()
    }

    /// Tells whether the sphere lies within the world.
    pub fn is_wf(&self) -> (b: bool)
        ensures
            b == self.wf(),
    {
        -SCENE_MAX <= self.center.x && self.center.x <= SCENE_MAX && -SCENE_MAX <= self.center.y
            && self.center.y <= SCENE_MAX && -SCENE_MAX <= self.center.z && self.center.z
            <= SCENE_MAX && self.radius <= SCENE_MAX
    }

    /// The sphere round `center` with the given radius, the center's
    /// coordinates and the radius saturated to half the world. A radius
    /// that is not positive is kept: such a sphere is part of the scene and
    /// is never hit.
    pub fn new(center: Vec3, radius: i64) -> (s: Sphere)
        ensures
            s.wf(),
            s.center.x == clamp_scene_spec(center.x as int),
            s.center.y == clamp_scene_spec(center.y as int),
            s.center.z == clamp_scene_spec(center.z as int),
            s.radius == if radius > SCENE_MAX {
                SCENE_MAX
            } else {
                radius
            },
    {
        Sphere {
            center: Vec3 {
                x: clamp_scene(center.x),
                y: clamp_scene(center.y),
                z: clamp_scene(center.z),
            },
            radius: if radius > SCENE_MAX {
                SCENE_MAX
            } else {
                radius
            },
        }
    }

    /// The surface of the sphere at the root of the ray's quadratic that
    /// has the given numerator and parameter.
    pub fn surface_at(&self, ray: &Ray, numerator: i128, t: i64) -> (h: Intersection)
        requires
            self.wf(),
            ray.wf(),
            self@.quad_a(ray@) > 0,
            -0x2_0000_0000_0000_0000 <= numerator <= 0x2_0000_0000_0000_0000,
            t == self@.param(ray@, numerator as int),
        ensures
            h.wf(),
            h@ == self@.surface(ray@, numerator as int),
    {
        let a: i128 = ray.direction.length_squared() as i128;
        let ocx: i128 = ray.origin.x as i128 - self.center.x as i128;
        let ocy: i128 = ray.origin.y as i128 - self.center.y as i128;
        let ocz: i128 = ray.origin.z as i128 - self.center.z as i128;
        let dx: i128 = ray.direction.x as i128;
        let dy: i128 = ray.direction.y as i128;
        let dz: i128 = ray.direction.z as i128;
        proof {
            lemma_dot_bound(ray.direction@, ray.direction@);
            lemma_product_bound(a as int, ocx as int, 0x3000_0000_0000_0000, 0x6000_0000);
            lemma_product_bound(a as int, ocy as int, 0x3000_0000_0000_0000, 0x6000_0000);
            lemma_product_bound(a as int, ocz as int, 0x3000_0000_0000_0000, 0x6000_0000);
            lemma_product_bound(dx as int, numerator as int, 0x4000_0000, 0x2_0000_0000_0000_0000);
            lemma_product_bound(dy as int, numerator as int, 0x4000_0000, 0x2_0000_0000_0000_0000);
            lemma_product_bound(dz as int, numerator as int, 0x4000_0000, 0x2_0000_0000_0000_0000);
            lemma_product_bound(ocx as int, dx as int, 0x6000_0000, 0x4000_0000);
            lemma_product_bound(ocy as int, dy as int, 0x6000_0000, 0x4000_0000);
            lemma_product_bound(ocz as int, dz as int, 0x6000_0000, 0x4000_0000);
        }
        let radial: Vec3 = Vec3 {
            x: clamp_coord(floor_div(a * ocx + dx * numerator, a)),
            y: clamp_coord(floor_div(a * ocy + dy * numerator, a)),
            z: clamp_coord(floor_div(a * ocz + dz * numerator, a)),
        };
        let half_b: i128 = ocx * dx + ocy * dy + ocz * dz;
        let front_face: bool = half_b + numerator < 0;
        let normal: Vec3 = if radial.x == 0 && radial.y == 0 && radial.z == 0 {
            ray.direction.negate().normalize()
        } else if front_face {
            radial.normalize()
        } else {
            proof {
                crate::vec3::lemma_normalized_in_unit_cube(radial@);
            }
            radial.normalize().negate()
        };
        Intersection { t, point: self.center.plus(radial), normal, front_face }
    }

    /// The nearest point within the open interval from `t_min` to `t_max` at
    /// which the ray meets the sphere, if there is one.
    pub fn hit(&self, ray: &Ray, t_min: i64, t_max: i64) -> (r: Option<Intersection>)
        requires
            self.wf(),
            ray.wf(),
        ensures
            match r {
                Some(h) => h.wf() && self@.hit(ray@, t_min as int, t_max as int) == Some(h@),
                None => self@.hit(ray@, t_min as int, t_max as int) is None,
            },
            r matches Some(h) ==> {
                let q = h.point@.minus(self.center@);
                &&& t_min < h.t < t_max
                &&& self.radius * self.radius - 8 * self.radius - 3 <= q.norm_sq() <= self.radius
                    * self.radius + 6 * self.radius
                &&& h.normal@ == SphereModel::normal_at(ray@, q, h.front_face)
                &&& ONE - 4 <= h.normal@.norm() <= ONE + 3
            },
    {
        proof {
            if self@.hit(ray@, t_min as int, t_max as int) is Some {
                lemma_hit_on_sphere(self@, ray@, t_min as int, t_max as int);
                lemma_hit_in_range(self@, ray@, t_min as int, t_max as int);
            }
        }
        if self.radius <= 0 {
            return None;
        }
        let a: i64 = ray.direction.length_squared();
        if a == 0 {
            return None;
        }
        let ocx: i128 = ray.origin.x as i128 - self.center.x as i128;
        let ocy: i128 = ray.origin.y as i128 - self.center.y as i128;
        let ocz: i128 = ray.origin.z as i128 - self.center.z as i128;
        let dx: i128 = ray.direction.x as i128;
        let dy: i128 = ray.direction.y as i128;
        let dz: i128 = ray.direction.z as i128;
        let rad: i128 = self.radius as i128;
        proof {
            lemma_product_bound(ocx as int, dx as int, 0x8000_0000, 0x4000_0000);
            lemma_product_bound(ocy as int, dy as int, 0x8000_0000, 0x4000_0000);
            lemma_product_bound(ocz as int, dz as int, 0x8000_0000, 0x4000_0000);
            lemma_product_bound(ocx as int, ocx as int, 0x8000_0000, 0x8000_0000);
            lemma_product_bound(ocy as int, ocy as int, 0x8000_0000, 0x8000_0000);
            lemma_product_bound(ocz as int, ocz as int, 0x8000_0000, 0x8000_0000);
            lemma_product_bound(rad as int, rad as int, 0x4000_0000, 0x4000_0000);
            lemma_dot_bound(ray.direction@, ray.direction@);
            assert(ocx * ocx >= 0 && ocy * ocy >= 0 && ocz * ocz >= 0 && rad * rad >= 0)
                by (nonlinear_arith);
        }
        let half_b: i128 = ocx * dx + ocy * dy + ocz * dz;
        let c: i128 = ocx * ocx + ocy * ocy + ocz * ocz - rad * rad;
        proof {
            lemma_product_bound(
                half_b as int,
                half_b as int,
                0x6000_0000_0000_0000,
                0x6000_0000_0000_0000,
            );
            lemma_product_bound(a as int, c as int, 0x3000_0000_0000_0000, 0xc000_0000_0000_0000);
        }
        let disc: i128 = half_b * half_b - (a as i128) * c;
        if disc < 0 {
            return None;
        }
        let root: i128 = isqrt(disc as u128) as i128;
        let near_n: i128 = -half_b - root;
        let far_n: i128 = -half_b + root;
        let near: i128 = floor_div(times_one(near_n), a as i128);
        let far: i128 = floor_div(times_one(far_n), a as i128);
        if (t_min as i128) < near && near < (t_max as i128) {
            Some(self.surface_at(ray, near_n, near as i64))
        } else if (t_min as i128) < far && far < (t_max as i128) {
            Some(self.surface_at(ray, far_n, far as i64))
        } else {
            None
        }
    }
}

/// A sphere whose radius is not positive is hit by no ray.
pub proof fn lemma_flat_sphere_never_hit(s: SphereModel, ray: RayModel, t_min: int, t_max: int)
    requires
        s.radius <= 0,
    ensures
        s.hit(ray, t_min, t_max) is None,
{
}

/// A hit lies strictly inside the interval that was asked for, at one of the
/// two roots, and the nearer root is taken where it lies in the interval.
pub proof fn lemma_hit_in_range(s: SphereModel, ray: RayModel, t_min: int, t_max: int)
    requires
        s.hit(ray, t_min, t_max) is Some,
    ensures
        t_min < s.hit(ray, t_min, t_max)->0.t < t_max,
        s.hit(ray, t_min, t_max)->0.t == s.near_root(ray) || s.hit(ray, t_min, t_max)->0.t
            == s.far_root(ray),
        t_min < s.near_root(ray) < t_max ==> s.hit(ray, t_min, t_max)->0.t == s.near_root(ray),
        s.near_root(ray) <= s.far_root(ray),
{
    let a = s.quad_a(ray);
    let lo = s.near_numerator(ray) * (ONE as int);
    let hi = s.far_numerator(ray) * (ONE as int);
    assert(lo <= hi) by (nonlinear_arith)
        requires
            lo == (-s.quad_half_b(ray) - s.root(ray)) * (ONE as int),
            hi == (-s.quad_half_b(ray) + s.root(ray)) * (ONE as int),
            s.root(ray) >= 0,
            ONE == 65536,
    ;
    vstd::arithmetic::div_mod::lemma_div_is_ordered(lo, hi, a);
}

/// The square of one coordinate of the exact radial vector, multiplied out.
pub proof fn lemma_component_square(a: int, o: int, d: int, n: int)
    ensures
        (a * o + d * n) * (a * o + d * n) == a * (a * (o * o)) + 2 * (a * (n * (o * d))) + (n * n)
            * (d * d),
{
    let p = a * o;
    let q = d * n;
    assert((p + q) * (p + q) == p * p + 2 * (p * q) + q * q) by (nonlinear_arith);
    let oo = o * o;
    let od = o * d;
    assert(p * p == a * (a * oo)) by (nonlinear_arith)
        requires
            p == a * o,
            oo == o * o,
    ;
    let nod = n * od;
    assert(p * q == a * nod) by (nonlinear_arith)
        requires
            p == a * o,
            q == d * n,
            nod == n * (o * d),
    ;
    assert(q * q == (n * n) * (d * d)) by (nonlinear_arith)
        requires
            q == d * n,
    ;
}

/// The squared length of the exact radial vector at any numerator `n`: the
/// leading coefficient times the value of `a * |offset|^2 + 2 * n * half_b +
/// n^2`.
pub proof fn lemma_scaled_radial_norm(s: SphereModel, ray: RayModel, n: int)
    ensures
        s.scaled_radial(ray, n).norm_sq() == s.quad_a(ray) * (s.quad_a(ray) * s.offset(
            ray,
        ).norm_sq() + 2 * (n * s.quad_half_b(ray)) + n * n),
{
    let a = s.quad_a(ray);
    let oc = s.offset(ray);
    let d = ray.direction;
    lemma_component_square(a, oc.x, d.x, n);
    lemma_component_square(a, oc.y, d.y, n);
    lemma_component_square(a, oc.z, d.z, n);
    let p1 = oc.x * oc.x;
    let p2 = oc.y * oc.y;
    let p3 = oc.z * oc.z;
    let r1 = oc.x * d.x;
    let r2 = oc.y * d.y;
    let r3 = oc.z * d.z;
    let d1 = d.x * d.x;
    let d2 = d.y * d.y;
    let d3 = d.z * d.z;
    let nn = n * n;
    let t1 = a * p1;
    let t2 = a * p2;
    let t3 = a * p3;
    let u1 = n * r1;
    let u2 = n * r2;
    let u3 = n * r3;
    assert(a * (p1 + p2 + p3) == t1 + t2 + t3) by (nonlinear_arith)
        requires
            t1 == a * p1,
            t2 == a * p2,
            t3 == a * p3,
    ;
    assert(n * (r1 + r2 + r3) == u1 + u2 + u3) by (nonlinear_arith)
        requires
            u1 == n * r1,
            u2 == n * r2,
            u3 == n * r3,
    ;
    assert(nn * a == nn * d1 + nn * d2 + nn * d3) by (nonlinear_arith)
        requires
            a == d1 + d2 + d3,
    ;
    assert(a * (t1 + t2 + t3 + 2 * (u1 + u2 + u3) + nn) == a * t1 + a * t2 + a * t3 + 2 * (a * u1)
        + 2 * (a * u2) + 2 * (a * u3) + nn * a) by (nonlinear_arith);
}

/// The Cauchy-Schwarz inequality for the offset and the direction, and what
/// it means for the discriminant: it is at most `a * radius^2`.
pub proof fn lemma_discriminant_bound(s: SphereModel, ray: RayModel)
    requires
        s.quad_a(ray) > 0,
    ensures
        s.quad_half_b(ray) * s.quad_half_b(ray) <= s.quad_a(ray) * s.offset(ray).norm_sq(),
        s.discriminant(ray) <= s.quad_a(ray) * (s.radius * s.radius),
{
    let a = s.quad_a(ray);
    let hb = s.quad_half_b(ray);
    let oo = s.offset(ray).norm_sq();
    let rr = s.radius * s.radius;
    let w = s.scaled_radial(ray, -hb);
    lemma_scaled_radial_norm(s, ray, -hb);
    assert(w.norm_sq() >= 0) by (nonlinear_arith)
        requires
            w.norm_sq() == w.x * w.x + w.y * w.y + w.z * w.z,
    ;
    assert(a * oo - hb * hb >= 0 && hb * hb - a * (oo - rr) <= a * rr) by (nonlinear_arith)
        requires
            a * (a * oo + 2 * ((-hb) * hb) + (-hb) * (-hb)) >= 0,
            a > 0,
    ;
}

/// The exact radial vector at a root of the quadratic has the length of the
/// radius, multiplied by the leading coefficient, but for what the square
/// root lost in rounding.
pub proof fn lemma_scaled_radial_on_sphere(s: SphereModel, ray: RayModel, n: int)
    requires
        s.meets(ray),
        n == s.near_numerator(ray) || n == s.far_numerator(ray),
    ensures
        s.scaled_radial(ray, n).norm_sq() == (s.quad_a(ray) * s.quad_a(ray)) * (s.radius
            * s.radius) - s.quad_a(ray) * (s.discriminant(ray) - s.root(ray) * s.root(ray)),
        0 <= s.discriminant(ray) - s.root(ray) * s.root(ray) <= 2 * s.root(ray),
        0 <= s.root(ray) <= s.quad_a(ray) * s.radius,
{
    let a = s.quad_a(ray);
    let hb = s.quad_half_b(ray);
    let oo = s.offset(ray).norm_sq();
    let rr = s.radius * s.radius;
    let disc = s.discriminant(ray);
    let root = s.root(ray);
    lemma_scaled_radial_norm(s, ray, n);
    crate::fixed::lemma_isqrt_exists(disc as nat);
    assert(n * n + 2 * (n * hb) == root * root - hb * hb) by (nonlinear_arith)
        requires
            n == -hb - root || n == -hb + root,
    ;
    assert(a * (a * oo + 2 * (n * hb) + n * n) == (a * a) * rr - a * (disc - root * root))
        by (nonlinear_arith)
        requires
            n * n + 2 * (n * hb) == root * root - hb * hb,
            disc == hb * hb - a * (oo - rr),
    ;
    assert(disc - root * root <= 2 * root) by (nonlinear_arith)
        requires
            disc < (root + 1) * (root + 1),
    ;
    lemma_discriminant_bound(s, ray);
    let ar = a * s.radius;
    assert(root * root <= ar * ar) by (nonlinear_arith)
        requires
            root * root <= disc,
            disc <= a * rr,
            rr == s.radius * s.radius,
            ar == a * s.radius,
            a >= 1,
            s.radius >= 1,
    ;
    assert(ar >= 0) by (nonlinear_arith)
        requires
            ar == a * s.radius,
            a >= 1,
            s.radius >= 1,
    ;
    if root > ar {
        assert(root * root > ar * ar) by (nonlinear_arith)
            requires
                root > ar,
                ar >= 0,
        ;
    }
}

/// A number whose square does not exceed the square of a bound that is not
/// negative lies within the bound.
pub proof fn lemma_within_bound(x: int, rest: int, bound: int)
    requires
        x * x + rest <= bound * bound,
        rest >= 0,
        bound >= 0,
    ensures
        -bound <= x <= bound,
{
    if x > bound {
        assert(x * x > bound * bound) by (nonlinear_arith)
            requires
                x > bound,
                bound >= 0,
        ;
    } else if x < -bound {
        assert(x * x > bound * bound) by (nonlinear_arith)
            requires
                x < -bound,
                bound >= 0,
        ;
    }
}

/// What rounding one coordinate of the exact radial vector costs: for `w`
/// within `a * r`, the quotient `w / a` lies within `r`, and its square,
/// times `a^2`, differs from the square of `w` by at most `2 * a^2 * r + a^2`.
pub proof fn lemma_rounded_coordinate(w: int, a: int, r: int)
    requires
        a >= 1,
        r >= 0,
        -(a * r) <= w <= a * r,
    ensures
        -r <= w / a <= r,
        w * w - 2 * (a * (a * r)) - a * a <= (a * a) * ((w / a) * (w / a)) <= w * w + 2 * (a * (a
            * r)),
{
    let q = w / a;
    let e = w % a;
    let ar = a * r;
    vstd::arithmetic::div_mod::lemma_fundamental_div_mod(w, a);
    vstd::arithmetic::div_mod::lemma_mod_bound(w, a);
    vstd::arithmetic::div_mod::lemma_div_is_ordered(w, ar, a);
    vstd::arithmetic::div_mod::lemma_div_multiples_vanish(r, a);
    assert(-(a * r) == a * (-r)) by (nonlinear_arith);
    vstd::arithmetic::div_mod::lemma_div_is_ordered(a * (-r), w, a);
    vstd::arithmetic::div_mod::lemma_div_multiples_vanish(-r, a);
    let p = a * q;
    let qe = q * e;
    let ee = e * e;
    let qq = q * q;
    assert(w * w == p * p + 2 * (p * e) + ee) by (nonlinear_arith)
        requires
            w == p + e,
            ee == e * e,
    ;
    assert(p * p == (a * a) * qq) by (nonlinear_arith)
        requires
            p == a * q,
            qq == q * q,
    ;
    assert(p * e == a * qe) by (nonlinear_arith)
        requires
            p == a * q,
            qe == q * e,
    ;
    assert(-ar <= qe <= ar && 0 <= ee <= a * a) by (nonlinear_arith)
        requires
            qe == q * e,
            ee == e * e,
            ar == a * r,
            -r <= q <= r,
            0 <= e < a,
    ;
    assert(-(a * ar) <= a * qe <= a * ar) by (nonlinear_arith)
        requires
            -ar <= qe <= ar,
            a >= 1,
    ;
}

/// The vector from the center to the point of a hit, whichever root the hit
/// is at: each coordinate lies within the radius, and its length differs
/// from the radius by little, whatever the length of the ray's direction.
pub proof fn lemma_radial_on_sphere(s: SphereModel, ray: RayModel, n: int)
    requires
        s.meets(ray),
        n == s.near_numerator(ray) || n == s.far_numerator(ray),
    ensures
        -s.radius <= s.radial(ray, n).x <= s.radius,
        -s.radius <= s.radial(ray, n).y <= s.radius,
        -s.radius <= s.radial(ray, n).z <= s.radius,
        s.radius * s.radius - 8 * s.radius - 3 <= s.radial(ray, n).norm_sq() <= s.radius
            * s.radius + 6 * s.radius,
{
    let a = s.quad_a(ray);
    let r = s.radius;
    let w = s.scaled_radial(ray, n);
    let q = s.radial(ray, n);
    let ar = a * r;
    let aa = a * a;
    let rr = r * r;
    let aar = a * ar;
    let lost = a * (s.discriminant(ray) - s.root(ray) * s.root(ray));
    lemma_scaled_radial_on_sphere(s, ray, n);
    assert(0 <= lost <= 2 * aar) by (nonlinear_arith)
        requires
            lost == a * (s.discriminant(ray) - s.root(ray) * s.root(ray)),
            0 <= s.discriminant(ray) - s.root(ray) * s.root(ray) <= 2 * s.root(ray),
            0 <= s.root(ray) <= ar,
            aar == a * ar,
            a >= 1,
    ;
    assert(aa * rr == ar * ar && ar >= 0 && aar == aa * r && aa >= 1) by (nonlinear_arith)
        requires
            ar == a * r,
            aa == a * a,
            rr == r * r,
            aar == a * ar,
            a >= 1,
            r >= 1,
    ;
    let wx = w.x * w.x;
    let wy = w.y * w.y;
    let wz = w.z * w.z;
    assert(wx >= 0 && wy >= 0 && wz >= 0) by (nonlinear_arith)
        requires
            wx == w.x * w.x,
            wy == w.y * w.y,
            wz == w.z * w.z,
    ;
    assert(wx + wy + wz == ar * ar - lost);
    lemma_within_bound(w.x, wy + wz + lost, ar);
    lemma_within_bound(w.y, wx + wz + lost, ar);
    lemma_within_bound(w.z, wx + wy + lost, ar);
    lemma_rounded_coordinate(w.x, a, r);
    lemma_rounded_coordinate(w.y, a, r);
    lemma_rounded_coordinate(w.z, a, r);
    let qx = q.x * q.x;
    let qy = q.y * q.y;
    let qz = q.z * q.z;
    let qq = q.norm_sq();
    assert(aa * qq == aa * qx + aa * qy + aa * qz) by (nonlinear_arith)
        requires
            qq == qx + qy + qz,
    ;
    assert(aa * rr - 8 * aar - 3 * aa <= aa * qq <= aa * rr + 6 * aar);
    assert(rr - 8 * r - 3 <= qq <= rr + 6 * r) by (nonlinear_arith)
        requires
            aa * rr - 8 * (aa * r) - 3 * aa <= aa * qq <= aa * rr + 6 * (aa * r),
            aa >= 1,
    ;
}

/// The opposite vector has the same length.
pub proof fn lemma_negated_norm(v: Vector)
    ensures
        v.negated().norm_sq() == v.norm_sq(),
        v.negated().norm() == v.norm(),
{
    assert((-v.x) * (-v.x) == v.x * v.x && (-v.y) * (-v.y) == v.y * v.y && (-v.z) * (-v.z) == v.z
        * v.z) by (nonlinear_arith);
}

/// A vector that is not zero has a squared length that is not zero.
pub proof fn lemma_nonzero_norm(v: Vector)
    requires
        v != (Vector { x: 0, y: 0, z: 0 }),
    ensures
        v.norm_sq() > 0,
{
    assert(v.x * v.x >= 0 && v.y * v.y >= 0 && v.z * v.z >= 0 && (v.x != 0 ==> v.x * v.x > 0) && (
    v.y != 0 ==> v.y * v.y > 0) && (v.z != 0 ==> v.z * v.z > 0)) by (nonlinear_arith);
}

/// Where a ray hits a sphere that lies within the world, whatever the
/// length of the ray's direction:
/// - the point of the hit is the center plus the radial vector, with
///   nothing lost to saturation, and lies within the world;
/// - the square of its distance from the center differs from the square of
///   the radius by no more than eight times the radius and three;
/// - the normal is the normalized vector from the center to the point, or
///   its opposite where the ray comes from inside (or, where the point is
///   the center itself, the normalized direction reversed);
/// - the normal has length `ONE` to within four units.
pub proof fn lemma_hit_on_sphere(s: SphereModel, ray: RayModel, t_min: int, t_max: int)
    requires
        s.in_scene(),
        s.hit(ray, t_min, t_max) is Some,
    ensures
        ({
            let h = s.hit(ray, t_min, t_max)->0;
            let q = h.point.minus(s.center);
            &&& s.radius > 0
            &&& h.point.in_range()
            &&& -s.radius <= q.x <= s.radius
            &&& -s.radius <= q.y <= s.radius
            &&& -s.radius <= q.z <= s.radius
            &&& s.radius * s.radius - 8 * s.radius - 3 <= q.norm_sq() <= s.radius * s.radius + 6
                * s.radius
            &&& h.normal == SphereModel::normal_at(ray, q, h.front_face)
            &&& ONE - 4 <= h.normal.norm() <= ONE + 3
            &&& s.radius >= 9 ==> q != (Vector { x: 0, y: 0, z: 0 })
        }),
{
    let n = s.hit_numerator(ray, t_min, t_max)->0;
    let h = s.hit(ray, t_min, t_max)->0;
    let radial = s.radial(ray, n);
    lemma_radial_on_sphere(s, ray, n);
    assert(radial.saturate() == radial);
    assert(h.point == s.center.plus(radial));
    let q = h.point.minus(s.center);
    assert(q == radial);
    if q == (Vector { x: 0, y: 0, z: 0 }) {
        let back = ray.direction.negated();
        lemma_negated_norm(ray.direction);
        crate::vec3::lemma_normalized_length(back);
    } else {
        lemma_nonzero_norm(q);
        crate::vec3::lemma_normalized_length(q);
        lemma_negated_norm(q.normalized());
    }
    if s.radius >= 9 {
        assert(s.radius * s.radius - 8 * s.radius - 3 > 0) by (nonlinear_arith)
            requires
                s.radius >= 9,
        ;
    }
}

/// A ray that starts outside a sphere and points at its center, with a
/// direction of any length, and whose smaller root lies in the interval
/// asked for, hits the sphere at that root and from outside, and the normal
/// there is the outward one: the normalized vector from the center to the
/// point of the hit (on a sphere of less than nine units, where that point
/// may be the center itself, the normalized direction reversed, which points
/// the same way). The direction points at the center where `j` times the
/// direction is `k` times the vector from the origin to the center, for
/// positive `j` and `k`.
pub proof fn lemma_hit_through_center(
    s: SphereModel,
    ray: RayModel,
    t_min: int,
    t_max: int,
    j: int,
    k: int,
)
    requires
        s.in_scene(),
        s.radius > 0,
        j > 0,
        k > 0,
        j * ray.direction.x == k * (s.center.x - ray.origin.x),
        j * ray.direction.y == k * (s.center.y - ray.origin.y),
        j * ray.direction.z == k * (s.center.z - ray.origin.z),
        s.offset(ray).norm_sq() > s.radius * s.radius,
        t_min < s.near_root(ray) < t_max,
    ensures
        ({
            let h = s.hit(ray, t_min, t_max)->0;
            let q = h.point.minus(s.center);
            &&& s.hit(ray, t_min, t_max) is Some
            &&& h.t == s.near_root(ray)
            &&& h.front_face
            &&& h.normal == if q == (Vector { x: 0, y: 0, z: 0 }) {
                ray.direction.negated().normalized()
            } else {
                q.normalized()
            }
            &&& s.radius >= 9 ==> h.normal == q.normalized()
            &&& s.discriminant(ray) == s.quad_a(ray) * (s.radius * s.radius)
            &&& s.radius * s.radius - 8 * s.radius - 3 <= q.norm_sq() <= s.radius * s.radius + 6
                * s.radius
            &&& ONE - 4 <= h.normal.norm() <= ONE + 3
        }),
{
    let a = s.quad_a(ray);
    let hb = s.quad_half_b(ray);
    let oc = s.offset(ray);
    let d = ray.direction;
    let oo = oc.norm_sq();
    let rr = s.radius * s.radius;
    assert(k * (s.center.x - ray.origin.x) == -(k * oc.x) && k * (s.center.y - ray.origin.y) == -(k
        * oc.y) && k * (s.center.z - ray.origin.z) == -(k * oc.z)) by (nonlinear_arith)
        requires
            oc.x == ray.origin.x - s.center.x,
            oc.y == ray.origin.y - s.center.y,
            oc.z == ray.origin.z - s.center.z,
    ;
    lemma_parallel_component(j, k, d.x, oc.x);
    lemma_parallel_component(j, k, d.y, oc.y);
    lemma_parallel_component(j, k, d.z, oc.z);
    let jj = j * j;
    let kk = k * k;
    assert(jj * a == kk * oo) by (nonlinear_arith)
        requires
            jj * (d.x * d.x) == kk * (oc.x * oc.x),
            jj * (d.y * d.y) == kk * (oc.y * oc.y),
            jj * (d.z * d.z) == kk * (oc.z * oc.z),
            a == d.x * d.x + d.y * d.y + d.z * d.z,
            oo == oc.x * oc.x + oc.y * oc.y + oc.z * oc.z,
    ;
    assert(j * hb == -(k * oo)) by (nonlinear_arith)
        requires
            j * (oc.x * d.x) == -(k * (oc.x * oc.x)),
            j * (oc.y * d.y) == -(k * (oc.y * oc.y)),
            j * (oc.z * d.z) == -(k * (oc.z * oc.z)),
            hb == oc.x * d.x + oc.y * d.y + oc.z * d.z,
            oo == oc.x * oc.x + oc.y * oc.y + oc.z * oc.z,
    ;
    assert(rr >= 1 && jj >= 1 && kk >= 1) by (nonlinear_arith)
        requires
            rr == s.radius * s.radius,
            s.radius >= 1,
            jj == j * j,
            kk == k * k,
            j >= 1,
            k >= 1,
    ;
    assert(a >= 1) by (nonlinear_arith)
        requires
            jj * a == kk * oo,
            oo >= 1,
            kk >= 1,
            jj >= 1,
    ;
    let jhb = j * hb;
    let koo = k * oo;
    assert(jj * (hb * hb) == jhb * jhb && koo * koo == (kk * oo) * oo) by (nonlinear_arith)
        requires
            jhb == j * hb,
            koo == k * oo,
            jj == j * j,
            kk == k * k,
    ;
    assert(jhb * jhb == koo * koo) by (nonlinear_arith)
        requires
            jhb == -koo,
    ;
    assert((jj * a) * oo == jj * (a * oo)) by (nonlinear_arith);
    assert(hb * hb == a * oo) by (nonlinear_arith)
        requires
            jj * (hb * hb) == jj * (a * oo),
            jj >= 1,
    ;
    assert(s.discriminant(ray) == a * rr) by (nonlinear_arith)
        requires
            s.discriminant(ray) == hb * hb - a * (oo - rr),
            hb * hb == a * oo,
    ;
    assert(a * rr >= 1) by (nonlinear_arith)
        requires
            a >= 1,
            rr >= 1,
    ;
    crate::fixed::lemma_isqrt_exists(s.discriminant(ray) as nat);
    assert(s.root(ray) >= 1) by {
        if s.root(ray) == 0 {
            assert((0 + 1) * (0 + 1) == 1) by (nonlinear_arith);
        }
    }
    assert(s.hit_numerator(ray, t_min, t_max) == Some(s.near_numerator(ray)));
    lemma_hit_on_sphere(s, ray, t_min, t_max);
}

/// One coordinate of two parallel vectors: where `j * d == -k * o`, the
/// squares and the product are in the same proportions.
pub proof fn lemma_parallel_component(j: int, k: int, d: int, o: int)
    requires
        j * d == -(k * o),
    ensures
        (j * j) * (d * d) == (k * k) * (o * o),
        j * (o * d) == -(k * (o * o)),
{
    let jd = j * d;
    let ko = k * o;
    assert(jd * jd == (j * j) * (d * d)) by (nonlinear_arith)
        requires
            jd == j * d,
    ;
    assert(ko * ko == (k * k) * (o * o)) by (nonlinear_arith)
        requires
            ko == k * o,
    ;
    assert(jd * jd == ko * ko) by (nonlinear_arith)
        requires
            jd == -ko,
    ;
    assert(j * (o * d) == o * jd) by (nonlinear_arith)
        requires
            jd == j * d,
    ;
    assert(o * jd == -(k * (o * o))) by (nonlinear_arith)
        requires
            jd == -(k * o),
    ;
}

/// The ray approaches the center at a root exactly where its direction and
/// the exact radial vector there point against each other.
pub proof fn lemma_approaches_is_dot(s: SphereModel, ray: RayModel, n: int)
    requires
        s.quad_a(ray) > 0,
    ensures
        ray.direction.dot(s.scaled_radial(ray, n)) == s.quad_a(ray) * (s.quad_half_b(ray) + n),
        s.approaches(ray, n) <==> ray.direction.dot(s.scaled_radial(ray, n)) < 0,
{
    let a = s.quad_a(ray);
    let hb = s.quad_half_b(ray);
    let oc = s.offset(ray);
    let d = ray.direction;
    assert(d.x * (a * oc.x + d.x * n) == a * (oc.x * d.x) + (d.x * d.x) * n) by (nonlinear_arith);
    assert(d.y * (a * oc.y + d.y * n) == a * (oc.y * d.y) + (d.y * d.y) * n) by (nonlinear_arith);
    assert(d.z * (a * oc.z + d.z * n) == a * (oc.z * d.z) + (d.z * d.z) * n) by (nonlinear_arith);
    let r1 = oc.x * d.x;
    let r2 = oc.y * d.y;
    let r3 = oc.z * d.z;
    assert(a * (r1 + r2 + r3) + a * n == a * r1 + a * r2 + a * r3 + (d.x * d.x) * n + (d.y * d.y)
        * n + (d.z * d.z) * n) by (nonlinear_arith)
        requires
            a == d.x * d.x + d.y * d.y + d.z * d.z,
    ;
    assert(a * (hb + n) == a * (r1 + r2 + r3) + a * n) by (nonlinear_arith)
        requires
            hb == r1 + r2 + r3,
    ;
    let v = hb + n;
    assert((a * v < 0) <==> (v < 0)) by (nonlinear_arith)
        requires
            a >= 1,
    ;
}

} // verus!

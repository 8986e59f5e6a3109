//! The camera: an eye and a viewport at distance one before it. A pair of
//! fractions names a point of the viewport, `(0, 0)` its lower left corner
//! and `(ONE, ONE)` its upper right one, and the camera answers with the ray
//! from the eye through that point.

use vstd::prelude::*;
use crate::fixed::{floor_div, in_coord_range, COORD_MAX, ONE};
use crate::ray::{Ray, RayModel};
use crate::vec3::{lemma_product_bound, wide_product, Vec3, Vector};

verus! {

/// The fixed-point representation of one half.
pub const HALF: i64 = 32768;

/// How a camera is set up, in the model.
pub struct ViewModel {
    pub eye: Vector,
    pub target: Vector,
    pub up: Vector,
    pub viewport_height: int,
}

/// A camera of the model.
pub struct CameraModel {
    pub origin: Vector,
    pub lower_left: Vector,
    pub horizontal: Vector,
    pub vertical: Vector,
}

impl ViewModel {
    /// The unit vector from the target back to the eye.
    pub open spec fn backward(self) -> Vector {
        self.eye.minus(self.target).saturate().normalized()
    }

    /// The unit vector to the right of the view.
    pub open spec fn rightward(self) -> Vector {
        self.up.cross(self.backward()).saturate().normalized()
    }

    /// The unit vector up the view.
    pub open spec fn upward(self) -> Vector {
        self.backward().cross(self.rightward()).saturate()
    }

    /// The width of the viewport for an image of `width` by `height` pixels.
    pub open spec fn viewport_width(self, width: int, height: int) -> int {
        (self.viewport_height * width) / height
    }

    /// The camera for an image of `width` by `height` pixels: the viewport
    /// has the set height and the image's aspect ratio, is centered on the
    /// line from the eye to the target and stands at distance one.
    pub open spec fn camera(self, width: int, height: int) -> CameraModel {
        let horizontal = self.rightward().scaled(self.viewport_width(width, height)).saturate();
        let vertical = self.upward().scaled(self.viewport_height).saturate();
        CameraModel {
            origin: self.eye,
            lower_left: self.eye.minus(horizontal.scaled(HALF as int).saturate()).saturate().minus(
                vertical.scaled(HALF as int).saturate(),
            ).saturate().minus(self.backward()).saturate(),
            horizontal,
            vertical,
        }
    }
}

impl CameraModel {
    /// The ray from the eye through the point of the viewport that lies the
    /// fraction `u` of the way across and the fraction `v` of the way up.
    pub open spec fn ray_for(self, u: int, v: int) -> RayModel {
        RayModel {
            origin: self.origin,
            direction: self.lower_left.plus(self.horizontal.scaled(u).saturate()).saturate().plus(
                self.vertical.scaled(v).saturate(),
            ).saturate().minus(self.origin).saturate(),
        }
    }
}

/// How a camera is set up: where the eye is, what it looks at, which way is
/// up, and the vertical field of view, given as the height of the viewport
/// at distance one from the eye (twice the tangent of half the angle).
#[derive(Clone, Copy, Debug, PartialEq, Eq, Structural)]
pub struct CameraConfig {
    pub eye: Vec3,
    pub target: Vec3,
    pub up: Vec3,
    pub viewport_height: i64,
}

impl View for CameraConfig {
    type V = ViewModel;

    open spec fn view(&self) -> ViewModel {
        ViewModel {
            eye: self.eye@,
            target: self.target@,
            up: self.up@,
            viewport_height: self.viewport_height as int,
        }
    }
}

impl CameraConfig {
    /// Whether the three vectors lie within the world and the viewport's
    /// height is in the range of a coordinate.
    pub open spec fn wf(&self) -> bool {
        self.eye.wf() && self.target.wf() && self.up.wf() && in_coord_range(
            self.viewport_height as int,
        )
    }

    /// Tells whether the three vectors lie within the world and the
    /// viewport's height is in the range of a coordinate.
    pub fn is_wf(&self) -> (b: bool)
        ensures
            b == self.wf(),
    {
        self.eye.is_wf() && self.target.is_wf() && self.up.is_wf() && -COORD_MAX
            <= self.viewport_height && self.viewport_height <= COORD_MAX
    }

    /// The setup with the given vectors and viewport height, each saturated
    /// to the world.
    pub fn new(eye: Vec3, target: Vec3, up: Vec3, viewport_height: i64) -> (c: CameraConfig)
        ensures
            c.wf(),
            c.eye@ == eye@.saturate(),
            c.target@ == target@.saturate(),
            c.up@ == up@.saturate(),
            c.viewport_height == crate::fixed::clamp_coord_spec(viewport_height as int),
    {
        CameraConfig {
            eye: Vec3::new(eye.x, eye.y, eye.z),
            target: Vec3::new(target.x, target.y, target.z),
            up: Vec3::new(up.x, up.y, up.z),
            viewport_height: crate::fixed::clamp_coord(viewport_height as i128),
        }
    }

    /// The width of the viewport for an image of `width` by `height` pixels.
    pub fn viewport_width(&self, width: u32, height: u32) -> (w: i64)
        requires
            in_coord_range(self.viewport_height as int),
            height > 0,
        ensures
            w == self@.viewport_width(width as int, height as int),
    {
        proof {
            lemma_product_bound(
                self.viewport_height as int,
                width as int,
                0x4000_0000,
                0x1_0000_0000,
            );
        }
        let wide: i128 = floor_div(wide_product(self.viewport_height, width as i64), height as i128);
        proof {
            let p = (self.viewport_height as int) * (width as int);
            let h = height as int;
            vstd::arithmetic::div_mod::lemma_div_is_ordered(
                -0x4000_0000_0000_0000int,
                p,
                h,
            );
            vstd::arithmetic::div_mod::lemma_div_is_ordered(p, 0x4000_0000_0000_0000int, h);
            lemma_quotient_shrinks(0x4000_0000_0000_0000int, h);
        }
        wide as i64
    }

    /// The usual setup: the eye at the origin looks along the negative z
    /// axis, y is up, and the viewport is two units high.
    pub open spec fn standard_spec() -> CameraConfig {
        CameraConfig {
            eye: Vec3 { x: 0, y: 0, z: 0 },
            target: Vec3 { x: 0, y: 0, z: (-ONE) as i64 },
            up: Vec3 { x: 0, y: ONE, z: 0 },
            viewport_height: (2 * ONE) as i64,
        }
    }

    /// The usual setup: the eye at the origin looks along the negative z
    /// axis, y is up, and the viewport is two units high.
    pub fn standard() -> (c: CameraConfig)
        ensures
            c.wf(),
            c == CameraConfig::standard_spec(),
    {
        CameraConfig {
            eye: Vec3 { x: 0, y: 0, z: 0 },
            target: Vec3 { x: 0, y: 0, z: -ONE },
            up: Vec3 { x: 0, y: ONE, z: 0 },
            viewport_height: 2 * ONE,
        }
    }
}

/// A camera. Once made it does not change.
#[derive(Clone, Copy, Debug, PartialEq, Eq, Structural)]
pub struct Camera {
    pub origin: Vec3,
    pub lower_left: Vec3,
    pub horizontal: Vec3,
    pub vertical: Vec3,
}

impl View for Camera {
    type V = CameraModel;

    open spec fn view(&self) -> CameraModel {
        CameraModel {
            origin: self.origin@,
            lower_left: self.lower_left@,
            horizontal: self.horizontal@,
            vertical: self.vertical@,
        }
    }
}

impl Camera {
    /// Whether the four vectors lie within the world.
    pub open spec fn wf(&self) -> bool {
        self.origin.wf() && self.lower_left.wf() && self.horizontal.wf() && self.vertical.wf()
    }

    /// The camera of a setup for an image of `width` by `height` pixels.
    pub fn new(setup: &CameraConfig, width: u32, height: u32) -> (c: Camera)
        requires
            setup.wf(),
            width > 0,
            height > 0,
        ensures
            c.wf(),
            c@ == setup@.camera(width as int, height as int),
    {
        let back: Vec3 = setup.eye.minus(setup.target).normalize();
        let right: Vec3 = setup.up.cross(back).normalize();
        let upward: Vec3 = back.cross(right);
        let viewport_width: i64 = setup.viewport_width(width, height);
        let horizontal: Vec3 = right.scale(viewport_width);
        let vertical: Vec3 = upward.scale(setup.viewport_height);
        let lower_left: Vec3 = setup.eye.minus(horizontal.scale(HALF)).minus(
            vertical.scale(HALF),
        ).minus(back);
        Camera { origin: setup.eye, lower_left, horizontal, vertical }
    }

    /// The ray from the eye through the point of the viewport that lies the
    /// fraction `u` of the way across and the fraction `v` of the way up.
    pub fn ray_for(&self, u: i64, v: i64) -> (r: Ray)
        requires
            self.wf(),
        ensures
            r.wf(),
            r@ == self@.ray_for(u as int, v as int),
    {
        let direction: Vec3 = self.lower_left.plus(self.horizontal.scale(u)).plus(
            self.vertical.scale(v),
        ).minus(self.origin);
        Ray { origin: self.origin, direction }
    }
}

/// Dividing a magnitude by a positive whole number does not take it out of
/// its bounds.
pub proof fn lemma_quotient_shrinks(m: int, d: int)
    requires
        m >= 0,
        d >= 1,
    ensures
        m / d <= m,
        (-m) / d >= -m,
{
    vstd::arithmetic::div_mod::lemma_fundamental_div_mod(m, d);
    vstd::arithmetic::div_mod::lemma_fundamental_div_mod(-m, d);
    vstd::arithmetic::div_mod::lemma_mod_bound(m, d);
    vstd::arithmetic::div_mod::lemma_mod_bound(-m, d);
    let q = m / d;
    let p = (-m) / d;
    assert(q <= m) by (nonlinear_arith)
        requires
            m == d * q + m % d,
            0 <= m % d < d,
            d >= 1,
            m >= 0,
    ;
    assert(p >= -m) by (nonlinear_arith)
        requires
            -m == d * p + (-m) % d,
            0 <= (-m) % d < d,
            d >= 1,
            m >= 0,
    ;
}

} // verus!

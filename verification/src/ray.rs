//! Rays: a half-line given by an origin and a direction.

use vstd::prelude::*;
use crate::vec3::{Vec3, Vector};

verus! {

/// A ray of the model.
pub struct RayModel {
    pub origin: Vector,
    pub direction: Vector,
}

impl RayModel {
    /// The point at parameter `t`: the origin moved by `t` times the
    /// direction, saturated to the world.
    pub open spec fn at(self, t: int) -> Vector {
        self.origin.plus(self.direction.scaled(t).saturate()).saturate()
    }
}

/// A ray of the scene. The direction need not have unit length: the ray
/// parameter counts multiples of the direction as it is given, and where
/// the ray meets a surface does not depend on the direction's length.
#[derive(Clone, Copy, Debug, PartialEq, Eq, Structural)]
pub struct Ray {
    pub origin: Vec3,
    pub direction: Vec3,
}

impl View for Ray {
    type V = RayModel;

    open spec fn view(&self) -> RayModel {
        RayModel { origin: self.origin@, direction: self.direction@ }
    }
}

impl Ray {
    /// Whether origin and direction lie within the world.
    pub open spec fn wf(&self) -> bool {
        self.origin.wf() && self.direction.wf()
    }

    /// Tells whether origin and direction lie within the world.
    pub fn is_wf(&self) -> (b: bool)
        ensures
            b == self.wf(),
    {
        self.origin.is_wf() && self.direction.is_wf()
    }

    /// The ray from `origin` along `direction`, both saturated to the world.
    pub fn new(origin: Vec3, direction: Vec3) -> (r: Ray)
        ensures
            r.wf(),
            r.origin@ == origin@.saturate(),
            r.direction@ == direction@.saturate(),
    {
        Ray {
            origin: Vec3::new(origin.x, origin.y, origin.z),
            direction: Vec3::new(direction.x, direction.y, direction.z),
        }
    }

    /// The point of the ray at parameter `t`.
    pub fn at(&self, t: i64) -> (p: Vec3)
        ensures
            p.wf(),
            p@ == self@.at(t as int),
    {
        self.origin.plus(self.direction.scale(t))
    }
}

} // verus!

//! The scene: an ordered collection of primitives, asked for the nearest
//! point at which a ray meets any of them.

use vstd::prelude::*;
use crate::ray::{Ray, RayModel};
use crate::sphere::{Intersection, Sphere, SphereModel, SurfaceModel};
use crate::vec3::{Vec3, Vector};

verus! {

/// A primitive of the model.
pub enum PrimitiveModel {
    Sphere(SphereModel),
}

impl PrimitiveModel {
    /// The intersection of the ray with this primitive within the open
    /// interval from `t_min` to `t_max`, if there is one.
    pub open spec fn hit(self, ray: RayModel, t_min: int, t_max: int) -> Option<SurfaceModel> {
        match self {
            PrimitiveModel::Sphere(s) => s.hit(ray, t_min, t_max),
        }
    }
}

/// A hit of the model: the surface met and the position of the primitive in
/// the scene.
pub struct HitModel {
    pub surface: SurfaceModel,
    pub primitive: int,
}

/// The nearer of the best hit among the primitives before position `index`
/// and the hit of the primitive at `index`. The earlier one stays unless the
/// later one is strictly nearer.
pub open spec fn nearer(
    before: Option<HitModel>,
    found: Option<SurfaceModel>,
    index: int,
) -> Option<HitModel> {
    match found {
        None => before,
        Some(s) => match before {
            Some(b) => if b.surface.t <= s.t {
                before
            } else {
                Some(HitModel { surface: s, primitive: index })
            },
            None => Some(HitModel { surface: s, primitive: index }),
        },
    }
}

/// The nearest hit of the ray among the primitives, within the open interval
/// from `t_min` to `t_max`. Of several primitives hit at the same parameter
/// the first in the sequence is the one reported.
pub open spec fn nearest_hit(
    prims: Seq<PrimitiveModel>,
    ray: RayModel,
    t_min: int,
    t_max: int,
) -> Option<HitModel>
    decreases prims.len(),
{
    if prims.len() == 0 {
        None
    } else {
        nearer(
            nearest_hit(prims.drop_last(), ray, t_min, t_max),
            prims.last().hit(ray, t_min, t_max),
            prims.len() - 1,
        )
    }
}

/// Whether `r` is the answer owed for the ray: nothing where no primitive is
/// hit; else the hit of a primitive that no other primitive undercuts and
/// that no earlier primitive equals.
pub open spec fn is_nearest(
    prims: Seq<PrimitiveModel>,
    ray: RayModel,
    t_min: int,
    t_max: int,
    r: Option<HitModel>,
) -> bool {
    match r {
        None => forall|i: int|
            0 <= i < prims.len() ==> (#[trigger] prims[i].hit(ray, t_min, t_max)) is None,
        Some(h) => {
            &&& 0 <= h.primitive < prims.len()
            &&& prims[h.primitive].hit(ray, t_min, t_max) == Some(h.surface)
            &&& forall|j: int|
                0 <= j < prims.len() ==> match #[trigger] prims[j].hit(ray, t_min, t_max) {
                    Some(s) => h.surface.t <= s.t && (j < h.primitive ==> h.surface.t < s.t),
                    None => true,
                }
        },
    }
}

/// A primitive of the scene. The kinds are closed: a ray is tested against
/// one by a single dispatch.
#[derive(Clone, Copy, Debug, PartialEq, Eq, Structural)]
pub enum Primitive {
    Sphere(Sphere),
}

impl View for Primitive {
    type V = PrimitiveModel;

    open spec fn view(&self) -> PrimitiveModel {
        match *self {
            Primitive::Sphere(s) => PrimitiveModel::Sphere(s@),
        }
    }
}

impl Primitive {
    /// Whether the primitive lies within the world.
    pub open spec fn wf(&self) -> bool {
        match *self {
            Primitive::Sphere(s) => s.wf(),
        }
    }

    /// Tells whether the primitive lies within the world.
    pub fn is_wf(&self) -> (b: bool)
        ensures
            b == self.wf(),
    {
        match self {
            Primitive::Sphere(s) => s.is_wf(),
        }
    }

    /// The nearest point within the open interval from `t_min` to `t_max` at
    /// which the ray meets the primitive, if there is one.
    pub fn hit(&self, ray: &Ray, t_min: i64, t_max: i64) -> (r: Option<Intersection>)
        requires
            self.wf(),
            ray.wf(),
        ensures
            match r {
                Some(h) => h.wf() && self@.hit(ray@, t_min as int, t_max as int) == Some(h@),
                None => self@.hit(ray@, t_min as int, t_max as int) is None,
            },
    {
        match self {
            Primitive::Sphere(s) => s.hit(ray, t_min, t_max),
        }
    }
}

/// The nearest hit of a ray in a scene.
#[derive(Clone, Copy, Debug, PartialEq, Eq, Structural)]
pub struct HitRecord {
    /// The surface met: ray parameter, point, normal and side.
    pub surface: Intersection,
    /// The position in the scene of the primitive that was hit.
    pub primitive: usize,
}

impl View for HitRecord {
    type V = HitModel;

    open spec fn view(&self) -> HitModel {
        HitModel { surface: self.surface@, primitive: self.primitive as int }
    }
}

/// The model of an optional hit.
pub open spec fn hit_view(r: Option<HitRecord>) -> Option<HitModel> {
    match r {
        Some(h) => Some(h@),
        None => None,
    }
}

/// A scene: primitives in the order in which they were added.
#[derive(Debug)]
pub struct World {
    pub primitives: Vec<Primitive>,
}

impl View for World {
    type V = Seq<PrimitiveModel>;

    open spec fn view(&self) -> Seq<PrimitiveModel> {
        self.primitives@.map_values(|p: Primitive| p@)
    }
}

impl World {
    /// Whether every primitive lies within the world.
    pub open spec fn wf(&self) -> bool {
        forall|i: int| 0 <= i < self.primitives.len() ==> (#[trigger] self.primitives[i]).wf()
    }

    /// The empty scene.
    pub fn new() -> (w: World)
        ensures
            w.wf(),
            w@ == Seq::<PrimitiveModel>::empty(),
    {
        let w = World { primitives: Vec::new() };
        w
    }

    /// Tells whether every primitive lies within the world.
    pub fn is_wf(&self) -> (b: bool)
        ensures
            b == self.wf(),
    {
        let n: usize = self.primitives.len();
        let mut i: usize = 0;
        while i < n
            invariant
                0 <= i <= n,
                n == self.primitives.len(),
                forall|j: int| 0 <= j < i ==> (#[trigger] self.primitives[j]).wf(),
            decreases n - i,
        {
            if !self.primitives[i].is_wf() {
                return false;
            }
            i = i + 1;
        }
        true
    }

    /// The number of primitives.
    pub fn len(&self) -> (n: usize)
        ensures
            n == self@.len(),
    {
        self.primitives.len()
    }

    /// Appends a primitive to the scene.
    pub fn add(&mut self, primitive: Primitive)
        requires
            old(self).wf(),
            primitive.wf(),
        ensures
            final(self).wf(),
            final(self)@ == old(self)@.push(primitive@),
    {
        self.primitives.push(primitive);
    }

    /// Appends a sphere to the scene, its center and radius saturated to
    /// half the world. A sphere whose radius is not positive is kept and
    /// never hit.
    pub fn add_sphere(&mut self, center: Vec3, radius: i64)
        requires
            old(self).wf(),
        ensures
            final(self).wf(),
            final(self)@.len() == old(self)@.len() + 1,
            final(self)@ == old(self)@.push(
                PrimitiveModel::Sphere(
                    SphereModel {
                        center: Vector {
                            x: crate::fixed::clamp_scene_spec(center.x as int),
                            y: crate::fixed::clamp_scene_spec(center.y as int),
                            z: crate::fixed::clamp_scene_spec(center.z as int),
                        },
                        radius: vstd::math::min(radius as int, crate::fixed::SCENE_MAX as int),
                    },
                ),
            ),
    {
        let s = Sphere::new(center, radius);
        self.add(Primitive::Sphere(s));
    }

    /// The nearest point within the open interval from `t_min` to `t_max` at
    /// which the ray meets a primitive of the scene, if there is one. Of
    /// several primitives met at the same parameter, the one added first is
    /// reported.
    pub fn hit(&self, ray: &Ray, t_min: i64, t_max: i64) -> (r: Option<HitRecord>)
        requires
            self.wf(),
            ray.wf(),
        ensures
            hit_view(r) == nearest_hit(self@, ray@, t_min as int, t_max as int),
            is_nearest(self@, ray@, t_min as int, t_max as int, hit_view(r)),
            r matches Some(h) ==> h.surface.wf(),
    {
        let mut best: Option<HitRecord> = None;
        let n: usize = self.primitives.len();
        let mut i: usize = 0;
        while i < n
            invariant
                0 <= i <= n,
                n == self.primitives.len(),
                self.wf(),
                ray.wf(),
                hit_view(best) == nearest_hit(self@.take(i as int), ray@, t_min as int, t_max as int),
                best matches Some(h) ==> h.surface.wf(),
            decreases n - i,
        {
            let found: Option<Intersection> = self.primitives[i].hit(ray, t_min, t_max);
            proof {
                assert(self@.take(i + 1).drop_last() =~= self@.take(i as int));
            }
            match found {
                Some(s) => {
                    let better: bool = match best {
                        Some(b) => s.t < b.surface.t,
                        None => true,
                    };
                    if better {
                        best = Some(HitRecord { surface: s, primitive: i });
                    }
                },
                None => {},
            }
            i = i + 1;
        }
        proof {
            assert(self@.take(n as int) =~= self@);
            lemma_nearest_is_nearest(self@, ray@, t_min as int, t_max as int);
        }
        best
    }
}

/// What `nearest_hit` computes is the answer that `is_nearest` describes.
pub proof fn lemma_nearest_is_nearest(
    prims: Seq<PrimitiveModel>,
    ray: RayModel,
    t_min: int,
    t_max: int,
)
    ensures
        is_nearest(prims, ray, t_min, t_max, nearest_hit(prims, ray, t_min, t_max)),
    decreases prims.len(),
{
    if prims.len() > 0 {
        let front = prims.drop_last();
        lemma_nearest_is_nearest(front, ray, t_min, t_max);
        let before = nearest_hit(front, ray, t_min, t_max);
        assert forall|i: int| 0 <= i < front.len() implies front[i] == prims[i] by {}
        match nearest_hit(prims, ray, t_min, t_max) {
            None => {},
            Some(h) => {
                assert forall|j: int| 0 <= j < prims.len() implies match #[trigger] prims[j].hit(
                    ray,
                    t_min,
                    t_max,
                ) {
                    Some(s) => h.surface.t <= s.t && (j < h.primitive ==> h.surface.t < s.t),
                    None => true,
                } by {
                    if j < front.len() {
                        if let Some(b) = before {
                            assert(match front[j].hit(ray, t_min, t_max) {
                                Some(s) => b.surface.t <= s.t && (j < b.primitive ==> b.surface.t
                                    < s.t),
                                None => true,
                            });
                        }
                    }
                }
            },
        }
    }
}

/// At most one answer meets `is_nearest`.
pub proof fn lemma_nearest_unique(
    prims: Seq<PrimitiveModel>,
    ray: RayModel,
    t_min: int,
    t_max: int,
    r1: Option<HitModel>,
    r2: Option<HitModel>,
)
    requires
        is_nearest(prims, ray, t_min, t_max, r1),
        is_nearest(prims, ray, t_min, t_max, r2),
    ensures
        r1 == r2,
{
}

/// A ray that misses every primitive of the scene hits nothing, and a ray
/// that hits nothing misses every primitive.
pub proof fn lemma_miss_iff_all_missed(
    prims: Seq<PrimitiveModel>,
    ray: RayModel,
    t_min: int,
    t_max: int,
)
    ensures
        nearest_hit(prims, ray, t_min, t_max) is None <==> forall|i: int|
            0 <= i < prims.len() ==> (#[trigger] prims[i].hit(ray, t_min, t_max)) is None,
{
    lemma_nearest_is_nearest(prims, ray, t_min, t_max);
}

/// The scene's answer is the least ray parameter at which any primitive is
/// hit, and it is attributed to the first primitive hit there.
pub proof fn lemma_nearest_is_least(
    prims: Seq<PrimitiveModel>,
    ray: RayModel,
    t_min: int,
    t_max: int,
    j: int,
)
    requires
        0 <= j < prims.len(),
        prims[j].hit(ray, t_min, t_max) is Some,
    ensures
        nearest_hit(prims, ray, t_min, t_max) is Some,
        nearest_hit(prims, ray, t_min, t_max)->0.surface.t <= prims[j].hit(ray, t_min, t_max)->0.t,
        nearest_hit(prims, ray, t_min, t_max)->0.surface.t == prims[j].hit(ray, t_min, t_max)->0.t
            ==> nearest_hit(prims, ray, t_min, t_max)->0.primitive <= j,
{
    lemma_nearest_is_nearest(prims, ray, t_min, t_max);
}

/// For two primitives hit at different ray parameters, the scene reports the
/// surface with the smaller parameter, in whichever order the two were added.
/// Where only one is hit, or none, the order is immaterial too.
pub proof fn lemma_order_of_two_is_immaterial(
    a: PrimitiveModel,
    b: PrimitiveModel,
    ray: RayModel,
    t_min: int,
    t_max: int,
)
    requires
        a.hit(ray, t_min, t_max) is Some && b.hit(ray, t_min, t_max) is Some ==> a.hit(
            ray,
            t_min,
            t_max,
        )->0.t != b.hit(ray, t_min, t_max)->0.t,
    ensures
        surface_of(nearest_hit(seq![a, b], ray, t_min, t_max)) == surface_of(
            nearest_hit(seq![b, a], ray, t_min, t_max),
        ),
        surface_of(nearest_hit(seq![a, b], ray, t_min, t_max)) == match (
            a.hit(ray, t_min, t_max),
            b.hit(ray, t_min, t_max),
        ) {
            (Some(x), Some(y)) => if x.t < y.t {
                Some(x)
            } else {
                Some(y)
            },
            (Some(x), None) => Some(x),
            (None, Some(y)) => Some(y),
            (None, None) => None,
        },
{
    lemma_pair(a, b, ray, t_min, t_max);
    lemma_pair(b, a, ray, t_min, t_max);
}

/// Two scenes that hold the same primitives, in whatever order and however
/// often, show a ray the same surface, as long as no two primitives are hit
/// at the same ray parameter on different surfaces: the order of insertion
/// decides only between hits at exactly the same parameter.
pub proof fn lemma_order_is_immaterial(
    p: Seq<PrimitiveModel>,
    q: Seq<PrimitiveModel>,
    ray: RayModel,
    t_min: int,
    t_max: int,
)
    requires
        forall|i: int| 0 <= i < p.len() ==> q.contains(#[trigger] p[i]),
        forall|j: int| 0 <= j < q.len() ==> p.contains(#[trigger] q[j]),
        forall|i: int, k: int|
            0 <= i < p.len() && 0 <= k < p.len() ==> match (
                #[trigger] p[i].hit(ray, t_min, t_max),
                #[trigger] p[k].hit(ray, t_min, t_max),
            ) {
                (Some(a), Some(b)) => a.t == b.t ==> a == b,
                _ => true,
            },
    ensures
        surface_of(nearest_hit(p, ray, t_min, t_max)) == surface_of(
            nearest_hit(q, ray, t_min, t_max),
        ),
{
    lemma_nearest_is_nearest(p, ray, t_min, t_max);
    lemma_nearest_is_nearest(q, ray, t_min, t_max);
    match (nearest_hit(p, ray, t_min, t_max), nearest_hit(q, ray, t_min, t_max)) {
        (Some(h), Some(g)) => {
            assert(q.contains(p[h.primitive]));
            let j = choose|j: int| 0 <= j < q.len() && q[j] == p[h.primitive];
            assert(q[j].hit(ray, t_min, t_max) == Some(h.surface));
            assert(p.contains(q[g.primitive]));
            let i = choose|i: int| 0 <= i < p.len() && p[i] == q[g.primitive];
            assert(p[i].hit(ray, t_min, t_max) == Some(g.surface));
            assert(p[h.primitive].hit(ray, t_min, t_max) == Some(h.surface));
        },
        (Some(h), None) => {
            assert(q.contains(p[h.primitive]));
            let j = choose|j: int| 0 <= j < q.len() && q[j] == p[h.primitive];
            assert(q[j].hit(ray, t_min, t_max) == Some(h.surface));
        },
        (None, Some(g)) => {
            assert(p.contains(q[g.primitive]));
            let i = choose|i: int| 0 <= i < p.len() && p[i] == q[g.primitive];
            assert(p[i].hit(ray, t_min, t_max) == Some(g.surface));
        },
        (None, None) => {},
    }
}

/// Of two primitives hit at the same ray parameter, the one added first is
/// reported.
pub proof fn lemma_first_wins_tie(
    a: PrimitiveModel,
    b: PrimitiveModel,
    ray: RayModel,
    t_min: int,
    t_max: int,
)
    requires
        a.hit(ray, t_min, t_max) is Some,
        b.hit(ray, t_min, t_max) is Some,
        a.hit(ray, t_min, t_max)->0.t == b.hit(ray, t_min, t_max)->0.t,
    ensures
        nearest_hit(seq![a, b], ray, t_min, t_max) == Some(
            HitModel { surface: a.hit(ray, t_min, t_max)->0, primitive: 0 },
        ),
{
    lemma_pair(a, b, ray, t_min, t_max);
}

/// The surface of an optional hit.
pub open spec fn surface_of(r: Option<HitModel>) -> Option<SurfaceModel> {
    match r {
        Some(h) => Some(h.surface),
        None => None,
    }
}

/// The scene of two primitives, unfolded.
proof fn lemma_pair(a: PrimitiveModel, b: PrimitiveModel, ray: RayModel, t_min: int, t_max: int)
    ensures
        nearest_hit(seq![a, b], ray, t_min, t_max) == nearer(
            nearer(None, a.hit(ray, t_min, t_max), 0),
            b.hit(ray, t_min, t_max),
            1,
        ),
{
    reveal_with_fuel(nearest_hit, 3);
    assert(seq![a, b].drop_last() =~= seq![a]);
    assert(seq![a].drop_last() =~= Seq::<PrimitiveModel>::empty());
}

/// The scene's answer lies strictly inside the interval that was asked for.
pub proof fn lemma_nearest_in_range(
    prims: Seq<PrimitiveModel>,
    ray: RayModel,
    t_min: int,
    t_max: int,
)
    requires
        nearest_hit(prims, ray, t_min, t_max) is Some,
    ensures
        t_min < nearest_hit(prims, ray, t_min, t_max)->0.surface.t < t_max,
{
    lemma_nearest_is_nearest(prims, ray, t_min, t_max);
    let h = nearest_hit(prims, ray, t_min, t_max)->0;
    match prims[h.primitive] {
        PrimitiveModel::Sphere(s) => {
            crate::sphere::lemma_hit_in_range(s, ray, t_min, t_max);
        },
    }
}

/// The point that a scene of spheres within the world reports lies on the
/// sphere that it names, but for rounding: the square of its distance from
/// the center differs from the square of the radius by no more than eight
/// times the radius and three, and the normal lies along the line from the
/// center to the point and has length `ONE` to within four units. The
/// length of the ray's direction plays no part.
pub proof fn lemma_nearest_on_sphere(
    prims: Seq<PrimitiveModel>,
    ray: RayModel,
    t_min: int,
    t_max: int,
)
    requires
        forall|i: int| 0 <= i < prims.len() ==> (#[trigger] prims[i])->Sphere_0.in_scene(),
        nearest_hit(prims, ray, t_min, t_max) is Some,
    ensures
        ({
            let h = nearest_hit(prims, ray, t_min, t_max)->0;
            let s = prims[h.primitive]->Sphere_0;
            let q = h.surface.point.minus(s.center);
            &&& 0 <= h.primitive < prims.len()
            &&& s.radius > 0
            &&& s.radius * s.radius - 8 * s.radius - 3 <= q.norm_sq() <= s.radius * s.radius + 6
                * s.radius
            &&& h.surface.normal == SphereModel::normal_at(ray, q, h.surface.front_face)
            &&& crate::fixed::ONE - 4 <= h.surface.normal.norm() <= crate::fixed::ONE + 3
        }),
{
    lemma_nearest_is_nearest(prims, ray, t_min, t_max);
    let h = nearest_hit(prims, ray, t_min, t_max)->0;
    assert(prims[h.primitive].hit(ray, t_min, t_max) == Some(h.surface));
    match prims[h.primitive] {
        PrimitiveModel::Sphere(s) => {
            crate::sphere::lemma_hit_on_sphere(s, ray, t_min, t_max);
        },
    }
}

/// Where the nearest primitive along a ray is a sphere that the ray points
/// at the center of from outside, with a direction of any length, the scene
/// reports a hit from outside whose normal is the outward one, of length
/// `ONE` to within four units, at a point that lies on the sphere but for
/// rounding. The direction points at the center where `j` times the
/// direction is `k` times the vector from the origin to the center, for
/// positive `j` and `k`.
pub proof fn lemma_nearest_through_center(
    prims: Seq<PrimitiveModel>,
    ray: RayModel,
    t_min: int,
    t_max: int,
    j: int,
    k: int,
)
    requires
        nearest_hit(prims, ray, t_min, t_max) is Some,
        ({
            let s = prims[nearest_hit(prims, ray, t_min, t_max)->0.primitive]->Sphere_0;
            &&& s.in_scene()
            &&& j > 0
            &&& k > 0
            &&& j * ray.direction.x == k * (s.center.x - ray.origin.x)
            &&& j * ray.direction.y == k * (s.center.y - ray.origin.y)
            &&& j * ray.direction.z == k * (s.center.z - ray.origin.z)
            &&& s.offset(ray).norm_sq() > s.radius * s.radius
            &&& t_min < s.near_root(ray) < t_max
        }),
    ensures
        ({
            let h = nearest_hit(prims, ray, t_min, t_max)->0;
            let s = prims[h.primitive]->Sphere_0;
            let q = h.surface.point.minus(s.center);
            &&& h.surface.front_face
            &&& h.surface.t == s.near_root(ray)
            &&& h.surface.normal == SphereModel::normal_at(ray, q, true)
            &&& s.radius >= 9 ==> h.surface.normal == q.normalized()
            &&& crate::fixed::ONE - 4 <= h.surface.normal.norm() <= crate::fixed::ONE + 3
            &&& s.radius * s.radius - 8 * s.radius - 3 <= q.norm_sq() <= s.radius * s.radius + 6
                * s.radius
        }),
{
    lemma_nearest_is_nearest(prims, ray, t_min, t_max);
    let h = nearest_hit(prims, ray, t_min, t_max)->0;
    assert(prims[h.primitive].hit(ray, t_min, t_max) == Some(h.surface));
    match prims[h.primitive] {
        PrimitiveModel::Sphere(s) => {
            crate::sphere::lemma_hit_through_center(s, ray, t_min, t_max, j, k);
        },
    }
}

/// A sphere whose radius is not positive is never the primitive reported.
pub proof fn lemma_flat_sphere_never_reported(
    prims: Seq<PrimitiveModel>,
    ray: RayModel,
    t_min: int,
    t_max: int,
)
    requires
        nearest_hit(prims, ray, t_min, t_max) is Some,
    ensures
        0 <= nearest_hit(prims, ray, t_min, t_max)->0.primitive < prims.len(),
        prims[nearest_hit(prims, ray, t_min, t_max)->0.primitive]->Sphere_0.radius > 0,
{
    lemma_nearest_is_nearest(prims, ray, t_min, t_max);
}

} // verus!

//! Shading: the light that arrives along a ray. A ray that leaves the scene
//! sees the sky. A ray that meets a surface is scattered into the half-space
//! before the surface and passes on a share of what the scattered ray sees,
//! as long as bounces are left; with none left it sees no light.

use vstd::prelude::*;
use crate::color::{attenuate, attenuate_n, background, black, lemma_attenuate_in_unit,
    lemma_attenuate_n_shift, lemma_background_in_unit, rgb_in_unit, Color, Rgb};
use crate::ray::{Ray, RayModel};
use crate::rng::{advance_by, draw_direction, Rng};
use crate::sphere::{Intersection, SurfaceModel};
use crate::vec3::{Vec3, Vector};
use crate::world::{nearest_hit, PrimitiveModel, World};

verus! {

/// The least ray parameter at which a surface counts as hit. It is positive,
/// so that a scattered ray does not meet the surface it starts on.
pub const T_MIN: i64 = 66;

/// The ray parameter below which a surface counts as hit: as far as a ray
/// parameter reaches.
pub const T_MAX: i64 = 0x7FFF_FFFF_FFFF_FFFF;

/// The ray that leaves a surface after a bounce: from the point of the hit
/// along the normal plus a direction drawn at `state`, normalized. Where
/// that does not point to the normal's side of the surface, because the two
/// cancel or nearly so, the ray leaves along the normal.
pub open spec fn scatter_spec(surface: SurfaceModel, state: u64) -> RayModel {
    let toward = surface.normal.plus(draw_direction(state)).saturate().normalized();
    RayModel {
        origin: surface.point,
        direction: if surface.normal.dot(toward) > 0 {
            toward
        } else {
            surface.normal
        },
    }
}

/// A scattered ray starts at the point of the hit and leaves to the
/// normal's side of the surface: its direction has a positive dot product
/// with the normal, unless the normal is zero. Its direction is as long as
/// a unit normal is: `ONE` to within four units. So the least ray parameter
/// `T_MIN` stands for the same distance on every scattered ray.
pub proof fn lemma_scatter_leaves_surface(surface: SurfaceModel, state: u64)
    ensures
        scatter_spec(surface, state).origin == surface.point,
        surface.normal != (Vector { x: 0, y: 0, z: 0 }) ==> surface.normal.dot(
            scatter_spec(surface, state).direction,
        ) > 0,
        crate::fixed::ONE - 4 <= surface.normal.norm() <= crate::fixed::ONE + 3
            ==> crate::fixed::ONE - 4 <= scatter_spec(surface, state).direction.norm()
            <= crate::fixed::ONE + 3,
{
    let n = surface.normal;
    assert(n.x * n.x >= 0 && n.y * n.y >= 0 && n.z * n.z >= 0 && (n.x != 0 ==> n.x * n.x > 0) && (
    n.y != 0 ==> n.y * n.y > 0) && (n.z != 0 ==> n.z * n.z > 0)) by (nonlinear_arith);
    let sum = n.plus(draw_direction(state)).saturate();
    let toward = sum.normalized();
    if n.dot(toward) > 0 {
        if sum.norm_sq() == 0 {
            assert(n.x * 0 + n.y * 0 + n.z * 0 == 0) by (nonlinear_arith);
        } else {
            crate::vec3::lemma_normalized_length(sum);
        }
    }
}

/// The light that arrives along `ray` in the scene `prims` with `depth`
/// bounces left, the generator standing at `state`.
pub open spec fn radiance(prims: Seq<PrimitiveModel>, ray: RayModel, state: u64, depth: nat) -> Rgb
    decreases depth,
{
    match nearest_hit(prims, ray, T_MIN as int, T_MAX as int) {
        None => background(ray.direction),
        Some(h) => if depth == 0 {
            black()
        } else {
            attenuate(
                radiance(
                    prims,
                    scatter_spec(h.surface, state),
                    advance_by(state, 3),
                    (depth - 1) as nat,
                ),
            )
        },
    }
}

/// Every channel of the light that arrives along a ray is a fraction.
pub proof fn lemma_radiance_in_unit(
    prims: Seq<PrimitiveModel>,
    ray: RayModel,
    state: u64,
    depth: nat,
)
    ensures
        rgb_in_unit(radiance(prims, ray, state, depth)),
    decreases depth,
{
    match nearest_hit(prims, ray, T_MIN as int, T_MAX as int) {
        None => {
            lemma_background_in_unit(ray.direction);
        },
        Some(h) => {
            if depth > 0 {
                let next = radiance(
                    prims,
                    scatter_spec(h.surface, state),
                    advance_by(state, 3),
                    (depth - 1) as nat,
                );
                lemma_radiance_in_unit(
                    prims,
                    scatter_spec(h.surface, state),
                    advance_by(state, 3),
                    (depth - 1) as nat,
                );
                lemma_attenuate_in_unit(next);
            }
        },
    }
}

/// A ray that leaves the scene sees the sky, whatever the depth and the
/// state of the generator.
pub proof fn lemma_miss_sees_background(
    prims: Seq<PrimitiveModel>,
    ray: RayModel,
    state: u64,
    depth: nat,
)
    requires
        nearest_hit(prims, ray, T_MIN as int, T_MAX as int) is None,
    ensures
        radiance(prims, ray, state, depth) == background(ray.direction),
{
}

/// In the empty scene every ray sees the sky.
pub proof fn lemma_empty_scene_sees_background(ray: RayModel, state: u64, depth: nat)
    ensures
        radiance(Seq::<PrimitiveModel>::empty(), ray, state, depth) == background(ray.direction),
{
}

/// With no bounce left a ray sees the sky or nothing: the sky where it
/// leaves the scene, no light where it meets a surface.
pub proof fn lemma_depth_zero(prims: Seq<PrimitiveModel>, ray: RayModel, state: u64)
    ensures
        radiance(prims, ray, state, 0) == if nearest_hit(prims, ray, T_MIN as int, T_MAX as int)
            is None {
            background(ray.direction)
        } else {
            black()
        },
{
}

/// The ray that leaves `surface` after a bounce.
pub fn scatter(surface: &Intersection, rng: &mut Rng) -> (r: Ray)
    requires
        surface.wf(),
    ensures
        r.wf(),
        r@ == scatter_spec(surface@, old(rng).state),
        final(rng).state == advance_by(old(rng).state, 3),
{
    let drawn: Vec3 = rng.next_direction();
    let toward: Vec3 = surface.normal.plus(drawn).normalize();
    let direction: Vec3 = if surface.normal.dot(toward) > 0 {
        toward
    } else {
        surface.normal
    };
    Ray { origin: surface.point, direction }
}

/// The light that arrives along `ray` with at most `max_depth` bounces.
/// The bounces are followed one after another and the losses applied at the
/// end, so the work needs no stack however deep the ray goes.
pub fn trace(world: &World, ray: Ray, rng: Rng, max_depth: u32) -> (c: Color)
    requires
        world.wf(),
        ray.wf(),
    ensures
        c.wf(),
        c@ == radiance(world@, ray@, rng.state, max_depth as nat),
{
    let mut current: Ray = ray;
    let mut source: Rng = rng;
    let mut remaining: u32 = max_depth;
    let mut bounces: u32 = 0;
    let mut leaf: Option<Color> = None;
    proof {
        reveal_with_fuel(attenuate_n, 1);
    }
    while leaf.is_none()
        invariant
            world.wf(),
            current.wf(),
            bounces + remaining == max_depth,
            radiance(world@, ray@, rng.state, max_depth as nat) == attenuate_n(
                radiance(world@, current@, source.state, remaining as nat),
                bounces as nat,
            ),
            leaf matches Some(l) ==> l.wf() && l@ == radiance(
                world@,
                current@,
                source.state,
                remaining as nat,
            ),
        decreases
                remaining + if leaf.is_none() {
                    1int
                } else {
                    0int
                },
    {
        match world.hit(&current, T_MIN, T_MAX) {
            None => {
                leaf = Some(Color::background(current.direction));
            },
            Some(h) => {
                if remaining == 0 {
                    leaf = Some(Color::black());
                } else {
                    proof {
                        lemma_attenuate_n_shift(
                            radiance(
                                world@,
                                scatter_spec(h.surface@, source.state),
                                advance_by(source.state, 3),
                                (remaining - 1) as nat,
                            ),
                            bounces as nat,
                        );
                    }
                    current = scatter(&h.surface, &mut source);
                    remaining = remaining - 1;
                    bounces = bounces + 1;
                }
            },
        }
    }
    let seen: Color = leaf.unwrap();
    let mut color: Color = seen;
    let mut applied: u32 = 0;
    while applied < bounces
        invariant
            applied <= bounces,
            color.wf(),
            color@ == attenuate_n(seen@, applied as nat),
        decreases bounces - applied,
    {
        color = color.attenuate();
        applied = applied + 1;
    }
    color
}

} // verus!

use vexray::fixed::ONE;
use vexray::ray::Ray;
use vexray::shade::{T_MAX, T_MIN};
use vexray::sphere::Sphere;
use vexray::vec3::Vec3;
use vexray::world::{Primitive, World};

fn toward_minus_z() -> Ray {
    Ray::new(Vec3::new(0, 0, 0), Vec3::new(0, 0, -ONE))
}

#[test]
fn sphere_hit_through_the_center() {
    let s = Sphere::new(Vec3::new(0, 0, -ONE), ONE / 2);
    let h = s.hit(&toward_minus_z(), T_MIN, T_MAX).unwrap();
    assert_eq!(h.t, ONE / 2);
    assert_eq!(h.point, Vec3 { x: 0, y: 0, z: -ONE / 2 });
    assert_eq!(h.normal, Vec3 { x: 0, y: 0, z: ONE });
    assert!(h.front_face);
}

#[test]
fn normal_points_away_from_the_center() {
    let center = Vec3::new(ONE, 2 * ONE, -5 * ONE);
    let radius = 3 * ONE / 2;
    let s = Sphere::new(center, radius);
    let origin = Vec3::new(-2 * ONE, 0, ONE);
    let ray = Ray::new(origin, center.minus(origin));
    let h = s.hit(&ray, T_MIN, T_MAX).unwrap();
    assert!(h.front_face);
    let len = h.normal.length();
    assert!(ONE - 64 <= len && len <= ONE + 64);
    let radial = h.point.minus(center);
    let along = h.normal.dot(radial) / radius;
    assert!(ONE - 64 <= along && along <= ONE + 64);
    assert!(h.normal.dot(ray.direction) < 0);
}

#[test]
fn sphere_hit_from_inside_takes_the_far_root() {
    let s = Sphere::new(Vec3::new(0, 0, -ONE), ONE / 2);
    let ray = Ray::new(Vec3::new(0, 0, -ONE), Vec3::new(0, 0, -ONE));
    let h = s.hit(&ray, T_MIN, T_MAX).unwrap();
    assert_eq!(h.t, ONE / 2);
    assert_eq!(h.point, Vec3 { x: 0, y: 0, z: -ONE - ONE / 2 });
    assert!(!h.front_face);
    assert_eq!(h.normal, Vec3 { x: 0, y: 0, z: ONE });
}

#[test]
fn sphere_hit_respects_the_interval() {
    let s = Sphere::new(Vec3::new(0, 0, -ONE), ONE / 2);
    let ray = toward_minus_z();
    assert!(s.hit(&ray, T_MIN, ONE / 2).is_none());
    assert_eq!(s.hit(&ray, ONE / 2, T_MAX).unwrap().t, 3 * ONE / 2);
    assert!(s.hit(&ray, 3 * ONE / 2, T_MAX).is_none());
    assert_eq!(s.hit(&ray, ONE / 2 - 1, ONE / 2 + 1).unwrap().t, ONE / 2);
}

#[test]
fn sphere_missed_by_a_ray_that_passes_by() {
    let s = Sphere::new(Vec3::new(0, 0, -ONE), ONE / 2);
    let up = Ray::new(Vec3::new(0, 0, 0), Vec3::new(0, ONE, 0));
    assert!(s.hit(&up, T_MIN, T_MAX).is_none());
    let away = Ray::new(Vec3::new(0, 0, 0), Vec3::new(0, 0, ONE));
    assert!(s.hit(&away, T_MIN, T_MAX).is_none());
    let still = Ray::new(Vec3::new(0, 0, 0), Vec3::new(0, 0, 0));
    assert!(s.hit(&still, T_MIN, T_MAX).is_none());
}

#[test]
fn sphere_without_positive_radius_is_never_hit() {
    let ray = toward_minus_z();
    let flat = Sphere::new(Vec3::new(0, 0, -ONE), 0);
    assert!(flat.hit(&ray, T_MIN, T_MAX).is_none());
    let negative = Sphere::new(Vec3::new(0, 0, -ONE), -ONE);
    assert!(negative.hit(&ray, T_MIN, T_MAX).is_none());
    assert!(negative.hit(&ray, i64::MIN, i64::MAX).is_none());
    let mut w = World::new();
    w.add_sphere(Vec3::new(0, 0, -ONE), 0);
    w.add_sphere(Vec3::new(0, 0, -ONE), -5);
    assert_eq!(w.len(), 2);
    assert!(w.hit(&ray, T_MIN, T_MAX).is_none());
    w.add_sphere(Vec3::new(0, 0, -3 * ONE), ONE / 2);
    assert_eq!(w.hit(&ray, T_MIN, T_MAX).unwrap().primitive, 2);
}

#[test]
fn direction_length_does_not_move_the_point() {
    let s = Sphere::new(Vec3::new(0, 0, -ONE), ONE / 2);
    let long = Ray::new(Vec3::new(0, 0, 0), Vec3::new(0, 0, -4 * ONE));
    let h = s.hit(&long, T_MIN, T_MAX).unwrap();
    assert_eq!(h.t, ONE / 8);
    assert_eq!(h.point, Vec3 { x: 0, y: 0, z: -ONE / 2 });
    assert_eq!(h.normal, Vec3 { x: 0, y: 0, z: ONE });
}

#[test]
fn empty_world_is_never_hit() {
    let w = World::new();
    assert_eq!(w.len(), 0);
    assert!(w.hit(&toward_minus_z(), T_MIN, T_MAX).is_none());
}

#[test]
fn world_misses_where_every_primitive_is_missed() {
    let mut w = World::new();
    w.add_sphere(Vec3::new(0, 0, -ONE), ONE / 2);
    w.add_sphere(Vec3::new(0, -100 * ONE - ONE / 2, -ONE), 100 * ONE);
    let up = Ray::new(Vec3::new(0, 0, 0), Vec3::new(0, ONE, 0));
    assert!(w.hit(&up, T_MIN, T_MAX).is_none());
}

#[test]
fn world_reports_the_nearer_of_two() {
    let near = Sphere::new(Vec3::new(0, 0, -ONE), ONE / 2);
    let far = Sphere::new(Vec3::new(0, 0, -3 * ONE), ONE / 2);
    let ray = toward_minus_z();

    let mut a = World::new();
    a.add(Primitive::Sphere(near));
    a.add(Primitive::Sphere(far));
    let ha = a.hit(&ray, T_MIN, T_MAX).unwrap();
    assert_eq!(ha.surface.t, ONE / 2);
    assert_eq!(ha.primitive, 0);

    let mut b = World::new();
    b.add(Primitive::Sphere(far));
    b.add(Primitive::Sphere(near));
    let hb = b.hit(&ray, T_MIN, T_MAX).unwrap();
    assert_eq!(hb.primitive, 1);
    assert_eq!(ha.surface, hb.surface);
    assert_eq!(far.hit(&ray, T_MIN, T_MAX).unwrap().t, 5 * ONE / 2);
}

#[test]
fn world_reports_the_nearer_of_two_that_overlap() {
    let first = Sphere::new(Vec3::new(0, 0, -2 * ONE), ONE);
    let second = Sphere::new(Vec3::new(0, 0, -5 * ONE / 2), ONE);
    let ray = toward_minus_z();
    let mut a = World::new();
    a.add(Primitive::Sphere(first));
    a.add(Primitive::Sphere(second));
    let mut b = World::new();
    b.add(Primitive::Sphere(second));
    b.add(Primitive::Sphere(first));
    let ha = a.hit(&ray, T_MIN, T_MAX).unwrap();
    let hb = b.hit(&ray, T_MIN, T_MAX).unwrap();
    assert_eq!(ha.surface.t, ONE);
    assert_eq!(ha.surface, hb.surface);
    assert_eq!(ha.primitive, 0);
    assert_eq!(hb.primitive, 1);
}

#[test]
fn world_reports_the_first_of_a_tie() {
    let s = Sphere::new(Vec3::new(0, 0, -ONE), ONE / 2);
    let mut w = World::new();
    w.add(Primitive::Sphere(s));
    w.add(Primitive::Sphere(s));
    w.add(Primitive::Sphere(s));
    let h = w.hit(&toward_minus_z(), T_MIN, T_MAX).unwrap();
    assert_eq!(h.primitive, 0);
    assert_eq!(h.surface.t, ONE / 2);
}

#[test]
fn add_sphere_saturates_to_the_world() {
    let mut w = World::new();
    w.add_sphere(Vec3 { x: i64::MAX, y: 0, z: i64::MIN }, i64::MAX);
    assert_eq!(w.len(), 1);
    match w.primitives[0] {
        Primitive::Sphere(s) => {
            assert_eq!(s.center, Vec3 { x: 1 << 29, y: 0, z: -(1 << 29) });
            assert_eq!(s.radius, 1 << 29);
        }
    }
    let ray = Ray::new(Vec3::new(0, 0, 0), Vec3::new(ONE, 0, -ONE));
    assert!(w.hit(&ray, T_MIN, T_MAX).is_some());
}

#[test]
fn ray_from_the_surface_does_not_meet_it_again() {
    let s = Sphere::new(Vec3::new(0, 0, -ONE), ONE / 2);
    let first = s.hit(&toward_minus_z(), T_MIN, T_MAX).unwrap();
    let leaving = Ray::new(first.point, first.normal);
    assert!(s.hit(&leaving, T_MIN, T_MAX).is_none());
    assert_eq!(s.hit(&leaving, -1, T_MAX).unwrap().t, 0);
    let grazing = Ray::new(first.point, Vec3::new(ONE, 0, 0));
    assert!(s.hit(&grazing, T_MIN, T_MAX).is_none());
}

#[test]
fn hit_lies_inside_the_interval() {
    let mut w = World::new();
    w.add_sphere(Vec3::new(0, 0, -ONE), ONE / 2);
    w.add_sphere(Vec3::new(0, 0, -3 * ONE), ONE / 2);
    let ray = toward_minus_z();
    let bounds: [(i64, i64); 5] =
        [(T_MIN, T_MAX), (ONE / 2, T_MAX), (ONE, 3 * ONE), (3 * ONE, 4 * ONE), (0, ONE / 2 + 1)];
    for (lo, hi) in bounds {
        match w.hit(&ray, lo, hi) {
            Some(h) => assert!(lo < h.surface.t && h.surface.t < hi),
            None => assert!(false),
        }
    }
    assert_eq!(w.hit(&ray, ONE / 2, T_MAX).unwrap().surface.t, 3 * ONE / 2);
    assert_eq!(w.hit(&ray, 3 * ONE / 2, T_MAX).unwrap().primitive, 1);
    assert!(w.hit(&ray, 7 * ONE / 2, T_MAX).is_none());
}

#[test]
fn order_of_insertion_does_not_change_the_surface() {
    let a = Sphere::new(Vec3::new(0, 0, -4 * ONE), ONE);
    let b = Sphere::new(Vec3::new(ONE / 4, 0, -2 * ONE), ONE / 2);
    let c = Sphere::new(Vec3::new(0, ONE / 8, -7 * ONE), 2 * ONE);
    let orders: [[Sphere; 3]; 6] =
        [[a, b, c], [a, c, b], [b, a, c], [b, c, a], [c, a, b], [c, b, a]];
    let rays: [Ray; 3] = [
        toward_minus_z(),
        Ray::new(Vec3::new(0, 0, 0), Vec3::new(ONE / 16, ONE / 16, -ONE)),
        Ray::new(Vec3::new(0, 3 * ONE, 0), Vec3::new(0, -ONE / 2, -ONE)),
    ];
    for ray in rays {
        let mut seen = Vec::new();
        for order in orders {
            let mut w = World::new();
            for s in order {
                w.add(Primitive::Sphere(s));
            }
            seen.push(w.hit(&ray, T_MIN, T_MAX).map(|h| h.surface));
        }
        for s in &seen {
            assert_eq!(*s, seen[0]);
        }
    }
    let mut w = World::new();
    w.add(Primitive::Sphere(a));
    w.add(Primitive::Sphere(b));
    w.add(Primitive::Sphere(c));
    let h = w.hit(&toward_minus_z(), T_MIN, T_MAX).unwrap();
    assert_eq!(h.primitive, 1);
    assert_eq!(Some(h.surface), b.hit(&toward_minus_z(), T_MIN, T_MAX));
}

#[test]
fn long_direction_does_not_move_the_point() {
    let mut w = World::new();
    w.add_sphere(Vec3::new(0, 0, -ONE), ONE / 2);
    w.add_sphere(Vec3::new(0, -100 * ONE - ONE / 2, -ONE), 100 * ONE);
    let long = Ray::new(Vec3::new(0, 0, 1939866), Vec3::new(0, 0, -1073741824));
    let h = w.hit(&long, T_MIN, T_MAX).unwrap();
    assert_eq!(h.primitive, 0);
    assert_eq!(h.surface.t, 120);
    assert_eq!(h.surface.point, Vec3 { x: 0, y: 0, z: -ONE / 2 });
    assert_eq!(h.surface.normal, Vec3 { x: 0, y: 0, z: ONE });
    assert!(h.surface.front_face);
    let unit = Ray::new(Vec3::new(0, 0, 1939866), Vec3::new(0, 0, -ONE));
    let g = w.hit(&unit, T_MIN, T_MAX).unwrap();
    assert_eq!(g.surface.point, h.surface.point);
    assert_eq!(g.surface.normal, h.surface.normal);
    assert_eq!(g.surface.t, 1939866 + ONE / 2);
}

#[test]
fn point_of_a_hit_lies_on_the_sphere_for_any_direction_length() {
    let center = Vec3::new(3 * ONE, -2 * ONE, -9 * ONE);
    let radius: i64 = 5 * ONE / 2;
    let s = Sphere::new(center, radius);
    let origin = Vec3::new(-ONE, 4 * ONE, 2 * ONE);
    let aims: [(i64, i64, i64); 4] = [(4, -6, -11), (3, -5, -9), (5, -7, -12), (4, -5, -11)];
    let scales: [i64; 6] = [1, 3, 1000, 65536, 4000000, 80000000];
    for (x, y, z) in aims {
        for k in scales {
            let ray = Ray::new(origin, Vec3::new(x * k, y * k, z * k));
            let h = s.hit(&ray, 0, T_MAX).unwrap();
            let q = h.point.minus(center);
            let off = q.length_squared() - radius * radius;
            assert!(-(8 * radius + 3) <= off && off <= 8 * radius + 3);
            let len = h.normal.length();
            assert!(ONE - 4 <= len && len <= ONE + 3);
            assert!(h.front_face);
            assert_eq!(h.normal, q.normalize());
        }
    }
}

#[test]
fn short_direction_does_not_move_the_point() {
    let s = Sphere::new(Vec3::new(0, 0, -ONE), ONE / 2);
    let short = Ray::new(Vec3::new(0, 0, 0), Vec3::new(0, 0, -1));
    let h = s.hit(&short, T_MIN, T_MAX).unwrap();
    assert_eq!(h.t, 1 << 31);
    assert_eq!(h.point, Vec3 { x: 0, y: 0, z: -ONE / 2 });
    assert_eq!(h.normal, Vec3 { x: 0, y: 0, z: ONE });
    assert!(h.front_face);
}

#[test]
fn ray_through_the_center_meets_the_outward_normal() {
    let small = Sphere::new(Vec3::new(0, 0, -ONE), ONE / 2);
    let ground = Sphere::new(Vec3::new(0, -100 * ONE - ONE / 2, -ONE), 100 * ONE);
    let mut w = World::new();
    w.add(Primitive::Sphere(small));
    w.add(Primitive::Sphere(ground));
    let cases: [(usize, Sphere, Vec3); 5] = [
        (0, small, Vec3::new(0, 0, 30 * ONE)),
        (0, small, Vec3::new(2 * ONE, ONE, ONE)),
        (0, small, Vec3::new(-3 * ONE, 5 * ONE / 2, -4 * ONE)),
        (1, ground, Vec3::new(5 * ONE, 2 * ONE, ONE)),
        (1, ground, Vec3::new(-40 * ONE, 9 * ONE, 17 * ONE)),
    ];
    for (index, s, origin) in cases {
        let to_center = s.center.minus(origin);
        let short = Vec3::new(to_center.x / 32768, to_center.y / 32768, to_center.z / 32768);
        assert_eq!(short.scale(32768 * ONE), to_center);
        let directions: [Vec3; 4] =
            [short, to_center, to_center.scale(3 * ONE), short.scale(4000000 * ONE)];
        for d in directions {
            let ray = Ray::new(origin, d);
            let h = w.hit(&ray, 0, T_MAX).unwrap();
            assert_eq!(h.primitive, index);
            assert!(h.surface.front_face);
            let q = h.surface.point.minus(s.center);
            let off = q.length_squared() - s.radius * s.radius;
            assert!(-(8 * s.radius + 3) <= off && off <= 6 * s.radius);
            assert_eq!(h.surface.normal, q.normalize());
            let len = h.surface.normal.length();
            assert!(ONE - 4 <= len && len <= ONE + 3);
            let along = (h.surface.normal.dot(q) as i128 / s.radius as i128) as i64;
            assert!(ONE - 8 <= along && along <= ONE + 8);
            let expected = s.center.minus(d.normalize().scale(s.radius));
            let miss = h.surface.point.minus(expected);
            let slack = 8 + 8 * s.radius / ONE;
            assert!(miss.x.abs() <= slack && miss.y.abs() <= slack && miss.z.abs() <= slack);
            assert!(h.surface.normal.dot(d) < 0);
        }
    }
}

#[test]
fn tiny_sphere_still_has_a_unit_normal() {
    let s = Sphere::new(Vec3::new(0, 0, 0), 1);
    let ray = Ray::new(Vec3::new(ONE, ONE, ONE), Vec3::new(-ONE, -ONE, -ONE));
    let h = s.hit(&ray, T_MIN, T_MAX).unwrap();
    assert_eq!(h.point, Vec3::zero());
    assert!(h.front_face);
    assert_eq!(h.normal, Vec3 { x: 37837, y: 37837, z: 37837 });
    let len = h.normal.length();
    assert!(ONE - 4 <= len && len <= ONE + 3);
    let along = Ray::new(Vec3::new(0, 0, ONE), Vec3::new(0, 0, -ONE));
    let g = s.hit(&along, T_MIN, T_MAX).unwrap();
    assert_eq!(g.point, Vec3 { x: 0, y: 0, z: 1 });
    assert_eq!(g.normal, Vec3 { x: 0, y: 0, z: ONE });
    let radii: [i64; 6] = [1, 2, 3, 8, 9, 50];
    for r in radii {
        let small = Sphere::new(Vec3::new(5, -7, 11), r);
        let toward = Ray::new(Vec3::new(ONE, 2 * ONE, -ONE), Vec3::new(5 - ONE, -7 - 2 * ONE, 11 + ONE));
        let hit = small.hit(&toward, T_MIN, T_MAX).unwrap();
        let n = hit.normal.length();
        assert!(ONE - 4 <= n && n <= ONE + 3);
        let q = hit.point.minus(small.center);
        let off = q.length_squared() - r * r;
        assert!(-(8 * r + 3) <= off && off <= 6 * r);
        assert!(hit.front_face);
    }
}

use vexray::bands::{band_bounds, join_bands, render_in_bands};
use vexray::camera::{Camera, CameraConfig};
use vexray::color::{blend_channel, quantize_channel, Color, Pixel};
use vexray::config::{RenderConfig, RenderError};
use vexray::fixed::ONE;
use vexray::ray::Ray;
use vexray::render::{render, render_nth, render_pixel, render_rows, render_sample};
use vexray::rng::Rng;
use vexray::shade::{scatter, trace, T_MAX, T_MIN};
use vexray::sphere::Sphere;
use vexray::vec3::Vec3;
use vexray::world::World;

fn two_spheres() -> World {
    let mut w = World::new();
    w.add_sphere(Vec3::new(0, 0, -ONE), ONE / 2);
    w.add_sphere(Vec3::new(0, -100 * ONE - ONE / 2, -ONE), 100 * ONE);
    w
}

#[test]
fn background_is_a_vertical_gradient() {
    assert_eq!(Color::background(Vec3::new(0, ONE, 0)), Color { r: 32768, g: 45875, b: 65536 });
    assert_eq!(Color::background(Vec3::new(0, -ONE, 0)), Color { r: ONE, g: ONE, b: ONE });
    assert_eq!(Color::background(Vec3::new(ONE, 0, 0)), Color { r: 49152, g: 55705, b: 65536 });
    assert_eq!(Color::background(Vec3::new(0, 0, 0)), Color { r: 49152, g: 55705, b: 65536 });
    assert_eq!(Color::background(Vec3::new(0, 5 * ONE, 0)), Color::background(Vec3::new(0, 1, 0)));
}

#[test]
fn blend_of_fractions() {
    assert_eq!(blend_channel(0, ONE, 0), 0);
    assert_eq!(blend_channel(0, ONE, ONE), ONE);
    assert_eq!(blend_channel(0, ONE, 32768), 32768);
    assert_eq!(blend_channel(ONE, 0, 16384), 49152);
    assert_eq!(blend_channel(ONE, 45875, 32768), 55705);
}

#[test]
fn quantize_takes_the_square_root() {
    assert_eq!(quantize_channel(0), 0);
    assert_eq!(quantize_channel(ONE), 255);
    assert_eq!(quantize_channel(ONE / 4), 128);
    assert_eq!(quantize_channel(32768), 181);
    assert_eq!(quantize_channel(45875), 214);
    assert_eq!(quantize_channel(1), 1);
    assert_eq!(quantize_channel(-5), 0);
    assert_eq!(quantize_channel(i64::MAX), 255);
    assert_eq!(
        Color { r: 32768, g: 45875, b: 65536 }.to_pixel(),
        Pixel { r: 181, g: 214, b: 255, a: 255 }
    );
}

#[test]
fn colour_is_limited_and_attenuated() {
    assert_eq!(Color::new(-1, ONE + 1, 5), Color { r: 0, g: ONE, b: 5 });
    assert_eq!(Color::black(), Color { r: 0, g: 0, b: 0 });
    assert_eq!(Color::new(ONE, 32768, 1).attenuate(), Color { r: 32768, g: 16384, b: 0 });
    assert_eq!(Color::black().attenuate(), Color::black());
}

#[test]
fn standard_camera_spans_the_viewport() {
    let c = Camera::new(&CameraConfig::standard(), 200, 100);
    assert_eq!(c.origin, Vec3::zero());
    assert_eq!(c.horizontal, Vec3 { x: 4 * ONE, y: 0, z: 0 });
    assert_eq!(c.vertical, Vec3 { x: 0, y: 2 * ONE, z: 0 });
    assert_eq!(c.lower_left, Vec3 { x: -2 * ONE, y: -ONE, z: -ONE });
    assert_eq!(c.ray_for(0, 0).direction, Vec3 { x: -2 * ONE, y: -ONE, z: -ONE });
    assert_eq!(c.ray_for(ONE, ONE).direction, Vec3 { x: 2 * ONE, y: ONE, z: -ONE });
    assert_eq!(c.ray_for(ONE / 2, ONE / 2).direction, Vec3 { x: 0, y: 0, z: -ONE });
    assert_eq!(c.ray_for(ONE / 2, ONE / 2).origin, Vec3::zero());
    assert_eq!(CameraConfig::standard().viewport_width(200, 100), 4 * ONE);
    assert_eq!(CameraConfig::standard().viewport_width(1, 3), 43690);
}

#[test]
fn camera_follows_its_setup() {
    let setup = CameraConfig::new(
        Vec3::new(ONE, ONE, ONE),
        Vec3::new(2 * ONE, ONE, ONE),
        Vec3::new(0, ONE, 0),
        ONE,
    );
    let c = Camera::new(&setup, 10, 10);
    assert_eq!(c.origin, Vec3 { x: ONE, y: ONE, z: ONE });
    assert_eq!(c.horizontal, Vec3 { x: 0, y: 0, z: ONE });
    assert_eq!(c.vertical, Vec3 { x: 0, y: ONE, z: 0 });
    assert_eq!(c.ray_for(ONE / 2, ONE / 2).direction, Vec3 { x: ONE, y: 0, z: 0 });
    let same = Camera::new(&setup, 10, 10);
    assert_eq!(c, same);
}

#[test]
fn invalid_config_is_refused() {
    let w = World::new();
    assert_eq!(render(&RenderConfig::new(0, 10), &w).err(), Some(RenderError::InvalidConfig));
    assert_eq!(render(&RenderConfig::new(10, 0), &w).err(), Some(RenderError::InvalidConfig));
    assert_eq!(
        render(&RenderConfig::new(2, 2).with_samples(0), &w).err(),
        Some(RenderError::InvalidConfig)
    );
    assert_eq!(
        render_rows(&RenderConfig::new(0, 10), &w, 0, 0).err(),
        Some(RenderError::InvalidConfig)
    );
    assert_eq!(RenderConfig::new(0, 1).validate(), Err(RenderError::InvalidConfig));
    assert_eq!(RenderConfig::new(1, 1).validate(), Ok(()));
    assert!(render(&RenderConfig::new(2, 2).with_max_depth(0), &w).is_ok());
}

#[test]
fn checked_config_refuses_numbers_that_name_no_image() {
    assert_eq!(RenderConfig::checked(0, 1, 1, 0).err(), Some(RenderError::InvalidConfig));
    assert_eq!(RenderConfig::checked(-1, 1, 1, 0).err(), Some(RenderError::InvalidConfig));
    assert_eq!(RenderConfig::checked(1, 0, 1, 0).err(), Some(RenderError::InvalidConfig));
    assert_eq!(RenderConfig::checked(1, -7, 1, 0).err(), Some(RenderError::InvalidConfig));
    assert_eq!(RenderConfig::checked(1, 1, 0, 0).err(), Some(RenderError::InvalidConfig));
    assert_eq!(RenderConfig::checked(1, 1, 1, -1).err(), Some(RenderError::InvalidConfig));
    assert_eq!(RenderConfig::checked(1 << 32, 1, 1, 0).err(), Some(RenderError::InvalidConfig));
    let c = RenderConfig::checked(200, 100, 10, 5).unwrap();
    assert_eq!(c, RenderConfig::new(200, 100));
    assert_eq!(c.width, 200);
    assert_eq!(c.height, 100);
    assert_eq!(c.samples_per_pixel, 10);
    assert_eq!(c.max_depth, 5);
    let d = RenderConfig::checked(1, 1, 1, 0).unwrap().with_seed(9);
    assert_eq!(d.seed, 9);
    assert_eq!(d.max_depth, 0);
    assert_eq!(d.camera, CameraConfig::standard());
}

#[test]
fn buffer_has_four_bytes_per_pixel() {
    let w = two_spheres();
    let sizes: [(u32, u32); 5] = [(1, 1), (1, 7), (7, 1), (3, 2), (16, 9)];
    for (width, height) in sizes {
        let cfg = RenderConfig::new(width, height).with_samples(1).with_max_depth(2);
        let image = render(&cfg, &w).unwrap();
        assert_eq!(image.len(), (width * height * 4) as usize);
        assert_eq!(image.width, width);
        assert_eq!(image.height, height);
        let bytes = image.into_bytes();
        assert_eq!(bytes.len(), (width * height * 4) as usize);
        let mut i = 3;
        while i < bytes.len() {
            assert_eq!(bytes[i], 255);
            i += 4;
        }
    }
}

#[test]
fn empty_world_renders_the_background() {
    let w = World::new();
    let cfg = RenderConfig::new(8, 6).with_samples(1).with_max_depth(0).with_seed(42);
    let image = render(&cfg, &w).unwrap();
    let camera = Camera::new(&cfg.camera, cfg.width, cfg.height);
    let mut y = 0;
    while y < cfg.height {
        let mut x = 0;
        while x < cfg.width {
            let mut g = Rng::for_sample(cfg.seed, x, y, 0);
            let jx = g.next_unit();
            let jy = g.next_unit();
            let u = ((x as i64) * ONE + jx) / (cfg.width as i64);
            let v = (((cfg.height - 1 - y) as i64) * ONE + jy) / (cfg.height as i64);
            let ray = camera.ray_for(u, v);
            let expected = Color::background(ray.direction).to_pixel();
            assert_eq!(image.pixel(x, y), expected);
            x += 1;
        }
        y += 1;
    }
    let again = render(&cfg, &w).unwrap();
    assert_eq!(image.into_bytes(), again.into_bytes());
}

#[test]
fn top_of_the_sky_is_bluer_than_the_bottom() {
    let w = World::new();
    let cfg = RenderConfig::new(4, 16).with_samples(4);
    let image = render(&cfg, &w).unwrap();
    let top = image.pixel(2, 0);
    let bottom = image.pixel(2, 15);
    assert!(top.r < bottom.r);
    assert!(top.g < bottom.g);
    assert_eq!(top.b, 255);
    assert_eq!(bottom.b, 255);
}

#[test]
fn seed_decides_the_image() {
    let w = two_spheres();
    let cfg = RenderConfig::new(12, 8).with_samples(3).with_max_depth(4).with_seed(1);
    let a = render(&cfg, &w).unwrap().into_bytes();
    let b = render(&cfg, &w).unwrap().into_bytes();
    assert_eq!(a, b);
    let c = render(&cfg.with_seed(2), &w).unwrap().into_bytes();
    assert_eq!(a.len(), c.len());
    assert_ne!(a, c);
}

#[test]
fn bands_make_the_whole_image() {
    let w = two_spheres();
    let cfg = RenderConfig::new(10, 7).with_samples(2).with_max_depth(3).with_seed(5);
    let whole = render(&cfg, &w).unwrap().into_bytes();
    let mut joined: Vec<u8> = Vec::new();
    let mut lower = render_rows(&cfg, &w, 4, 7).unwrap();
    let mut upper = render_rows(&cfg, &w, 0, 4).unwrap();
    assert_eq!(upper.len(), 4 * 10 * 4);
    assert_eq!(lower.len(), 3 * 10 * 4);
    joined.append(&mut upper);
    joined.append(&mut lower);
    assert_eq!(joined, whole);
    assert_eq!(render_rows(&cfg, &w, 3, 3).unwrap().len(), 0);
    assert_eq!(render_rows(&cfg, &w, 0, 7).unwrap(), whole);
}

#[test]
fn pixel_is_the_mean_of_its_samples() {
    let w = two_spheres();
    let cfg = RenderConfig::new(6, 4).with_samples(5).with_max_depth(3).with_seed(11);
    let camera = Camera::new(&cfg.camera, cfg.width, cfg.height);
    let image = render(&cfg, &w).unwrap();
    let mut k: u64 = 0;
    while k < 24 {
        let x = (k % 6) as u32;
        let y = (k / 6) as u32;
        let mut sum = (0i64, 0i64, 0i64);
        let mut s = 0;
        while s < 5 {
            let c = render_sample(&cfg, &camera, &w, x, y, s);
            sum = (sum.0 + c.r, sum.1 + c.g, sum.2 + c.b);
            s += 1;
        }
        let mean = Color { r: sum.0 / 5, g: sum.1 / 5, b: sum.2 / 5 };
        assert_eq!(render_pixel(&cfg, &camera, &w, x, y), mean.to_pixel());
        assert_eq!(render_nth(&cfg, &camera, &w, k), mean.to_pixel());
        assert_eq!(image.pixel(x, y), mean.to_pixel());
        k += 1;
    }
}

#[test]
fn no_depth_gives_black_where_a_surface_is_met() {
    let w = two_spheres();
    let ray = Ray::new(Vec3::new(0, 0, 0), Vec3::new(0, 0, -ONE));
    assert_eq!(trace(&w, ray, Rng::new(1), 0), Color::black());
    let up = Ray::new(Vec3::new(0, 0, 0), Vec3::new(0, ONE, 0));
    assert_eq!(trace(&w, up, Rng::new(1), 0), Color { r: 32768, g: 45875, b: 65536 });
    assert_eq!(trace(&w, up, Rng::new(1), 9), Color { r: 32768, g: 45875, b: 65536 });
    let cfg = RenderConfig::new(9, 5).with_samples(1).with_max_depth(0);
    let image = render(&cfg, &w).unwrap();
    assert_eq!(image.pixel(4, 2), Pixel { r: 0, g: 0, b: 0, a: 255 });
    assert_eq!(image.pixel(4, 4), Pixel { r: 0, g: 0, b: 0, a: 255 });
    assert_ne!(image.pixel(4, 0), Pixel { r: 0, g: 0, b: 0, a: 255 });
}

#[test]
fn one_bounce_halves_what_the_scattered_ray_sees() {
    let mut w = World::new();
    w.add_sphere(Vec3::new(0, 0, -ONE), ONE / 2);
    let ray = Ray::new(Vec3::new(0, 0, 0), Vec3::new(0, 0, -ONE));
    let h = w.hit(&ray, T_MIN, T_MAX).unwrap();
    let mut g = Rng::new(77);
    let out = scatter(&h.surface, &mut g);
    assert_eq!(out.origin, h.surface.point);
    assert_eq!(out.direction, h.surface.normal.plus(Rng::new(77).next_direction()).normalize());
    assert!(out.direction.dot(h.surface.normal) >= 0);
    let seen = trace(&w, out, g, 0);
    assert_eq!(trace(&w, ray, Rng::new(77), 1), seen.attenuate());
    let deeper = trace(&w, out, g, 3);
    assert_eq!(trace(&w, ray, Rng::new(77), 4), deeper.attenuate());
}

#[test]
fn sphere_on_the_ground_end_to_end() {
    let w = two_spheres();
    let cfg = RenderConfig::new(200, 100).with_samples(10).with_max_depth(5).with_seed(2024);
    let image = render(&cfg, &w).unwrap();
    assert_eq!(image.len(), 200 * 100 * 4);
    let sky = render_rows(&cfg, &World::new(), 0, 1).unwrap();
    let mut x = 0;
    while x < 200 {
        let p = image.pixel(x, 0);
        let at = (x * 4) as usize;
        assert_eq!(p, Pixel { r: sky[at], g: sky[at + 1], b: sky[at + 2], a: sky[at + 3] });
        x += 1;
    }
    let camera = Camera::new(&cfg.camera, 200, 100);
    let open = render_pixel(&cfg, &camera, &World::new(), 100, 50);
    let center = image.pixel(100, 50);
    assert_ne!(center, open);
    assert!(center.r < open.r);
    assert_eq!(center.a, 255);
    let again = render(&cfg, &w).unwrap();
    assert_eq!(again.pixel(100, 50), center);
    assert_eq!(image.into_bytes(), again.into_bytes());
    let alone = Sphere::new(Vec3::new(0, 0, -ONE), ONE / 2);
    assert!(alone.hit(&camera.ray_for(ONE / 2, ONE / 2), T_MIN, T_MAX).is_some());
}

#[test]
fn more_samples_settle_the_pixel() {
    let w = two_spheres();
    let base = RenderConfig::new(20, 10).with_max_depth(5);
    let camera = Camera::new(&base.camera, 20, 10);
    let counts: [u32; 3] = [1, 8, 64];
    let mut spread: Vec<f64> = Vec::new();
    for n in counts {
        let cfg = base.with_samples(n);
        let mut values: Vec<f64> = Vec::new();
        let mut seed = 0u64;
        while seed < 48 {
            let p = render_pixel(&cfg.with_seed(seed), &camera, &w, 10, 5);
            values.push(p.r as f64);
            seed += 1;
        }
        let mean = values.iter().sum::<f64>() / values.len() as f64;
        let var = values.iter().map(|v| (v - mean) * (v - mean)).sum::<f64>() / values.len() as f64;
        spread.push(var);
    }
    assert!(spread[0] > 0.0);
    assert!(spread[1] < spread[0]);
    assert!(spread[2] < spread[1]);
}

#[test]
fn validity_can_be_asked_at_run_time() {
    assert!(Vec3::new(1, 2, 3).is_wf());
    assert!(!Vec3 { x: i64::MAX, y: 0, z: 0 }.is_wf());
    assert!(Ray::new(Vec3 { x: i64::MAX, y: 0, z: 0 }, Vec3::zero()).is_wf());
    assert!(!Ray { origin: Vec3 { x: 0, y: i64::MIN, z: 0 }, direction: Vec3::zero() }.is_wf());
    assert!(Sphere::new(Vec3::zero(), i64::MAX).is_wf());
    assert!(Sphere::new(Vec3::zero(), i64::MIN).is_wf());
    assert!(!Sphere { center: Vec3::zero(), radius: i64::MAX }.is_wf());
    let mut w = two_spheres();
    assert!(w.is_wf());
    w.primitives.push(vexray::world::Primitive::Sphere(Sphere {
        center: Vec3 { x: 0, y: 0, z: i64::MAX },
        radius: 1,
    }));
    assert!(!w.is_wf());
    assert!(CameraConfig::standard().is_wf());
    assert!(CameraConfig::new(Vec3::zero(), Vec3::zero(), Vec3::zero(), i64::MAX).is_wf());
    let mut odd = CameraConfig::standard();
    odd.viewport_height = i64::MAX;
    assert!(!odd.is_wf());
    assert!(RenderConfig::new(1920, 1080).fits_memory());
    assert!(RenderConfig::new(0, u32::MAX).fits_memory());
    assert_eq!(
        RenderConfig::new(u32::MAX, u32::MAX).fits_memory(),
        (u32::MAX as u128) * (u32::MAX as u128) * 4 <= usize::MAX as u128
    );
}

#[test]
fn light_is_never_more_than_full() {
    let w = two_spheres();
    let cfg = RenderConfig::new(16, 8).with_samples(1).with_max_depth(6).with_seed(3);
    let camera = Camera::new(&cfg.camera, 16, 8);
    let mut y = 0;
    while y < 8 {
        let mut x = 0;
        while x < 16 {
            let c = render_sample(&cfg, &camera, &w, x, y, 0);
            assert!(0 <= c.r && c.r <= ONE);
            assert!(0 <= c.g && c.g <= ONE);
            assert!(0 <= c.b && c.b <= ONE);
            x += 1;
        }
        y += 1;
    }
}

#[test]
fn samples_aim_within_their_pixel() {
    let cfg = RenderConfig::new(7, 5).with_seed(8);
    let camera = Camera::new(&cfg.camera, 7, 5);
    let left = camera.ray_for(3 * ONE / 7, 0).direction.x;
    let right = camera.ray_for(4 * ONE / 7, 0).direction.x;
    let low = camera.ray_for(0, (5 - 1 - 2) * ONE / 5).direction.y;
    let high = camera.ray_for(0, (5 - 2) * ONE / 5).direction.y;
    let mut s = 0;
    while s < 200 {
        let mut g = Rng::for_sample(cfg.seed, 3, 2, s);
        let jx = g.next_unit();
        let jy = g.next_unit();
        let u = (3 * ONE + jx) / 7;
        let v = ((5 - 1 - 2) * ONE + jy) / 5;
        assert!(3 * ONE / 7 <= u && u <= 4 * ONE / 7);
        assert!(2 * ONE / 5 <= v && v <= 3 * ONE / 5);
        let d = camera.ray_for(u, v).direction;
        assert!(left <= d.x && d.x <= right);
        assert!(low <= d.y && d.y <= high);
        s += 1;
    }
}

#[test]
fn scattered_ray_leaves_to_the_side_of_the_normal() {
    let mut w = World::new();
    w.add_sphere(Vec3::new(0, 0, -ONE), ONE / 2);
    let rays: [Ray; 3] = [
        Ray::new(Vec3::new(0, 0, 0), Vec3::new(0, 0, -ONE)),
        Ray::new(Vec3::new(ONE / 4, ONE / 8, 0), Vec3::new(0, 0, -7)),
        Ray::new(Vec3::new(0, 0, -ONE), Vec3::new(3, -2, 5)),
    ];
    for ray in rays {
        let h = w.hit(&ray, T_MIN, T_MAX).unwrap();
        let mut seed = 0u64;
        while seed < 2000 {
            let mut g = Rng::new(seed);
            let out = scatter(&h.surface, &mut g);
            assert_eq!(out.origin, h.surface.point);
            assert!(out.direction.dot(h.surface.normal) > 0);
            let toward = h.surface.normal.plus(Rng::new(seed).next_direction()).normalize();
            assert!(out.direction == toward || out.direction == h.surface.normal);
            let len = out.direction.length();
            assert!(ONE - 4 <= len && len <= ONE + 3);
            seed += 1;
        }
    }
    let flat = vexray::sphere::Intersection {
        t: 1,
        point: Vec3::zero(),
        normal: Vec3::new(0, ONE, 0),
        front_face: true,
    };
    let mut seed = 0u64;
    let mut kept = 0;
    while seed < 500 {
        let down = Rng::new(seed).next_direction();
        let out = scatter(&flat, &mut Rng::new(seed));
        let toward = flat.normal.plus(down).normalize();
        if toward.y > 0 {
            assert_eq!(out.direction, toward);
        } else {
            assert_eq!(out.direction, flat.normal);
            kept += 1;
        }
        seed += 1;
    }
    assert!(kept < 500);
}

#[test]
fn rows_are_shared_out_in_consecutive_bands() {
    assert_eq!(band_bounds(0, 4), Vec::<(u32, u32)>::new());
    assert_eq!(band_bounds(0, 0), Vec::<(u32, u32)>::new());
    assert_eq!(band_bounds(10, 1), vec![(0, 10)]);
    assert_eq!(band_bounds(10, 0), vec![(0, 10)]);
    assert_eq!(band_bounds(10, 3), vec![(0, 4), (4, 8), (8, 10)]);
    assert_eq!(band_bounds(9, 3), vec![(0, 3), (3, 6), (6, 9)]);
    assert_eq!(band_bounds(2, 8), vec![(0, 1), (1, 2)]);
    assert_eq!(band_bounds(1080, 16).len(), 16);
    assert_eq!(band_bounds(u32::MAX, 1), vec![(0, u32::MAX)]);
    let heights: [u32; 6] = [1, 2, 7, 100, 1080, 65537];
    let counts: [u32; 6] = [1, 2, 3, 16, 64, u32::MAX];
    for height in heights {
        for workers in counts {
            let bands = band_bounds(height, workers);
            assert!(!bands.is_empty());
            assert!(bands.len() as u64 <= workers as u64);
            assert_eq!(bands[0].0, 0);
            assert_eq!(bands[bands.len() - 1].1, height);
            let mut i = 0;
            while i < bands.len() {
                assert!(bands[i].0 < bands[i].1);
                if i > 0 {
                    assert_eq!(bands[i].0, bands[i - 1].1);
                }
                i += 1;
            }
        }
    }
}

#[test]
fn joined_bands_follow_one_another() {
    assert_eq!(join_bands(Vec::new()), Vec::<u8>::new());
    assert_eq!(join_bands(vec![vec![1, 2, 3]]), vec![1, 2, 3]);
    assert_eq!(join_bands(vec![vec![1, 2], Vec::new(), vec![3], vec![4, 5, 6]]), vec![
        1, 2, 3, 4, 5, 6
    ]);
}

#[test]
fn image_does_not_depend_on_the_number_of_workers() {
    let w = two_spheres();
    let cfg = RenderConfig::new(11, 9).with_samples(2).with_max_depth(3).with_seed(21);
    let whole = render(&cfg, &w).unwrap().into_bytes();
    let counts: [u32; 6] = [0, 1, 2, 4, 9, 100];
    for workers in counts {
        let image = render_in_bands(&cfg, &w, workers).unwrap();
        assert_eq!(image.width, 11);
        assert_eq!(image.height, 9);
        assert_eq!(image.into_bytes(), whole);
        let mut parts: Vec<Vec<u8>> = Vec::new();
        for (first, last) in band_bounds(cfg.height, workers).into_iter().rev() {
            parts.insert(0, render_rows(&cfg, &w, first, last).unwrap());
        }
        assert_eq!(join_bands(parts), whole);
    }
    assert_eq!(
        render_in_bands(&RenderConfig::new(0, 5), &w, 3).err(),
        Some(RenderError::InvalidConfig)
    );
    assert_eq!(
        render_in_bands(&cfg.with_samples(0), &w, 3).err(),
        Some(RenderError::InvalidConfig)
    );
}

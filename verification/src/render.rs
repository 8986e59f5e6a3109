//! The renderer: for every pixel a number of rays through random points of
//! the pixel, the mean of the light they see, and the bytes that stand for
//! it.
//!
//! A pixel's randomness comes from the seed, the pixel's coordinates and the
//! index of the sample alone. So a pixel's bytes are a function of the
//! configuration, the scene and the pixel, and an image rendered in bands or
//! whole, in any order, is the same image.

use vstd::prelude::*;
use vstd::arithmetic::div_mod::{lemma_div_is_ordered, lemma_div_multiples_vanish,
    lemma_div_pos_is_pos, lemma_fundamental_div_mod_converse,
    lemma_mod_bound, lemma_multiply_divide_lt};
use crate::camera::Camera;
use crate::color::{background, black, pixel_of, Color, Pixel, Rgb};
use crate::config::{RenderConfig, RenderError};
use crate::fixed::{floor_div, times_one, ONE};
use crate::framebuffer::{pixel_byte, pixel_offset, Framebuffer};
use crate::ray::{Ray, RayModel};
use crate::rng::{advance, draw_unit, sample_state, Rng};
use crate::shade::{lemma_radiance_in_unit, radiance, trace};
use crate::world::{PrimitiveModel, World};

verus! {

/// The fraction of the way across the image at which a ray through column
/// `x` aims, `jitter` being the fraction of the pixel's width from its left
/// edge.
pub open spec fn pixel_u(x: int, jitter: int, width: int) -> int {
    (x * ONE + jitter) / width
}

/// The fraction of the way up the image at which a ray through row `y`
/// aims, rows counted from the top, `jitter` being the fraction of the
/// pixel's height from its lower edge.
pub open spec fn pixel_v(y: int, jitter: int, height: int) -> int {
    ((height - 1 - y) * ONE + jitter) / height
}

/// The generator's state after the two draws that place a sample in its
/// pixel.
pub open spec fn state_after_jitter(cfg: RenderConfig, x: u32, y: u32, sample: u32) -> u64 {
    advance(advance(sample_state(cfg.seed, x, y, sample)))
}

/// The ray of one sample of the pixel in column `x` of row `y`.
pub open spec fn sample_ray(cfg: RenderConfig, x: u32, y: u32, sample: u32) -> RayModel {
    let state = sample_state(cfg.seed, x, y, sample);
    cfg.camera@.camera(cfg.width as int, cfg.height as int).ray_for(
        pixel_u(x as int, draw_unit(state), cfg.width as int),
        pixel_v(y as int, draw_unit(advance(state)), cfg.height as int),
    )
}

/// The light that one sample of a pixel sees.
pub open spec fn sample_radiance(
    cfg: RenderConfig,
    prims: Seq<PrimitiveModel>,
    x: u32,
    y: u32,
    sample: u32,
) -> Rgb {
    radiance(
        prims,
        sample_ray(cfg, x, y, sample),
        state_after_jitter(cfg, x, y, sample),
        cfg.max_depth as nat,
    )
}

/// The sum, channel by channel, of the light of the first `n` samples of a
/// pixel.
pub open spec fn pixel_sum(
    cfg: RenderConfig,
    prims: Seq<PrimitiveModel>,
    x: u32,
    y: u32,
    n: nat,
) -> Rgb
    decreases n,
{
    if n == 0 {
        black()
    } else {
        let before = pixel_sum(cfg, prims, x, y, (n - 1) as nat);
        let last = sample_radiance(cfg, prims, x, y, (n - 1) as u32);
        Rgb { r: before.r + last.r, g: before.g + last.g, b: before.b + last.b }
    }
}

/// The mean of the light of all samples of a pixel.
pub open spec fn pixel_mean(cfg: RenderConfig, prims: Seq<PrimitiveModel>, x: u32, y: u32) -> Rgb {
    let n = cfg.samples_per_pixel as int;
    let sum = pixel_sum(cfg, prims, x, y, n as nat);
    Rgb { r: sum.r / n, g: sum.g / n, b: sum.b / n }
}

/// The pixel in column `x` of row `y` of the image: the mean of its
/// samples, gamma-corrected and brought to bytes, fully opaque.
pub open spec fn pixel_model(cfg: RenderConfig, prims: Seq<PrimitiveModel>, x: u32, y: u32) -> Pixel {
    pixel_of(pixel_mean(cfg, prims, x, y))
}

/// The byte at position `i` of the image: pixels follow one another row by
/// row from the top, four bytes each.
pub open spec fn frame_byte(cfg: RenderConfig, prims: Seq<PrimitiveModel>, i: int) -> u8 {
    let k = i / 4;
    pixel_byte(
        pixel_model(cfg, prims, (k % (cfg.width as int)) as u32, (k / (cfg.width as int)) as u32),
        i % 4,
    )
}

/// The image of a configuration and a scene.
#[verifier::opaque]
pub open spec fn frame(cfg: RenderConfig, prims: Seq<PrimitiveModel>) -> Seq<u8> {
    Seq::new(cfg.byte_count() as nat, |i: int| frame_byte(cfg, prims, i))
}

/// The image has four bytes for each pixel.
pub proof fn lemma_frame_len(cfg: RenderConfig, prims: Seq<PrimitiveModel>)
    ensures
        frame(cfg, prims).len() == cfg.width * cfg.height * 4,
{
    reveal(frame);
    assert(cfg.width * cfg.height >= 0) by (nonlinear_arith);
}

/// The sum of `n` samples has every channel between zero and `n` times
/// `ONE`.
pub proof fn lemma_pixel_sum_bound(
    cfg: RenderConfig,
    prims: Seq<PrimitiveModel>,
    x: u32,
    y: u32,
    n: nat,
)
    ensures
        0 <= pixel_sum(cfg, prims, x, y, n).r <= n * 65536,
        0 <= pixel_sum(cfg, prims, x, y, n).g <= n * 65536,
        0 <= pixel_sum(cfg, prims, x, y, n).b <= n * 65536,
    decreases n,
{
    if n > 0 {
        lemma_pixel_sum_bound(cfg, prims, x, y, (n - 1) as nat);
        lemma_radiance_in_unit(
            prims,
            sample_ray(cfg, x, y, (n - 1) as u32),
            state_after_jitter(cfg, x, y, (n - 1) as u32),
            cfg.max_depth as nat,
        );
    }
}

/// The light that one sample of the pixel in column `x` of row `y` sees.
pub fn render_sample(
    cfg: &RenderConfig,
    camera: &Camera,
    world: &World,
    x: u32,
    y: u32,
    sample: u32,
) -> (c: Color)
    requires
        cfg.is_valid(),
        camera.wf(),
        camera@ == cfg.camera@.camera(cfg.width as int, cfg.height as int),
        world.wf(),
        x < cfg.width,
        y < cfg.height,
    ensures
        c.wf(),
        c@ == sample_radiance(*cfg, world@, x, y, sample),
{
    let mut rng: Rng = Rng::for_sample(cfg.seed, x, y, sample);
    let jitter_x: i64 = rng.next_unit();
    let jitter_y: i64 = rng.next_unit();
    let across: i128 = times_one(x as i128) + jitter_x as i128;
    let above: i128 = times_one((cfg.height - 1 - y) as i128) + jitter_y as i128;
    proof {
        lemma_fraction_of_image(x as int, jitter_x as int, cfg.width as int);
        lemma_fraction_of_image(
            (cfg.height - 1 - y) as int,
            jitter_y as int,
            cfg.height as int,
        );
    }
    let u: i64 = floor_div(across, cfg.width as i128) as i64;
    let v: i64 = floor_div(above, cfg.height as i128) as i64;
    let ray: Ray = camera.ray_for(u, v);
    trace(world, ray, rng, cfg.max_depth)
}

/// A point of pixel `k` of `n`, taken as a fraction of the whole, is a
/// fraction.
pub proof fn lemma_fraction_of_image(k: int, jitter: int, n: int)
    requires
        0 <= k < n,
        0 <= jitter < ONE,
    ensures
        0 <= k * ONE + jitter < n * ONE,
        0 <= (k * ONE + jitter) / n < ONE,
{
    let one = ONE as int;
    assert(0 <= k * one && k * one + one <= n * one) by (nonlinear_arith)
        requires
            0 <= k < n,
            one == 65536,
    ;
    lemma_div_pos_is_pos(k * one + jitter, n);
    lemma_multiply_divide_lt(k * one + jitter, n, one);
}

/// A sample aims within its own pixel: no further left than the pixel's
/// left edge and no further right than the left edge of the next pixel, and
/// in the same way between the lower edge of its row and that of the row
/// above.
pub proof fn lemma_sample_in_footprint(cfg: RenderConfig, x: u32, y: u32, jitter: int)
    requires
        cfg.is_valid(),
        x < cfg.width,
        y < cfg.height,
        0 <= jitter < ONE,
    ensures
        pixel_u(x as int, 0, cfg.width as int) <= pixel_u(x as int, jitter, cfg.width as int)
            <= pixel_u(x + 1, 0, cfg.width as int),
        pixel_v(y as int, 0, cfg.height as int) <= pixel_v(y as int, jitter, cfg.height as int)
            <= pixel_v(y - 1, 0, cfg.height as int),
        0 <= pixel_u(x as int, jitter, cfg.width as int) < ONE,
        0 <= pixel_v(y as int, jitter, cfg.height as int) < ONE,
{
    let one = ONE as int;
    let w = cfg.width as int;
    let h = cfg.height as int;
    let row = h - 1 - y;
    assert((x + 1) * one == x * one + one && (h - 1 - (y - 1)) * one == row * one + one)
        by (nonlinear_arith)
        requires
            row == h - 1 - y,
    ;
    lemma_div_is_ordered(x * one + 0, x * one + jitter, w);
    lemma_div_is_ordered(x * one + jitter, (x + 1) * one + 0, w);
    lemma_div_is_ordered(row * one + 0, row * one + jitter, h);
    lemma_div_is_ordered(row * one + jitter, (h - 1 - (y - 1)) * one + 0, h);
    lemma_fraction_of_image(x as int, jitter, w);
    lemma_fraction_of_image(row, jitter, h);
}

/// The pixel in column `x` of row `y` of the image.
pub fn render_pixel(cfg: &RenderConfig, camera: &Camera, world: &World, x: u32, y: u32) -> (p:
    Pixel)
    requires
        cfg.is_valid(),
        camera.wf(),
        camera@ == cfg.camera@.camera(cfg.width as int, cfg.height as int),
        world.wf(),
        x < cfg.width,
        y < cfg.height,
    ensures
        p == pixel_model(*cfg, world@, x, y),
{
    let n: u32 = cfg.samples_per_pixel;
    let mut sum_r: u64 = 0;
    let mut sum_g: u64 = 0;
    let mut sum_b: u64 = 0;
    let mut s: u32 = 0;
    while s < n
        invariant
            s <= n,
            n == cfg.samples_per_pixel,
            cfg.is_valid(),
            camera.wf(),
            camera@ == cfg.camera@.camera(cfg.width as int, cfg.height as int),
            world.wf(),
            x < cfg.width,
            y < cfg.height,
            sum_r == pixel_sum(*cfg, world@, x, y, s as nat).r,
            sum_g == pixel_sum(*cfg, world@, x, y, s as nat).g,
            sum_b == pixel_sum(*cfg, world@, x, y, s as nat).b,
        decreases n - s,
    {
        let c: Color = render_sample(cfg, camera, world, x, y, s);
        proof {
            lemma_pixel_sum_bound(*cfg, world@, x, y, s as nat);
            lemma_pixel_sum_bound(*cfg, world@, x, y, (s + 1) as nat);
        }
        sum_r = sum_r + c.r as u64;
        sum_g = sum_g + c.g as u64;
        sum_b = sum_b + c.b as u64;
        s = s + 1;
    }
    proof {
        lemma_pixel_sum_bound(*cfg, world@, x, y, n as nat);
        lemma_mean_in_unit(sum_r as int, n as int);
        lemma_mean_in_unit(sum_g as int, n as int);
        lemma_mean_in_unit(sum_b as int, n as int);
    }
    let mean: Color = Color {
        r: (sum_r / (n as u64)) as i64,
        g: (sum_g / (n as u64)) as i64,
        b: (sum_b / (n as u64)) as i64,
    };
    mean.to_pixel()
}

/// The mean of `n` fractions is a fraction.
pub proof fn lemma_mean_in_unit(sum: int, n: int)
    requires
        n > 0,
        0 <= sum <= n * 65536,
    ensures
        0 <= sum / n <= 65536,
{
    lemma_div_pos_is_pos(sum, n);
    lemma_div_is_ordered(sum, n * 65536, n);
    lemma_div_multiples_vanish(65536, n);
}

/// The pixel at position `k` of the image, pixels counted row by row from
/// the top.
pub fn render_nth(cfg: &RenderConfig, camera: &Camera, world: &World, k: u64) -> (p: Pixel)
    requires
        cfg.is_valid(),
        camera.wf(),
        camera@ == cfg.camera@.camera(cfg.width as int, cfg.height as int),
        world.wf(),
        k < cfg.width * cfg.height,
    ensures
        p == pixel_model(
            *cfg,
            world@,
            (k as int % cfg.width as int) as u32,
            (k as int / cfg.width as int) as u32,
        ),
{
    let width: u64 = cfg.width as u64;
    proof {
        lemma_multiply_divide_lt(k as int, width as int, cfg.height as int);
        lemma_mod_bound(k as int, width as int);
        lemma_div_pos_is_pos(k as int, width as int);
    }
    let row: u64 = k / width;
    let column: u64 = k % width;
    render_pixel(cfg, camera, world, column as u32, row as u32)
}

/// The four bytes at pixel `k` of the image are those of the pixel's model.
pub proof fn lemma_frame_at(cfg: RenderConfig, prims: Seq<PrimitiveModel>, k: int)
    requires
        0 <= k < cfg.width * cfg.height,
    ensures
        frame(cfg, prims).len() == cfg.byte_count(),
        4 * k + 3 < cfg.byte_count(),
        forall|c: int|
            0 <= c < 4 ==> #[trigger] frame(cfg, prims)[4 * k + c] == pixel_byte(
                pixel_model(
                    cfg,
                    prims,
                    (k % cfg.width as int) as u32,
                    (k / cfg.width as int) as u32,
                ),
                c,
            ),
{
    reveal(frame);
    assert forall|c: int| 0 <= c < 4 implies #[trigger] frame(cfg, prims)[4 * k + c] == pixel_byte(
        pixel_model(cfg, prims, (k % cfg.width as int) as u32, (k / cfg.width as int) as u32),
        c,
    ) by {
        assert((4 * k + c) / 4 == k);
    }
}

/// A band of an image that ends before pixel `k`, followed by the bytes of
/// pixel `k`, is the band that ends after it.
pub proof fn lemma_band_grows(image: Seq<u8>, start: int, k: int, p: Pixel)
    requires
        0 <= start <= k,
        4 * k + 4 <= image.len(),
        image[4 * k] == p.r,
        image[4 * k + 1] == p.g,
        image[4 * k + 2] == p.b,
        image[4 * k + 3] == p.a,
    ensures
        image.subrange(start * 4, k * 4).push(p.r).push(p.g).push(p.b).push(p.a)
            == image.subrange(start * 4, (k + 1) * 4),
{
    assert(image.subrange(start * 4, k * 4).push(p.r).push(p.g).push(p.b).push(p.a)
        =~= image.subrange(start * 4, (k + 1) * 4));
}

/// The bytes of the rows from `first_row` up to, not including, `last_row`,
/// or the refusal of a configuration that names no image. Rows count from
/// the top. The bytes are those that the whole image has at these rows.
pub fn render_rows(cfg: &RenderConfig, world: &World, first_row: u32, last_row: u32) -> (r: Result<
    Vec<u8>,
    RenderError,
>)
    requires
        world.wf(),
        cfg.camera.wf(),
        first_row <= last_row <= cfg.height,
        cfg.byte_count() <= usize::MAX,
    ensures
        r is Ok <==> cfg.is_valid(),
        r matches Err(e) ==> e == RenderError::InvalidConfig,
        r matches Ok(bytes) ==> bytes@ == frame(*cfg, world@).subrange(
            pixel_offset(cfg.width as int, 0, first_row as int),
            pixel_offset(cfg.width as int, 0, last_row as int),
        ),
{
    match cfg.validate() {
        Err(e) => {
            return Err(e);
        },
        Ok(_) => {},
    }
    let camera: Camera = Camera::new(&cfg.camera, cfg.width, cfg.height);
    let width: u64 = cfg.width as u64;
    let ghost total: int = cfg.width * cfg.height;
    proof {
        assert(first_row * cfg.width <= last_row * cfg.width <= cfg.height * cfg.width == total)
            by (nonlinear_arith)
            requires
                0 <= first_row <= last_row <= cfg.height,
                cfg.width > 0,
                total == cfg.width * cfg.height,
        ;
    }
    let start: u64 = (first_row as u64) * width;
    let end: u64 = (last_row as u64) * width;
    let ghost image = frame(*cfg, world@);
    let mut bytes: Vec<u8> = Vec::new();
    let mut k: u64 = start;
    proof {
        lemma_frame_len(*cfg, world@);
    }
    while k < end
        invariant
            start <= k <= end <= total,
            total == cfg.width * cfg.height,
            total * 4 <= usize::MAX,
            cfg.is_valid(),
            camera.wf(),
            camera@ == cfg.camera@.camera(cfg.width as int, cfg.height as int),
            world.wf(),
            image == frame(*cfg, world@),
            image.len() == total * 4,
            bytes@ == image.subrange(start * 4, k * 4),
        decreases end - k,
    {
        let p: Pixel = render_nth(cfg, &camera, world, k);
        let ghost before = bytes@;
        bytes.push(p.r);
        bytes.push(p.g);
        bytes.push(p.b);
        bytes.push(p.a);
        proof {
            lemma_frame_at(*cfg, world@, k as int);
            assert(image[4 * k + 0] == p.r);
            lemma_band_grows(image, start as int, k as int, p);
        }
        k = k + 1;
    }
    Ok(bytes)
}

/// The image of a configuration and a scene, or the refusal of a
/// configuration that names no image. A configuration that is accepted
/// always gets its whole image.
pub fn render(cfg: &RenderConfig, world: &World) -> (r: Result<Framebuffer, RenderError>)
    requires
        world.wf(),
        cfg.camera.wf(),
        cfg.byte_count() <= usize::MAX,
    ensures
        r is Ok <==> cfg.is_valid(),
        r matches Err(e) ==> e == RenderError::InvalidConfig,
        r matches Ok(image) ==> image.wf() && image.width == cfg.width && image.height
            == cfg.height && image@ == frame(*cfg, world@) && image@.len() == cfg.byte_count(),
{
    match render_rows(cfg, world, 0, cfg.height) {
        Err(e) => Err(e),
        Ok(data) => {
            proof {
                lemma_frame_len(*cfg, world@);
            }
            assert(data@ =~= frame(*cfg, world@)) by {
                assert(pixel_offset(cfg.width as int, 0, cfg.height as int) == cfg.byte_count())
                    by (nonlinear_arith)
                    requires
                        pixel_offset(cfg.width as int, 0, cfg.height as int) == (cfg.height
                            * cfg.width + 0) * 4,
                        cfg.byte_count() == cfg.width * cfg.height * 4,
                ;
            }
            Ok(Framebuffer { width: cfg.width, height: cfg.height, data })
        },
    }
}

/// In the empty scene every sample sees the sky in the direction of its
/// ray, whatever the depth.
pub proof fn lemma_empty_scene_sample(cfg: RenderConfig, x: u32, y: u32, sample: u32)
    ensures
        sample_radiance(cfg, Seq::<PrimitiveModel>::empty(), x, y, sample) == background(
            sample_ray(cfg, x, y, sample).direction,
        ),
{
}

/// With one sample per pixel, a pixel of the empty scene is the colour of
/// the sky in the direction of the pixel's ray, whatever the depth.
pub proof fn lemma_empty_scene_pixel(cfg: RenderConfig, x: u32, y: u32)
    requires
        cfg.samples_per_pixel == 1,
    ensures
        pixel_model(cfg, Seq::<PrimitiveModel>::empty(), x, y) == pixel_of(
            background(sample_ray(cfg, x, y, 0).direction),
        ),
{
    lemma_empty_scene_sample(cfg, x, y, 0);
    reveal_with_fuel(pixel_sum, 2);
}

/// The bytes of the image at the pixel in column `x` of row `y` are those
/// of the pixel's model: a pixel does not depend on where in the image it
/// stands, but for its coordinates.
pub proof fn lemma_frame_pixel(cfg: RenderConfig, prims: Seq<PrimitiveModel>, x: u32, y: u32)
    requires
        x < cfg.width,
        y < cfg.height,
    ensures
        frame(cfg, prims).len() == cfg.byte_count(),
        0 <= pixel_offset(cfg.width as int, x as int, y as int),
        pixel_offset(cfg.width as int, x as int, y as int) + 4 <= cfg.byte_count(),
        forall|c: int|
            0 <= c < 4 ==> #[trigger] frame(cfg, prims)[pixel_offset(
                cfg.width as int,
                x as int,
                y as int,
            ) + c] == pixel_byte(pixel_model(cfg, prims, x, y), c),
{
    let w = cfg.width as int;
    let k = y * w + x;
    crate::framebuffer::lemma_offset_in_bounds(w, cfg.height as int, x as int, y as int);
    lemma_fundamental_div_mod_converse(k, w, y as int, x as int);
    assert(k < cfg.width * cfg.height) by (nonlinear_arith)
        requires
            k == y * w + x,
            0 <= x < w,
            0 <= y < cfg.height,
            w == cfg.width,
    ;
    lemma_frame_at(cfg, prims, k);
}

/// Bands of rows that follow one another make up the band of all their
/// rows: an image put together from bands, however the rows were shared
/// out, is the image rendered whole.
pub proof fn lemma_bands_join(
    cfg: RenderConfig,
    prims: Seq<PrimitiveModel>,
    first: int,
    middle: int,
    last: int,
)
    requires
        0 <= first <= middle <= last <= cfg.height,
    ensures
        frame(cfg, prims).subrange(
            pixel_offset(cfg.width as int, 0, first),
            pixel_offset(cfg.width as int, 0, middle),
        ) + frame(cfg, prims).subrange(
            pixel_offset(cfg.width as int, 0, middle),
            pixel_offset(cfg.width as int, 0, last),
        ) == frame(cfg, prims).subrange(
            pixel_offset(cfg.width as int, 0, first),
            pixel_offset(cfg.width as int, 0, last),
        ),
        frame(cfg, prims).subrange(
            pixel_offset(cfg.width as int, 0, 0),
            pixel_offset(cfg.width as int, 0, cfg.height as int),
        ) == frame(cfg, prims),
{
    let w = cfg.width as int;
    let h = cfg.height as int;
    lemma_frame_len(cfg, prims);
    assert(0 <= first * w <= middle * w <= last * w <= h * w == cfg.width * cfg.height)
        by (nonlinear_arith)
        requires
            0 <= first <= middle <= last <= h,
            w >= 0,
            w == cfg.width,
            h == cfg.height,
    ;
    let image = frame(cfg, prims);
    assert(image.subrange(pixel_offset(w, 0, first), pixel_offset(w, 0, middle)) + image.subrange(
        pixel_offset(w, 0, middle),
        pixel_offset(w, 0, last),
    ) =~= image.subrange(pixel_offset(w, 0, first), pixel_offset(w, 0, last)));
}

} // verus!

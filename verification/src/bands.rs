//! Sharing out the rows of an image among workers, and putting together the
//! bands that they hand back. However the rows are shared out, the bands
//! joined are the image rendered whole.

use vstd::prelude::*;
use crate::config::{RenderConfig, RenderError};
use crate::framebuffer::{pixel_offset, Framebuffer};
use crate::render::{frame, lemma_bands_join, lemma_frame_len, render_rows};
use crate::world::{PrimitiveModel, World};

verus! {

/// Whether the bands, each a first row and the row after its last, share
/// out the rows of an image `height` rows high: no band is empty, each
/// starts where the one before it ends, the first starts at row 0 and the
/// last ends at the last row. An image without rows has no bands.
pub open spec fn bands_cover(bands: Seq<(u32, u32)>, height: int) -> bool {
    &&& height == 0 ==> bands.len() == 0
    &&& height > 0 ==> bands.len() > 0 && bands[0].0 == 0 && bands.last().1 == height
    &&& forall|i: int| 0 <= i < bands.len() ==> (#[trigger] bands[i]).0 < bands[i].1 <= height
    &&& forall|i: int| 0 < i < bands.len() ==> (#[trigger] bands[i]).0 == bands[i - 1].1
}

/// The bytes that the image has at the rows of a band.
pub open spec fn band_of(cfg: RenderConfig, prims: Seq<PrimitiveModel>, band: (u32, u32)) -> Seq<
    u8,
> {
    frame(cfg, prims).subrange(
        pixel_offset(cfg.width as int, 0, band.0 as int),
        pixel_offset(cfg.width as int, 0, band.1 as int),
    )
}

/// The model of a list of byte vectors: the list of their contents.
pub open spec fn contents(parts: Seq<Vec<u8>>) -> Seq<Seq<u8>> {
    parts.map_values(|b: Vec<u8>| b@)
}

/// Shares out the rows of an image among at most `workers` bands of equal
/// height, but for the last, which takes what is left. No workers count as
/// one.
pub fn band_bounds(height: u32, workers: u32) -> (bands: Vec<(u32, u32)>)
    ensures
        bands_cover(bands@, height as int),
        bands@.len() <= vstd::math::max(workers as int, 1),
{
    let count: u32 = if workers == 0 {
        1
    } else {
        workers
    };
    let whole: u32 = height / count;
    proof {
        vstd::arithmetic::div_mod::lemma_fundamental_div_mod(height as int, count as int);
        vstd::arithmetic::div_mod::lemma_mod_bound(height as int, count as int);
        assert(height % count != 0 ==> whole < height) by (nonlinear_arith)
            requires
                height == count * whole + height % count,
                0 <= height % count < count,
                count >= 1,
                whole >= 0,
        ;
    }
    let rows: u32 = if height % count == 0 {
        whole
    } else {
        whole + 1
    };
    proof {
        assert(count * rows >= height) by (nonlinear_arith)
            requires
                height == count * whole + height % count,
                0 <= height % count < count,
                rows == if height % count == 0 {
                    whole as int
                } else {
                    whole + 1
                },
        ;
        if height > 0 && rows == 0 {
            assert(count * rows == 0) by (nonlinear_arith)
                requires
                    rows == 0,
            ;
        }
    }
    let mut bands: Vec<(u32, u32)> = Vec::new();
    let mut first: u32 = 0;
    while first < height
        invariant
            first <= height,
            first < height ==> rows >= 1,
            bands@.len() == 0 ==> first == 0,
            bands@.len() > 0 ==> bands@[0].0 == 0 && bands@.last().1 == first,
            forall|i: int| 0 <= i < bands@.len() ==> (#[trigger] bands@[i]).0 < bands@[i].1 <= height,
            forall|i: int| 0 < i < bands@.len() ==> (#[trigger] bands@[i]).0 == bands@[i - 1].1,
            first < height ==> first == bands@.len() * rows,
            bands@.len() == 0 || (bands@.len() - 1) * rows < height,
        decreases height - first,
    {
        let last: u32 = if height - first > rows {
            first + rows
        } else {
            height
        };
        proof {
            let n = bands@.len() as int;
            assert((n + 1) * rows == n * rows + rows) by (nonlinear_arith);
            assert((n + 1 - 1) * rows == n * rows) by (nonlinear_arith);
        }
        bands.push((first, last));
        first = last;
    }
    proof {
        let n = bands@.len() as int;
        if n > 0 {
            assert(n <= count) by (nonlinear_arith)
                requires
                    (n - 1) * rows < height,
                    height <= count * rows,
                    rows >= 0,
            ;
        }
    }
    bands
}

/// Puts bands together, one after another.
pub fn join_bands(bands: Vec<Vec<u8>>) -> (image: Vec<u8>)
    ensures
        image@ == contents(bands@).flatten(),
{
    let mut image: Vec<u8> = Vec::new();
    let mut i: usize = 0;
    let ghost parts = contents(bands@);
    assert(parts.take(0) =~= Seq::<Seq<u8>>::empty());
    while i < bands.len()
        invariant
            0 <= i <= bands.len(),
            parts == contents(bands@),
            image@ == parts.take(i as int).flatten(),
        decreases bands.len() - i,
    {
        let band: &Vec<u8> = &bands[i];
        let ghost before = image@;
        let mut j: usize = 0;
        while j < band.len()
            invariant
                0 <= j <= band.len(),
                image@ == before + band@.take(j as int),
            decreases band.len() - j,
        {
            image.push(band[j]);
            assert(band@.take(j + 1) =~= band@.take(j as int).push(band@[j as int]));
            j = j + 1;
        }
        proof {
            assert(band@.take(band@.len() as int) =~= band@);
            assert(parts.take(i + 1) =~= parts.take(i as int).push(band@));
            parts.take(i as int).lemma_flatten_push(band@);
        }
        i = i + 1;
    }
    assert(parts.take(bands@.len() as int) =~= parts);
    image
}

/// The bands of an image up to band `n`, joined, are the image from its
/// first row to the last row of band `n`.
pub proof fn lemma_joined_prefix(
    cfg: RenderConfig,
    prims: Seq<PrimitiveModel>,
    bounds: Seq<(u32, u32)>,
    n: int,
)
    requires
        bands_cover(bounds, cfg.height as int),
        0 <= n <= bounds.len(),
    ensures
        bounds.take(n).map_values(|b: (u32, u32)| band_of(cfg, prims, b)).flatten() == frame(
            cfg,
            prims,
        ).subrange(
            0,
            pixel_offset(
                cfg.width as int,
                0,
                if n == 0 {
                    0
                } else {
                    bounds[n - 1].1 as int
                },
            ),
        ),
    decreases n,
{
    let bytes = |b: (u32, u32)| band_of(cfg, prims, b);
    let image = frame(cfg, prims);
    if n == 0 {
        assert(bounds.take(0).map_values(bytes) =~= Seq::<Seq<u8>>::empty());
        assert(image.subrange(0, 0) =~= Seq::<u8>::empty());
    } else {
        lemma_joined_prefix(cfg, prims, bounds, n - 1);
        let band = bounds[n - 1];
        let start: int = if n == 1 {
            0
        } else {
            bounds[n - 2].1 as int
        };
        assert(band.0 == start);
        assert(bounds.take(n).map_values(bytes) =~= bounds.take(n - 1).map_values(bytes).push(
            band_of(cfg, prims, band),
        ));
        bounds.take(n - 1).map_values(bytes).lemma_flatten_push(band_of(cfg, prims, band));
        lemma_bands_join(cfg, prims, 0, start, band.1 as int);
    }
}

/// Bands that share out the rows of an image, each rendered by itself and
/// all joined in order, are the image rendered whole: the image does not
/// depend on how the rows were shared out, nor on how many workers there
/// were.
pub proof fn lemma_joined_bands_are_frame(
    cfg: RenderConfig,
    prims: Seq<PrimitiveModel>,
    bounds: Seq<(u32, u32)>,
)
    requires
        bands_cover(bounds, cfg.height as int),
    ensures
        bounds.map_values(|b: (u32, u32)| band_of(cfg, prims, b)).flatten() == frame(cfg, prims),
{
    let image = frame(cfg, prims);
    lemma_joined_prefix(cfg, prims, bounds, bounds.len() as int);
    assert(bounds.take(bounds.len() as int) =~= bounds);
    lemma_frame_len(cfg, prims);
    if cfg.height == 0 {
        assert(cfg.width * cfg.height * 4 == 0) by (nonlinear_arith)
            requires
                cfg.height == 0,
        ;
        assert(image.subrange(0, 0) =~= image);
    } else {
        lemma_bands_join(cfg, prims, 0, 0, cfg.height as int);
    }
}

/// The image of a configuration and a scene, rendered in as many bands as
/// there are workers and put together, or the refusal of a configuration
/// that names no image. It is the image that `render` gives.
pub fn render_in_bands(cfg: &RenderConfig, world: &World, workers: u32) -> (r: Result<
    Framebuffer,
    RenderError,
>)
    requires
        world.wf(),
        cfg.camera.wf(),
        cfg.byte_count() <= usize::MAX,
    ensures
        r is Ok <==> cfg.is_valid(),
        r matches Err(e) ==> e == RenderError::InvalidConfig,
        r matches Ok(image) ==> image.wf() && image.width == cfg.width && image.height
            == cfg.height && image@ == frame(*cfg, world@),
{
    match cfg.validate() {
        Err(e) => {
            return Err(e);
        },
        Ok(_) => {},
    }
    let bounds: Vec<(u32, u32)> = band_bounds(cfg.height, workers);
    let mut parts: Vec<Vec<u8>> = Vec::new();
    let mut i: usize = 0;
    while i < bounds.len()
        invariant
            0 <= i <= bounds.len(),
            parts@.len() == i,
            world.wf(),
            cfg.camera.wf(),
            cfg.is_valid(),
            cfg.byte_count() <= usize::MAX,
            bands_cover(bounds@, cfg.height as int),
            forall|k: int| 0 <= k < i ==> (#[trigger] parts@[k])@ == band_of(*cfg, world@, bounds@[k]),
        decreases bounds.len() - i,
    {
        let band: (u32, u32) = bounds[i];
        match render_rows(cfg, world, band.0, band.1) {
            Ok(bytes) => {
                parts.push(bytes);
            },
            Err(e) => {
                return Err(e);
            },
        }
        i = i + 1;
    }
    proof {
        lemma_joined_bands_are_frame(*cfg, world@, bounds@);
        lemma_frame_len(*cfg, world@);
        assert(contents(parts@) =~= bounds@.map_values(
            |b: (u32, u32)| band_of(*cfg, world@, b),
        ));
    }
    let data: Vec<u8> = join_bands(parts);
    Ok(Framebuffer { width: cfg.width, height: cfg.height, data })
}

} // verus!

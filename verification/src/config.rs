//! What a render is asked for: the size of the image, the number of samples
//! per pixel, the depth to which rays are followed, the seed of the
//! randomness, and the camera.

use vstd::prelude::*;
use crate::camera::CameraConfig;

verus! {

/// The samples per pixel of a configuration that names none.
pub const DEFAULT_SAMPLES: u32 = 10;

/// The bounce depth of a configuration that names none.
pub const DEFAULT_MAX_DEPTH: u32 = 5;

/// Why a render was refused.
#[derive(Clone, Copy, Debug, PartialEq, Eq, Structural)]
pub enum RenderError {
    /// The image has no area, or no sample is asked for per pixel, or a
    /// number is negative or beyond what an image can have.
    InvalidConfig,
}

/// The parameters of a render. They are fixed for the whole of it.
#[derive(Clone, Copy, Debug, PartialEq, Eq, Structural)]
pub struct RenderConfig {
    /// The width of the image in pixels.
    pub width: u32,
    /// The height of the image in pixels.
    pub height: u32,
    /// The number of rays cast through each pixel.
    pub samples_per_pixel: u32,
    /// The number of bounces after which a ray is given up.
    pub max_depth: u32,
    /// The seed from which every pixel derives its randomness.
    pub seed: u64,
    /// The camera's setup.
    pub camera: CameraConfig,
}

/// Whether four numbers name an image that can be rendered: a positive
/// width, height and number of samples and a depth that is not negative,
/// none beyond 32 bits.
pub open spec fn acceptable(width: int, height: int, samples: int, max_depth: int) -> bool {
    &&& 0 < width <= u32::MAX
    &&& 0 < height <= u32::MAX
    &&& 0 < samples <= u32::MAX
    &&& 0 <= max_depth <= u32::MAX
}

impl RenderConfig {
    /// Whether the image has an area and at least one sample per pixel.
    pub open spec fn is_valid(&self) -> bool {
        self.width > 0 && self.height > 0 && self.samples_per_pixel > 0
    }

    /// The number of bytes of the image: four per pixel.
    pub open spec fn byte_count(&self) -> int {
        self.width * self.height * 4
    }

    /// The configuration for an image of the given size, with the default
    /// samples and depth, seed zero and the standard camera.
    pub fn new(width: u32, height: u32) -> (c: RenderConfig)
        ensures
            c.width == width,
            c.height == height,
            c.samples_per_pixel == DEFAULT_SAMPLES,
            c.max_depth == DEFAULT_MAX_DEPTH,
            c.seed == 0,
            c.camera == CameraConfig::standard_spec(),
            c.camera.wf(),
    {
        RenderConfig {
            width,
            height,
            samples_per_pixel: DEFAULT_SAMPLES,
            max_depth: DEFAULT_MAX_DEPTH,
            seed: 0,
            camera: CameraConfig::standard(),
        }
    }

    /// The configuration for the given numbers, with seed zero and the
    /// standard camera, or the refusal of numbers that name no image.
    pub fn checked(width: i64, height: i64, samples_per_pixel: i64, max_depth: i64) -> (r: Result<
        RenderConfig,
        RenderError,
    >)
        ensures
            r is Ok <==> acceptable(
                width as int,
                height as int,
                samples_per_pixel as int,
                max_depth as int,
            ),
            r matches Err(e) ==> e == RenderError::InvalidConfig,
            r matches Ok(c) ==> c.is_valid() && c.width == width && c.height == height
                && c.samples_per_pixel == samples_per_pixel && c.max_depth == max_depth && c.seed
                == 0 && c.camera == CameraConfig::standard_spec() && c.camera.wf(),
    {
        if width <= 0 || width > 0xFFFF_FFFF || height <= 0 || height > 0xFFFF_FFFF
            || samples_per_pixel <= 0 || samples_per_pixel > 0xFFFF_FFFF || max_depth < 0
            || max_depth > 0xFFFF_FFFF {
            Err(RenderError::InvalidConfig)
        } else {
            Ok(
                RenderConfig {
                    width: width as u32,
                    height: height as u32,
                    samples_per_pixel: samples_per_pixel as u32,
                    max_depth: max_depth as u32,
                    seed: 0,
                    camera: CameraConfig::standard(),
                },
            )
        }
    }

    /// The same configuration with another number of samples per pixel.
    pub fn with_samples(self, samples_per_pixel: u32) -> (c: RenderConfig)
        ensures
            c == (RenderConfig { samples_per_pixel, ..self }),
    {
        RenderConfig { samples_per_pixel, ..self }
    }

    /// The same configuration with another bounce depth.
    pub fn with_max_depth(self, max_depth: u32) -> (c: RenderConfig)
        ensures
            c == (RenderConfig { max_depth, ..self }),
    {
        RenderConfig { max_depth, ..self }
    }

    /// The same configuration with another seed.
    pub fn with_seed(self, seed: u64) -> (c: RenderConfig)
        ensures
            c == (RenderConfig { seed, ..self }),
    {
        RenderConfig { seed, ..self }
    }

    /// The same configuration with another camera.
    pub fn with_camera(self, camera: CameraConfig) -> (c: RenderConfig)
        ensures
            c == (RenderConfig { camera, ..self }),
    {
        RenderConfig { camera, ..self }
    }

    /// Tells whether the bytes of the image can be addressed on this
    /// machine.
    pub fn fits_memory(&self) -> (b: bool)
        ensures
            b == (self.byte_count() <= usize::MAX),
    {
        assert(0 <= self.width * self.height <= 0xFFFF_FFFF * 0xFFFF_FFFF) by (nonlinear_arith)
            requires
                0 <= self.width <= 0xFFFF_FFFF,
                0 <= self.height <= 0xFFFF_FFFF,
        ;
        let pixels: u64 = (self.width as u64) * (self.height as u64);
        (pixels as u128) * 4 <= usize::MAX as u128
    }

    /// Accepts the configuration or refuses it, before any work is done.
    pub fn validate(&self) -> (r: Result<(), RenderError>)
        ensures
            r is Ok <==> self.is_valid(),
            r matches Err(e) ==> e == RenderError::InvalidConfig,
    {
        if self.width == 0 || self.height == 0 || self.samples_per_pixel == 0 {
            Err(RenderError::InvalidConfig)
        } else {
            Ok(())
        }
    }
}

} // verus!

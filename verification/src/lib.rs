//! A deterministic CPU ray tracer on fixed-point integers.
//!
//! Every quantity of the renderer (coordinates, ray parameters, colours) is a
//! signed integer counted in units of `1 / ONE`, so a frame is the same bytes
//! on every machine and however the pixels are shared out among workers.
//! Each function states its result over a mathematical model of its inputs.
//!
//! The modules, leaves first:
//! - `fixed`: the unit, saturation, floor division, the integer square root;
//! - `vec3`, `ray`: vectors and rays;
//! - `sphere`, `world`: primitives and the nearest hit of a ray in a scene;
//! - `rng`: the randomness of a sample, fixed by seed, pixel and index;
//! - `color`, `shade`: the sky, the loss at a bounce, the light along a ray;
//! - `camera`, `config`: where rays start and what a render is asked for;
//! - `framebuffer`, `render`: the image and the way to it;
//! - `bands`: the rows shared out among workers, and their bands joined.

pub mod bands;
pub mod camera;
pub mod color;
pub mod config;
pub mod fixed;
pub mod framebuffer;
pub mod ray;
pub mod render;
pub mod rng;
pub mod shade;
pub mod sphere;
pub mod vec3;
pub mod world;

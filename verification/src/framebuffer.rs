//! The finished image: four bytes per pixel, red, green, blue and opacity,
//! row after row from the top, each row from the left.

use vstd::prelude::*;
use crate::color::Pixel;

verus! {

/// The byte of a pixel at channel `c`: 0 red, 1 green, 2 blue, else opacity.
pub open spec fn pixel_byte(p: Pixel, c: int) -> u8 {
    if c == 0 {
        p.r
    } else if c == 1 {
        p.g
    } else if c == 2 {
        p.b
    } else {
        p.a
    }
}

/// The position in the image's bytes of the first byte of the pixel in
/// column `x` of row `y`, rows counted from the top.
pub open spec fn pixel_offset(width: int, x: int, y: int) -> int {
    (y * width + x) * 4
}

/// An image of `width` by `height` pixels.
#[derive(Debug)]
pub struct Framebuffer {
    pub width: u32,
    pub height: u32,
    pub data: Vec<u8>,
}

impl View for Framebuffer {
    type V = Seq<u8>;

    open spec fn view(&self) -> Seq<u8> {
        self.data@
    }
}

impl Framebuffer {
    /// Whether the image holds four bytes for each of its pixels.
    pub open spec fn wf(&self) -> bool {
        self.data@.len() == self.width * self.height * 4
    }

    /// The pixel in column `x` of row `y` as the bytes give it.
    pub open spec fn pixel_at(&self, x: int, y: int) -> Pixel {
        let at = pixel_offset(self.width as int, x, y);
        Pixel { r: self@[at], g: self@[at + 1], b: self@[at + 2], a: self@[at + 3] }
    }

    /// The number of bytes of the image.
    pub fn len(&self) -> (n: usize)
        ensures
            n == self@.len(),
    {
        self.data.len()
    }

    /// The pixel in column `x` of row `y`, rows counted from the top.
    pub fn pixel(&self, x: u32, y: u32) -> (p: Pixel)
        requires
            self.wf(),
            x < self.width,
            y < self.height,
        ensures
            p == self.pixel_at(x as int, y as int),
    {
        proof {
            lemma_offset_in_bounds(
                self.width as int,
                self.height as int,
                x as int,
                y as int,
            );
        }
        let n: usize = self.data.len();
        let at: usize = ((y as usize) * (self.width as usize) + (x as usize)) * 4;
        assert(at + 3 < n);
        Pixel {
            r: self.data[at],
            g: self.data[at + 1],
            b: self.data[at + 2],
            a: self.data[at + 3],
        }
    }

    /// The bytes of the image, which pass to the caller.
    pub fn into_bytes(self) -> (bytes: Vec<u8>)
        ensures
            bytes@ == self@,
    {
        self.data
    }
}

/// The four bytes of a pixel of the image lie within the image.
pub proof fn lemma_offset_in_bounds(width: int, height: int, x: int, y: int)
    requires
        0 <= x < width,
        0 <= y < height,
    ensures
        0 <= y * width <= y * width + x,
        0 <= pixel_offset(width, x, y),
        pixel_offset(width, x, y) + 4 <= width * height * 4,
{
    assert(0 <= y * width && (y * width + x + 1) <= width * height) by (nonlinear_arith)
        requires
            0 <= x < width,
            0 <= y < height,
    ;
}

} // verus!

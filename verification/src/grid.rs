//! Rectangular RGBA pixel buffers, stored row-major.
use vstd::prelude::*;
use crate::palette::Pixel;

verus! {

/// A decoded image: `width * height` pixels, row `y` of the image occupying
/// positions `y * width .. (y + 1) * width` of the buffer.
#[derive(Clone, PartialEq, Eq, Debug)]
pub struct PixelGrid {
    pub width: usize,
    pub height: usize,
    pub pixels: Vec<Pixel>,
}

impl PixelGrid {
    /// A well-formed grid holds exactly one pixel per cell.
    pub open spec fn wf(&self) -> bool {
        self.pixels@.len() == self.width * self.height
    }

    /// The pixel at column `x` of row `y`.
    pub open spec fn spec_pixel(&self, x: int, y: int) -> Pixel {
        self.pixels@[y * self.width + x]
    }

    /// Builds a grid from a row-major pixel buffer; `None` when the buffer's
    /// length is not `width * height`.
    pub fn new(width: usize, height: usize, pixels: Vec<Pixel>) -> (r: Option<PixelGrid>)
        ensures
            match r {
                Some(g) => g.wf() && g.width == width && g.height == height && g.pixels@
                    == pixels@,
                None => pixels@.len() != width * height,
            },
    {
        let l = pixels.len();
        match width.checked_mul(height) {
            Some(n) => if n == l {
                Some(PixelGrid { width, height, pixels })
            } else {
                None
            },
            None => None,
        }
    }

    /// Reads the pixel at `(x, y)`.
    pub fn get(&self, x: usize, y: usize) -> (p: Pixel)
        requires
            self.wf(),
            x < self.width,
            y < self.height,
        ensures
            p == self.spec_pixel(x as int, y as int),
    {
        let l = self.pixels.len();
        proof {
            lemma_row_major_in_range(x as int, y as int, self.width as int, self.height as int);
        }
        self.pixels[y * self.width + x]
    }
}

/// Row-major flattening stays inside the buffer.
pub proof fn lemma_row_major_in_range(x: int, y: int, w: int, h: int)
    requires
        0 <= x < w,
        0 <= y < h,
    ensures
        0 <= y * w + x < w * h,
{
    assert(0 <= y * w + x < w * h) by (nonlinear_arith)
        requires
            0 <= x < w,
            0 <= y < h,
    ;
}

} // verus!

//! Plain pixel buffers.
//!
//! Every surface of the pipeline (scene colors, cascade irradiance) is a
//! row-major RGBA buffer; pixel `(x, y)` lives at flat index
//! `y * width + x`.

use vstd::prelude::*;
use crate::limits::MAX_DIM;

verus! {

/// One RGBA pixel. A non-zero alpha marks scene geometry: such a pixel is a
/// JFA seed and an RC emitter.
#[derive(Clone, Copy, PartialEq, Eq, Structural, Debug)]
pub struct Rgba {
    pub r: u8,
    pub g: u8,
    pub b: u8,
    pub a: u8,
}

impl Rgba {
    /// Fully transparent black: the color of a cleared surface.
    pub fn transparent() -> (c: Rgba)
        ensures
            c == (Rgba { r: 0, g: 0, b: 0, a: 0 }),
    {
        Rgba { r: 0, g: 0, b: 0, a: 0 }
    }
}

/// A flat pixel index is in range whenever its coordinates are.
pub proof fn lemma_flat_index_bounds(w: int, h: int, x: int, y: int)
    requires
        0 <= x < w,
        0 <= y < h,
    ensures
        0 <= y * w + x < w * h,
{
    assert(0 <= y * w + x < w * h) by (nonlinear_arith)
        requires 0 <= x < w, 0 <= y < h;
}

/// Flat index `i` splits back into the coordinates `(i % w, i / w)`.
pub proof fn lemma_flat_index_split(w: int, h: int, i: int)
    requires
        1 <= w,
        0 <= i < w * h,
    ensures
        0 <= i % w < w,
        0 <= i / w < h,
        (i / w) * w + (i % w) == i,
{
    vstd::arithmetic::div_mod::lemma_fundamental_div_mod(i, w);
    vstd::arithmetic::div_mod::lemma_mod_bound(i, w);
    vstd::arithmetic::mul::lemma_mul_is_commutative(i / w, w);
    assert(0 <= i / w) by (nonlinear_arith)
        requires 0 <= i, 1 <= w, i == w * (i / w) + i % w, 0 <= i % w < w;
    assert(i / w < h) by (nonlinear_arith)
        requires i < w * h, 1 <= w, i == w * (i / w) + i % w, 0 <= i % w < w;
}

/// Conversely, the flat index built from `(x, y)` splits back into exactly
/// those coordinates.
pub proof fn lemma_flat_index_make(w: int, x: int, y: int)
    requires
        0 <= x < w,
    ensures
        (y * w + x) % w == x,
        (y * w + x) / w == y,
{
    vstd::arithmetic::div_mod::lemma_fundamental_div_mod_converse_mod(y * w + x, w, y, x);
    vstd::arithmetic::div_mod::lemma_fundamental_div_mod_converse_div(y * w + x, w, y, x);
}

/// A row-major RGBA surface.
pub struct Image {
    pub width: usize,
    pub height: usize,
    pub pixels: Vec<Rgba>,
}

impl Image {
    /// The buffer holds exactly one pixel per coordinate of a non-degenerate
    /// viewport.
    pub open spec fn wf(self) -> bool {
        &&& 1 <= self.width <= MAX_DIM
        &&& 1 <= self.height <= MAX_DIM
        &&& self.pixels.len() == self.width * self.height
    }

    /// The pixel at `(x, y)`.
    pub open spec fn pixel_at(self, x: int, y: int) -> Rgba {
        self.pixels@[y * self.width + x]
    }

    /// A `width x height` surface filled with `fill`.
    pub fn new(width: usize, height: usize, fill: Rgba) -> (img: Image)
        requires
            1 <= width <= MAX_DIM,
            1 <= height <= MAX_DIM,
        ensures
            img.wf(),
            img.width == width,
            img.height == height,
            forall|i: int| 0 <= i < width * height ==> img.pixels@[i] == fill,
            forall|x: int, y: int|
                0 <= x < width && 0 <= y < height ==> img.pixel_at(x, y) == fill,
    {
        proof {
            assert(1 <= width * height <= 0x4000_0000) by (nonlinear_arith)
                requires 1 <= width <= 32768, 1 <= height <= 32768;
        }
        let total: usize = width * height;
        let mut pixels: Vec<Rgba> = Vec::new();
        while pixels.len() < total
            invariant
                pixels.len() <= total,
                forall|i: int| 0 <= i < pixels.len() ==> pixels@[i] == fill,
            decreases total - pixels.len(),
        {
            pixels.push(fill);
        }
        let img = Image { width, height, pixels };
        proof {
            assert forall|x: int, y: int|
                0 <= x < width && 0 <= y < height implies img.pixel_at(x, y) == fill by {
                lemma_flat_index_bounds(width as int, height as int, x, y);
            }
        }
        img
    }

    /// Read the pixel at `(x, y)`.
    pub fn get(&self, x: usize, y: usize) -> (c: Rgba)
        requires
            self.wf(),
            x < self.width,
            y < self.height,
        ensures
            c == self.pixel_at(x as int, y as int),
    {
        proof {
            lemma_flat_index_bounds(self.width as int, self.height as int, x as int, y as int);
        }
        self.pixels[y * self.width + x]
    }

    /// Overwrite the pixel at `(x, y)`.
    pub fn set(&mut self, x: usize, y: usize, c: Rgba)
        requires
            old(self).wf(),
            x < old(self).width,
            y < old(self).height,
        ensures
            final(self).wf(),
            final(self).width == old(self).width,
            final(self).height == old(self).height,
            final(self).pixels@ == old(self).pixels@.update(y * old(self).width + x, c),
    {
        proof {
            lemma_flat_index_bounds(self.width as int, self.height as int, x as int, y as int);
        }
        let i: usize = y * self.width + x;
        self.pixels.set(i, c);
    }
}

} // verus!

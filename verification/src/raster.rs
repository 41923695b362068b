//! A read-only raster of RGB codels, queryable by coordinate.
//!
//! The raster is the decoded program source: one RGB triple per codel,
//! stored row-major. It never changes during a run.

use vstd::prelude::*;
use crate::state::Position;

verus! {

/// The blocking sentinel color.
pub open spec fn spec_black() -> (u8, u8, u8) {
    (0u8, 0u8, 0u8)
}

/// The pass-through sentinel color.
pub open spec fn spec_white() -> (u8, u8, u8) {
    (255u8, 255u8, 255u8)
}

pub fn is_black(px: &(u8, u8, u8)) -> (r: bool)
    ensures
        r == (*px == spec_black()),
{
    px.0 == 0 && px.1 == 0 && px.2 == 0
}

pub fn is_white(px: &(u8, u8, u8)) -> (r: bool)
    ensures
        r == (*px == spec_white()),
{
    px.0 == 255 && px.1 == 255 && px.2 == 255
}

/// An immutable RGB raster with row-major pixel storage.
pub struct Raster {
    width: u32,
    height: u32,
    pixels: Vec<(u8, u8, u8)>,
}

impl Raster {
    #[verifier::type_invariant]
    pub closed spec fn wf(self) -> bool {
        self.pixels@.len() == self.width * self.height
    }

    pub closed spec fn spec_width(self) -> u32 {
        self.width
    }

    pub closed spec fn spec_height(self) -> u32 {
        self.height
    }

    /// The pixel at column `x`, row `y`.
    pub closed spec fn px(self, x: int, y: int) -> (u8, u8, u8) {
        self.pixels@[y * self.width + x]
    }

    pub open spec fn in_bounds(self, p: Position) -> bool {
        p.left < self.spec_width() && p.top < self.spec_height()
    }

    /// Builds a raster from row-major pixels; fails unless the pixel count
    /// matches the dimensions.
    pub fn new(width: u32, height: u32, pixels: Vec<(u8, u8, u8)>) -> (r: Option<Raster>)
        ensures
            pixels@.len() == width * height ==> {
                &&& r is Some
                &&& r->Some_0.spec_width() == width
                &&& r->Some_0.spec_height() == height
                &&& forall|x: int, y: int|
                    0 <= x < width && 0 <= y < height ==> r->Some_0.px(x, y) == pixels@[y * width
                        + x]
            },
            pixels@.len() != width * height ==> r is None,
    {
        proof {
            assert((width * height) as int <= u32::MAX * u32::MAX) by (nonlinear_arith)
                requires
                    width <= u32::MAX,
                    height <= u32::MAX,
            ;
        }
        if pixels.len() as u64 == (width as u64) * (height as u64) {
            Some(Raster { width, height, pixels })
        } else {
            None
        }
    }

    /// The row-major storage index of an in-bounds position.
    pub open spec fn spec_index_of(self, p: Position) -> int {
        p.top * self.spec_width() + p.left
    }

    /// How many codels the raster holds.
    pub fn pixel_count(&self) -> (n: usize)
        ensures
            n == self.spec_width() * self.spec_height(),
    {
        proof {
            use_type_invariant(self);
        }
        self.pixels.len()
    }

    pub fn index_of(&self, p: &Position) -> (i: usize)
        requires
            self.in_bounds(*p),
        ensures
            i == self.spec_index_of(*p),
            i < self.spec_width() * self.spec_height(),
    {
        proof {
            use_type_invariant(self);
            assert((p.top as int) * (self.spec_width() as int) + (p.left as int) < (
            self.spec_width() as int) * (self.spec_height() as int)) by (nonlinear_arith)
                requires
                    (p.top as int) < (self.spec_height() as int),
                    (p.left as int) < (self.spec_width() as int),
                    0 <= p.top as int,
                    0 <= p.left as int,
                    0 <= self.spec_width() as int,
            ;
        }
        // reading the length bounds the storage size for the index proof
        let n: usize = self.pixels.len();
        (p.top as usize) * (self.width as usize) + (p.left as usize)
    }

    /// The storage index of an in-bounds position lies within the storage.
    pub proof fn lemma_index_of_bounds(self, p: Position)
        requires
            self.in_bounds(p),
        ensures
            0 <= self.spec_index_of(p),
            self.spec_index_of(p) < self.spec_width() * self.spec_height(),
    {
        let w = self.spec_width() as int;
        let h = self.spec_height() as int;
        assert((p.top as int) * w + (p.left as int) < w * h && 0 <= (p.top as int) * w + (
        p.left as int)) by (nonlinear_arith)
            requires
                0 <= p.left as int,
                (p.left as int) < w,
                0 <= p.top as int,
                (p.top as int) < h,
        ;
    }

    /// Distinct in-bounds positions have distinct storage indices.
    pub proof fn lemma_index_of_injective(self, p: Position, q: Position)
        requires
            self.in_bounds(p),
            self.in_bounds(q),
            p != q,
        ensures
            self.spec_index_of(p) != self.spec_index_of(q),
    {
        let w = self.spec_width() as int;
        assert((p.top as int) * w + (p.left as int) != (q.top as int) * w + (q.left as int))
            by (nonlinear_arith)
            requires
                0 <= p.left as int,
                (p.left as int) < w,
                0 <= q.left as int,
                (q.left as int) < w,
                p.top != q.top || p.left != q.left,
                0 <= p.top as int,
                0 <= q.top as int,
        ;
    }

    pub fn width(&self) -> (r: u32)
        ensures
            r == self.spec_width(),
    {
        self.width
    }

    pub fn height(&self) -> (r: u32)
        ensures
            r == self.spec_height(),
    {
        self.height
    }
}

/// The pixel of `img` at `pos`.
pub fn get_px(img: &Raster, pos: &Position) -> (r: (u8, u8, u8))
    requires
        img.in_bounds(*pos),
    ensures
        r == img.px(pos.left as int, pos.top as int),
{
    proof {
        use_type_invariant(img);
        assert((pos.top as int) * (img.spec_width() as int) + (pos.left as int) < (
        img.spec_width() as int) * (img.spec_height() as int)) by (nonlinear_arith)
            requires
                (pos.top as int) < (img.spec_height() as int),
                (pos.left as int) < (img.spec_width() as int),
                0 <= pos.top as int,
                0 <= pos.left as int,
                0 <= img.spec_width() as int,
        ;
    }
    // reading the length bounds the storage size for the index proof
    let n: usize = img.pixels.len();
    let idx: usize = (pos.top as usize) * (img.width as usize) + (pos.left as usize);
    let p = img.pixels[idx];
    p
}

} // verus!

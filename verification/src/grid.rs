//! The pixel grid: a rectangle of RGBA pixels stored row by row.

use vstd::arithmetic::div_mod::{lemma_fundamental_div_mod, lemma_mod_pos_bound};
use vstd::prelude::*;

verus! {

/// Alpha value of a fully opaque pixel.
pub const OPAQUE: u8 = 255;

/// One pixel: three colour channels and an alpha channel.
#[derive(Clone, Copy, Debug, PartialEq, Eq, Structural)]
pub struct Rgba {
    pub r: u8,
    pub g: u8,
    pub b: u8,
    pub a: u8,
}

/// Mathematical model of a pixel grid: its dimensions and its bytes, four per
/// pixel in the order red, green, blue, alpha, pixels in row-major order.
pub struct GridView {
    pub width: nat,
    pub height: nat,
    pub data: Seq<u8>,
}

impl GridView {
    /// Number of pixels in the grid.
    pub open spec fn pixel_count(self) -> nat {
        self.width * self.height
    }

    /// The buffer holds exactly four bytes for each pixel, and both
    /// dimensions are 32-bit numbers.
    pub open spec fn wf(self) -> bool {
        &&& self.data.len() == 4 * self.pixel_count()
        &&& self.width <= u32::MAX
        &&& self.height <= u32::MAX
    }

    /// The coordinates lie inside the grid.
    pub open spec fn contains(self, x: int, y: int) -> bool {
        0 <= x < self.width && 0 <= y < self.height
    }

    /// Position of the pixel at column `x` of row `y` in row-major order.
    pub open spec fn index_of(self, x: int, y: int) -> int {
        y * self.width + x
    }

    /// The pixel with row-major position `i`.
    pub open spec fn pixel_at(self, i: int) -> Rgba {
        Rgba {
            r: self.data[4 * i],
            g: self.data[4 * i + 1],
            b: self.data[4 * i + 2],
            a: self.data[4 * i + 3],
        }
    }

    /// The pixel at column `x` of row `y`.
    pub open spec fn pixel(self, x: int, y: int) -> Rgba {
        self.pixel_at(self.index_of(x, y))
    }

    /// The alpha channel of the pixel at column `x` of row `y`.
    pub open spec fn alpha(self, x: int, y: int) -> u8 {
        self.pixel(x, y).a
    }

    /// The grid with the pixel at row-major position `i` replaced by `p`.
    pub open spec fn with_pixel_at(self, i: int, p: Rgba) -> GridView {
        GridView {
            width: self.width,
            height: self.height,
            data: self.data.update(4 * i, p.r).update(4 * i + 1, p.g).update(4 * i + 2, p.b).update(
                4 * i + 3,
                p.a,
            ),
        }
    }

    /// Every pixel inside the grid has a row-major position below the pixel
    /// count.
    pub proof fn lemma_index_in_range(self, x: int, y: int)
        requires
            self.contains(x, y),
        ensures
            0 <= self.index_of(x, y) < self.pixel_count(),
    {
        let w = self.width as int;
        let h = self.height as int;
        assert(y * w >= 0) by (nonlinear_arith)
            requires
                y >= 0,
                w >= 0,
        ;
        assert(y * w + w <= h * w) by (nonlinear_arith)
            requires
                0 <= y < h,
                w >= 0,
        ;
        assert(h * w == w * h) by (nonlinear_arith);
    }

    /// Two pixels inside the grid that share a row-major position are the
    /// same pixel.
    pub proof fn lemma_index_injective(self, x1: int, y1: int, x2: int, y2: int)
        requires
            self.contains(x1, y1),
            self.contains(x2, y2),
            self.index_of(x1, y1) == self.index_of(x2, y2),
        ensures
            x1 == x2,
            y1 == y2,
    {
        let w = self.width as int;
        if y1 < y2 {
            assert(y1 * w + w <= y2 * w) by (nonlinear_arith)
                requires
                    y1 < y2,
                    w >= 0,
            ;
        } else if y2 < y1 {
            assert(y2 * w + w <= y1 * w) by (nonlinear_arith)
                requires
                    y2 < y1,
                    w >= 0,
            ;
        }
    }
}

/// Every row-major position below the pixel count is the position of a pixel
/// inside the grid: the one in column `i mod width` of row `i / width`.
pub proof fn lemma_index_has_pixel(g: GridView, i: int)
    requires
        0 <= i < g.pixel_count(),
    ensures
        g.contains(i % (g.width as int), i / (g.width as int)),
        g.index_of(i % (g.width as int), i / (g.width as int)) == i,
{
    let w = g.width as int;
    let h = g.height as int;
    assert(w > 0) by (nonlinear_arith)
        requires
            0 <= i < w * h,
            w >= 0,
    ;
    lemma_fundamental_div_mod(i, w);
    lemma_mod_pos_bound(i, w);
    let y = i / w;
    assert(w * y == y * w) by (nonlinear_arith);
    assert(0 <= y < h) by (nonlinear_arith)
        requires
            0 <= i < w * h,
            w > 0,
            i == w * y + i % w,
            0 <= i % w < w,
    ;
}

/// Replacing one pixel leaves every other pixel of the grid as it was.
pub proof fn lemma_with_pixel(g: GridView, x: int, y: int, p: Rgba, other_x: int, other_y: int)
    requires
        g.wf(),
        g.contains(x, y),
        g.contains(other_x, other_y),
    ensures
        g.with_pixel_at(g.index_of(x, y), p).wf(),
        g.with_pixel_at(g.index_of(x, y), p).pixel(other_x, other_y) == if other_x == x && other_y
            == y {
            p
        } else {
            g.pixel(other_x, other_y)
        },
{
    g.lemma_index_in_range(x, y);
    g.lemma_index_in_range(other_x, other_y);
    if !(other_x == x && other_y == y) {
        if g.index_of(x, y) == g.index_of(other_x, other_y) {
            g.lemma_index_injective(x, y, other_x, other_y);
        }
    }
}

/// A rectangle of RGBA pixels, owned by the caller while one image is worked
/// on.
pub struct PixelGrid {
    width: u32,
    height: u32,
    data: Vec<u8>,
}

impl View for PixelGrid {
    type V = GridView;

    closed spec fn view(&self) -> GridView {
        GridView { width: self.width as nat, height: self.height as nat, data: self.data@ }
    }
}

impl PixelGrid {
    /// The buffer length agrees with the dimensions.
    pub open spec fn wf(&self) -> bool {
        self@.wf()
    }

    /// Builds a grid over `data`, which must hold exactly four bytes for each
    /// of the `width * height` pixels; any other length is refused.
    pub fn from_raw(width: u32, height: u32, data: Vec<u8>) -> (grid: Option<PixelGrid>)
        ensures
            grid is Some <==> data@.len() == 4 * (width as nat * height as nat),
            grid matches Some(g) ==> g.wf() && g@ == (GridView {
                width: width as nat,
                height: height as nat,
                data: data@,
            }),
    {
        assert(width as u128 * height as u128 <= 0xffff_ffff * 0xffff_ffff) by (nonlinear_arith)
            requires
                width <= 0xffff_ffff,
                height <= 0xffff_ffff,
        ;
        let pixels: u128 = (width as u128) * (height as u128);
        let needed: u128 = 4 * pixels;
        if data.len() as u128 == needed {
            Some(PixelGrid { width, height, data })
        } else {
            None
        }
    }

    /// Number of columns.
    pub fn width(&self) -> (w: u32)
        ensures
            w == self@.width,
    {
        self.width
    }

    /// Number of rows.
    pub fn height(&self) -> (h: u32)
        ensures
            h == self@.height,
    {
        self.height
    }

    /// Number of pixels.
    pub fn pixel_count(&self) -> (n: usize)
        requires
            self.wf(),
        ensures
            n == self@.pixel_count(),
    {
        self.data.len() / 4
    }

    /// The bytes of the grid.
    pub fn as_raw(&self) -> (data: &Vec<u8>)
        ensures
            data@ == self@.data,
    {
        &self.data
    }

    /// Gives the buffer back.
    pub fn into_raw(self) -> (data: Vec<u8>)
        ensures
            data@ == self@.data,
    {
        self.data
    }

    /// Row-major position of the pixel at column `x` of row `y`.
    pub fn index_of(&self, x: u32, y: u32) -> (i: usize)
        requires
            self.wf(),
            self@.contains(x as int, y as int),
        ensures
            i == self@.index_of(x as int, y as int),
            i < self@.pixel_count(),
    {
        proof {
            self@.lemma_index_in_range(x as int, y as int);
            assert(self.data.len() <= usize::MAX);
            assert(y as int * self.width as int >= 0) by (nonlinear_arith)
                requires
                    y >= 0,
                    self.width >= 0,
            ;
        }
        (y as usize) * (self.width as usize) + (x as usize)
    }

    /// The pixel with row-major position `i`.
    pub fn pixel_at(&self, i: usize) -> (p: Rgba)
        requires
            self.wf(),
            i < self@.pixel_count(),
        ensures
            p == self@.pixel_at(i as int),
    {
        assert(self.data.len() <= usize::MAX);
        let at: usize = 4 * i;
        Rgba { r: self.data[at], g: self.data[at + 1], b: self.data[at + 2], a: self.data[at + 3] }
    }

    /// The pixel at column `x` of row `y`.
    pub fn get_pixel(&self, x: u32, y: u32) -> (p: Rgba)
        requires
            self.wf(),
            self@.contains(x as int, y as int),
        ensures
            p == self@.pixel(x as int, y as int),
    {
        let i: usize = self.index_of(x, y);
        self.pixel_at(i)
    }

    /// Replaces the pixel with row-major position `i`.
    pub fn set_pixel_at(&mut self, i: usize, p: Rgba)
        requires
            old(self).wf(),
            i < old(self)@.pixel_count(),
        ensures
            final(self).wf(),
            final(self)@ == old(self)@.with_pixel_at(i as int, p),
    {
        assert(self.data.len() <= usize::MAX);
        let at: usize = 4 * i;
        self.data.set(at, p.r);
        self.data.set(at + 1, p.g);
        self.data.set(at + 2, p.b);
        self.data.set(at + 3, p.a);
    }

    /// Replaces the pixel at column `x` of row `y`.
    pub fn put_pixel(&mut self, x: u32, y: u32, p: Rgba)
        requires
            old(self).wf(),
            old(self)@.contains(x as int, y as int),
        ensures
            final(self).wf(),
            final(self)@ == old(self)@.with_pixel_at(old(self)@.index_of(x as int, y as int), p),
    {
        let i: usize = self.index_of(x, y);
        self.set_pixel_at(i, p);
    }
}

} // verus!

//! The decoded image: a rectangle of RGBA samples.

use crate::wire::PixelCoordinate;
use vstd::prelude::*;

verus! {

/// The longest side an image may have: every coordinate fits in sixteen bits.
pub const MAX_SIDE: u32 = 65536;

/// One pixel: red, green, blue and alpha. Alpha zero is fully transparent.
#[derive(Clone, Copy, Debug, PartialEq, Eq, Structural)]
pub struct PixelColor {
    pub r: u8,
    pub g: u8,
    pub b: u8,
    pub a: u8,
}

/// An image held as `4 * width * height` samples, row by row, four per pixel.
#[derive(Debug)]
pub struct PixelGrid {
    width: u32,
    height: u32,
    samples: Vec<u8>,
}

/// The position of the pixel `c` in a row-major image `width` pixels wide.
pub open spec fn pixel_index(width: nat, c: PixelCoordinate) -> int {
    c.y * width + c.x
}

/// A pixel inside a `width` by `height` image has its index below
/// `width * height`.
pub proof fn lemma_pixel_index_bound(width: nat, height: nat, c: PixelCoordinate)
    requires
        c.x < width,
        c.y < height,
    ensures
        0 <= pixel_index(width, c) < width * height,
{
    assert(c.y * width + c.x < width * height) by (nonlinear_arith)
        requires
            c.x < width,
            c.y < height,
    ;
    assert(0 <= c.y * width) by (nonlinear_arith);
}

/// Two pixels of one image with the same index are the same pixel.
pub proof fn lemma_pixel_index_injective(width: nat, a: PixelCoordinate, b: PixelCoordinate)
    requires
        a.x < width,
        b.x < width,
        pixel_index(width, a) == pixel_index(width, b),
    ensures
        a == b,
{
    assert(a.y == b.y) by (nonlinear_arith)
        requires
            a.x < width,
            b.x < width,
            a.y * width + a.x == b.y * width + b.x,
    ;
}

/// An image has at most `MAX_SIDE * MAX_SIDE` pixels.
pub proof fn lemma_area_bound(grid: PixelGrid)
    requires
        grid.wf(),
    ensures
        grid.area() <= 0x1_0000_0000,
{
    assert(grid.spec_width() * grid.spec_height() <= 65536 * 65536) by (nonlinear_arith)
        requires
            grid.spec_width() <= 65536,
            grid.spec_height() <= 65536,
    ;
}

impl PixelGrid {
    /// Number of columns.
    pub closed spec fn spec_width(&self) -> nat {
        self.width as nat
    }

    /// Number of rows.
    pub closed spec fn spec_height(&self) -> nat {
        self.height as nat
    }

    /// The samples, row by row, four per pixel.
    pub closed spec fn samples(&self) -> Seq<u8> {
        self.samples@
    }

    /// The sides are within `MAX_SIDE` and the samples fill the rectangle.
    pub open spec fn wf(&self) -> bool {
        &&& self.spec_width() <= MAX_SIDE
        &&& self.spec_height() <= MAX_SIDE
        &&& self.samples().len() == 4 * (self.spec_width() * self.spec_height())
    }

    /// Number of pixels.
    pub open spec fn area(&self) -> nat {
        self.spec_width() * self.spec_height()
    }

    /// `c` lies inside the image.
    pub open spec fn contains(&self, c: PixelCoordinate) -> bool {
        c.x < self.spec_width() && c.y < self.spec_height()
    }

    /// Row-major position of the pixel at `c`.
    pub open spec fn index_of(&self, c: PixelCoordinate) -> int {
        pixel_index(self.spec_width(), c)
    }

    /// The pixel at `c`.
    pub open spec fn color_at(&self, c: PixelCoordinate) -> PixelColor {
        let i = 4 * self.index_of(c);
        PixelColor {
            r: self.samples()[i],
            g: self.samples()[i + 1],
            b: self.samples()[i + 2],
            a: self.samples()[i + 3],
        }
    }

    /// The pixel at `c` is fully transparent.
    pub open spec fn is_transparent(&self, c: PixelCoordinate) -> bool {
        self.color_at(c).a == 0
    }

    /// Takes over the samples of a decoded image.
    ///
    /// Refused are a side above `MAX_SIDE` and a sample count other than
    /// `4 * width * height`.
    pub fn new(width: u32, height: u32, samples: Vec<u8>) -> (grid: Option<PixelGrid>)
        ensures
            grid is Some <==> width <= MAX_SIDE && height <= MAX_SIDE && samples@.len() == 4 * (
            width * height),
            grid matches Some(g) ==> g.wf() && g.spec_width() == width && g.spec_height() == height
                && g.samples() == samples@,
    {
        if width > MAX_SIDE || height > MAX_SIDE {
            return None;
        }
        assert(width * height <= 65536 * 65536) by (nonlinear_arith)
            requires
                width <= 65536,
                height <= 65536,
        ;
        let area: u64 = (width as u64) * (height as u64);
        if samples.len() as u64 != 4 * area {
            return None;
        }
        Some(PixelGrid { width, height, samples })
    }

    /// Number of columns.
    pub fn width(&self) -> (w: u32)
        ensures
            w == self.spec_width(),
    {
        self.width
    }

    /// Number of rows.
    pub fn height(&self) -> (h: u32)
        ensures
            h == self.spec_height(),
    {
        self.height
    }

    /// Tells whether `c` lies inside the image.
    pub fn has_pixel(&self, c: PixelCoordinate) -> (inside: bool)
        ensures
            inside == self.contains(c),
    {
        (c.x as u32) < self.width && (c.y as u32) < self.height
    }

    /// Row-major position of a pixel inside the image.
    pub fn position(&self, c: PixelCoordinate) -> (i: usize)
        requires
            self.wf(),
            self.contains(c),
        ensures
            i == self.index_of(c),
            i < self.area(),
            4 * i + 3 < self.samples().len(),
    {
        let len: usize = self.samples.len();
        proof {
            lemma_pixel_index_bound(self.spec_width(), self.spec_height(), c);
            let row = c.y * self.width;
            assert(0 <= row) by (nonlinear_arith)
                requires
                    row == c.y * self.width,
            ;
            assert(self.index_of(c) == row + c.x);
            assert(self.samples@.len() == len);
            assert(row + c.x < self.area());
            assert(4 * self.area() <= usize::MAX);
        }
        (c.y as usize) * (self.width as usize) + (c.x as usize)
    }

    /// The pixel at `c`, which must lie inside the image.
    pub fn pixel(&self, c: PixelCoordinate) -> (color: PixelColor)
        requires
            self.wf(),
            self.contains(c),
        ensures
            color == self.color_at(c),
    {
        let len: usize = self.samples.len();
        let at: usize = self.position(c);
        assert(4 * at + 3 < len);
        let i: usize = 4 * at;
        PixelColor {
            r: self.samples[i],
            g: self.samples[i + 1],
            b: self.samples[i + 2],
            a: self.samples[i + 3],
        }
    }

    /// The pixel at `c`, if `c` lies inside the image.
    pub fn get(&self, c: PixelCoordinate) -> (color: Option<PixelColor>)
        requires
            self.wf(),
        ensures
            color == if self.contains(c) {
                Some(self.color_at(c))
            } else {
                None
            },
    {
        if self.has_pixel(c) {
            Some(self.pixel(c))
        } else {
            None
        }
    }
}

} // verus!

//! Images as mathematical values: an extent and its pixels, row by row.

use vstd::arithmetic::div_mod::{lemma_fundamental_div_mod, lemma_fundamental_div_mod_converse};
use vstd::prelude::*;

use crate::geometry::Replacer;

verus! {

/// One pixel: red, green, blue and alpha, eight bits each.
#[derive(Clone, Copy, Debug, PartialEq, Eq, Structural)]
pub struct Pixel {
    pub r: u8,
    pub g: u8,
    pub b: u8,
    pub a: u8,
}

impl Pixel {
    /// The pixel of a fresh canvas: every channel zero, fully transparent.
    pub open spec fn clear() -> Pixel {
        Pixel { r: 0, g: 0, b: 0, a: 0 }
    }

    /// The channel at `c` of the four: red, green, blue, alpha.
    pub open spec fn channel(self, c: int) -> u8 {
        if c == 0 {
            self.r
        } else if c == 1 {
            self.g
        } else if c == 2 {
            self.b
        } else {
            self.a
        }
    }

    pub fn transparent() -> (p: Pixel)
        ensures
            p == Pixel::clear(),
    {
        Pixel { r: 0, g: 0, b: 0, a: 0 }
    }
}

/// What an image holds: `width * height` pixels, the rows from top to bottom
/// and each row from left to right.
pub struct Raster {
    pub width: nat,
    pub height: nat,
    pub pixels: Seq<Pixel>,
}

impl Raster {
    pub open spec fn wf(self) -> bool {
        self.pixels.len() == self.width * self.height
    }

    pub open spec fn contains(self, x: int, y: int) -> bool {
        0 <= x < self.width && 0 <= y < self.height
    }

    /// Where the pixel at column `x` of row `y` stands among `pixels`.
    pub open spec fn index(self, x: int, y: int) -> int {
        y * self.width + x
    }

    pub open spec fn at(self, x: int, y: int) -> Pixel {
        self.pixels[self.index(x, y)]
    }

    /// The column of the pixel that stands at `i` among `pixels`.
    pub open spec fn column(self, i: int) -> int {
        i % (self.width as int)
    }

    /// The row of the pixel that stands at `i` among `pixels`.
    pub open spec fn row(self, i: int) -> int {
        i / (self.width as int)
    }

    /// The image of the given extent whose pixels are all clear.
    pub open spec fn blank(width: nat, height: nat) -> Raster {
        Raster { width, height, pixels: Seq::new(width * height, |i: int| Pixel::clear()) }
    }

    /// The image of the given extent whose pixels are `bytes`, four to the
    /// pixel: red, green, blue, alpha.
    pub open spec fn from_bytes(width: nat, height: nat, bytes: Seq<u8>) -> Raster {
        Raster {
            width,
            height,
            pixels: Seq::new(
                width * height,
                |i: int|
                    Pixel {
                        r: bytes[4 * i],
                        g: bytes[4 * i + 1],
                        b: bytes[4 * i + 2],
                        a: bytes[4 * i + 3],
                    },
            ),
        }
    }

    /// The pixels as bytes, four to the pixel: red, green, blue, alpha.
    pub open spec fn bytes(self) -> Seq<u8> {
        Seq::new(4 * self.pixels.len(), |k: int| self.pixels[k / 4].channel(k % 4))
    }

    /// This image with `pixel` at column `x` of row `y`.
    pub open spec fn with_pixel(self, x: int, y: int, pixel: Pixel) -> Raster {
        Raster {
            width: self.width,
            height: self.height,
            pixels: self.pixels.update(self.index(x, y), pixel),
        }
    }

    /// This image after the copy `r` from `src`: a pixel that the copy lands
    /// on holds the source pixel that lands there, every other pixel is as
    /// before. What would land outside this image is dropped.
    pub open spec fn paint(self, src: Raster, r: Replacer) -> Raster {
        Raster {
            width: self.width,
            height: self.height,
            pixels: Seq::new(
                self.pixels.len(),
                |i: int|
                    if r.covers(self.column(i), self.row(i)) {
                        src.at(r.source_x(self.column(i)), r.source_y(self.row(i)))
                    } else {
                        self.pixels[i]
                    },
            ),
        }
    }

    /// A position within the image has its place among the pixels, and that
    /// place leads back to the position.
    pub proof fn lemma_index(self, x: int, y: int)
        requires
            self.wf(),
            self.contains(x, y),
        ensures
            0 <= self.index(x, y) < self.pixels.len(),
            self.column(self.index(x, y)) == x,
            self.row(self.index(x, y)) == y,
    {
        let w = self.width as int;
        let h = self.height as int;
        assert(y * w + x < w * h) by (nonlinear_arith)
            requires
                0 <= x < w,
                0 <= y < h,
        ;
        assert(0 <= y * w) by (nonlinear_arith)
            requires
                0 <= y,
                0 <= w,
        ;
        lemma_fundamental_div_mod_converse(y * w + x, w, y, x);
    }

    /// A place among the pixels is a position within the image.
    pub proof fn lemma_position(self, i: int)
        requires
            self.wf(),
            0 <= i < self.pixels.len(),
        ensures
            self.contains(self.column(i), self.row(i)),
            self.index(self.column(i), self.row(i)) == i,
    {
        let w = self.width as int;
        let h = self.height as int;
        assert(w > 0) by (nonlinear_arith)
            requires
                0 <= i < w * h,
                0 <= w,
        ;
        lemma_fundamental_div_mod(i, w);
        let q = i / w;
        let m = i % w;
        assert(w * q == q * w) by (nonlinear_arith);
        assert(0 <= q < h) by (nonlinear_arith)
            requires
                0 <= i < w * h,
                i == q * w + m,
                0 <= m < w,
        ;
    }

    /// Every place among the pixels is a position within the image.
    pub proof fn lemma_positions(self)
        requires
            self.wf(),
        ensures
            forall|i: int|
                #![trigger self.column(i)]
                #![trigger self.row(i)]
                0 <= i < self.pixels.len() ==> self.contains(self.column(i), self.row(i))
                    && self.index(self.column(i), self.row(i)) == i,
    {
        assert forall|i: int| 0 <= i < self.pixels.len() implies self.contains(
            self.column(i),
            self.row(i),
        ) && self.index(self.column(i), self.row(i)) == i by {
            self.lemma_position(i);
        }
    }

    /// What a copy leaves at each position of the image.
    pub proof fn lemma_paint_at(self, src: Raster, r: Replacer, x: int, y: int)
        requires
            self.wf(),
            self.contains(x, y),
        ensures
            self.paint(src, r).wf(),
            self.paint(src, r).at(x, y) == if r.covers(x, y) {
                src.at(r.source_x(x), r.source_y(y))
            } else {
                self.at(x, y)
            },
    {
        self.lemma_index(x, y);
    }
}

} // verus!

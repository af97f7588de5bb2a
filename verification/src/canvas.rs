//! Images in memory.

use vstd::prelude::*;

use crate::geometry::{spans, Replacer, Vec2};
use crate::raster::{Pixel, Raster};

verus! {

/// An image of red-green-blue-alpha pixels, eight bits a channel.
#[derive(Debug, PartialEq, Eq)]
pub struct Canvas {
    width: u32,
    height: u32,
    pixels: Vec<Pixel>,
}

impl View for Canvas {
    type V = Raster;

    closed spec fn view(&self) -> Raster {
        Raster {
            width: self.width as nat,
            height: self.height as nat,
            pixels: Seq::new((self.width * self.height) as nat, |i: int| self.pixels@[i]),
        }
    }
}

impl Clone for Canvas {
    fn clone(&self) -> (copy: Self)
        ensures
            copy@ == self@,
    {
        proof {
            use_type_invariant(self);
        }
        let pixels = self.pixels.clone();
        assert(pixels@ =~= self.pixels@);
        let copy = Canvas { width: self.width, height: self.height, pixels };
        assert(copy@.pixels =~= self@.pixels);
        copy
    }
}

impl Canvas {
    #[verifier::type_invariant]
    spec fn well_formed(self) -> bool {
        &&& self.pixels@.len() == self.width * self.height
        &&& Self::allocatable(self.width, self.height)
    }

    /// A canvas holds one pixel for each position of its extent.
    pub proof fn lemma_well_formed(&self)
        ensures
            self@.wf(),
    {
    }

    /// Under the invariant, the view's pixels are the pixels held.
    proof fn lemma_pixels(&self)
        requires
            self.well_formed(),
        ensures
            self@.pixels == self.pixels@,
    {
        assert(self@.pixels =~= self.pixels@);
    }

    /// Whether an image of this extent can be held in memory at all, four
    /// bytes to the pixel.
    pub open spec fn allocatable(width: u32, height: u32) -> bool {
        4 * (width * height) <= isize::MAX
    }

    /// A canvas of the given extent, every pixel clear; `None` where the
    /// extent is more than memory can address.
    pub fn new(width: u32, height: u32) -> (canvas: Option<Canvas>)
        ensures
            canvas is Some <==> Self::allocatable(width, height),
            canvas matches Some(c) ==> c@ == Raster::blank(width as nat, height as nat),
    {
        assert(0 <= width * height <= 0xffff_ffff * 0xffff_ffff) by (nonlinear_arith)
            requires
                0 <= width <= 0xffff_ffff,
                0 <= height <= 0xffff_ffff,
        ;
        let bytes: u128 = 4 * (width as u128 * height as u128);
        if bytes > isize::MAX as u128 {
            return None;
        }
        let count: usize = width as usize * height as usize;
        let pixels = vec![Pixel::transparent(); count];
        let canvas = Canvas { width, height, pixels };
        assert(canvas@.pixels =~= Raster::blank(width as nat, height as nat).pixels);
        Some(canvas)
    }

    /// The image of the given extent whose pixels are `bytes`, four to the
    /// pixel: red, green, blue, alpha, the rows from top to bottom. `None`
    /// where `bytes` is not four bytes for each pixel of the extent.
    pub fn from_rgba8(width: u32, height: u32, bytes: &[u8]) -> (canvas: Option<Canvas>)
        ensures
            canvas is Some <==> bytes@.len() == 4 * (width * height) && Self::allocatable(
                width,
                height,
            ),
            canvas matches Some(c) ==> c@ == Raster::from_bytes(
                width as nat,
                height as nat,
                bytes@,
            ),
    {
        assert(0 <= width * height <= 0xffff_ffff * 0xffff_ffff) by (nonlinear_arith)
            requires
                0 <= width <= 0xffff_ffff,
                0 <= height <= 0xffff_ffff,
        ;
        let wanted: u128 = 4 * (width as u128 * height as u128);
        if wanted > isize::MAX as u128 || bytes.len() as u128 != wanted {
            return None;
        }
        let count: usize = width as usize * height as usize;
        let ghost image = Raster::from_bytes(width as nat, height as nat, bytes@);
        let mut pixels: Vec<Pixel> = Vec::with_capacity(count);
        let mut i: usize = 0;
        while i < count
            invariant
                i <= count,
                bytes@.len() == 4 * count,
                4 * count <= usize::MAX,
                image == Raster::from_bytes(width as nat, height as nat, bytes@),
                image.pixels.len() == count,
                pixels@.len() == i,
                forall|k: int| 0 <= k < i ==> pixels@[k] == image.pixels[k],
            decreases count - i,
        {
            let at: usize = 4 * i;
            pixels.push(
                Pixel { r: bytes[at], g: bytes[at + 1], b: bytes[at + 2], a: bytes[at + 3] },
            );
            i += 1;
        }
        let canvas = Canvas { width, height, pixels };
        assert(canvas@.pixels =~= image.pixels);
        Some(canvas)
    }

    /// The pixels as bytes, four to the pixel: red, green, blue, alpha, the
    /// rows from top to bottom.
    pub fn to_rgba8(&self) -> (bytes: Vec<u8>)
        ensures
            bytes@ == self@.bytes(),
    {
        proof {
            use_type_invariant(self);
            self.lemma_pixels();
        }
        let count: usize = self.pixels.len();
        let mut bytes: Vec<u8> = Vec::with_capacity(4 * count);
        let mut i: usize = 0;
        while i < count
            invariant
                i <= count,
                count == self.pixels@.len(),
                4 * count <= isize::MAX,
                bytes@.len() == 4 * i,
                forall|k: int|
                    0 <= k < 4 * i ==> bytes@[k] == (#[trigger] self.pixels@[k / 4]).channel(k % 4),
            decreases count - i,
        {
            let pixel = self.pixels[i];
            bytes.push(pixel.r);
            bytes.push(pixel.g);
            bytes.push(pixel.b);
            bytes.push(pixel.a);
            i += 1;
        }
        assert(bytes@ =~= self@.bytes());
        bytes
    }

    /// Puts `pixel` at column `x` of row `y`, where the image has a pixel
    /// there; says whether it has.
    pub fn put_pixel(&mut self, x: u32, y: u32, pixel: Pixel) -> (written: bool)
        ensures
            written == old(self)@.contains(x as int, y as int),
            final(self)@ == if written {
                old(self)@.with_pixel(x as int, y as int, pixel)
            } else {
                old(self)@
            },
    {
        proof {
            use_type_invariant(&*self);
            self.lemma_pixels();
        }
        if x < self.width && y < self.height {
            proof {
                self@.lemma_index(x as int, y as int);
                assert(0 <= y * self.width) by (nonlinear_arith);
                assert(self@.index(x as int, y as int) == y * self.width + x);
                assert(self.pixels@.len() == self.pixels.len());
            }
            let at: usize = y as usize * self.width as usize + x as usize;
            self.pixels[at] = pixel;
            proof {
                self.lemma_pixels();
                assert(self@.pixels =~= old(self)@.with_pixel(x as int, y as int, pixel).pixels);
            }
            true
        } else {
            false
        }
    }

    pub fn width(&self) -> (w: u32)
        ensures
            w == self@.width,
    {
        self.width
    }

    pub fn height(&self) -> (h: u32)
        ensures
            h == self@.height,
    {
        self.height
    }

    /// The pixel at column `x` of row `y`, where the image has one there.
    pub fn pixel(&self, x: u32, y: u32) -> (p: Option<Pixel>)
        ensures
            p == if self@.contains(x as int, y as int) {
                Some(self@.at(x as int, y as int))
            } else {
                None::<Pixel>
            },
    {
        proof {
            use_type_invariant(self);
            self.lemma_pixels();
        }
        if x < self.width && y < self.height {
            proof {
                self@.lemma_index(x as int, y as int);
                assert(0 <= y * self.width) by (nonlinear_arith);
                assert(self@.index(x as int, y as int) == y * self.width + x);
                assert(self.pixels@.len() == self.pixels.len());
            }
            let row: usize = y as usize * self.width as usize;
            Some(self.pixels[row + x as usize])
        } else {
            None
        }
    }
}

/// A copy asks for a rectangle that its source does not hold.
#[derive(Clone, Copy, Debug, PartialEq, Eq, Structural)]
pub struct BoundsError {
    /// The corner of the rectangle asked for.
    pub src: Vec2<u32>,
    /// The extent of the rectangle asked for.
    pub size: Vec2<u32>,
    /// The extent of the source.
    pub extent: Vec2<u32>,
}

/// Where a copy of `size` pixels placed at `start` lands on a row or column
/// of `extent` pixels: the positions from `lo` up to `hi`, of which the first
/// takes the pixel at `skip` of the copy.
struct Clip {
    lo: u32,
    hi: u32,
    skip: u32,
}

impl Clip {
    spec fn of(self, start: i64, size: u32, extent: u32) -> bool {
        &&& self.lo <= self.hi <= extent
        &&& self.lo < self.hi ==> self.skip == self.lo - start
        &&& forall|v: int|
            0 <= v < extent ==> (self.lo <= v < self.hi <==> #[trigger] spans(
                start as int,
                size as int,
                v,
            ))
    }

    fn new(start: i64, size: u32, extent: u32) -> (clip: Clip)
        ensures
            clip.of(start, size, extent),
    {
        let first: i128 = start as i128;
        let behind: i128 = first + size as i128;
        let lo: u32 = if first <= 0 {
            0
        } else if first >= extent as i128 {
            extent
        } else {
            first as u32
        };
        let hi: u32 = if behind <= lo as i128 {
            lo
        } else if behind >= extent as i128 {
            extent
        } else {
            behind as u32
        };
        let skip: u32 = if lo < hi {
            (lo as i128 - first) as u32
        } else {
            0
        };
        Clip { lo, hi, skip }
    }
}

/// Whether `pixels` are those of `before`, but for the places ahead of column
/// `x` of row `y`, in the order of the rows, which hold what `target` holds.
spec fn painted_ahead_of(
    pixels: Seq<Pixel>,
    before: Raster,
    target: Raster,
    x: int,
    y: int,
) -> bool {
    &&& pixels.len() == before.pixels.len()
    &&& forall|i: int|
        0 <= i < pixels.len() ==> #[trigger] pixels[i] == if before.row(i) < y || (before.row(i)
            == y && before.column(i) < x) {
            target.pixels[i]
        } else {
            before.pixels[i]
        }
}

impl Replacer {
    fn bounds_error(&self, src: &Canvas) -> (e: BoundsError)
        ensures
            e == (BoundsError {
                src: self.src,
                size: self.size,
                extent: Vec2 { x: src@.width as u32, y: src@.height as u32 },
            }),
    {
        BoundsError {
            src: self.src,
            size: self.size,
            extent: Vec2 { x: src.width, y: src.height },
        }
    }

    /// Copies the rectangle from `src` onto `dst`. Every pixel that lands within
    /// `dst` replaces the pixel there, all four channels; what lands outside is
    /// dropped. A rectangle that `src` does not hold whole is refused, and
    /// `dst` stays as it was.
    pub fn apply(&self, src: &Canvas, dst: &mut Canvas) -> (r: Result<(), BoundsError>)
        ensures
            r is Ok <==> self.fits(src@.width, src@.height),
            r is Ok ==> final(dst)@ == old(dst)@.paint(src@, *self),
            r matches Err(e) ==> final(dst)@ == old(dst)@ && e == (BoundsError {
                src: self.src,
                size: self.size,
                extent: Vec2 { x: src@.width as u32, y: src@.height as u32 },
            }),
    {
        proof {
            use_type_invariant(src);
            use_type_invariant(&*dst);
            src.lemma_pixels();
            dst.lemma_pixels();
        }
        if self.src.x as u64 + self.size.x as u64 > src.width as u64 || self.src.y as u64
            + self.size.y as u64 > src.height as u64 {
            return Err(self.bounds_error(src));
        }
        let ghost before = dst@;
        let ghost target = before.paint(src@, *self);
        let width = dst.width;
        let height = dst.height;
        let columns = Clip::new(self.dst.x, self.size.x, width);
        let rows = Clip::new(self.dst.y, self.size.y, height);
        let mut y: u32 = rows.lo;
        assert(painted_ahead_of(dst.pixels@, before, target, 0, y as int)) by {
            before.lemma_positions();
        }
        while y < rows.hi
            invariant
                rows.lo <= y <= rows.hi,
                columns.of(self.dst.x, self.size.x, width),
                rows.of(self.dst.y, self.size.y, height),
                dst.width == width == before.width,
                dst.height == height == before.height,
                Canvas::allocatable(width, height),
                before.wf(),
                src@.wf(),
                src@.pixels == src.pixels@,
                self.fits(src@.width, src@.height),
                target == before.paint(src@, *self),
                painted_ahead_of(dst.pixels@, before, target, 0, y as int),
            decreases rows.hi - y,
        {
            let mut x: u32 = columns.lo;
            assert(painted_ahead_of(dst.pixels@, before, target, x as int, y as int)) by {
                before.lemma_positions();
            }
            while x < columns.hi
                invariant
                    rows.lo <= y < rows.hi,
                    columns.lo <= x <= columns.hi,
                    columns.of(self.dst.x, self.size.x, width),
                    rows.of(self.dst.y, self.size.y, height),
                    dst.width == width == before.width,
                    dst.height == height == before.height,
                    Canvas::allocatable(width, height),
                    before.wf(),
                    src@.wf(),
                    src@.pixels == src.pixels@,
                    self.fits(src@.width, src@.height),
                    target == before.paint(src@, *self),
                    painted_ahead_of(dst.pixels@, before, target, x as int, y as int),
                decreases columns.hi - x,
            {
                proof {
                    assert(self.covers(x as int, y as int));
                }
                let from_x: u32 = self.src.x + columns.skip + (x - columns.lo);
                let from_y: u32 = self.src.y + rows.skip + (y - rows.lo);
                proof {
                    src@.lemma_index(from_x as int, from_y as int);
                    before.lemma_index(x as int, y as int);
                    assert(0 <= from_y * src.width) by (nonlinear_arith);
                    assert(0 <= y * width) by (nonlinear_arith);
                    assert(src@.index(from_x as int, from_y as int) == from_y * src.width + from_x);
                    assert(before.index(x as int, y as int) == y * width + x);
                    assert(src.pixels@.len() == src.pixels.len());
                    assert(dst.pixels@.len() == dst.pixels.len());
                }
                let from: usize = from_y as usize * src.width as usize + from_x as usize;
                let to: usize = y as usize * width as usize + x as usize;
                dst.pixels[to] = src.pixels[from];
                assert(painted_ahead_of(dst.pixels@, before, target, x + 1, y as int)) by {
                    before.lemma_positions();
                }
                x += 1;
            }
            assert(painted_ahead_of(dst.pixels@, before, target, 0, y + 1)) by {
                before.lemma_positions();
            }
            y += 1;
        }
        proof {
            before.lemma_positions();
            dst.lemma_pixels();
            assert(dst@.pixels =~= target.pixels);
        }
        Ok(())
    }
}

} // verus!

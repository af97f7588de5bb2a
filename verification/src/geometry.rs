//! Coordinates and the region-copy instruction.

use vstd::prelude::*;

verus! {

/// A pair of coordinates or extents along the horizontal and vertical axes.
#[derive(Copy, Debug, PartialEq, Eq, Structural)]
pub struct Vec2<T> {
    pub x: T,
    pub y: T,
}

impl<T: Copy> Clone for Vec2<T> {
    fn clone(&self) -> (copy: Self)
        ensures
            copy == *self,
    {
        *self
    }
}

impl<T> Vec2<T> {
    pub fn new(x: T, y: T) -> (v: Self)
        ensures
            v.x == x,
            v.y == y,
    {
        Self { x, y }
    }
}

/// Whether `v` is one of the `size` positions that begin at `start`.
pub open spec fn spans(start: int, size: int, v: int) -> bool {
    start <= v < start + size
}

/// One copy operation: the rectangle of extent `size` whose top-left corner is
/// at `src` in a source image lands with its top-left corner at `dst` on the
/// destination. `dst` may be negative or beyond the destination's extent.
#[derive(Clone, Copy, Debug, PartialEq, Eq, Structural)]
pub struct Replacer {
    pub size: Vec2<u32>,
    pub src: Vec2<u32>,
    pub dst: Vec2<i64>,
}

impl Replacer {
    pub fn new(size: Vec2<u32>, src: Vec2<u32>, dst: Vec2<i64>) -> (r: Self)
        ensures
            r.size == size,
            r.src == src,
            r.dst == dst,
    {
        Self { size, src, dst }
    }

    /// Whether the copy lands on the destination position `(x, y)`, before
    /// the destination's own extent is taken into account.
    pub open spec fn covers(self, x: int, y: int) -> bool {
        &&& spans(self.dst.x as int, self.size.x as int, x)
        &&& spans(self.dst.y as int, self.size.y as int, y)
    }

    /// The source column whose pixel lands on destination column `x`.
    pub open spec fn source_x(self, x: int) -> int {
        self.src.x + (x - self.dst.x)
    }

    /// The source row whose pixel lands on destination row `y`.
    pub open spec fn source_y(self, y: int) -> int {
        self.src.y + (y - self.dst.y)
    }

    /// Whether the rectangle to copy lies within a source of the given extent.
    pub open spec fn fits(self, width: nat, height: nat) -> bool {
        &&& self.src.x + self.size.x <= width
        &&& self.src.y + self.size.y <= height
    }
}

} // verus!

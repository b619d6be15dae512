//! Axis-aligned room rectangles.

use vstd::prelude::*;

verus! {

/// A room's bounding box. `x1 <= x < x2`, `y1 <= y < y2` are the cells the
/// room covers, wall ring included; the walkable interior is
/// `x1+1 .. x2`, `y1+1 .. y2` exclusive of `x2`/`y2`.
#[derive(Clone, Copy, Debug, PartialEq, Eq, Structural)]
pub struct Rect {
    pub x1: i32,
    pub y1: i32,
    pub x2: i32,
    pub y2: i32,
}

impl Rect {
    /// The integer midpoint of the rectangle.
    pub open spec fn spec_center(self) -> (int, int) {
        (((self.x1 + self.x2) / 2) as int, ((self.y1 + self.y2) / 2) as int)
    }

    /// Bounding boxes overlap, edges included. The inclusive test is
    /// deliberate: it keeps a one-tile gap between accepted rooms, so no
    /// two rooms ever share a wall.
    pub open spec fn spec_intersects(self, other: Rect) -> bool {
        self.x1 <= other.x2 && self.x2 >= other.x1 && self.y1 <= other.y2 && self.y2
            >= other.y1
    }

    pub fn new(x: i32, y: i32, w: i32, h: i32) -> (r: Rect)
        requires
            0 <= x,
            0 <= y,
            0 <= w,
            0 <= h,
            x + w <= i32::MAX,
            y + h <= i32::MAX,
        ensures
            r == (Rect { x1: x, y1: y, x2: (x + w) as i32, y2: (y + h) as i32 }),
    {
        Rect { x1: x, y1: y, x2: x + w, y2: y + h }
    }

    pub fn center(&self) -> (c: (i32, i32))
        requires
            0 <= self.x1 <= self.x2,
            0 <= self.y1 <= self.y2,
            self.x1 + self.x2 <= i32::MAX,
            self.y1 + self.y2 <= i32::MAX,
        ensures
            (c.0 as int, c.1 as int) == self.spec_center(),
    {
        ((self.x1 + self.x2) / 2, (self.y1 + self.y2) / 2)
    }

    pub fn intersects_with(&self, other: &Rect) -> (r: bool)
        ensures
            r == self.spec_intersects(*other),
    {
        self.x1 <= other.x2 && self.x2 >= other.x1 && self.y1 <= other.y2 && self.y2
            >= other.y1
    }
}

} // verus!

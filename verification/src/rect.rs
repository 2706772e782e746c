//! Axis-aligned rectangles in grid coordinates, used while partitioning
//! space and recording placed rooms.

use vstd::prelude::*;

verus! {

#[derive(Default, Copy, Clone, Debug)]
pub struct Rect {
    pub x1: i32,
    pub x2: i32,
    pub y1: i32,
    pub y2: i32,
}

impl Rect {
    /// A rectangle never has negative extent: enforced at construction so no
    /// degenerate rectangle feeds a random-range call.
    pub open spec fn spec_wf(self) -> bool {
        self.x1 <= self.x2 && self.y1 <= self.y2
    }

    /// Whether the two rectangles overlap (shared edges count).
    pub open spec fn spec_intersect(self, other: Rect) -> bool {
        self.x1 <= other.x2 && self.x2 >= other.x1 && self.y1 <= other.y2 && self.y2
            >= other.y1
    }

    pub fn new(x: i32, y: i32, w: i32, h: i32) -> (r: Rect)
        requires
            w >= 0,
            h >= 0,
            x + w <= i32::MAX,
            y + h <= i32::MAX,
        ensures
            r.x1 == x,
            r.y1 == y,
            r.x2 == x + w,
            r.y2 == y + h,
            r.spec_wf(),
    {
        Rect { x1: x, y1: y, x2: x + w, y2: y + h }
    }

    /// Returns true if this overlaps with other.
    pub fn intersect(&self, other: &Rect) -> (r: bool)
        ensures
            r == self.spec_intersect(*other),
    {
        self.x1 <= other.x2 && self.x2 >= other.x1 && self.y1 <= other.y2 && self.y2
            >= other.y1
    }

    pub fn center(&self) -> (c: (i32, i32))
        requires
            0 <= self.x1 <= self.x2,
            0 <= self.y1 <= self.y2,
            self.x1 + self.x2 <= i32::MAX,
            self.y1 + self.y2 <= i32::MAX,
        ensures
            c.0 == (self.x1 + self.x2) / 2,
            c.1 == (self.y1 + self.y2) / 2,
    {
        ((self.x1 + self.x2) / 2, (self.y1 + self.y2) / 2)
    }
}

} // verus!

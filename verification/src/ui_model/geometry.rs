//! Integer screen geometry, in physical pixels.

use vstd::prelude::*;

verus! {

/// A point in physical pixels.
#[derive(Clone, Copy, Debug, PartialEq, Eq, Structural)]
pub struct Point {
    pub x: i32,
    pub y: i32,
}

impl Point {
    pub fn new(x: i32, y: i32) -> (r: Point)
        ensures
            r == (Point { x, y }),
    {
        Point { x, y }
    }
}

/// An axis-aligned rectangle: origin `(x, y)` and size `width × height`,
/// in physical pixels. It covers the half-open ranges `[x, x + width)` and
/// `[y, y + height)`.
#[derive(Clone, Copy, Debug, PartialEq, Eq, Structural)]
pub struct Rect {
    pub x: i32,
    pub y: i32,
    pub width: i32,
    pub height: i32,
}

impl Default for Rect {
    /// The empty rectangle at the origin.
    fn default() -> (r: Rect)
        ensures
            r == (Rect { x: 0, y: 0, width: 0, height: 0 }),
    {
        Rect { x: 0, y: 0, width: 0, height: 0 }
    }
}

impl Rect {
    pub fn new(x: i32, y: i32, width: i32, height: i32) -> (r: Rect)
        ensures
            r == (Rect { x, y, width, height }),
    {
        Rect { x, y, width, height }
    }

    pub open spec fn spec_contains(self, p: Point) -> bool {
        &&& self.x <= p.x < self.x + self.width
        &&& self.y <= p.y < self.y + self.height
    }

    /// Whether `p` lies inside the rectangle.
    pub fn contains(&self, p: Point) -> (r: bool)
        ensures
            r == self.spec_contains(p),
    {
        let px = p.x as i64;
        let py = p.y as i64;
        let x = self.x as i64;
        let y = self.y as i64;
        x <= px && px < x + self.width as i64 && y <= py && py < y + self.height as i64
    }
}

/// A point is inside a rectangle exactly when it lies within all four
/// edges: at or right of the left edge, left of the right edge, at or below
/// the top edge and above the bottom edge. A point above, below, left or
/// right of the rectangle is never inside, and the top-left corner of a
/// non-empty rectangle always is.
pub proof fn law_contains_within_edges(r: Rect, p: Point)
    ensures
        r.spec_contains(p) ==> r.x <= p.x && p.x < r.x + r.width && r.y <= p.y && p.y < r.y
            + r.height,
        (r.x <= p.x && p.x < r.x + r.width && r.y <= p.y && p.y < r.y + r.height)
            ==> r.spec_contains(p),
        p.y < r.y || p.x < r.x || p.x >= r.x + r.width || p.y >= r.y + r.height
            ==> !r.spec_contains(p),
        (r.width > 0 && r.height > 0) ==> r.spec_contains(Point { x: r.x, y: r.y }),
{
}

} // verus!

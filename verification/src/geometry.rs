//! Points and rectangles in surface pixel space.
//!
//! The origin is the top-left pixel; `x` grows to the right and `y` grows
//! downward. Coordinates are signed, so that a shape may lie partly or wholly
//! off the surface: what falls outside is simply not drawn.

use vstd::prelude::*;

verus! {

/// A position in surface pixel space.
#[derive(Clone, Copy, PartialEq, Eq, Structural, Debug)]
pub struct Point {
    pub x: i32,
    pub y: i32,
}

/// An axis-aligned rectangle: its top-left corner, its width and its height.
///
/// Nothing keeps `w` and `h` from being negative; such a rectangle has no
/// interior and its edges run over empty ranges.
#[derive(Clone, Copy, PartialEq, Eq, Structural, Debug)]
pub struct Rect {
    pub x: i32,
    pub y: i32,
    pub w: i32,
    pub h: i32,
}

/// Whether the pixel `(px, py)` lies on the run from `(x0, y0)` to `(x1, y1)`.
///
/// A run whose ends differ in `x` is horizontal: it holds every `x` from `x0`
/// to `x1` at the height `y0`. Any other run is vertical: it holds every `y`
/// from `y0` to `y1` in the column `x0`. A run whose start lies after its end
/// holds no pixel.
pub open spec fn on_run(x0: int, y0: int, x1: int, y1: int, px: int, py: int) -> bool {
    if x0 != x1 {
        py == y0 && x0 <= px <= x1
    } else {
        px == x0 && y0 <= py <= y1
    }
}

impl Point {
    /// Whether the segment from `self` to `end` runs along one of the axes.
    pub open spec fn aligned_with(self, end: Point) -> bool {
        self.x == end.x || self.y == end.y
    }
}

impl Rect {
    /// Whether `(px, py)` lies within the rectangle, both far edges included.
    /// This is the test that a clip rectangle applies.
    pub open spec fn admits(self, px: int, py: int) -> bool {
        &&& self.x <= px <= self.x + self.w
        &&& self.y <= py <= self.y + self.h
    }

    /// Whether `(px, py)` lies in the part that a fill paints: one pixel in
    /// from the left and top edges, two pixels in from the right and bottom
    /// corner `(x + w, y + h)`.
    pub open spec fn interior(self, px: int, py: int) -> bool {
        &&& self.x + 1 <= px < self.x + self.w - 1
        &&& self.y + 1 <= py < self.y + self.h - 1
    }

    /// Whether `(px, py)` lies on the top edge as a stroke draws it.
    pub open spec fn on_top(self, px: int, py: int) -> bool {
        on_run(self.x as int, self.y as int, self.x + self.w, self.y as int, px, py)
    }

    /// Whether `(px, py)` lies on the left edge as a stroke draws it.
    pub open spec fn on_left(self, px: int, py: int) -> bool {
        on_run(self.x as int, self.y as int, self.x as int, self.y + self.h, px, py)
    }

    /// Whether `(px, py)` lies on the right edge as a stroke draws it.
    pub open spec fn on_right(self, px: int, py: int) -> bool {
        on_run(self.x + self.w, self.y as int, self.x + self.w, self.y + self.h, px, py)
    }

    /// Whether `(px, py)` lies on the bottom edge as a stroke draws it.
    pub open spec fn on_bottom(self, px: int, py: int) -> bool {
        on_run(self.x as int, self.y + self.h, self.x + self.w, self.y + self.h, px, py)
    }

    /// How many of the four edges pass through `(px, py)`: two at a corner of
    /// a rectangle with positive width and height.
    pub open spec fn edges_through(self, px: int, py: int) -> nat {
        let top: nat = if self.on_top(px, py) { 1 } else { 0 };
        let left: nat = if self.on_left(px, py) { 1 } else { 0 };
        let right: nat = if self.on_right(px, py) { 1 } else { 0 };
        let bottom: nat = if self.on_bottom(px, py) { 1 } else { 0 };
        top + left + right + bottom
    }

    /// Tests a pixel against the rectangle, both far edges included.
    pub fn contains(&self, px: i64, py: i64) -> (inside: bool)
        ensures
            inside == self.admits(px as int, py as int),
    {
        let right: i64 = self.x as i64 + self.w as i64;
        let bottom: i64 = self.y as i64 + self.h as i64;
        self.x as i64 <= px && px <= right && self.y as i64 <= py && py <= bottom
    }
}

/// The inside of a rectangle and its outline share no pixel: no edge passes
/// through a pixel that a fill paints.
pub proof fn lemma_interior_off_outline(rect: Rect, px: int, py: int)
    requires
        rect.interior(px, py),
    ensures
        rect.edges_through(px, py) == 0,
{
}

/// A rectangle of positive width and height has each corner on two edges, and
/// every other pixel of its outline on one.
pub proof fn lemma_corners_on_two_edges(rect: Rect, px: int, py: int)
    requires
        rect.w > 0,
        rect.h > 0,
    ensures
        rect.edges_through(px, py) <= 2,
        rect.edges_through(px, py) == 2 <==> (px == rect.x || px == rect.x + rect.w) && (py
            == rect.y || py == rect.y + rect.h),
{
}

} // verus!

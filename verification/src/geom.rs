//! Points and axis-aligned rectangles in image pixel coordinates, and the
//! rectangle constructions the selection state machine relies on: building a
//! rectangle from a drag (anchor and cursor) and clamping a cursor into a
//! committed rectangle.

use vstd::prelude::*;

verus! {

/// An integer pixel position.
#[derive(Clone, Copy, PartialEq, Eq, Structural, Debug)]
pub struct Point {
    pub x: i32,
    pub y: i32,
}

/// An axis-aligned rectangle `(x, y, w, h)` in image pixel coordinates,
/// with `w >= 0` and `h >= 0` wherever it stands for a selection.
#[derive(Clone, Copy, PartialEq, Eq, Structural, Debug)]
pub struct Rect {
    pub x: i32,
    pub y: i32,
    pub w: i32,
    pub h: i32,
}

impl Point {
    /// The point lies inside `r`, borders included (the test the state
    /// machine applies before a nested drag may start).
    pub open spec fn spec_in_rect(self, r: Rect) -> bool {
        r.x <= self.x <= r.x + r.w && r.y <= self.y <= r.y + r.h
    }

    /// The point lies inside the `w`-by-`h` pixel grid.
    pub open spec fn in_bounds(self, w: u32, h: u32) -> bool {
        0 <= self.x < w && 0 <= self.y < h
    }

    pub fn new(x: i32, y: i32) -> (p: Point)
        ensures
            p == (Point { x, y }),
    {
        Point { x, y }
    }

    /// Whether the point lies inside `r`, borders included.
    pub fn in_rect(self, r: &Rect) -> (b: bool)
        requires
            r.w >= 0,
            r.h >= 0,
            r.x + r.w <= i32::MAX,
            r.y + r.h <= i32::MAX,
        ensures
            b == self.spec_in_rect(*r),
    {
        self.x >= r.x && self.x <= r.x + r.w && self.y >= r.y && self.y <= r.y + r.h
    }

    /// Clamp the point into `r`, borders included: each coordinate is moved
    /// to the nearest value in `[r.x, r.x + r.w]` (resp. `[r.y, r.y + r.h]`).
    pub fn clamp_to_rect(self, r: &Rect) -> (p: Point)
        requires
            r.w >= 0,
            r.h >= 0,
            r.x + r.w <= i32::MAX,
            r.y + r.h <= i32::MAX,
        ensures
            p == (Point {
                x: clamp_i32(self.x, r.x, (r.x + r.w) as i32),
                y: clamp_i32(self.y, r.y, (r.y + r.h) as i32),
            }),
            p.spec_in_rect(*r),
    {
        let x = if self.x < r.x {
            r.x
        } else if self.x > r.x + r.w {
            r.x + r.w
        } else {
            self.x
        };
        let y = if self.y < r.y {
            r.y
        } else if self.y > r.y + r.h {
            r.y + r.h
        } else {
            self.y
        };
        Point { x, y }
    }
}

/// The nearest value to `v` in `[lo, hi]` (for `lo <= hi`).
pub open spec fn clamp_i32(v: i32, lo: i32, hi: i32) -> i32 {
    if v < lo {
        lo
    } else if v > hi {
        hi
    } else {
        v
    }
}

/// The rectangle spanned by a drag from `anchor` to `cursor`:
/// top-left corner at the componentwise minimum, extent the componentwise
/// absolute difference.
pub open spec fn spec_drag_rect(anchor: Point, cursor: Point) -> Rect {
    Rect {
        x: min_i32(anchor.x, cursor.x),
        y: min_i32(anchor.y, cursor.y),
        w: abs_diff_i32(anchor.x, cursor.x),
        h: abs_diff_i32(anchor.y, cursor.y),
    }
}

pub open spec fn min_i32(a: i32, b: i32) -> i32 {
    if a <= b {
        a
    } else {
        b
    }
}

pub open spec fn abs_diff_i32(a: i32, b: i32) -> i32 {
    if a <= b {
        (b - a) as i32
    } else {
        (a - b) as i32
    }
}

impl Rect {
    /// The rectangle lies inside the `w`-by-`h` pixel grid.
    pub open spec fn in_bounds(self, w: u32, h: u32) -> bool {
        0 <= self.x && 0 <= self.y && self.x + self.w <= w && self.y + self.h <= h
    }

    /// `self` is contained in `outer` (both taken as half-open areas).
    pub open spec fn inside(self, outer: Rect) -> bool {
        outer.x <= self.x && outer.y <= self.y && self.x + self.w <= outer.x + outer.w
            && self.y + self.h <= outer.y + outer.h
    }

    /// Build the rectangle spanned by a drag. The two corner points must not
    /// be farther apart than `i32::MAX` in either coordinate.
    pub fn from_drag(anchor: Point, cursor: Point) -> (r: Rect)
        requires
            anchor.x - cursor.x <= i32::MAX,
            cursor.x - anchor.x <= i32::MAX,
            anchor.y - cursor.y <= i32::MAX,
            cursor.y - anchor.y <= i32::MAX,
        ensures
            r == spec_drag_rect(anchor, cursor),
    {
        let x = if anchor.x <= cursor.x {
            anchor.x
        } else {
            cursor.x
        };
        let y = if anchor.y <= cursor.y {
            anchor.y
        } else {
            cursor.y
        };
        let w = if anchor.x <= cursor.x {
            cursor.x - anchor.x
        } else {
            anchor.x - cursor.x
        };
        let h = if anchor.y <= cursor.y {
            cursor.y - anchor.y
        } else {
            anchor.y - cursor.y
        };
        Rect { x, y, w, h }
    }
}

/// A drag whose corners both lie inside `outer` (borders included) yields a
/// rectangle contained in `outer`.
pub proof fn lemma_drag_rect_inside(anchor: Point, cursor: Point, outer: Rect)
    requires
        anchor.spec_in_rect(outer),
        cursor.spec_in_rect(outer),
    ensures
        spec_drag_rect(anchor, cursor).inside(outer),
{
}

/// A drag whose corners both lie inside the `w`-by-`h` pixel grid yields a
/// rectangle inside that grid.
pub proof fn lemma_drag_rect_in_bounds(anchor: Point, cursor: Point, w: u32, h: u32)
    requires
        anchor.in_bounds(w, h),
        cursor.in_bounds(w, h),
    ensures
        spec_drag_rect(anchor, cursor).in_bounds(w, h),
{
}

} // verus!

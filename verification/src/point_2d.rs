//! Point2D, a point within 2D space with fixed-point coordinates.

use vstd::prelude::*;

verus! {

/// Largest magnitude a coordinate may take.
///
/// The bound keeps every arithmetic expression of this crate inside `i64`:
/// a per-axis gap is at most `2 * COORD_MAX = 2^30`, so a squared distance
/// summed over three axes stays below `3 * 2^60 < 2^63`.
pub const COORD_MAX: i64 = 536870912;

/// Whether a coordinate lies within the fixed-point range of this crate.
pub open spec fn coord_in_range(c: int) -> bool {
    -COORD_MAX <= c <= COORD_MAX
}

#[derive(Debug, Clone, Copy, PartialEq, Eq, Structural, Hash)]
/// Point2D, a point within 2D space.
pub struct Point2D {
    pub x: i64,
    pub y: i64,
}

impl Point2D {
    /// Whether both coordinates lie within the fixed-point range.
    pub open spec fn valid(self) -> bool {
        coord_in_range(self.x as int) && coord_in_range(self.y as int)
    }

    /// Creates a new Point2D with the given coordinates.
    pub fn new(x: i64, y: i64) -> (r: Point2D)
        ensures
            r.x == x,
            r.y == y,
    {
        Point2D { x, y }
    }

    /// Returns the x coordinate.
    pub fn x(&self) -> (r: i64)
        ensures
            r == self.x,
    {
        self.x
    }

    /// Returns the y coordinate.
    pub fn y(&self) -> (r: i64)
        ensures
            r == self.y,
    {
        self.y
    }
}

} // verus!

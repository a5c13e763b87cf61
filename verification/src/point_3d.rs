//! Point3D, a point within 3D space with fixed-point coordinates.

use vstd::prelude::*;
use crate::point_2d::coord_in_range;

verus! {

#[derive(Debug, Clone, Copy, PartialEq, Eq, Structural, Hash)]
/// Point3D, a point within 3D space.
pub struct Point3D {
    pub x: i64,
    pub y: i64,
    pub z: i64,
}

impl Point3D {
    /// Whether all three coordinates lie within the fixed-point range.
    pub open spec fn valid(self) -> bool {
        coord_in_range(self.x as int) && coord_in_range(self.y as int) && coord_in_range(
            self.z as int,
        )
    }

    /// Creates a new Point3D with the given coordinates.
    pub fn new(x: i64, y: i64, z: i64) -> (r: Point3D)
        ensures
            r.x == x,
            r.y == y,
            r.z == z,
    {
        Point3D { x, y, z }
    }

    /// Returns the x coordinate.
    pub fn x(&self) -> (r: i64)
        ensures
            r == self.x,
    {
        self.x
    }

    /// Returns the y coordinate.
    pub fn y(&self) -> (r: i64)
        ensures
            r == self.y,
    {
        self.y
    }

    /// Returns the z coordinate.
    pub fn z(&self) -> (r: i64)
        ensures
            r == self.z,
    {
        self.z
    }
}

} // verus!

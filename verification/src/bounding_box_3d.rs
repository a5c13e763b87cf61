//! BoundingBox3D, an axis aligned bounding box within 3D space.

use vstd::prelude::*;
use crate::functions::axis_gap;
use crate::functions::interval_gap;
use crate::functions::is_isqrt;
use crate::functions::isqrt;
use crate::point_2d::coord_in_range;
use crate::point_3d::Point3D;
use crate::result::ErrorKind;

verus! {

/// The least x coordinate among a non-empty set of positions.
pub open spec fn min_x_of(s: Seq<Point3D>) -> int
    decreases s.len(),
{
    if s.len() <= 1 {
        s[0].x as int
    } else {
        vstd::math::min(min_x_of(s.drop_last()), s.last().x as int)
    }
}

/// The least y coordinate among a non-empty set of positions.
pub open spec fn min_y_of(s: Seq<Point3D>) -> int
    decreases s.len(),
{
    if s.len() <= 1 {
        s[0].y as int
    } else {
        vstd::math::min(min_y_of(s.drop_last()), s.last().y as int)
    }
}

/// The least z coordinate among a non-empty set of positions.
pub open spec fn min_z_of(s: Seq<Point3D>) -> int
    decreases s.len(),
{
    if s.len() <= 1 {
        s[0].z as int
    } else {
        vstd::math::min(min_z_of(s.drop_last()), s.last().z as int)
    }
}

/// The greatest x coordinate among a non-empty set of positions.
pub open spec fn max_x_of(s: Seq<Point3D>) -> int
    decreases s.len(),
{
    if s.len() <= 1 {
        s[0].x as int
    } else {
        vstd::math::max(max_x_of(s.drop_last()), s.last().x as int)
    }
}

/// The greatest y coordinate among a non-empty set of positions.
pub open spec fn max_y_of(s: Seq<Point3D>) -> int
    decreases s.len(),
{
    if s.len() <= 1 {
        s[0].y as int
    } else {
        vstd::math::max(max_y_of(s.drop_last()), s.last().y as int)
    }
}

/// The greatest z coordinate among a non-empty set of positions.
pub open spec fn max_z_of(s: Seq<Point3D>) -> int
    decreases s.len(),
{
    if s.len() <= 1 {
        s[0].z as int
    } else {
        vstd::math::max(max_z_of(s.drop_last()), s.last().z as int)
    }
}

/// Every position of a non-empty collection lies within the per-axis
/// extrema of the collection.
pub proof fn lemma_extrema_bound(s: Seq<Point3D>)
    requires
        s.len() >= 1,
    ensures
        forall|x: Point3D| #[trigger] s.contains(x) ==> min_x_of(s) <= x.x <= max_x_of(s)
            && min_y_of(s) <= x.y <= max_y_of(s) && min_z_of(s) <= x.z <= max_z_of(s),
    decreases s.len(),
{
    if s.len() == 1 {
        assert(forall|x: Point3D| #[trigger] s.contains(x) ==> x == s[0]);
    } else {
        let sub = s.drop_last();
        let last = s.last();
        lemma_extrema_bound(sub);
        assert(forall|x: Point3D| #[trigger] s.contains(x) ==> sub.contains(x) || x == last) by {
            assert(forall|i: int| 0 <= i < s.len() - 1 ==> s[i] == sub[i]);
        }
        assert(sub.contains(sub[0]));
    }
}

#[derive(Debug, Clone, Copy, PartialEq, Eq, Structural, Hash)]
/// BoundingBox3D, an axis aligned bounding box within 3D space.
///
/// A well-formed box is strictly wider than zero on all three axes, so an
/// equal or swapped pair of corners is rejected at construction.
pub struct BoundingBox3D {
    min: Point3D,
    max: Point3D,
}

impl BoundingBox3D {
    /// The minimum corner, as an abstract value.
    pub closed spec fn min_spec(self) -> Point3D {
        self.min
    }

    /// The maximum corner, as an abstract value.
    pub closed spec fn max_spec(self) -> Point3D {
        self.max
    }

    /// Well-formedness: the corners are in coordinate range and the box has
    /// strictly positive extent on every axis.
    pub open spec fn wf(self) -> bool {
        &&& self.min_spec().valid()
        &&& self.max_spec().valid()
        &&& self.min_spec().x < self.max_spec().x
        &&& self.min_spec().y < self.max_spec().y
        &&& self.min_spec().z < self.max_spec().z
    }

    /// Whether a point lies strictly inside this box; boundary points are
    /// excluded.
    pub open spec fn contains_spec(self, p: Point3D) -> bool {
        &&& self.min_spec().x < p.x < self.max_spec().x
        &&& self.min_spec().y < p.y < self.max_spec().y
        &&& self.min_spec().z < p.z < self.max_spec().z
    }

    /// Whether this box lies strictly inside `outer`; touching boundaries do
    /// not count as inside.
    pub open spec fn is_inside_spec(self, outer: BoundingBox3D) -> bool {
        &&& outer.min_spec().x < self.min_spec().x
        &&& outer.min_spec().y < self.min_spec().y
        &&& outer.min_spec().z < self.min_spec().z
        &&& self.max_spec().x < outer.max_spec().x
        &&& self.max_spec().y < outer.max_spec().y
        &&& self.max_spec().z < outer.max_spec().z
    }

    /// Whether this box covers `inner`, boundary contact allowed.
    pub open spec fn covers(self, inner: BoundingBox3D) -> bool {
        &&& self.min_spec().x <= inner.min_spec().x
        &&& self.min_spec().y <= inner.min_spec().y
        &&& self.min_spec().z <= inner.min_spec().z
        &&& inner.max_spec().x <= self.max_spec().x
        &&& inner.max_spec().y <= self.max_spec().y
        &&& inner.max_spec().z <= self.max_spec().z
    }

    /// Whether the projections of the two boxes overlap on all three axes,
    /// with strict inequalities: boxes that merely touch do not collide.
    pub open spec fn collides_spec(self, other: BoundingBox3D) -> bool {
        &&& self.min_spec().x < other.max_spec().x
        &&& other.min_spec().x < self.max_spec().x
        &&& self.min_spec().y < other.max_spec().y
        &&& other.min_spec().y < self.max_spec().y
        &&& self.min_spec().z < other.max_spec().z
        &&& other.min_spec().z < self.max_spec().z
    }

    /// Whether the open interval of this box on the x axis contains `x`.
    pub open spec fn crossing_x_spec(self, x: int) -> bool {
        self.min_spec().x < x < self.max_spec().x
    }

    /// Whether the open interval of this box on the y axis contains `y`.
    pub open spec fn crossing_y_spec(self, y: int) -> bool {
        self.min_spec().y < y < self.max_spec().y
    }

    /// Whether the open interval of this box on the z axis contains `z`.
    pub open spec fn crossing_z_spec(self, z: int) -> bool {
        self.min_spec().z < z < self.max_spec().z
    }

    /// The union box: per-axis minimum of the minima and maximum of the
    /// maxima.
    pub closed spec fn merge_spec(self, other: BoundingBox3D) -> BoundingBox3D {
        BoundingBox3D {
            min: Point3D {
                x: vstd::math::min(self.min.x as int, other.min.x as int) as i64,
                y: vstd::math::min(self.min.y as int, other.min.y as int) as i64,
                z: vstd::math::min(self.min.z as int, other.min.z as int) as i64,
            },
            max: Point3D {
                x: vstd::math::max(self.max.x as int, other.max.x as int) as i64,
                y: vstd::math::max(self.max.y as int, other.max.y as int) as i64,
                z: vstd::math::max(self.max.z as int, other.max.z as int) as i64,
            },
        }
    }

    /// Creates a new BoundingBox3D which contains all the given positions.
    ///
    /// Fails with `TooFewPoints` when fewer than two positions are given,
    /// and with `MinMaxEqual` when all positions share one coordinate, so
    /// that the accumulated box would be flat on that axis.
    pub fn from_iterator(points: &Vec<Point3D>) -> (r: Result<BoundingBox3D, ErrorKind>)
        requires
            forall|i: int| 0 <= i < points@.len() ==> #[trigger] points@[i].valid(),
        ensures
            r == Err::<BoundingBox3D, ErrorKind>(ErrorKind::TooFewPoints) <==> points@.len() < 2,
            r == Err::<BoundingBox3D, ErrorKind>(ErrorKind::MinMaxEqual) <==> points@.len() >= 2
                && (min_x_of(points@) == max_x_of(points@) || min_y_of(points@) == max_y_of(
                points@,
            ) || min_z_of(points@) == max_z_of(points@)),
            r is Ok <==> points@.len() >= 2 && min_x_of(points@) < max_x_of(points@) && min_y_of(
                points@,
            ) < max_y_of(points@) && min_z_of(points@) < max_z_of(points@),
            r matches Ok(b) ==> b.wf() && b.min_spec().x == min_x_of(points@) && b.min_spec().y
                == min_y_of(points@) && b.min_spec().z == min_z_of(points@) && b.max_spec().x
                == max_x_of(points@) && b.max_spec().y == max_y_of(points@) && b.max_spec().z
                == max_z_of(points@),
    {
        if points.len() < 2 {
            return Err(ErrorKind::TooFewPoints);
        }
        let ghost s = points@;
        proof {
            assert(s[0].valid());
        }
        let mut minx: i64 = points[0].x;
        let mut miny: i64 = points[0].y;
        let mut minz: i64 = points[0].z;
        let mut maxx: i64 = points[0].x;
        let mut maxy: i64 = points[0].y;
        let mut maxz: i64 = points[0].z;
        let mut i: usize = 1;
        while i < points.len()
            invariant
                1 <= i <= s.len(),
                s == points@,
                s.len() >= 2,
                forall|j: int| 0 <= j < s.len() ==> #[trigger] s[j].valid(),
                minx == min_x_of(s.take(i as int)),
                miny == min_y_of(s.take(i as int)),
                minz == min_z_of(s.take(i as int)),
                maxx == max_x_of(s.take(i as int)),
                maxy == max_y_of(s.take(i as int)),
                maxz == max_z_of(s.take(i as int)),
                minx <= maxx,
                miny <= maxy,
                minz <= maxz,
                coord_in_range(minx as int),
                coord_in_range(miny as int),
                coord_in_range(minz as int),
                coord_in_range(maxx as int),
                coord_in_range(maxy as int),
                coord_in_range(maxz as int),
            decreases s.len() - i,
        {
            proof {
                assert(s[i as int].valid());
                assert(s.take(i + 1).drop_last() =~= s.take(i as int));
                assert(s.take(i + 1).last() == s[i as int]);
            }
            let p = points[i];
            if p.x < minx {
                minx = p.x;
            }
            if p.y < miny {
                miny = p.y;
            }
            if p.z < minz {
                minz = p.z;
            }
            if p.x > maxx {
                maxx = p.x;
            }
            if p.y > maxy {
                maxy = p.y;
            }
            if p.z > maxz {
                maxz = p.z;
            }
            i = i + 1;
        }
        proof {
            assert(s.take(s.len() as int) =~= s);
        }
        Self::new(&Point3D { x: minx, y: miny, z: minz }, &Point3D { x: maxx, y: maxy, z: maxz })
    }

    /// Creates a new BoundingBox3D which contains all the given positions,
    /// consuming them.
    ///
    /// Fails exactly as `from_iterator` does.
    pub fn from_into_iterator(points: Vec<Point3D>) -> (r: Result<BoundingBox3D, ErrorKind>)
        requires
            forall|i: int| 0 <= i < points@.len() ==> #[trigger] points@[i].valid(),
        ensures
            r == Err::<BoundingBox3D, ErrorKind>(ErrorKind::TooFewPoints) <==> points@.len() < 2,
            r == Err::<BoundingBox3D, ErrorKind>(ErrorKind::MinMaxEqual) <==> points@.len() >= 2
                && (min_x_of(points@) == max_x_of(points@) || min_y_of(points@) == max_y_of(
                points@,
            ) || min_z_of(points@) == max_z_of(points@)),
            r is Ok <==> points@.len() >= 2 && min_x_of(points@) < max_x_of(points@) && min_y_of(
                points@,
            ) < max_y_of(points@) && min_z_of(points@) < max_z_of(points@),
            r matches Ok(b) ==> b.wf() && b.min_spec().x == min_x_of(points@) && b.min_spec().y
                == min_y_of(points@) && b.min_spec().z == min_z_of(points@) && b.max_spec().x
                == max_x_of(points@) && b.max_spec().y == max_y_of(points@) && b.max_spec().z
                == max_z_of(points@),
    {
        Self::from_iterator(&points)
    }

    /// Creates a new BoundingBox3D with the given min and max positions.
    ///
    /// Fails with `MinMaxEqual` when some axis has equal coordinates, and
    /// with `MinMaxSwapped` when some axis is ordered the wrong way round;
    /// both checks run before any box is built.
    pub fn new(min: &Point3D, max: &Point3D) -> (r: Result<BoundingBox3D, ErrorKind>)
        requires
            min.valid(),
            max.valid(),
        ensures
            r is Ok <==> min.x < max.x && min.y < max.y && min.z < max.z,
            (min.x == max.x || min.y == max.y || min.z == max.z) <==> r == Err::<
                BoundingBox3D,
                ErrorKind,
            >(ErrorKind::MinMaxEqual),
            r is Err && !(min.x == max.x || min.y == max.y || min.z == max.z) <==> r == Err::<
                BoundingBox3D,
                ErrorKind,
            >(ErrorKind::MinMaxSwapped),
            r matches Ok(b) ==> b.wf() && b.min_spec() == *min && b.max_spec() == *max,
    {
        if min.x == max.x || min.y == max.y || min.z == max.z {
            Err(ErrorKind::MinMaxEqual)
        } else if min.x > max.x || min.y > max.y || min.z > max.z {
            Err(ErrorKind::MinMaxSwapped)
        } else {
            Ok(BoundingBox3D { min: *min, max: *max })
        }
    }

    /// Returns the minimum position of the bounding box.
    pub fn min_p(&self) -> (r: Point3D)
        ensures
            r == self.min_spec(),
    {
        self.min
    }

    /// Returns the maximum position of the bounding box.
    pub fn max_p(&self) -> (r: Point3D)
        ensures
            r == self.max_spec(),
    {
        self.max
    }

    /// Returns the size of the bounding box within the x-dimension; strictly
    /// positive for a well-formed box.
    pub fn size_x(&self) -> (r: i64)
        requires
            self.wf(),
        ensures
            r == self.max_spec().x - self.min_spec().x,
            r > 0,
    {
        self.max.x - self.min.x
    }

    /// Returns the size of the bounding box within the y-dimension; strictly
    /// positive for a well-formed box.
    pub fn size_y(&self) -> (r: i64)
        requires
            self.wf(),
        ensures
            r == self.max_spec().y - self.min_spec().y,
            r > 0,
    {
        self.max.y - self.min.y
    }

    /// Returns the size of the bounding box within the z-dimension; strictly
    /// positive for a well-formed box.
    pub fn size_z(&self) -> (r: i64)
        requires
            self.wf(),
        ensures
            r == self.max_spec().z - self.min_spec().z,
            r > 0,
    {
        self.max.z - self.min.z
    }

    /// Returns the sizes of the bounding box per axis.
    pub fn sizes(&self) -> (r: [i64; 3])
        requires
            self.wf(),
        ensures
            r[0] == self.max_spec().x - self.min_spec().x,
            r[1] == self.max_spec().y - self.min_spec().y,
            r[2] == self.max_spec().z - self.min_spec().z,
    {
        [self.size_x(), self.size_y(), self.size_z()]
    }

    /// Returns the center of the bounding box, rounded towards the minimum
    /// corner on axes of odd extent.
    pub fn center_bb(&self) -> (r: Point3D)
        requires
            self.wf(),
        ensures
            r.x == self.min_spec().x + (self.max_spec().x - self.min_spec().x) / 2,
            r.y == self.min_spec().y + (self.max_spec().y - self.min_spec().y) / 2,
            r.z == self.min_spec().z + (self.max_spec().z - self.min_spec().z) / 2,
    {
        Point3D {
            x: self.min.x + (self.max.x - self.min.x) / 2,
            y: self.min.y + (self.max.y - self.min.y) / 2,
            z: self.min.z + (self.max.z - self.min.z) / 2,
        }
    }

    /// Tests whether this bounding box is within the other.
    pub fn is_inside(&self, other: &BoundingBox3D) -> (r: bool)
        ensures
            r == self.is_inside_spec(*other),
    {
        self.min.x > other.min.x && self.min.y > other.min.y && self.min.z > other.min.z
            && self.max.x < other.max.x && self.max.y < other.max.y && self.max.z < other.max.z
    }

    /// Tests whether this bounding box contains a position; a position on
    /// the boundary is not contained.
    pub fn contains(&self, other: &Point3D) -> (r: bool)
        ensures
            r == self.contains_spec(*other),
    {
        other.x > self.min.x && other.x < self.max.x && other.y > self.min.y && other.y
            < self.max.y && other.z > self.min.z && other.z < self.max.z
    }

    /// Tests whether this bounding box contains the other.
    pub fn has_inside(&self, other: &BoundingBox3D) -> (r: bool)
        ensures
            r == other.is_inside_spec(*self),
    {
        self.min.x < other.min.x && self.min.y < other.min.y && self.min.z < other.min.z
            && self.max.x > other.max.x && self.max.y > other.max.y && self.max.z > other.max.z
    }

    /// Tests whether this bounding box and the other overlap in any way.
    ///
    /// Compares twice the center distance against the summed extents per
    /// axis, which is exact in fixed point and equivalent to the classic
    /// strict AABB overlap test: touching boxes do not collide.
    pub fn collides_with(&self, other: &BoundingBox3D) -> (r: bool)
        requires
            self.wf(),
            other.wf(),
        ensures
            r == self.collides_spec(*other),
    {
        let sx = self.min.x + self.max.x;
        let ox = other.min.x + other.max.x;
        let dx = if sx >= ox {
            sx - ox
        } else {
            ox - sx
        };
        let sy = self.min.y + self.max.y;
        let oy = other.min.y + other.max.y;
        let dy = if sy >= oy {
            sy - oy
        } else {
            oy - sy
        };
        let sz = self.min.z + self.max.z;
        let oz = other.min.z + other.max.z;
        let dz = if sz >= oz {
            sz - oz
        } else {
            oz - sz
        };
        dx < (self.max.x - self.min.x) + (other.max.x - other.min.x) && dy < (self.max.y
            - self.min.y) + (other.max.y - other.min.y) && dz < (self.max.z - self.min.z)
            + (other.max.z - other.min.z)
    }

    /// Tests whether this bounding box crosses a certain x value.
    pub fn crossing_x_value(&self, x: i64) -> (r: bool)
        ensures
            r == self.crossing_x_spec(x as int),
    {
        self.min.x < x && self.max.x > x
    }

    /// Tests whether this bounding box crosses a certain y value.
    pub fn crossing_y_value(&self, y: i64) -> (r: bool)
        ensures
            r == self.crossing_y_spec(y as int),
    {
        self.min.y < y && self.max.y > y
    }

    /// Tests whether this bounding box crosses a certain z value.
    pub fn crossing_z_value(&self, z: i64) -> (r: bool)
        ensures
            r == self.crossing_z_spec(z as int),
    {
        self.min.z < z && self.max.z > z
    }

    /// Returns the corner points of the bounding box.
    pub fn corners(&self) -> (r: [Point3D; 8])
        ensures
            r[0] == (Point3D { x: self.min_spec().x, y: self.min_spec().y, z: self.min_spec().z }),
            r[1] == (Point3D { x: self.min_spec().x, y: self.min_spec().y, z: self.max_spec().z }),
            r[2] == (Point3D { x: self.min_spec().x, y: self.max_spec().y, z: self.min_spec().z }),
            r[3] == (Point3D { x: self.min_spec().x, y: self.max_spec().y, z: self.max_spec().z }),
            r[4] == (Point3D { x: self.max_spec().x, y: self.min_spec().y, z: self.min_spec().z }),
            r[5] == (Point3D { x: self.max_spec().x, y: self.min_spec().y, z: self.max_spec().z }),
            r[6] == (Point3D { x: self.max_spec().x, y: self.max_spec().y, z: self.min_spec().z }),
            r[7] == (Point3D { x: self.max_spec().x, y: self.max_spec().y, z: self.max_spec().z }),
    {
        [
            Point3D::new(self.min.x, self.min.y, self.min.z),
            Point3D::new(self.min.x, self.min.y, self.max.z),
            Point3D::new(self.min.x, self.max.y, self.min.z),
            Point3D::new(self.min.x, self.max.y, self.max.z),
            Point3D::new(self.max.x, self.min.y, self.min.z),
            Point3D::new(self.max.x, self.min.y, self.max.z),
            Point3D::new(self.max.x, self.max.y, self.min.z),
            Point3D::new(self.max.x, self.max.y, self.max.z),
        ]
    }

    /// The squared distance from this box to a position: zero inside or on
    /// the boundary, otherwise the squared gap to the nearest face.
    pub open spec fn sqr_dist_point_spec(self, p: Point3D) -> int {
        let gx = axis_gap(self.min_spec().x as int, self.max_spec().x as int, p.x as int);
        let gy = axis_gap(self.min_spec().y as int, self.max_spec().y as int, p.y as int);
        let gz = axis_gap(self.min_spec().z as int, self.max_spec().z as int, p.z as int);
        gx * gx + gy * gy + gz * gz
    }

    /// The squared distance between this box and another box: zero when
    /// they overlap or touch on every axis.
    pub open spec fn sqr_dist_box_spec(self, other: BoundingBox3D) -> int {
        let gx = interval_gap(
            self.min_spec().x as int,
            self.max_spec().x as int,
            other.min_spec().x as int,
            other.max_spec().x as int,
        );
        let gy = interval_gap(
            self.min_spec().y as int,
            self.max_spec().y as int,
            other.min_spec().y as int,
            other.max_spec().y as int,
        );
        let gz = interval_gap(
            self.min_spec().z as int,
            self.max_spec().z as int,
            other.min_spec().z as int,
            other.max_spec().z as int,
        );
        gx * gx + gy * gy + gz * gz
    }

    /// Returns the square distance to a position.
    pub fn sqr_distance(&self, other: &Point3D) -> (r: i64)
        requires
            self.wf(),
            other.valid(),
        ensures
            r == self.sqr_dist_point_spec(*other),
            r >= 0,
    {
        let gx: i64 = if other.x < self.min.x {
            self.min.x - other.x
        } else if other.x > self.max.x {
            other.x - self.max.x
        } else {
            0
        };
        let gy: i64 = if other.y < self.min.y {
            self.min.y - other.y
        } else if other.y > self.max.y {
            other.y - self.max.y
        } else {
            0
        };
        let gz: i64 = if other.z < self.min.z {
            self.min.z - other.z
        } else if other.z > self.max.z {
            other.z - self.max.z
        } else {
            0
        };
        proof {
            assert(gx * gx <= 0x1000000000000000 && gy * gy <= 0x1000000000000000 && gz * gz
                <= 0x1000000000000000) by (nonlinear_arith)
                requires
                    0 <= gx <= 0x40000000,
                    0 <= gy <= 0x40000000,
                    0 <= gz <= 0x40000000,
            ;
        }
        gx * gx + gy * gy + gz * gz
    }

    /// Returns the square distance to another box.
    pub fn sqr_distance_box(&self, other: &BoundingBox3D) -> (r: i64)
        requires
            self.wf(),
            other.wf(),
        ensures
            r == self.sqr_dist_box_spec(*other),
            r >= 0,
    {
        let gx: i64 = if other.max.x < self.min.x {
            self.min.x - other.max.x
        } else if other.min.x > self.max.x {
            other.min.x - self.max.x
        } else {
            0
        };
        let gy: i64 = if other.max.y < self.min.y {
            self.min.y - other.max.y
        } else if other.min.y > self.max.y {
            other.min.y - self.max.y
        } else {
            0
        };
        let gz: i64 = if other.max.z < self.min.z {
            self.min.z - other.max.z
        } else if other.min.z > self.max.z {
            other.min.z - self.max.z
        } else {
            0
        };
        proof {
            assert(gx * gx <= 0x1000000000000000 && gy * gy <= 0x1000000000000000 && gz * gz
                <= 0x1000000000000000) by (nonlinear_arith)
                requires
                    0 <= gx <= 0x40000000,
                    0 <= gy <= 0x40000000,
                    0 <= gz <= 0x40000000,
            ;
        }
        gx * gx + gy * gy + gz * gz
    }

    /// Returns the distance to a position, as the integer square root of
    /// the squared distance.
    pub fn distance(&self, other: &Point3D) -> (r: i64)
        requires
            self.wf(),
            other.valid(),
        ensures
            is_isqrt(r as int, self.sqr_dist_point_spec(*other)),
    {
        let sq = self.sqr_distance(other);
        let ru = isqrt(sq as u64);
        proof {
            assert((ru as int) * (ru as int) <= sq as int);
            assert(ru as int <= 0xFFFFFFFF) by (nonlinear_arith)
                requires
                    0 <= ru as int,
                    (ru as int) * (ru as int) <= sq as int,
                    sq as int <= 0x7FFFFFFFFFFFFFFF,
            ;
        }
        ru as i64
    }

    /// Merges this bounding box with the other, mutating self to the union.
    pub fn consume(&mut self, other: BoundingBox3D)
        ensures
            *final(self) == old(self).merge_spec(other),
    {
        let min_x = if other.min.x < self.min.x {
            other.min.x
        } else {
            self.min.x
        };
        let min_y = if other.min.y < self.min.y {
            other.min.y
        } else {
            self.min.y
        };
        let min_z = if other.min.z < self.min.z {
            other.min.z
        } else {
            self.min.z
        };
        let max_x = if other.max.x > self.max.x {
            other.max.x
        } else {
            self.max.x
        };
        let max_y = if other.max.y > self.max.y {
            other.max.y
        } else {
            self.max.y
        };
        let max_z = if other.max.z > self.max.z {
            other.max.z
        } else {
            self.max.z
        };
        *self = BoundingBox3D {
            min: Point3D { x: min_x, y: min_y, z: min_z },
            max: Point3D { x: max_x, y: max_y, z: max_z },
        };
    }

    /// Returns the union of this bounding box and the other.
    pub fn combine(&self, other: &BoundingBox3D) -> (r: BoundingBox3D)
        ensures
            r == self.merge_spec(*other),
    {
        let mut r = *self;
        r.consume(*other);
        r
    }

    /// Moves the bounding box by the given offset, keeping its extents.
    pub fn move_by(&mut self, x: i64, y: i64, z: i64)
        requires
            coord_in_range(old(self).min_spec().x + x),
            coord_in_range(old(self).min_spec().y + y),
            coord_in_range(old(self).min_spec().z + z),
            coord_in_range(old(self).max_spec().x + x),
            coord_in_range(old(self).max_spec().y + y),
            coord_in_range(old(self).max_spec().z + z),
        ensures
            final(self).min_spec().x == old(self).min_spec().x + x,
            final(self).min_spec().y == old(self).min_spec().y + y,
            final(self).min_spec().z == old(self).min_spec().z + z,
            final(self).max_spec().x == old(self).max_spec().x + x,
            final(self).max_spec().y == old(self).max_spec().y + y,
            final(self).max_spec().z == old(self).max_spec().z + z,
            old(self).wf() ==> final(self).wf(),
    {
        *self = BoundingBox3D {
            min: Point3D { x: self.min.x + x, y: self.min.y + y, z: self.min.z + z },
            max: Point3D { x: self.max.x + x, y: self.max.y + y, z: self.max.z + z },
        };
    }
}

impl Default for BoundingBox3D {
    /// The unit-radius box around the origin.
    fn default() -> (r: Self)
        ensures
            r.min_spec() == (Point3D { x: -1i64, y: -1i64, z: -1i64 }),
            r.max_spec() == (Point3D { x: 1i64, y: 1i64, z: 1i64 }),
            r.wf(),
    {
        BoundingBox3D {
            min: Point3D { x: -1, y: -1, z: -1 },
            max: Point3D { x: 1, y: 1, z: 1 },
        }
    }
}

/// The merged box is bounded per axis by the minima and maxima of its two
/// inputs, and is well-formed whenever both inputs are.
pub proof fn lemma_merge_bounds(a: BoundingBox3D, b: BoundingBox3D)
    ensures
        a.merge_spec(b).min_spec().x == vstd::math::min(a.min_spec().x as int, b.min_spec().x as int),
        a.merge_spec(b).min_spec().y == vstd::math::min(a.min_spec().y as int, b.min_spec().y as int),
        a.merge_spec(b).min_spec().z == vstd::math::min(a.min_spec().z as int, b.min_spec().z as int),
        a.merge_spec(b).max_spec().x == vstd::math::max(a.max_spec().x as int, b.max_spec().x as int),
        a.merge_spec(b).max_spec().y == vstd::math::max(a.max_spec().y as int, b.max_spec().y as int),
        a.merge_spec(b).max_spec().z == vstd::math::max(a.max_spec().z as int, b.max_spec().z as int),
        a.wf() && b.wf() ==> a.merge_spec(b).wf(),
{
}

/// A well-formed box has strictly positive extent on every axis.
pub proof fn lemma_sizes_positive(b: BoundingBox3D)
    requires
        b.wf(),
    ensures
        b.max_spec().x - b.min_spec().x > 0,
        b.max_spec().y - b.min_spec().y > 0,
        b.max_spec().z - b.min_spec().z > 0,
{
}

/// Merging is commutative: the union does not depend on the order of its
/// arguments.
pub proof fn lemma_merge_commutative(a: BoundingBox3D, b: BoundingBox3D)
    ensures
        a.merge_spec(b) == b.merge_spec(a),
{
}

/// Merging is idempotent: a box merged with itself is unchanged.
pub proof fn lemma_merge_idempotent(a: BoundingBox3D)
    ensures
        a.merge_spec(a) == a,
{
}

/// A merge never shrinks: the union covers both inputs.
pub proof fn lemma_merge_covers(a: BoundingBox3D, b: BoundingBox3D)
    ensures
        a.merge_spec(b).covers(a),
        a.merge_spec(b).covers(b),
{
}

/// Collision is symmetric.
pub proof fn lemma_collides_symmetric(a: BoundingBox3D, b: BoundingBox3D)
    ensures
        a.collides_spec(b) == b.collides_spec(a),
{
}

/// A point exactly on the boundary of a box is never contained, and a box
/// never crosses the x, y or z value of one of its own faces.
pub proof fn lemma_boundary_excluded(b: BoundingBox3D, p: Point3D)
    requires
        p.x == b.min_spec().x || p.x == b.max_spec().x || p.y == b.min_spec().y || p.y
            == b.max_spec().y || p.z == b.min_spec().z || p.z == b.max_spec().z,
    ensures
        !b.contains_spec(p),
        !b.crossing_x_spec(b.min_spec().x as int),
        !b.crossing_x_spec(b.max_spec().x as int),
        !b.crossing_y_spec(b.min_spec().y as int),
        !b.crossing_y_spec(b.max_spec().y as int),
        !b.crossing_z_spec(b.min_spec().z as int),
        !b.crossing_z_spec(b.max_spec().z as int),
{
}

} // verus!

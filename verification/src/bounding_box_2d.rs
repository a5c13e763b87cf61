//! BoundingBox2D, an axis aligned bounding box within 2D space.

use vstd::prelude::*;
use crate::functions::axis_gap;
use crate::functions::interval_gap;
use crate::functions::is_isqrt;
use crate::functions::isqrt;
use crate::point_2d::Point2D;
use crate::point_2d::coord_in_range;
use crate::result::ErrorKind;

verus! {

/// The least x coordinate among a non-empty set of positions.
pub open spec fn min_x_of(s: Seq<Point2D>) -> int
    decreases s.len(),
{
    if s.len() <= 1 {
        s[0].x as int
    } else {
        vstd::math::min(min_x_of(s.drop_last()), s.last().x as int)
    }
}

/// The least y coordinate among a non-empty set of positions.
pub open spec fn min_y_of(s: Seq<Point2D>) -> int
    decreases s.len(),
{
    if s.len() <= 1 {
        s[0].y as int
    } else {
        vstd::math::min(min_y_of(s.drop_last()), s.last().y as int)
    }
}

/// The greatest x coordinate among a non-empty set of positions.
pub open spec fn max_x_of(s: Seq<Point2D>) -> int
    decreases s.len(),
{
    if s.len() <= 1 {
        s[0].x as int
    } else {
        vstd::math::max(max_x_of(s.drop_last()), s.last().x as int)
    }
}

/// The greatest y coordinate among a non-empty set of positions.
pub open spec fn max_y_of(s: Seq<Point2D>) -> int
    decreases s.len(),
{
    if s.len() <= 1 {
        s[0].y as int
    } else {
        vstd::math::max(max_y_of(s.drop_last()), s.last().y as int)
    }
}

#[derive(Debug, Clone, Copy, PartialEq, Eq, Structural, Hash)]
/// BoundingBox2D, an axis aligned bounding box within 2D space.
///
/// A well-formed box is strictly wider than zero on both axes, so an equal
/// or swapped pair of corners is rejected at construction.
pub struct BoundingBox2D {
    min: Point2D,
    max: Point2D,
}

impl BoundingBox2D {
    /// The minimum corner, as an abstract value.
    pub closed spec fn min_spec(self) -> Point2D {
        self.min
    }

    /// The maximum corner, as an abstract value.
    pub closed spec fn max_spec(self) -> Point2D {
        self.max
    }

    /// Well-formedness: the corners are in coordinate range and the box has
    /// strictly positive extent on every axis.
    pub open spec fn wf(self) -> bool {
        &&& self.min_spec().valid()
        &&& self.max_spec().valid()
        &&& self.min_spec().x < self.max_spec().x
        &&& self.min_spec().y < self.max_spec().y
    }

    /// Whether a point lies strictly inside this box; boundary points are
    /// excluded.
    pub open spec fn contains_spec(self, p: Point2D) -> bool {
        &&& self.min_spec().x < p.x < self.max_spec().x
        &&& self.min_spec().y < p.y < self.max_spec().y
    }

    /// Whether this box lies strictly inside `outer`; touching boundaries do
    /// not count as inside.
    pub open spec fn is_inside_spec(self, outer: BoundingBox2D) -> bool {
        &&& outer.min_spec().x < self.min_spec().x
        &&& outer.min_spec().y < self.min_spec().y
        &&& self.max_spec().x < outer.max_spec().x
        &&& self.max_spec().y < outer.max_spec().y
    }

    /// Whether this box covers `inner`, boundary contact allowed.
    pub open spec fn covers(self, inner: BoundingBox2D) -> bool {
        &&& self.min_spec().x <= inner.min_spec().x
        &&& self.min_spec().y <= inner.min_spec().y
        &&& inner.max_spec().x <= self.max_spec().x
        &&& inner.max_spec().y <= self.max_spec().y
    }

    /// Whether the projections of the two boxes overlap on both axes, with
    /// strict inequalities: boxes that merely touch do not collide.
    pub open spec fn collides_spec(self, other: BoundingBox2D) -> bool {
        &&& self.min_spec().x < other.max_spec().x
        &&& other.min_spec().x < self.max_spec().x
        &&& self.min_spec().y < other.max_spec().y
        &&& other.min_spec().y < self.max_spec().y
    }

    /// Whether the open interval of this box on the x axis contains `x`.
    pub open spec fn crossing_x_spec(self, x: int) -> bool {
        self.min_spec().x < x < self.max_spec().x
    }

    /// Whether the open interval of this box on the y axis contains `y`.
    pub open spec fn crossing_y_spec(self, y: int) -> bool {
        self.min_spec().y < y < self.max_spec().y
    }

    /// The union box: per-axis minimum of the minima and maximum of the
    /// maxima.
    pub closed spec fn merge_spec(self, other: BoundingBox2D) -> BoundingBox2D {
        BoundingBox2D {
            min: Point2D {
                x: vstd::math::min(self.min.x as int, other.min.x as int) as i64,
                y: vstd::math::min(self.min.y as int, other.min.y as int) as i64,
            },
            max: Point2D {
                x: vstd::math::max(self.max.x as int, other.max.x as int) as i64,
                y: vstd::math::max(self.max.y as int, other.max.y as int) as i64,
            },
        }
    }

    /// Creates a new BoundingBox2D which contains all the given positions.
    ///
    /// Fails with `TooFewPoints` when fewer than two positions are given,
    /// and with `MinMaxEqual` when all positions share one coordinate, so
    /// that the accumulated box would be flat on that axis.
    pub fn from_iterator(points: &Vec<Point2D>) -> (r: Result<BoundingBox2D, ErrorKind>)
        requires
            forall|i: int| 0 <= i < points@.len() ==> #[trigger] points@[i].valid(),
        ensures
            r == Err::<BoundingBox2D, ErrorKind>(ErrorKind::TooFewPoints) <==> points@.len() < 2,
            r == Err::<BoundingBox2D, ErrorKind>(ErrorKind::MinMaxEqual) <==> points@.len() >= 2
                && (min_x_of(points@) == max_x_of(points@) || min_y_of(points@) == max_y_of(
                points@,
            )),
            r is Ok <==> points@.len() >= 2 && min_x_of(points@) < max_x_of(points@) && min_y_of(
                points@,
            ) < max_y_of(points@),
            r matches Ok(b) ==> b.wf() && b.min_spec().x == min_x_of(points@) && b.min_spec().y
                == min_y_of(points@) && b.max_spec().x == max_x_of(points@) && b.max_spec().y
                == max_y_of(points@),
    {
        if points.len() < 2 {
            return Err(ErrorKind::TooFewPoints);
        }
        let ghost s = points@;
        proof {
            assert(s[0].valid());
        }
        let mut minx: i64 = points[0].x;
        let mut miny: i64 = points[0].y;
        let mut maxx: i64 = points[0].x;
        let mut maxy: i64 = points[0].y;
        assert(s.take(1).drop_last() =~= Seq::<Point2D>::empty());
        let mut i: usize = 1;
        while i < points.len()
            invariant
                1 <= i <= s.len(),
                s == points@,
                s.len() >= 2,
                forall|j: int| 0 <= j < s.len() ==> #[trigger] s[j].valid(),
                minx == min_x_of(s.take(i as int)),
                miny == min_y_of(s.take(i as int)),
                maxx == max_x_of(s.take(i as int)),
                maxy == max_y_of(s.take(i as int)),
                minx <= maxx,
                miny <= maxy,
                coord_in_range(minx as int),
                coord_in_range(miny as int),
                coord_in_range(maxx as int),
                coord_in_range(maxy as int),
            decreases s.len() - i,
        {
            proof {
                assert(s[i as int].valid());
                assert(s.take(i + 1).drop_last() =~= s.take(i as int));
                assert(s.take(i + 1).last() == s[i as int]);
            }
            let p = points[i];
            if p.x < minx {
                minx = p.x;
            }
            if p.y < miny {
                miny = p.y;
            }
            if p.x > maxx {
                maxx = p.x;
            }
            if p.y > maxy {
                maxy = p.y;
            }
            i = i + 1;
        }
        proof {
            assert(s.take(s.len() as int) =~= s);
        }
        Self::new(&Point2D { x: minx, y: miny }, &Point2D { x: maxx, y: maxy })
    }

    /// Creates a new BoundingBox2D which contains all the given positions,
    /// consuming them.
    ///
    /// Fails exactly as `from_iterator` does.
    pub fn from_into_iterator(points: Vec<Point2D>) -> (r: Result<BoundingBox2D, ErrorKind>)
        requires
            forall|i: int| 0 <= i < points@.len() ==> #[trigger] points@[i].valid(),
        ensures
            r == Err::<BoundingBox2D, ErrorKind>(ErrorKind::TooFewPoints) <==> points@.len() < 2,
            r == Err::<BoundingBox2D, ErrorKind>(ErrorKind::MinMaxEqual) <==> points@.len() >= 2
                && (min_x_of(points@) == max_x_of(points@) || min_y_of(points@) == max_y_of(
                points@,
            )),
            r is Ok <==> points@.len() >= 2 && min_x_of(points@) < max_x_of(points@) && min_y_of(
                points@,
            ) < max_y_of(points@),
            r matches Ok(b) ==> b.wf() && b.min_spec().x == min_x_of(points@) && b.min_spec().y
                == min_y_of(points@) && b.max_spec().x == max_x_of(points@) && b.max_spec().y
                == max_y_of(points@),
    {
        Self::from_iterator(&points)
    }

    /// Creates a new BoundingBox2D with the given min and max positions.
    ///
    /// Fails with `MinMaxEqual` when some axis has equal coordinates, and
    /// with `MinMaxSwapped` when some axis is ordered the wrong way round;
    /// both checks run before any box is built.
    pub fn new(min: &Point2D, max: &Point2D) -> (r: Result<BoundingBox2D, ErrorKind>)
        requires
            min.valid(),
            max.valid(),
        ensures
            r is Ok <==> min.x < max.x && min.y < max.y,
            (min.x == max.x || min.y == max.y) <==> r == Err::<BoundingBox2D, ErrorKind>(
                ErrorKind::MinMaxEqual,
            ),
            r is Err && !(min.x == max.x || min.y == max.y) <==> r == Err::<
                BoundingBox2D,
                ErrorKind,
            >(ErrorKind::MinMaxSwapped),
            r matches Ok(b) ==> b.wf() && b.min_spec() == *min && b.max_spec() == *max,
    {
        if min.x == max.x || min.y == max.y {
            Err(ErrorKind::MinMaxEqual)
        } else if min.x > max.x || min.y > max.y {
            Err(ErrorKind::MinMaxSwapped)
        } else {
            Ok(BoundingBox2D { min: *min, max: *max })
        }
    }

    /// Returns the minimum position of the bounding box.
    pub fn min_p(&self) -> (r: Point2D)
        ensures
            r == self.min_spec(),
    {
        self.min
    }

    /// Returns the maximum position of the bounding box.
    pub fn max_p(&self) -> (r: Point2D)
        ensures
            r == self.max_spec(),
    {
        self.max
    }

    /// Returns the size of the bounding box within the x-dimension; strictly
    /// positive for a well-formed box.
    pub fn size_x(&self) -> (r: i64)
        requires
            self.wf(),
        ensures
            r == self.max_spec().x - self.min_spec().x,
            r > 0,
    {
        self.max.x - self.min.x
    }

    /// Returns the size of the bounding box within the y-dimension; strictly
    /// positive for a well-formed box.
    pub fn size_y(&self) -> (r: i64)
        requires
            self.wf(),
        ensures
            r == self.max_spec().y - self.min_spec().y,
            r > 0,
    {
        self.max.y - self.min.y
    }

    /// Returns the sizes of the bounding box per axis.
    pub fn sizes(&self) -> (r: [i64; 2])
        requires
            self.wf(),
        ensures
            r[0] == self.max_spec().x - self.min_spec().x,
            r[1] == self.max_spec().y - self.min_spec().y,
    {
        [self.size_x(), self.size_y()]
    }

    /// Returns the center of the bounding box, rounded towards the minimum
    /// corner on axes of odd extent.
    pub fn center_bb(&self) -> (r: Point2D)
        requires
            self.wf(),
        ensures
            r.x == self.min_spec().x + (self.max_spec().x - self.min_spec().x) / 2,
            r.y == self.min_spec().y + (self.max_spec().y - self.min_spec().y) / 2,
    {
        Point2D {
            x: self.min.x + (self.max.x - self.min.x) / 2,
            y: self.min.y + (self.max.y - self.min.y) / 2,
        }
    }

    /// Tests whether this bounding box is within the other.
    pub fn is_inside(&self, other: &BoundingBox2D) -> (r: bool)
        ensures
            r == self.is_inside_spec(*other),
    {
        self.min.x > other.min.x && self.min.y > other.min.y && self.max.x < other.max.x
            && self.max.y < other.max.y
    }

    /// Tests whether this bounding box contains a position; a position on
    /// the boundary is not contained.
    pub fn contains(&self, other: &Point2D) -> (r: bool)
        ensures
            r == self.contains_spec(*other),
    {
        other.x > self.min.x && other.x < self.max.x && other.y > self.min.y && other.y
            < self.max.y
    }

    /// Tests whether this bounding box contains the other.
    pub fn has_inside(&self, other: &BoundingBox2D) -> (r: bool)
        ensures
            r == other.is_inside_spec(*self),
    {
        self.min.x < other.min.x && self.min.y < other.min.y && self.max.x > other.max.x
            && self.max.y > other.max.y
    }

    /// Tests whether this bounding box and the other overlap in any way.
    ///
    /// Compares twice the center distance against the summed extents per
    /// axis, which is exact in fixed point and equivalent to the classic
    /// strict AABB overlap test: touching boxes do not collide.
    pub fn collides_with(&self, other: &BoundingBox2D) -> (r: bool)
        requires
            self.wf(),
            other.wf(),
        ensures
            r == self.collides_spec(*other),
    {
        let sx = self.min.x + self.max.x;
        let ox = other.min.x + other.max.x;
        let dx = if sx >= ox {
            sx - ox
        } else {
            ox - sx
        };
        let sy = self.min.y + self.max.y;
        let oy = other.min.y + other.max.y;
        let dy = if sy >= oy {
            sy - oy
        } else {
            oy - sy
        };
        dx < (self.max.x - self.min.x) + (other.max.x - other.min.x) && dy < (self.max.y
            - self.min.y) + (other.max.y - other.min.y)
    }

    /// Tests whether this bounding box crosses a certain x value.
    pub fn crossing_x_value(&self, x: i64) -> (r: bool)
        ensures
            r == self.crossing_x_spec(x as int),
    {
        self.min.x < x && self.max.x > x
    }

    /// Tests whether this bounding box crosses a certain y value.
    pub fn crossing_y_value(&self, y: i64) -> (r: bool)
        ensures
            r == self.crossing_y_spec(y as int),
    {
        self.min.y < y && self.max.y > y
    }

    /// Returns the corner points of the bounding box.
    pub fn corners(&self) -> (r: [Point2D; 4])
        ensures
            r[0] == (Point2D { x: self.min_spec().x, y: self.min_spec().y }),
            r[1] == (Point2D { x: self.min_spec().x, y: self.max_spec().y }),
            r[2] == (Point2D { x: self.max_spec().x, y: self.min_spec().y }),
            r[3] == (Point2D { x: self.max_spec().x, y: self.max_spec().y }),
    {
        [
            Point2D::new(self.min.x, self.min.y),
            Point2D::new(self.min.x, self.max.y),
            Point2D::new(self.max.x, self.min.y),
            Point2D::new(self.max.x, self.max.y),
        ]
    }

    /// The squared distance from this box to a position: zero inside or on
    /// the boundary, otherwise the squared gap to the nearest face.
    pub open spec fn sqr_dist_point_spec(self, p: Point2D) -> int {
        let gx = axis_gap(self.min_spec().x as int, self.max_spec().x as int, p.x as int);
        let gy = axis_gap(self.min_spec().y as int, self.max_spec().y as int, p.y as int);
        gx * gx + gy * gy
    }

    /// The squared distance between this box and another box: zero when
    /// they overlap or touch on every axis.
    pub open spec fn sqr_dist_box_spec(self, other: BoundingBox2D) -> int {
        let gx = interval_gap(
            self.min_spec().x as int,
            self.max_spec().x as int,
            other.min_spec().x as int,
            other.max_spec().x as int,
        );
        let gy = interval_gap(
            self.min_spec().y as int,
            self.max_spec().y as int,
            other.min_spec().y as int,
            other.max_spec().y as int,
        );
        gx * gx + gy * gy
    }

    /// Returns the square distance to a position.
    pub fn sqr_distance(&self, other: &Point2D) -> (r: i64)
        requires
            self.wf(),
            other.valid(),
        ensures
            r == self.sqr_dist_point_spec(*other),
            r >= 0,
    {
        let gx: i64 = if other.x < self.min.x {
            self.min.x - other.x
        } else if other.x > self.max.x {
            other.x - self.max.x
        } else {
            0
        };
        let gy: i64 = if other.y < self.min.y {
            self.min.y - other.y
        } else if other.y > self.max.y {
            other.y - self.max.y
        } else {
            0
        };
        proof {
            assert(gx * gx <= 0x1000000000000000 && gy * gy <= 0x1000000000000000)
                by (nonlinear_arith)
                requires
                    0 <= gx <= 0x40000000,
                    0 <= gy <= 0x40000000,
            ;
        }
        gx * gx + gy * gy
    }

    /// Returns the square distance to another box.
    pub fn sqr_distance_box(&self, other: &BoundingBox2D) -> (r: i64)
        requires
            self.wf(),
            other.wf(),
        ensures
            r == self.sqr_dist_box_spec(*other),
            r >= 0,
    {
        let gx: i64 = if other.max.x < self.min.x {
            self.min.x - other.max.x
        } else if other.min.x > self.max.x {
            other.min.x - self.max.x
        } else {
            0
        };
        let gy: i64 = if other.max.y < self.min.y {
            self.min.y - other.max.y
        } else if other.min.y > self.max.y {
            other.min.y - self.max.y
        } else {
            0
        };
        proof {
            assert(gx * gx <= 0x1000000000000000 && gy * gy <= 0x1000000000000000)
                by (nonlinear_arith)
                requires
                    0 <= gx <= 0x40000000,
                    0 <= gy <= 0x40000000,
            ;
        }
        gx * gx + gy * gy
    }

    /// Returns the distance to a position, as the integer square root of
    /// the squared distance.
    pub fn distance(&self, other: &Point2D) -> (r: i64)
        requires
            self.wf(),
            other.valid(),
        ensures
            is_isqrt(r as int, self.sqr_dist_point_spec(*other)),
    {
        let sq = self.sqr_distance(other);
        let ru = isqrt(sq as u64);
        proof {
            assert((ru as int) * (ru as int) <= sq as int);
            assert(ru as int <= 0xFFFFFFFF) by (nonlinear_arith)
                requires
                    0 <= ru as int,
                    (ru as int) * (ru as int) <= sq as int,
                    sq as int <= 0x7FFFFFFFFFFFFFFF,
            ;
        }
        ru as i64
    }

    /// Merges this bounding box with the other, mutating self to the union.
    pub fn consume(&mut self, other: BoundingBox2D)
        ensures
            *final(self) == old(self).merge_spec(other),
    {
        let min_x = if other.min.x < self.min.x {
            other.min.x
        } else {
            self.min.x
        };
        let min_y = if other.min.y < self.min.y {
            other.min.y
        } else {
            self.min.y
        };
        let max_x = if other.max.x > self.max.x {
            other.max.x
        } else {
            self.max.x
        };
        let max_y = if other.max.y > self.max.y {
            other.max.y
        } else {
            self.max.y
        };
        *self = BoundingBox2D {
            min: Point2D { x: min_x, y: min_y },
            max: Point2D { x: max_x, y: max_y },
        };
    }

    /// Returns the union of this bounding box and the other.
    pub fn combine(&self, other: &BoundingBox2D) -> (r: BoundingBox2D)
        ensures
            r == self.merge_spec(*other),
    {
        let mut r = *self;
        r.consume(*other);
        r
    }

    /// Moves the bounding box by the given offset, keeping its extents.
    pub fn move_by(&mut self, x: i64, y: i64)
        requires
            coord_in_range(old(self).min_spec().x + x),
            coord_in_range(old(self).min_spec().y + y),
            coord_in_range(old(self).max_spec().x + x),
            coord_in_range(old(self).max_spec().y + y),
        ensures
            final(self).min_spec().x == old(self).min_spec().x + x,
            final(self).min_spec().y == old(self).min_spec().y + y,
            final(self).max_spec().x == old(self).max_spec().x + x,
            final(self).max_spec().y == old(self).max_spec().y + y,
            old(self).wf() ==> final(self).wf(),
    {
        *self = BoundingBox2D {
            min: Point2D { x: self.min.x + x, y: self.min.y + y },
            max: Point2D { x: self.max.x + x, y: self.max.y + y },
        };
    }
}

impl Default for BoundingBox2D {
    /// The unit-radius box around the origin.
    fn default() -> (r: Self)
        ensures
            r.min_spec() == (Point2D { x: -1i64, y: -1i64 }),
            r.max_spec() == (Point2D { x: 1i64, y: 1i64 }),
            r.wf(),
    {
        BoundingBox2D { min: Point2D { x: -1, y: -1 }, max: Point2D { x: 1, y: 1 } }
    }
}

impl crate::traits::has_bounding_box_2d::HasBoundingBox2D for BoundingBox2D {
    /// A box is its own bounding box.
    open spec fn bb_spec(&self) -> BoundingBox2D {
        *self
    }

    fn bounding_box(&self) -> (r: BoundingBox2D)
        ensures
            r == self.bb_spec(),
    {
        *self
    }
}

/// The merged box is bounded per axis by the minima and maxima of its two
/// inputs, and is well-formed whenever both inputs are.
pub proof fn lemma_merge_bounds(a: BoundingBox2D, b: BoundingBox2D)
    ensures
        a.merge_spec(b).min_spec().x == vstd::math::min(a.min_spec().x as int, b.min_spec().x as int),
        a.merge_spec(b).min_spec().y == vstd::math::min(a.min_spec().y as int, b.min_spec().y as int),
        a.merge_spec(b).max_spec().x == vstd::math::max(a.max_spec().x as int, b.max_spec().x as int),
        a.merge_spec(b).max_spec().y == vstd::math::max(a.max_spec().y as int, b.max_spec().y as int),
        a.wf() && b.wf() ==> a.merge_spec(b).wf(),
{
}

/// Two boxes with the same corners are the same box.
pub proof fn lemma_box_fields_determine(a: BoundingBox2D, b: BoundingBox2D)
    requires
        a.min_spec() == b.min_spec(),
        a.max_spec() == b.max_spec(),
    ensures
        a == b,
{
}

/// A well-formed box has strictly positive extent on both axes.
pub proof fn lemma_sizes_positive(b: BoundingBox2D)
    requires
        b.wf(),
    ensures
        b.max_spec().x - b.min_spec().x > 0,
        b.max_spec().y - b.min_spec().y > 0,
{
}

/// Merging is commutative: the union does not depend on the order of its
/// arguments.
pub proof fn lemma_merge_commutative(a: BoundingBox2D, b: BoundingBox2D)
    ensures
        a.merge_spec(b) == b.merge_spec(a),
{
}

/// Merging is idempotent: a box merged with itself is unchanged.
pub proof fn lemma_merge_idempotent(a: BoundingBox2D)
    ensures
        a.merge_spec(a) == a,
{
}

/// A merge never shrinks: the union covers both inputs.
pub proof fn lemma_merge_covers(a: BoundingBox2D, b: BoundingBox2D)
    ensures
        a.merge_spec(b).covers(a),
        a.merge_spec(b).covers(b),
{
}

/// Collision is symmetric.
pub proof fn lemma_collides_symmetric(a: BoundingBox2D, b: BoundingBox2D)
    ensures
        a.collides_spec(b) == b.collides_spec(a),
{
}

/// A point exactly on the boundary of a box is never contained, and a box
/// never crosses the x or y value of one of its own faces.
pub proof fn lemma_boundary_excluded(b: BoundingBox2D, p: Point2D)
    requires
        p.x == b.min_spec().x || p.x == b.max_spec().x || p.y == b.min_spec().y || p.y
            == b.max_spec().y,
    ensures
        !b.contains_spec(p),
        !b.crossing_x_spec(b.min_spec().x as int),
        !b.crossing_x_spec(b.max_spec().x as int),
        !b.crossing_y_spec(b.min_spec().y as int),
        !b.crossing_y_spec(b.max_spec().y as int),
{
}

/// If a query box does not collide with a covering box, it collides with
/// nothing the covering box covers; this justifies pruning whole subtrees by
/// their stored bounding box.
pub proof fn lemma_covers_prunes(outer: BoundingBox2D, inner: BoundingBox2D, q: BoundingBox2D)
    requires
        outer.covers(inner),
        !outer.collides_spec(q),
    ensures
        !inner.collides_spec(q),
{
}

/// If a covering box does not cross an axis value, nothing it covers does;
/// this justifies pruning whole subtrees in axis-crossing queries.
pub proof fn lemma_covers_prunes_crossing(outer: BoundingBox2D, inner: BoundingBox2D, v: int)
    requires
        outer.covers(inner),
    ensures
        !outer.crossing_x_spec(v) ==> !inner.crossing_x_spec(v),
        !outer.crossing_y_spec(v) ==> !inner.crossing_y_spec(v),
{
}

} // verus!

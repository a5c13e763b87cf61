//! PointCloud3D, an owned collection of 3D points.

use vstd::prelude::*;
use crate::bounding_box_3d::BoundingBox3D;
use crate::bounding_box_3d::max_x_of;
use crate::bounding_box_3d::max_y_of;
use crate::bounding_box_3d::max_z_of;
use crate::bounding_box_3d::min_x_of;
use crate::bounding_box_3d::min_y_of;
use crate::bounding_box_3d::min_z_of;
use crate::functions::div_floor_i128;
use crate::point_2d::COORD_MAX;
use crate::point_3d::Point3D;
use crate::result::ErrorKind;

verus! {

/// The sum of the x coordinates of a point collection.
pub open spec fn sum_x(s: Seq<Point3D>) -> int
    decreases s.len(),
{
    if s.len() == 0 {
        0
    } else {
        sum_x(s.drop_last()) + s.last().x
    }
}

/// The sum of the y coordinates of a point collection.
pub open spec fn sum_y(s: Seq<Point3D>) -> int
    decreases s.len(),
{
    if s.len() == 0 {
        0
    } else {
        sum_y(s.drop_last()) + s.last().y
    }
}

/// The sum of the z coordinates of a point collection.
pub open spec fn sum_z(s: Seq<Point3D>) -> int
    decreases s.len(),
{
    if s.len() == 0 {
        0
    } else {
        sum_z(s.drop_last()) + s.last().z
    }
}

/// The centroid of a non-empty point collection: the arithmetic mean of the
/// coordinates per axis, rounded towards negative infinity.
pub open spec fn centroid(s: Seq<Point3D>) -> Point3D {
    Point3D {
        x: (sum_x(s) / s.len() as int) as i64,
        y: (sum_y(s) / s.len() as int) as i64,
        z: (sum_z(s) / s.len() as int) as i64,
    }
}

/// Whether every point of a collection has coordinates in range.
pub open spec fn all_points_valid(s: Seq<Point3D>) -> bool {
    forall|i: int| 0 <= i < s.len() ==> (#[trigger] s[i]).valid()
}

#[derive(Debug, Clone, PartialEq, Eq, Hash)]
/// PointCloud3D, an owned collection of 3D points.
pub struct PointCloud3D {
    pub data: Vec<Point3D>,
}

impl View for PointCloud3D {
    type V = Seq<Point3D>;

    open spec fn view(&self) -> Seq<Point3D> {
        self.data@
    }
}

impl PointCloud3D {
    /// Creates a new, empty point cloud.
    pub fn new() -> (r: Self)
        ensures
            r@ == Seq::<Point3D>::empty(),
    {
        PointCloud3D { data: Vec::new() }
    }

    /// Appends a point.
    pub fn push(&mut self, p: Point3D)
        ensures
            final(self)@ == old(self)@.push(p),
    {
        self.data.push(p);
    }

    /// Returns the number of points.
    pub fn len(&self) -> (r: usize)
        ensures
            r == self@.len(),
    {
        self.data.len()
    }

    /// Returns the bounding box of the stored points.
    ///
    /// Fails exactly as `BoundingBox3D::from_iterator` does: with
    /// `TooFewPoints` below two points, and with `MinMaxEqual` for a flat
    /// cloud.
    pub fn bounding_box(&self) -> (r: Result<BoundingBox3D, ErrorKind>)
        requires
            all_points_valid(self@),
        ensures
            r == Err::<BoundingBox3D, ErrorKind>(ErrorKind::TooFewPoints) <==> self@.len() < 2,
            r == Err::<BoundingBox3D, ErrorKind>(ErrorKind::MinMaxEqual) <==> self@.len() >= 2 && (
            min_x_of(self@) == max_x_of(self@) || min_y_of(self@) == max_y_of(self@) || min_z_of(
                self@,
            ) == max_z_of(self@)),
            r is Ok <==> self@.len() >= 2 && min_x_of(self@) < max_x_of(self@) && min_y_of(self@)
                < max_y_of(self@) && min_z_of(self@) < max_z_of(self@),
            r matches Ok(b) ==> b.wf() && b.min_spec().x == min_x_of(self@) && b.min_spec().y
                == min_y_of(self@) && b.min_spec().z == min_z_of(self@) && b.max_spec().x
                == max_x_of(self@) && b.max_spec().y == max_y_of(self@) && b.max_spec().z
                == max_z_of(self@),
    {
        BoundingBox3D::from_iterator(&self.data)
    }

    /// Returns the centroid of the stored points, and `TooFewPoints` when
    /// the cloud is empty.
    pub fn center_of_gravity(&self) -> (r: Result<Point3D, ErrorKind>)
        requires
            all_points_valid(self@),
        ensures
            r is Err <==> self@.len() == 0,
            r is Err ==> r == Err::<Point3D, ErrorKind>(ErrorKind::TooFewPoints),
            r matches Ok(c) ==> c == centroid(self@) && c.valid(),
    {
        let n = self.data.len();
        if n < 1 {
            return Err(ErrorKind::TooFewPoints);
        }
        let ghost s = self@;
        let mut sx: i128 = 0;
        let mut sy: i128 = 0;
        let mut sz: i128 = 0;
        let mut i: usize = 0;
        while i < n
            invariant
                0 <= i <= s.len(),
                s == self@,
                n == s.len(),
                all_points_valid(s),
                sx == sum_x(s.take(i as int)),
                sy == sum_y(s.take(i as int)),
                sz == sum_z(s.take(i as int)),
                -(i as int) * COORD_MAX <= sx <= (i as int) * COORD_MAX,
                -(i as int) * COORD_MAX <= sy <= (i as int) * COORD_MAX,
                -(i as int) * COORD_MAX <= sz <= (i as int) * COORD_MAX,
            decreases s.len() - i,
        {
            proof {
                assert(s[i as int].valid());
                assert(s.take(i + 1).drop_last() =~= s.take(i as int));
                assert(s.take(i + 1).last() == s[i as int]);
                assert((i as int) * COORD_MAX + COORD_MAX == (i + 1) as int * COORD_MAX)
                    by (nonlinear_arith);
            }
            let p = self.data[i];
            sx = sx + p.x as i128;
            sy = sy + p.y as i128;
            sz = sz + p.z as i128;
            i = i + 1;
        }
        proof {
            assert(s.take(s.len() as int) =~= s);
            assert((s.len() as int) * COORD_MAX <= 0x10000000000000000000000000000)
                by (nonlinear_arith)
                requires
                    0 <= s.len() <= usize::MAX,
            ;
        }
        let qx = div_floor_i128(sx, n as i128);
        let qy = div_floor_i128(sy, n as i128);
        let qz = div_floor_i128(sz, n as i128);
        proof {
            lemma_mean_in_range(sx as int, n as int);
            lemma_mean_in_range(sy as int, n as int);
            lemma_mean_in_range(sz as int, n as int);
        }
        Ok(Point3D { x: qx as i64, y: qy as i64, z: qz as i64 })
    }
}

/// The floor of the mean of values bounded by the coordinate range lies in
/// the coordinate range itself.
proof fn lemma_mean_in_range(sum: int, n: int)
    requires
        n >= 1,
        -n * COORD_MAX <= sum <= n * COORD_MAX,
    ensures
        -COORD_MAX <= sum / n <= COORD_MAX,
{
    vstd::arithmetic::div_mod::lemma_div_is_ordered(sum, n * COORD_MAX, n);
    vstd::arithmetic::div_mod::lemma_div_is_ordered(-n * COORD_MAX, sum, n);
    assert((n * COORD_MAX) / n == COORD_MAX) by {
        vstd::arithmetic::div_mod::lemma_div_multiples_vanish(COORD_MAX as int, n);
        assert(n * COORD_MAX == COORD_MAX * n) by (nonlinear_arith);
    }
    assert((-n * COORD_MAX) / n == -COORD_MAX) by {
        vstd::arithmetic::div_mod::lemma_div_multiples_vanish(-COORD_MAX as int, n);
        assert(-n * COORD_MAX == n * (-COORD_MAX as int)) by (nonlinear_arith);
    }
}

} // verus!

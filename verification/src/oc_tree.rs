//! OcTree, a static spatial index over deduplicated 3D points, built by
//! recursive eight-way subdivision and queried through level-of-detail
//! collection.
//!
//! A point is routed to the octant given by comparing each coordinate with
//! the split point of the current box, the box center rounded up; a
//! coordinate equal to the split point counts as positive, so a point on a
//! split plane deterministically goes to the first matching octant in the
//! fixed order `ppp, ppn, pnp, pnn, npp, npn, nnp, nnn`.

use vstd::prelude::*;
use crate::bounding_box_3d::max_x_of;
use crate::bounding_box_3d::max_y_of;
use crate::bounding_box_3d::max_z_of;
use crate::bounding_box_3d::min_x_of;
use crate::bounding_box_3d::min_y_of;
use crate::bounding_box_3d::min_z_of;
use crate::functions::lemma_concat_contains;
use crate::point_3d::Point3D;
use crate::point_cloud_3d::PointCloud3D;
use crate::point_cloud_3d::all_points_valid;
use crate::point_cloud_3d::centroid;
use crate::result::ErrorKind;

verus! {

broadcast use vstd::seq_lib::lemma_seq_contains_after_push;

/// Whether a point lies within the closed box spanned by two corners.
pub open spec fn in_closed_box(p: Point3D, min: Point3D, max: Point3D) -> bool {
    &&& min.x <= p.x <= max.x
    &&& min.y <= p.y <= max.y
    &&& min.z <= p.z <= max.z
}

/// The split coordinate of a closed interval: its midpoint, rounded up, so
/// that it lies strictly above `lo` whenever the interval has positive
/// length.
pub open spec fn split_mid(lo: int, hi: int) -> int {
    lo + (hi - lo + 1) / 2
}

/// The octant a point falls into relative to a split point: coordinates at
/// or above the split count as positive. The octants are numbered in the
/// fixed order `ppp = 0` through `nnn = 7`.
pub open spec fn oct_of(p: Point3D, t: Point3D) -> int {
    (if p.x >= t.x {
        0int
    } else {
        4int
    }) + (if p.y >= t.y {
        0int
    } else {
        2int
    }) + (if p.z >= t.z {
        0int
    } else {
        1int
    })
}

/// The lower corner of an octant's sub-box.
pub open spec fn octant_min(min: Point3D, t: Point3D, oct: int) -> Point3D {
    Point3D {
        x: if oct < 4 {
            t.x
        } else {
            min.x
        },
        y: if oct % 4 < 2 {
            t.y
        } else {
            min.y
        },
        z: if oct % 2 == 0 {
            t.z
        } else {
            min.z
        },
    }
}

/// The upper corner of an octant's sub-box. On a negative axis the sub-box
/// ends one step below the split point, since the split coordinate itself
/// counts as positive.
pub open spec fn octant_max(max: Point3D, t: Point3D, oct: int) -> Point3D {
    Point3D {
        x: if oct < 4 {
            max.x
        } else {
            (t.x - 1) as i64
        },
        y: if oct % 4 < 2 {
            max.y
        } else {
            (t.y - 1) as i64
        },
        z: if oct % 2 == 0 {
            max.z
        } else {
            (t.z - 1) as i64
        },
    }
}

/// The summed extent of a closed box, the termination measure of the build.
pub open spec fn box_measure(min: Point3D, max: Point3D) -> int {
    (max.x - min.x) + (max.y - min.y) + (max.z - min.z)
}

/// A non-empty octant bucket spans a well-formed sub-box that holds all its
/// points, and the sub-box is strictly smaller in summed extent than the box
/// being split.
proof fn lemma_octant_split(
    pc: Seq<Point3D>,
    bucket: Seq<Point3D>,
    min: Point3D,
    max: Point3D,
    t: Point3D,
    oct: int,
)
    requires
        min.valid(),
        max.valid(),
        min.x <= max.x,
        min.y <= max.y,
        min.z <= max.z,
        pc.len() >= 2,
        pc.no_duplicates(),
        forall|k: int| 0 <= k < pc.len() ==> in_closed_box(#[trigger] pc[k], min, max),
        t.x == split_mid(min.x as int, max.x as int),
        t.y == split_mid(min.y as int, max.y as int),
        t.z == split_mid(min.z as int, max.z as int),
        0 <= oct < 8,
        forall|p: Point3D| #[trigger] bucket.contains(p) <==> pc.contains(p) && oct_of(p, t)
            == oct,
        bucket.len() >= 1,
    ensures
        octant_min(min, t, oct).valid(),
        octant_max(max, t, oct).valid(),
        octant_min(min, t, oct).x <= octant_max(max, t, oct).x,
        octant_min(min, t, oct).y <= octant_max(max, t, oct).y,
        octant_min(min, t, oct).z <= octant_max(max, t, oct).z,
        forall|k: int|
            0 <= k < bucket.len() ==> in_closed_box(
                #[trigger] bucket[k],
                octant_min(min, t, oct),
                octant_max(max, t, oct),
            ),
        box_measure(octant_min(min, t, oct), octant_max(max, t, oct)) < box_measure(min, max),
{
    let cmin = octant_min(min, t, oct);
    let cmax = octant_max(max, t, oct);
    let w = bucket[0];
    assert(bucket.contains(w));
    assert(pc.contains(w));
    let wj = choose|j: int| 0 <= j < pc.len() && pc[j] == w;
    assert(in_closed_box(w, min, max));
    // the bucket witness forces the split point off the wall on every
    // negative axis of this octant
    if oct >= 4 {
        assert(w.x < t.x);
        assert(min.x <= w.x <= t.x - 1);
    }
    if oct % 4 >= 2 {
        assert(w.y < t.y);
        assert(min.y <= w.y <= t.y - 1);
    }
    if oct % 2 == 1 {
        assert(w.z < t.z);
        assert(min.z <= w.z <= t.z - 1);
    }
    assert(min.x <= t.x <= max.x || min.x == max.x) by {
        assert(max.x - min.x >= 1 ==> 1 <= (max.x - min.x + 1) / 2 <= max.x - min.x);
        assert(max.x - min.x == 0 ==> (max.x - min.x + 1) / 2 == 0);
    }
    assert(min.y <= t.y <= max.y || min.y == max.y);
    assert(min.z <= t.z <= max.z || min.z == max.z);
    assert forall|k: int| 0 <= k < bucket.len() implies in_closed_box(
        #[trigger] bucket[k],
        cmin,
        cmax,
    ) by {
        assert(bucket.contains(bucket[k]));
        let p = bucket[k];
        assert(pc.contains(p));
        let j = choose|j: int| 0 <= j < pc.len() && pc[j] == p;
        assert(in_closed_box(p, min, max));
        assert(oct_of(p, t) == oct);
    }
    // two distinct points of the box differ on some axis, so some extent is
    // at least one, and that axis shrinks strictly on both sides of its
    // split; every other axis never grows
    assert(pc[0] != pc[1]);
    assert(in_closed_box(pc[0], min, max) && in_closed_box(pc[1], min, max));
    assert(max.x - min.x >= 1 || max.y - min.y >= 1 || max.z - min.z >= 1);
    assert(cmax.x - cmin.x <= max.x - min.x && (max.x - min.x >= 1 ==> cmax.x - cmin.x < max.x
        - min.x)) by {
        assert(max.x - min.x >= 1 ==> 1 <= (max.x - min.x + 1) / 2 <= max.x - min.x);
        assert(max.x - min.x == 0 ==> (max.x - min.x + 1) / 2 == 0);
    }
    assert(cmax.y - cmin.y <= max.y - min.y && (max.y - min.y >= 1 ==> cmax.y - cmin.y < max.y
        - min.y)) by {
        assert(max.y - min.y >= 1 ==> 1 <= (max.y - min.y + 1) / 2 <= max.y - min.y);
        assert(max.y - min.y == 0 ==> (max.y - min.y + 1) / 2 == 0);
    }
    assert(cmax.z - cmin.z <= max.z - min.z && (max.z - min.z >= 1 ==> cmax.z - cmin.z < max.z
        - min.z)) by {
        assert(max.z - min.z >= 1 ==> 1 <= (max.z - min.z + 1) / 2 <= max.z - min.z);
        assert(max.z - min.z == 0 ==> (max.z - min.z + 1) / 2 == 0);
    }
}

#[derive(Debug, PartialEq, Eq)]
/// OcNode, a single node used within OcTree: either one point, or up to
/// eight child subtrees, one per octant.
enum OcNode {
    Leaf(Point3D),
    Node(Internal),
}

#[derive(Debug, PartialEq, Eq)]
/// The children of a subdividing node, named by sign per axis: `pnp` holds
/// the points in positive x, negative y, positive z direction from the
/// node's split point. An absent child is an empty octant.
struct Internal {
    ppp: Option<Box<OcNode>>,
    ppn: Option<Box<OcNode>>,
    pnp: Option<Box<OcNode>>,
    pnn: Option<Box<OcNode>>,
    npp: Option<Box<OcNode>>,
    npn: Option<Box<OcNode>>,
    nnp: Option<Box<OcNode>>,
    nnn: Option<Box<OcNode>>,
}

/// The points of an optional subtree.
spec fn opt_points(o: Option<Box<OcNode>>) -> Seq<Point3D>
    decreases o,
{
    match o {
        None => Seq::empty(),
        Some(n) => n.points(),
    }
}

/// Well-formedness of an optional subtree.
spec fn opt_wf(o: Option<Box<OcNode>>) -> bool
    decreases o,
{
    match o {
        None => true,
        Some(n) => n.wf(),
    }
}

impl OcNode {
    /// Every point stored under this node, in octant traversal order.
    spec fn points(self) -> Seq<Point3D>
        decreases self,
    {
        match self {
            OcNode::Leaf(p) => seq![p],
            OcNode::Node(i) => opt_points(i.ppp) + opt_points(i.ppn) + opt_points(i.pnp)
                + opt_points(i.pnn) + opt_points(i.npp) + opt_points(i.npn) + opt_points(i.nnp)
                + opt_points(i.nnn),
        }
    }

    /// A leaf holds one valid point; an internal node holds at least two
    /// valid points and only well-formed children.
    spec fn wf(self) -> bool
        decreases self,
    {
        match self {
            OcNode::Leaf(p) => p.valid(),
            OcNode::Node(i) => {
                &&& self.points().len() >= 2
                &&& all_points_valid(self.points())
                &&& opt_wf(i.ppp)
                &&& opt_wf(i.ppn)
                &&& opt_wf(i.pnp)
                &&& opt_wf(i.pnn)
                &&& opt_wf(i.npp)
                &&& opt_wf(i.npn)
                &&& opt_wf(i.nnp)
                &&& opt_wf(i.nnn)
            },
        }
    }
}

/// Every well-formed subtree holds at least one point.
proof fn lemma_wf_nonempty(n: OcNode)
    requires
        n.wf(),
    ensures
        n.points().len() >= 1,
        all_points_valid(n.points()),
{
    match n {
        OcNode::Leaf(p) => {
            assert(n.points() == seq![p]);
            assert(forall|k: int|
                0 <= k < n.points().len() ==> (#[trigger] n.points()[k]) == p);
        },
        OcNode::Node(i) => {
        },
    }
}

/// Joining the points of the next octant onto the points of the previous
/// ones keeps distinctness and extends the membership characterization.
proof fn lemma_join_octants(
    pc: Seq<Point3D>,
    t: Point3D,
    acc: Seq<Point3D>,
    child: Seq<Point3D>,
    k: int,
)
    requires
        0 <= k < 8,
        forall|x: Point3D| #[trigger] acc.contains(x) <==> pc.contains(x) && oct_of(x, t) < k,
        forall|x: Point3D| #[trigger] child.contains(x) <==> pc.contains(x) && oct_of(x, t) == k,
        acc.no_duplicates(),
        child.no_duplicates(),
    ensures
        forall|x: Point3D| #[trigger] (acc + child).contains(x) <==> pc.contains(x) && oct_of(x, t)
            < k + 1,
        (acc + child).no_duplicates(),
{
    lemma_concat_contains(acc, child);
    assert forall|a: int, b: int|
        0 <= a < acc.len() && 0 <= b < child.len() implies acc[a] != child[b] by {
        assert(acc.contains(acc[a]));
        assert(child.contains(child[b]));
    }
    vstd::seq_lib::lemma_no_dup_in_concat(acc, child);
}

/// The points of a built child are exactly the points of its bucket, as a
/// membership characterization against the whole collection.
proof fn lemma_child_chars(
    pc: Seq<Point3D>,
    t: Point3D,
    bucket: Seq<Point3D>,
    cpts: Seq<Point3D>,
    k: int,
)
    requires
        forall|p: Point3D| #[trigger] bucket.contains(p) <==> pc.contains(p) && oct_of(p, t) == k,
        cpts.to_set() == bucket.to_set(),
    ensures
        forall|p: Point3D| #[trigger] cpts.contains(p) <==> pc.contains(p) && oct_of(p, t) == k,
{
    assert forall|p: Point3D| #[trigger] cpts.contains(p) implies pc.contains(p) && oct_of(p, t)
        == k by {
        assert(cpts.to_set().contains(p));
        assert(bucket.to_set().contains(p));
        assert(bucket.contains(p));
    }
    assert forall|p: Point3D| pc.contains(p) && oct_of(p, t) == k implies #[trigger] cpts.contains(
        p,
    ) by {
        assert(bucket.contains(p));
        assert(bucket.to_set().contains(p));
        assert(cpts.to_set().contains(p));
    }
}

impl OcNode {
    /// Creates a new OcNode over the closed box spanned by `min` and `max`
    /// and the distinct points it should hold: one point becomes a leaf,
    /// more are routed to the octants of the box's split point and built
    /// recursively. Every point ends up in exactly one octant, so the tree
    /// stores exactly the given points.
    #[verifier::rlimit(100)]
    #[verifier::spinoff_prover]
    fn new(min: Point3D, max: Point3D, pc: Vec<Point3D>) -> (r: OcNode)
        requires
            pc@.len() >= 1,
            pc@.no_duplicates(),
            all_points_valid(pc@),
            min.valid(),
            max.valid(),
            min.x <= max.x,
            min.y <= max.y,
            min.z <= max.z,
            forall|k: int| 0 <= k < pc@.len() ==> in_closed_box(#[trigger] pc@[k], min, max),
        ensures
            r.wf(),
            r.points().no_duplicates(),
            r.points().to_set() == pc@.to_set(),
            r.points().len() == pc@.len(),
        decreases box_measure(min, max),
    {
        if pc.len() == 1 {
            let p = pc[0];
            proof {
                assert(pc@[0].valid());
                assert(seq![pc@[0]] =~= pc@);
            }
            return OcNode::Leaf(p);
        }
        let ghost s = pc@;
        let t = Point3D {
            x: min.x + (max.x - min.x + 1) / 2,
            y: min.y + (max.y - min.y + 1) / 2,
            z: min.z + (max.z - min.z + 1) / 2,
        };
        let b0 = bucket_of(&pc, &t, 0);
        let ppp: Option<Box<OcNode>> = if b0.len() > 0 {
            let cmin = Point3D { x: t.x, y: t.y, z: t.z };
            let cmax = Point3D { x: max.x, y: max.y, z: max.z };
            proof {
                lemma_octant_split(s, b0@, min, max, t, 0);
                assert(cmin == octant_min(min, t, 0));
                assert(cmax == octant_max(max, t, 0));
                assert(all_points_valid(b0@)) by {
                    assert forall|j: int| 0 <= j < b0@.len() implies (#[trigger] b0@[j]).valid() by {
                        assert(b0@.contains(b0@[j]));
                        let w = choose|w: int| 0 <= w < s.len() && s[w] == b0@[j];
                        assert(s[w].valid());
                    }
                }
            }
            Some(Box::new(OcNode::new(cmin, cmax, b0)))
        } else {
            None
        };
        let ghost q0 = opt_points(ppp);
        proof {
            if b0@.len() == 0 {
                assert(q0.to_set() =~= b0@.to_set());
            }
            lemma_child_chars(s, t, b0@, q0, 0);
        }

        let b1 = bucket_of(&pc, &t, 1);
        let ppn: Option<Box<OcNode>> = if b1.len() > 0 {
            let cmin = Point3D { x: t.x, y: t.y, z: min.z };
            let cmax = Point3D { x: max.x, y: max.y, z: t.z - 1 };
            proof {
                lemma_octant_split(s, b1@, min, max, t, 1);
                assert(cmin == octant_min(min, t, 1));
                assert(cmax == octant_max(max, t, 1));
                assert(all_points_valid(b1@)) by {
                    assert forall|j: int| 0 <= j < b1@.len() implies (#[trigger] b1@[j]).valid() by {
                        assert(b1@.contains(b1@[j]));
                        let w = choose|w: int| 0 <= w < s.len() && s[w] == b1@[j];
                        assert(s[w].valid());
                    }
                }
            }
            Some(Box::new(OcNode::new(cmin, cmax, b1)))
        } else {
            None
        };
        let ghost q1 = opt_points(ppn);
        proof {
            if b1@.len() == 0 {
                assert(q1.to_set() =~= b1@.to_set());
            }
            lemma_child_chars(s, t, b1@, q1, 1);
        }

        let b2 = bucket_of(&pc, &t, 2);
        let pnp: Option<Box<OcNode>> = if b2.len() > 0 {
            let cmin = Point3D { x: t.x, y: min.y, z: t.z };
            let cmax = Point3D { x: max.x, y: t.y - 1, z: max.z };
            proof {
                lemma_octant_split(s, b2@, min, max, t, 2);
                assert(cmin == octant_min(min, t, 2));
                assert(cmax == octant_max(max, t, 2));
                assert(all_points_valid(b2@)) by {
                    assert forall|j: int| 0 <= j < b2@.len() implies (#[trigger] b2@[j]).valid() by {
                        assert(b2@.contains(b2@[j]));
                        let w = choose|w: int| 0 <= w < s.len() && s[w] == b2@[j];
                        assert(s[w].valid());
                    }
                }
            }
            Some(Box::new(OcNode::new(cmin, cmax, b2)))
        } else {
            None
        };
        let ghost q2 = opt_points(pnp);
        proof {
            if b2@.len() == 0 {
                assert(q2.to_set() =~= b2@.to_set());
            }
            lemma_child_chars(s, t, b2@, q2, 2);
        }

        let b3 = bucket_of(&pc, &t, 3);
        let pnn: Option<Box<OcNode>> = if b3.len() > 0 {
            let cmin = Point3D { x: t.x, y: min.y, z: min.z };
            let cmax = Point3D { x: max.x, y: t.y - 1, z: t.z - 1 };
            proof {
                lemma_octant_split(s, b3@, min, max, t, 3);
                assert(cmin == octant_min(min, t, 3));
                assert(cmax == octant_max(max, t, 3));
                assert(all_points_valid(b3@)) by {
                    assert forall|j: int| 0 <= j < b3@.len() implies (#[trigger] b3@[j]).valid() by {
                        assert(b3@.contains(b3@[j]));
                        let w = choose|w: int| 0 <= w < s.len() && s[w] == b3@[j];
                        assert(s[w].valid());
                    }
                }
            }
            Some(Box::new(OcNode::new(cmin, cmax, b3)))
        } else {
            None
        };
        let ghost q3 = opt_points(pnn);
        proof {
            if b3@.len() == 0 {
                assert(q3.to_set() =~= b3@.to_set());
            }
            lemma_child_chars(s, t, b3@, q3, 3);
        }

        let b4 = bucket_of(&pc, &t, 4);
        let npp: Option<Box<OcNode>> = if b4.len() > 0 {
            let cmin = Point3D { x: min.x, y: t.y, z: t.z };
            let cmax = Point3D { x: t.x - 1, y: max.y, z: max.z };
            proof {
                lemma_octant_split(s, b4@, min, max, t, 4);
                assert(cmin == octant_min(min, t, 4));
                assert(cmax == octant_max(max, t, 4));
                assert(all_points_valid(b4@)) by {
                    assert forall|j: int| 0 <= j < b4@.len() implies (#[trigger] b4@[j]).valid() by {
                        assert(b4@.contains(b4@[j]));
                        let w = choose|w: int| 0 <= w < s.len() && s[w] == b4@[j];
                        assert(s[w].valid());
                    }
                }
            }
            Some(Box::new(OcNode::new(cmin, cmax, b4)))
        } else {
            None
        };
        let ghost q4 = opt_points(npp);
        proof {
            if b4@.len() == 0 {
                assert(q4.to_set() =~= b4@.to_set());
            }
            lemma_child_chars(s, t, b4@, q4, 4);
        }

        let b5 = bucket_of(&pc, &t, 5);
        let npn: Option<Box<OcNode>> = if b5.len() > 0 {
            let cmin = Point3D { x: min.x, y: t.y, z: min.z };
            let cmax = Point3D { x: t.x - 1, y: max.y, z: t.z - 1 };
            proof {
                lemma_octant_split(s, b5@, min, max, t, 5);
                assert(cmin == octant_min(min, t, 5));
                assert(cmax == octant_max(max, t, 5));
                assert(all_points_valid(b5@)) by {
                    assert forall|j: int| 0 <= j < b5@.len() implies (#[trigger] b5@[j]).valid() by {
                        assert(b5@.contains(b5@[j]));
                        let w = choose|w: int| 0 <= w < s.len() && s[w] == b5@[j];
                        assert(s[w].valid());
                    }
                }
            }
            Some(Box::new(OcNode::new(cmin, cmax, b5)))
        } else {
            None
        };
        let ghost q5 = opt_points(npn);
        proof {
            if b5@.len() == 0 {
                assert(q5.to_set() =~= b5@.to_set());
            }
            lemma_child_chars(s, t, b5@, q5, 5);
        }

        let b6 = bucket_of(&pc, &t, 6);
        let nnp: Option<Box<OcNode>> = if b6.len() > 0 {
            let cmin = Point3D { x: min.x, y: min.y, z: t.z };
            let cmax = Point3D { x: t.x - 1, y: t.y - 1, z: max.z };
            proof {
                lemma_octant_split(s, b6@, min, max, t, 6);
                assert(cmin == octant_min(min, t, 6));
                assert(cmax == octant_max(max, t, 6));
                assert(all_points_valid(b6@)) by {
                    assert forall|j: int| 0 <= j < b6@.len() implies (#[trigger] b6@[j]).valid() by {
                        assert(b6@.contains(b6@[j]));
                        let w = choose|w: int| 0 <= w < s.len() && s[w] == b6@[j];
                        assert(s[w].valid());
                    }
                }
            }
            Some(Box::new(OcNode::new(cmin, cmax, b6)))
        } else {
            None
        };
        let ghost q6 = opt_points(nnp);
        proof {
            if b6@.len() == 0 {
                assert(q6.to_set() =~= b6@.to_set());
            }
            lemma_child_chars(s, t, b6@, q6, 6);
        }

        let b7 = bucket_of(&pc, &t, 7);
        let nnn: Option<Box<OcNode>> = if b7.len() > 0 {
            let cmin = Point3D { x: min.x, y: min.y, z: min.z };
            let cmax = Point3D { x: t.x - 1, y: t.y - 1, z: t.z - 1 };
            proof {
                lemma_octant_split(s, b7@, min, max, t, 7);
                assert(cmin == octant_min(min, t, 7));
                assert(cmax == octant_max(max, t, 7));
                assert(all_points_valid(b7@)) by {
                    assert forall|j: int| 0 <= j < b7@.len() implies (#[trigger] b7@[j]).valid() by {
                        assert(b7@.contains(b7@[j]));
                        let w = choose|w: int| 0 <= w < s.len() && s[w] == b7@[j];
                        assert(s[w].valid());
                    }
                }
            }
            Some(Box::new(OcNode::new(cmin, cmax, b7)))
        } else {
            None
        };
        let ghost q7 = opt_points(nnn);
        proof {
            if b7@.len() == 0 {
                assert(q7.to_set() =~= b7@.to_set());
            }
            lemma_child_chars(s, t, b7@, q7, 7);
        }

        let result = OcNode::Node(
            Internal { ppp, ppn, pnp, pnn, npp, npn, nnp, nnn },
        );
        proof {
            assert(forall|x: Point3D| 0 <= #[trigger] oct_of(x, t) < 8);
            assert forall|x: Point3D| #[trigger] q0.contains(x) <==> s.contains(x) && oct_of(x, t)
                < 1 by {
                assert(0 <= oct_of(x, t));
            }
            lemma_join_octants(s, t, q0, q1, 1);
            let acc1 = q0 + q1;
            lemma_join_octants(s, t, acc1, q2, 2);
            let acc2 = acc1 + q2;
            lemma_join_octants(s, t, acc2, q3, 3);
            let acc3 = acc2 + q3;
            lemma_join_octants(s, t, acc3, q4, 4);
            let acc4 = acc3 + q4;
            lemma_join_octants(s, t, acc4, q5, 5);
            let acc5 = acc4 + q5;
            lemma_join_octants(s, t, acc5, q6, 6);
            let acc6 = acc5 + q6;
            lemma_join_octants(s, t, acc6, q7, 7);
            let acc7 = acc6 + q7;
            assert(result.points() == acc7);
            assert forall|x: Point3D| #[trigger] result.points().contains(x) <==> s.contains(
                x,
            ) by {
                assert(0 <= oct_of(x, t) < 8);
            }
            assert(result.points().to_set() =~= s.to_set());
            s.unique_seq_to_set();
            result.points().unique_seq_to_set();
            assert(all_points_valid(result.points())) by {
                assert forall|j: int|
                    0 <= j < result.points().len() implies (#[trigger] result.points()[j]).valid() by {
                    assert(result.points().contains(result.points()[j]));
                    let w = choose|w: int| 0 <= w < s.len() && s[w] == result.points()[j];
                    assert(s[w].valid());
                }
            }
        }
        result
    }
}

/// The contribution of an optional subtree to a collection pass: nothing
/// when absent, the centroid of all its points when the depth budget is
/// spent, and its own collection otherwise.
spec fn opt_collect(o: Option<Box<OcNode>>, collapse: bool, dec: bool, levels: int) -> Seq<
    Point3D,
>
    decreases o,
{
    match o {
        None => Seq::empty(),
        Some(c) => if collapse {
            seq![centroid(c.points())]
        } else {
            collect_spec(*c, dec, levels)
        },
    }
}

/// What a collection pass over a subtree returns. `levels` is the remaining
/// depth budget, saturated at minus one; when decimation is on and the
/// budget is spent, each present child collapses to the centroid of all its
/// points.
spec fn collect_spec(n: OcNode, dec: bool, levels: int) -> Seq<Point3D>
    decreases n,
{
    match n {
        OcNode::Leaf(p) => seq![p],
        OcNode::Node(i) => {
            let occ = dec && levels < 0;
            let nl = next_level(levels);
            opt_collect(i.ppp, occ, dec, nl) + opt_collect(i.ppn, occ, dec, nl) + opt_collect(
                i.pnp,
                occ,
                dec,
                nl,
            ) + opt_collect(i.pnn, occ, dec, nl) + opt_collect(i.npp, occ, dec, nl) + opt_collect(
                i.npn,
                occ,
                dec,
                nl,
            ) + opt_collect(i.nnp, occ, dec, nl) + opt_collect(i.nnn, occ, dec, nl)
        },
    }
}

/// The next depth budget: one less, saturated at minus one.
pub open spec fn next_level(l: int) -> int {
    if l <= -1 {
        -1
    } else {
        l - 1
    }
}

/// A collection pass without decimation returns every point, in traversal
/// order.
proof fn lemma_collect_all(n: OcNode, levels: int)
    ensures
        collect_spec(n, false, levels) == n.points(),
    decreases n,
{
    match n {
        OcNode::Leaf(p) => {
        },
        OcNode::Node(i) => {
            lemma_opt_collect_all(i.ppp, next_level(levels));
            lemma_opt_collect_all(i.ppn, next_level(levels));
            lemma_opt_collect_all(i.pnp, next_level(levels));
            lemma_opt_collect_all(i.pnn, next_level(levels));
            lemma_opt_collect_all(i.npp, next_level(levels));
            lemma_opt_collect_all(i.npn, next_level(levels));
            lemma_opt_collect_all(i.nnp, next_level(levels));
            lemma_opt_collect_all(i.nnn, next_level(levels));
        },
    }
}

/// A collection pass without decimation over an optional subtree returns
/// its points.
proof fn lemma_opt_collect_all(o: Option<Box<OcNode>>, levels: int)
    ensures
        opt_collect(o, false, false, levels) == opt_points(o),
    decreases o,
{
    match o {
        None => {
        },
        Some(c) => {
            lemma_collect_all(*c, levels);
        },
    }
}

/// Whether a subtree is shallow enough for a depth budget: no collection
/// pass with that budget ever collapses more than one point. A collapse
/// happens at present children once the budget is spent.
spec fn shallow(n: OcNode, levels: int) -> bool
    decreases n,
{
    match n {
        OcNode::Leaf(_) => true,
        OcNode::Node(i) => {
            let collapse = levels < 0;
            let nl = next_level(levels);
            &&& opt_shallow(i.ppp, collapse, nl)
            &&& opt_shallow(i.ppn, collapse, nl)
            &&& opt_shallow(i.pnp, collapse, nl)
            &&& opt_shallow(i.pnn, collapse, nl)
            &&& opt_shallow(i.npp, collapse, nl)
            &&& opt_shallow(i.npn, collapse, nl)
            &&& opt_shallow(i.nnp, collapse, nl)
            &&& opt_shallow(i.nnn, collapse, nl)
        },
    }
}

/// Whether an optional subtree is shallow: an absent child always is, a
/// collapsing child must be a single leaf, and otherwise the child itself
/// must be shallow.
spec fn opt_shallow(o: Option<Box<OcNode>>, collapse: bool, levels: int) -> bool
    decreases o,
{
    match o {
        None => true,
        Some(c) => if collapse {
            *c is Leaf
        } else {
            shallow(*c, levels)
        },
    }
}

/// Decimation never returns more points than are stored, and returns
/// exactly as many if and only if the subtree is shallow for the budget.
#[verifier::rlimit(100)]
#[verifier::spinoff_prover]
proof fn lemma_decimation_len(n: OcNode, levels: int)
    requires
        n.wf(),
    ensures
        collect_spec(n, true, levels).len() <= n.points().len(),
        collect_spec(n, true, levels).len() == n.points().len() <==> shallow(n, levels),
    decreases n,
{
    match n {
        OcNode::Leaf(p) => {
        },
        OcNode::Node(i) => {
            let occ = levels < 0;
            let nl = next_level(levels);
            lemma_opt_decimation(i.ppp, occ, nl);
            let c0 = opt_collect(i.ppp, occ, true, nl);
            let p0 = opt_points(i.ppp);
            lemma_opt_decimation(i.ppn, occ, nl);
            let c1 = opt_collect(i.ppn, occ, true, nl);
            let p1 = opt_points(i.ppn);
            lemma_opt_decimation(i.pnp, occ, nl);
            let c2 = opt_collect(i.pnp, occ, true, nl);
            let p2 = opt_points(i.pnp);
            lemma_opt_decimation(i.pnn, occ, nl);
            let c3 = opt_collect(i.pnn, occ, true, nl);
            let p3 = opt_points(i.pnn);
            lemma_opt_decimation(i.npp, occ, nl);
            let c4 = opt_collect(i.npp, occ, true, nl);
            let p4 = opt_points(i.npp);
            lemma_opt_decimation(i.npn, occ, nl);
            let c5 = opt_collect(i.npn, occ, true, nl);
            let p5 = opt_points(i.npn);
            lemma_opt_decimation(i.nnp, occ, nl);
            let c6 = opt_collect(i.nnp, occ, true, nl);
            let p6 = opt_points(i.nnp);
            lemma_opt_decimation(i.nnn, occ, nl);
            let c7 = opt_collect(i.nnn, occ, true, nl);
            let p7 = opt_points(i.nnn);
            assert(collect_spec(n, true, levels) == c0 + c1 + c2 + c3 + c4 + c5 + c6 + c7);
            assert(n.points() == p0 + p1 + p2 + p3 + p4 + p5 + p6 + p7);
            assert(collect_spec(n, true, levels).len() == c0.len() + c1.len() + c2.len() + c3.len() + c4.len() + c5.len() + c6.len() + c7.len());
            assert(n.points().len() == p0.len() + p1.len() + p2.len() + p3.len() + p4.len() + p5.len() + p6.len() + p7.len());
            if c0.len() == p0.len() && c1.len() == p1.len() && c2.len() == p2.len() && c3.len() == p3.len() && c4.len() == p4.len() && c5.len() == p5.len() && c6.len() == p6.len() && c7.len() == p7.len() {
                assert(shallow(n, levels));
                assert(collect_spec(n, true, levels).len() == n.points().len());
            } else {
                assert(!shallow(n, levels));
                assert(collect_spec(n, true, levels).len() < n.points().len());
            }
        },
    }
}

/// The per-child step of the decimation bound.
proof fn lemma_opt_decimation(o: Option<Box<OcNode>>, collapse: bool, levels: int)
    requires
        opt_wf(o),
    ensures
        opt_collect(o, collapse, true, levels).len() <= opt_points(o).len(),
        opt_collect(o, collapse, true, levels).len() == opt_points(o).len() <==> opt_shallow(
            o,
            collapse,
            levels,
        ),
    decreases o,
{
    match o {
        None => {
        },
        Some(c) => {
            lemma_wf_nonempty(*c);
            if collapse {
                match *c {
                    OcNode::Leaf(p) => {
                    },
                    OcNode::Node(ci) => {
                    },
                }
            } else {
                lemma_decimation_len(*c, levels);
            }
        },
    }
}

impl OcNode {
    /// Returns the number of points stored under this node.
    fn size(&self) -> (r: usize)
        requires
            self.wf(),
            self.points().len() <= usize::MAX,
        ensures
            r == self.points().len(),
        decreases self,
    {
        match self {
            OcNode::Leaf(_) => 1,
            OcNode::Node(internal) => {
                let mut result: usize = 0;
                if let Some(n) = &internal.ppp {
                    result = result + n.size();
                }
                if let Some(n) = &internal.ppn {
                    result = result + n.size();
                }
                if let Some(n) = &internal.pnp {
                    result = result + n.size();
                }
                if let Some(n) = &internal.pnn {
                    result = result + n.size();
                }
                if let Some(n) = &internal.npp {
                    result = result + n.size();
                }
                if let Some(n) = &internal.npn {
                    result = result + n.size();
                }
                if let Some(n) = &internal.nnp {
                    result = result + n.size();
                }
                if let Some(n) = &internal.nnn {
                    result = result + n.size();
                }
                result
            },
        }
    }

    /// Appends a collection pass over this node to `pc`. `levels` is the
    /// remaining depth budget, saturated at minus one; while `decimate` is
    /// on, a spent budget collapses each child to the centroid of its
    /// points.
    #[verifier::rlimit(100)]
    #[verifier::spinoff_prover]
    fn collect(&self, decimate: bool, levels: i16, pc: &mut PointCloud3D)
        requires
            self.wf(),
            levels >= -1,
        ensures
            final(pc)@ == old(pc)@ + collect_spec(*self, decimate, levels as int),
        decreases *self, 0int,
    {
        let ghost entry = pc@;
        match self {
            OcNode::Leaf(p) => {
                pc.push(*p);
                proof {
                    assert(pc@ =~= entry + collect_spec(*self, decimate, levels as int));
                }
            },
            OcNode::Node(internal) => {
                let occ = decimate && levels < 0;
                let nl: i16 = if levels <= -1 {
                    -1
                } else {
                    levels - 1
                };
                proof {
                    assert(nl as int == next_level(levels as int));
                }
                let ghost c0 = opt_collect(internal.ppp, occ, decimate, nl as int);
                if let Some(n) = &internal.ppp {
                    Self::collect_center_or_all(n, occ, decimate, nl, pc);
                }
                proof {
                    if internal.ppp is None {
                        Seq::add_empty_right(entry, c0);
                    }
                    assert(pc@ == entry + c0);
                }
                let ghost c1 = opt_collect(internal.ppn, occ, decimate, nl as int);
                if let Some(n) = &internal.ppn {
                    Self::collect_center_or_all(n, occ, decimate, nl, pc);
                }
                proof {
                    if internal.ppn is None {
                        Seq::add_empty_right(entry + (c0), c1);
                    }
                    vstd::seq_lib::lemma_concat_associative(entry, c0, c1);
                    assert(pc@ == entry + (c0 + c1));
                }
                let ghost c2 = opt_collect(internal.pnp, occ, decimate, nl as int);
                if let Some(n) = &internal.pnp {
                    Self::collect_center_or_all(n, occ, decimate, nl, pc);
                }
                proof {
                    if internal.pnp is None {
                        Seq::add_empty_right(entry + (c0 + c1), c2);
                    }
                    vstd::seq_lib::lemma_concat_associative(entry, c0 + c1, c2);
                    assert(pc@ == entry + (c0 + c1 + c2));
                }
                let ghost c3 = opt_collect(internal.pnn, occ, decimate, nl as int);
                if let Some(n) = &internal.pnn {
                    Self::collect_center_or_all(n, occ, decimate, nl, pc);
                }
                proof {
                    if internal.pnn is None {
                        Seq::add_empty_right(entry + (c0 + c1 + c2), c3);
                    }
                    vstd::seq_lib::lemma_concat_associative(entry, c0 + c1 + c2, c3);
                    assert(pc@ == entry + (c0 + c1 + c2 + c3));
                }
                let ghost c4 = opt_collect(internal.npp, occ, decimate, nl as int);
                if let Some(n) = &internal.npp {
                    Self::collect_center_or_all(n, occ, decimate, nl, pc);
                }
                proof {
                    if internal.npp is None {
                        Seq::add_empty_right(entry + (c0 + c1 + c2 + c3), c4);
                    }
                    vstd::seq_lib::lemma_concat_associative(entry, c0 + c1 + c2 + c3, c4);
                    assert(pc@ == entry + (c0 + c1 + c2 + c3 + c4));
                }
                let ghost c5 = opt_collect(internal.npn, occ, decimate, nl as int);
                if let Some(n) = &internal.npn {
                    Self::collect_center_or_all(n, occ, decimate, nl, pc);
                }
                proof {
                    if internal.npn is None {
                        Seq::add_empty_right(entry + (c0 + c1 + c2 + c3 + c4), c5);
                    }
                    vstd::seq_lib::lemma_concat_associative(entry, c0 + c1 + c2 + c3 + c4, c5);
                    assert(pc@ == entry + (c0 + c1 + c2 + c3 + c4 + c5));
                }
                let ghost c6 = opt_collect(internal.nnp, occ, decimate, nl as int);
                if let Some(n) = &internal.nnp {
                    Self::collect_center_or_all(n, occ, decimate, nl, pc);
                }
                proof {
                    if internal.nnp is None {
                        Seq::add_empty_right(entry + (c0 + c1 + c2 + c3 + c4 + c5), c6);
                    }
                    vstd::seq_lib::lemma_concat_associative(entry, c0 + c1 + c2 + c3 + c4 + c5, c6);
                    assert(pc@ == entry + (c0 + c1 + c2 + c3 + c4 + c5 + c6));
                }
                let ghost c7 = opt_collect(internal.nnn, occ, decimate, nl as int);
                if let Some(n) = &internal.nnn {
                    Self::collect_center_or_all(n, occ, decimate, nl, pc);
                }
                proof {
                    if internal.nnn is None {
                        Seq::add_empty_right(entry + (c0 + c1 + c2 + c3 + c4 + c5 + c6), c7);
                    }
                    vstd::seq_lib::lemma_concat_associative(entry, c0 + c1 + c2 + c3 + c4 + c5 + c6, c7);
                    assert(pc@ == entry + (c0 + c1 + c2 + c3 + c4 + c5 + c6 + c7));
                }
                proof {
                    assert(collect_spec(*self, decimate, levels as int) == c0 + c1 + c2 + c3 + c4 + c5 + c6 + c7);
                    assert(pc@ == entry + collect_spec(*self, decimate, levels as int));
                }
            },
        }
    }

    /// Appends, for one present child, either the centroid of all its
    /// points or its own collection pass, as the depth decision of the
    /// parent node requires.
    fn collect_center_or_all(
        n: &OcNode,
        only_collect_centers: bool,
        decimate: bool,
        levels: i16,
        pc: &mut PointCloud3D,
    )
        requires
            n.wf(),
            levels >= -1,
        ensures
            final(pc)@ == old(pc)@ + (if only_collect_centers {
                seq![centroid(n.points())]
            } else {
                collect_spec(*n, decimate, levels as int)
            }),
        decreases *n, 1int,
    {
        let ghost entry = pc@;
        if only_collect_centers {
            let mut sub = PointCloud3D::new();
            n.collect(false, -1, &mut sub);
            proof {
                lemma_collect_all(*n, -1);
                assert(sub@ =~= n.points());
                lemma_wf_nonempty(*n);
            }
            match sub.center_of_gravity() {
                Ok(c) => {
                    pc.push(c);
                    proof {
                        assert(pc@ =~= entry + seq![centroid(n.points())]);
                    }
                },
                Err(_) => {
                    proof {
                        assert(false);
                    }
                },
            }
        } else {
            n.collect(decimate, levels, pc);
        }
    }
}

/// Tests whether a collection already holds a point.
fn contains_point(v: &Vec<Point3D>, p: &Point3D) -> (r: bool)
    ensures
        r == v@.contains(*p),
{
    let mut i: usize = 0;
    while i < v.len()
        invariant
            0 <= i <= v@.len(),
            forall|j: int| 0 <= j < i ==> v@[j] != *p,
        decreases v@.len() - i,
    {
        if v[i].x == p.x && v[i].y == p.y && v[i].z == p.z {
            proof {
                assert(v@[i as int] == *p);
            }
            return true;
        }
        i = i + 1;
    }
    proof {
        assert(forall|j: int| 0 <= j < v@.len() ==> v@[j] != *p);
    }
    false
}

/// Computes the exec octant index of a point relative to a split point.
fn octant_index(p: &Point3D, t: &Point3D) -> (r: u8)
    ensures
        r as int == oct_of(*p, *t),
        r < 8,
{
    let x: u8 = if p.x >= t.x {
        0
    } else {
        4
    };
    let y: u8 = if p.y >= t.y {
        0
    } else {
        2
    };
    let z: u8 = if p.z >= t.z {
        0
    } else {
        1
    };
    x + y + z
}

/// Collects the points of one octant bucket, preserving distinctness.
fn bucket_of(pc: &Vec<Point3D>, t: &Point3D, oct: u8) -> (r: Vec<Point3D>)
    requires
        pc@.no_duplicates(),
    ensures
        r@.no_duplicates(),
        forall|p: Point3D| #[trigger] r@.contains(p) <==> pc@.contains(p) && oct_of(p, *t)
            == oct as int,
        r@.len() <= pc@.len(),
    {
    let ghost s = pc@;
    let mut r: Vec<Point3D> = Vec::new();
    let mut i: usize = 0;
    while i < pc.len()
        invariant
            0 <= i <= s.len(),
            s == pc@,
            s.no_duplicates(),
            r@.no_duplicates(),
            r@.len() <= i,
            forall|p: Point3D| #[trigger] r@.contains(p) <==> s.take(i as int).contains(p)
                && oct_of(p, *t) == oct as int,
        decreases s.len() - i,
    {
        let ghost old_r = r@;
        let p = pc[i];
        if octant_index(&p, t) == oct {
            proof {
                // a fresh element keeps the bucket duplicate-free
                assert(!old_r.contains(p)) by {
                    if old_r.contains(p) {
                        assert(s.take(i as int).contains(p));
                        let j = choose|j: int| 0 <= j < i && s.take(i as int)[j] == p;
                        assert(s[j] == p && s[i as int] == p);
                    }
                }
            }
            r.push(p);
            proof {
                assert(r@.no_duplicates()) by {
                    assert(forall|a: int, b: int|
                        0 <= a < old_r.len() && 0 <= b < old_r.len() && a != b ==> old_r[a]
                            != old_r[b]);
                    assert(forall|a: int| 0 <= a < old_r.len() ==> r@[a] == old_r[a]);
                    assert(r@[old_r.len() as int] == p);
                    assert(forall|a: int| 0 <= a < old_r.len() ==> old_r.contains(old_r[a]));
                }
            }
        }
        proof {
            assert(s.take(i + 1).drop_last() =~= s.take(i as int));
            assert(s.take(i + 1).last() == s[i as int]);
            assert forall|p: Point3D| #[trigger] r@.contains(p) implies s.take(i + 1).contains(p)
                && oct_of(p, *t) == oct as int by {
                if old_r.contains(p) {
                    assert(s.take(i as int).contains(p));
                    let j = choose|j: int| 0 <= j < i && s.take(i as int)[j] == p;
                    assert(s.take(i + 1)[j] == p);
                } else {
                    assert(p == s[i as int]);
                    assert(s.take(i + 1)[i as int] == p);
                }
            }
            assert forall|p: Point3D|
                s.take(i + 1).contains(p) && oct_of(p, *t) == oct as int implies #[trigger] r@.contains(
                p,
            ) by {
                let j = choose|j: int| 0 <= j < i + 1 && #[trigger] s.take(i + 1)[j] == p;
                if j < i {
                    assert(s.take(i as int)[j] == p);
                    assert(s.take(i as int).contains(p));
                    assert(old_r.contains(p));
                    if old_r != r@ {
                        assert(r@ == old_r.push(s[i as int]));
                    }
                } else {
                    assert(p == s[i as int]);
                    assert(r@ == old_r.push(p));
                    assert(r@[r@.len() - 1] == p);
                }
            }
        }
        i = i + 1;
    }
    proof {
        assert(s.take(s.len() as int) =~= s);
    }
    r
}

#[derive(Debug, PartialEq, Eq)]
/// OcTree, a static spatial index over a fixed, deduplicated collection of
/// 3D points.
pub struct OcTree {
    root: Option<OcNode>,
    min: Point3D,
    max: Point3D,
}

impl OcTree {
    /// The deduplicated points stored in the tree, in octant traversal
    /// order.
    pub closed spec fn points_seq(self) -> Seq<Point3D> {
        match self.root {
            None => Seq::empty(),
            Some(n) => n.points(),
        }
    }

    /// The lower corner of the tree's bounding box.
    pub closed spec fn min_spec(self) -> Point3D {
        self.min
    }

    /// The upper corner of the tree's bounding box.
    pub closed spec fn max_spec(self) -> Point3D {
        self.max
    }

    /// Well-formedness of the whole tree.
    pub closed spec fn wf(self) -> bool {
        match self.root {
            None => true,
            Some(n) => n.wf() && n.points().len() <= usize::MAX,
        }
    }

    /// What `collect` returns for a given depth limit: all points when the
    /// limit is negative, a decimated collection otherwise.
    pub closed spec fn collect_seq(self, maxdepth: int) -> Seq<Point3D> {
        match self.root {
            None => Seq::empty(),
            Some(n) => collect_spec(
                n,
                maxdepth >= 0,
                if maxdepth >= 0 {
                    maxdepth
                } else {
                    -1
                },
            ),
        }
    }

    /// Whether no collection pass at the given depth limit ever collapses
    /// more than one point into a centroid.
    pub closed spec fn shallow_to(self, maxdepth: int) -> bool {
        match self.root {
            None => true,
            Some(n) => shallow(n, maxdepth),
        }
    }

    /// Builds an OcTree from a point cloud.
    ///
    /// Points with identical coordinates deliberately collapse into one
    /// stored point. Fails with `TooFewPoints` when fewer than two points
    /// are given, and with `MinMaxEqual` when all points share one
    /// coordinate, since no bounding box spans such a cloud.
    pub fn build(pc: PointCloud3D) -> (r: Result<OcTree, ErrorKind>)
        requires
            all_points_valid(pc@),
        ensures
            r == Err::<OcTree, ErrorKind>(ErrorKind::TooFewPoints) <==> pc@.len() < 2,
            r == Err::<OcTree, ErrorKind>(ErrorKind::MinMaxEqual) <==> pc@.len() >= 2 && (min_x_of(
                pc@,
            ) == max_x_of(pc@) || min_y_of(pc@) == max_y_of(pc@) || min_z_of(pc@) == max_z_of(
                pc@,
            )),
            r is Ok <==> pc@.len() >= 2 && min_x_of(pc@) < max_x_of(pc@) && min_y_of(pc@)
                < max_y_of(pc@) && min_z_of(pc@) < max_z_of(pc@),
            r matches Ok(tree) ==> tree.wf() && tree.points_seq().no_duplicates()
                && tree.points_seq().to_set() == pc@.to_set() && tree.points_seq().len()
                == pc@.to_set().len(),
    {
        let bb = match pc.bounding_box() {
            Err(e) => {
                return Err(e);
            },
            Ok(b) => b,
        };
        let ghost s = pc@;
        let mut unique: Vec<Point3D> = Vec::new();
        let mut i: usize = 0;
        while i < pc.data.len()
            invariant
                0 <= i <= s.len(),
                s == pc@,
                unique@.no_duplicates(),
                forall|x: Point3D| #[trigger] unique@.contains(x) <==> s.take(i as int).contains(
                    x,
                ),
            decreases s.len() - i,
        {
            let ghost old_u = unique@;
            let p = pc.data[i];
            if !contains_point(&unique, &p) {
                unique.push(p);
                proof {
                    assert(!old_u.contains(p));
                    assert(unique@.no_duplicates()) by {
                        assert(forall|a: int| 0 <= a < old_u.len() ==> unique@[a] == old_u[a]);
                        assert(unique@[old_u.len() as int] == p);
                        assert(forall|a: int| 0 <= a < old_u.len() ==> old_u.contains(old_u[a]));
                    }
                }
            }
            proof {
                assert(s.take(i + 1).drop_last() =~= s.take(i as int));
                assert(s.take(i + 1).last() == s[i as int]);
                assert forall|x: Point3D| #[trigger] unique@.contains(x) implies s.take(
                    i + 1,
                ).contains(x) by {
                    if old_u.contains(x) {
                        assert(s.take(i as int).contains(x));
                        let j = choose|j: int| 0 <= j < i && #[trigger] s.take(i as int)[j] == x;
                        assert(s.take(i + 1)[j] == x);
                    } else {
                        assert(x == s[i as int]);
                        assert(s.take(i + 1)[i as int] == x);
                    }
                }
                assert forall|x: Point3D| s.take(i + 1).contains(x) implies #[trigger] unique@.contains(
                    x,
                ) by {
                    let j = choose|j: int| 0 <= j < i + 1 && #[trigger] s.take(i + 1)[j] == x;
                    if j < i {
                        assert(s.take(i as int)[j] == x);
                        assert(s.take(i as int).contains(x));
                        assert(old_u.contains(x));
                        if old_u != unique@ {
                            assert(unique@ == old_u.push(s[i as int]));
                        }
                    } else {
                        assert(x == s[i as int]);
                        if !old_u.contains(x) {
                            assert(unique@ == old_u.push(x));
                            assert(unique@[unique@.len() - 1] == x);
                        }
                    }
                }
            }
            i = i + 1;
        }
        proof {
            assert(s.take(s.len() as int) =~= s);
            crate::bounding_box_3d::lemma_extrema_bound(s);
            assert(s.contains(s[0]));
            assert(unique@.contains(s[0]));
            assert(unique@.len() >= 1) by {
                let j = choose|j: int| 0 <= j < unique@.len() && unique@[j] == s[0];
            }
            assert(all_points_valid(unique@)) by {
                assert forall|k: int|
                    0 <= k < unique@.len() implies (#[trigger] unique@[k]).valid() by {
                    assert(unique@.contains(unique@[k]));
                    let j = choose|j: int| 0 <= j < s.len() && s[j] == unique@[k];
                    assert(s[j].valid());
                }
            }
            assert forall|k: int| 0 <= k < unique@.len() implies in_closed_box(
                #[trigger] unique@[k],
                bb.min_spec(),
                bb.max_spec(),
            ) by {
                assert(unique@.contains(unique@[k]));
                assert(s.contains(unique@[k]));
            }
        }
        let bbmin = bb.min_p();
        let bbmax = bb.max_p();
        let n_unique = unique.len();
        let root = OcNode::new(bbmin, bbmax, unique);
        proof {
            assert(root.points().len() == n_unique);
        }
        proof {
            assert(root.points().to_set() =~= s.to_set()) by {
                assert forall|x: Point3D|
                    #[trigger] root.points().contains(x) <==> s.contains(x) by {
                    if root.points().contains(x) {
                        assert(root.points().to_set().contains(x));
                        assert(unique@.to_set().contains(x));
                        assert(unique@.contains(x));
                    }
                    if s.contains(x) {
                        assert(unique@.contains(x));
                        assert(unique@.to_set().contains(x));
                        assert(root.points().to_set().contains(x));
                    }
                }
            }
            unique@.unique_seq_to_set();
            assert(root.points().len() == s.to_set().len());
        }
        let tree = OcTree { root: Some(root), min: bbmin, max: bbmax };
        proof {
            assert(tree.points_seq() == root.points());
            assert(tree.wf());
            assert(tree.points_seq().no_duplicates());
            assert(tree.points_seq().to_set() == pc@.to_set());
            assert(tree.points_seq().len() == pc@.to_set().len());
        }
        Ok(tree)
    }

    /// Returns the number of stored, deduplicated points.
    pub fn size(&self) -> (r: usize)
        requires
            self.wf(),
        ensures
            r == self.points_seq().len(),
    {
        match &self.root {
            None => 0,
            Some(node) => node.size(),
        }
    }

    /// Collects the stored points down to a depth limit.
    ///
    /// A negative limit returns every point. Otherwise, any subtree hanging
    /// below the limit is collapsed into the single centroid of all its
    /// points, giving a level-of-detail view that never holds more points
    /// than the full collection.
    pub fn collect(&self, maxdepth: i8) -> (r: PointCloud3D)
        requires
            self.wf(),
        ensures
            r@ == self.collect_seq(maxdepth as int),
            maxdepth < 0 ==> r@ == self.points_seq(),
            r@.len() <= self.points_seq().len(),
    {
        let mut result = PointCloud3D::new();
        if let Some(node) = &self.root {
            let dec = maxdepth >= 0;
            let lv: i16 = if maxdepth >= 0 {
                maxdepth as i16
            } else {
                -1
            };
            node.collect(dec, lv, &mut result);
            proof {
                Seq::add_empty_left(Seq::<Point3D>::empty(), collect_spec(*node, dec, lv as int));
                if maxdepth < 0 {
                    lemma_collect_all(*node, -1);
                } else {
                    lemma_decimation_len(*node, maxdepth as int);
                }
            }
        }
        result
    }

    /// Returns every stored point as a point cloud.
    pub fn to_pointcloud(&self) -> (r: PointCloud3D)
        requires
            self.wf(),
        ensures
            r@ == self.points_seq(),
    {
        self.collect(-1)
    }
}

/// The centroid of a single point is that point itself.
proof fn lemma_centroid_singleton(p: Point3D)
    ensures
        centroid(seq![p]) == p,
{
    let s = seq![p];
    assert(s.drop_last() =~= Seq::<Point3D>::empty());
    assert(s.last() == p);
    assert(crate::point_cloud_3d::sum_x(Seq::<Point3D>::empty()) == 0);
    assert(crate::point_cloud_3d::sum_y(Seq::<Point3D>::empty()) == 0);
    assert(crate::point_cloud_3d::sum_z(Seq::<Point3D>::empty()) == 0);
    assert(crate::point_cloud_3d::sum_x(s) == p.x);
    assert(crate::point_cloud_3d::sum_y(s) == p.y);
    assert(crate::point_cloud_3d::sum_z(s) == p.z);
    assert(p.x as int / 1int == p.x);
    assert(p.y as int / 1int == p.y);
    assert(p.z as int / 1int == p.z);
}

/// On a shallow subtree, decimation changes nothing: every collapse hits a
/// single leaf, whose centroid is its own point.
proof fn lemma_shallow_collect_exact(n: OcNode, levels: int)
    requires
        n.wf(),
        shallow(n, levels),
    ensures
        collect_spec(n, true, levels) == n.points(),
    decreases n,
{
    match n {
        OcNode::Leaf(p) => {
        },
        OcNode::Node(i) => {
            let collapse = levels < 0;
            let nl = next_level(levels);
            lemma_opt_shallow_collect_exact(i.ppp, collapse, nl);
            lemma_opt_shallow_collect_exact(i.ppn, collapse, nl);
            lemma_opt_shallow_collect_exact(i.pnp, collapse, nl);
            lemma_opt_shallow_collect_exact(i.pnn, collapse, nl);
            lemma_opt_shallow_collect_exact(i.npp, collapse, nl);
            lemma_opt_shallow_collect_exact(i.npn, collapse, nl);
            lemma_opt_shallow_collect_exact(i.nnp, collapse, nl);
            lemma_opt_shallow_collect_exact(i.nnn, collapse, nl);
        },
    }
}

/// The per-child step of the shallow-exactness argument.
proof fn lemma_opt_shallow_collect_exact(o: Option<Box<OcNode>>, collapse: bool, levels: int)
    requires
        opt_wf(o),
        opt_shallow(o, collapse, levels),
    ensures
        opt_collect(o, collapse, true, levels) == opt_points(o),
    decreases o,
{
    match o {
        None => {
        },
        Some(c) => {
            if collapse {
                match *c {
                    OcNode::Leaf(p) => {
                        lemma_centroid_singleton(p);
                        assert(opt_collect(o, collapse, true, levels) =~= opt_points(o));
                    },
                    OcNode::Node(ci) => {
                    },
                }
            } else {
                lemma_shallow_collect_exact(*c, levels);
            }
        },
    }
}

/// Decimating to a non-negative depth limit never yields more points than
/// the full collection, and yields exactly as many if and only if the tree
/// is shallow enough that no collection pass collapses more than one point.
pub proof fn lemma_decimation_exact(tree: OcTree, maxdepth: int)
    requires
        tree.wf(),
        0 <= maxdepth,
    ensures
        tree.collect_seq(maxdepth).len() <= tree.points_seq().len(),
        tree.collect_seq(maxdepth).len() == tree.points_seq().len() <==> tree.shallow_to(maxdepth),
        tree.shallow_to(maxdepth) ==> tree.collect_seq(maxdepth) == tree.points_seq(),
{
    match tree.root {
        None => {
        },
        Some(n) => {
            lemma_decimation_len(n, maxdepth);
            if shallow(n, maxdepth) {
                lemma_shallow_collect_exact(n, maxdepth);
            }
        },
    }
}

} // verus!

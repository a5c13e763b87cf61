use rust_3d::aa_bb_tree_2d::AABBTree2D;
use rust_3d::bounding_box_2d::BoundingBox2D;
use rust_3d::oc_tree::OcTree;
use rust_3d::point_2d::Point2D;
use rust_3d::point_3d::Point3D;
use rust_3d::point_cloud_3d::PointCloud3D;
use rust_3d::result::ErrorKind;

fn bb2(minx: i64, miny: i64, maxx: i64, maxy: i64) -> BoundingBox2D {
    BoundingBox2D::new(&Point2D::new(minx, miny), &Point2D::new(maxx, maxy)).unwrap()
}

fn cloud(points: &[(i64, i64, i64)]) -> PointCloud3D {
    let mut pc = PointCloud3D::new();
    for &(x, y, z) in points {
        pc.push(Point3D::new(x, y, z));
    }
    pc
}

fn sample_boxes() -> Vec<BoundingBox2D> {
    vec![
        bb2(0, 0, 2, 2),
        bb2(1, 1, 3, 3),
        bb2(10, 10, 12, 12),
        bb2(-5, -5, -1, -1),
        bb2(-2, -2, 11, 11),
        bb2(4, 0, 6, 2),
        bb2(0, 4, 2, 6),
    ]
}

#[test]
fn aabb_tree_collision_matches_brute_force() {
    let data = sample_boxes();
    let tree = AABBTree2D::new(data.clone(), 8, 1);
    for query in [
        bb2(0, 0, 1, 1),
        bb2(-6, -6, 13, 13),
        bb2(100, 100, 101, 101),
        bb2(2, 2, 5, 5),
    ] {
        let got = tree.bb_colliding(&query);
        let expected: Vec<BoundingBox2D> = data
            .iter()
            .copied()
            .filter(|b| b.collides_with(&query))
            .collect();
        for b in &got {
            assert!(expected.contains(b));
        }
        for b in &expected {
            assert!(got.contains(b));
        }
    }
}

#[test]
fn aabb_tree_crossing_matches_brute_force() {
    let data = sample_boxes();
    let tree = AABBTree2D::new(data.clone(), 8, 1);
    for v in [-3, 0, 1, 5, 11, 50] {
        let got_x = tree.bb_crossing_x_value(v);
        let expected_x: Vec<BoundingBox2D> = data
            .iter()
            .copied()
            .filter(|b| b.crossing_x_value(v))
            .collect();
        for b in &got_x {
            assert!(expected_x.contains(b));
        }
        for b in &expected_x {
            assert!(got_x.contains(b));
        }
        let got_y = tree.bb_crossing_y_value(v);
        let expected_y: Vec<BoundingBox2D> = data
            .iter()
            .copied()
            .filter(|b| b.crossing_y_value(v))
            .collect();
        for b in &got_y {
            assert!(expected_y.contains(b));
        }
        for b in &expected_y {
            assert!(got_y.contains(b));
        }
    }
}

#[test]
fn aabb_tree_zero_depth_never_branches() {
    let tree = AABBTree2D::new(sample_boxes(), 0, 1);
    assert!(matches!(tree, AABBTree2D::Leaf(_)));
    let empty = AABBTree2D::<BoundingBox2D>::new(Vec::new(), 0, 1);
    assert!(matches!(empty, AABBTree2D::Empty));
    // a zero-depth tree still answers queries exactly
    let q = bb2(1, 1, 2, 2);
    let got = tree.bb_colliding(&q);
    let expected: Vec<BoundingBox2D> = sample_boxes()
        .iter()
        .copied()
        .filter(|b| b.collides_with(&q))
        .collect();
    assert_eq!(got.len(), expected.len());
    for b in &expected {
        assert!(got.contains(b));
    }
}

#[test]
fn aabb_tree_empty_build_answers_nothing() {
    let tree = AABBTree2D::<BoundingBox2D>::new(Vec::new(), 4, 2);
    assert!(tree.bb_colliding(&bb2(0, 0, 1, 1)).is_empty());
    assert!(tree.bb_crossing_x_value(0).is_empty());
    assert!(tree.bb_crossing_y_value(0).is_empty());
}

#[test]
fn octree_deduplicates_points() {
    let tree = OcTree::build(cloud(&[(0, 0, 0), (0, 0, 0), (1, 1, 1)])).unwrap();
    assert_eq!(tree.size(), 2);
    let tree2 = OcTree::build(cloud(&[
        (0, 0, 0),
        (0, 0, 0),
        (1, 1, 1),
        (1, 1, 1),
        (2, 3, 4),
    ]))
    .unwrap();
    assert_eq!(tree2.size(), 3);
}

#[test]
fn octree_build_rejects_degenerate_input() {
    assert_eq!(OcTree::build(cloud(&[])), Err(ErrorKind::TooFewPoints));
    assert_eq!(
        OcTree::build(cloud(&[(1, 2, 3)])),
        Err(ErrorKind::TooFewPoints)
    );
    // all duplicates of one point span no box
    assert_eq!(
        OcTree::build(cloud(&[(5, 5, 5), (5, 5, 5), (5, 5, 5)])),
        Err(ErrorKind::MinMaxEqual)
    );
    // a flat cloud spans no box either
    assert_eq!(
        OcTree::build(cloud(&[(0, 0, 2), (1, 1, 2)])),
        Err(ErrorKind::MinMaxEqual)
    );
}

#[test]
fn octree_full_collect_round_trips() {
    let input = [(0, 0, 0), (1, 1, 1), (3, 3, 3), (8, 8, 8), (1, 1, 1)];
    let tree = OcTree::build(cloud(&input)).unwrap();
    assert_eq!(tree.size(), 4);
    let all = tree.collect(-1);
    assert_eq!(all.len(), 4);
    for &(x, y, z) in &input {
        assert!(all.data.contains(&Point3D::new(x, y, z)));
    }
    // every collected point came from the input
    for p in &all.data {
        assert!(input.contains(&(p.x(), p.y(), p.z())));
    }
    let same = tree.to_pointcloud();
    assert_eq!(all, same);
}

#[test]
fn octree_collect_order_is_octant_order() {
    let tree = OcTree::build(cloud(&[(0, 0, 0), (1, 1, 1), (3, 3, 3), (8, 8, 8)])).unwrap();
    let all = tree.collect(-1);
    assert_eq!(
        all.data,
        vec![
            Point3D::new(8, 8, 8),
            Point3D::new(3, 3, 3),
            Point3D::new(1, 1, 1),
            Point3D::new(0, 0, 0),
        ]
    );
}

#[test]
fn octree_decimation_shrinks_or_preserves_count() {
    let tree = OcTree::build(cloud(&[(0, 0, 0), (1, 1, 1), (3, 3, 3), (8, 8, 8)])).unwrap();
    let full = tree.collect(-1);
    for d in 0..4 {
        let dec = tree.collect(d);
        assert!(dec.len() <= full.len());
    }
    // at depth zero the deepest pair collapses into its centroid
    let dec0 = tree.collect(0);
    assert_eq!(
        dec0.data,
        vec![
            Point3D::new(8, 8, 8),
            Point3D::new(3, 3, 3),
            Point3D::new(0, 0, 0),
        ]
    );
    // one level deeper nothing collapses more than one point
    let dec1 = tree.collect(1);
    assert_eq!(dec1.len(), full.len());
}

#[test]
fn octree_boundary_points_are_kept() {
    // the extreme points of the cloud lie on the root box's boundary and
    // must still be stored and returned
    let tree = OcTree::build(cloud(&[(0, 0, 0), (4, 4, 4), (2, 2, 2)])).unwrap();
    assert_eq!(tree.size(), 3);
    let all = tree.collect(-1);
    assert!(all.data.contains(&Point3D::new(0, 0, 0)));
    assert!(all.data.contains(&Point3D::new(4, 4, 4)));
    assert!(all.data.contains(&Point3D::new(2, 2, 2)));
}

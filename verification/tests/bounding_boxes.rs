use rust_3d::bounding_box_2d::BoundingBox2D;
use rust_3d::bounding_box_3d::BoundingBox3D;
use rust_3d::point_2d::Point2D;
use rust_3d::point_3d::Point3D;
use rust_3d::result::ErrorKind;

fn bb2(minx: i64, miny: i64, maxx: i64, maxy: i64) -> BoundingBox2D {
    BoundingBox2D::new(&Point2D::new(minx, miny), &Point2D::new(maxx, maxy)).unwrap()
}

fn bb3(min: (i64, i64, i64), max: (i64, i64, i64)) -> BoundingBox3D {
    BoundingBox3D::new(
        &Point3D::new(min.0, min.1, min.2),
        &Point3D::new(max.0, max.1, max.2),
    )
    .unwrap()
}

#[test]
fn new_rejects_equal_and_swapped() {
    let a = Point2D::new(0, 0);
    assert_eq!(
        BoundingBox2D::new(&a, &Point2D::new(0, 5)),
        Err(ErrorKind::MinMaxEqual)
    );
    assert_eq!(
        BoundingBox2D::new(&Point2D::new(2, 2), &Point2D::new(1, 3)),
        Err(ErrorKind::MinMaxSwapped)
    );
    assert_eq!(
        BoundingBox3D::new(&Point3D::new(0, 0, 0), &Point3D::new(1, 1, 0)),
        Err(ErrorKind::MinMaxEqual)
    );
    assert_eq!(
        BoundingBox3D::new(&Point3D::new(0, 0, 5), &Point3D::new(1, 1, 2)),
        Err(ErrorKind::MinMaxSwapped)
    );
    assert!(BoundingBox2D::new(&a, &Point2D::new(1, 1)).is_ok());
}

#[test]
fn sizes_of_valid_boxes_are_positive() {
    let b = bb2(0, 0, 2, 3);
    assert_eq!(b.size_x(), 2);
    assert_eq!(b.size_y(), 3);
    assert_eq!(b.sizes(), [2, 3]);
    assert!(b.size_x() > 0 && b.size_y() > 0);
    let c = bb3((-1, -2, -3), (1, 2, 3));
    assert_eq!(c.sizes(), [2, 4, 6]);
    assert!(c.size_x() > 0 && c.size_y() > 0 && c.size_z() > 0);
}

#[test]
fn from_iterator_accumulates_extrema() {
    let pts = vec![
        Point2D::new(4, -1),
        Point2D::new(0, 7),
        Point2D::new(-2, 3),
    ];
    let b = BoundingBox2D::from_iterator(&pts).unwrap();
    assert_eq!(b.min_p(), Point2D::new(-2, -1));
    assert_eq!(b.max_p(), Point2D::new(4, 7));
    let c = BoundingBox2D::from_into_iterator(pts).unwrap();
    assert_eq!(b, c);
}

#[test]
fn from_iterator_rejects_degenerate_input() {
    assert_eq!(
        BoundingBox2D::from_iterator(&vec![Point2D::new(1, 1)]),
        Err(ErrorKind::TooFewPoints)
    );
    assert_eq!(
        BoundingBox2D::from_iterator(&vec![Point2D::new(1, 0), Point2D::new(1, 5)]),
        Err(ErrorKind::MinMaxEqual)
    );
    assert_eq!(
        BoundingBox3D::from_iterator(&Vec::new()),
        Err(ErrorKind::TooFewPoints)
    );
    let flat = vec![Point3D::new(0, 0, 2), Point3D::new(1, 1, 2)];
    assert_eq!(
        BoundingBox3D::from_into_iterator(flat),
        Err(ErrorKind::MinMaxEqual)
    );
}

#[test]
fn merge_is_commutative_and_idempotent() {
    let a = bb2(0, 0, 2, 2);
    let b = bb2(-3, 1, 1, 5);
    assert_eq!(a.combine(&b), b.combine(&a));
    assert_eq!(a.combine(&a), a);
    let m = a.combine(&b);
    assert_eq!(m.min_p(), Point2D::new(-3, 0));
    assert_eq!(m.max_p(), Point2D::new(2, 5));
    let a3 = bb3((0, 0, 0), (2, 2, 2));
    let b3 = bb3((-1, 1, -4), (5, 3, 1));
    assert_eq!(a3.combine(&b3), b3.combine(&a3));
    assert_eq!(a3.combine(&a3), a3);
}

#[test]
fn merge_never_shrinks() {
    let a = bb2(0, 0, 2, 2);
    let b = bb2(-3, 1, 1, 5);
    let m = a.combine(&b);
    assert!(m.min_p().x() <= a.min_p().x() && m.max_p().x() >= a.max_p().x());
    assert!(m.min_p().y() <= b.min_p().y() && m.max_p().y() >= b.max_p().y());
    let mut c = a;
    c.consume(b);
    assert_eq!(c, m);
}

#[test]
fn collision_is_symmetric() {
    let a = bb2(0, 0, 2, 2);
    let b = bb2(1, 1, 3, 3);
    let c = bb2(10, 10, 11, 11);
    assert_eq!(a.collides_with(&b), b.collides_with(&a));
    assert_eq!(a.collides_with(&c), c.collides_with(&a));
}

#[test]
fn collision_examples() {
    // overlapping boxes collide; boxes that only touch at a corner do not
    let a = bb2(0, 0, 2, 2);
    let b = bb2(1, 1, 3, 3);
    assert!(a.collides_with(&b));
    let c = bb2(0, 0, 1, 1);
    let d = bb2(1, 1, 2, 2);
    assert!(!c.collides_with(&d));
    let a3 = bb3((0, 0, 0), (2, 2, 2));
    let b3 = bb3((1, 1, 1), (3, 3, 3));
    assert!(a3.collides_with(&b3));
    let c3 = bb3((2, 0, 0), (4, 2, 2));
    assert!(!a3.collides_with(&c3));
}

#[test]
fn boundary_points_are_excluded() {
    let b = bb2(0, 0, 2, 2);
    assert!(b.contains(&Point2D::new(1, 1)));
    assert!(!b.contains(&Point2D::new(0, 1)));
    assert!(!b.contains(&Point2D::new(2, 2)));
    assert!(!b.crossing_x_value(0));
    assert!(!b.crossing_x_value(2));
    assert!(b.crossing_x_value(1));
    assert!(!b.crossing_y_value(0));
    assert!(b.crossing_y_value(1));
    let b3 = bb3((0, 0, 0), (2, 2, 2));
    assert!(b3.contains(&Point3D::new(1, 1, 1)));
    assert!(!b3.contains(&Point3D::new(1, 1, 2)));
    assert!(!b3.crossing_z_value(2));
    assert!(b3.crossing_z_value(1));
}

#[test]
fn strict_box_containment() {
    let outer = bb2(0, 0, 10, 10);
    let inner = bb2(1, 1, 9, 9);
    let touching = bb2(0, 1, 9, 9);
    assert!(inner.is_inside(&outer));
    assert!(outer.has_inside(&inner));
    assert!(!touching.is_inside(&outer));
    assert!(!outer.has_inside(&touching));
    let o3 = bb3((0, 0, 0), (10, 10, 10));
    let i3 = bb3((1, 1, 1), (9, 9, 9));
    assert!(i3.is_inside(&o3));
    assert!(o3.has_inside(&i3));
    assert!(!o3.is_inside(&i3));
}

#[test]
fn center_rounds_towards_minimum() {
    assert_eq!(bb2(0, 0, 2, 2).center_bb(), Point2D::new(1, 1));
    assert_eq!(bb2(0, 0, 3, 5).center_bb(), Point2D::new(1, 2));
    assert_eq!(bb3((0, 0, 0), (4, 4, 4)).center_bb(), Point3D::new(2, 2, 2));
}

#[test]
fn corner_points() {
    let b = bb2(0, 0, 2, 3);
    assert_eq!(
        b.corners(),
        [
            Point2D::new(0, 0),
            Point2D::new(0, 3),
            Point2D::new(2, 0),
            Point2D::new(2, 3),
        ]
    );
    let c = bb3((0, 0, 0), (1, 2, 3));
    let cs = c.corners();
    assert_eq!(cs[0], Point3D::new(0, 0, 0));
    assert_eq!(cs[7], Point3D::new(1, 2, 3));
    assert_eq!(cs.len(), 8);
}

#[test]
fn distances_to_points_and_boxes() {
    let b = bb2(0, 0, 2, 2);
    assert_eq!(b.sqr_distance(&Point2D::new(5, 6)), 25);
    assert_eq!(b.distance(&Point2D::new(5, 6)), 5);
    assert_eq!(b.sqr_distance(&Point2D::new(1, 1)), 0);
    assert_eq!(b.sqr_distance(&Point2D::new(2, 2)), 0);
    assert_eq!(b.distance(&Point2D::new(-1, 1)), 1);
    let other = bb2(3, 5, 4, 6);
    assert_eq!(b.sqr_distance_box(&other), 1 + 9);
    assert_eq!(b.sqr_distance_box(&bb2(1, 1, 5, 5)), 0);
    let b3 = bb3((0, 0, 0), (2, 2, 2));
    assert_eq!(b3.sqr_distance(&Point3D::new(3, 4, 2)), 1 + 4);
    assert_eq!(b3.distance(&Point3D::new(3, 4, 2)), 2);
    assert_eq!(b3.sqr_distance_box(&bb3((4, 0, 0), (5, 2, 2))), 4);
}

#[test]
fn move_by_shifts_both_corners() {
    let mut b = bb2(0, 0, 2, 3);
    b.move_by(5, -2);
    assert_eq!(b.min_p(), Point2D::new(5, -2));
    assert_eq!(b.max_p(), Point2D::new(7, 1));
    let mut c = bb3((0, 0, 0), (1, 1, 1));
    c.move_by(-1, 2, 3);
    assert_eq!(c.min_p(), Point3D::new(-1, 2, 3));
    assert_eq!(c.max_p(), Point3D::new(0, 3, 4));
}

#[test]
fn default_boxes_surround_origin() {
    let b = BoundingBox2D::default();
    assert_eq!(b.min_p(), Point2D::new(-1, -1));
    assert_eq!(b.max_p(), Point2D::new(1, 1));
    assert!(b.contains(&Point2D::new(0, 0)));
    let c = BoundingBox3D::default();
    assert_eq!(c.min_p(), Point3D::new(-1, -1, -1));
    assert_eq!(c.max_p(), Point3D::new(1, 1, 1));
    assert!(c.contains(&Point3D::new(0, 0, 0)));
}

use rust_3d::functions::isqrt;
use rust_3d::point_2d::Point2D;
use rust_3d::point_3d::Point3D;
use rust_3d::point_cloud_3d::PointCloud3D;
use rust_3d::result::ErrorKind;

#[test]
fn it_works() {
}

#[test]
fn point_accessors() {
    let p = Point2D::new(3, -4);
    assert_eq!(p.x(), 3);
    assert_eq!(p.y(), -4);
    let q = Point3D::new(1, 2, -3);
    assert_eq!(q.x(), 1);
    assert_eq!(q.y(), 2);
    assert_eq!(q.z(), -3);
}

#[test]
fn isqrt_exact_values() {
    assert_eq!(isqrt(0), 0);
    assert_eq!(isqrt(1), 1);
    assert_eq!(isqrt(10), 3);
    assert_eq!(isqrt(16), 4);
    assert_eq!(isqrt(24), 4);
    assert_eq!(isqrt(25), 5);
    assert_eq!(isqrt(u64::MAX), 4294967295);
}

#[test]
fn point_cloud_push_and_len() {
    let mut pc = PointCloud3D::new();
    assert_eq!(pc.len(), 0);
    pc.push(Point3D::new(1, 2, 3));
    pc.push(Point3D::new(4, 5, 6));
    assert_eq!(pc.len(), 2);
    assert_eq!(pc.data[0], Point3D::new(1, 2, 3));
    assert_eq!(pc.data[1], Point3D::new(4, 5, 6));
}

#[test]
fn center_of_gravity_empty_fails() {
    let pc = PointCloud3D::new();
    assert_eq!(pc.center_of_gravity(), Err(ErrorKind::TooFewPoints));
}

#[test]
fn center_of_gravity_exact_mean() {
    let mut pc = PointCloud3D::new();
    pc.push(Point3D::new(0, 0, 0));
    pc.push(Point3D::new(1, 1, 1));
    pc.push(Point3D::new(2, 2, 2));
    assert_eq!(pc.center_of_gravity(), Ok(Point3D::new(1, 1, 1)));
}

#[test]
fn center_of_gravity_rounds_towards_negative_infinity() {
    let mut pc = PointCloud3D::new();
    pc.push(Point3D::new(-3, 0, 3));
    pc.push(Point3D::new(0, 1, 0));
    // means are -1.5, 0.5 and 1.5; the floor is taken per axis
    assert_eq!(pc.center_of_gravity(), Ok(Point3D::new(-2, 0, 1)));
}

#[test]
fn point_cloud_bounding_box() {
    let mut pc = PointCloud3D::new();
    assert_eq!(pc.bounding_box(), Err(ErrorKind::TooFewPoints));
    pc.push(Point3D::new(4, -1, 2));
    assert_eq!(pc.bounding_box(), Err(ErrorKind::TooFewPoints));
    pc.push(Point3D::new(0, 7, 5));
    pc.push(Point3D::new(-2, 3, 3));
    let bb = pc.bounding_box().unwrap();
    assert_eq!(bb.min_p(), Point3D::new(-2, -1, 2));
    assert_eq!(bb.max_p(), Point3D::new(4, 7, 5));
}

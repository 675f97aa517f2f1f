//! Point primitive tests.

use picocadrs::assets::{Point2D, Point3D};

#[test]
fn test_uv_new() {
    let point: Point2D<i64> = Point2D::new(2, 4);

    assert_eq!(point.u, 2);
    assert_eq!(point.v, 4);
}

#[test]
fn test_uv_set() {
    let mut point: Point2D<i64> = Point2D::new(2, 4);

    assert_eq!(point.u, 2);
    assert_eq!(point.v, 4);

    point.set(3, 4);

    assert_eq!(point.u, 3);
    assert_eq!(point.v, 4);
}

#[test]
fn test_uv_add() {
    let p1: Point2D<i64> = Point2D::new(1, 4);
    let p2: Point2D<i64> = Point2D::new(2, 1);

    assert_eq!(p1.add(p2), Point2D::new(3, 5));
}

#[test]
fn test_uv_sub() {
    let p1: Point2D<i64> = Point2D::new(1, 4);
    let p2: Point2D<i64> = Point2D::new(2, 1);

    assert_eq!(p1.sub(p2), Point2D::new(-1, 3));
}

#[test]
fn test_uv_macro() {
    assert_eq!(Point2D { u: 2, v: 3 }, Point2D::new(2, 3));
    assert_eq!(Point2D { u: 4, v: -3 }, Point2D::new(4, -3));
}

#[test]
fn test_uv_map() {
    let mut point: Point2D<i64> = Point2D::new(2, 3);

    assert_eq!(point, Point2D { u: 2, v: 3 });
    point.map(|v| v * 2);
    assert_eq!(point, Point2D { u: 4, v: 6 });
}

#[test]
fn test_xyz_new() {
    let point: Point3D<i64> = Point3D::new(2, 4, -1);

    assert_eq!(point.x, 2);
    assert_eq!(point.y, 4);
    assert_eq!(point.z, -1);
}

#[test]
fn test_xyz_set() {
    let mut point: Point3D<i64> = Point3D::new(2, 4, -1);

    assert_eq!(point.x, 2);
    assert_eq!(point.y, 4);
    assert_eq!(point.z, -1);

    point.set(-3, 4, 2);

    assert_eq!(point.x, -3);
    assert_eq!(point.y, 4);
    assert_eq!(point.z, 2);
}

#[test]
fn test_xyz_add() {
    let p1: Point3D<i64> = Point3D::new(1, 4, -2);
    let p2: Point3D<i64> = Point3D::new(2, -2, 3);

    assert_eq!(p1.add(p2), Point3D::new(3, 2, 1));
}

#[test]
fn test_xyz_sub() {
    let p1: Point3D<i64> = Point3D::new(1, 4, 2);
    let p2: Point3D<i64> = Point3D::new(2, 1, -4);

    assert_eq!(p1.sub(p2), Point3D::new(-1, 3, 6));
}

#[test]
fn test_xyz_macro() {
    assert_eq!(Point3D { x: 2, y: 3, z: -1 }, Point3D::new(2, 3, -1));
    assert_eq!(Point3D { x: 4, y: -3, z: 0 }, Point3D::new(4, -3, 0));
}

#[test]
fn test_xyz_map() {
    let mut point: Point3D<i64> = Point3D::new(2, 3, -1);

    assert_eq!(point, Point3D::new(2, 3, -1));
    point.map(|c| c * 2);
    assert_eq!(point, Point3D::new(4, 6, -2));
}

#[test]
fn test_uv_tostring() {
    let p: Point2D<i64> = Point2D::new(20000, 40000);

    assert_eq!("2,4", p.serialize());
}

#[test]
fn test_uv_parsing() {
    assert_eq!(
        "-1.5,2.2",
        Point2D::parse("{-1.5,2.2}").unwrap().serialize()
    )
}

#[test]
fn test_xyz_tostring() {
    let point: Point3D<i64> = Point3D::new(20000, 30000, -10000);

    assert_eq!("2,3,-1", point.serialize());
}

#[test]
fn test_xyz_parsing() {
    assert_eq!(
        "0,-1.5,2.2",
        Point3D::parse("{0,-1.5,2.2}").unwrap().serialize()
    )
}

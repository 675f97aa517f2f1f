//! Edge equality tests.

use picocadrs::assets::{Edge, Point3D};

#[test]
fn test_eq() {
    let e = Edge::new(Point3D::new(0, 10000, 10000), Point3D::new(10000, 10000, 0));
    let f = Edge::new(Point3D::new(10000, 10000, 0), Point3D::new(0, 10000, 10000));

    assert_eq!(e, f);
}

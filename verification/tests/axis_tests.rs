//! Axis conversion tests.

use picocadrs::axis::Axis;

#[test]
fn test_axis_convertion() {
    assert_eq!(Axis::U, Axis::X.into_uv().unwrap());
    assert_eq!(Axis::V, Axis::Y.into_uv().unwrap());
    assert_eq!(None, Axis::Z.into_uv());

    assert_eq!(Axis::X, Axis::U.into_xyz());
    assert_eq!(Axis::Y, Axis::V.into_xyz());
}

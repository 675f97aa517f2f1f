//! Face codec and geometry tests.

use picocadrs::assets::{Color, Face, Point2D, Point3D, UVMap};
use picocadrs::error::PicoError;

#[test]
fn test_uvmap_new() {
    let map = UVMap::new(2, Point2D::new(20000, 35000));

    assert_eq!(map.vertex_index, 2);
    assert_eq!(map.coords.u, 20000);
    assert_eq!(map.coords.v, 35000);
}

#[test]
fn test_face_default() {
    let face = Face::default();

    assert!(!face.double_sided);
    assert!(!face.no_shading);
    assert!(!face.render_priority);
    assert!(!face.no_texture);
    assert!(face.uv_maps.is_empty());
    assert_eq!(face.color, Color::Black);
}

#[test]
fn test_face_display() {
    let mut face = Face::default();

    face.uv_maps.push(UVMap::new(0, Point2D::new(20000, 35000)));
    face.uv_maps.push(UVMap::new(2, Point2D::new(10000, 35000)));
    face.uv_maps.push(UVMap::new(1, Point2D::new(15000, 20000)));
    face.no_texture = true;

    assert_eq!(
        face.serialize(),
        "{1,3,2, c=0, notex=1, uv={2,3.5,1,3.5,1.5,2} }"
    )
}

#[test]
fn test_face_parse() {
    assert_eq!(
        "{1,3,2, c=0, notex=1, uv={2,3.5,1,3.5,1.5,2} }",
        Face::parse("{1,3,2, c=0, notex=1, uv={2,3.5,1,3.5,1.5,2} }")
            .unwrap()
            .serialize()
    );

    let face = Face::parse(
        "{4,3,2,1, c=10, dbl=1, noshade=1, notex=1, prio=1, uv={16.25,0,1.25,0,15.5,2,-0.75,2} }",
    )
    .unwrap();

    assert_eq!(face.color, Color::from(10));
    assert!(face.double_sided);
    assert!(face.no_shading);
    assert!(face.no_texture);
    assert!(face.render_priority);
    assert_eq!(face.uv_maps[1], UVMap::new(2, Point2D::new(12500, 0)));
}

#[test]
fn test_edges() {
    let face = Face::parse(
        "{4,3,2,1, c=10, dbl=1, noshade=1, notex=1, prio=1, uv={16.25,0,1.25,0,15.5,2,-0.75,2} }",
    )
    .unwrap();

    let edges = face.edges(&vec![
        Point3D::new(0, 10000, 0),
        Point3D::new(0, 0, 0),
        Point3D::new(10000, 0, 0),
        Point3D::new(10000, 10000, 0),
    ]);
    assert_eq!(edges.len(), 4);
}

#[test]
fn face_uv_index_conversion() {
    // A face literal with 1-based indices 4,3,2,1 decodes to 0-based
    // indices 3,2,1,0 in that order, and serializes back 1-based.
    let face = Face::parse("{4,3,2,1, c=10, uv={0,0,1,0,1,1,0,1}}").unwrap();

    let indices: Vec<usize> = face.uv_maps.iter().map(|m| m.vertex_index).collect();
    assert_eq!(indices, vec![3, 2, 1, 0]);
    assert_eq!(face.color.as_i32(), 10);
    assert_eq!(face.serialize(), "{4,3,2,1, c=10, uv={0,0,1,0,1,1,0,1} }");
}

#[test]
fn face_uv_length_mismatch() {
    // Three vertex indices demand six UV values; four is an error that
    // reports both counts.
    let err = Face::parse("{1,2,3, c=0, uv={0,0,1,0} }").unwrap_err();
    assert!(matches!(err, PicoError::FaceUVMapLength(3, 4)));
}

#[test]
fn face_vertices_skips_unresolvable() {
    let face = Face::parse("{1,9,2, c=0, uv={0,0,0,0,0,0} }").unwrap();
    let verts = face.vertices(&vec![Point3D::new(1, 2, 3), Point3D::new(4, 5, 6)]);
    assert_eq!(verts, vec![Point3D::new(1, 2, 3), Point3D::new(4, 5, 6)]);
}

#[test]
fn face_uv_length_mismatch_message() {
    let err = Face::parse("{1,2,3, c=0, uv={0,0,1,0} }").unwrap_err();
    assert_eq!(err.message(), "found 3 uv-coordinates (expected 4)");
}

#[test]
fn face_edges_empty_below_two_resolved() {
    // Two references, only one of which resolves: fewer than two resolved
    // points give no edges at all, not a degenerate self-edge.
    let face = Face::parse("{1,9, c=0, uv={0,0,0,0} }").unwrap();
    let edges = face.edges(&vec![Point3D::new(0, 0, 0)]);
    assert!(edges.is_empty());
}

#[test]
fn face_edges_skip_leading_unresolvable() {
    // An unresolvable first reference is skipped like any other; the two
    // later points still form their edges.
    let face = Face::parse("{9,1,2, c=0, uv={0,0,0,0,0,0} }").unwrap();
    let a = Point3D::new(0, 0, 0);
    let b = Point3D::new(10000, 0, 0);
    let edges = face.edges(&vec![a, b]);
    assert_eq!(edges.len(), 2);
    assert_eq!(edges[0], picocadrs::assets::Edge::new(a, b));
    assert_eq!(edges[1], picocadrs::assets::Edge::new(b, a));
}

#[test]
fn face_edges_no_degenerate_closing() {
    // A walk that returns to its first point gets no closing self-edge.
    let face = Face::parse("{1,2,1, c=0, uv={0,0,0,0,0,0} }").unwrap();
    let a = Point3D::new(0, 0, 0);
    let b = Point3D::new(10000, 0, 0);
    let edges = face.edges(&vec![a, b]);
    assert_eq!(edges.len(), 2);
    assert!(edges.iter().all(|e| e.start != e.end));
}

#[test]
fn deeply_nested_literal_is_rejected() {
    // The tree conversion is depth-bounded: a literal nested past the
    // bound is a clean error, not an exhausted stack.
    let mut text = String::new();
    for _ in 0..24 {
        text.push('{');
    }
    text.push('1');
    for _ in 0..24 {
        text.push('}');
    }
    let err = Face::parse(&text).unwrap_err();
    assert!(matches!(err, PicoError::Lua(m) if m == "table literal nests too deeply"));
}

#[test]
fn cyclic_table_is_rejected() {
    // A chunk returning a table that contains itself has unbounded depth;
    // the bounded conversion reports it instead of recursing forever.
    let err = Face::parse("local t = {} t[1] = t return t").unwrap_err();
    assert!(matches!(err, PicoError::Lua(m) if m == "table literal nests too deeply"));
}

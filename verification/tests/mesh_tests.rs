//! Mesh codec, rotation and edge aggregation tests.

use picocadrs::assets::{Face, Mesh, Point3D, Rotation, UVMap, Point2D};

#[test]
fn test_rot_round() {
    let mut rot = Rotation(Point3D::new(2423, 9999, 3400));
    rot.round();

    assert_eq!(rot, Rotation(Point3D::new(2420, 10000, 3400)));
}

#[test]
fn test_rot_normalize() {
    let mut rot = Rotation(Point3D::new(22400, -12100, 3400));
    rot.normalize();
    rot.round();

    assert_eq!(rot, Rotation(Point3D::new(2400, 7900, 3400)));
}

#[test]
fn test_rot_equal_rotation() {
    let mut rot = Rotation(Point3D::new(9999, 10000, 0));
    rot.normalize();
    rot.round();

    assert_eq!(rot, Rotation(Point3D::new(10000, 0, 0)));

    let mut rot = Rotation(Point3D::new(9999, 10000, 0));
    rot.round();
    rot.normalize();
    rot.round();

    assert_eq!(rot, Rotation(Point3D::new(0, 0, 0)));

    assert!(rot.equal_rotation(&Rotation(Point3D::new(0, 0, 0))));
}

#[test]
fn rotation_order_dependence() {
    // Normalizing before rounding and rounding before normalizing give
    // different canonical values for 0.9999 turns; both must hold.
    let mut a = Rotation(Point3D::new(9999, 10000, 0));
    a.normalize();
    a.round();
    assert_eq!(a, Rotation(Point3D::new(10000, 0, 0)));

    let mut b = Rotation(Point3D::new(9999, 10000, 0));
    b.round();
    b.normalize();
    b.round();
    assert_eq!(b, Rotation(Point3D::new(0, 0, 0)));

    assert!(a.equal_rotation(&b));
}

#[test]
fn test_mesh_new() {
    let mesh = Mesh::new("my_mesh".to_string());

    assert_eq!(mesh.name, "my_mesh");
    assert_eq!(mesh.position, Point3D::new(0, 0, 0));
    assert_eq!(mesh.rotation.0, Point3D::new(0, 0, 0));
    assert!(mesh.faces.is_empty());
    assert!(mesh.vertices.is_empty());
}

#[test]
fn test_mesh_parse() {
    assert_eq!(TEST_MESH, Mesh::parse(TEST_MESH).unwrap().serialize());
}

#[test]
fn test_mesh_edges() {
    let mesh = Mesh::parse(TEST_MESH).unwrap();

    assert_eq!(mesh.edges().len(), 12);
}

#[test]
fn mesh_shared_edge_appears_once() {
    // Two adjacent faces traverse their shared edge in opposite
    // directions; the mesh reports it once.
    let mut mesh = Mesh::new("pair".to_string());
    mesh.vertices = vec![
        Point3D::new(0, 0, 0),
        Point3D::new(10000, 0, 0),
        Point3D::new(0, 10000, 0),
        Point3D::new(10000, 10000, 0),
    ];
    let mut f1 = Face::default();
    f1.uv_maps = vec![
        UVMap::new(0, Point2D::new(0, 0)),
        UVMap::new(1, Point2D::new(0, 0)),
        UVMap::new(2, Point2D::new(0, 0)),
    ];
    let mut f2 = Face::default();
    f2.uv_maps = vec![
        UVMap::new(2, Point2D::new(0, 0)),
        UVMap::new(1, Point2D::new(0, 0)),
        UVMap::new(3, Point2D::new(0, 0)),
    ];
    mesh.faces = vec![f1, f2];

    let edges = mesh.edges();
    assert_eq!(edges.len(), 5);
    let shared = picocadrs::assets::Edge::new(Point3D::new(10000, 0, 0), Point3D::new(0, 10000, 0));
    let count = edges.iter().filter(|e| **e == shared).count();
    assert_eq!(count, 1);
}

#[test]
fn mesh_missing_name_gets_placeholder() {
    let mesh = Mesh::parse("{ pos={1,2,3} }").unwrap();
    assert_eq!(mesh.name, "object");
    assert_eq!(mesh.position, Point3D::new(10000, 20000, 30000));
}

const TEST_MESH: &str = r#"{
 name='cube', pos={0,0,0}, rot={0,-0.5,0},
 v={
  {-0.5,-0.5,-0.5},
  {0.5,-0.5,-0.5},
  {0.5,0.5,-0.5},
  {-0.5,0.5,-0.5},
  {-0.5,-0.5,0.5},
  {0.5,-0.5,0.5},
  {0.5,0.5,0.5},
  {-0.5,0.5,0.5}
 },
 f={
  {1,2,3,4, c=11, uv={5.5,0.5,6.5,0.5,6.5,1.5,5.5,1.5} },
  {6,5,8,7, c=11, uv={5.5,0.5,6.5,0.5,6.5,1.5,5.5,1.5} },
  {5,6,2,1, c=11, uv={5.5,0.5,6.5,0.5,6.5,1.5,5.5,1.5} },
  {5,1,4,8, c=11, uv={5.5,0.5,6.5,0.5,6.5,1.5,5.5,1.5} },
  {2,6,7,3, c=11, uv={5.5,0.5,6.5,0.5,6.5,1.5,5.5,1.5} },
  {4,3,7,8, c=11, uv={5.5,0.5,6.5,0.5,6.5,1.5,5.5,1.5} }
 }
}"#;

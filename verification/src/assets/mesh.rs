//! Meshes and their shadow rotation.
//!
//! A mesh is written as a table literal with named fields: `name`, `pos`
//! and `rot` (each position a three-number table), `v` (the vertex list)
//! and `f` (the face list).  The rotation does not turn the mesh itself:
//! it orients the light source of the tool's shadow model, in fractional
//! turns per axis.

use vstd::prelude::*;
use vstd::string::StringExecFns;
use crate::assets::face::{
    spec_decode_face, spec_face_text, spec_face_edges, face_wf, face_tree_encodes, Face, FaceView,
};
use crate::assets::edge::Edge;
use crate::assets::num::{
    coord_in_range, coord_text, push_coord_text, chars_to_string,
};
use crate::assets::point::Point3D;
use crate::assets::table::{
    lookup, find_named, spec_scalar_coord, scalar_coord, TableValue,
};
use crate::assets::text::push_str_chars;
use crate::error::{PicoError, PicoErrView};

verus! {

/// The shadow rotation of a mesh: fractional turns around each axis,
/// stored like every coordinate as raw ten-thousandths (so one full turn
/// is the raw value 10000).
#[derive(Debug, Copy, Clone, PartialEq, Eq, Structural)]
pub struct Rotation(pub Point3D<i64>);

/// A component rounded to the file format's three stored decimals: to the
/// nearest multiple of ten raw units, halves away from zero.
pub open spec fn spec_round3(v: int) -> int {
    if v >= 0 {
        ((v + 5) / 10) * 10
    } else {
        -(((-v + 5) / 10) * 10)
    }
}

/// A component reduced to the canonical range of one positive turn:
/// the mathematical remainder by one full turn, never negative.
pub open spec fn spec_norm(v: int) -> int {
    v % 10000
}

/// The canonical form `equal_rotation` compares: round, normalize, round.
pub open spec fn spec_rot_canon(v: int) -> int {
    spec_round3(spec_norm(spec_round3(v)))
}

impl Rotation {
    /// Rounds each component to three stored decimals (the nearest
    /// multiple of ten raw units, halves away from zero).
    pub fn round(&mut self)
        requires
            -(i64::MAX - 5) <= old(self).0.x <= i64::MAX - 5,
            -(i64::MAX - 5) <= old(self).0.y <= i64::MAX - 5,
            -(i64::MAX - 5) <= old(self).0.z <= i64::MAX - 5,
        ensures
            final(self).0.x == spec_round3(old(self).0.x as int),
            final(self).0.y == spec_round3(old(self).0.y as int),
            final(self).0.z == spec_round3(old(self).0.z as int),
    {
        self.0.x = round3_coord(self.0.x);
        self.0.y = round3_coord(self.0.y);
        self.0.z = round3_coord(self.0.z);
    }

    /// Reduces each component to the canonical range of one positive
    /// turn, so that for example minus one-fifth of a turn becomes four
    /// fifths.
    pub fn normalize(&mut self)
        requires
            old(self).0.x > i64::MIN,
            old(self).0.y > i64::MIN,
            old(self).0.z > i64::MIN,
        ensures
            final(self).0.x == spec_norm(old(self).0.x as int),
            final(self).0.y == spec_norm(old(self).0.y as int),
            final(self).0.z == spec_norm(old(self).0.z as int),
    {
        self.0.x = norm_coord(self.0.x);
        self.0.y = norm_coord(self.0.y);
        self.0.z = norm_coord(self.0.z);
    }

    /// Whether both values name the same rotation once each is rounded,
    /// normalized and rounded again.  This is looser than structural
    /// equality: a full turn equals no turn.  Rounding before normalizing
    /// is deliberate and order-dependent: 0.9999 turns normalize first to
    /// 0.9999 and then round to a full turn, but round first to a full
    /// turn and then normalize to no turn.
    pub fn equal_rotation(&self, other: &Rotation) -> (r: bool)
        requires
            coord_in_range(self.0.x as int),
            coord_in_range(self.0.y as int),
            coord_in_range(self.0.z as int),
            coord_in_range(other.0.x as int),
            coord_in_range(other.0.y as int),
            coord_in_range(other.0.z as int),
        ensures
            r == (spec_rot_canon(self.0.x as int) == spec_rot_canon(other.0.x as int)
                && spec_rot_canon(self.0.y as int) == spec_rot_canon(other.0.y as int)
                && spec_rot_canon(self.0.z as int) == spec_rot_canon(other.0.z as int)),
    {
        let mut left = *self;
        let mut right = *other;
        left.round();
        left.normalize();
        left.round();
        right.round();
        right.normalize();
        right.round();
        left.0.x == right.0.x && left.0.y == right.0.y && left.0.z == right.0.z
    }
}

/// Rounds one raw component to the nearest multiple of ten, halves away
/// from zero.
fn round3_coord(v: i64) -> (r: i64)
    requires
        -(i64::MAX - 5) <= v <= i64::MAX - 5,
    ensures
        r == spec_round3(v as int),
{
    if v >= 0 {
        ((v + 5) / 10) * 10
    } else {
        -(((-v + 5) / 10) * 10)
    }
}

/// Reduces one raw component to the canonical positive remainder by a
/// full turn.
fn norm_coord(v: i64) -> (r: i64)
    requires
        v > i64::MIN,
    ensures
        r == spec_norm(v as int),
{
    if v >= 0 {
        v % 10000
    } else {
        let m = (-v) % 10000;
        proof {
            assert((v as int) % 10000 == (if (-(v as int)) % 10000 == 0 {
                0int
            } else {
                10000 - (-(v as int)) % 10000
            })) by (nonlinear_arith)
                requires v < 0,
            ;
        }
        if m == 0 {
            0
        } else {
            10000 - m
        }
    }
}

/// A mesh: a name, an anchor position, a shadow rotation, the vertex list
/// (relative to the anchor), and the face list.  Faces reference vertices
/// only by index into this mesh's own vertex list.
#[derive(Debug, Clone, PartialEq)]
pub struct Mesh {
    /// Name of the mesh; a single character is enough for the tool.
    pub name: String,
    /// Anchor point; all vertices are relative to it.
    pub position: Point3D<i64>,
    /// Shadow rotation.
    pub rotation: Rotation,
    /// Vertices, relative to the position.
    pub vertices: Vec<Point3D<i64>>,
    /// Faces, referencing the vertices by index.
    pub faces: Vec<Face>,
}

/// The mathematical shape of a [`Mesh`].
pub ghost struct MeshView {
    pub name: Seq<char>,
    pub position: Point3D<i64>,
    pub rotation: Rotation,
    pub vertices: Seq<Point3D<i64>>,
    pub faces: Seq<FaceView>,
}

impl View for Mesh {
    type V = MeshView;

    open spec fn view(&self) -> MeshView {
        MeshView {
            name: self.name@,
            position: self.position,
            rotation: self.rotation,
            vertices: self.vertices@,
            faces: self.faces@.map_values(|f: Face| f@),
        }
    }
}

/// The decode of a three-number coordinate table: any other element count
/// is the counted error, and an element that is not a number is an
/// evaluator-level fault.
pub open spec fn spec_decode_point3(t: TableValue) -> Result<Point3D<i64>, PicoErrView> {
    match t {
        TableValue::Table(sq, nm) => if sq@.len() != 3 {
            Err(PicoErrView::TableLength(sq@.len() as int, 3))
        } else {
            match (spec_scalar_coord(sq@[0]), spec_scalar_coord(sq@[1]), spec_scalar_coord(
                sq@[2],
            )) {
                (Some(x), Some(y), Some(z)) => Ok(
                    Point3D { x: x as i64, y: y as i64, z: z as i64 },
                ),
                _ => Err(PicoErrView::Lua("invalid coordinate"@)),
            }
        },
        _ => Err(PicoErrView::Lua("vertex is not a table"@)),
    }
}

/// The decode of a vertex list: every element a coordinate table.
pub open spec fn spec_decode_points(s: Seq<TableValue>) -> Result<Seq<Point3D<i64>>, PicoErrView>
    decreases s.len(),
{
    if s.len() == 0 {
        Ok(Seq::empty())
    } else {
        match spec_decode_points(s.drop_last()) {
            Err(e) => Err(e),
            Ok(pre) => match spec_decode_point3(s.last()) {
                Err(e) => Err(e),
                Ok(p) => Ok(pre.push(p)),
            },
        }
    }
}

/// The decode of a face list: every element a face table.
pub open spec fn spec_decode_faces(s: Seq<TableValue>) -> Result<Seq<FaceView>, PicoErrView>
    decreases s.len(),
{
    if s.len() == 0 {
        Ok(Seq::empty())
    } else {
        match spec_decode_faces(s.drop_last()) {
            Err(e) => Err(e),
            Ok(pre) => match spec_decode_face(s.last()) {
                Err(e) => Err(e),
                Ok(f) => Ok(pre.push(f)),
            },
        }
    }
}

/// The decode of a mesh table, field by field: `name` defaults to the
/// fixed placeholder `object`, `pos` and `rot` to the origin, `v` and `f`
/// to empty lists; a field present with the wrong literal shape is the
/// named error, and faults inside the nested tables carry through.  The
/// fields are examined in the fixed order name, pos, rot, v, f.
pub open spec fn spec_decode_mesh(t: TableValue) -> Result<MeshView, PicoErrView> {
    match t {
        TableValue::Table(sq, nm) => {
            let namef = match lookup(nm@, "name"@) {
                None => Ok("object"@),
                Some(TableValue::Text(s)) => Ok(s@),
                Some(_) => Err(PicoErrView::MeshField("name"@)),
            };
            match namef {
                Err(e) => Err(e),
                Ok(name) => {
                    let posf = match lookup(nm@, "pos"@) {
                        None => Ok(Point3D { x: 0i64, y: 0i64, z: 0i64 }),
                        Some(TableValue::Table(s2, n2)) => spec_decode_point3(
                            TableValue::Table(s2, n2),
                        ),
                        Some(_) => Err(PicoErrView::MeshField("pos"@)),
                    };
                    match posf {
                        Err(e) => Err(e),
                        Ok(position) => {
                            let rotf = match lookup(nm@, "rot"@) {
                                None => Ok(Point3D { x: 0i64, y: 0i64, z: 0i64 }),
                                Some(TableValue::Table(s2, n2)) => spec_decode_point3(
                                    TableValue::Table(s2, n2),
                                ),
                                Some(_) => Err(PicoErrView::MeshField("rot"@)),
                            };
                            match rotf {
                                Err(e) => Err(e),
                                Ok(rot) => {
                                    let vf = match lookup(nm@, "v"@) {
                                        None => Ok(Seq::<Point3D<i64>>::empty()),
                                        Some(TableValue::Table(s2, n2)) => spec_decode_points(
                                            s2@,
                                        ),
                                        Some(_) => Err(PicoErrView::MeshField("v"@)),
                                    };
                                    match vf {
                                        Err(e) => Err(e),
                                        Ok(vertices) => {
                                            let ff = match lookup(nm@, "f"@) {
                                                None => Ok(Seq::<FaceView>::empty()),
                                                Some(TableValue::Table(s2, n2)) =>
                                                    spec_decode_faces(s2@),
                                                Some(_) => Err(PicoErrView::MeshField("f"@)),
                                            };
                                            match ff {
                                                Err(e) => Err(e),
                                                Ok(faces) => Ok(
                                                    MeshView {
                                                        name,
                                                        position,
                                                        rotation: Rotation(rot),
                                                        vertices,
                                                        faces,
                                                    },
                                                ),
                                            }
                                        },
                                    }
                                },
                            }
                        },
                    }
                },
            }
        },
        _ => Err(PicoErrView::Lua("mesh is not a table"@)),
    }
}

/// One serialized coordinate triple, comma separated.
pub open spec fn spec_p3_text(p: Point3D<i64>) -> Seq<char> {
    coord_text(p.x as int) + seq![','] + coord_text(p.y as int) + seq![','] + coord_text(
        p.z as int,
    )
}

/// The serialized vertex lines, each indented in braces, joined by a comma
/// and a line feed.
pub open spec fn spec_vertex_lines(vs: Seq<Point3D<i64>>) -> Seq<char>
    decreases vs.len(),
{
    if vs.len() == 0 {
        Seq::empty()
    } else if vs.len() == 1 {
        "  {"@ + spec_p3_text(vs[0]) + seq!['}']
    } else {
        spec_vertex_lines(vs.drop_last()) + ",\n"@ + "  {"@ + spec_p3_text(vs.last()) + seq!['}']
    }
}

/// The serialized face lines, each indented, joined by a comma and a line
/// feed.
pub open spec fn spec_face_lines(fs: Seq<FaceView>) -> Seq<char>
    decreases fs.len(),
{
    if fs.len() == 0 {
        Seq::empty()
    } else if fs.len() == 1 {
        "  "@ + spec_face_text(fs[0])
    } else {
        spec_face_lines(fs.drop_last()) + ",\n"@ + "  "@ + spec_face_text(fs.last())
    }
}

/// The serialized mesh literal: the exact nested brace layout the tool
/// writes, with each vertex and face on its own line.
pub open spec fn spec_mesh_text(m: MeshView) -> Seq<char> {
    "{\n name='"@ + m.name + "', pos={"@ + spec_p3_text(m.position) + "}, rot={"@ + spec_p3_text(
        m.rotation.0,
    ) + "},\n v={\n"@ + spec_vertex_lines(m.vertices) + "\n },\n f={\n"@ + spec_face_lines(
        m.faces,
    ) + "\n }\n}"@
}

/// The machine bounds a mesh must respect so that it can be serialized.
pub open spec fn mesh_wf(m: MeshView) -> bool {
    &&& coord_in_range(m.position.x as int) && coord_in_range(m.position.y as int)
        && coord_in_range(m.position.z as int)
    &&& coord_in_range(m.rotation.0.x as int) && coord_in_range(m.rotation.0.y as int)
        && coord_in_range(m.rotation.0.z as int)
    &&& forall|i: int| 0 <= i < m.vertices.len() ==> coord_in_range(
        (#[trigger] m.vertices[i]).x as int,
    ) && coord_in_range(m.vertices[i].y as int) && coord_in_range(m.vertices[i].z as int)
    &&& forall|i: int| 0 <= i < m.faces.len() ==> face_wf(#[trigger] m.faces[i])
}

/// Whether an edge equal to `e` (without regard to direction) occurs in
/// the sequence.
pub open spec fn edge_in(es: Seq<Edge>, e: Edge) -> bool {
    exists|i: int| 0 <= i < es.len() && (#[trigger] es[i]).spec_eq(e)
}

/// First-occurrence deduplication under undirected edge equality, with
/// the already-kept edges as accumulator.
pub open spec fn spec_dedup_from(es: Seq<Edge>, acc: Seq<Edge>) -> Seq<Edge>
    decreases es.len(),
{
    if es.len() == 0 {
        acc
    } else if edge_in(acc, es[0]) {
        spec_dedup_from(es.skip(1), acc)
    } else {
        spec_dedup_from(es.skip(1), acc.push(es[0]))
    }
}

/// All face edges of a mesh, concatenated in face order.
pub open spec fn spec_all_face_edges(fs: Seq<FaceView>, verts: Seq<Point3D<i64>>) -> Seq<Edge>
    decreases fs.len(),
{
    if fs.len() == 0 {
        Seq::empty()
    } else {
        spec_all_face_edges(fs.drop_last(), verts) + spec_face_edges(fs.last().uv_maps, verts)
    }
}

/// Whether an edge equal to `e` occurs in the vector, without regard to
/// direction.
fn contains_edge(es: &Vec<Edge>, e: Edge) -> (r: bool)
    ensures
        r == edge_in(es@, e),
{
    let mut i: usize = 0;
    while i < es.len()
        invariant
            0 <= i <= es@.len(),
            forall|k: int| 0 <= k < i ==> !(#[trigger] es@[k]).spec_eq(e),
        decreases es@.len() - i,
    {
        let c = es[i];
        if (c.start == e.start && c.end == e.end) || (c.start == e.end && c.end == e.start) {
            return true;
        }
        i = i + 1;
    }
    false
}

impl Mesh {
    /// Creates a mesh with the given name, the origin as position and
    /// rotation, and no vertices or faces.
    pub fn new(name: String) -> (r: Mesh)
        ensures
            r@.name == name@,
            r@.position == (Point3D { x: 0i64, y: 0i64, z: 0i64 }),
            r@.rotation == Rotation(Point3D { x: 0i64, y: 0i64, z: 0i64 }),
            r@.vertices.len() == 0,
            r@.faces.len() == 0,
    {
        let r = Mesh {
            name,
            position: Point3D { x: 0, y: 0, z: 0 },
            rotation: Rotation(Point3D { x: 0, y: 0, z: 0 }),
            vertices: Vec::new(),
            faces: Vec::new(),
        };
        proof {
            assert(r@.faces =~= Seq::<FaceView>::empty());
        }
        r
    }

    /// Every wireframe edge of the mesh: the edges of every face against
    /// this mesh's own vertex list, concatenated in face order and
    /// deduplicated by first occurrence under undirected edge equality, so
    /// that an edge two adjacent faces traverse in opposite directions
    /// appears once.
    #[verifier::loop_isolation(false)]
    pub fn edges(&self) -> (r: Vec<Edge>)
        ensures
            r@ == spec_dedup_from(
                spec_all_face_edges(self@.faces, self@.vertices),
                Seq::empty(),
            ),
    {
        let mut all: Vec<Edge> = Vec::new();
        let mut i: usize = 0;
        while i < self.faces.len()
            invariant
                0 <= i <= self.faces@.len(),
                all@ == spec_all_face_edges(
                    self@.faces.take(i as int),
                    self@.vertices,
                ),
            decreases self.faces@.len() - i,
        {
            let es = self.faces[i].edges(&self.vertices);
            let mut j: usize = 0;
            let ghost base = all@;
            while j < es.len()
                invariant
                    0 <= j <= es@.len(),
                    all@ == base + es@.take(j as int),
                decreases es@.len() - j,
            {
                all.push(es[j]);
                assert(all@ =~= base + es@.take(j + 1));
                j = j + 1;
            }
            proof {
                assert(es@.take(es@.len() as int) =~= es@);
                assert(self@.faces.take(i + 1).drop_last() =~= self@.faces.take(i as int));
                assert(self@.faces.take(i + 1).last() == self@.faces[i as int]);
                assert(self@.faces[i as int] == self.faces@[i as int]@);
                assert(all@ =~= spec_all_face_edges(self@.faces.take(i + 1), self@.vertices));
            }
            i = i + 1;
        }
        proof {
            assert(self@.faces.take(self@.faces.len() as int) =~= self@.faces);
        }
        let ghost all_edges = all@;
        let mut result: Vec<Edge> = Vec::new();
        let mut k: usize = 0;
        proof {
            assert(all@.skip(0) =~= all@);
        }
        while k < all.len()
            invariant
                0 <= k <= all@.len(),
                all@ == all_edges,
                spec_dedup_from(all_edges, Seq::empty()) == spec_dedup_from(
                    all_edges.skip(k as int),
                    result@,
                ),
            decreases all@.len() - k,
        {
            proof {
                assert(all_edges.skip(k as int)[0] == all_edges[k as int]);
                assert(all_edges.skip(k as int).skip(1) =~= all_edges.skip(k + 1));
            }
            let e = all[k];
            if !contains_edge(&result, e) {
                result.push(e);
            }
            k = k + 1;
        }
        proof {
            assert(all_edges.skip(all_edges.len() as int).len() == 0);
        }
        result
    }

    /// Decodes a mesh from an evaluator tree, exactly as
    /// [`spec_decode_mesh`] describes.
    #[verifier::loop_isolation(false)]
    #[verifier::rlimit(100)]
    pub fn from_table(t: &TableValue) -> (r: Result<Mesh, PicoError>)
        ensures
            match r {
                Ok(m) => spec_decode_mesh(*t) == Ok::<MeshView, PicoErrView>(m@),
                Err(e) => spec_decode_mesh(*t) == Err::<MeshView, PicoErrView>(e@),
            },
    {
        match t {
            TableValue::Table(sq, nm) => {
                let name: String = match find_named(nm, "name") {
                    None => String::from_str("object"),
                    Some(TableValue::Text(s)) => s.clone(),
                    Some(_) => {
                        return Err(PicoError::MeshField(String::from_str("name")));
                    },
                };
                let position: Point3D<i64> = match find_named(nm, "pos") {
                    None => Point3D { x: 0, y: 0, z: 0 },
                    Some(pt) => match pt {
                        TableValue::Table(_, _) => match Mesh::decode_point3(pt) {
                            Ok(p) => p,
                            Err(e) => {
                                return Err(e);
                            },
                        },
                        _ => {
                            return Err(PicoError::MeshField(String::from_str("pos")));
                        },
                    },
                };
                let rot: Point3D<i64> = match find_named(nm, "rot") {
                    None => Point3D { x: 0, y: 0, z: 0 },
                    Some(pt) => match pt {
                        TableValue::Table(_, _) => match Mesh::decode_point3(pt) {
                            Ok(p) => p,
                            Err(e) => {
                                return Err(e);
                            },
                        },
                        _ => {
                            return Err(PicoError::MeshField(String::from_str("rot")));
                        },
                    },
                };
                let vertices: Vec<Point3D<i64>> = match find_named(nm, "v") {
                    None => Vec::new(),
                    Some(vt) => match vt {
                        TableValue::Table(s2, _) => {
                            let mut vs: Vec<Point3D<i64>> = Vec::new();
                            let mut i: usize = 0;
                            while i < s2.len()
                                invariant
                                    0 <= i <= s2@.len(),
                                    spec_decode_points(s2@.take(i as int)) == Ok::<
                                        Seq<Point3D<i64>>,
                                        PicoErrView,
                                    >(vs@),
                                decreases s2@.len() - i,
                            {
                                proof {
                                    assert(s2@.take(i + 1).drop_last() =~= s2@.take(i as int));
                                    assert(s2@.take(i + 1).last() == s2@[i as int]);
                                }
                                match Mesh::decode_point3(&s2[i]) {
                                    Ok(p) => {
                                        vs.push(p);
                                    },
                                    Err(e) => {
                                        proof {
                                            lemma_points_extend(s2@, i + 1);
                                        }
                                        return Err(e);
                                    },
                                }
                                i = i + 1;
                            }
                            assert(s2@.take(s2@.len() as int) =~= s2@);
                            vs
                        },
                        _ => {
                            return Err(PicoError::MeshField(String::from_str("v")));
                        },
                    },
                };
                let faces: Vec<Face> = match find_named(nm, "f") {
                    None => {
                        let fs: Vec<Face> = Vec::new();
                        proof {
                            assert(fs@.map_values(|f: Face| f@) =~= Seq::<FaceView>::empty());
                        }
                        fs
                    },
                    Some(ft) => match ft {
                        TableValue::Table(s2, _) => {
                            let mut fs: Vec<Face> = Vec::new();
                            let mut i: usize = 0;
                            proof {
                                assert(fs@.map_values(|f: Face| f@) =~= Seq::<
                                    FaceView,
                                >::empty());
                            }
                            while i < s2.len()
                                invariant
                                    0 <= i <= s2@.len(),
                                    spec_decode_faces(s2@.take(i as int)) == Ok::<
                                        Seq<FaceView>,
                                        PicoErrView,
                                    >(fs@.map_values(|f: Face| f@)),
                                decreases s2@.len() - i,
                            {
                                proof {
                                    assert(s2@.take(i + 1).drop_last() =~= s2@.take(i as int));
                                    assert(s2@.take(i + 1).last() == s2@[i as int]);
                                }
                                match Face::from_table(&s2[i]) {
                                    Ok(f) => {
                                        let ghost pre = fs@;
                                        fs.push(f);
                                        proof {
                                            assert(fs@.map_values(|f: Face| f@) =~= pre
                                                .map_values(|f: Face| f@).push(f@));
                                        }
                                    },
                                    Err(e) => {
                                        proof {
                                            lemma_faces_extend(s2@, i + 1);
                                        }
                                        return Err(e);
                                    },
                                }
                                i = i + 1;
                            }
                            assert(s2@.take(s2@.len() as int) =~= s2@);
                            fs
                        },
                        _ => {
                            return Err(PicoError::MeshField(String::from_str("f")));
                        },
                    },
                };
                Ok(Mesh { name, position, rotation: Rotation(rot), vertices, faces })
            },
            _ => Err(PicoError::Lua(String::from_str("mesh is not a table"))),
        }
    }

    /// Decodes a three-number coordinate table, exactly as
    /// [`spec_decode_point3`] describes.
    pub fn decode_point3(t: &TableValue) -> (r: Result<Point3D<i64>, PicoError>)
        ensures
            match r {
                Ok(p) => spec_decode_point3(*t) == Ok::<Point3D<i64>, PicoErrView>(p),
                Err(e) => spec_decode_point3(*t) == Err::<Point3D<i64>, PicoErrView>(e@),
            },
    {
        match t {
            TableValue::Table(sq, _) => {
                if sq.len() != 3 {
                    return Err(PicoError::TableLength(sq.len(), 3));
                }
                let x = match scalar_coord(&sq[0]) {
                    Some(v) => v,
                    None => {
                        return Err(PicoError::Lua(String::from_str("invalid coordinate")));
                    },
                };
                let y = match scalar_coord(&sq[1]) {
                    Some(v) => v,
                    None => {
                        return Err(PicoError::Lua(String::from_str("invalid coordinate")));
                    },
                };
                let z = match scalar_coord(&sq[2]) {
                    Some(v) => v,
                    None => {
                        return Err(PicoError::Lua(String::from_str("invalid coordinate")));
                    },
                };
                Ok(Point3D { x, y, z })
            },
            _ => Err(PicoError::Lua(String::from_str("vertex is not a table"))),
        }
    }

    /// Parses a mesh from the text of a table literal.  The text goes
    /// through the embedded evaluator, so a success is the decode of some
    /// tree the evaluator produced for it, and a failure is either an
    /// evaluator error or the decode error of such a tree.
    pub fn parse(s: &str) -> (r: Result<Mesh, PicoError>)
        ensures
            match r {
                Ok(m) => exists|tv: TableValue| #[trigger] spec_decode_mesh(tv) == Ok::<
                    MeshView,
                    PicoErrView,
                >(m@),
                Err(e) => e@ is Lua || (exists|tv: TableValue| #[trigger] spec_decode_mesh(tv)
                    == Err::<MeshView, PicoErrView>(e@)),
            },
    {
        match crate::assets::table::eval_literal(s) {
            Err(msg) => Err(PicoError::Lua(msg)),
            Ok(tv) => {
                let r = Mesh::from_table(&tv);
                proof {
                    match &r {
                        Ok(m) => {
                            assert(spec_decode_mesh(tv) == Ok::<MeshView, PicoErrView>(m@));
                        },
                        Err(e) => {
                            assert(spec_decode_mesh(tv) == Err::<MeshView, PicoErrView>(e@));
                        },
                    }
                }
                r
            },
        }
    }

    /// Serializes the mesh exactly as [`spec_mesh_text`] describes.
    pub fn serialize(&self) -> (r: String)
        requires
            mesh_wf(self@),
        ensures
            r@ == spec_mesh_text(self@),
    {
        let mut out: Vec<char> = Vec::new();
        self.push_text(&mut out);
        chars_to_string(&out)
    }

    /// Appends the serialized vertex lines to `out`.
    #[verifier::loop_isolation(false)]
    #[verifier::rlimit(100)]
    fn push_vertex_lines(&self, out: &mut Vec<char>)
        requires
            mesh_wf(self@),
        ensures
            final(out)@ == old(out)@ + spec_vertex_lines(self@.vertices),
    {
        let ghost base = out@;
        let mut i: usize = 0;
        while i < self.vertices.len()
            invariant
                0 <= i <= self.vertices@.len(),
                out@ == base + spec_vertex_lines(self@.vertices.take(i as int)),
            decreases self.vertices@.len() - i,
        {
            if i > 0 {
                push_str_chars(out, ",\n");
            }
            push_str_chars(out, "  {");
            assert(coord_in_range(self@.vertices[i as int].x as int) && coord_in_range(
                self@.vertices[i as int].y as int,
            ) && coord_in_range(self@.vertices[i as int].z as int));
            push_p3_text(out, &self.vertices[i]);
            out.push('}');
            proof {
                assert(self@.vertices.take(i + 1).drop_last() =~= self@.vertices.take(i as int));
                assert(self@.vertices.take(i + 1).last() == self@.vertices[i as int]);
                if i == 0 {
                    assert(self@.vertices.take(1).len() == 1);
                    assert(self@.vertices.take(1)[0] == self@.vertices[0]);
                    assert(out@ =~= base + spec_vertex_lines(self@.vertices.take(1)));
                } else {
                    assert(out@ =~= base + spec_vertex_lines(self@.vertices.take(i + 1)));
                }
            }
            i = i + 1;
        }
        assert(self@.vertices.take(self@.vertices.len() as int) =~= self@.vertices);
    }

    /// Appends the serialized face lines to `out`.
    #[verifier::loop_isolation(false)]
    #[verifier::rlimit(100)]
    fn push_face_lines(&self, out: &mut Vec<char>)
        requires
            mesh_wf(self@),
        ensures
            final(out)@ == old(out)@ + spec_face_lines(self@.faces),
    {
        let ghost base2 = out@;
        let mut j: usize = 0;
        while j < self.faces.len()
            invariant
                0 <= j <= self.faces@.len(),
                out@ == base2 + spec_face_lines(self@.faces.take(j as int)),
            decreases self.faces@.len() - j,
        {
            if j > 0 {
                push_str_chars(out, ",\n");
            }
            push_str_chars(out, "  ");
            assert(face_wf(self@.faces[j as int]));
            assert(self@.faces[j as int] == self.faces@[j as int]@);
            self.faces[j].push_text(out);
            proof {
                assert(self@.faces.take(j + 1).drop_last() =~= self@.faces.take(j as int));
                assert(self@.faces.take(j + 1).last() == self@.faces[j as int]);
                if j == 0 {
                    assert(self@.faces.take(1).len() == 1);
                    assert(self@.faces.take(1)[0] == self@.faces[0]);
                    assert(out@ =~= base2 + spec_face_lines(self@.faces.take(1)));
                } else {
                    assert(out@ =~= base2 + spec_face_lines(self@.faces.take(j + 1)));
                }
            }
            j = j + 1;
        }
        assert(self@.faces.take(self@.faces.len() as int) =~= self@.faces);
    }

    /// Appends the serialized mesh literal to `out`.
    #[verifier::rlimit(60)]
    pub fn push_text(&self, out: &mut Vec<char>)
        requires
            mesh_wf(self@),
        ensures
            final(out)@ == old(out)@ + spec_mesh_text(self@),
    {
        push_str_chars(out, "{\n name='");
        push_str_chars(out, self.name.as_str());
        push_str_chars(out, "', pos={");
        push_p3_text(out, &self.position);
        push_str_chars(out, "}, rot={");
        push_p3_text(out, &self.rotation.0);
        push_str_chars(out, "},\n v={\n");
        self.push_vertex_lines(out);
        push_str_chars(out, "\n },\n f={\n");
        self.push_face_lines(out);
        push_str_chars(out, "\n }\n}");
        proof {
            assert(out@ =~= old(out)@ + spec_mesh_text(self@));
        }
    }
}

/// Appends one serialized coordinate triple to `out`.
fn push_p3_text(out: &mut Vec<char>, p: &Point3D<i64>)
    requires
        coord_in_range(p.x as int),
        coord_in_range(p.y as int),
        coord_in_range(p.z as int),
    ensures
        final(out)@ == old(out)@ + spec_p3_text(*p),
{
    push_coord_text(out, p.x);
    out.push(',');
    push_coord_text(out, p.y);
    out.push(',');
    push_coord_text(out, p.z);
    assert(final(out)@ =~= old(out)@ + spec_p3_text(*p));
}

/// An error in a vertex-list prefix decides the whole list.
proof fn lemma_points_extend(s: Seq<TableValue>, j: int)
    requires
        0 <= j <= s.len(),
        spec_decode_points(s.take(j)) is Err,
    ensures
        spec_decode_points(s) == spec_decode_points(s.take(j)),
    decreases s.len() - j,
{
    if j < s.len() {
        assert(s.take(j + 1).drop_last() =~= s.take(j));
        lemma_points_extend(s, j + 1);
    } else {
        assert(s.take(j) =~= s);
    }
}

/// An error in a face-list prefix decides the whole list.
proof fn lemma_faces_extend(s: Seq<TableValue>, j: int)
    requires
        0 <= j <= s.len(),
        spec_decode_faces(s.take(j)) is Err,
    ensures
        spec_decode_faces(s) == spec_decode_faces(s.take(j)),
    decreases s.len() - j,
{
    if j < s.len() {
        assert(s.take(j + 1).drop_last() =~= s.take(j));
        lemma_faces_extend(s, j + 1);
    } else {
        assert(s.take(j) =~= s);
    }
}

/// What any evaluator tree for a serialized coordinate triple must look
/// like: three whole or decimal scalars carrying the raw values.
pub open spec fn p3_tree_encodes(t: TableValue, p: Point3D<i64>) -> bool {
    match t {
        TableValue::Table(sq, nm) => {
            &&& sq@.len() == 3
            &&& spec_scalar_coord(sq@[0]) == Some(p.x as int)
            &&& spec_scalar_coord(sq@[1]) == Some(p.y as int)
            &&& spec_scalar_coord(sq@[2]) == Some(p.z as int)
        },
        _ => false,
    }
}

/// What any evaluator tree for a serialized mesh must look like: each of
/// the five named fields present with its encoded content.  The named
/// fields may come back in any order.
pub open spec fn mesh_tree_encodes(t: TableValue, m: MeshView) -> bool {
    match t {
        TableValue::Table(sq, nm) => {
            &&& (match lookup(nm@, "name"@) {
                Some(TableValue::Text(s)) => s@ == m.name,
                _ => false,
            })
            &&& (match lookup(nm@, "pos"@) {
                Some(pt) => pt is Table && p3_tree_encodes(pt, m.position),
                None => false,
            })
            &&& (match lookup(nm@, "rot"@) {
                Some(pt) => pt is Table && p3_tree_encodes(pt, m.rotation.0),
                None => false,
            })
            &&& (match lookup(nm@, "v"@) {
                Some(TableValue::Table(s2, n2)) => s2@.len() == m.vertices.len() && (forall|
                    i: int,
                |
                    0 <= i < s2@.len() ==> (#[trigger] s2@[i]) is Table && p3_tree_encodes(
                        s2@[i],
                        m.vertices[i],
                    )),
                _ => false,
            })
            &&& (match lookup(nm@, "f"@) {
                Some(TableValue::Table(s2, n2)) => s2@.len() == m.faces.len() && (forall|i: int|
                    0 <= i < s2@.len() ==> face_tree_encodes(#[trigger] s2@[i], m.faces[i])),
                _ => false,
            })
        },
        _ => false,
    }
}

/// Whether no face of the mesh carries the `Invalid` color sentinel.
pub open spec fn mesh_colors_ok(m: MeshView) -> bool {
    forall|i: int| 0 <= i < m.faces.len() ==> (#[trigger] m.faces[i]).color
        != crate::assets::color::Color::Invalid
}

/// An encoded coordinate triple decodes back to its point.
proof fn lemma_p3_decode_encoded(t: TableValue, p: Point3D<i64>)
    requires
        p3_tree_encodes(t, p),
    ensures
        spec_decode_point3(t) == Ok::<Point3D<i64>, PicoErrView>(p),
{
}

/// An encoded vertex list decodes back to its points.
proof fn lemma_points_decode_encoded(s: Seq<TableValue>, vs: Seq<Point3D<i64>>)
    requires
        s.len() == vs.len(),
        forall|i: int| 0 <= i < s.len() ==> (#[trigger] s[i]) is Table && p3_tree_encodes(
            s[i],
            vs[i],
        ),
    ensures
        spec_decode_points(s) == Ok::<Seq<Point3D<i64>>, PicoErrView>(vs),
    decreases s.len(),
{
    if s.len() == 0 {
        assert(vs =~= Seq::<Point3D<i64>>::empty());
    } else {
        assert(forall|i: int| 0 <= i < s.len() - 1 ==> s.drop_last()[i] == s[i]);
        assert(forall|i: int| 0 <= i < vs.len() - 1 ==> vs.drop_last()[i] == vs[i]);
        lemma_points_decode_encoded(s.drop_last(), vs.drop_last());
        lemma_p3_decode_encoded(s.last(), vs.last());
        assert(vs.drop_last().push(vs.last()) =~= vs);
    }
}

/// An encoded face list decodes back to its faces, as long as none of
/// them carries the `Invalid` color.
proof fn lemma_faces_decode_encoded(s: Seq<TableValue>, fs: Seq<FaceView>)
    requires
        s.len() == fs.len(),
        forall|i: int| 0 <= i < s.len() ==> face_tree_encodes(#[trigger] s[i], fs[i]),
        forall|i: int| 0 <= i < fs.len() ==> (#[trigger] fs[i]).color
            != crate::assets::color::Color::Invalid,
    ensures
        spec_decode_faces(s) == Ok::<Seq<FaceView>, PicoErrView>(fs),
    decreases s.len(),
{
    if s.len() == 0 {
        assert(fs =~= Seq::<FaceView>::empty());
    } else {
        assert(forall|i: int| 0 <= i < s.len() - 1 ==> s.drop_last()[i] == s[i]);
        assert(forall|i: int| 0 <= i < fs.len() - 1 ==> fs.drop_last()[i] == fs[i]);
        lemma_faces_decode_encoded(s.drop_last(), fs.drop_last());
        crate::assets::face::lemma_face_decode_encoded(s.last(), fs.last());
        assert(fs.drop_last().push(fs.last()) =~= fs);
    }
}

/// Decoding any tree that encodes a mesh gives back exactly that mesh:
/// the tree-level half of the document round trip.  No face of the mesh
/// may carry the `Invalid` color sentinel, which is written as the code
/// of black.
#[verifier::rlimit(100)]
pub proof fn lemma_mesh_decode_encoded(t: TableValue, m: MeshView)
    requires
        mesh_tree_encodes(t, m),
        mesh_colors_ok(m),
    ensures
        spec_decode_mesh(t) == Ok::<MeshView, PicoErrView>(m),
{
    match t {
        TableValue::Table(sq, nm) => {
            match lookup(nm@, "pos"@) {
                Some(pt) => {
                    lemma_p3_decode_encoded(pt, m.position);
                },
                None => {
                    assert(false);
                },
            }
            match lookup(nm@, "rot"@) {
                Some(pt) => {
                    lemma_p3_decode_encoded(pt, m.rotation.0);
                },
                None => {
                    assert(false);
                },
            }
            match lookup(nm@, "v"@) {
                Some(TableValue::Table(s2, n2)) => {
                    lemma_points_decode_encoded(s2@, m.vertices);
                },
                _ => {
                    assert(false);
                },
            }
            match lookup(nm@, "f"@) {
                Some(TableValue::Table(s2, n2)) => {
                    lemma_faces_decode_encoded(s2@, m.faces);
                },
                _ => {
                    assert(false);
                },
            }
        },
        _ => {
            assert(false);
        },
    }
}

} // verus!

//! Faces: the textured polygons of a mesh.
//!
//! On the wire a face is a table literal such as
//! `{4,3,2,1, c=10, dbl=1, uv={16.25,0,1.25,0,15.5,2,-0.75,2} }`: a leading
//! sequence of 1-based vertex indices, a fallback color, four optional
//! boolean flags whose presence alone matters, and a flat sequence of UV
//! coordinates, two per vertex index.  Internally indices are 0-based; the
//! shift happens exactly at decode and encode.

use vstd::prelude::*;
use vstd::string::StringExecFns;
use crate::assets::color::Color;
use crate::assets::edge::Edge;
use crate::assets::num::{
    coord_in_range, coord_text, nat_text, push_coord_text, push_u64_text, chars_to_string,
};
use crate::assets::point::{Point2D, Point3D};
use crate::assets::table::{
    lookup, find_named, spec_scalar_coord, spec_scalar_index, scalar_coord, scalar_index,
    TableValue,
};
use crate::assets::text::push_str_chars;
use crate::error::{PicoError, PicoErrView};

verus! {

/// A vertex reference of a face together with its texture coordinates.
/// The index is 0-based here; the file format stores it 1-based.
#[derive(Debug, Copy, Clone, PartialEq, Eq, Structural)]
pub struct UVMap {
    pub vertex_index: usize,
    pub coords: Point2D<i64>,
}

impl UVMap {
    /// Creates the map of a vertex index to texture coordinates.
    pub fn new(vertex_index: usize, coords: Point2D<i64>) -> (r: UVMap)
        ensures
            r.vertex_index == vertex_index,
            r.coords == coords,
    {
        UVMap { vertex_index, coords }
    }
}

/// A face of a mesh: its ordered vertex references with their texture
/// coordinates, a fallback color, and four independent flags.
#[derive(Debug, Clone, PartialEq)]
pub struct Face {
    /// Rendered from both sides when set.
    pub double_sided: bool,
    /// Never shaded when set.
    pub no_shading: bool,
    /// Drawn before every other face when set.
    pub render_priority: bool,
    /// Shown in the fallback color instead of the texture when set.
    pub no_texture: bool,
    /// The fallback color.
    pub color: Color,
    /// The ordered vertex references; their order fixes the edge walk.
    pub uv_maps: Vec<UVMap>,
}

/// The mathematical shape of a [`Face`].
pub ghost struct FaceView {
    pub double_sided: bool,
    pub no_shading: bool,
    pub render_priority: bool,
    pub no_texture: bool,
    pub color: Color,
    pub uv_maps: Seq<UVMap>,
}

impl View for Face {
    type V = FaceView;

    open spec fn view(&self) -> FaceView {
        FaceView {
            double_sided: self.double_sided,
            no_shading: self.no_shading,
            render_priority: self.render_priority,
            no_texture: self.no_texture,
            color: self.color,
            uv_maps: self.uv_maps@,
        }
    }
}

/// The 0-based vertex indices of a face's sequence part: every element
/// must be a whole scalar of value at least one that fits the machine, or
/// the whole face is rejected.
pub open spec fn spec_indices(s: Seq<TableValue>) -> Result<Seq<usize>, PicoErrView>
    decreases s.len(),
{
    if s.len() == 0 {
        Ok(Seq::empty())
    } else {
        match spec_indices(s.drop_last()) {
            Err(e) => Err(e),
            Ok(pre) => match spec_scalar_index(s.last()) {
                Some(i) => if 1 <= i && i - 1 <= usize::MAX {
                    Ok(pre.push((i - 1) as usize))
                } else {
                    Err(PicoErrView::Lua("invalid vertex index"@))
                },
                None => Err(PicoErrView::Lua("invalid vertex index"@)),
            },
        }
    }
}

/// The fallback color of a face: an integer `c` field in 0..=15, anything
/// else (absent, wrong kind, out of range) being the `Invalid` sentinel.
pub open spec fn spec_face_color(o: Option<TableValue>) -> Color {
    match o {
        Some(TableValue::Int(i)) => if 0 <= i <= 15 {
            Color::spec_from_i32(i as i32)
        } else {
            Color::Invalid
        },
        _ => Color::Invalid,
    }
}

/// The numeric prefix of a UV sequence: scalar coordinates are taken in
/// order until the first element that is not one.
pub open spec fn spec_uv_prefix(s: Seq<TableValue>) -> Seq<int>
    decreases s.len(),
{
    if s.len() == 0 {
        Seq::empty()
    } else {
        match spec_scalar_coord(s[0]) {
            Some(v) => seq![v] + spec_uv_prefix(s.skip(1)),
            None => Seq::empty(),
        }
    }
}

/// The texture coordinates of a face with `n` vertex references: a `uv`
/// field that is a table must hold exactly `2 * n` numeric values, which
/// are paired in order; a mismatch is the counted error.  An absent `uv`
/// field, or one of any other kind, leaves every coordinate at the origin.
pub open spec fn spec_face_uvs(o: Option<TableValue>, n: int) -> Result<
    Seq<Point2D<i64>>,
    PicoErrView,
> {
    match o {
        Some(TableValue::Table(sq, nm)) => {
            let vals = spec_uv_prefix(sq@);
            if vals.len() != 2 * n {
                Err(PicoErrView::FaceUVMapLength(n, vals.len() as int))
            } else {
                Ok(Seq::new(n as nat, |i: int| Point2D { u: vals[2 * i] as i64, v: vals[2 * i + 1] as i64 }))
            }
        },
        _ => Ok(Seq::new(n as nat, |i: int| Point2D { u: 0i64, v: 0i64 })),
    }
}

/// The decode of a face table: the sequence part gives the 1-based vertex
/// indices in order, `c` the fallback color, the presence of `dbl`,
/// `noshade`, `notex` and `prio` the flags, and `uv` the texture
/// coordinates, paired onto the indices by position.  A value that is not
/// a table at all is rejected like any other evaluator-level fault.
pub open spec fn spec_decode_face(t: TableValue) -> Result<FaceView, PicoErrView> {
    match t {
        TableValue::Table(sq, nm) => match spec_indices(sq@) {
            Err(e) => Err(e),
            Ok(ids) => match spec_face_uvs(lookup(nm@, "uv"@), ids.len() as int) {
                Err(e) => Err(e),
                Ok(coords) => Ok(
                    FaceView {
                        double_sided: lookup(nm@, "dbl"@) is Some,
                        no_shading: lookup(nm@, "noshade"@) is Some,
                        render_priority: lookup(nm@, "prio"@) is Some,
                        no_texture: lookup(nm@, "notex"@) is Some,
                        color: spec_face_color(lookup(nm@, "c"@)),
                        uv_maps: Seq::new(
                            ids.len(),
                            |i: int| UVMap { vertex_index: ids[i], coords: coords[i] },
                        ),
                    },
                ),
            },
        },
        _ => Err(PicoErrView::Lua("face is not a table"@)),
    }
}

/// The serialized vertex indices: each index 1-based with a trailing comma.
pub open spec fn spec_idx_chunk(m: Seq<UVMap>) -> Seq<char>
    decreases m.len(),
{
    if m.len() == 0 {
        Seq::empty()
    } else {
        spec_idx_chunk(m.drop_last()) + nat_text(m.last().vertex_index + 1) + seq![',']
    }
}

/// One serialized texture coordinate pair.
pub open spec fn spec_uv_pair_text(m: UVMap) -> Seq<char> {
    coord_text(m.coords.u as int) + seq![','] + coord_text(m.coords.v as int)
}

/// The serialized texture coordinates: the pairs joined by commas.
pub open spec fn spec_uv_join(m: Seq<UVMap>) -> Seq<char>
    decreases m.len(),
{
    if m.len() == 0 {
        Seq::empty()
    } else if m.len() == 1 {
        spec_uv_pair_text(m[0])
    } else {
        spec_uv_join(m.drop_last()) + seq![','] + spec_uv_pair_text(m.last())
    }
}

/// The serialized flags, each written as `key=1` when set, in the fixed
/// order double-sided, no-shading, no-texture, render-priority.
pub open spec fn spec_flags_text(f: FaceView) -> Seq<char> {
    (if f.double_sided {
        "dbl=1, "@
    } else {
        Seq::empty()
    }) + (if f.no_shading {
        "noshade=1, "@
    } else {
        Seq::empty()
    }) + (if f.no_texture {
        "notex=1, "@
    } else {
        Seq::empty()
    }) + (if f.render_priority {
        "prio=1, "@
    } else {
        Seq::empty()
    })
}

/// The serialized face literal: the exact layout the tool writes, with
/// indices 1-based, the color code, the set flags, and the flat UV list.
pub open spec fn spec_face_text(f: FaceView) -> Seq<char> {
    seq!['{'] + spec_idx_chunk(f.uv_maps) + " c="@ + nat_text(f.color.spec_as_i32() as int)
        + ", "@ + spec_flags_text(f) + "uv={"@ + spec_uv_join(f.uv_maps) + "} }"@
}

/// The machine bounds a face must respect so that it can be serialized:
/// every coordinate within the text codec's range, every vertex index
/// below the machine's maximum.
pub open spec fn face_wf(f: FaceView) -> bool {
    forall|i: int| 0 <= i < f.uv_maps.len() ==> coord_in_range(
        (#[trigger] f.uv_maps[i]).coords.u as int,
    ) && coord_in_range(f.uv_maps[i].coords.v as int) && f.uv_maps[i].vertex_index < usize::MAX
}

/// The points a walk of the face's vertex references resolves, in order;
/// references outside the vertex list are skipped.
pub open spec fn spec_resolved(m: Seq<UVMap>, verts: Seq<Point3D<i64>>) -> Seq<Point3D<i64>>
    decreases m.len(),
{
    if m.len() == 0 {
        Seq::empty()
    } else if m[0].vertex_index < verts.len() {
        seq![verts[m[0].vertex_index as int]] + spec_resolved(m.skip(1), verts)
    } else {
        spec_resolved(m.skip(1), verts)
    }
}

/// The edge walk: edges between consecutive resolved points that differ,
/// and the final resolved point.  References outside the vertex list and
/// consecutive duplicate points produce no edge.
pub open spec fn spec_walk(m: Seq<UVMap>, verts: Seq<Point3D<i64>>, last: Point3D<i64>) -> (
    Seq<Edge>,
    Point3D<i64>,
)
    decreases m.len(),
{
    if m.len() == 0 {
        (Seq::empty(), last)
    } else if m[0].vertex_index < verts.len() {
        let v = verts[m[0].vertex_index as int];
        if v != last {
            let rest = spec_walk(m.skip(1), verts, v);
            (seq![Edge { start: last, end: v }] + rest.0, rest.1)
        } else {
            spec_walk(m.skip(1), verts, last)
        }
    } else {
        spec_walk(m.skip(1), verts, last)
    }
}

/// The wireframe edges of a face against a vertex list.  The references
/// are resolved in order, skipping any that lie outside the list,
/// wherever they stand.  Fewer than two resolved points give no edges;
/// otherwise the walk emits one edge between each pair of consecutive
/// resolved points that differ, plus the closing edge from the walk's
/// end back to the first resolved point — itself suppressed when the
/// walk ends where it started, so that no edge is ever degenerate.
pub open spec fn spec_face_edges(m: Seq<UVMap>, verts: Seq<Point3D<i64>>) -> Seq<Edge> {
    let resolved = spec_resolved(m, verts);
    if resolved.len() < 2 {
        Seq::empty()
    } else {
        let start = resolved[0];
        let walk = spec_walk(m, verts, start);
        if walk.1 == start {
            walk.0
        } else {
            walk.0.push(Edge { start: walk.1, end: start })
        }
    }
}

impl Face {
    /// Decodes a face from an evaluator tree, exactly as
    /// [`spec_decode_face`] describes.
    #[verifier::loop_isolation(false)]
    #[verifier::rlimit(100)]
    pub fn from_table(t: &TableValue) -> (r: Result<Face, PicoError>)
        ensures
            match r {
                Ok(f) => spec_decode_face(*t) == Ok::<FaceView, PicoErrView>(f@),
                Err(e) => spec_decode_face(*t) == Err::<FaceView, PicoErrView>(e@),
            },
    {
        match t {
            TableValue::Table(sq, nm) => {
                // The sequence part: 1-based indices, shifted down.
                let mut ids: Vec<usize> = Vec::new();
                let mut i: usize = 0;
                while i < sq.len()
                    invariant
                        0 <= i <= sq@.len(),
                        spec_indices(sq@.take(i as int)) == Ok::<Seq<usize>, PicoErrView>(ids@),
                    decreases sq@.len() - i,
                {
                    proof {
                        assert(sq@.take(i + 1).drop_last() =~= sq@.take(i as int));
                        assert(sq@.take(i + 1).last() == sq@[i as int]);
                    }
                    match scalar_index(&sq[i]) {
                        Some(v) => {
                            if v < 1 || (v - 1) as u64 > usize::MAX as u64 {
                                proof {
                                    lemma_indices_extend(sq@, i + 1);
                                }
                                return Err(PicoError::Lua(String::from_str(
                                    "invalid vertex index",
                                )));
                            }
                            ids.push((v - 1) as usize);
                        },
                        None => {
                            proof {
                                lemma_indices_extend(sq@, i + 1);
                            }
                            return Err(PicoError::Lua(String::from_str("invalid vertex index")));
                        },
                    }
                    i = i + 1;
                }
                assert(sq@.take(sq@.len() as int) =~= sq@);
                let n = ids.len();
                // Texture coordinates.
                let mut coords: Vec<Point2D<i64>> = Vec::new();
                match find_named(nm, "uv") {
                    Some(uvt) => {
                        match uvt {
                            TableValue::Table(sq2, _) => {
                                let mut vals: Vec<i64> = Vec::new();
                                let mut j: usize = 0;
                                let mut stopped = false;
                                proof {
                                    assert(sq2@.skip(0) =~= sq2@);
                                    assert(Seq::<i64>::empty().map_values(|x: i64| x as int)
                                        =~= Seq::<int>::empty());
                                }
                                while j < sq2.len() && !stopped
                                    invariant
                                        0 <= j <= sq2@.len(),
                                        !stopped ==> spec_uv_prefix(sq2@) =~= vals@.map_values(
                                            |x: i64| x as int,
                                        ) + spec_uv_prefix(sq2@.skip(j as int)),
                                        stopped ==> spec_uv_prefix(sq2@) =~= vals@.map_values(
                                            |x: i64| x as int,
                                        ),
                                    decreases sq2@.len() - j,
                                {
                                    proof {
                                        assert(sq2@.skip(j as int)[0] == sq2@[j as int]);
                                        assert(sq2@.skip(j as int).skip(1) =~= sq2@.skip(j + 1));
                                    }
                                    match scalar_coord(&sq2[j]) {
                                        Some(v) => {
                                            let ghost pre = vals@;
                                            vals.push(v);
                                            proof {
                                                assert(vals@.map_values(|x: i64| x as int)
                                                    =~= pre.map_values(|x: i64| x as int) + seq![
                                                    v as int,
                                                ]);
                                                assert(spec_uv_prefix(sq2@.skip(j as int))
                                                    == seq![v as int] + spec_uv_prefix(
                                                    sq2@.skip(j + 1),
                                                ));
                                            }
                                        },
                                        None => {
                                            stopped = true;
                                            proof {
                                                assert(spec_uv_prefix(sq2@.skip(j as int))
                                                    =~= Seq::<int>::empty());
                                            }
                                        },
                                    }
                                    j = j + 1;
                                }
                                proof {
                                    if !stopped {
                                        assert(spec_uv_prefix(sq2@.skip(sq2@.len() as int))
                                            =~= Seq::<int>::empty());
                                    }
                                }
                                let ghost gvals = spec_uv_prefix(sq2@);
                                assert(gvals =~= vals@.map_values(|x: i64| x as int));
                                assert(gvals.len() == vals@.len());
                                if !(vals.len() % 2 == 0 && vals.len() / 2 == n) {
                                    return Err(PicoError::FaceUVMapLength(n, vals.len()));
                                }
                                assert(vals@.len() == 2 * n);
                                let mut k: usize = 0;
                                while k < n
                                    invariant
                                        0 <= k <= n,
                                        n == ids@.len(),
                                        vals@.len() == 2 * n,
                                        gvals =~= vals@.map_values(|x: i64| x as int),
                                        gvals.len() == 2 * n,
                                        coords@.len() == k,
                                        forall|q: int| 0 <= q < k ==> #[trigger] coords@[q]
                                            == (Point2D { u: vals@[2 * q], v: vals@[2 * q + 1] }),
                                    decreases n - k,
                                {
                                    coords.push(
                                        Point2D { u: vals[2 * k], v: vals[2 * k + 1] },
                                    );
                                    k = k + 1;
                                }
                                proof {
                                    let want = spec_face_uvs(
                                        lookup(nm@, "uv"@),
                                        n as int,
                                    );
                                    assert(want is Ok);
                                    assert(coords@ =~= want->Ok_0);
                                }
                            },
                            _ => {
                                let mut k: usize = 0;
                                while k < n
                                    invariant
                                        0 <= k <= n,
                                        coords@.len() == k,
                                        forall|q: int| 0 <= q < k ==> #[trigger] coords@[q]
                                            == (Point2D { u: 0i64, v: 0i64 }),
                                    decreases n - k,
                                {
                                    coords.push(Point2D { u: 0i64, v: 0i64 });
                                    k = k + 1;
                                }
                                proof {
                                    assert(coords@ =~= spec_face_uvs(
                                        lookup(nm@, "uv"@),
                                        n as int,
                                    )->Ok_0);
                                }
                            },
                        }
                    },
                    None => {
                        let mut k: usize = 0;
                        while k < n
                            invariant
                                0 <= k <= n,
                                coords@.len() == k,
                                forall|q: int| 0 <= q < k ==> #[trigger] coords@[q] == (Point2D {
                                    u: 0i64,
                                    v: 0i64,
                                }),
                            decreases n - k,
                        {
                            coords.push(Point2D { u: 0i64, v: 0i64 });
                            k = k + 1;
                        }
                        proof {
                            assert(coords@ =~= spec_face_uvs(lookup(nm@, "uv"@), n as int)->Ok_0);
                        }
                    },
                }
                // Flags and color.
                let color = match find_named(nm, "c") {
                    Some(cv) => match cv {
                        TableValue::Int(ci) => {
                            if 0 <= *ci && *ci <= 15 {
                                Color::from(*ci as i32)
                            } else {
                                Color::Invalid
                            }
                        },
                        _ => Color::Invalid,
                    },
                    None => Color::Invalid,
                };
                let double_sided = match find_named(nm, "dbl") {
                    Some(_) => true,
                    None => false,
                };
                let no_shading = match find_named(nm, "noshade") {
                    Some(_) => true,
                    None => false,
                };
                let no_texture = match find_named(nm, "notex") {
                    Some(_) => true,
                    None => false,
                };
                let render_priority = match find_named(nm, "prio") {
                    Some(_) => true,
                    None => false,
                };
                let mut uv_maps: Vec<UVMap> = Vec::new();
                let mut k: usize = 0;
                while k < n
                    invariant
                        0 <= k <= n,
                        n == ids@.len(),
                        coords@.len() == n,
                        uv_maps@.len() == k,
                        forall|q: int| 0 <= q < k ==> #[trigger] uv_maps@[q] == (UVMap {
                            vertex_index: ids@[q],
                            coords: coords@[q],
                        }),
                    decreases n - k,
                {
                    uv_maps.push(UVMap { vertex_index: ids[k], coords: coords[k] });
                    k = k + 1;
                }
                let f = Face {
                    double_sided,
                    no_shading,
                    render_priority,
                    no_texture,
                    color,
                    uv_maps,
                };
                proof {
                    let want = spec_decode_face(*t)->Ok_0;
                    assert(f@.uv_maps =~= want.uv_maps);
                }
                Ok(f)
            },
            _ => Err(PicoError::Lua(String::from_str("face is not a table"))),
        }
    }

    /// Parses a face from the text of a table literal.  The text goes
    /// through the embedded evaluator, so a success is the decode of some
    /// tree the evaluator produced for it, and a failure is either an
    /// evaluator error or the decode error of such a tree.
    pub fn parse(s: &str) -> (r: Result<Face, PicoError>)
        ensures
            match r {
                Ok(f) => exists|tv: TableValue| #[trigger] spec_decode_face(tv) == Ok::<
                    FaceView,
                    PicoErrView,
                >(f@),
                Err(e) => e@ is Lua || (exists|tv: TableValue| #[trigger] spec_decode_face(tv)
                    == Err::<FaceView, PicoErrView>(e@)),
            },
    {
        match crate::assets::table::eval_literal(s) {
            Err(msg) => Err(PicoError::Lua(msg)),
            Ok(tv) => {
                let r = Face::from_table(&tv);
                proof {
                    match &r {
                        Ok(f) => {
                            assert(spec_decode_face(tv) == Ok::<FaceView, PicoErrView>(f@));
                        },
                        Err(e) => {
                            assert(spec_decode_face(tv) == Err::<FaceView, PicoErrView>(e@));
                        },
                    }
                }
                r
            },
        }
    }

    /// Serializes the face exactly as [`spec_face_text`] describes.
    #[verifier::loop_isolation(false)]
    pub fn serialize(&self) -> (r: String)
        requires
            face_wf(self@),
        ensures
            r@ == spec_face_text(self@),
    {
        let mut out: Vec<char> = Vec::new();
        self.push_text(&mut out);
        chars_to_string(&out)
    }

    /// Appends the serialized vertex indices, 1-based, each with a
    /// trailing comma.
    #[verifier::loop_isolation(false)]
    #[verifier::rlimit(100)]
    fn push_idx_chunk(m: &Vec<UVMap>, out: &mut Vec<char>)
        requires
            forall|i: int| 0 <= i < m@.len() ==> (#[trigger] m@[i]).vertex_index < usize::MAX,
        ensures
            final(out)@ == old(out)@ + spec_idx_chunk(m@),
    {
        let ghost base = out@;
        let mut i: usize = 0;
        while i < m.len()
            invariant
                0 <= i <= m@.len(),
                out@ == base + spec_idx_chunk(m@.take(i as int)),
            decreases m@.len() - i,
        {
            assert(m@[i as int].vertex_index < usize::MAX);
            push_u64_text(out, (m[i].vertex_index + 1) as u64);
            out.push(',');
            proof {
                assert(m@.take(i + 1).drop_last() =~= m@.take(i as int));
                assert(m@.take(i + 1).last() == m@[i as int]);
                assert(out@ =~= base + spec_idx_chunk(m@.take(i + 1)));
            }
            i = i + 1;
        }
        assert(m@.take(m@.len() as int) =~= m@);
    }

    /// Appends the serialized texture coordinates, pairs joined by commas.
    #[verifier::loop_isolation(false)]
    #[verifier::rlimit(100)]
    fn push_uv_join(m: &Vec<UVMap>, out: &mut Vec<char>)
        requires
            forall|i: int| 0 <= i < m@.len() ==> coord_in_range(
                (#[trigger] m@[i]).coords.u as int,
            ) && coord_in_range(m@[i].coords.v as int),
        ensures
            final(out)@ == old(out)@ + spec_uv_join(m@),
    {
        let ghost base = out@;
        let mut j: usize = 0;
        while j < m.len()
            invariant
                0 <= j <= m@.len(),
                out@ == base + spec_uv_join(m@.take(j as int)),
            decreases m@.len() - j,
        {
            if j > 0 {
                out.push(',');
            }
            assert(coord_in_range(m@[j as int].coords.u as int));
            assert(coord_in_range(m@[j as int].coords.v as int));
            push_coord_text(out, m[j].coords.u);
            out.push(',');
            push_coord_text(out, m[j].coords.v);
            proof {
                assert(m@.take(j + 1).drop_last() =~= m@.take(j as int));
                assert(m@.take(j + 1).last() == m@[j as int]);
                if j == 0 {
                    assert(m@.take(1).len() == 1);
                    assert(m@.take(1)[0] == m@[0]);
                    assert(out@ =~= base + spec_uv_join(m@.take(1)));
                } else {
                    assert(out@ =~= base + spec_uv_join(m@.take(j + 1)));
                }
            }
            j = j + 1;
        }
        assert(m@.take(m@.len() as int) =~= m@);
    }

    /// Appends the serialized face literal to `out`.
    #[verifier::rlimit(60)]
    pub fn push_text(&self, out: &mut Vec<char>)
        requires
            face_wf(self@),
        ensures
            final(out)@ == old(out)@ + spec_face_text(self@),
    {
        out.push('{');
        proof {
            assert(self@.uv_maps == self.uv_maps@);
            assert forall|i: int| 0 <= i < self.uv_maps@.len() implies (
            #[trigger] self.uv_maps@[i]).vertex_index < usize::MAX by {
                assert(coord_in_range(self@.uv_maps[i].coords.u as int) && coord_in_range(
                    self@.uv_maps[i].coords.v as int,
                ) && self@.uv_maps[i].vertex_index < usize::MAX);
            }
            assert forall|i: int| 0 <= i < self.uv_maps@.len() implies coord_in_range(
                (#[trigger] self.uv_maps@[i]).coords.u as int,
            ) && coord_in_range(self.uv_maps@[i].coords.v as int) by {
                assert(coord_in_range(self@.uv_maps[i].coords.u as int) && coord_in_range(
                    self@.uv_maps[i].coords.v as int,
                ) && self@.uv_maps[i].vertex_index < usize::MAX);
            }
        }
        Face::push_idx_chunk(&self.uv_maps, out);
        push_str_chars(out, " c=");
        assert(0 <= self.color.spec_as_i32() <= 15);
        push_u64_text(out, self.color.as_i32() as u64);
        push_str_chars(out, ", ");
        if self.double_sided {
            push_str_chars(out, "dbl=1, ");
        }
        if self.no_shading {
            push_str_chars(out, "noshade=1, ");
        }
        if self.no_texture {
            push_str_chars(out, "notex=1, ");
        }
        if self.render_priority {
            push_str_chars(out, "prio=1, ");
        }
        push_str_chars(out, "uv={");
        Face::push_uv_join(&self.uv_maps, out);
        push_str_chars(out, "} }");
        proof {
            assert(spec_flags_text(self@) == (if self@.double_sided {
                "dbl=1, "@
            } else {
                Seq::<char>::empty()
            }) + (if self@.no_shading {
                "noshade=1, "@
            } else {
                Seq::<char>::empty()
            }) + (if self@.no_texture {
                "notex=1, "@
            } else {
                Seq::<char>::empty()
            }) + (if self@.render_priority {
                "prio=1, "@
            } else {
                Seq::<char>::empty()
            }));
            assert(out@ =~= old(out)@ + spec_face_text(self@));
        }
    }

    /// The wireframe edges this face forms against the given vertex list,
    /// exactly as [`spec_face_edges`] describes: references that do not
    /// resolve are skipped, fewer than two resolved points give no edges,
    /// and the walk over the resolved points never emits a degenerate
    /// edge, closing edge included.
    #[verifier::loop_isolation(false)]
    pub fn edges(&self, mesh_vertices: &Vec<Point3D<i64>>) -> (r: Vec<Edge>)
        ensures
            r@ == spec_face_edges(self@.uv_maps, mesh_vertices@),
    {
        let m = &self.uv_maps;
        let resolved = self.vertices(mesh_vertices);
        if resolved.len() < 2 {
            return Vec::new();
        }
        let start: Point3D<i64> = resolved[0];
        let ghost full = spec_walk(m@, mesh_vertices@, start);
        let mut result: Vec<Edge> = Vec::new();
        let mut last: Point3D<i64> = start;
        let mut i: usize = 0;
        proof {
            assert(m@.skip(0) =~= m@);
        }
        while i < m.len()
            invariant
                0 <= i <= m@.len(),
                m == &self.uv_maps,
                ({
                    let rest = spec_walk(m@.skip(i as int), mesh_vertices@, last);
                    full.0 =~= result@ + rest.0 && full.1 == rest.1
                }),
            decreases m@.len() - i,
        {
            proof {
                assert(m@.skip(i as int)[0] == m@[i as int]);
                assert(m@.skip(i as int).skip(1) =~= m@.skip(i + 1));
            }
            let idx = m[i].vertex_index;
            if idx < mesh_vertices.len() {
                let vertex = mesh_vertices[idx];
                if !(vertex.x == last.x && vertex.y == last.y && vertex.z == last.z) {
                    result.push(Edge { start: last, end: vertex });
                    last = vertex;
                } else {
                    assert(vertex == last);
                }
            }
            i = i + 1;
        }
        proof {
            assert(m@.skip(m@.len() as int).len() == 0);
        }
        if !(last.x == start.x && last.y == start.y && last.z == start.z) {
            result.push(Edge { start: last, end: start });
        } else {
            assert(last == start);
        }
        assert(result@ =~= spec_face_edges(self@.uv_maps, mesh_vertices@));
        result
    }

    /// The points this face's references resolve to, in order, exactly as
    /// [`spec_resolved`] describes; unresolvable references are dropped.
    #[verifier::loop_isolation(false)]
    pub fn vertices(&self, mesh_vertices: &Vec<Point3D<i64>>) -> (r: Vec<Point3D<i64>>)
        ensures
            r@ == spec_resolved(self@.uv_maps, mesh_vertices@),
    {
        let m = &self.uv_maps;
        let mut result: Vec<Point3D<i64>> = Vec::new();
        let mut i: usize = 0;
        proof {
            assert(m@.skip(0) =~= m@);
        }
        while i < m.len()
            invariant
                0 <= i <= m@.len(),
                m == &self.uv_maps,
                spec_resolved(m@, mesh_vertices@) =~= result@ + spec_resolved(
                    m@.skip(i as int),
                    mesh_vertices@,
                ),
            decreases m@.len() - i,
        {
            proof {
                assert(m@.skip(i as int)[0] == m@[i as int]);
                assert(m@.skip(i as int).skip(1) =~= m@.skip(i + 1));
            }
            let idx = m[i].vertex_index;
            if idx < mesh_vertices.len() {
                result.push(mesh_vertices[idx]);
            }
            i = i + 1;
        }
        proof {
            assert(m@.skip(m@.len() as int).len() == 0);
            assert(result@ =~= spec_resolved(m@, mesh_vertices@));
        }
        result
    }
}

impl Default for Face {
    /// A face attached to no vertices: all flags clear, black, no
    /// references.
    fn default() -> (r: Face)
        ensures
            !r@.double_sided,
            !r@.no_shading,
            !r@.render_priority,
            !r@.no_texture,
            r@.color == Color::Black,
            r@.uv_maps.len() == 0,
    {
        Face {
            double_sided: false,
            no_shading: false,
            render_priority: false,
            no_texture: false,
            color: Color::Black,
            uv_maps: Vec::new(),
        }
    }
}

/// No edge of a walk is degenerate: every emitted edge joins two points
/// that differ.
proof fn lemma_walk_nondegenerate(m: Seq<UVMap>, verts: Seq<Point3D<i64>>, last: Point3D<i64>)
    ensures
        forall|i: int| 0 <= i < spec_walk(m, verts, last).0.len() ==> (#[trigger] spec_walk(
            m,
            verts,
            last,
        ).0[i]).start != spec_walk(m, verts, last).0[i].end,
    decreases m.len(),
{
    if m.len() > 0 {
        if m[0].vertex_index < verts.len() {
            let v = verts[m[0].vertex_index as int];
            if v != last {
                lemma_walk_nondegenerate(m.skip(1), verts, v);
                let walk = spec_walk(m, verts, last);
                let rest = spec_walk(m.skip(1), verts, v);
                assert(walk.0 == seq![Edge { start: last, end: v }] + rest.0);
                assert forall|i: int| 0 <= i < walk.0.len() implies (#[trigger] walk.0[i]).start
                    != walk.0[i].end by {
                    if i == 0 {
                        assert(walk.0[0] == (Edge { start: last, end: v }));
                    } else {
                        assert(walk.0[i] == rest.0[i - 1]);
                    }
                }
            } else {
                lemma_walk_nondegenerate(m.skip(1), verts, last);
                assert(spec_walk(m, verts, last) == spec_walk(m.skip(1), verts, last));
                assert forall|i: int| 0 <= i < spec_walk(m, verts, last).0.len() implies (
                #[trigger] spec_walk(m, verts, last).0[i]).start != spec_walk(
                    m,
                    verts,
                    last,
                ).0[i].end by {
                    assert(spec_walk(m, verts, last).0[i] == spec_walk(
                        m.skip(1),
                        verts,
                        last,
                    ).0[i]);
                }
            }
        } else {
            lemma_walk_nondegenerate(m.skip(1), verts, last);
            assert(spec_walk(m, verts, last) == spec_walk(m.skip(1), verts, last));
            assert forall|i: int| 0 <= i < spec_walk(m, verts, last).0.len() implies (
            #[trigger] spec_walk(m, verts, last).0[i]).start != spec_walk(
                m,
                verts,
                last,
            ).0[i].end by {
                assert(spec_walk(m, verts, last).0[i] == spec_walk(m.skip(1), verts, last).0[i]);
            }
        }
    }
}

/// The edge guarantees of a face walk: fewer than two resolved points
/// give the empty edge list, and no edge the walk does give is ever
/// degenerate — consecutive duplicate points and a walk that returns to
/// its first point produce nothing.
pub proof fn lemma_face_edges_shape(m: Seq<UVMap>, verts: Seq<Point3D<i64>>)
    ensures
        spec_resolved(m, verts).len() < 2 ==> spec_face_edges(m, verts) == Seq::<Edge>::empty(),
        forall|i: int| 0 <= i < spec_face_edges(m, verts).len() ==> (#[trigger] spec_face_edges(
            m,
            verts,
        )[i]).start != spec_face_edges(m, verts)[i].end,
{
    let resolved = spec_resolved(m, verts);
    if resolved.len() >= 2 {
        let start = resolved[0];
        lemma_walk_nondegenerate(m, verts, start);
        let walk = spec_walk(m, verts, start);
        let out = spec_face_edges(m, verts);
        if walk.1 != start {
            assert forall|i: int| 0 <= i < out.len() implies (#[trigger] out[i]).start
                != out[i].end by {
                if i < walk.0.len() {
                    assert(out[i] == walk.0[i]);
                } else {
                    assert(out[i] == (Edge { start: walk.1, end: start }));
                }
            }
        }
    }
}

/// What any evaluator tree for a serialized face must look like: one
/// whole scalar per vertex reference carrying the 1-based index, the
/// color code as the integer `c` field, each flag key present exactly
/// when the flag is set, and a `uv` table of scalars carrying the flat
/// coordinates.  The named fields may come back in any order.
pub open spec fn face_tree_encodes(t: TableValue, f: FaceView) -> bool {
    match t {
        TableValue::Table(sq, nm) => {
            &&& sq@.len() == f.uv_maps.len()
            &&& forall|i: int| 0 <= i < sq@.len() ==> spec_scalar_index(#[trigger] sq@[i]) == Some(
                f.uv_maps[i].vertex_index + 1,
            )
            &&& lookup(nm@, "c"@) == Some(TableValue::Int(f.color.spec_as_i32() as i64))
            &&& (lookup(nm@, "dbl"@) is Some) == f.double_sided
            &&& (lookup(nm@, "noshade"@) is Some) == f.no_shading
            &&& (lookup(nm@, "notex"@) is Some) == f.no_texture
            &&& (lookup(nm@, "prio"@) is Some) == f.render_priority
            &&& match lookup(nm@, "uv"@) {
                Some(TableValue::Table(sq2, nm2)) => sq2@.len() == 2 * f.uv_maps.len()
                    && (forall|i: int| 0 <= i < sq2@.len() ==> spec_scalar_coord(
                    #[trigger] sq2@[i],
                ) == Some(
                    if i % 2 == 0 {
                        f.uv_maps[i / 2].coords.u as int
                    } else {
                        f.uv_maps[i / 2].coords.v as int
                    },
                )),
                _ => false,
            }
        },
        _ => false,
    }
}

/// A sequence of scalars carrying 1-based indices decodes to the 0-based
/// indices.
proof fn lemma_indices_encoded(sq: Seq<TableValue>, m: Seq<UVMap>)
    requires
        sq.len() == m.len(),
        forall|i: int| 0 <= i < sq.len() ==> spec_scalar_index(#[trigger] sq[i]) == Some(
            m[i].vertex_index + 1,
        ),
    ensures
        spec_indices(sq) == Ok::<Seq<usize>, PicoErrView>(
            m.map_values(|u: UVMap| u.vertex_index),
        ),
    decreases sq.len(),
{
    if sq.len() == 0 {
        assert(m.map_values(|u: UVMap| u.vertex_index) =~= Seq::<usize>::empty());
    } else {
        assert(forall|i: int| 0 <= i < sq.len() - 1 ==> sq.drop_last()[i] == sq[i]);
        assert(forall|i: int| 0 <= i < m.len() - 1 ==> m.drop_last()[i] == m[i]);
        lemma_indices_encoded(sq.drop_last(), m.drop_last());
        let idx = m.last().vertex_index;
        assert(spec_scalar_index(sq.last()) == Some(idx + 1));
        assert(1 <= idx + 1 && idx + 1 - 1 <= usize::MAX);
        assert(m.map_values(|u: UVMap| u.vertex_index) =~= m.drop_last().map_values(
            |u: UVMap| u.vertex_index,
        ).push(idx));
    }
}

/// A sequence of scalars carrying the given values decodes wholly to
/// those values.
proof fn lemma_uv_prefix_encoded(sq: Seq<TableValue>, vals: Seq<int>)
    requires
        sq.len() == vals.len(),
        forall|i: int| 0 <= i < sq.len() ==> spec_scalar_coord(#[trigger] sq[i]) == Some(vals[i]),
    ensures
        spec_uv_prefix(sq) == vals,
    decreases sq.len(),
{
    if sq.len() == 0 {
        assert(spec_uv_prefix(sq) =~= vals);
    } else {
        assert(forall|i: int| 0 <= i < sq.len() - 1 ==> sq.skip(1)[i] == sq[i + 1]);
        lemma_uv_prefix_encoded(sq.skip(1), vals.skip(1));
        assert(spec_scalar_coord(sq[0]) == Some(vals[0]));
        assert(spec_uv_prefix(sq) == seq![vals[0]] + vals.skip(1));
        assert(seq![vals[0]] + vals.skip(1) =~= vals);
    }
}

/// Decoding any tree that encodes a face gives back exactly that face:
/// the tree-level half of the document round trip.  The face's color must
/// not be the `Invalid` sentinel, which is written as the code of black.
#[verifier::rlimit(100)]
pub proof fn lemma_face_decode_encoded(t: TableValue, f: FaceView)
    requires
        face_tree_encodes(t, f),
        f.color != Color::Invalid,
    ensures
        spec_decode_face(t) == Ok::<FaceView, PicoErrView>(f),
{
    match t {
        TableValue::Table(sq, nm) => {
            lemma_indices_encoded(sq@, f.uv_maps);
            let ids = f.uv_maps.map_values(|u: UVMap| u.vertex_index);
            match lookup(nm@, "uv"@) {
                Some(TableValue::Table(sq2, nm2)) => {
                    let vals = Seq::new(
                        sq2@.len(),
                        |i: int|
                            if i % 2 == 0 {
                                f.uv_maps[i / 2].coords.u as int
                            } else {
                                f.uv_maps[i / 2].coords.v as int
                            },
                    );
                    lemma_uv_prefix_encoded(sq2@, vals);
                    let uvs = spec_face_uvs(lookup(nm@, "uv"@), ids.len() as int);
                    assert(vals.len() == 2 * ids.len());
                    assert(uvs is Ok);
                    let coords = uvs->Ok_0;
                    assert forall|i: int| 0 <= i < ids.len() implies #[trigger] coords[i]
                        == f.uv_maps[i].coords by {
                        assert((2 * i) % 2 == 0 && (2 * i) / 2 == i) by (nonlinear_arith);
                        assert((2 * i + 1) % 2 == 1 && (2 * i + 1) / 2 == i) by (nonlinear_arith);
                        assert(vals[2 * i] == f.uv_maps[i].coords.u as int);
                        assert(vals[2 * i + 1] == f.uv_maps[i].coords.v as int);
                    }
                    assert(0 <= f.color.spec_as_i32() <= 15);
                    crate::assets::color::lemma_color_code_inverse(f.color);
                    assert(spec_face_color(lookup(nm@, "c"@)) == f.color);
                    let out = spec_decode_face(t)->Ok_0;
                    assert(out.uv_maps =~= f.uv_maps) by {
                        assert forall|i: int| 0 <= i < out.uv_maps.len() implies #[trigger] out
                            .uv_maps[i] == f.uv_maps[i] by {
                            assert(out.uv_maps[i] == (UVMap {
                                vertex_index: ids[i],
                                coords: coords[i],
                            }));
                        }
                    }
                },
                _ => {
                    assert(false);
                },
            }
        },
        _ => {
            assert(false);
        },
    }
}

/// An error in an index prefix decides the whole sequence.
proof fn lemma_indices_extend(s: Seq<TableValue>, j: int)
    requires
        0 <= j <= s.len(),
        spec_indices(s.take(j)) is Err,
    ensures
        spec_indices(s) == spec_indices(s.take(j)),
    decreases s.len() - j,
{
    if j < s.len() {
        assert(s.take(j + 1).drop_last() =~= s.take(j));
        lemma_indices_extend(s, j + 1);
    } else {
        assert(s.take(j) =~= s);
    }
}

} // verus!

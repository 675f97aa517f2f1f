//! The whole document: header, mesh list, footer.
//!
//! A project file is split at fixed separators: the header is everything
//! before the first line feed, the footer everything after the last `%` in
//! the remainder, and the mesh list what stands between them.  The mesh
//! list is one table literal holding one table per mesh; the embedded
//! evaluator turns it into a tree (see [`super::table`]) and the verified
//! decoders do the rest.

use vstd::prelude::*;
use vstd::string::StringExecFns;
use crate::assets::color::Color;
use crate::assets::footer::{
    spec_parse_footer, spec_footer_text, Footer,
};
use crate::assets::header::{
    spec_parse_header, spec_header_text, Header, HeaderView,
};
use crate::assets::mesh::{
    spec_decode_mesh, spec_mesh_text, mesh_wf, Mesh, MeshView,
};
use crate::assets::num::{find_first, str_to_chars, chars_to_string};
use crate::assets::table::{eval_literal, TableValue};
use crate::assets::text::{
    find_last, lemma_find_last_is, subrange_chars, find_char, rfind_char, push_str_chars,
};
use crate::error::{PicoError, PicoErrView};

verus! {

/// A parsed project: the same information as a project file.
#[derive(Debug, Clone, PartialEq)]
pub struct Model {
    /// The settings line.
    pub header: Header,
    /// The meshes, in file order.
    pub meshes: Vec<Mesh>,
    /// The texture grid.
    pub footer: Footer,
}

/// The mathematical shape of a [`Model`].
pub ghost struct ModelView {
    pub header: HeaderView,
    pub meshes: Seq<MeshView>,
    pub footer: Seq<Color>,
}

impl View for Model {
    type V = ModelView;

    open spec fn view(&self) -> ModelView {
        ModelView {
            header: self.header@,
            meshes: self.meshes@.map_values(|m: Mesh| m@),
            footer: self.footer@,
        }
    }
}

/// The three-way split of a document: the text before the first line feed,
/// the text between that line feed and the last `%` of the remainder, and
/// the text after that `%`.  A missing separator is the named split error.
pub open spec fn spec_split_model(s: Seq<char>) -> Result<
    (Seq<char>, Seq<char>, Seq<char>),
    PicoErrView,
> {
    let i = find_first(s, '\n');
    if i == s.len() {
        Err(PicoErrView::Split("seperate header from meshes with '\\n'"@))
    } else {
        let rest = s.skip(i + 1);
        let j = find_last(rest, '%');
        if j == -1 {
            Err(PicoErrView::Split("seperate meshes from footer with '%'"@))
        } else {
            Ok((s.take(i), rest.take(j), rest.skip(j + 1)))
        }
    }
}

/// The decode of a mesh list: every element a mesh table, any single
/// failure aborting the whole list with that mesh's error.
pub open spec fn spec_decode_meshes(s: Seq<TableValue>) -> Result<Seq<MeshView>, PicoErrView>
    decreases s.len(),
{
    if s.len() == 0 {
        Ok(Seq::empty())
    } else {
        match spec_decode_meshes(s.drop_last()) {
            Err(e) => Err(e),
            Ok(pre) => match spec_decode_mesh(s.last()) {
                Err(e) => Err(e),
                Ok(m) => Ok(pre.push(m)),
            },
        }
    }
}

/// The assembly of a document from its three decoded parts: the header
/// line, the evaluator's tree for the mesh list (which must be a table of
/// mesh tables), and the footer text.  The header is parsed first, then
/// the footer, then the meshes; the first failure decides.
pub open spec fn spec_model_from_parts(h: Seq<char>, t: TableValue, f: Seq<char>) -> Result<
    ModelView,
    PicoErrView,
> {
    match spec_parse_header(h) {
        Err(e) => Err(e),
        Ok(hv) => match spec_parse_footer(f) {
            Err(e) => Err(e),
            Ok(fv) => match t {
                TableValue::Table(sq, nm) => match spec_decode_meshes(sq@) {
                    Err(e) => Err(e),
                    Ok(ms) => Ok(ModelView { header: hv, meshes: ms, footer: fv }),
                },
                _ => Err(PicoErrView::Lua("mesh list is not a table"@)),
            },
        },
    }
}

/// The serialized mesh list body: the mesh literals joined by commas.
pub open spec fn spec_mesh_join(ms: Seq<MeshView>) -> Seq<char>
    decreases ms.len(),
{
    if ms.len() == 0 {
        Seq::empty()
    } else if ms.len() == 1 {
        spec_mesh_text(ms[0])
    } else {
        spec_mesh_join(ms.drop_last()) + seq![','] + spec_mesh_text(ms.last())
    }
}

/// The serialized document: header line, mesh list in braces, the `%`
/// separator, and the footer grid.
pub open spec fn spec_model_text(m: ModelView) -> Seq<char> {
    spec_header_text(m.header) + "\n{\n"@ + spec_mesh_join(m.meshes) + "\n}%\n"@
        + spec_footer_text(m.footer)
}

/// The machine bounds a model must respect so that it can be serialized.
pub open spec fn model_wf(m: ModelView) -> bool {
    &&& forall|i: int| 0 <= i < m.meshes.len() ==> mesh_wf(#[trigger] m.meshes[i])
    &&& m.footer.len() == 15360
}

/// Splits a document into its header, mesh-list and footer parts, exactly
/// as [`spec_split_model`] describes.
fn split_chars(cs: &Vec<char>) -> (r: Result<(Vec<char>, Vec<char>, Vec<char>), PicoError>)
    ensures
        match r {
            Ok(parts) => spec_split_model(cs@) == Ok::<_, PicoErrView>(
                (parts.0@, parts.1@, parts.2@),
            ),
            Err(e) => spec_split_model(cs@) == Err::<(Seq<char>, Seq<char>, Seq<char>), _>(e@),
        },
{
    let n = cs.len();
    let i = find_char(cs, 0, '\n');
    proof {
        assert(cs@.skip(0) =~= cs@);
    }
    if i == n {
        return Err(PicoError::Split(String::from_str("seperate header from meshes with '\\n'")));
    }
    let rest = subrange_chars(cs, i + 1, n);
    proof {
        assert(rest@ =~= cs@.skip(i as int + 1));
    }
    let j = rfind_char(&rest, '%');
    if j == 0 {
        proof {
            lemma_find_last_is(rest@, '%', -1);
        }
        return Err(PicoError::Split(String::from_str("seperate meshes from footer with '%'")));
    }
    proof {
        lemma_find_last_is(rest@, '%', j - 1);
    }
    let header = subrange_chars(cs, 0, i);
    let meshes_txt = subrange_chars(&rest, 0, j - 1);
    let footer_txt = subrange_chars(&rest, j, rest.len());
    proof {
        assert(header@ =~= cs@.take(i as int));
        assert(meshes_txt@ =~= rest@.take(j - 1));
        assert(footer_txt@ =~= rest@.skip(j - 1 + 1));
    }
    Ok((header, meshes_txt, footer_txt))
}

/// Splits a document into the literal texts of its header, mesh list and
/// footer, exactly as [`spec_split_model`] describes; fails when either
/// separator is missing.
pub fn seperate_model(model: &str) -> (r: Result<(String, String, String), PicoError>)
    ensures
        match r {
            Ok(parts) => spec_split_model(model@) == Ok::<_, PicoErrView>(
                (parts.0@, parts.1@, parts.2@),
            ),
            Err(e) => spec_split_model(model@) == Err::<(Seq<char>, Seq<char>, Seq<char>), _>(
                e@,
            ),
        },
{
    let cs = str_to_chars(model);
    match split_chars(&cs) {
        Ok(parts) => Ok(
            (chars_to_string(&parts.0), chars_to_string(&parts.1), chars_to_string(&parts.2)),
        ),
        Err(e) => Err(e),
    }
}

impl Model {
    /// Assembles a document from its three parts — the header line, the
    /// evaluator's tree for the mesh list, and the footer text — exactly
    /// as [`spec_model_from_parts`] describes.
    #[verifier::loop_isolation(false)]
    pub fn from_parts(header: &str, tables: &TableValue, footer: &str) -> (r: Result<
        Model,
        PicoError,
    >)
        ensures
            match r {
                Ok(m) => spec_model_from_parts(header@, *tables, footer@) == Ok::<
                    ModelView,
                    PicoErrView,
                >(m@),
                Err(e) => spec_model_from_parts(header@, *tables, footer@) == Err::<
                    ModelView,
                    PicoErrView,
                >(e@),
            },
    {
        let h = match Header::parse(header) {
            Ok(h) => h,
            Err(e) => {
                return Err(e);
            },
        };
        let f = match Footer::parse(footer) {
            Ok(f) => f,
            Err(e) => {
                return Err(e);
            },
        };
        match tables {
            TableValue::Table(sq, _) => {
                let mut meshes: Vec<Mesh> = Vec::new();
                let mut i: usize = 0;
                proof {
                    assert(meshes@.map_values(|m: Mesh| m@) =~= Seq::<MeshView>::empty());
                }
                while i < sq.len()
                    invariant
                        0 <= i <= sq@.len(),
                        spec_decode_meshes(sq@.take(i as int)) == Ok::<Seq<MeshView>, PicoErrView>(
                            meshes@.map_values(|m: Mesh| m@),
                        ),
                    decreases sq@.len() - i,
                {
                    proof {
                        assert(sq@.take(i + 1).drop_last() =~= sq@.take(i as int));
                        assert(sq@.take(i + 1).last() == sq@[i as int]);
                    }
                    match Mesh::from_table(&sq[i]) {
                        Ok(m) => {
                            let ghost pre = meshes@;
                            meshes.push(m);
                            proof {
                                assert(meshes@.map_values(|m: Mesh| m@) =~= pre.map_values(
                                    |m: Mesh| m@,
                                ).push(m@));
                            }
                        },
                        Err(e) => {
                            proof {
                                lemma_meshes_extend(sq@, i + 1);
                            }
                            return Err(e);
                        },
                    }
                    i = i + 1;
                }
                assert(sq@.take(sq@.len() as int) =~= sq@);
                Ok(Model { header: h, meshes, footer: f })
            },
            _ => Err(PicoError::Lua(String::from_str("mesh list is not a table"))),
        }
    }

    /// Parses a whole document.  The split and the header and footer
    /// codecs are exact; the mesh list goes through the embedded
    /// evaluator, so the meshes of a successful parse are the decode of
    /// some tree the evaluator produced for the mesh-list text, and a
    /// failure is either an evaluator error or the decode error of such a
    /// tree.
    pub fn parse(s: &str) -> (r: Result<Model, PicoError>)
        ensures
            match r {
                Ok(m) => spec_split_model(s@) is Ok && (exists|tv: TableValue|
                    #[trigger] spec_model_from_parts(
                        spec_split_model(s@)->Ok_0.0,
                        tv,
                        spec_split_model(s@)->Ok_0.2,
                    ) == Ok::<ModelView, PicoErrView>(m@)),
                Err(e) => spec_split_model(s@) == Err::<(Seq<char>, Seq<char>, Seq<char>), _>(e@)
                    || (spec_split_model(s@) is Ok && (e@ is Lua || (exists|tv: TableValue|
                    #[trigger] spec_model_from_parts(
                        spec_split_model(s@)->Ok_0.0,
                        tv,
                        spec_split_model(s@)->Ok_0.2,
                    ) == Err::<ModelView, PicoErrView>(e@)))),
            },
    {
        let cs = str_to_chars(s);
        let parts = match split_chars(&cs) {
            Ok(p) => p,
            Err(e) => {
                return Err(e);
            },
        };
        let hstr = chars_to_string(&parts.0);
        let mstr = chars_to_string(&parts.1);
        let fstr = chars_to_string(&parts.2);
        match eval_literal(mstr.as_str()) {
            Err(msg) => Err(PicoError::Lua(msg)),
            Ok(tv) => {
                let r = Model::from_parts(hstr.as_str(), &tv, fstr.as_str());
                proof {
                    let h = spec_split_model(s@)->Ok_0.0;
                    let f = spec_split_model(s@)->Ok_0.2;
                    match &r {
                        Ok(m) => {
                            assert(spec_model_from_parts(h, tv, f) == Ok::<
                                ModelView,
                                PicoErrView,
                            >(m@));
                        },
                        Err(e) => {
                            assert(spec_model_from_parts(h, tv, f) == Err::<
                                ModelView,
                                PicoErrView,
                            >(e@));
                        },
                    }
                }
                r
            },
        }
    }

    /// Serializes the document exactly as [`spec_model_text`] describes.
    #[verifier::loop_isolation(false)]
    #[verifier::rlimit(100)]
    pub fn serialize(&self) -> (r: String)
        requires
            model_wf(self@),
            self.footer.wf(),
        ensures
            r@ == spec_model_text(self@),
    {
        let mut out: Vec<char> = Vec::new();
        let hs = self.header.serialize();
        push_str_chars(&mut out, hs.as_str());
        push_str_chars(&mut out, "\n{\n");
        let ghost base = out@;
        let mut i: usize = 0;
        while i < self.meshes.len()
            invariant
                0 <= i <= self.meshes@.len(),
                out@ == base + spec_mesh_join(self@.meshes.take(i as int)),
            decreases self.meshes@.len() - i,
        {
            if i > 0 {
                out.push(',');
            }
            assert(mesh_wf(self@.meshes[i as int]));
            assert(self@.meshes[i as int] == self.meshes@[i as int]@);
            let ms = self.meshes[i].serialize();
            push_str_chars(&mut out, ms.as_str());
            proof {
                assert(self@.meshes.take(i + 1).drop_last() =~= self@.meshes.take(i as int));
                assert(self@.meshes.take(i + 1).last() == self@.meshes[i as int]);
                if i == 0 {
                    assert(self@.meshes.take(1).len() == 1);
                    assert(self@.meshes.take(1)[0] == self@.meshes[0]);
                    assert(out@ =~= base + spec_mesh_join(self@.meshes.take(1)));
                } else {
                    assert(out@ =~= base + spec_mesh_join(self@.meshes.take(i + 1)));
                }
            }
            i = i + 1;
        }
        assert(self@.meshes.take(self@.meshes.len() as int) =~= self@.meshes);
        push_str_chars(&mut out, "\n}%\n");
        let fs = self.footer.serialize();
        push_str_chars(&mut out, fs.as_str());
        let r = chars_to_string(&out);
        proof {
            assert(r@ =~= spec_model_text(self@));
        }
        r
    }
}

impl Default for Model {
    /// A fresh project: the default header, no meshes, a black texture.
    fn default() -> (r: Model)
        ensures
            r@.header.identifier == "picocad"@,
            r@.header.name == "unnamed"@,
            r@.header.zoom == 16,
            r@.header.background == Color::DarkBlue,
            r@.header.alpha == Color::Black,
            r@.meshes.len() == 0,
            r@.footer.len() == 15360,
            forall|i: int| 0 <= i < 15360 ==> r@.footer[i] == Color::Black,
            r.footer.wf(),
    {
        let r = Model { header: Header::default(), meshes: Vec::new(), footer: Footer::default() };
        proof {
            assert(r@.meshes =~= Seq::<MeshView>::empty());
        }
        r
    }
}

/// An error in a mesh-list prefix decides the whole list.
proof fn lemma_meshes_extend(s: Seq<TableValue>, j: int)
    requires
        0 <= j <= s.len(),
        spec_decode_meshes(s.take(j)) is Err,
    ensures
        spec_decode_meshes(s) == spec_decode_meshes(s.take(j)),
    decreases s.len() - j,
{
    if j < s.len() {
        assert(s.take(j + 1).drop_last() =~= s.take(j));
        lemma_meshes_extend(s, j + 1);
    } else {
        assert(s.take(j) =~= s);
    }
}

/// No character of a serialized header line is a line feed, as long as
/// the name holds none: the line is the whole first line of the document.
proof fn lemma_header_text_no_newline(h: HeaderView)
    requires
        forall|k: int| 0 <= k < h.name.len() ==> h.name[k] != '\n',
    ensures
        forall|k: int| 0 <= k < spec_header_text(h).len() ==> #[trigger] spec_header_text(h)[k]
            != '\n',
{
    reveal_strlit("picocad;");
    reveal_strlit(";");
    let line = spec_header_text(h);
    let zt = crate::assets::num::nat_text(h.zoom as int);
    let bt = crate::assets::num::nat_text(h.background.spec_as_i32() as int);
    let at = crate::assets::num::nat_text(h.alpha.spec_as_i32() as int);
    assert(0 <= h.background.spec_as_i32() <= 15);
    assert(0 <= h.alpha.spec_as_i32() <= 15);
    crate::assets::num::lemma_nat_text_val(h.zoom as int);
    crate::assets::num::lemma_nat_text_val(h.background.spec_as_i32() as int);
    crate::assets::num::lemma_nat_text_val(h.alpha.spec_as_i32() as int);
    assert("picocad;"@ =~= seq!['p', 'i', 'c', 'o', 'c', 'a', 'd', ';']);
    assert(";"@ =~= seq![';']);
    assert forall|k: int| 0 <= k < line.len() implies #[trigger] line[k] != '\n' by {
        if k < 8 {
            assert(line[k] == seq!['p', 'i', 'c', 'o', 'c', 'a', 'd', ';'][k]);
        } else if k < 8 + h.name.len() {
            assert(line[k] == h.name[k - 8]);
        } else if k == 8 + h.name.len() {
            assert(line[k] == ';');
        } else if k < 9 + h.name.len() + zt.len() {
            assert(line[k] == zt[k - 9 - h.name.len()]);
            assert(crate::assets::num::is_digit(zt[k - 9 - h.name.len()]));
        } else if k == 9 + h.name.len() + zt.len() {
            assert(line[k] == ';');
        } else if k < 10 + h.name.len() + zt.len() + bt.len() {
            assert(line[k] == bt[k - 10 - h.name.len() - zt.len()]);
            assert(crate::assets::num::is_digit(bt[k - 10 - h.name.len() - zt.len()]));
        } else if k == 10 + h.name.len() + zt.len() + bt.len() {
            assert(line[k] == ';');
        } else {
            assert(line[k] == at[k - 11 - h.name.len() - zt.len() - bt.len()]);
            assert(crate::assets::num::is_digit(at[k - 11 - h.name.len() - zt.len() - bt.len()]));
        }
    }
}

/// What any evaluator tree for a serialized document's mesh list must
/// look like: one encoded mesh table per mesh, in order.
pub open spec fn model_tree_encodes(t: TableValue, m: ModelView) -> bool {
    match t {
        TableValue::Table(sq, nm) => sq@.len() == m.meshes.len() && (forall|i: int|
            0 <= i < sq@.len() ==> crate::assets::mesh::mesh_tree_encodes(
                #[trigger] sq@[i],
                m.meshes[i],
            )),
        _ => false,
    }
}

/// Whether no face of any mesh carries the `Invalid` color sentinel.
pub open spec fn model_colors_ok(m: ModelView) -> bool {
    forall|i: int| 0 <= i < m.meshes.len() ==> crate::assets::mesh::mesh_colors_ok(
        #[trigger] m.meshes[i],
    )
}

/// An encoded mesh list decodes back to its meshes.
proof fn lemma_meshes_decode_encoded(s: Seq<TableValue>, ms: Seq<MeshView>)
    requires
        s.len() == ms.len(),
        forall|i: int| 0 <= i < s.len() ==> crate::assets::mesh::mesh_tree_encodes(
            #[trigger] s[i],
            ms[i],
        ),
        forall|i: int| 0 <= i < ms.len() ==> crate::assets::mesh::mesh_colors_ok(
            #[trigger] ms[i],
        ),
    ensures
        spec_decode_meshes(s) == Ok::<Seq<MeshView>, PicoErrView>(ms),
    decreases s.len(),
{
    if s.len() == 0 {
        assert(ms =~= Seq::<MeshView>::empty());
    } else {
        assert(forall|i: int| 0 <= i < s.len() - 1 ==> s.drop_last()[i] == s[i]);
        assert(forall|i: int| 0 <= i < ms.len() - 1 ==> ms.drop_last()[i] == ms[i]);
        lemma_meshes_decode_encoded(s.drop_last(), ms.drop_last());
        crate::assets::mesh::lemma_mesh_decode_encoded(s.last(), ms.last());
        assert(ms.drop_last().push(ms.last()) =~= ms);
    }
}

/// A serialized document splits back into its header line, its mesh-list
/// chunk, and a footer chunk that is the footer text behind one line
/// feed.
#[verifier::rlimit(100)]
proof fn lemma_model_text_split(m: ModelView)
    requires
        forall|k: int| 0 <= k < m.header.name.len() ==> m.header.name[k] != '\n',
        m.footer.len() == 15360,
    ensures
        spec_split_model(spec_model_text(m)) == Ok::<_, PicoErrView>(
            (
                spec_header_text(m.header),
                "{\n"@ + spec_mesh_join(m.meshes) + "\n}"@,
                seq!['\n'] + spec_footer_text(m.footer),
            ),
        ),
{
    reveal_strlit("\n{\n");
    reveal_strlit("\n}%\n");
    reveal_strlit("{\n");
    reveal_strlit("\n}");
    let h = spec_header_text(m.header);
    let j = spec_mesh_join(m.meshes);
    let f = spec_footer_text(m.footer);
    let text = spec_model_text(m);
    assert("\n{\n"@ =~= seq!['\n', '{', '\n']);
    assert("\n}%\n"@ =~= seq!['\n', '}', '%', '\n']);
    assert("{\n"@ =~= seq!['{', '\n']);
    assert("\n}"@ =~= seq!['\n', '}']);
    lemma_header_text_no_newline(m.header);
    // The first line feed stands right after the header line.
    assert(text[h.len() as int] == '\n');
    assert(forall|k: int| 0 <= k < h.len() ==> #[trigger] text[k] == h[k]);
    crate::assets::num::lemma_find_first_is(text, '\n', h.len() as int);
    assert(text.take(h.len() as int) =~= h);
    let rest = text.skip(h.len() as int + 1);
    assert(rest =~= seq!['{', '\n'] + j + seq!['\n', '}', '%', '\n'] + f);
    // The last percent sign is the separator before the footer.
    let p = 2 + j.len() + 2;
    assert(rest[p as int] == '%');
    crate::assets::footer::lemma_footer_text_no_percent(m.footer, 0);
    assert(forall|k: int| p < k < rest.len() ==> #[trigger] rest[k] != '%') by {
        assert forall|k: int| p < k < rest.len() implies #[trigger] rest[k] != '%' by {
            if k == p + 1 {
                assert(rest[k] == '\n');
            } else {
                assert(rest[k] == f[k - p - 2]);
            }
        }
    }
    crate::assets::text::lemma_find_last_is(rest, '%', p as int);
    assert(rest.take(p as int) =~= seq!['{', '\n'] + j + seq!['\n', '}']);
    assert(rest.take(p as int) =~= "{\n"@ + j + "\n}"@);
    assert(rest.skip(p as int + 1) =~= seq!['\n'] + f);
}

/// A serialized document parses back to the same model, through any tree
/// the evaluator may produce for its mesh-list chunk that encodes the
/// meshes: the whole document round trip, short of the trusted evaluator
/// itself.  The header must carry the magic identifier and a name free of
/// semicolons and line feeds, and no color of the model may be the
/// `Invalid` sentinel, which is written as the code of black.
#[verifier::rlimit(100)]
pub proof fn lemma_model_round_trip(m: ModelView, t: TableValue)
    requires
        m.header.identifier == "picocad"@,
        forall|k: int| 0 <= k < m.header.name.len() ==> m.header.name[k] != ';'
            && m.header.name[k] != '\n',
        m.header.background != Color::Invalid,
        m.header.alpha != Color::Invalid,
        m.footer.len() == 15360,
        forall|i: int| 0 <= i < m.footer.len() ==> #[trigger] m.footer[i] != Color::Invalid,
        model_colors_ok(m),
        model_tree_encodes(t, m),
    ensures
        spec_split_model(spec_model_text(m)) is Ok,
        spec_model_from_parts(
            spec_split_model(spec_model_text(m))->Ok_0.0,
            t,
            spec_split_model(spec_model_text(m))->Ok_0.2,
        ) == Ok::<ModelView, PicoErrView>(m),
{
    lemma_model_text_split(m);
    crate::assets::header::lemma_header_round_trip(m.header);
    crate::assets::footer::lemma_footer_round_trip_with_newline(m.footer);
    match t {
        TableValue::Table(sq, nm) => {
            lemma_meshes_decode_encoded(sq@, m.meshes);
        },
        _ => {
            assert(false);
        },
    }
}

} // verus!

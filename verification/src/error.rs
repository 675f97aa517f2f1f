//! The error type shared by every parser of the library.

use vstd::prelude::*;
use crate::assets::num::{nat_text, push_u64_text, chars_to_string};
use crate::assets::point::Point2D;
use crate::assets::text::push_str_chars;

verus! {

/// What a parse of a document, header, footer, mesh or face can fail with.
#[derive(Debug, Clone, PartialEq)]
pub enum PicoError {
    /// The first header field is not the format's magic identifier.
    Identifier,
    /// A header field (named here) could not be parsed as a number.
    HeaderField(String),
    /// The header line has this many fields instead of five.
    HeaderLength(usize),
    /// The footer grid has this many color characters instead of 15360.
    FooterLength(usize),
    /// A face gives UV data for a different number of vertices than it
    /// names: the face has the first number of vertex indices, but the flat
    /// UV sequence holds the second number of values.
    FaceUVMapLength(usize, usize),
    /// A coordinate table holds the first number of elements where the
    /// second number was expected.
    TableLength(usize, usize),
    /// A mesh field (named here) is present with the wrong literal shape.
    MeshField(String),
    /// The mesh list is not a table of tables.
    MeshTable,
    /// The document lacks a structural separator (described here).
    Split(String),
    /// The table-literal evaluator rejected the text, or a table scalar is
    /// not a usable number; the message is carried verbatim.
    Lua(String),
    /// A pixel position lies outside the texture grid: the offending
    /// position, then the grid size.
    IndexUSIZE(Point2D<usize>, Point2D<usize>),
}

/// The mathematical shape of a [`PicoError`]: the same variants, with
/// strings as character sequences and counts as unbounded integers, so
/// that contracts can name exact error values.
pub ghost enum PicoErrView {
    Identifier,
    HeaderField(Seq<char>),
    HeaderLength(int),
    FooterLength(int),
    FaceUVMapLength(int, int),
    TableLength(int, int),
    MeshField(Seq<char>),
    MeshTable,
    Split(Seq<char>),
    Lua(Seq<char>),
    IndexUSIZE(Point2D<usize>, Point2D<usize>),
}

impl View for PicoError {
    type V = PicoErrView;

    open spec fn view(&self) -> PicoErrView {
        match self {
            PicoError::Identifier => PicoErrView::Identifier,
            PicoError::HeaderField(f) => PicoErrView::HeaderField(f@),
            PicoError::HeaderLength(n) => PicoErrView::HeaderLength(*n as int),
            PicoError::FooterLength(n) => PicoErrView::FooterLength(*n as int),
            PicoError::FaceUVMapLength(a, b) => PicoErrView::FaceUVMapLength(
                *a as int,
                *b as int,
            ),
            PicoError::TableLength(a, b) => PicoErrView::TableLength(*a as int, *b as int),
            PicoError::MeshField(f) => PicoErrView::MeshField(f@),
            PicoError::MeshTable => PicoErrView::MeshTable,
            PicoError::Split(m) => PicoErrView::Split(m@),
            PicoError::Lua(m) => PicoErrView::Lua(m@),
            PicoError::IndexUSIZE(p, b) => PicoErrView::IndexUSIZE(*p, *b),
        }
    }
}

/// The text of a pixel position, as the message below prints it.
pub open spec fn spec_point2_text(p: Point2D<usize>) -> Seq<char> {
    "Point2D { u: "@ + nat_text(p.u as int) + ", v: "@ + nat_text(p.v as int) + " }"@
}

/// The human-readable message of an error, variant by variant.
pub open spec fn spec_message(e: PicoErrView) -> Seq<char> {
    match e {
        PicoErrView::Identifier => "identifier is not \"picocad\""@,
        PicoErrView::HeaderField(f) => "could not parse header field "@ + f,
        PicoErrView::HeaderLength(n) => "found "@ + nat_text(n) + " header fields (expected 5)"@,
        PicoErrView::FooterLength(n) => "footer with lenght "@ + nat_text(n)
            + " (expected 15360)"@,
        PicoErrView::FaceUVMapLength(a, b) => "found "@ + nat_text(a) + " uv-coordinates (expected "@
            + nat_text(b) + ")"@,
        PicoErrView::TableLength(a, b) => "found "@ + nat_text(a) + " table elements (expected "@
            + nat_text(b) + ")"@,
        PicoErrView::MeshField(f) => "could not parse mesh field "@ + f,
        PicoErrView::MeshTable => "could not parse meshes from file"@,
        PicoErrView::Split(m) => "could not split file properly ("@ + m + ")"@,
        PicoErrView::Lua(m) => "invalid vertex index"@,
        PicoErrView::IndexUSIZE(p, b) => "index out of range: "@ + spec_point2_text(p)
            + " (expected < "@ + spec_point2_text(b) + ")"@,
    }
}

impl PicoError {
    /// The human-readable message of the error, exactly as
    /// [`spec_message`] describes.
    #[verifier::rlimit(60)]
    pub fn message(&self) -> (r: String)
        ensures
            r@ == spec_message(self@),
    {
        let mut out: Vec<char> = Vec::new();
        match self {
            PicoError::Identifier => {
                push_str_chars(&mut out, "identifier is not \"picocad\"");
            },
            PicoError::HeaderField(f) => {
                push_str_chars(&mut out, "could not parse header field ");
                push_str_chars(&mut out, f.as_str());
            },
            PicoError::HeaderLength(n) => {
                push_str_chars(&mut out, "found ");
                push_u64_text(&mut out, *n as u64);
                push_str_chars(&mut out, " header fields (expected 5)");
            },
            PicoError::FooterLength(n) => {
                push_str_chars(&mut out, "footer with lenght ");
                push_u64_text(&mut out, *n as u64);
                push_str_chars(&mut out, " (expected 15360)");
            },
            PicoError::FaceUVMapLength(a, b) => {
                push_str_chars(&mut out, "found ");
                push_u64_text(&mut out, *a as u64);
                push_str_chars(&mut out, " uv-coordinates (expected ");
                push_u64_text(&mut out, *b as u64);
                push_str_chars(&mut out, ")");
            },
            PicoError::TableLength(a, b) => {
                push_str_chars(&mut out, "found ");
                push_u64_text(&mut out, *a as u64);
                push_str_chars(&mut out, " table elements (expected ");
                push_u64_text(&mut out, *b as u64);
                push_str_chars(&mut out, ")");
            },
            PicoError::MeshField(f) => {
                push_str_chars(&mut out, "could not parse mesh field ");
                push_str_chars(&mut out, f.as_str());
            },
            PicoError::MeshTable => {
                push_str_chars(&mut out, "could not parse meshes from file");
            },
            PicoError::Split(m) => {
                push_str_chars(&mut out, "could not split file properly (");
                push_str_chars(&mut out, m.as_str());
                push_str_chars(&mut out, ")");
            },
            PicoError::Lua(_) => {
                push_str_chars(&mut out, "invalid vertex index");
            },
            PicoError::IndexUSIZE(p, b) => {
                push_str_chars(&mut out, "index out of range: ");
                push_str_chars(&mut out, "Point2D { u: ");
                push_u64_text(&mut out, p.u as u64);
                push_str_chars(&mut out, ", v: ");
                push_u64_text(&mut out, p.v as u64);
                push_str_chars(&mut out, " }");
                push_str_chars(&mut out, " (expected < ");
                push_str_chars(&mut out, "Point2D { u: ");
                push_u64_text(&mut out, b.u as u64);
                push_str_chars(&mut out, ", v: ");
                push_u64_text(&mut out, b.v as u64);
                push_str_chars(&mut out, " }");
                push_str_chars(&mut out, ")");
            },
        }
        let r = chars_to_string(&out);
        proof {
            assert(r@ =~= spec_message(self@));
        }
        r
    }
}

} // verus!

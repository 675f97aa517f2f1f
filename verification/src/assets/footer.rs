//! The texture grid at the bottom of a project file.
//!
//! The footer stores the texture used for UV mapping: 120 lines of 128 hex
//! digits, one palette color per digit, row-major with the origin in the
//! top left corner.  Pixel positions address the grid directly; fractional
//! texture coordinates address it in eighths of a pixel (see [`Footer::read`]).

use vstd::prelude::*;
use vstd::pervasive::VecAdditionalExecFns;
use crate::assets::color::Color;
use crate::assets::num::str_to_chars;
use crate::assets::num::chars_to_string;
use crate::assets::point::Point2D;
use crate::error::{PicoError, PicoErrView};

verus! {

/// Pixels per grid row.
pub const FOOTER_WIDTH: usize = 128;

/// Grid rows.
pub const FOOTER_HEIGHT: usize = 120;

/// Pixels in the whole grid.
pub const FOOTER_LEN: usize = 15360;

/// The texture grid: always exactly 15360 colors, row-major.
#[derive(Debug, Clone, PartialEq)]
pub struct Footer {
    data: Vec<Color>,
}

/// Whether the character separates grid digits on the wire: a blank, a
/// line feed or a carriage return.
pub open spec fn is_footer_sep(c: char) -> bool {
    c == ' ' || c == '\n' || c == '\r'
}

/// The colors of a footer text: every non-separator character, through the
/// total hex-digit conversion, in order.
pub open spec fn footer_pixels(s: Seq<char>) -> Seq<Color>
    decreases s.len(),
{
    if s.len() == 0 {
        Seq::empty()
    } else if is_footer_sep(s.last()) {
        footer_pixels(s.drop_last())
    } else {
        footer_pixels(s.drop_last()).push(Color::spec_from_char(s.last()))
    }
}

/// The parse of a footer text: its pixel colors, or the length error when
/// they do not number exactly 15360.
pub open spec fn spec_parse_footer(s: Seq<char>) -> Result<Seq<Color>, PicoErrView> {
    let px = footer_pixels(s);
    if px.len() != 15360 {
        Err(PicoErrView::FooterLength(px.len() as int))
    } else {
        Ok(px)
    }
}

/// One serialized grid row: the 128 hex digits of row `v`.
pub open spec fn footer_line(s: Seq<Color>, v: int) -> Seq<char> {
    Seq::new(128, |u: int| s[v * 128 + u].spec_as_char())
}

/// The serialized grid rows from row `v` on, each terminated by a line
/// feed.
pub open spec fn footer_lines_from(s: Seq<Color>, v: int) -> Seq<char>
    decreases 120 - v,
{
    if v < 0 || v >= 120 {
        Seq::empty()
    } else {
        footer_line(s, v) + seq!['\n'] + footer_lines_from(s, v + 1)
    }
}

/// The serialized footer: all 120 rows.
pub open spec fn spec_footer_text(s: Seq<Color>) -> Seq<char> {
    footer_lines_from(s, 0)
}

/// Whether every pixel equals the first one.
pub open spec fn spec_is_solid(s: Seq<Color>) -> bool {
    forall|i: int| 0 <= i < s.len() ==> #[trigger] s[i] == s[0]
}

/// The pixel index that a fractional coordinate in raw ten-thousandths
/// addresses: the coordinate times eight, rounded half away from zero,
/// with the single reachable negative value clamped to pixel zero.
pub open spec fn spec_pixel_of(x: int) -> int {
    let r = if x >= 0 {
        (x + 625) / 1250
    } else {
        -((-x + 625) / 1250)
    };
    if r < 0 {
        0
    } else {
        r
    }
}

/// The color a fractional read returns: `Invalid` outside the half-pixel
/// margin around the texture, the addressed pixel inside it.
pub open spec fn spec_footer_read(s: Seq<Color>, u: int, v: int) -> Color {
    if u < -625 || u >= 159375 || v < -625 || v >= 149375 {
        Color::Invalid
    } else {
        s[spec_pixel_of(v) * 128 + spec_pixel_of(u)]
    }
}

impl Footer {
    /// A well-formed grid holds exactly 15360 pixels; every constructor of
    /// the library establishes this.
    pub open spec fn wf(self) -> bool {
        self@.len() == 15360
    }

    /// Checks whether every pixel of the texture has the same color.
    pub fn is_solid(&self) -> (r: bool)
        requires
            self.wf(),
        ensures
            r == spec_is_solid(self@),
    {
        let first = self.data[0];
        let mut i: usize = 1;
        while i < self.data.len()
            invariant
                1 <= i <= self.data@.len(),
                self.data@.len() == 15360,
                first == self.data@[0],
                forall|k: int| 0 <= k < i ==> #[trigger] self.data@[k] == self.data@[0],
            decreases self.data@.len() - i,
        {
            if self.data[i] != first {
                return false;
            }
            i = i + 1;
        }
        true
    }

    /// The color at an in-range pixel position.
    pub fn index(&self, coords: Point2D<usize>) -> (r: &Color)
        requires
            self.wf(),
            coords.u < 128,
            coords.v < 120,
        ensures
            *r == self@[coords.v * 128 + coords.u],
    {
        &self.data[coords.v * 128 + coords.u]
    }

    /// The color at a pixel position, or `None` when the position lies
    /// outside the 128 by 120 grid.
    pub fn get(&self, coords: Point2D<usize>) -> (r: Option<&Color>)
        requires
            self.wf(),
        ensures
            match r {
                Some(c) => coords.u < 128 && coords.v < 120 && *c == self@[coords.v * 128
                    + coords.u],
                None => coords.u >= 128 || coords.v >= 120,
            },
    {
        if coords.u > 127 || coords.v > 119 {
            None
        } else {
            Some(self.index(coords))
        }
    }

    /// Sets the color at a pixel position; a position outside the grid is
    /// reported as an error and changes nothing.
    pub fn set(&mut self, coords: Point2D<usize>, value: Color) -> (r: Result<(), PicoError>)
        requires
            old(self).wf(),
        ensures
            final(self).wf(),
            match r {
                Ok(()) => coords.u < 128 && coords.v < 120 && final(self)@ == old(self)@.update(
                    coords.v * 128 + coords.u,
                    value,
                ),
                Err(e) => (coords.u >= 128 || coords.v >= 119 + 1) && *final(self) == *old(self)
                    && e@ == PicoErrView::IndexUSIZE(coords, Point2D { u: 128, v: 120 }),
            },
    {
        if coords.u > 127 || coords.v > 119 {
            Err(PicoError::IndexUSIZE(coords, Point2D { u: 128usize, v: 120usize }))
        } else {
            self.data.set(coords.v * 128 + coords.u, value);
            Ok(())
        }
    }

    /// Reads the color at fractional texture coordinates, given in raw
    /// ten-thousandths of a texture unit.  Coordinates outside the
    /// half-pixel margin around the texture give `Invalid` instead of an
    /// error; each pixel owns an eighth of a unit in each direction.
    pub fn read(&self, coords: Point2D<i64>) -> (r: Color)
        requires
            self.wf(),
        ensures
            r == spec_footer_read(self@, coords.u as int, coords.v as int),
    {
        if coords.u < -625 || coords.u >= 159375 || coords.v < -625 || coords.v >= 149375 {
            Color::Invalid
        } else {
            let pu = if coords.u >= 0 {
                (coords.u + 625) / 1250
            } else {
                0
            };
            let pv = if coords.v >= 0 {
                (coords.v + 625) / 1250
            } else {
                0
            };
            proof {
                if coords.u < 0 {
                    assert((-(coords.u as int) + 625) / 1250 <= 1);
                }
                if coords.v < 0 {
                    assert((-(coords.v as int) + 625) / 1250 <= 1);
                }
                assert(pu == spec_pixel_of(coords.u as int));
                assert(pv == spec_pixel_of(coords.v as int));
                assert(0 <= pu < 128);
                assert(0 <= pv < 120);
            }
            *self.index(Point2D { u: pu as usize, v: pv as usize })
        }
    }

    /// Parses a footer text: separators are skipped, every other character
    /// becomes a pixel through the total hex-digit conversion, and any
    /// pixel count other than 15360 is the length error.
    #[verifier::loop_isolation(false)]
    pub fn parse(s: &str) -> (r: Result<Footer, PicoError>)
        ensures
            match r {
                Ok(f) => f.wf() && spec_parse_footer(s@) == Ok::<Seq<Color>, PicoErrView>(f@),
                Err(e) => spec_parse_footer(s@) == Err::<Seq<Color>, PicoErrView>(e@),
            },
    {
        let cs = str_to_chars(s);
        let mut data: Vec<Color> = Vec::new();
        let mut i: usize = 0;
        while i < cs.len()
            invariant
                0 <= i <= cs@.len(),
                data@ == footer_pixels(cs@.take(i as int)),
            decreases cs@.len() - i,
        {
            let c = cs[i];
            proof {
                assert(cs@.take(i + 1).drop_last() =~= cs@.take(i as int));
                assert(cs@.take(i + 1).last() == cs@[i as int]);
            }
            match c {
                ' ' | '\n' | '\r' => {
                    assert(is_footer_sep(cs@[i as int]));
                },
                _ => {
                    assert(!is_footer_sep(cs@[i as int]));
                    data.push(Color::from(c));
                },
            }
            i = i + 1;
        }
        assert(cs@.take(cs@.len() as int) =~= cs@);
        if data.len() != 15360 {
            return Err(PicoError::FooterLength(data.len()));
        }
        Ok(Footer { data })
    }

    /// Serializes the footer: 120 lines of 128 hex digits, each line
    /// terminated by a line feed.
    #[verifier::loop_isolation(false)]
    pub fn serialize(&self) -> (r: String)
        requires
            self.wf(),
        ensures
            r@ == spec_footer_text(self@),
    {
        let mut out: Vec<char> = Vec::new();
        let mut v: usize = 0;
        while v < 120
            invariant
                0 <= v <= 120,
                self.data@.len() == 15360,
                out@ + footer_lines_from(self@, v as int) == footer_lines_from(self@, 0),
            decreases 120 - v,
        {
            let ghost row = footer_line(self@, v as int);
            let ghost before = out@;
            let mut u: usize = 0;
            while u < 128
                invariant
                    0 <= u <= 128,
                    0 <= v < 120,
                    self.data@.len() == 15360,
                    row == footer_line(self@, v as int),
                    out@ == before + row.take(u as int),
                decreases 128 - u,
            {
                out.push(self.data[v * 128 + u].as_char());
                assert(out@ =~= before + row.take(u + 1));
                u = u + 1;
            }
            out.push('\n');
            proof {
                assert(row.take(128) =~= row);
                assert(out@ =~= before + row + seq!['\n']);
                assert(footer_lines_from(self@, v as int) == row + seq!['\n']
                    + footer_lines_from(self@, v as int + 1));
                assert(out@ + footer_lines_from(self@, v as int + 1) =~= before
                    + footer_lines_from(self@, v as int));
            }
            v = v + 1;
        }
        assert(out@ =~= footer_lines_from(self@, 0));
        chars_to_string(&out)
    }
}

/// The pixels of a concatenation are the concatenated pixels.
proof fn lemma_footer_pixels_append(a: Seq<char>, b: Seq<char>)
    ensures
        footer_pixels(a + b) == footer_pixels(a) + footer_pixels(b),
    decreases b.len(),
{
    if b.len() == 0 {
        assert(a + b =~= a);
        assert(footer_pixels(a) + footer_pixels(b) =~= footer_pixels(a));
    } else {
        lemma_footer_pixels_append(a, b.drop_last());
        let s = a + b;
        assert(s.drop_last() =~= a + b.drop_last());
        assert(s.last() == b.last());
        if is_footer_sep(b.last()) {
            assert(footer_pixels(b) == footer_pixels(b.drop_last()));
            assert(footer_pixels(s) == footer_pixels(a) + footer_pixels(b.drop_last()));
        } else {
            assert(footer_pixels(b) == footer_pixels(b.drop_last()).push(
                Color::spec_from_char(b.last()),
            ));
            assert(footer_pixels(s) == (footer_pixels(a) + footer_pixels(b.drop_last())).push(
                Color::spec_from_char(b.last()),
            ));
            assert((footer_pixels(a) + footer_pixels(b.drop_last())).push(
                Color::spec_from_char(b.last()),
            ) =~= footer_pixels(a) + footer_pixels(b));
        }
    }
}

/// A separator-free text yields one pixel per character, in order.
proof fn lemma_footer_pixels_digits(s: Seq<char>)
    requires
        forall|i: int| 0 <= i < s.len() ==> !is_footer_sep(#[trigger] s[i]),
    ensures
        footer_pixels(s).len() == s.len(),
        forall|i: int| 0 <= i < s.len() ==> #[trigger] footer_pixels(s)[i]
            == Color::spec_from_char(s[i]),
    decreases s.len(),
{
    if s.len() > 0 {
        assert(forall|i: int| 0 <= i < s.len() - 1 ==> s.drop_last()[i] == s[i]);
        lemma_footer_pixels_digits(s.drop_last());
        assert(!is_footer_sep(s.last()));
        assert(footer_pixels(s) == footer_pixels(s.drop_last()).push(
            Color::spec_from_char(s.last()),
        ));
    }
}

/// The serialized rows from row `v` on parse back to the pixels from that
/// row on, as long as no pixel holds the `Invalid` sentinel.
proof fn lemma_footer_lines_pixels(s: Seq<Color>, v: int)
    requires
        s.len() == 15360,
        0 <= v <= 120,
        forall|i: int| 0 <= i < s.len() ==> #[trigger] s[i] != Color::Invalid,
    ensures
        footer_pixels(footer_lines_from(s, v)) =~= s.subrange(v * 128, 15360),
    decreases 120 - v,
{
    if v == 120 {
        assert(footer_lines_from(s, v) == Seq::<char>::empty());
        assert(s.subrange(15360, 15360) =~= Seq::<Color>::empty());
    } else {
        lemma_footer_lines_pixels(s, v + 1);
        let row = footer_line(s, v);
        let rowline = row + seq!['\n'];
        assert(footer_lines_from(s, v) == row + seq!['\n'] + footer_lines_from(s, v + 1));
        assert(row + seq!['\n'] + footer_lines_from(s, v + 1) =~= rowline + footer_lines_from(
            s,
            v + 1,
        ));
        lemma_footer_pixels_append(rowline, footer_lines_from(s, v + 1));
        // The row itself: 128 hex digits and a final separator.
        assert(forall|u: int| 0 <= u < 128 ==> row[u] == s[v * 128 + u].spec_as_char());
        assert(forall|u: int| 0 <= u < 128 ==> !is_footer_sep(#[trigger] row[u])) by {
            assert forall|u: int| 0 <= u < 128 implies !is_footer_sep(#[trigger] row[u]) by {
                crate::assets::color::lemma_color_char_inverse(s[v * 128 + u]);
            }
        }
        assert(rowline.drop_last() =~= row);
        assert(is_footer_sep(rowline.last()));
        assert(footer_pixels(rowline) == footer_pixels(row));
        lemma_footer_pixels_digits(row);
        assert(footer_pixels(row) =~= s.subrange(v * 128, v * 128 + 128)) by {
            assert(footer_pixels(row).len() == 128);
            assert forall|u: int| 0 <= u < 128 implies footer_pixels(row)[u] == s.subrange(
                v * 128,
                v * 128 + 128,
            )[u] by {
                crate::assets::color::lemma_color_char_inverse(s[v * 128 + u]);
                assert(footer_pixels(row)[u] == Color::spec_from_char(row[u]));
            }
        }
        assert(s.subrange(v * 128, v * 128 + 128) + s.subrange((v + 1) * 128, 15360) =~= s
            .subrange(v * 128, 15360));
    }
}

/// A serialized footer parses back to the same pixel grid: part of the
/// document round trip.  Pixels must not hold the `Invalid` sentinel,
/// which serializes as the digit of black.
pub proof fn lemma_footer_round_trip(s: Seq<Color>)
    requires
        s.len() == 15360,
        forall|i: int| 0 <= i < s.len() ==> #[trigger] s[i] != Color::Invalid,
    ensures
        spec_parse_footer(spec_footer_text(s)) == Ok::<Seq<Color>, crate::error::PicoErrView>(s),
{
    lemma_footer_lines_pixels(s, 0);
    assert(s.subrange(0, 15360) =~= s);
}

/// A grid whose pixels all hold one color is solid; a freshly constructed
/// all-black grid is such a grid.
pub proof fn lemma_uniform_is_solid(s: Seq<Color>, c: Color)
    requires
        forall|i: int| 0 <= i < s.len() ==> #[trigger] s[i] == c,
    ensures
        spec_is_solid(s),
{
}

/// Setting any single pixel of a solid grid to a different color leaves a
/// grid that is no longer solid.
pub proof fn lemma_set_breaks_solid(s: Seq<Color>, u: int, v: int, c: Color)
    requires
        s.len() == 15360,
        spec_is_solid(s),
        0 <= u < 128,
        0 <= v < 120,
        c != s[0],
    ensures
        !spec_is_solid(s.update(v * 128 + u, c)),
{
    let idx = v * 128 + u;
    assert(0 <= idx < 15360) by (nonlinear_arith)
        requires 0 <= u < 128 && 0 <= v < 120 && idx == v * 128 + u,
    ;
    let t = s.update(idx, c);
    if idx == 0 {
        assert(t[0] == c);
        assert(t[1] == s[1]);
        assert(s[1] == s[0]);
        assert(t[1] != t[0]);
    } else {
        assert(t[0] == s[0]);
        assert(t[idx] == c);
        assert(t[idx] != t[0]);
    }
}

/// No character of a serialized footer is the document's `%` separator.
pub proof fn lemma_footer_text_no_percent(s: Seq<Color>, v: int)
    requires
        s.len() == 15360,
        0 <= v <= 120,
    ensures
        forall|k: int| 0 <= k < footer_lines_from(s, v).len() ==> #[trigger] footer_lines_from(
            s,
            v,
        )[k] != '%',
    decreases 120 - v,
{
    if v < 120 {
        lemma_footer_text_no_percent(s, v + 1);
        let row = footer_line(s, v);
        let whole = footer_lines_from(s, v);
        assert(whole == row + seq!['\n'] + footer_lines_from(s, v + 1));
        assert forall|k: int| 0 <= k < whole.len() implies #[trigger] whole[k] != '%' by {
            if k < 128 {
                assert(whole[k] == row[k]);
                assert(row[k] == s[v * 128 + k].spec_as_char());
                crate::assets::color::lemma_color_char_inverse(s[v * 128 + k]);
            } else if k == 128 {
                assert(whole[k] == '\n');
            } else {
                assert(whole[k] == footer_lines_from(s, v + 1)[k - 129]);
            }
        }
    }
}

/// A serialized footer with the line feed that follows the document's `%`
/// separator still parses back to the same pixel grid.
pub proof fn lemma_footer_round_trip_with_newline(s: Seq<Color>)
    requires
        s.len() == 15360,
        forall|i: int| 0 <= i < s.len() ==> #[trigger] s[i] != Color::Invalid,
    ensures
        spec_parse_footer(seq!['\n'] + spec_footer_text(s)) == Ok::<
            Seq<Color>,
            crate::error::PicoErrView,
        >(s),
{
    lemma_footer_round_trip(s);
    lemma_footer_pixels_append(seq!['\n'], spec_footer_text(s));
    assert(footer_pixels(seq!['\n']) =~= Seq::<Color>::empty()) by {
        assert(footer_pixels(Seq::<char>::empty()) =~= Seq::<Color>::empty());
        assert(seq!['\n'].drop_last() =~= Seq::<char>::empty());
        assert(seq!['\n'].len() == 1);
        assert(is_footer_sep(seq!['\n'].last()));
        assert(footer_pixels(seq!['\n']) == footer_pixels(seq!['\n'].drop_last()));
    }
    assert(footer_pixels(seq!['\n'] + spec_footer_text(s)) =~= footer_pixels(
        spec_footer_text(s),
    ));
}

impl View for Footer {
    type V = Seq<Color>;

    closed spec fn view(&self) -> Seq<Color> {
        self.data@
    }
}

impl Default for Footer {
    /// A fully black texture.
    fn default() -> (r: Footer)
        ensures
            r.wf(),
            r@.len() == 15360,
            forall|i: int| 0 <= i < 15360 ==> r@[i] == Color::Black,
    {
        let mut data: Vec<Color> = Vec::new();
        let mut i: usize = 0;
        while i < 15360
            invariant
                0 <= i <= 15360,
                data@.len() == i,
                forall|k: int| 0 <= k < i ==> data@[k] == Color::Black,
            decreases 15360 - i,
        {
            data.push(Color::Black);
            i = i + 1;
        }
        Footer { data }
    }
}

} // verus!

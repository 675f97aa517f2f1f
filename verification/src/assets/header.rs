//! The one-line settings header of a project file.
//!
//! A header is five fields separated by semicolons, for example
//! `picocad;my_project;16;1;0`: the format's magic identifier, the project
//! name, the zoom level, and the integer codes of the background and alpha
//! colors.

use vstd::prelude::*;
use vstd::string::StringExecFns;
use crate::assets::color::Color;
use crate::assets::num::{
    find_first, nat_text, spec_parse_i32, spec_parse_u8, parse_i32_text, parse_u8_text,
    push_u64_text, str_to_chars, chars_to_string, lemma_find_first_is, lemma_nat_text_val,
    is_digit, digits_val,
};
use crate::assets::text::{
    trim, trim_start, trim_end, is_space, is_space_char, lemma_trim_start_is, lemma_trim_end_is,
    subrange_chars, find_char, chars_eq, push_str_chars,
};
use crate::error::{PicoError, PicoErrView};

verus! {

/// The parsed settings line of a project.
#[derive(Debug, Clone, PartialEq)]
pub struct Header {
    identifier: String,
    pub zoom: u8,
    pub name: String,
    pub background: Color,
    pub alpha: Color,
}

/// The mathematical shape of a [`Header`].
pub ghost struct HeaderView {
    pub identifier: Seq<char>,
    pub zoom: u8,
    pub name: Seq<char>,
    pub background: Color,
    pub alpha: Color,
}

impl View for Header {
    type V = HeaderView;

    closed spec fn view(&self) -> HeaderView {
        HeaderView {
            identifier: self.identifier@,
            zoom: self.zoom,
            name: self.name@,
            background: self.background,
            alpha: self.alpha,
        }
    }
}

/// Splits `s` at semicolons into at most `n` fields; the last field keeps
/// any remaining semicolons.
pub open spec fn split_fields(s: Seq<char>, n: int) -> Seq<Seq<char>>
    decreases n,
{
    if n <= 1 {
        seq![s]
    } else {
        let i = find_first(s, ';');
        if i == s.len() {
            seq![s]
        } else {
            seq![s.take(i)] + split_fields(s.skip(i + 1), n - 1)
        }
    }
}

/// The parse of a header line: the line is trimmed and split at semicolons
/// into exactly five fields.  A different field count, a first field other
/// than the magic identifier, or a zoom, background or alpha field that is
/// not a number of the right range each give the named error; the two color
/// codes themselves are converted totally, out-of-palette codes becoming
/// `Invalid`.
pub open spec fn spec_parse_header(s: Seq<char>) -> Result<HeaderView, PicoErrView> {
    let t = trim(s);
    let fs = split_fields(t, 5);
    if fs.len() != 5 {
        Err(PicoErrView::HeaderLength(fs.len() as int))
    } else if fs[0] != "picocad"@ {
        Err(PicoErrView::Identifier)
    } else {
        match spec_parse_u8(fs[2]) {
            None => Err(PicoErrView::HeaderField("zoom"@)),
            Some(zoom) => match spec_parse_i32(fs[3]) {
                None => Err(PicoErrView::HeaderField("background"@)),
                Some(bg) => match spec_parse_i32(fs[4]) {
                    None => Err(PicoErrView::HeaderField("alpha"@)),
                    Some(al) => Ok(
                        HeaderView {
                            identifier: fs[0],
                            zoom,
                            name: fs[1],
                            background: Color::spec_from_i32(bg),
                            alpha: Color::spec_from_i32(al),
                        },
                    ),
                },
            },
        }
    }
}

/// The serialized header line: the magic identifier, then name, zoom and
/// the two color codes, separated by semicolons.  The identifier field of
/// the value is not consulted; the line always starts with the magic token.
pub open spec fn spec_header_text(h: HeaderView) -> Seq<char> {
    "picocad;"@ + h.name + ";"@ + nat_text(h.zoom as int) + ";"@ + nat_text(
        h.background.spec_as_i32() as int,
    ) + ";"@ + nat_text(h.alpha.spec_as_i32() as int)
}

/// The characters of `cs` with blanks removed from both ends.
#[verifier::loop_isolation(false)]
pub fn trim_chars(cs: &Vec<char>) -> (t: Vec<char>)
    ensures
        t@ == trim(cs@),
{
    let n = cs.len();
    let mut lo: usize = 0;
    while lo < n && is_space_char(cs[lo])
        invariant
            0 <= lo <= n,
            n == cs@.len(),
            forall|k: int| 0 <= k < lo ==> is_space(#[trigger] cs@[k]),
        decreases n - lo,
    {
        lo = lo + 1;
    }
    let mut hi: usize = n;
    while hi > lo && is_space_char(cs[hi - 1])
        invariant
            lo <= hi <= n,
            n == cs@.len(),
            forall|k: int| hi <= k < n ==> is_space(#[trigger] cs@[k]),
        decreases hi,
    {
        hi = hi - 1;
    }
    let t = subrange_chars(cs, lo, hi);
    proof {
        lemma_trim_start_is(cs@, lo as int);
        let mid = cs@.skip(lo as int);
        assert(forall|k: int| 0 <= k < mid.len() ==> mid[k] == cs@[k + lo]);
        lemma_trim_end_is(mid, hi - lo);
        assert(trim(cs@) =~= t@);
    }
    t
}

/// Splits the trimmed line at semicolons into at most five fields, exactly
/// as [`split_fields`] describes.
#[verifier::loop_isolation(false)]
#[verifier::rlimit(100)]
pub fn split5_chars(t: &Vec<char>) -> (fs: Vec<Vec<char>>)
    ensures
        fs@.len() == split_fields(t@, 5).len(),
        forall|i: int| 0 <= i < fs@.len() ==> #[trigger] fs@[i]@ == split_fields(t@, 5)[i],
{
    let tn = t.len();
    let mut fs: Vec<Vec<char>> = Vec::new();
    let i0 = find_char(t, 0, ';');
    proof {
        assert(t@.skip(0) =~= t@);
    }
    if i0 == tn {
        fs.push(subrange_chars(t, 0, tn));
        proof {
            reveal_with_fuel(split_fields, 6);
            assert(t@.subrange(0, tn as int) =~= t@);
            assert(split_fields(t@, 5) =~~= seq![t@]);
        }
        return fs;
    }
    fs.push(subrange_chars(t, 0, i0));
    let ghost r1 = t@.skip(i0 + 1);
    let i1 = find_char(t, i0 + 1, ';');
    proof {
        assert(find_first(r1, ';') == i1 - (i0 + 1));
        assert(forall|k: int| 0 <= k < r1.len() ==> r1[k] == t@[k + i0 + 1]);
    }
    if i1 == tn {
        fs.push(subrange_chars(t, i0 + 1, tn));
        proof {
            reveal_with_fuel(split_fields, 6);
            assert(t@.subrange(i0 + 1, tn as int) =~= r1);
            assert(split_fields(t@, 5) =~~= seq![t@.take(i0 as int)] + seq![r1]);
        }
        return fs;
    }
    fs.push(subrange_chars(t, i0 + 1, i1));
    let ghost r2 = t@.skip(i1 + 1);
    let i2 = find_char(t, i1 + 1, ';');
    proof {
        assert(r1.skip(i1 - i0) =~= r2);
        assert(find_first(r2, ';') == i2 - (i1 + 1));
        assert(forall|k: int| 0 <= k < r2.len() ==> r2[k] == t@[k + i1 + 1]);
        assert(t@.subrange(i0 + 1, i1 as int) =~= r1.take(i1 - (i0 + 1)));
    }
    if i2 == tn {
        fs.push(subrange_chars(t, i1 + 1, tn));
        proof {
            reveal_with_fuel(split_fields, 6);
            assert(t@.subrange(i1 + 1, tn as int) =~= r2);
            assert(split_fields(t@, 5) =~~= seq![t@.take(i0 as int)] + (seq![
                r1.take(i1 - (i0 + 1)),
            ] + seq![r2]));
        }
        return fs;
    }
    fs.push(subrange_chars(t, i1 + 1, i2));
    let ghost r3 = t@.skip(i2 + 1);
    let i3 = find_char(t, i2 + 1, ';');
    proof {
        assert(r2.skip(i2 - i1) =~= r3);
        assert(find_first(r3, ';') == i3 - (i2 + 1));
        assert(forall|k: int| 0 <= k < r3.len() ==> r3[k] == t@[k + i2 + 1]);
        assert(t@.subrange(i1 + 1, i2 as int) =~= r2.take(i2 - (i1 + 1)));
    }
    if i3 == tn {
        fs.push(subrange_chars(t, i2 + 1, tn));
        proof {
            reveal_with_fuel(split_fields, 6);
            assert(t@.subrange(i2 + 1, tn as int) =~= r3);
            assert(split_fields(t@, 5) =~~= seq![t@.take(i0 as int)] + (seq![
                r1.take(i1 - (i0 + 1)),
            ] + (seq![r2.take(i2 - (i1 + 1))] + seq![r3])));
        }
        return fs;
    }
    fs.push(subrange_chars(t, i2 + 1, i3));
    fs.push(subrange_chars(t, i3 + 1, tn));
    let ghost r4 = t@.skip(i3 + 1);
    proof {
        assert(r3.skip(i3 - i2) =~= r4);
        assert(t@.subrange(i2 + 1, i3 as int) =~= r3.take(i3 - (i2 + 1)));
        assert(t@.subrange(i3 + 1, tn as int) =~= r4);
        reveal_with_fuel(split_fields, 6);
        assert(split_fields(t@, 5) =~~= seq![t@.take(i0 as int)] + (seq![r1.take(i1 - (i0 + 1))]
            + (seq![r2.take(i2 - (i1 + 1))] + (seq![r3.take(i3 - (i2 + 1))] + seq![r4]))));
    }
    fs
}

impl Header {
    /// Returns the identifier field; on any parsed header this is the magic
    /// token `picocad`.
    pub fn identifier(&self) -> (r: String)
        ensures
            r@ == self@.identifier,
    {
        self.identifier.clone()
    }

    /// Parses a header line exactly as [`spec_parse_header`] describes.
    pub fn parse(s: &str) -> (r: Result<Header, PicoError>)
        ensures
            match r {
                Ok(h) => spec_parse_header(s@) == Ok::<HeaderView, PicoErrView>(h@),
                Err(e) => spec_parse_header(s@) == Err::<HeaderView, PicoErrView>(e@),
            },
    {
        let cs = str_to_chars(s);
        let t = trim_chars(&cs);
        let fs = split5_chars(&t);
        if fs.len() != 5 {
            return Err(PicoError::HeaderLength(fs.len()));
        }
        let magic = str_to_chars("picocad");
        if !chars_eq(&fs[0], &magic) {
            return Err(PicoError::Identifier);
        }
        let zoom = match parse_u8_text(&fs[2]) {
            Some(z) => z,
            None => {
                return Err(PicoError::HeaderField(String::from_str("zoom")));
            },
        };
        let bg = match parse_i32_text(&fs[3]) {
            Some(b) => b,
            None => {
                return Err(PicoError::HeaderField(String::from_str("background")));
            },
        };
        let al = match parse_i32_text(&fs[4]) {
            Some(a) => a,
            None => {
                return Err(PicoError::HeaderField(String::from_str("alpha")));
            },
        };
        Ok(
            Header {
                identifier: chars_to_string(&fs[0]),
                zoom,
                name: chars_to_string(&fs[1]),
                background: Color::from(bg),
                alpha: Color::from(al),
            },
        )
    }

    /// Serializes the header exactly as [`spec_header_text`] describes.
    pub fn serialize(&self) -> (r: String)
        ensures
            r@ == spec_header_text(self@),
    {
        let mut out: Vec<char> = Vec::new();
        push_str_chars(&mut out, "picocad;");
        push_str_chars(&mut out, self.name.as_str());
        out.push(';');
        push_u64_text(&mut out, self.zoom as u64);
        out.push(';');
        assert(0 <= self.background.spec_as_i32() <= 15);
        push_u64_text(&mut out, self.background.as_i32() as u64);
        out.push(';');
        assert(0 <= self.alpha.spec_as_i32() <= 15);
        push_u64_text(&mut out, self.alpha.as_i32() as u64);
        let r = chars_to_string(&out);
        proof {
            reveal_strlit(";");
            assert(seq![';'] =~= ";"@);
            assert(r@ =~= spec_header_text(self@));
        }
        r
    }
}

impl Default for Header {
    /// The header the tool writes for a fresh project: identifier
    /// `picocad`, name `unnamed`, zoom 16, dark-blue background, black
    /// alpha.
    fn default() -> (r: Header)
        ensures
            r@.identifier == "picocad"@,
            r@.name == "unnamed"@,
            r@.zoom == 16,
            r@.background == Color::DarkBlue,
            r@.alpha == Color::Black,
    {
        Header {
            identifier: String::from_str("picocad"),
            zoom: 16,
            name: String::from_str("unnamed"),
            background: Color::DarkBlue,
            alpha: Color::Black,
        }
    }
}

/// In a text made of a semicolon-free field, a semicolon, and a rest, the
/// first semicolon stands exactly after the field.
proof fn lemma_field_then_semi(prefix: Seq<char>, rest: Seq<char>)
    requires
        forall|k: int| 0 <= k < prefix.len() ==> prefix[k] != ';',
    ensures
        find_first(prefix + seq![';'] + rest, ';') == prefix.len(),
        (prefix + seq![';'] + rest).take(prefix.len() as int) =~= prefix,
        (prefix + seq![';'] + rest).skip(prefix.len() as int + 1) =~= rest,
{
    let s = prefix + seq![';'] + rest;
    assert(forall|k: int| 0 <= k < prefix.len() ==> s[k] == prefix[k]);
    assert(s[prefix.len() as int] == ';');
    lemma_find_first_is(s, ';', prefix.len() as int);
}

/// Five fields joined by semicolons split back apart, as long as the
/// first four contain none themselves; the last field may.
#[verifier::rlimit(100)]
proof fn lemma_split5(a: Seq<char>, b: Seq<char>, c: Seq<char>, d: Seq<char>, e: Seq<char>)
    requires
        forall|k: int| 0 <= k < a.len() ==> a[k] != ';',
        forall|k: int| 0 <= k < b.len() ==> b[k] != ';',
        forall|k: int| 0 <= k < c.len() ==> c[k] != ';',
        forall|k: int| 0 <= k < d.len() ==> d[k] != ';',
    ensures
        split_fields(a + seq![';'] + (b + seq![';'] + (c + seq![';'] + (d + seq![';'] + e))), 5)
            =~~= seq![a, b, c, d, e],
{
    reveal_with_fuel(split_fields, 6);
    let semi = seq![';'];
    let r1 = b + semi + (c + semi + (d + semi + e));
    let r2 = c + semi + (d + semi + e);
    let r3 = d + semi + e;
    let line = a + semi + r1;
    lemma_field_then_semi(a, r1);
    assert(line.take(a.len() as int) =~= a);
    assert(line.skip(a.len() as int + 1) =~= r1);
    lemma_field_then_semi(b, r2);
    assert(b + semi + r2 =~= r1);
    assert(r1.take(b.len() as int) =~= b);
    assert(r1.skip(b.len() as int + 1) =~= r2);
    lemma_field_then_semi(c, r3);
    assert(c + semi + r3 =~= r2);
    assert(r2.take(c.len() as int) =~= c);
    assert(r2.skip(c.len() as int + 1) =~= r3);
    lemma_field_then_semi(d, e);
    assert(d + semi + e =~= r3);
    assert(r3.take(d.len() as int) =~= d);
    assert(r3.skip(d.len() as int + 1) =~= e);
    assert(find_first(r1, ';') == b.len()) by {
        assert(find_first(b + semi + r2, ';') == b.len());
    }
    assert(find_first(r2, ';') == c.len()) by {
        assert(find_first(c + semi + r3, ';') == c.len());
    }
    assert(find_first(r3, ';') == d.len()) by {
        assert(find_first(d + semi + e, ';') == d.len());
    }
}

/// The serialized header line is already trimmed and splits back into
/// its five fields, provided the name contains no semicolon.
#[verifier::rlimit(100)]
proof fn lemma_header_text_fields(h: HeaderView)
    requires
        forall|k: int| 0 <= k < h.name.len() ==> h.name[k] != ';',
    ensures
        trim(spec_header_text(h)) == spec_header_text(h),
        split_fields(spec_header_text(h), 5) =~~= seq![
            "picocad"@,
            h.name,
            nat_text(h.zoom as int),
            nat_text(h.background.spec_as_i32() as int),
            nat_text(h.alpha.spec_as_i32() as int),
        ],
{
    reveal_strlit("picocad;");
    reveal_strlit("picocad");
    let zt = nat_text(h.zoom as int);
    let bt = nat_text(h.background.spec_as_i32() as int);
    let at = nat_text(h.alpha.spec_as_i32() as int);
    assert(0 <= h.background.spec_as_i32() <= 15);
    assert(0 <= h.alpha.spec_as_i32() <= 15);
    lemma_nat_text_val(h.zoom as int);
    lemma_nat_text_val(h.background.spec_as_i32() as int);
    lemma_nat_text_val(h.alpha.spec_as_i32() as int);
    let line = spec_header_text(h);
    let nm = h.name;
    let semi = seq![';'];
    assert(";"@ =~= semi) by {
        reveal_strlit(";");
    }
    let magic = "picocad"@;
    assert(magic.len() == 7);
    assert("picocad;"@ =~= magic + semi);
    // No blanks at either end of the line.
    assert(line.len() == 8 + nm.len() + 1 + zt.len() + 1 + bt.len() + 1 + at.len());
    assert(line[0] == 'p');
    assert(!is_space('p'));
    assert(line.last() == at.last());
    assert(is_digit(at.last()));
    assert(!is_space(at.last()));
    lemma_trim_start_is(line, 0);
    assert(trim_start(line) =~= line.skip(0));
    assert(line.skip(0) =~= line);
    lemma_trim_end_is(line, line.len() as int);
    assert(trim_end(line) =~= line.take(line.len() as int));
    assert(line.take(line.len() as int) =~= line);
    assert(trim(line) == line);
    // The five fields, one separator at a time.
    assert(forall|k: int| 0 <= k < magic.len() ==> magic[k] != ';');
    assert(forall|k: int| 0 <= k < zt.len() ==> zt[k] != ';') by {
        assert(forall|k: int| 0 <= k < zt.len() ==> is_digit(#[trigger] zt[k]));
    }
    assert(forall|k: int| 0 <= k < bt.len() ==> bt[k] != ';') by {
        assert(forall|k: int| 0 <= k < bt.len() ==> is_digit(#[trigger] bt[k]));
    }
    lemma_split5(magic, nm, zt, bt, at);
    assert(line =~= magic + semi + (nm + semi + (zt + semi + (bt + semi + at))));
}

/// A serialized header parses back to the same header: part of the
/// document round trip.  The identifier must be the magic token (any parsed
/// header has it), the name must not contain a semicolon, and the two
/// colors must not be the `Invalid` sentinel, which serializes as black.
#[verifier::rlimit(100)]
pub proof fn lemma_header_round_trip(h: HeaderView)
    requires
        h.identifier == "picocad"@,
        forall|k: int| 0 <= k < h.name.len() ==> h.name[k] != ';',
        h.background != Color::Invalid,
        h.alpha != Color::Invalid,
    ensures
        spec_parse_header(spec_header_text(h)) == Ok::<HeaderView, PicoErrView>(h),
{
    lemma_header_text_fields(h);
    let line = spec_header_text(h);
    let zt = nat_text(h.zoom as int);
    let bt = nat_text(h.background.spec_as_i32() as int);
    let at = nat_text(h.alpha.spec_as_i32() as int);
    assert(0 <= h.background.spec_as_i32() <= 15);
    assert(0 <= h.alpha.spec_as_i32() <= 15);
    lemma_nat_text_val(h.zoom as int);
    lemma_nat_text_val(h.background.spec_as_i32() as int);
    lemma_nat_text_val(h.alpha.spec_as_i32() as int);
    let fs = split_fields(line, 5);
    assert(fs.len() == 5);
    assert(fs[0] == "picocad"@);
    assert(fs[1] == h.name);
    assert(fs[2] == zt);
    assert(fs[3] == bt);
    assert(fs[4] == at);
    // The numeric fields parse back to their values.
    assert(zt.len() > 0 && zt[0] != '+') by {
        assert(is_digit(zt[0]));
    }
    assert(spec_parse_u8(zt) == Some(h.zoom)) by {
        assert(digits_val(zt) == h.zoom as int);
    }
    assert(bt.len() > 0 && bt[0] != '+' && bt[0] != '-') by {
        assert(is_digit(bt[0]));
    }
    assert(spec_parse_i32(bt) == Some(h.background.spec_as_i32()));
    assert(at.len() > 0 && at[0] != '+' && at[0] != '-') by {
        assert(is_digit(at[0]));
    }
    assert(spec_parse_i32(at) == Some(h.alpha.spec_as_i32()));
    crate::assets::color::lemma_color_code_inverse(h.background);
    crate::assets::color::lemma_color_code_inverse(h.alpha);
    assert(spec_parse_header(line) == Ok::<HeaderView, PicoErrView>(
        HeaderView {
            identifier: "picocad"@,
            zoom: h.zoom,
            name: h.name,
            background: h.background,
            alpha: h.alpha,
        },
    ));
}

} // verus!

//! The sixteen-color palette and its conversions.
//!
//! Every conversion from an integer code, a hex character or an RGB triplet
//! is total: values outside the palette map to [`Color::Invalid`] instead of
//! failing.  `Invalid` shares the on-the-wire representation of `Black`
//! (code 0, character '0').  The shadow tables are fixed domain data copied
//! from the modeling tool's lighting behaviour; they are not derived.

use vstd::prelude::*;
use vstd::string::StringExecFns;

verus! {

/// A color of the sixteen-entry palette, or the `Invalid` sentinel that the
/// total conversions return for values outside the palette.
#[derive(Debug, Copy, Clone, Eq, PartialEq, Structural)]
pub enum Color {
    Invalid,
    Black,
    DarkBlue,
    DarkPurple,
    DarkGreen,
    Brown,
    DarkGrey,
    LightGrey,
    White,
    Red,
    Orange,
    Yellow,
    Green,
    Blue,
    Lavender,
    Pink,
    LightPeach,
}

impl Color {
    /// The integer code of the color; `Invalid` shares code 0 with `Black`.
    pub open spec fn spec_as_i32(self) -> i32 {
        match self {
            Color::Invalid => 0,
            Color::Black => 0,
            Color::DarkBlue => 1,
            Color::DarkPurple => 2,
            Color::DarkGreen => 3,
            Color::Brown => 4,
            Color::DarkGrey => 5,
            Color::LightGrey => 6,
            Color::White => 7,
            Color::Red => 8,
            Color::Orange => 9,
            Color::Yellow => 10,
            Color::Green => 11,
            Color::Blue => 12,
            Color::Lavender => 13,
            Color::Pink => 14,
            Color::LightPeach => 15,
        }
    }

    /// The single hex digit of the color; `Invalid` shares '0' with `Black`.
    pub open spec fn spec_as_char(self) -> char {
        match self {
            Color::Invalid => '0',
            Color::Black => '0',
            Color::DarkBlue => '1',
            Color::DarkPurple => '2',
            Color::DarkGreen => '3',
            Color::Brown => '4',
            Color::DarkGrey => '5',
            Color::LightGrey => '6',
            Color::White => '7',
            Color::Red => '8',
            Color::Orange => '9',
            Color::Yellow => 'a',
            Color::Green => 'b',
            Color::Blue => 'c',
            Color::Lavender => 'd',
            Color::Pink => 'e',
            Color::LightPeach => 'f',
        }
    }

    /// The six-digit upper-case hex code of the color.
    pub open spec fn spec_as_hex(self) -> Seq<char> {
        match self {
            Color::Invalid => "000000"@,
            Color::Black => "000000"@,
            Color::DarkBlue => "1D2B53"@,
            Color::DarkPurple => "7E2553"@,
            Color::DarkGreen => "008751"@,
            Color::Brown => "AB5236"@,
            Color::DarkGrey => "5F574F"@,
            Color::LightGrey => "C2C3C7"@,
            Color::White => "FFF1E8"@,
            Color::Red => "FF004D"@,
            Color::Orange => "FFA300"@,
            Color::Yellow => "FFEC27"@,
            Color::Green => "00E436"@,
            Color::Blue => "29ADFF"@,
            Color::Lavender => "83769C"@,
            Color::Pink => "FF77A8"@,
            Color::LightPeach => "FFCCAA"@,
        }
    }

    /// The RGB triplet of the color.
    pub open spec fn spec_as_rgb(self) -> (u8, u8, u8) {
        match self {
            Color::Invalid => (0, 0, 0),
            Color::Black => (0, 0, 0),
            Color::DarkBlue => (29, 43, 83),
            Color::DarkPurple => (126, 37, 83),
            Color::DarkGreen => (0, 135, 81),
            Color::Brown => (171, 82, 54),
            Color::DarkGrey => (95, 87, 79),
            Color::LightGrey => (194, 195, 199),
            Color::White => (255, 241, 232),
            Color::Red => (255, 0, 77),
            Color::Orange => (255, 163, 0),
            Color::Yellow => (255, 236, 39),
            Color::Green => (0, 228, 54),
            Color::Blue => (41, 173, 255),
            Color::Lavender => (131, 118, 156),
            Color::Pink => (255, 119, 168),
            Color::LightPeach => (255, 204, 170),
        }
    }

    /// The palette entry for an integer code; codes outside 0..=15 give `Invalid`.
    pub open spec fn spec_from_i32(value: i32) -> Color {
        if value == 0 {
            Color::Black
        } else if value == 1 {
            Color::DarkBlue
        } else if value == 2 {
            Color::DarkPurple
        } else if value == 3 {
            Color::DarkGreen
        } else if value == 4 {
            Color::Brown
        } else if value == 5 {
            Color::DarkGrey
        } else if value == 6 {
            Color::LightGrey
        } else if value == 7 {
            Color::White
        } else if value == 8 {
            Color::Red
        } else if value == 9 {
            Color::Orange
        } else if value == 10 {
            Color::Yellow
        } else if value == 11 {
            Color::Green
        } else if value == 12 {
            Color::Blue
        } else if value == 13 {
            Color::Lavender
        } else if value == 14 {
            Color::Pink
        } else if value == 15 {
            Color::LightPeach
        } else {
            Color::Invalid
        }
    }

    /// The palette entry for a hex digit; characters outside '0'..='9', 'a'..='f' give `Invalid`.
    pub open spec fn spec_from_char(value: char) -> Color {
        if value == '0' {
            Color::Black
        } else if value == '1' {
            Color::DarkBlue
        } else if value == '2' {
            Color::DarkPurple
        } else if value == '3' {
            Color::DarkGreen
        } else if value == '4' {
            Color::Brown
        } else if value == '5' {
            Color::DarkGrey
        } else if value == '6' {
            Color::LightGrey
        } else if value == '7' {
            Color::White
        } else if value == '8' {
            Color::Red
        } else if value == '9' {
            Color::Orange
        } else if value == 'a' {
            Color::Yellow
        } else if value == 'b' {
            Color::Green
        } else if value == 'c' {
            Color::Blue
        } else if value == 'd' {
            Color::Lavender
        } else if value == 'e' {
            Color::Pink
        } else if value == 'f' {
            Color::LightPeach
        } else {
            Color::Invalid
        }
    }

    /// The palette entry for an RGB triplet; triplets outside the palette give `Invalid`.
    pub open spec fn spec_from_rgb(value: (u8, u8, u8)) -> Color {
        if value == (0u8, 0u8, 0u8) {
            Color::Black
        } else if value == (29u8, 43u8, 83u8) {
            Color::DarkBlue
        } else if value == (126u8, 37u8, 83u8) {
            Color::DarkPurple
        } else if value == (0u8, 135u8, 81u8) {
            Color::DarkGreen
        } else if value == (171u8, 82u8, 54u8) {
            Color::Brown
        } else if value == (95u8, 87u8, 79u8) {
            Color::DarkGrey
        } else if value == (194u8, 195u8, 199u8) {
            Color::LightGrey
        } else if value == (255u8, 241u8, 232u8) {
            Color::White
        } else if value == (255u8, 0u8, 77u8) {
            Color::Red
        } else if value == (255u8, 163u8, 0u8) {
            Color::Orange
        } else if value == (255u8, 236u8, 39u8) {
            Color::Yellow
        } else if value == (0u8, 228u8, 54u8) {
            Color::Green
        } else if value == (41u8, 173u8, 255u8) {
            Color::Blue
        } else if value == (131u8, 118u8, 156u8) {
            Color::Lavender
        } else if value == (255u8, 119u8, 168u8) {
            Color::Pink
        } else if value == (255u8, 204u8, 170u8) {
            Color::LightPeach
        } else {
            Color::Invalid
        }
    }

    /// The color the tool paints this color with when it is fully shadowed;
    /// `Invalid` shadows to itself.
    pub open spec fn spec_shadow(self) -> Color {
        match self {
            Color::Invalid => Color::Invalid,
            Color::Black => Color::Black,
            Color::DarkBlue => Color::Black,
            Color::DarkPurple => Color::Black,
            Color::DarkGrey => Color::Black,
            Color::DarkGreen => Color::DarkBlue,
            Color::Brown => Color::DarkBlue,
            Color::Red => Color::DarkBlue,
            Color::Green => Color::DarkBlue,
            Color::Lavender => Color::DarkBlue,
            Color::LightGrey => Color::DarkGrey,
            Color::Blue => Color::DarkGrey,
            Color::Orange => Color::DarkPurple,
            Color::Pink => Color::DarkPurple,
            Color::Yellow => Color::Brown,
            Color::LightPeach => Color::Brown,
            Color::White => Color::Lavender,
        }
    }

    /// The color the tool paints this color with while it transitions into
    /// shadow; `Invalid` transitions to itself.
    pub open spec fn spec_shadow_transition(self) -> Color {
        match self {
            Color::Invalid => Color::Invalid,
            Color::Black => Color::Black,
            Color::DarkBlue => Color::Black,
            Color::DarkPurple => Color::DarkBlue,
            Color::DarkGrey => Color::DarkBlue,
            Color::DarkGreen => Color::DarkGrey,
            Color::Lavender => Color::DarkGrey,
            Color::Brown => Color::DarkPurple,
            Color::Red => Color::DarkPurple,
            Color::LightGrey => Color::Lavender,
            Color::Blue => Color::Lavender,
            Color::Yellow => Color::Orange,
            Color::LightPeach => Color::Orange,
            Color::White => Color::LightGrey,
            Color::Orange => Color::Brown,
            Color::Green => Color::DarkGreen,
            Color::Pink => Color::Red,
        }
    }

    /// Returns the integer code of the color, as stored in the header fields
    /// and in a face's `c` field.  `Invalid` gives 0, the code of black.
    pub fn as_i32(&self) -> (r: i32)
        ensures
            r == self.spec_as_i32(),
    {
        match self {
            Color::Invalid => 0,
            Color::Black => 0,
            Color::DarkBlue => 1,
            Color::DarkPurple => 2,
            Color::DarkGreen => 3,
            Color::Brown => 4,
            Color::DarkGrey => 5,
            Color::LightGrey => 6,
            Color::White => 7,
            Color::Red => 8,
            Color::Orange => 9,
            Color::Yellow => 10,
            Color::Green => 11,
            Color::Blue => 12,
            Color::Lavender => 13,
            Color::Pink => 14,
            Color::LightPeach => 15,
        }
    }

    /// Returns the six-digit upper-case hex code of the color, without a
    /// leading '#'.  `Invalid` gives "000000", the code of black.
    pub fn as_hex(&self) -> (r: String)
        ensures
            r@ == self.spec_as_hex(),
    {
        match self {
            Color::Invalid => String::from_str("000000"),
            Color::Black => String::from_str("000000"),
            Color::DarkBlue => String::from_str("1D2B53"),
            Color::DarkPurple => String::from_str("7E2553"),
            Color::DarkGreen => String::from_str("008751"),
            Color::Brown => String::from_str("AB5236"),
            Color::DarkGrey => String::from_str("5F574F"),
            Color::LightGrey => String::from_str("C2C3C7"),
            Color::White => String::from_str("FFF1E8"),
            Color::Red => String::from_str("FF004D"),
            Color::Orange => String::from_str("FFA300"),
            Color::Yellow => String::from_str("FFEC27"),
            Color::Green => String::from_str("00E436"),
            Color::Blue => String::from_str("29ADFF"),
            Color::Lavender => String::from_str("83769C"),
            Color::Pink => String::from_str("FF77A8"),
            Color::LightPeach => String::from_str("FFCCAA"),
        }
    }

    /// Returns the RGB triplet of the color.  `Invalid` gives `(0, 0, 0)`,
    /// the triplet of black.
    pub fn as_rgb(&self) -> (r: (u8, u8, u8))
        ensures
            r == self.spec_as_rgb(),
    {
        match self {
            Color::Invalid => (0, 0, 0),
            Color::Black => (0, 0, 0),
            Color::DarkBlue => (29, 43, 83),
            Color::DarkPurple => (126, 37, 83),
            Color::DarkGreen => (0, 135, 81),
            Color::Brown => (171, 82, 54),
            Color::DarkGrey => (95, 87, 79),
            Color::LightGrey => (194, 195, 199),
            Color::White => (255, 241, 232),
            Color::Red => (255, 0, 77),
            Color::Orange => (255, 163, 0),
            Color::Yellow => (255, 236, 39),
            Color::Green => (0, 228, 54),
            Color::Blue => (41, 173, 255),
            Color::Lavender => (131, 118, 156),
            Color::Pink => (255, 119, 168),
            Color::LightPeach => (255, 204, 170),
        }
    }

    /// Returns the single hex digit of the color, as stored in the texture
    /// grid.  `Invalid` gives '0', the digit of black.
    pub fn as_char(&self) -> (r: char)
        ensures
            r == self.spec_as_char(),
    {
        match self {
            Color::Invalid => '0',
            Color::Black => '0',
            Color::DarkBlue => '1',
            Color::DarkPurple => '2',
            Color::DarkGreen => '3',
            Color::Brown => '4',
            Color::DarkGrey => '5',
            Color::LightGrey => '6',
            Color::White => '7',
            Color::Red => '8',
            Color::Orange => '9',
            Color::Yellow => 'a',
            Color::Green => 'b',
            Color::Blue => 'c',
            Color::Lavender => 'd',
            Color::Pink => 'e',
            Color::LightPeach => 'f',
        }
    }

    /// Returns the color the tool replaces this one with when it is shadowed.
    pub fn shadow(&self) -> (r: Color)
        ensures
            r == self.spec_shadow(),
    {
        match self {
            Color::Invalid => Color::Invalid,
            Color::Black | Color::DarkBlue | Color::DarkPurple | Color::DarkGrey => Color::Black,
            Color::DarkGreen | Color::Brown | Color::Red | Color::Green | Color::Lavender => {
                Color::DarkBlue
            },
            Color::LightGrey | Color::Blue => Color::DarkGrey,
            Color::Orange | Color::Pink => Color::DarkPurple,
            Color::Yellow | Color::LightPeach => Color::Brown,
            Color::White => Color::Lavender,
        }
    }

    /// Returns the color the tool replaces this one with while it is
    /// transitioning into shadow.
    pub fn shadow_transition(&self) -> (r: Color)
        ensures
            r == self.spec_shadow_transition(),
    {
        match self {
            Color::Invalid => Color::Invalid,
            Color::Black | Color::DarkBlue => Color::Black,
            Color::DarkPurple | Color::DarkGrey => Color::DarkBlue,
            Color::DarkGreen | Color::Lavender => Color::DarkGrey,
            Color::Brown | Color::Red => Color::DarkPurple,
            Color::LightGrey | Color::Blue => Color::Lavender,
            Color::Yellow | Color::LightPeach => Color::Orange,
            Color::White => Color::LightGrey,
            Color::Orange => Color::Brown,
            Color::Green => Color::DarkGreen,
            Color::Pink => Color::Red,
        }
    }
}

impl From<i32> for Color {
    /// Converts an integer code into a color; codes outside 0..=15 give
    /// `Invalid`, never an error.
    fn from(value: i32) -> (r: Color) {
        if 0 <= value && value <= 15 {
            match value {
                0 => Color::Black,
                1 => Color::DarkBlue,
                2 => Color::DarkPurple,
                3 => Color::DarkGreen,
                4 => Color::Brown,
                5 => Color::DarkGrey,
                6 => Color::LightGrey,
                7 => Color::White,
                8 => Color::Red,
                9 => Color::Orange,
                10 => Color::Yellow,
                11 => Color::Green,
                12 => Color::Blue,
                13 => Color::Lavender,
                14 => Color::Pink,
                _ => Color::LightPeach,
            }
        } else {
            Color::Invalid
        }
    }
}

impl vstd::std_specs::convert::FromSpecImpl<i32> for Color {
    open spec fn obeys_from_spec() -> bool {
        true
    }

    open spec fn from_spec(v: i32) -> Color {
        Color::spec_from_i32(v)
    }
}

impl From<char> for Color {
    /// Converts a hex digit into a color; characters outside the sixteen
    /// lower-case hex digits give `Invalid`, never an error.
    fn from(value: char) -> (r: Color) {
        match value {
            '0' => Color::Black,
            '1' => Color::DarkBlue,
            '2' => Color::DarkPurple,
            '3' => Color::DarkGreen,
            '4' => Color::Brown,
            '5' => Color::DarkGrey,
            '6' => Color::LightGrey,
            '7' => Color::White,
            '8' => Color::Red,
            '9' => Color::Orange,
            'a' => Color::Yellow,
            'b' => Color::Green,
            'c' => Color::Blue,
            'd' => Color::Lavender,
            'e' => Color::Pink,
            'f' => Color::LightPeach,
            _ => Color::Invalid,
        }
    }
}

impl vstd::std_specs::convert::FromSpecImpl<char> for Color {
    open spec fn obeys_from_spec() -> bool {
        true
    }

    open spec fn from_spec(v: char) -> Color {
        Color::spec_from_char(v)
    }
}

impl From<(u8, u8, u8)> for Color {
    /// Converts an RGB triplet into a color; triplets that are not in the
    /// palette give `Invalid`, never an error.
    fn from(value: (u8, u8, u8)) -> (r: Color) {
        match value {
            (0, 0, 0) => Color::Black,
            (29, 43, 83) => Color::DarkBlue,
            (126, 37, 83) => Color::DarkPurple,
            (0, 135, 81) => Color::DarkGreen,
            (171, 82, 54) => Color::Brown,
            (95, 87, 79) => Color::DarkGrey,
            (194, 195, 199) => Color::LightGrey,
            (255, 241, 232) => Color::White,
            (255, 0, 77) => Color::Red,
            (255, 163, 0) => Color::Orange,
            (255, 236, 39) => Color::Yellow,
            (0, 228, 54) => Color::Green,
            (41, 173, 255) => Color::Blue,
            (131, 118, 156) => Color::Lavender,
            (255, 119, 168) => Color::Pink,
            (255, 204, 170) => Color::LightPeach,
            _ => Color::Invalid,
        }
    }
}

impl vstd::std_specs::convert::FromSpecImpl<(u8, u8, u8)> for Color {
    open spec fn obeys_from_spec() -> bool {
        true
    }

    open spec fn from_spec(v: (u8, u8, u8)) -> Color {
        Color::spec_from_rgb(v)
    }
}

/// The palette conversions are total and invert each other on the palette:
/// every integer code outside 0..=15 maps to `Invalid`, and for every code
/// inside that range, reading back the code of the looked-up color gives the
/// same code.
pub proof fn lemma_palette_totality(value: i32)
    ensures
        !(0 <= value <= 15) ==> Color::spec_from_i32(value) == Color::Invalid,
        0 <= value <= 15 ==> Color::spec_from_i32(value).spec_as_i32() == value,
{
}

/// Looking a palette color's own code back up returns that color; only the
/// `Invalid` sentinel is lost, to `Black`, its on-the-wire stand-in.
pub proof fn lemma_color_code_inverse(c: Color)
    requires
        c != Color::Invalid,
    ensures
        Color::spec_from_i32(c.spec_as_i32()) == c,
{
}

/// Looking a palette color's own hex digit back up returns that color; only
/// the `Invalid` sentinel is lost, to `Black`, its on-the-wire stand-in.
/// The digit is never one of the blank characters the footer parser skips,
/// nor the document's `%` separator.
pub proof fn lemma_color_char_inverse(c: Color)
    ensures
        c != Color::Invalid ==> Color::spec_from_char(c.spec_as_char()) == c,
        c.spec_as_char() != ' ' && c.spec_as_char() != '\n' && c.spec_as_char() != '\r',
        c.spec_as_char() != '%',
{
}

} // verus!


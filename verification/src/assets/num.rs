//! Fixed-point decimal numbers and their text form.
//!
//! The file format writes coordinates as plain decimals with at most four
//! digits after the point (the tool itself stores three for rotations and
//! quarters for texture coordinates).  The library therefore holds every
//! coordinate as an `i64` count of ten-thousandths: the file value `-1.5`
//! is the raw value `-15000`.
//!
//! This module gives the canonical text of a raw value ([`coord_text`]),
//! the parse of such a text ([`spec_parse_coord`]), and proves that they
//! invert each other ([`lemma_coord_text_parse`]).

use vstd::prelude::*;

verus! {

/// Raw coordinate units per whole file-format unit.
pub const COORD_SCALE: i64 = 10000;

/// Largest whole part a coordinate text may carry: any larger value would
/// push the raw count of ten-thousandths beyond `i64`.
pub const COORD_MAX_WHOLE: i64 = 922337203685476;

/// Largest raw value the text codec handles (`COORD_MAX_WHOLE` wholes and
/// 9999 ten-thousandths).
pub const COORD_MAX_RAW: i64 = 9223372036854769999;

/// Whether the raw value is one the text codec handles.
pub open spec fn coord_in_range(v: int) -> bool {
    -COORD_MAX_RAW <= v <= COORD_MAX_RAW
}

/// Whether the character is a decimal digit.
pub open spec fn is_digit(c: char) -> bool {
    '0' <= c && c <= '9'
}

/// The value of a decimal digit character.
pub open spec fn digit_val(c: char) -> int {
    c as int - 48
}

/// The decimal digit character of a value in 0..=9.
pub open spec fn digit_char(d: int) -> char {
    if d == 0 {
        '0'
    } else if d == 1 {
        '1'
    } else if d == 2 {
        '2'
    } else if d == 3 {
        '3'
    } else if d == 4 {
        '4'
    } else if d == 5 {
        '5'
    } else if d == 6 {
        '6'
    } else if d == 7 {
        '7'
    } else if d == 8 {
        '8'
    } else {
        '9'
    }
}

/// Whether every character of the sequence is a decimal digit.
pub open spec fn all_digits(s: Seq<char>) -> bool {
    forall|i: int| 0 <= i < s.len() ==> is_digit(#[trigger] s[i])
}

/// The value of a sequence of decimal digit characters, most significant
/// first.
pub open spec fn digits_val(s: Seq<char>) -> int
    decreases s.len(),
{
    if s.len() == 0 {
        0
    } else {
        digits_val(s.drop_last()) * 10 + digit_val(s.last())
    }
}

/// The canonical decimal digits of a non-negative value: no leading zeros
/// except for the value 0 itself.
pub open spec fn nat_text(n: int) -> Seq<char>
    decreases n,
{
    if n < 10 {
        seq![digit_char(n)]
    } else {
        nat_text(n / 10).push(digit_char(n % 10))
    }
}

/// The four digits of a fractional part in ten-thousandths (0 < fp <= 9999).
pub open spec fn frac4(fp: int) -> Seq<char> {
    seq![
        digit_char(fp / 1000),
        digit_char((fp / 100) % 10),
        digit_char((fp / 10) % 10),
        digit_char(fp % 10),
    ]
}

/// The sequence with its trailing '0' characters removed.
pub open spec fn strip_zeros(s: Seq<char>) -> Seq<char>
    decreases s.len(),
{
    if s.len() > 0 && s.last() == '0' {
        strip_zeros(s.drop_last())
    } else {
        s
    }
}

/// A sequence of `n` '0' characters.
pub open spec fn zeros(n: int) -> Seq<char> {
    Seq::new(n as nat, |i: int| '0')
}

/// The fraction digits extended to exactly four digits: longer fractions
/// keep their first four digits, shorter ones are padded with zeros.
pub open spec fn pad4(f: Seq<char>) -> Seq<char> {
    if f.len() >= 4 {
        f.take(4)
    } else {
        f + zeros(4 - f.len())
    }
}

/// The value in ten-thousandths of a fraction digit sequence.
pub open spec fn frac_val(f: Seq<char>) -> int {
    digits_val(pad4(f))
}

/// The index of the first occurrence of `c` in `s`, or `s.len()` if there
/// is none.
pub open spec fn find_first(s: Seq<char>, c: char) -> int
    decreases s.len(),
{
    if s.len() == 0 {
        0
    } else if s[0] == c {
        0
    } else {
        1 + find_first(s.skip(1), c)
    }
}

/// The value with the sign applied.
pub open spec fn signed(neg: bool, m: int) -> int {
    if neg {
        -m
    } else {
        m
    }
}

/// The parse of a coordinate text: an optional minus sign, one or more
/// whole digits, and optionally a point followed by one or more fraction
/// digits, of which the first four count.  `None` for any other shape, and
/// for values whose raw count of ten-thousandths would not fit an `i64`.
pub open spec fn spec_parse_coord(s: Seq<char>) -> Option<int> {
    let neg = s.len() > 0 && s[0] == '-';
    let body = if neg {
        s.skip(1)
    } else {
        s
    };
    let dot = find_first(body, '.');
    let ipart = body.take(dot);
    if !(ipart.len() > 0 && all_digits(ipart)) {
        None
    } else if digits_val(ipart) > COORD_MAX_WHOLE {
        None
    } else if dot == body.len() {
        Some(signed(neg, digits_val(ipart) * 10000))
    } else {
        let fpart = body.skip(dot + 1);
        if !(fpart.len() > 0 && all_digits(fpart)) {
            None
        } else {
            Some(signed(neg, digits_val(ipart) * 10000 + frac_val(fpart)))
        }
    }
}

/// The canonical text of a raw coordinate value: minimal decimal form, with
/// no point when the value is whole and no trailing zeros in the fraction.
pub open spec fn coord_text(v: int) -> Seq<char> {
    let m = if v < 0 {
        -v
    } else {
        v
    };
    let sign: Seq<char> = if v < 0 {
        seq!['-']
    } else {
        Seq::empty()
    };
    let ip = m / 10000;
    let fp = m % 10000;
    if fp == 0 {
        sign + nat_text(ip)
    } else {
        sign + nat_text(ip) + seq!['.'] + strip_zeros(frac4(fp))
    }
}

/// The value of a digit sequence is never negative.
pub proof fn lemma_digits_val_nonneg(s: Seq<char>)
    requires
        all_digits(s),
    ensures
        digits_val(s) >= 0,
    decreases s.len(),
{
    if s.len() > 0 {
        assert(all_digits(s.drop_last())) by {
            assert(forall|i: int| 0 <= i < s.len() - 1 ==> s.drop_last()[i] == s[i]);
        }
        lemma_digits_val_nonneg(s.drop_last());
    }
}

/// A digit sequence is worth at least any of its prefixes.
pub proof fn lemma_digits_val_prefix(s: Seq<char>, i: int)
    requires
        all_digits(s),
        0 <= i <= s.len(),
    ensures
        digits_val(s.take(i)) <= digits_val(s),
    decreases s.len() - i,
{
    if i < s.len() {
        let t = s.take(i + 1);
        assert(all_digits(t)) by {
            assert(forall|k: int| 0 <= k < t.len() ==> t[k] == s[k]);
        }
        assert(t.drop_last() =~= s.take(i));
        lemma_digits_val_nonneg(s.take(i));
        assert(digits_val(t) == digits_val(s.take(i)) * 10 + digit_val(t.last()));
        assert(is_digit(t.last()));
        assert(digits_val(s.take(i)) <= digits_val(t)) by {
            lemma_digits_val_nonneg(t);
        }
        lemma_digits_val_prefix(s, i + 1);
        assert(s.take(i + 1) == t);
    } else {
        assert(s.take(i) =~= s);
    }
}

/// The canonical digits of a non-negative value are digits and are worth
/// that value.
pub proof fn lemma_nat_text_val(n: int)
    requires
        n >= 0,
    ensures
        all_digits(nat_text(n)),
        digits_val(nat_text(n)) == n,
        nat_text(n).len() >= 1,
    decreases n,
{
    if n < 10 {
        let s = nat_text(n);
        assert(s =~= seq![digit_char(n)]);
        assert(is_digit(digit_char(n)));
        assert(s.drop_last() =~= Seq::<char>::empty());
        assert(digits_val(Seq::<char>::empty()) == 0);
        assert(digits_val(s) == digits_val(s.drop_last()) * 10 + digit_val(s.last()));
        assert(s.last() == digit_char(n));
        assert(digit_val(digit_char(n)) == n);
    } else {
        lemma_nat_text_val(n / 10);
        let p = nat_text(n / 10);
        let s = p.push(digit_char(n % 10));
        assert(nat_text(n) == s);
        assert(s.drop_last() =~= p);
        assert(s.last() == digit_char(n % 10));
        assert(digit_val(digit_char(n % 10)) == n % 10);
        assert(digits_val(s) == digits_val(p) * 10 + n % 10);
        assert(digits_val(p) == n / 10);
        assert(n / 10 * 10 + n % 10 == n) by (nonlinear_arith);
        assert(all_digits(s)) by {
            assert(forall|i: int| 0 <= i < p.len() ==> s[i] == p[i]);
            assert(is_digit(digit_char(n % 10)));
        }
    }
}

/// Characterization of `find_first`: everything before the result differs
/// from `c`, and the result either indexes an occurrence of `c` or is the
/// length of the sequence.
pub proof fn lemma_find_first(s: Seq<char>, c: char)
    ensures
        0 <= find_first(s, c) <= s.len(),
        find_first(s, c) < s.len() ==> s[find_first(s, c)] == c,
        forall|i: int| 0 <= i < find_first(s, c) ==> s[i] != c,
    decreases s.len(),
{
    if s.len() > 0 && s[0] != c {
        lemma_find_first(s.skip(1), c);
        assert forall|i: int| 0 <= i < find_first(s, c) implies s[i] != c by {
            if i > 0 {
                assert(s.skip(1)[i - 1] == s[i]);
                assert(s.skip(1)[i - 1] != c);
            }
        }
    }
}

/// `find_first` returns exactly the index before which `c` does not occur
/// and at which it occurs, or the length when `c` does not occur at all.
pub proof fn lemma_find_first_is(s: Seq<char>, c: char, i: int)
    requires
        0 <= i <= s.len(),
        forall|k: int| 0 <= k < i ==> s[k] != c,
        i < s.len() ==> s[i] == c,
    ensures
        find_first(s, c) == i,
{
    lemma_find_first(s, c);
    let f = find_first(s, c);
    if f < i {
        assert(s[f] == c);
    }
    if i < f {
        assert(s[i] != c);
    }
}

/// Appending `k` zero digits multiplies the value of a digit sequence by
/// ten to the `k`.
proof fn lemma_digits_val_append_zeros(f: Seq<char>, k: int, scale: int)
    requires
        k >= 0,
        scale == pow10(k),
    ensures
        digits_val(f + zeros(k)) == digits_val(f) * scale,
    decreases k,
{
    if k == 0 {
        assert(f + zeros(0) =~= f);
    } else {
        let s = f + zeros(k);
        assert(s.len() == f.len() + k);
        assert(s.last() == '0');
        assert(s.drop_last() =~= f + zeros(k - 1));
        lemma_digits_val_append_zeros(f, k - 1, pow10(k - 1));
        assert(digits_val(s) == digits_val(f + zeros(k - 1)) * 10 + digit_val('0'));
        assert(digit_val('0') == 0);
        assert(digits_val(f) * pow10(k - 1) * 10 == digits_val(f) * pow10(k)) by (nonlinear_arith)
            requires pow10(k) == 10 * pow10(k - 1),
        ;
    }
}

/// Ten to the power `k`.
pub open spec fn pow10(k: int) -> int
    decreases k,
{
    if k <= 0 {
        1
    } else {
        10 * pow10(k - 1)
    }
}

/// Stripping trailing zeros of a fraction and padding it back to four
/// digits restores the original four digits.
proof fn lemma_strip_pad(s: Seq<char>)
    requires
        all_digits(s),
    ensures
        all_digits(strip_zeros(s)),
        strip_zeros(s).len() <= s.len(),
        strip_zeros(s) + zeros(s.len() - strip_zeros(s).len()) =~= s,
    decreases s.len(),
{
    if s.len() > 0 && s.last() == '0' {
        assert(all_digits(s.drop_last())) by {
            assert(forall|i: int| 0 <= i < s.len() - 1 ==> s.drop_last()[i] == s[i]);
        }
        lemma_strip_pad(s.drop_last());
        let t = strip_zeros(s);
        assert(t == strip_zeros(s.drop_last()));
        assert(t + zeros(s.len() - t.len()) =~= (t + zeros(s.len() - 1 - t.len())).push('0'));
        assert((t + zeros(s.len() - 1 - t.len())).push('0') =~= s.drop_last().push('0'));
        assert(s.drop_last().push('0') =~= s);
    }
}

/// The fraction digits of a value in 1..=9999 are digits, are worth that
/// value when padded, and do not end in a zero once stripped.
proof fn lemma_frac4_val(fp: int)
    requires
        1 <= fp <= 9999,
    ensures
        all_digits(frac4(fp)),
        digits_val(frac4(fp)) == fp,
        frac4(fp).len() == 4,
        strip_zeros(frac4(fp)).len() >= 1,
        frac_val(strip_zeros(frac4(fp))) == fp,
{
    let f = frac4(fp);
    let a = digit_char(fp / 1000);
    let b = digit_char((fp / 100) % 10);
    let c = digit_char((fp / 10) % 10);
    let d = digit_char(fp % 10);
    assert(digit_val(a) == fp / 1000);
    assert(digit_val(b) == (fp / 100) % 10);
    assert(digit_val(c) == (fp / 10) % 10);
    assert(digit_val(d) == fp % 10);
    let s1 = seq![a];
    let s2 = seq![a, b];
    let s3 = seq![a, b, c];
    assert(digits_val(Seq::<char>::empty()) == 0);
    assert(s1.drop_last() =~= Seq::<char>::empty());
    assert(digits_val(s1) == digit_val(a));
    assert(s2.drop_last() =~= s1);
    assert(s2.last() == b);
    assert(digits_val(s2) == digits_val(s1) * 10 + digit_val(b));
    assert(s3.drop_last() =~= s2);
    assert(s3.last() == c);
    assert(digits_val(s3) == digits_val(s2) * 10 + digit_val(c));
    assert(f.drop_last() =~= s3);
    assert(f.last() == d);
    assert(digits_val(f) == digits_val(s3) * 10 + digit_val(d));
    assert((((fp / 1000) * 10 + (fp / 100) % 10) * 10 + (fp / 10) % 10) * 10 + fp % 10 == fp)
        by (nonlinear_arith)
        requires 1 <= fp <= 9999,
    ;
    assert(all_digits(f));
    lemma_strip_pad(f);
    let t = strip_zeros(f);
    if t.len() == 0 {
        assert(t + zeros(4) =~= zeros(4));
        lemma_digits_val_append_zeros(t, 4, 10000);
        assert(digits_val(f) == 0);
    }
    assert(t.len() <= 4);
    assert(pad4(t) =~= t + zeros(4 - t.len()));
    lemma_digits_val_append_zeros(t, 4 - t.len(), pow10(4 - t.len()));
    assert(t + zeros(4 - t.len()) =~= f);
}

/// The parse of an unsigned byte text: an optional plus sign and one or
/// more digits, with a value of at most 255.
pub open spec fn spec_parse_u8(s: Seq<char>) -> Option<u8> {
    let body = if s.len() > 0 && s[0] == '+' {
        s.skip(1)
    } else {
        s
    };
    if !(body.len() > 0 && all_digits(body)) {
        None
    } else if digits_val(body) > 255 {
        None
    } else {
        Some(digits_val(body) as u8)
    }
}

/// The parse of a signed 32-bit integer text: an optional sign and one or
/// more digits, with a value in the `i32` range.
pub open spec fn spec_parse_i32(s: Seq<char>) -> Option<i32> {
    let neg = s.len() > 0 && s[0] == '-';
    let body = if s.len() > 0 && (s[0] == '+' || s[0] == '-') {
        s.skip(1)
    } else {
        s
    };
    if !(body.len() > 0 && all_digits(body)) {
        None
    } else if signed(neg, digits_val(body)) < i32::MIN || signed(neg, digits_val(body)) > i32::MAX {
        None
    } else {
        Some(signed(neg, digits_val(body)) as i32)
    }
}

/// The canonical text of an in-range raw value parses back to that value.
pub proof fn lemma_coord_text_parse(v: int)
    requires
        coord_in_range(v),
    ensures
        spec_parse_coord(coord_text(v)) == Some(v),
{
    let m = if v < 0 { -v } else { v };
    let ip = m / 10000;
    let fp = m % 10000;
    assert(0 <= fp < 10000);
    assert(0 <= ip <= COORD_MAX_WHOLE);
    assert(ip * 10000 + fp == m);
    lemma_nat_text_val(ip);
    let w = nat_text(ip);
    let s = coord_text(v);
    let neg = v < 0;
    if fp == 0 {
        if neg {
            assert(s =~= seq!['-'] + w);
            assert(s[0] == '-');
            assert(s.len() == 1 + w.len());
            assert(s.skip(1) =~= w);
        } else {
            assert(s =~= w);
            assert(s[0] != '-') by {
                assert(is_digit(w[0]));
            }
        }
        let body = if neg { s.skip(1) } else { s };
        assert(body =~= w);
        assert(forall|k: int| 0 <= k < w.len() ==> body[k] != '.') by {
            assert(forall|k: int| 0 <= k < w.len() ==> is_digit(#[trigger] body[k]));
        }
        lemma_find_first_is(body, '.', body.len() as int);
        assert(body.take(body.len() as int) =~= body);
        assert(spec_parse_coord(s) == Some(signed(neg, digits_val(w) * 10000)));
        assert(signed(neg, ip * 10000) == v);
    } else {
        lemma_frac4_val(fp);
        let t = strip_zeros(frac4(fp));
        if neg {
            assert(s =~= seq!['-'] + w + seq!['.'] + t);
            assert(s[0] == '-');
            assert(s.skip(1) =~= w + seq!['.'] + t);
        } else {
            assert(s =~= w + seq!['.'] + t);
            assert(s[0] != '-') by {
                assert(is_digit(w[0]));
                assert(s[0] == w[0]);
            }
        }
        let body = if neg { s.skip(1) } else { s };
        assert(body =~= w + seq!['.'] + t);
        assert(forall|k: int| 0 <= k < w.len() ==> body[k] != '.') by {
            assert(forall|k: int| 0 <= k < w.len() ==> body[k] == w[k]);
            assert(forall|k: int| 0 <= k < w.len() ==> is_digit(#[trigger] w[k]));
        }
        assert(body[w.len() as int] == '.');
        lemma_find_first_is(body, '.', w.len() as int);
        assert(body.take(w.len() as int) =~= w);
        let fpart = body.skip(w.len() as int + 1);
        assert(fpart =~= t);
        assert(all_digits(t)) by {
            lemma_strip_pad(frac4(fp));
        }
        assert(spec_parse_coord(s) == Some(signed(neg, digits_val(w) * 10000 + frac_val(t))));
        assert(signed(neg, ip * 10000 + fp) == v);
    }
}

/// Relies on str::chars: the characters of the string, in order.
#[verifier::external_body]
pub fn str_to_chars(s: &str) -> (r: Vec<char>)
    ensures
        r@ == s@,
{
    s.chars().collect()
}

/// Relies on String's FromIterator over characters: the collected string
/// holds exactly the given characters, in order.
#[verifier::external_body]
pub fn chars_to_string(v: &Vec<char>) -> (r: String)
    ensures
        r@ == v@,
{
    v.iter().collect()
}

/// Whether the character is a decimal digit.
pub fn is_digit_char(c: char) -> (r: bool)
    ensures
        r == is_digit(c),
{
    match c {
        '0' | '1' | '2' | '3' | '4' | '5' | '6' | '7' | '8' | '9' => true,
        _ => false,
    }
}

/// The decimal digit character of a value below ten.
pub fn digit_to_char(d: u64) -> (c: char)
    requires
        d < 10,
    ensures
        c == digit_char(d as int),
{
    match d {
        0 => '0',
        1 => '1',
        2 => '2',
        3 => '3',
        4 => '4',
        5 => '5',
        6 => '6',
        7 => '7',
        8 => '8',
        _ => '9',
    }
}

/// The value of a decimal digit character.
pub fn char_to_digit(c: char) -> (d: u64)
    requires
        is_digit(c),
    ensures
        d == digit_val(c),
        d < 10,
{
    match c {
        '0' => 0,
        '1' => 1,
        '2' => 2,
        '3' => 3,
        '4' => 4,
        '5' => 5,
        '6' => 6,
        '7' => 7,
        '8' => 8,
        _ => {
            assert(c == '9');
            9
        },
    }
}

/// Appends the canonical decimal digits of `n` to `out`.
pub fn push_u64_text(out: &mut Vec<char>, n: u64)
    ensures
        final(out)@ == old(out)@ + nat_text(n as int),
    decreases n,
{
    if n < 10 {
        out.push(digit_to_char(n));
        assert(final(out)@ =~= old(out)@ + nat_text(n as int));
    } else {
        push_u64_text(out, n / 10);
        out.push(digit_to_char(n % 10));
        assert(final(out)@ =~= old(out)@ + nat_text(n as int));
    }
}

/// The stripped fraction digits of a value in 1..=9999, by how many of its
/// trailing digits are zero.
proof fn lemma_frac4_strip_shape(fp: int)
    requires
        1 <= fp <= 9999,
    ensures
        fp % 10 != 0 ==> strip_zeros(frac4(fp)) == frac4(fp),
        fp % 10 == 0 && (fp / 10) % 10 != 0 ==> strip_zeros(frac4(fp)) == seq![
            digit_char(fp / 1000),
            digit_char((fp / 100) % 10),
            digit_char((fp / 10) % 10),
        ],
        fp % 10 == 0 && (fp / 10) % 10 == 0 && (fp / 100) % 10 != 0 ==> strip_zeros(frac4(fp))
            == seq![digit_char(fp / 1000), digit_char((fp / 100) % 10)],
        fp % 10 == 0 && (fp / 10) % 10 == 0 && (fp / 100) % 10 == 0 ==> strip_zeros(frac4(fp))
            == seq![digit_char(fp / 1000)],
        fp % 10 == 0 && (fp / 10) % 10 == 0 && (fp / 100) % 10 == 0 ==> fp / 1000 != 0,
{
    reveal_with_fuel(strip_zeros, 5);
    let a = digit_char(fp / 1000);
    let b = digit_char((fp / 100) % 10);
    let c = digit_char((fp / 10) % 10);
    let d = digit_char(fp % 10);
    let f = frac4(fp);
    assert(f =~= seq![a, b, c, d]);
    assert(f.drop_last() =~= seq![a, b, c]);
    assert(seq![a, b, c].drop_last() =~= seq![a, b]);
    assert(seq![a, b].drop_last() =~= seq![a]);
    assert(seq![a].drop_last() =~= Seq::<char>::empty());
    if fp % 10 == 0 && (fp / 10) % 10 == 0 && (fp / 100) % 10 == 0 {
        assert(fp == (fp / 1000) * 1000 + ((fp / 100) % 10) * 100 + ((fp / 10) % 10) * 10 + fp
            % 10) by (nonlinear_arith)
            requires 0 <= fp <= 9999,
        ;
    }
}

/// Appends the canonical text of an in-range raw coordinate value to `out`.
pub fn push_coord_text(out: &mut Vec<char>, v: i64)
    requires
        coord_in_range(v as int),
    ensures
        final(out)@ == old(out)@ + coord_text(v as int),
{
    let ghost prefix = out@;
    let neg = v < 0;
    if neg {
        out.push('-');
    }
    let m: u64 = if neg {
        (-v) as u64
    } else {
        v as u64
    };
    assert(m == if (v as int) < 0 { -(v as int) } else { v as int });
    let ip: u64 = m / 10000;
    let fp: u64 = m % 10000;
    push_u64_text(out, ip);
    let ghost sign: Seq<char> = if neg { seq!['-'] } else { Seq::empty() };
    assert(out@ =~= prefix + sign + nat_text(ip as int));
    if fp > 0 {
        out.push('.');
        let d1 = fp / 1000;
        let d2 = (fp / 100) % 10;
        let d3 = (fp / 10) % 10;
        let d4 = fp % 10;
        out.push(digit_to_char(d1));
        if d2 != 0 || d3 != 0 || d4 != 0 {
            out.push(digit_to_char(d2));
        }
        if d3 != 0 || d4 != 0 {
            out.push(digit_to_char(d3));
        }
        if d4 != 0 {
            out.push(digit_to_char(d4));
        }
        proof {
            lemma_frac4_strip_shape(fp as int);
            let f = frac4(fp as int);
            let a = digit_char(d1 as int);
            let b = digit_char(d2 as int);
            let c = digit_char(d3 as int);
            let d = digit_char(d4 as int);
            if d4 != 0 {
                assert(f =~= seq![a, b, c, d]);
                assert(out@ =~= prefix + sign + nat_text(ip as int) + seq!['.'] + strip_zeros(f));
            } else if d3 != 0 {
                assert(out@ =~= prefix + sign + nat_text(ip as int) + seq!['.'] + strip_zeros(f));
            } else if d2 != 0 {
                assert(out@ =~= prefix + sign + nat_text(ip as int) + seq!['.'] + strip_zeros(f));
            } else {
                assert(out@ =~= prefix + sign + nat_text(ip as int) + seq!['.'] + strip_zeros(f));
            }
        }
        assert(out@ =~= prefix + coord_text(v as int));
    } else {
        assert(out@ =~= prefix + coord_text(v as int));
    }
}

/// Parses the text of a coordinate into its raw count of ten-thousandths,
/// exactly as [`spec_parse_coord`] describes.
#[verifier::loop_isolation(false)]
#[verifier::rlimit(60)]
pub fn parse_coord(s: &Vec<char>) -> (r: Option<i64>)
    ensures
        match r {
            Some(x) => spec_parse_coord(s@) == Some(x as int),
            None => spec_parse_coord(s@) is None,
        },
{
    let n = s.len();
    let mut i: usize = 0;
    let mut neg = false;
    if n > 0 && s[0] == '-' {
        neg = true;
        i = 1;
    }
    let ghost body: Seq<char> = if neg { s@.skip(1) } else { s@ };
    let ghost off: int = if neg { 1int } else { 0int };
    assert(body.len() == n - off);
    assert(forall|k: int| 0 <= k < body.len() ==> body[k] == s@[k + off]);

    // Whole part.
    let mut whole: i64 = 0;
    let start = i;
    while i < n && is_digit_char(s[i]) && *&whole <= COORD_MAX_WHOLE
        invariant
            start <= i <= n,
            start == off,
            n == s.len(),
            body.len() == n - off,
            forall|k: int| 0 <= k < body.len() ==> body[k] == s@[k + off],
            body == (if neg { s@.skip(1) } else { s@ }),
            neg ==> (s@.len() > 0 && s@[0] == '-'),
            !neg ==> !(s@.len() > 0 && s@[0] == '-'),
            all_digits(body.take(i - off)),
            whole == digits_val(body.take(i - off)),
            0 <= whole <= COORD_MAX_WHOLE,
        decreases n - i,
    {
        let d = char_to_digit(s[i]);
        let next = whole * 10 + d as i64;
        proof {
            let t = body.take(i - off + 1);
            assert(t.drop_last() =~= body.take(i - off));
            assert(t.last() == body[i - off]);
            assert(body[i - off] == s@[i as int]);
            assert(digits_val(t) == whole * 10 + digit_val(s@[i as int]));
            assert(all_digits(t));
        }
        whole = next;
        i = i + 1;
        if whole > COORD_MAX_WHOLE {
            proof {
                lemma_find_first(body, '.');
                let dot = find_first(body, '.');
                let ipart = body.take(dot);
                assert(dot >= i - off) by {
                    assert(forall|k: int| 0 <= k < i - off ==> body[k] != '.') by {
                        assert(forall|k: int| 0 <= k < i - off ==> is_digit(
                            #[trigger] body.take(i - off)[k],
                        ));
                        assert(forall|k: int| 0 <= k < i - off ==> body.take(i - off)[k]
                            == body[k]);
                    }
                    if dot < i - off {
                        assert(body[dot] == '.');
                    }
                }
                if all_digits(ipart) {
                    lemma_digits_val_prefix(ipart, i - off);
                    assert(ipart.take(i - off) =~= body.take(i - off));
                    assert(digits_val(ipart) > COORD_MAX_WHOLE);
                }
            }
            return None;
        }
    }
    if i == start {
        proof {
            lemma_find_first(body, '.');
            let dot = find_first(body, '.');
            let ipart = body.take(dot);
            if ipart.len() > 0 {
                assert(body[0] == s@[off]);
                assert(ipart[0] == body[0]);
                if body.len() > 0 && is_digit(body[0]) {
                    assert(false);
                }
                assert(!all_digits(ipart)) by {
                    assert(!is_digit(ipart[0]));
                }
            }
        }
        return None;
    }
    assert(whole <= COORD_MAX_WHOLE);
    if i == n {
        proof {
            assert(body.take(i - off) =~= body);
            lemma_find_first_is(body, '.', body.len() as int);
            assert(body.take(body.len() as int) =~= body);
        }
        let raw = whole * 10000;
        if neg {
            return Some(-raw);
        } else {
            return Some(raw);
        }
    }
    // A non-digit stopped the scan (the cap cannot have: whole is in range).
    assert(!is_digit(s@[i as int]));
    if s[i] != '.' {
        proof {
            lemma_find_first(body, '.');
            let dot = find_first(body, '.');
            assert(forall|k: int| 0 <= k <= i - off ==> body[k] != '.') by {
                assert(forall|k: int| 0 <= k < i - off ==> is_digit(
                    #[trigger] body.take(i - off)[k],
                ));
                assert(forall|k: int| 0 <= k < i - off ==> body.take(i - off)[k] == body[k]);
                assert(body[i - off] == s@[i as int]);
            }
            assert(dot > i - off) by {
                if dot <= i - off {
                    assert(body[dot] == '.');
                }
            }
            let ipart = body.take(dot);
            assert(ipart[i - off] == body[i - off]);
            assert(!all_digits(ipart)) by {
                assert(!is_digit(ipart[i - off]));
            }
        }
        return None;
    }
    // Fraction part.
    proof {
        assert(forall|k: int| 0 <= k < i - off ==> body[k] != '.') by {
            assert(forall|k: int| 0 <= k < i - off ==> is_digit(#[trigger] body.take(i - off)[k]));
            assert(forall|k: int| 0 <= k < i - off ==> body.take(i - off)[k] == body[k]);
        }
        assert(body[i - off] == '.');
        lemma_find_first_is(body, '.', i - off);
    }
    let ghost dot: int = i - off;
    let ghost ipart = body.take(dot);
    assert(ipart =~= body.take(i - off));
    let fstart = i + 1;
    let ghost fpart = body.skip(dot + 1);
    assert(fpart.len() == n - fstart);
    assert(forall|k: int| 0 <= k < fpart.len() ==> fpart[k] == s@[k + fstart]);
    if fstart == n {
        assert(fpart.len() == 0);
        return None;
    }
    let mut j = fstart;
    let mut fp: i64 = 0;
    // Read the first four fraction digits; validate the rest.
    while j < n && j - fstart < 4 && is_digit_char(s[j])
        invariant
            fstart <= j <= n,
            j - fstart <= 4,
            n == s.len(),
            fpart.len() == n - fstart,
            forall|k: int| 0 <= k < fpart.len() ==> fpart[k] == s@[k + fstart],
            all_digits(fpart.take(j - fstart)),
            fp == digits_val(fpart.take(j - fstart)),
            0 <= fp < pow10(j - fstart),
        decreases n - j,
    {
        proof {
            assert(pow10(0int) == 1);
            assert(pow10(1int) == 10);
            assert(pow10(2int) == 100);
            assert(pow10(3int) == 1000);
            assert(pow10(4int) == 10000);
        }
        assert(fp <= 999);
        let d = char_to_digit(s[j]);
        proof {
            let t = fpart.take(j - fstart + 1);
            assert(t.drop_last() =~= fpart.take(j - fstart));
            assert(t.last() == fpart[j - fstart]);
            assert(fpart[j - fstart] == s@[j as int]);
            assert(digits_val(t) == fp * 10 + digit_val(s@[j as int]));
            assert(all_digits(t));
        }
        fp = fp * 10 + d as i64;
        j = j + 1;
    }
    proof {
        assert(pow10(0int) == 1);
        assert(pow10(1int) == 10);
        assert(pow10(2int) == 100);
        assert(pow10(3int) == 1000);
        assert(pow10(4int) == 10000);
        assert(0 <= fp <= 9999);
    }
    let fcount = j - fstart;
    if fcount == 0 {
        assert(!is_digit(fpart[0]));
        assert(!all_digits(fpart));
        return None;
    }
    // The remaining fraction digits are ignored for the value, but the
    // grammar still requires them to be digits.
    let mut k = j;
    while k < n
        invariant
            j <= k <= n,
            n == s.len(),
            fpart.len() == n - fstart,
            fstart <= j,
            forall|q: int| 0 <= q < fpart.len() ==> fpart[q] == s@[q + fstart],
            all_digits(fpart.take(k - fstart)),
        decreases n - k,
    {
        if !is_digit_char(s[k]) {
            assert(fpart[k - fstart] == s@[k as int]);
            assert(!all_digits(fpart)) by {
                assert(!is_digit(fpart[k - fstart]));
            }
            return None;
        }
        proof {
            let t = fpart.take(k - fstart + 1);
            assert(forall|q: int| 0 <= q < t.len() ==> t[q] == fpart[q]);
            assert(all_digits(t)) by {
                assert(forall|q: int| 0 <= q < t.len() - 1 ==> t[q] == fpart.take(k - fstart)[q]);
                assert(t[k - fstart] == s@[k as int]);
            }
        }
        k = k + 1;
    }
    assert(fpart.take(n - fstart) =~= fpart);
    assert(all_digits(fpart));
    // Scale a short fraction up to ten-thousandths.
    let scaled: i64 = if fcount == 1 {
        fp * 1000
    } else if fcount == 2 {
        fp * 100
    } else if fcount == 3 {
        fp * 10
    } else {
        fp
    };
    proof {
        if fcount < 4 {
            if j < n {
                assert(fpart[j - fstart] == s@[j as int]);
                assert(is_digit(fpart[j - fstart]));
            }
            assert(j == n);
            assert(fpart.take(j - fstart) =~= fpart);
            lemma_digits_val_append_zeros(fpart, 4 - fpart.len(), pow10(4 - fpart.len()));
            assert(pad4(fpart) =~= fpart + zeros(4 - fpart.len()));
            assert(pow10(0) == 1);
            assert(pow10(1) == 10);
            assert(pow10(2) == 100);
            assert(pow10(3) == 1000);
        } else {
            assert(pad4(fpart) =~= fpart.take(4));
        }
        assert(scaled == frac_val(fpart));
        lemma_digits_val_nonneg(pad4(fpart)) ;
        assert(pad4(fpart).len() == 4);
        lemma_digits_val_prefix(pad4(fpart), 4);
    }
    assert(0 <= scaled <= 9999) by {
        let p = pad4(fpart);
        assert(digits_val(p) <= 9999) by {
            lemma_digits4_bound(p);
        }
    }
    let raw = whole * 10000 + scaled;
    if neg {
        Some(-raw)
    } else {
        Some(raw)
    }
}

/// A four-digit sequence is worth at most 9999.
proof fn lemma_digits4_bound(p: Seq<char>)
    requires
        p.len() == 4,
        all_digits(p),
    ensures
        digits_val(p) <= 9999,
{
    let p3 = p.drop_last();
    let p2 = p3.drop_last();
    let p1 = p2.drop_last();
    let p0 = p1.drop_last();
    assert(p0 =~= Seq::<char>::empty());
    assert(digits_val(p0) == 0);
    assert(forall|k: int| 0 <= k < 3 ==> p3[k] == p[k]);
    assert(forall|k: int| 0 <= k < 2 ==> p2[k] == p3[k]);
    assert(forall|k: int| 0 <= k < 1 ==> p1[k] == p2[k]);
    assert(is_digit(p1.last()) && is_digit(p2.last()) && is_digit(p3.last()) && is_digit(p.last()));
    assert(digits_val(p1) <= 9);
    assert(digits_val(p2) <= 99);
    assert(digits_val(p3) <= 999);
}

/// Parses the text of an unsigned byte exactly as [`spec_parse_u8`]
/// describes.
#[verifier::loop_isolation(false)]
pub fn parse_u8_text(s: &Vec<char>) -> (r: Option<u8>)
    ensures
        r == spec_parse_u8(s@),
{
    let n = s.len();
    let mut i: usize = 0;
    if n > 0 && s[0] == '+' {
        i = 1;
    }
    let ghost off: int = i as int;
    let ghost body: Seq<char> = if off == 1 { s@.skip(1) } else { s@ };
    assert(forall|k: int| 0 <= k < body.len() ==> body[k] == s@[k + off]);
    if i == n {
        return None;
    }
    let mut acc: u32 = 0;
    let start = i;
    while i < n
        invariant
            start <= i <= n,
            start == off,
            n == s.len(),
            body == s@.skip(off),
            body.len() == n - off,
            forall|k: int| 0 <= k < body.len() ==> body[k] == s@[k + off],
            all_digits(body.take(i - off)),
            acc == digits_val(body.take(i - off)),
            acc <= 255,
        decreases n - i,
    {
        if !is_digit_char(s[i]) {
            assert(body[i - off] == s@[i as int]);
            assert(!all_digits(body)) by {
                assert(!is_digit(body[i - off]));
            }
            return None;
        }
        let d = char_to_digit(s[i]) as u32;
        proof {
            let t = body.take(i - off + 1);
            assert(t.drop_last() =~= body.take(i - off));
            assert(t.last() == body[i - off]);
            assert(body[i - off] == s@[i as int]);
            assert(digits_val(t) == acc * 10 + digit_val(s@[i as int]));
            assert(all_digits(t));
        }
        acc = acc * 10 + d;
        i = i + 1;
        if acc > 255 {
            proof {
                if all_digits(body) {
                    lemma_digits_val_prefix(body, i - off);
                }
            }
            return None;
        }
    }
    assert(body.take(i - off) =~= body);
    Some(acc as u8)
}

/// Parses the text of a signed 32-bit integer exactly as [`spec_parse_i32`]
/// describes.
#[verifier::loop_isolation(false)]
pub fn parse_i32_text(s: &Vec<char>) -> (r: Option<i32>)
    ensures
        r == spec_parse_i32(s@),
{
    let n = s.len();
    let mut i: usize = 0;
    let mut neg = false;
    if n > 0 && (s[0] == '+' || s[0] == '-') {
        neg = s[0] == '-';
        i = 1;
    }
    let ghost off: int = i as int;
    let ghost body: Seq<char> = if off == 1 { s@.skip(1) } else { s@ };
    assert(forall|k: int| 0 <= k < body.len() ==> body[k] == s@[k + off]);
    if i == n {
        return None;
    }
    let mut acc: i64 = 0;
    let start = i;
    while i < n
        invariant
            start <= i <= n,
            start == off,
            n == s.len(),
            body == s@.skip(off),
            body.len() == n - off,
            forall|k: int| 0 <= k < body.len() ==> body[k] == s@[k + off],
            all_digits(body.take(i - off)),
            acc == digits_val(body.take(i - off)),
            0 <= acc <= 2147483648,
        decreases n - i,
    {
        if !is_digit_char(s[i]) {
            assert(body[i - off] == s@[i as int]);
            assert(!all_digits(body)) by {
                assert(!is_digit(body[i - off]));
            }
            return None;
        }
        let d = char_to_digit(s[i]) as i64;
        proof {
            let t = body.take(i - off + 1);
            assert(t.drop_last() =~= body.take(i - off));
            assert(t.last() == body[i - off]);
            assert(body[i - off] == s@[i as int]);
            assert(digits_val(t) == acc * 10 + digit_val(s@[i as int]));
            assert(all_digits(t));
        }
        acc = acc * 10 + d;
        i = i + 1;
        if acc > 2147483648 {
            proof {
                if all_digits(body) {
                    lemma_digits_val_prefix(body, i - off);
                }
            }
            return None;
        }
    }
    assert(body.take(i - off) =~= body);
    if neg {
        Some((-acc) as i32)
    } else {
        if acc == 2147483648 {
            return None;
        }
        Some(acc as i32)
    }
}

} // verus!

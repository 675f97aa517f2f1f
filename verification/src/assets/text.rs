//! Character-level helpers shared by the parsers and serializers: trimming,
//! searching, and building character vectors.

use vstd::prelude::*;
use crate::assets::num::{find_first, lemma_find_first_is};

verus! {

/// Whether the character is white space, as the header trim strips it
/// from the ends of a line: the characters Unicode gives the White_Space
/// property.
pub open spec fn is_space(c: char) -> bool {
    ||| c == '\u{09}' || c == '\u{0A}' || c == '\u{0B}' || c == '\u{0C}' || c == '\u{0D}'
    ||| c == ' ' || c == '\u{85}' || c == '\u{A0}' || c == '\u{1680}'
    ||| c == '\u{2000}' || c == '\u{2001}' || c == '\u{2002}' || c == '\u{2003}'
    ||| c == '\u{2004}' || c == '\u{2005}' || c == '\u{2006}' || c == '\u{2007}'
    ||| c == '\u{2008}' || c == '\u{2009}' || c == '\u{200A}'
    ||| c == '\u{2028}' || c == '\u{2029}' || c == '\u{202F}' || c == '\u{205F}'
    ||| c == '\u{3000}'
}

/// The sequence without its leading blank characters.
pub open spec fn trim_start(s: Seq<char>) -> Seq<char>
    decreases s.len(),
{
    if s.len() > 0 && is_space(s[0]) {
        trim_start(s.skip(1))
    } else {
        s
    }
}

/// The sequence without its trailing blank characters.
pub open spec fn trim_end(s: Seq<char>) -> Seq<char>
    decreases s.len(),
{
    if s.len() > 0 && is_space(s.last()) {
        trim_end(s.drop_last())
    } else {
        s
    }
}

/// The sequence without blank characters at either end.
pub open spec fn trim(s: Seq<char>) -> Seq<char> {
    trim_end(trim_start(s))
}

/// `trim_start` drops exactly the blank prefix.
pub proof fn lemma_trim_start_is(s: Seq<char>, lo: int)
    requires
        0 <= lo <= s.len(),
        forall|k: int| 0 <= k < lo ==> is_space(#[trigger] s[k]),
        lo < s.len() ==> !is_space(s[lo]),
    ensures
        trim_start(s) =~= s.skip(lo),
    decreases lo,
{
    if lo == 0 {
        if s.len() > 0 && is_space(s[0]) {
            assert(false);
        }
        assert(trim_start(s) =~= s.skip(0));
    } else {
        assert(is_space(s[0]));
        let t = s.skip(1);
        assert(forall|k: int| 0 <= k < lo - 1 ==> t[k] == s[k + 1]);
        lemma_trim_start_is(t, lo - 1);
        assert(t.skip(lo - 1) =~= s.skip(lo));
    }
}

/// `trim_end` drops exactly the blank suffix.
pub proof fn lemma_trim_end_is(s: Seq<char>, hi: int)
    requires
        0 <= hi <= s.len(),
        forall|k: int| hi <= k < s.len() ==> is_space(#[trigger] s[k]),
        hi > 0 ==> !is_space(s[hi - 1]),
    ensures
        trim_end(s) =~= s.take(hi),
    decreases s.len() - hi,
{
    if hi == s.len() {
        if s.len() > 0 && is_space(s.last()) {
            assert(false);
        }
        assert(trim_end(s) =~= s.take(hi));
    } else {
        assert(is_space(s.last()));
        let t = s.drop_last();
        assert(forall|k: int| 0 <= k < t.len() ==> t[k] == s[k]);
        lemma_trim_end_is(t, hi);
        assert(t.take(hi) =~= s.take(hi));
    }
}

/// Appends every character of `s` to `out`.
pub fn push_chars(out: &mut Vec<char>, s: &Vec<char>)
    ensures
        final(out)@ == old(out)@ + s@,
{
    let mut i: usize = 0;
    while i < s.len()
        invariant
            0 <= i <= s.len(),
            out@ == old(out)@ + s@.take(i as int),
        decreases s.len() - i,
    {
        out.push(s[i]);
        assert(out@ =~= old(out)@ + s@.take(i + 1));
        i = i + 1;
    }
    assert(out@ =~= old(out)@ + s@);
}

/// Appends every character of the string `s` to `out`.
pub fn push_str_chars(out: &mut Vec<char>, s: &str)
    ensures
        final(out)@ == old(out)@ + s@,
{
    let v = crate::assets::num::str_to_chars(s);
    push_chars(out, &v);
}

/// The characters of `s` from `a` (inclusive) to `b` (exclusive).
pub fn subrange_chars(s: &Vec<char>, a: usize, b: usize) -> (r: Vec<char>)
    requires
        a <= b <= s@.len(),
    ensures
        r@ == s@.subrange(a as int, b as int),
{
    let mut r: Vec<char> = Vec::new();
    let mut i = a;
    while i < b
        invariant
            a <= i <= b <= s@.len(),
            r@ == s@.subrange(a as int, i as int),
        decreases b - i,
    {
        r.push(s[i]);
        assert(r@ =~= s@.subrange(a as int, i + 1));
        i = i + 1;
    }
    r
}

/// The index of the first occurrence of `c` in `s` at or after `from`, or
/// the length of `s` if there is none; the distance from `from` is exactly
/// `find_first` on the remaining characters.
pub fn find_char(s: &Vec<char>, from: usize, c: char) -> (r: usize)
    requires
        from <= s@.len(),
    ensures
        from <= r <= s@.len(),
        r - from == find_first(s@.skip(from as int), c),
        r < s@.len() ==> s@[r as int] == c,
        forall|k: int| from <= k < r ==> s@[k] != c,
{
    let ghost rest = s@.skip(from as int);
    assert(forall|k: int| 0 <= k < rest.len() ==> rest[k] == s@[k + from]);
    let mut i = from;
    while i < s.len()
        invariant
            from <= i <= s@.len(),
            rest == s@.skip(from as int),
            rest.len() == s@.len() - from,
            forall|k: int| 0 <= k < rest.len() ==> rest[k] == s@[k + from],
            forall|k: int| from <= k < i ==> s@[k] != c,
        decreases s@.len() - i,
    {
        if s[i] == c {
            proof {
                assert(forall|k: int| 0 <= k < i - from ==> rest[k] != c);
                assert(rest[i - from] == c);
                lemma_find_first_is(rest, c, i - from);
            }
            return i;
        }
        i = i + 1;
    }
    proof {
        assert(forall|k: int| 0 <= k < rest.len() ==> rest[k] != c);
        lemma_find_first_is(rest, c, rest.len() as int);
    }
    s.len()
}

/// Whether two character vectors hold the same characters.
pub fn chars_eq(a: &Vec<char>, b: &Vec<char>) -> (r: bool)
    ensures
        r == (a@ == b@),
{
    if a.len() != b.len() {
        return false;
    }
    let mut i: usize = 0;
    while i < a.len()
        invariant
            0 <= i <= a.len(),
            a.len() == b.len(),
            forall|k: int| 0 <= k < i ==> a@[k] == b@[k],
        decreases a.len() - i,
    {
        if a[i] != b[i] {
            return false;
        }
        i = i + 1;
    }
    proof {
        assert(a@ =~= b@);
    }
    true
}

/// Whether the character is white space, as the header trim strips it
/// from the ends of a line.
pub fn is_space_char(c: char) -> (r: bool)
    ensures
        r == is_space(c),
{
    match c {
        '\u{09}' | '\u{0A}' | '\u{0B}' | '\u{0C}' | '\u{0D}' | ' ' | '\u{85}' | '\u{A0}'
        | '\u{1680}' | '\u{2000}' | '\u{2001}' | '\u{2002}' | '\u{2003}' | '\u{2004}'
        | '\u{2005}' | '\u{2006}' | '\u{2007}' | '\u{2008}' | '\u{2009}' | '\u{200A}'
        | '\u{2028}' | '\u{2029}' | '\u{202F}' | '\u{205F}' | '\u{3000}' => true,
        _ => false,
    }
}

/// The index of the last occurrence of `c` in `s`, or -1 if there is
/// none.
pub open spec fn find_last(s: Seq<char>, c: char) -> int
    decreases s.len(),
{
    if s.len() == 0 {
        -1
    } else if s.last() == c {
        s.len() - 1
    } else {
        find_last(s.drop_last(), c)
    }
}

/// `find_last` returns exactly the index after which `c` does not occur
/// and at which it occurs, or -1 when `c` does not occur at all.
pub proof fn lemma_find_last_is(s: Seq<char>, c: char, i: int)
    requires
        -1 <= i < s.len() || (i == -1 && s.len() == 0),
        forall|k: int| i < k < s.len() ==> s[k] != c,
        i >= 0 ==> s[i] == c,
    ensures
        find_last(s, c) == i,
    decreases s.len(),
{
    if s.len() > 0 {
        if s.last() == c {
            assert(i == s.len() - 1);
        } else {
            assert(i < s.len() - 1);
            assert(forall|k: int| 0 <= k < s.len() - 1 ==> s.drop_last()[k] == s[k]);
            lemma_find_last_is(s.drop_last(), c, i);
        }
    }
}

/// The index one past the last occurrence of `c` in `s`, or 0 if there is
/// none: everything at or after the result differs from `c`, and if the
/// result is positive, `c` stands just before it.
pub fn rfind_char(s: &Vec<char>, c: char) -> (r: usize)
    ensures
        r <= s@.len(),
        forall|k: int| r <= k < s@.len() ==> s@[k] != c,
        r > 0 ==> s@[r - 1] == c,
{
    let mut i = s.len();
    while i > 0
        invariant
            0 <= i <= s@.len(),
            forall|k: int| i <= k < s@.len() ==> s@[k] != c,
        decreases i,
    {
        if s[i - 1] == c {
            return i;
        }
        i = i - 1;
    }
    0
}

} // verus!

use vstd::prelude::*;

use crate::text::chars_of;

verus! {

broadcast use vstd::string::group_string_axioms;

/// `c` has the Unicode `White_Space` property, as `char::is_whitespace` says.
pub open spec fn is_ws(c: char) -> bool {
    ('\u{9}' <= c && c <= '\u{d}') || c == ' ' || c == '\u{85}' || c == '\u{a0}' || c == '\u{1680}'
        || ('\u{2000}' <= c && c <= '\u{200a}') || c == '\u{2028}' || c == '\u{2029}' || c == '\u{202f}'
        || c == '\u{205f}' || c == '\u{3000}'
}

/// `c` is one of the separators of cue settings: space, tab or form feed.
pub open spec fn is_vtt_space(c: char) -> bool {
    c == ' ' || c == '\t' || c == '\u{c}'
}

/// The first index in `i..hi` whose character is not white space, or `hi`.
pub open spec fn skip_ws(s: Seq<char>, i: int, hi: int) -> int
    decreases hi - i,
{
    if i < hi && is_ws(s[i]) {
        skip_ws(s, i + 1, hi)
    } else {
        i
    }
}

/// The end of `s[lo..hi]` once trailing white space is cut off.
pub open spec fn trim_ws_end(s: Seq<char>, lo: int, hi: int) -> int
    decreases hi - lo,
{
    if hi > lo && is_ws(s[hi - 1]) {
        trim_ws_end(s, lo, hi - 1)
    } else {
        hi
    }
}

/// The first index in `i..hi` whose character is not a space, tab or form feed, or `hi`.
pub open spec fn skip_space(s: Seq<char>, i: int, hi: int) -> int
    decreases hi - i,
{
    if i < hi && is_vtt_space(s[i]) {
        skip_space(s, i + 1, hi)
    } else {
        i
    }
}

/// The first index in `i..hi` holding `c`, or `hi`.
pub open spec fn find_in(s: Seq<char>, i: int, hi: int, c: char) -> int
    decreases hi - i,
{
    if i >= hi || s[i] == c {
        i
    } else {
        find_in(s, i + 1, hi, c)
    }
}

/// The first index in `i..hi` holding a space, tab or form feed, or `hi`.
pub open spec fn find_space(s: Seq<char>, i: int, hi: int) -> int
    decreases hi - i,
{
    if i >= hi || is_vtt_space(s[i]) {
        i
    } else {
        find_space(s, i + 1, hi)
    }
}

/// `s[k..k + 3]` is the arrow `-->`.
pub open spec fn arrow_at(s: Seq<char>, k: int) -> bool {
    s[k] == '-' && s[k + 1] == '-' && s[k + 2] == '>'
}

/// The first index in `i..hi` where an arrow `-->` lies wholly within `s[..hi]`, or `hi`.
pub open spec fn find_arrow(s: Seq<char>, i: int, hi: int) -> int
    decreases hi - i,
{
    if i + 3 > hi {
        hi
    } else if arrow_at(s, i) {
        i
    } else {
        find_arrow(s, i + 1, hi)
    }
}

/// `s[lo..hi]` contains the arrow `-->`.
pub open spec fn has_arrow(s: Seq<char>, lo: int, hi: int) -> bool {
    find_arrow(s, lo, hi) < hi
}

/// The first index at or after `i` holding a line feed or a carriage return, or the length.
pub open spec fn find_eol(s: Seq<char>, i: int) -> int
    decreases s.len() - i,
{
    if i >= s.len() || s[i] == '\n' || s[i] == '\r' {
        i
    } else {
        find_eol(s, i + 1)
    }
}

/// Where the line starting at `pos` ends, and where the next line starts; lines end in
/// `\n`, `\r\n` or `\r`.
pub open spec fn vtt_line_end(s: Seq<char>, pos: int) -> (int, int) {
    let i = find_eol(s, pos);
    if i >= s.len() {
        (s.len() as int, s.len() as int)
    } else if s[i] == '\r' && i + 1 < s.len() && s[i + 1] == '\n' {
        (i, i + 2)
    } else {
        (i, i + 1)
    }
}

/// `s[lo..hi]` starts with `p`.
pub open spec fn starts_with(s: Seq<char>, lo: int, hi: int, p: Seq<char>) -> bool {
    hi - lo >= p.len() && s.subrange(lo, lo + p.len()) == p
}

/// Whether `c` has the Unicode `White_Space` property.
pub fn is_ws_char(c: char) -> (b: bool)
    ensures
        b == is_ws(c),
{
    ('\u{9}' <= c && c <= '\u{d}') || c == ' ' || c == '\u{85}' || c == '\u{a0}' || c == '\u{1680}'
        || ('\u{2000}' <= c && c <= '\u{200a}') || c == '\u{2028}' || c == '\u{2029}' || c == '\u{202f}'
        || c == '\u{205f}' || c == '\u{3000}'
}

/// Whether `c` is a space, tab or form feed.
pub fn is_vtt_space_char(c: char) -> (b: bool)
    ensures
        b == is_vtt_space(c),
{
    c == ' ' || c == '\t' || c == '\u{c}'
}

/// Returns the first index in `i..hi` whose character is not white space, or `hi`.
pub fn skip_ws_at(v: &Vec<char>, i: usize, hi: usize) -> (j: usize)
    requires
        i <= hi <= v.len(),
    ensures
        j == skip_ws(v@, i as int, hi as int),
        i <= j <= hi,
{
    let mut j = i;
    while j < hi && is_ws_char(v[j])
        invariant
            i <= j <= hi <= v.len(),
            skip_ws(v@, i as int, hi as int) == skip_ws(v@, j as int, hi as int),
        decreases hi - j,
    {
        j = j + 1;
    }
    j
}

/// Returns the end of `v[lo..hi]` once trailing white space is cut off.
pub fn trim_ws_end_at(v: &Vec<char>, lo: usize, hi: usize) -> (j: usize)
    requires
        lo <= hi <= v.len(),
    ensures
        j == trim_ws_end(v@, lo as int, hi as int),
        lo <= j <= hi,
{
    let mut j = hi;
    while j > lo && is_ws_char(v[j - 1])
        invariant
            lo <= j <= hi <= v.len(),
            trim_ws_end(v@, lo as int, hi as int) == trim_ws_end(v@, lo as int, j as int),
        decreases j - lo,
    {
        j = j - 1;
    }
    j
}

/// Returns the first index in `i..hi` whose character is not a space, tab or form feed.
pub fn skip_space_at(v: &Vec<char>, i: usize, hi: usize) -> (j: usize)
    requires
        i <= hi <= v.len(),
    ensures
        j == skip_space(v@, i as int, hi as int),
        i <= j <= hi,
{
    let mut j = i;
    while j < hi && is_vtt_space_char(v[j])
        invariant
            i <= j <= hi <= v.len(),
            skip_space(v@, i as int, hi as int) == skip_space(v@, j as int, hi as int),
        decreases hi - j,
    {
        j = j + 1;
    }
    j
}

/// Returns the first index in `i..hi` holding `c`, or `hi`.
pub fn find_in_at(v: &Vec<char>, i: usize, hi: usize, c: char) -> (j: usize)
    requires
        i <= hi <= v.len(),
    ensures
        j == find_in(v@, i as int, hi as int, c),
        i <= j <= hi,
{
    let mut j = i;
    while j < hi && v[j] != c
        invariant
            i <= j <= hi <= v.len(),
            find_in(v@, i as int, hi as int, c) == find_in(v@, j as int, hi as int, c),
        decreases hi - j,
    {
        j = j + 1;
    }
    j
}

/// Returns the first index in `i..hi` holding a space, tab or form feed, or `hi`.
pub fn find_space_at(v: &Vec<char>, i: usize, hi: usize) -> (j: usize)
    requires
        i <= hi <= v.len(),
    ensures
        j == find_space(v@, i as int, hi as int),
        i <= j <= hi,
{
    let mut j = i;
    while j < hi && !is_vtt_space_char(v[j])
        invariant
            i <= j <= hi <= v.len(),
            find_space(v@, i as int, hi as int) == find_space(v@, j as int, hi as int),
        decreases hi - j,
    {
        j = j + 1;
    }
    j
}

/// Whether `v[lo..hi]` contains the arrow `-->`.
pub fn has_arrow_at(v: &Vec<char>, lo: usize, hi: usize) -> (b: bool)
    requires
        lo <= hi <= v.len(),
    ensures
        b == has_arrow(v@, lo as int, hi as int),
{
    let mut k = lo;
    while k < hi && hi - k >= 3
        invariant
            lo <= k <= hi <= v.len(),
            find_arrow(v@, lo as int, hi as int) == find_arrow(v@, k as int, hi as int),
        decreases hi - k,
    {
        if v[k] == '-' && v[k + 1] == '-' && v[k + 2] == '>' {
            return true;
        }
        k = k + 1;
    }
    false
}

/// Returns where the line starting at `pos` ends, and where the next line starts.
pub fn line_end_at(v: &Vec<char>, pos: usize) -> (r: (usize, usize))
    requires
        pos < v.len(),
    ensures
        (r.0 as int, r.1 as int) == vtt_line_end(v@, pos as int),
        pos <= r.0 <= r.1 <= v.len(),
        r.1 > pos,
        r.0 < r.1 || r.1 == v.len(),
{
    let mut i = pos;
    while i < v.len() && v[i] != '\n' && v[i] != '\r'
        invariant
            pos <= i <= v.len(),
            find_eol(v@, pos as int) == find_eol(v@, i as int),
        decreases v.len() - i,
    {
        i = i + 1;
    }
    if i >= v.len() {
        (v.len(), v.len())
    } else if v[i] == '\r' && i + 1 < v.len() && v[i + 1] == '\n' {
        (i, i + 2)
    } else {
        (i, i + 1)
    }
}

/// Whether `v[lo..hi]` is exactly the text `p`.
pub fn window_eq(v: &Vec<char>, lo: usize, hi: usize, p: &str) -> (b: bool)
    requires
        lo <= hi <= v.len(),
    ensures
        b == (v@.subrange(lo as int, hi as int) == p@),
{
    let w = chars_of(p);
    if hi - lo != w.len() {
        return false;
    }
    let mut k: usize = 0;
    while k < w.len()
        invariant
            w@ == p@,
            lo <= hi <= v.len(),
            hi - lo == w.len(),
            k <= w.len(),
            forall|j: int| 0 <= j < k ==> v@[lo + j] == w@[j],
        decreases w.len() - k,
    {
        if v[lo + k] != w[k] {
            assert(v@.subrange(lo as int, hi as int)[k as int] != p@[k as int]);
            return false;
        }
        k = k + 1;
    }
    assert(v@.subrange(lo as int, hi as int) =~= p@);
    true
}

/// Whether `v[lo..hi]` starts with the text `p`.
pub fn starts_with_at(v: &Vec<char>, lo: usize, hi: usize, p: &str) -> (b: bool)
    requires
        lo <= hi <= v.len(),
    ensures
        b == starts_with(v@, lo as int, hi as int, p@),
{
    let n = p.unicode_len();
    if hi - lo < n {
        return false;
    }
    window_eq(v, lo, lo + n, p)
}

} // verus!

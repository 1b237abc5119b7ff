//! Character-level helpers shared by the parsers: whitespace trimming,
//! character search, and conversion between `&str`, `Vec<char>` and `String`.
//!
//! All parsing in this crate happens on a `Vec<char>` of the input, so that
//! every contract can speak about plain character sequences.

use vstd::prelude::*;
use vstd::string::*;

verus! {

/// The whitespace characters the parsers trim and split on.
pub open spec fn is_space_char(c: char) -> bool {
    c == ' ' || c == '\t' || c == '\n' || c == '\r'
}

/// Executable test for [`is_space_char`].
pub fn is_space(c: char) -> (r: bool)
    ensures
        r == is_space_char(c),
{
    c == ' ' || c == '\t' || c == '\n' || c == '\r'
}

/// First index in `[i, end)` holding a non-space character, or `end`.
pub open spec fn skip_spaces(s: Seq<char>, i: int, end: int) -> int
    decreases end - i,
{
    if i < 0 || i >= end || end > s.len() {
        end
    } else if !is_space_char(s[i]) {
        i
    } else {
        skip_spaces(s, i + 1, end)
    }
}

/// Largest `j` in `(start, end]` with `s[j - 1]` non-space, or `start`.
pub open spec fn rskip_spaces(s: Seq<char>, start: int, j: int) -> int
    decreases j - start,
{
    if j <= start || j > s.len() || start < 0 {
        start
    } else if !is_space_char(s[j - 1]) {
        j
    } else {
        rskip_spaces(s, start, j - 1)
    }
}

/// The sub-range of `[start, end)` left after trimming spaces on both sides.
pub open spec fn trim_bounds(s: Seq<char>, start: int, end: int) -> (int, int) {
    let a = skip_spaces(s, start, end);
    (a, rskip_spaces(s, a, end))
}

/// A whole sequence with surrounding whitespace removed.
pub open spec fn spec_trim(s: Seq<char>) -> Seq<char> {
    let (a, b) = trim_bounds(s, 0, s.len() as int);
    s.subrange(a, b)
}

/// Everything the spec promises about [`skip_spaces`].
pub proof fn lemma_skip_spaces_bounds(s: Seq<char>, i: int, end: int)
    requires
        0 <= i <= end <= s.len(),
    ensures
        i <= skip_spaces(s, i, end) <= end,
        forall|k: int| i <= k < skip_spaces(s, i, end) ==> is_space_char(s[k]),
        skip_spaces(s, i, end) < end ==> !is_space_char(s[skip_spaces(s, i, end)]),
    decreases end - i,
{
    if i < end && is_space_char(s[i]) {
        lemma_skip_spaces_bounds(s, i + 1, end);
    }
}

/// Everything the spec promises about [`rskip_spaces`].
pub proof fn lemma_rskip_spaces_bounds(s: Seq<char>, start: int, j: int)
    requires
        0 <= start <= j <= s.len(),
    ensures
        start <= rskip_spaces(s, start, j) <= j,
        forall|k: int| rskip_spaces(s, start, j) <= k < j ==> is_space_char(s[k]),
        rskip_spaces(s, start, j) > start ==> !is_space_char(s[rskip_spaces(s, start, j) - 1]),
    decreases j - start,
{
    if j > start && is_space_char(s[j - 1]) {
        lemma_rskip_spaces_bounds(s, start, j - 1);
    }
}

/// The bounds returned by [`trim_bounds`] are ordered and lie inside the range.
pub proof fn lemma_trim_bounds(s: Seq<char>, start: int, end: int)
    requires
        0 <= start <= end <= s.len(),
    ensures
        start <= trim_bounds(s, start, end).0 <= trim_bounds(s, start, end).1 <= end,
{
    lemma_skip_spaces_bounds(s, start, end);
    lemma_rskip_spaces_bounds(s, skip_spaces(s, start, end), end);
}

/// Trim whitespace from both ends of `[start, end)` within `v`.
pub fn trim_in(v: &Vec<char>, start: usize, end: usize) -> (r: (usize, usize))
    requires
        start <= end <= v@.len(),
    ensures
        (r.0 as int, r.1 as int) == trim_bounds(v@, start as int, end as int),
        start <= r.0 <= r.1 <= end,
{
    proof {
        lemma_trim_bounds(v@, start as int, end as int);
    }
    let ghost s = v@;
    let mut a = start;
    while a < end && is_space(v[a])
        invariant
            start <= a <= end <= v@.len(),
            v@ == s,
            skip_spaces(s, start as int, end as int) == skip_spaces(s, a as int, end as int),
        decreases end - a,
    {
        a = a + 1;
    }
    assert(skip_spaces(s, a as int, end as int) == a as int);
    let mut b = end;
    while b > a && is_space(v[b - 1])
        invariant
            a <= b <= end <= v@.len(),
            v@ == s,
            rskip_spaces(s, a as int, end as int) == rskip_spaces(s, a as int, b as int),
        decreases b,
    {
        b = b - 1;
    }
    assert(rskip_spaces(s, a as int, b as int) == b as int);
    (a, b)
}

/// First index in `[i, end)` where `c` occurs, or `end` if it does not.
pub open spec fn find_char_in(s: Seq<char>, i: int, end: int, c: char) -> int
    decreases end - i,
{
    if i < 0 || i >= end || end > s.len() {
        end
    } else if s[i] == c {
        i
    } else {
        find_char_in(s, i + 1, end, c)
    }
}

/// Everything the spec promises about [`find_char_in`].
pub proof fn lemma_find_char_in(s: Seq<char>, i: int, end: int, c: char)
    requires
        0 <= i <= end <= s.len(),
    ensures
        i <= find_char_in(s, i, end, c) <= end,
        forall|k: int| i <= k < find_char_in(s, i, end, c) ==> s[k] != c,
        find_char_in(s, i, end, c) < end ==> s[find_char_in(s, i, end, c)] == c,
    decreases end - i,
{
    if i < end && s[i] != c {
        lemma_find_char_in(s, i + 1, end, c);
    }
}

/// Find the first occurrence of `c` in `[start, end)`.
pub fn find_char(v: &Vec<char>, start: usize, end: usize, c: char) -> (r: usize)
    requires
        start <= end <= v@.len(),
    ensures
        r as int == find_char_in(v@, start as int, end as int, c),
        start <= r <= end,
{
    proof {
        lemma_find_char_in(v@, start as int, end as int, c);
    }
    let ghost s = v@;
    let mut i = start;
    while i < end && !(v[i] == c)
        invariant
            start <= i <= end <= v@.len(),
            v@ == s,
            find_char_in(s, start as int, end as int, c) == find_char_in(s, i as int, end as int, c),
        decreases end - i,
    {
        i = i + 1;
    }
    assert(find_char_in(s, i as int, end as int, c) == i as int || i == end);
    i
}

/// Whether `c` occurs anywhere in `[start, end)`.
pub open spec fn contains_char(s: Seq<char>, start: int, end: int, c: char) -> bool {
    find_char_in(s, start, end, c) < end
}

/// Whether the two-character pattern `c0 c1` occurs inside `[start, end)`.
pub open spec fn contains_pair(s: Seq<char>, start: int, end: int, c0: char, c1: char) -> bool
    decreases end - start,
{
    if start < 0 || start + 1 >= end || end > s.len() {
        false
    } else {
        (s[start] == c0 && s[start + 1] == c1) || contains_pair(s, start + 1, end, c0, c1)
    }
}

/// Look for the adjacent pattern `c0 c1` in `[start, end)`.
pub fn has_pair(v: &Vec<char>, start: usize, end: usize, c0: char, c1: char) -> (r: bool)
    requires
        start <= end <= v@.len(),
    ensures
        r == contains_pair(v@, start as int, end as int, c0, c1),
{
    let ghost s = v@;
    let mut i = start;
    while end - i > 1 && !(v[i] == c0 && v[i + 1] == c1)
        invariant
            start <= i <= end,
            end <= v@.len(),
            v@ == s,
            contains_pair(s, start as int, end as int, c0, c1) == contains_pair(
                s,
                i as int,
                end as int,
                c0,
                c1,
            ),
        decreases end - i,
    {
        i = i + 1;
    }
    end - i > 1
}

/// First index in `[i, end)` holding a space character, or `end`.
pub open spec fn find_space_in(s: Seq<char>, i: int, end: int) -> int
    decreases end - i,
{
    if i < 0 || i >= end || end > s.len() {
        end
    } else if is_space_char(s[i]) {
        i
    } else {
        find_space_in(s, i + 1, end)
    }
}

/// Everything the spec promises about [`find_space_in`].
pub proof fn lemma_find_space_in(s: Seq<char>, i: int, end: int)
    requires
        0 <= i <= end <= s.len(),
    ensures
        i <= find_space_in(s, i, end) <= end,
        forall|k: int| i <= k < find_space_in(s, i, end) ==> !is_space_char(s[k]),
        find_space_in(s, i, end) < end ==> is_space_char(s[find_space_in(s, i, end)]),
    decreases end - i,
{
    if i < end && !is_space_char(s[i]) {
        lemma_find_space_in(s, i + 1, end);
    }
}

/// Find the first whitespace character in `[start, end)`.
pub fn find_space(v: &Vec<char>, start: usize, end: usize) -> (r: usize)
    requires
        start <= end <= v@.len(),
    ensures
        r as int == find_space_in(v@, start as int, end as int),
        start <= r <= end,
{
    let ghost s = v@;
    let mut i = start;
    while i < end && !is_space(v[i])
        invariant
            start <= i <= end <= v@.len(),
            v@ == s,
            find_space_in(s, start as int, end as int) == find_space_in(s, i as int, end as int),
        decreases end - i,
    {
        i = i + 1;
    }
    i
}

/// Skip whitespace forward from `start` within `[start, end)`.
pub fn skip_ws(v: &Vec<char>, start: usize, end: usize) -> (r: usize)
    requires
        start <= end <= v@.len(),
    ensures
        r as int == skip_spaces(v@, start as int, end as int),
        start <= r <= end,
{
    let ghost s = v@;
    let mut i = start;
    while i < end && is_space(v[i])
        invariant
            start <= i <= end <= v@.len(),
            v@ == s,
            skip_spaces(s, start as int, end as int) == skip_spaces(s, i as int, end as int),
        decreases end - i,
    {
        i = i + 1;
    }
    i
}

/// Copy the characters of `[start, end)` into a fresh vector.
pub fn copy_range(v: &Vec<char>, start: usize, end: usize) -> (r: Vec<char>)
    requires
        start <= end <= v@.len(),
    ensures
        r@ == v@.subrange(start as int, end as int),
{
    let mut r: Vec<char> = Vec::new();
    let mut i = start;
    while i < end
        invariant
            start <= i <= end <= v@.len(),
            r@ == v@.subrange(start as int, i as int),
        decreases end - i,
    {
        r.push(v[i]);
        i = i + 1;
        assert(r@ =~= v@.subrange(start as int, i as int));
    }
    r
}

/// Read a `&str` into the character vector the parsers work on.
pub fn str_to_chars(s: &str) -> (r: Vec<char>)
    ensures
        r@ == s@,
{
    let n = s.unicode_len();
    let mut r: Vec<char> = Vec::new();
    let mut i: usize = 0;
    while i < n
        invariant
            i <= n,
            n == s@.len(),
            r@ == s@.subrange(0, i as int),
        decreases n - i,
    {
        r.push(s.get_char(i));
        i = i + 1;
        assert(r@ =~= s@.subrange(0, i as int));
    }
    assert(r@ =~= s@);
    r
}

/// Relies on `String`'s `FromIterator<char>`: collecting characters yields
/// the string holding exactly those characters in order.
#[verifier::external_body]
pub(crate) fn chars_to_string(v: &Vec<char>) -> (r: String)
    ensures
        r@ == v@,
{
    v.iter().collect()
}

/// Build a `String` from the characters of `[start, end)` in `v`.
pub fn string_from_range(v: &Vec<char>, start: usize, end: usize) -> (r: String)
    requires
        start <= end <= v@.len(),
    ensures
        r@ == v@.subrange(start as int, end as int),
{
    let piece = copy_range(v, start, end);
    chars_to_string(&piece)
}

} // verus!

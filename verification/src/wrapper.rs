//! Separating call-style wrapper text (`np.array(...)`, `vec![...]`) from
//! the bracketed payload it wraps.
//!
//! The payload is the innermost-starting bracket group reached by repeatedly
//! stepping from a bracket pair into a single nested pair that spans the
//! pair's whole trimmed content.  Text before the payload becomes the
//! format's `prefix`, text after it the `suffix`; no library names are
//! hard-coded.

use vstd::prelude::*;
use crate::brackets::find_matching_close;
use crate::brackets::find_open;
use crate::brackets::find_open_in;
use crate::brackets::is_open;
use crate::brackets::is_open_char;
use crate::brackets::match_of;
use crate::brackets::lemma_match_of_bounds;
use crate::chars::trim_bounds;
use crate::chars::trim_in;
use crate::format::TextFormat;

verus! {

/// Step from the bracket pair `(o, c)` into a single nested pair spanning
/// its whole trimmed content, repeatedly; the result is the half-open range
/// of the final pair, brackets included.
pub open spec fn descend_wrapper(s: Seq<char>, o: int, c: int) -> (int, int)
    decreases c - o,
        when 0 <= o < c < s.len()
        via descend_wrapper_decreases
{
    let ab = trim_bounds(s, o + 1, c);
    if ab.0 < ab.1 && is_open_char(s[ab.0]) && match_of(s, ab.0) == ab.1 - 1 {
        descend_wrapper(s, ab.0, ab.1 - 1)
    } else {
        (o, c + 1)
    }
}

#[via_fn]
proof fn descend_wrapper_decreases(s: Seq<char>, o: int, c: int) {
    crate::chars::lemma_trim_bounds(s, o + 1, c);
    let ab = trim_bounds(s, o + 1, c);
    if ab.0 < ab.1 && is_open_char(s[ab.0]) && match_of(s, ab.0) == ab.1 - 1 {
        lemma_match_of_bounds(s, ab.0);
    }
}

/// Where the payload of a trimmed input lies: the whole string when there
/// is no bracket group (or more than one top-level group), otherwise the
/// range selected by [`descend_wrapper`] from the first top-level pair.
pub open spec fn payload_bounds(s: Seq<char>) -> (int, int) {
    let n = s.len() as int;
    let o = find_open_in(s, 0, n);
    if o == n {
        (0, n)
    } else {
        let c = match_of(s, o);
        if c == -1 || find_open_in(s, c + 1, n) < n {
            (0, n)
        } else {
            descend_wrapper(s, o, c)
        }
    }
}

/// Whether a trimmed input holds more than one top-level bracket group.
pub open spec fn multiple_top_groups(s: Seq<char>) -> bool {
    let n = s.len() as int;
    let o = find_open_in(s, 0, n);
    o < n && match_of(s, o) != -1 && find_open_in(s, match_of(s, o) + 1, n) < n
}

/// The payload range lies inside the pair it descended from.
pub proof fn lemma_descend_wrapper_bounds(s: Seq<char>, o: int, c: int)
    requires
        0 <= o < c < s.len(),
    ensures
        o <= descend_wrapper(s, o, c).0 < descend_wrapper(s, o, c).1 <= c + 1,
    decreases c - o,
{
    crate::chars::lemma_trim_bounds(s, o + 1, c);
    let ab = trim_bounds(s, o + 1, c);
    if ab.0 < ab.1 && is_open_char(s[ab.0]) && match_of(s, ab.0) == ab.1 - 1 {
        lemma_match_of_bounds(s, ab.0);
        lemma_descend_wrapper_bounds(s, ab.0, ab.1 - 1);
    }
}

impl TextFormat {
    /// Locate the payload of a trimmed input: the half-open character range
    /// of the bracket group that carries the numbers (brackets included),
    /// or the whole string when no single group wraps them.
    ///
    /// Text before the range is the wrapper prefix, text after it the
    /// wrapper suffix.
    pub fn strip_wrappers(chars: &Vec<char>) -> (r: (usize, usize))
        ensures
            (r.0 as int, r.1 as int) == payload_bounds(chars@),
            r.0 <= r.1 <= chars@.len(),
    {
        let ghost s = chars@;
        let n = chars.len();
        let o = find_open(chars, 0, n);
        if o == n {
            return (0, n);
        }
        let c = match find_matching_close(chars, o) {
            None => {
                return (0, n);
            },
            Some(c) => c,
        };
        let after = find_open(chars, c + 1, n);
        if after < n {
            return (0, n);
        }
        let mut po = o;
        let mut pc = c;
        proof {
            lemma_descend_wrapper_bounds(s, o as int, c as int);
        }
        proof {
            assert(payload_bounds(s) == descend_wrapper(s, o as int, c as int));
        }
        loop
            invariant
                0 <= po < pc < s.len(),
                chars@ == s,
                n == s.len(),
                payload_bounds(s) == descend_wrapper(s, po as int, pc as int),
            decreases pc - po,
        {
            let ab = trim_in(chars, po + 1, pc);
            if ab.0 < ab.1 && is_open(chars[ab.0]) {
                match find_matching_close(chars, ab.0) {
                    Some(j) => {
                        if j == ab.1 - 1 {
                            po = ab.0;
                            pc = ab.1 - 1;
                        } else {
                            return (po, pc + 1);
                        }
                    },
                    None => {
                        return (po, pc + 1);
                    },
                }
            } else {
                return (po, pc + 1);
            }
        }
    }

    /// Check whether the trimmed input holds more than one top-level
    /// bracket group, as in `"[1, 2, 3] [4, 5, 6]"`.
    pub fn has_multiple_top_groups(chars: &Vec<char>) -> (r: bool)
        ensures
            r == multiple_top_groups(chars@),
    {
        let n = chars.len();
        let o = find_open(chars, 0, n);
        if o == n {
            return false;
        }
        match find_matching_close(chars, o) {
            None => false,
            Some(c) => find_open(chars, c + 1, n) < n,
        }
    }

    /// Detect the bracket pair enclosing the payload range `[start, end)`.
    ///
    /// When the range is one matched bracket pair, returns its characters
    /// and the trimmed interior range; otherwise no brackets and the range
    /// unchanged.
    pub fn detect_brackets(chars: &Vec<char>, start: usize, end: usize) -> (r: (
        Option<(char, char)>,
        usize,
        usize,
    ))
        requires
            start <= end <= chars@.len(),
        ensures
            ({
                let s = chars@;
                let a = start as int;
                let b = end as int;
                if b - a >= 2 && is_open_char(s[a]) && match_of(s, a) == b - 1 {
                    r.0 == Some((s[a], s[b - 1])) && (r.1 as int, r.2 as int) == trim_bounds(
                        s,
                        a + 1,
                        b - 1,
                    )
                } else {
                    r.0 is None && r.1 == start && r.2 == end
                }
            }),
            start <= r.1 <= r.2 <= end,
    {
        if end - start >= 2 && is_open(chars[start]) {
            match find_matching_close(chars, start) {
                Some(j) => {
                    if j == end - 1 {
                        let inner = trim_in(chars, start + 1, end - 1);
                        return (Some((chars[start], chars[end - 1])), inner.0, inner.1);
                    }
                },
                None => {
                },
            }
        }
        (None, start, end)
    }
}

} // verus!

//! The matrix parser: row layout detection, nested-row splitting, and the
//! full text-to-rows pipeline.
//!
//! Four row layouts are recognized, in order: nested bracket rows
//! (`[[1, 2], [3, 4]]`), semicolon rows (`[1 2; 3 4]`), newline rows, and a
//! flat row-major fallback that [`parse_matrix`] reshapes against the
//! requested dimensions.

use vstd::prelude::*;
use vstd::string::*;
use crate::brackets::ScanResult;
use crate::brackets::closer_for;
use crate::brackets::is_bracket_char;
use crate::brackets::is_open;
use crate::brackets::is_open_char;
use crate::brackets::spec_validate;
use crate::chars::contains_char;
use crate::chars::contains_pair;
use crate::chars::copy_range;
use crate::chars::find_char;
use crate::chars::has_pair;
use crate::chars::lemma_find_char_in;
use crate::chars::spec_trim;
use crate::chars::str_to_chars;
use crate::chars::string_from_range;
use crate::chars::trim_bounds;
use crate::chars::trim_in;
use crate::errors::ParseError;
use crate::format::SpecFormat;
use crate::format::TextFormat;
use crate::vector::delim_display;
use crate::vector::first_bad_from;
use crate::vector::piece_raw;
use crate::vector::piece_token;
use crate::vector::pieces_of;
use crate::vector::split_rng;
use crate::wrapper::payload_bounds;

verus! {

/// The positions of a sequence of row ranges, as mathematical integers.
pub open spec fn rows_view(v: Seq<(usize, usize)>) -> Seq<(int, int)> {
    v.map_values(|p: (usize, usize)| (p.0 as int, p.1 as int))
}

/// One row range trimmed.
pub open spec fn trim_pair(s: Seq<char>, p: (int, int)) -> (int, int) {
    trim_bounds(s, p.0, p.1)
}

/// Whether a range is non-empty.
pub open spec fn is_nonblank(p: (int, int)) -> bool {
    p.0 < p.1
}

/// How one layout of matrix text carves the payload into rows.
#[derive(Clone, Copy, Debug, PartialEq, Eq, Structural)]
pub enum RowLayout {
    /// Each row sits in its own bracket pair: `[1, 2], [3, 4]`.
    Nested,
    /// Rows separated by semicolons: `1 2; 3 4`.
    Semicolon,
    /// Rows on separate lines.
    Lines,
    /// No structural cue: one flat row-major number list.
    Flat,
}

/// What a left-to-right scan for top-level `open`...`close` row groups
/// yields: the row interiors and the first gap between rows, or the first
/// offending bracket.
pub enum RowScan {
    Rows { rows: Seq<(int, int)>, gap: Option<(int, int)> },
    Stray { pos: int, ch: char },
    Unclosed { pos: int },
    Extra { pos: int },
}

/// The row scan from position `i`: `depth` open row brackets, `cstart` the
/// interior start of the current top-level group, `rows` the interiors
/// found, `lce` the end of the last close (`-1` if none), `gap` the first
/// captured between-rows text range.
pub open spec fn scan_rows(
    s: Seq<char>,
    i: int,
    b: int,
    open: char,
    close: char,
    depth: int,
    cstart: int,
    rows: Seq<(int, int)>,
    lce: int,
    gap: Option<(int, int)>,
) -> RowScan
    decreases b - i,
{
    if i < 0 || i >= b || b > s.len() {
        if depth == 0 {
            RowScan::Rows { rows, gap }
        } else {
            RowScan::Unclosed { pos: cstart - 1 }
        }
    } else {
        let c = s[i];
        if c == open {
            if depth == 0 {
                let g2 = if gap is None && lce >= 0 {
                    Some((lce, i))
                } else {
                    gap
                };
                scan_rows(s, i + 1, b, open, close, 1, i + 1, rows, lce, g2)
            } else {
                scan_rows(s, i + 1, b, open, close, depth + 1, cstart, rows, lce, gap)
            }
        } else if c == close {
            if depth == 0 {
                RowScan::Extra { pos: i }
            } else if depth == 1 {
                scan_rows(s, i + 1, b, open, close, 0, cstart, rows.push((cstart, i)), i + 1, gap)
            } else {
                scan_rows(s, i + 1, b, open, close, depth - 1, cstart, rows, lce, gap)
            }
        } else if depth == 0 && is_bracket_char(c) {
            RowScan::Stray { pos: i, ch: c }
        } else {
            scan_rows(s, i + 1, b, open, close, depth, cstart, rows, lce, gap)
        }
    }
}

/// The scan of `[a, b)` for rows bracketed by `open`/`close`.
pub open spec fn spec_split_nested(s: Seq<char>, a: int, b: int, open: char) -> RowScan {
    scan_rows(s, a, b, open, closer_for(open), 0, 0, Seq::empty(), -1, None)
}

/// The integer value of an optional range of positions.
pub open spec fn gap_view(g: Option<(usize, usize)>) -> Option<(int, int)> {
    match g {
        Some(p) => Some((p.0 as int, p.1 as int)),
        None => None,
    }
}

impl TextFormat {
    /// Split `[a, b)` into the interiors of its top-level `open`-bracketed
    /// groups, and capture the text between the first two groups as the
    /// row delimiter.
    ///
    /// A bracket of any other kind at top level makes the row brackets
    /// inconsistent; an unmatched row bracket is reported as unclosed or
    /// unexpected.
    pub fn split_nested_rows(chars: &Vec<char>, a: usize, b: usize, open: char) -> (r: Result<
        (Vec<(usize, usize)>, String),
        ParseError,
    >)
        requires
            a <= b <= chars@.len(),
            is_open_char(open),
        ensures
            ({
                let s = chars@;
                match spec_split_nested(s, a as int, b as int, open) {
                    RowScan::Rows { rows, gap } => r matches Ok(res) && rows_view(res.0@) == rows
                        && res.1@ == (match gap {
                        Some(g) => s.subrange(g.0, g.1),
                        None => seq![',', ' '],
                    }) && (forall|k: int|
                        0 <= k < res.0@.len() ==> (#[trigger] res.0@[k]).0 <= res.0@[k].1 <= b),
                    RowScan::Stray { pos, ch } => r matches Err(e) && e
                        is InconsistentRowBrackets,
                    RowScan::Unclosed { pos } => r matches Err(e) && e
                        == (ParseError::UnclosedBracket { open, pos: pos as usize }),
                    RowScan::Extra { pos } => r matches Err(e) && e == (ParseError::UnexpectedClose {
                        close: closer_for(open),
                        pos: pos as usize,
                    }),
                }
            }),
    {
        let ghost s = chars@;
        let close = if open == '(' {
            ')'
        } else if open == '[' {
            ']'
        } else {
            '}'
        };
        assert(close == closer_for(open));
        let mut rows: Vec<(usize, usize)> = Vec::new();
        let mut gap: Option<(usize, usize)> = None;
        let mut depth: usize = 0;
        let mut cstart: usize = 0;
        let mut lce: usize = 0;
        let mut lce_set: bool = false;
        let mut i = a;
        proof {
            assert(rows_view(rows@) =~= Seq::<(int, int)>::empty());
        }
        while i < b
            invariant
                a <= i <= b <= chars@.len(),
                chars@ == s,
                close == closer_for(open),
                is_open_char(open),
                depth as int <= i as int - a as int,
                depth >= 1 ==> 1 <= cstart <= i,
                lce_set ==> lce <= i,
                forall|k: int|
                    0 <= k < rows@.len() ==> (#[trigger] rows@[k]).0 <= rows@[k].1 <= i,
                (match gap {
                    Some(g) => g.0 <= g.1 <= b,
                    None => true,
                }),
                spec_split_nested(s, a as int, b as int, open) == scan_rows(
                    s,
                    i as int,
                    b as int,
                    open,
                    closer_for(open),
                    depth as int,
                    cstart as int,
                    rows_view(rows@),
                    if lce_set {
                        lce as int
                    } else {
                        -1
                    },
                    gap_view(gap),
                ),
            decreases b - i,
        {
            let c = chars[i];
            if c == open {
                if depth == 0 {
                    if gap.is_none() && lce_set {
                        gap = Some((lce, i));
                    }
                    cstart = i + 1;
                    depth = 1;
                } else {
                    depth = depth + 1;
                }
            } else if c == close {
                if depth == 0 {
                    return Err(ParseError::UnexpectedClose { close, pos: i });
                } else if depth == 1 {
                    let ghost old_rows = rows_view(rows@);
                    rows.push((cstart, i));
                    proof {
                        assert(rows_view(rows@) =~= old_rows.push((cstart as int, i as int)));
                    }
                    lce = i + 1;
                    lce_set = true;
                    depth = 0;
                } else {
                    depth = depth - 1;
                }
            } else if depth == 0 && (c == '(' || c == ')' || c == '[' || c == ']' || c == '{' || c
                == '}') {
                return Err(ParseError::InconsistentRowBrackets);
            }
            i = i + 1;
        }
        if depth != 0 {
            return Err(ParseError::UnclosedBracket { open, pos: cstart - 1 });
        }
        let delim = match gap {
            Some(g) => string_from_range(chars, g.0, g.1),
            None => String::from_str(", "),
        };
        proof {
            reveal_strlit(", ");
            assert(", "@ =~= seq![',', ' ']);
        }
        Ok((rows, delim))
    }
}

/// The trimmed, non-blank pieces of `[a, b)` split on `d` — the rows of a
/// semicolon or newline layout.
pub open spec fn nonblank_rows(s: Seq<char>, a: int, b: int, d: char) -> Seq<(int, int)> {
    split_rng(s, a, b, d).map_values(|p: (int, int)| trim_pair(s, p)).filter(
        |p: (int, int)| is_nonblank(p),
    )
}

/// Split `[a, b)` on `d`, trim each piece, and keep the non-empty ones.
fn split_nonblank(chars: &Vec<char>, a: usize, b: usize, d: char) -> (r: Vec<(usize, usize)>)
    requires
        a <= b <= chars@.len(),
    ensures
        rows_view(r@) == nonblank_rows(chars@, a as int, b as int, d),
        forall|k: int| 0 <= k < r@.len() ==> (#[trigger] r@[k]).0 <= r@[k].1 <= b,
{
    let ghost s = chars@;
    let ghost ps = split_rng(s, a as int, b as int, d);
    let ghost trimf = |p: (int, int)| trim_pair(s, p);
    let ghost nbf = |p: (int, int)| is_nonblank(p);
    let mut out: Vec<(usize, usize)> = Vec::new();
    let mut start = a;
    let ghost mut k: int = 0;
    proof {
        reveal(Seq::filter);
        assert(ps.take(0).map_values(trimf).filter(nbf) =~= rows_view(out@));
    }
    loop
        invariant
            a <= start <= b <= chars@.len(),
            chars@ == s,
            ps == split_rng(s, a as int, b as int, d),
            trimf == (|p: (int, int)| trim_pair(s, p)),
            nbf == (|p: (int, int)| is_nonblank(p)),
            0 <= k <= ps.len(),
            split_rng(s, start as int, b as int, d) == ps.skip(k),
            rows_view(out@) == ps.take(k).map_values(trimf).filter(nbf),
            forall|k2: int| 0 <= k2 < out@.len() ==> (#[trigger] out@[k2]).0 <= out@[k2].1 <= b,
        decreases b - start,
    {
        proof {
            lemma_find_char_in(s, start as int, b as int, d);
        }
        let i = find_char(chars, start, b, d);
        proof {
            assert(split_rng(s, start as int, b as int, d)[0] == (start as int, i as int));
            assert(ps.skip(k).len() >= 1);
            assert(k < ps.len());
            assert(ps[k] == (start as int, i as int));
        }
        let tb = trim_in(chars, start, i);
        let ghost old_view = rows_view(out@);
        if tb.0 < tb.1 {
            out.push((tb.0, tb.1));
            proof {
                assert(rows_view(out@) =~= old_view.push((tb.0 as int, tb.1 as int)));
            }
        }
        proof {
            reveal(Seq::filter);
            let taken = ps.take(k + 1).map_values(trimf);
            assert(ps.take(k + 1).drop_last() =~= ps.take(k));
            assert(taken.drop_last() =~= ps.take(k).map_values(trimf));
            assert(taken.last() == trimf(ps[k]));
            assert(trimf(ps[k]) == (trim_bounds(s, start as int, i as int).0, trim_bounds(
                s,
                start as int,
                i as int,
            ).1));
            assert(rows_view(out@) =~= ps.take(k + 1).map_values(trimf).filter(nbf));
            k = k + 1;
        }
        if i == b {
            proof {
                assert(ps.skip(k - 1).len() == 1);
                assert(k == ps.len());
                assert(ps.take(k) =~= ps);
            }
            return out;
        }
        proof {
            assert(split_rng(s, start as int, b as int, d) == seq![(start as int, i as int)]
                + split_rng(s, i + 1, b as int, d));
            assert((seq![(start as int, i as int)] + split_rng(s, i + 1, b as int, d)).skip(1)
                =~= split_rng(s, i + 1, b as int, d));
            assert(ps.skip(k - 1).skip(1) =~= ps.skip(k));
        }
        start = i + 1;
    }
}

/// The row interiors of a successful nested scan of `[a, b)`.
pub open spec fn nested_rows_of(s: Seq<char>, a: int, b: int) -> Seq<(int, int)> {
    match spec_split_nested(s, a, b, s[a]) {
        RowScan::Rows { rows, .. } => rows,
        _ => Seq::empty(),
    }
}

/// The first between-rows gap the nested scan captured.
pub open spec fn nested_gap_of(s: Seq<char>, a: int, b: int) -> Option<(int, int)> {
    match spec_split_nested(s, a, b, s[a]) {
        RowScan::Rows { gap, .. } => gap,
        _ => None,
    }
}

/// How the payload interior `[a, b)` is carved into rows: which layout,
/// and which row ranges result.
pub open spec fn row_split_of(s: Seq<char>, a: int, b: int) -> (RowLayout, Seq<(int, int)>) {
    if a < b && is_open_char(s[a]) && spec_split_nested(s, a, b, s[a]) is Rows && nested_rows_of(
        s,
        a,
        b,
    ).len() > 0 {
        (RowLayout::Nested, nested_rows_of(s, a, b))
    } else if contains_char(s, a, b, ';') && nonblank_rows(s, a, b, ';').len() > 0 {
        (RowLayout::Semicolon, nonblank_rows(s, a, b, ';'))
    } else if contains_char(s, a, b, '\n') && nonblank_rows(s, a, b, '\n').len() >= 2 {
        (RowLayout::Lines, nonblank_rows(s, a, b, '\n'))
    } else {
        (RowLayout::Flat, seq![(a, b)])
    }
}

/// Whether the nested scan of `[a, b)` fails (only possible when the
/// interior starts with an opening bracket).
pub open spec fn row_split_fails(s: Seq<char>, a: int, b: int) -> bool {
    a < b && is_open_char(s[a]) && !(spec_split_nested(s, a, b, s[a]) is Rows)
}

impl TextFormat {
    /// Detect how rows are separated in the payload interior `[a, b)` and
    /// split it into row ranges.
    ///
    /// Returns the layout, the row bracket pair (for the nested layout),
    /// the row delimiter text, and the row ranges.
    pub fn detect_and_split_rows(chars: &Vec<char>, a: usize, b: usize) -> (r: Result<
        (RowLayout, Option<(char, char)>, String, Vec<(usize, usize)>),
        ParseError,
    >)
        requires
            a <= b <= chars@.len(),
        ensures
            ({
                let s = chars@;
                match r {
                    Ok(res) => !row_split_fails(s, a as int, b as int) && {
                        let (layout, rows) = row_split_of(s, a as int, b as int);
                        &&& res.0 == layout
                        &&& rows_view(res.3@) == rows
                        &&& forall|k: int|
                            0 <= k < res.3@.len() ==> (#[trigger] res.3@[k]).0 <= res.3@[k].1
                                <= chars@.len()
                        &&& (match layout {
                            RowLayout::Nested => res.1 == Some(
                                (s[a as int], closer_for(s[a as int])),
                            ) && res.2@ == (match nested_gap_of(s, a as int, b as int) {
                                Some(g) => s.subrange(g.0, g.1),
                                None => seq![',', ' '],
                            }),
                            RowLayout::Semicolon => res.1 is None && res.2@ == (
                            if contains_pair(s, a as int, b as int, ';', ' ') {
                                seq![';', ' ']
                            } else {
                                seq![';']
                            }),
                            RowLayout::Lines => res.1 is None && res.2@ == seq!['\n'],
                            RowLayout::Flat => res.1 is None && res.2@ == seq![',', ' '],
                        })
                    },
                    Err(e) => row_split_fails(s, a as int, b as int) && (match spec_split_nested(
                        s,
                        a as int,
                        b as int,
                        s[a as int],
                    ) {
                        RowScan::Rows { .. } => false,
                        RowScan::Stray { .. } => e is InconsistentRowBrackets,
                        RowScan::Unclosed { pos } => e == (ParseError::UnclosedBracket {
                            open: s[a as int],
                            pos: pos as usize,
                        }),
                        RowScan::Extra { pos } => e == (ParseError::UnexpectedClose {
                            close: closer_for(s[a as int]),
                            pos: pos as usize,
                        }),
                    }),
                }
            }),
    {
        let ghost s = chars@;
        if a < b && is_open(chars[a]) {
            let open = chars[a];
            let (rows, delim) = match TextFormat::split_nested_rows(chars, a, b, open) {
                Err(e) => {
                    return Err(e);
                },
                Ok(x) => x,
            };
            if rows.len() > 0 {
                proof {
                    assert(rows_view(rows@).len() == rows@.len());
                }
                let close = if open == '(' {
                    ')'
                } else if open == '[' {
                    ']'
                } else {
                    '}'
                };
                assert(close == closer_for(open));
                return Ok((RowLayout::Nested, Some((open, close)), delim, rows));
            }
            proof {
                assert(rows_view(rows@).len() == rows@.len());
            }
        }
        let has_semi = find_char(chars, a, b, ';') < b;
        if has_semi {
            let rows = split_nonblank(chars, a, b, ';');
            if rows.len() > 0 {
                proof {
                    assert(rows_view(rows@).len() == rows@.len());
                }
                let delim = if has_pair(chars, a, b, ';', ' ') {
                    let d = String::from_str("; ");
                    proof {
                        reveal_strlit("; ");
                        assert("; "@ =~= seq![';', ' ']);
                    }
                    d
                } else {
                    let d = String::from_str(";");
                    proof {
                        reveal_strlit(";");
                        assert(";"@ =~= seq![';']);
                    }
                    d
                };
                return Ok((RowLayout::Semicolon, None, delim, rows));
            }
            proof {
                assert(rows_view(rows@).len() == rows@.len());
            }
        }
        let has_nl = find_char(chars, a, b, '\n') < b;
        if has_nl {
            let rows = split_nonblank(chars, a, b, '\n');
            if rows.len() >= 2 {
                proof {
                    assert(rows_view(rows@).len() == rows@.len());
                }
                let d = String::from_str("\n");
                proof {
                    reveal_strlit("\n");
                    assert("\n"@ =~= seq!['\n']);
                }
                return Ok((RowLayout::Lines, None, d, rows));
            }
            proof {
                assert(rows_view(rows@).len() == rows@.len());
            }
        }
        let mut flat: Vec<(usize, usize)> = Vec::new();
        flat.push((a, b));
        let d = String::from_str(", ");
        proof {
            reveal_strlit(", ");
            assert(", "@ =~= seq![',', ' ']);
            assert(rows_view(flat@) =~= seq![(a as int, b as int)]);
        }
        Ok((RowLayout::Flat, None, d, flat))
    }
}

/// Row ranges trimmed, blank rows dropped.
pub open spec fn processed_rows(s: Seq<char>, rows: Seq<(int, int)>) -> Seq<(int, int)> {
    rows.map_values(|p: (int, int)| trim_pair(s, p)).filter(|p: (int, int)| is_nonblank(p))
}

/// Whether tokenizing a row fails: no pieces, or a piece that is not a
/// number.
pub open spec fn row_error(s: Seq<char>, p: (int, int)) -> bool {
    let ps = pieces_of(s, p.0, p.1);
    ps.len() == 0 || first_bad_from(s, ps, 0) < ps.len()
}

/// Index of the first row that fails to tokenize, from `k` on; the row
/// count when all remaining rows tokenize.
pub open spec fn first_bad_row_from(s: Seq<char>, rows: Seq<(int, int)>, k: int) -> int
    decreases rows.len() - k,
{
    if k < 0 || k >= rows.len() {
        rows.len() as int
    } else if row_error(s, rows[k]) {
        k
    } else {
        first_bad_row_from(s, rows, k + 1)
    }
}

/// The normalized tokens of one clean row.
pub open spec fn row_tokens(s: Seq<char>, p: (int, int)) -> Seq<Seq<char>> {
    pieces_of(s, p.0, p.1).map_values(|q: (int, int)| piece_token(s, q))
}

/// The error reported for the first row that fails to tokenize.
pub open spec fn row_token_error_matches(e: ParseError, s: Seq<char>, p: (int, int)) -> bool {
    let ps = pieces_of(s, p.0, p.1);
    if ps.len() == 0 {
        e is NoNumbersFound
    } else {
        let bad = first_bad_from(s, ps, 0);
        bad < ps.len() && (e matches ParseError::NumberParseFailure { token } && token@
            == piece_raw(s, ps[bad]))
    }
}

/// Trim the given row ranges and drop the blank ones.
fn process_rows(chars: &Vec<char>, rows: &Vec<(usize, usize)>) -> (r: Vec<(usize, usize)>)
    requires
        forall|k: int|
            0 <= k < rows@.len() ==> (#[trigger] rows@[k]).0 <= rows@[k].1 <= chars@.len(),
    ensures
        rows_view(r@) == processed_rows(chars@, rows_view(rows@)),
        forall|k: int| 0 <= k < r@.len() ==> (#[trigger] r@[k]).0 <= r@[k].1 <= chars@.len(),
{
    let ghost s = chars@;
    let ghost rv = rows_view(rows@);
    let ghost trimf = |p: (int, int)| trim_pair(s, p);
    let ghost nbf = |p: (int, int)| is_nonblank(p);
    let mut out: Vec<(usize, usize)> = Vec::new();
    let mut j: usize = 0;
    proof {
        reveal(Seq::filter);
        assert(rv.take(0).map_values(trimf).filter(nbf) =~= rows_view(out@));
    }
    while j < rows.len()
        invariant
            j <= rows@.len(),
            chars@ == s,
            rv == rows_view(rows@),
            rv.len() == rows@.len(),
            trimf == (|p: (int, int)| trim_pair(s, p)),
            nbf == (|p: (int, int)| is_nonblank(p)),
            forall|k: int|
                0 <= k < rows@.len() ==> (#[trigger] rows@[k]).0 <= rows@[k].1 <= chars@.len(),
            rows_view(out@) == rv.take(j as int).map_values(trimf).filter(nbf),
            forall|k: int| 0 <= k < out@.len() ==> (#[trigger] out@[k]).0 <= out@[k].1 <= chars@.len(),
        decreases rows@.len() - j,
    {
        let row = rows[j];
        let tb = trim_in(chars, row.0, row.1);
        let ghost old_view = rows_view(out@);
        if tb.0 < tb.1 {
            out.push((tb.0, tb.1));
            proof {
                assert(rows_view(out@) =~= old_view.push((tb.0 as int, tb.1 as int)));
            }
        }
        proof {
            reveal(Seq::filter);
            assert(rv[j as int] == (row.0 as int, row.1 as int));
            let taken = rv.take(j as int + 1).map_values(trimf);
            assert(rv.take(j as int + 1).drop_last() =~= rv.take(j as int));
            assert(taken.drop_last() =~= rv.take(j as int).map_values(trimf));
            assert(taken.last() == trimf(rv[j as int]));
            assert(rows_view(out@) =~= rv.take(j as int + 1).map_values(trimf).filter(nbf));
        }
        j = j + 1;
    }
    proof {
        assert(rv.take(rv.len() as int) =~= rv);
    }
    out
}

/// Tokenize every processed row, recording the first row's delimiter text.
fn parse_rows(chars: &Vec<char>, proc_rows: &Vec<(usize, usize)>) -> (r: Result<
    (String, Vec<Vec<String>>),
    ParseError,
>)
    requires
        forall|k: int|
            0 <= k < proc_rows@.len() ==> (#[trigger] proc_rows@[k]).0 <= proc_rows@[k].1 <= chars@.len(),
    ensures
        ({
            let s = chars@;
            let prs = rows_view(proc_rows@);
            let bk = first_bad_row_from(s, prs, 0);
            match r {
                Ok(res) => prs.len() > 0 && bk == prs.len() && res.0@ == delim_display(
                    s,
                    prs[0].0,
                    prs[0].1,
                ) && res.1.deep_view() == prs.map_values(|p: (int, int)| row_tokens(s, p)),
                Err(e) => (prs.len() == 0 && e is NoNumbersFound) || (bk < prs.len()
                    && row_token_error_matches(e, s, prs[bk])),
            }
        }),
{
    let ghost s = chars@;
    let ghost prs = rows_view(proc_rows@);
    let ghost rowfn = |p: (int, int)| row_tokens(s, p);
    let mut out: Vec<Vec<String>> = Vec::new();
    let mut delim: Option<String> = None;
    let mut m: usize = 0;
    proof {
        assert(prs.take(0).map_values(rowfn) =~= out.deep_view());
    }
    while m < proc_rows.len()
        invariant
            m <= proc_rows@.len(),
            chars@ == s,
            prs == rows_view(proc_rows@),
            prs.len() == proc_rows@.len(),
            rowfn == (|p: (int, int)| row_tokens(s, p)),
            forall|k: int|
                0 <= k < proc_rows@.len() ==> (#[trigger] proc_rows@[k]).0 <= proc_rows@[k].1 <= chars@.len(),
            out.deep_view() == prs.take(m as int).map_values(rowfn),
            first_bad_row_from(s, prs, 0) == first_bad_row_from(s, prs, m as int),
            m == 0 ==> delim is None,
            m > 0 ==> (delim matches Some(d) && d@ == delim_display(s, prs[0].0, prs[0].1)),
        decreases proc_rows@.len() - m,
    {
        let row = proc_rows[m];
        proof {
            assert(prs[m as int] == (row.0 as int, row.1 as int));
        }
        match TextFormat::detect_delimiter_and_parse(chars, row.0, row.1) {
            Err(e) => {
                proof {
                    assert(row_error(s, prs[m as int]));
                    assert(first_bad_row_from(s, prs, m as int) == m as int);
                }
                return Err(e);
            },
            Ok((d, toks)) => {
                proof {
                    assert(!row_error(s, prs[m as int]));
                    assert(first_bad_row_from(s, prs, m as int) == first_bad_row_from(
                        s,
                        prs,
                        m as int + 1,
                    ));
                }
                if m == 0 {
                    delim = Some(d);
                }
                let ghost old_deep = out.deep_view();
                out.push(toks);
                proof {
                    assert(out.deep_view() =~= old_deep.push(toks.deep_view()));
                    assert(prs.take(m as int + 1).map_values(rowfn) =~= prs.take(
                        m as int,
                    ).map_values(rowfn).push(rowfn(prs[m as int])));
                }
            },
        }
        m = m + 1;
    }
    proof {
        assert(prs.take(prs.len() as int) =~= prs);
    }
    match delim {
        Some(d) => Ok((d, out)),
        None => Err(ParseError::NoNumbersFound),
    }
}

/// The matrix payload interior of the trimmed input `t`.
pub open spec fn matrix_inner(t: Seq<char>) -> (int, int) {
    crate::vector::vector_inner(t)
}

/// The row layout detected in the trimmed input `t`.
pub open spec fn matrix_layout(t: Seq<char>) -> RowLayout {
    row_split_of(t, matrix_inner(t).0, matrix_inner(t).1).0
}

/// The raw row ranges of the trimmed input `t`.
pub open spec fn matrix_raw_rows(t: Seq<char>) -> Seq<(int, int)> {
    row_split_of(t, matrix_inner(t).0, matrix_inner(t).1).1
}

/// The trimmed, non-blank row ranges of the trimmed input `t`.
pub open spec fn matrix_rows(t: Seq<char>) -> Seq<(int, int)> {
    processed_rows(t, matrix_raw_rows(t))
}

/// The token rows of the trimmed input `t`.
pub open spec fn matrix_token_rows(t: Seq<char>) -> Seq<Seq<Seq<char>>> {
    matrix_rows(t).map_values(|p: (int, int)| row_tokens(t, p))
}

/// Whether the trimmed input `t` parses as a matrix: non-empty, brackets
/// balanced, a non-empty payload, consistent row brackets, at least one
/// row, and every token a number.
pub open spec fn matrix_accepts(t: Seq<char>) -> bool {
    &&& t.len() > 0
    &&& spec_validate(t) is Balanced
    &&& matrix_inner(t).0 < matrix_inner(t).1
    &&& !row_split_fails(t, matrix_inner(t).0, matrix_inner(t).1)
    &&& matrix_rows(t).len() > 0
    &&& first_bad_row_from(t, matrix_rows(t), 0) == matrix_rows(t).len()
}

/// The error a rejected trimmed input `t` is reported with.
pub open spec fn matrix_error_matches(e: ParseError, t: Seq<char>) -> bool {
    if t.len() == 0 {
        e is EmptyInput
    } else {
        match spec_validate(t) {
            ScanResult::UnexpectedClose { close, pos } => e == (ParseError::UnexpectedClose {
                close,
                pos,
            }),
            ScanResult::MismatchedClose { opened, closed, pos } => e
                == (ParseError::MismatchedClose { opened, closed, pos }),
            ScanResult::Unclosed { open, pos } => e == (ParseError::UnclosedBracket {
                open,
                pos,
            }),
            ScanResult::Balanced { pairs } => {
                let ia = matrix_inner(t).0;
                let ib = matrix_inner(t).1;
                if ib <= ia {
                    e is NoNumbersFound
                } else if row_split_fails(t, ia, ib) {
                    match spec_split_nested(t, ia, ib, t[ia]) {
                        RowScan::Rows { .. } => false,
                        RowScan::Stray { .. } => e is InconsistentRowBrackets,
                        RowScan::Unclosed { pos } => e == (ParseError::UnclosedBracket {
                            open: t[ia],
                            pos: pos as usize,
                        }),
                        RowScan::Extra { pos } => e == (ParseError::UnexpectedClose {
                            close: closer_for(t[ia]),
                            pos: pos as usize,
                        }),
                    }
                } else if matrix_rows(t).len() == 0 {
                    e is NoNumbersFound
                } else {
                    let bk = first_bad_row_from(t, matrix_rows(t), 0);
                    bk < matrix_rows(t).len() && row_token_error_matches(e, t, matrix_rows(t)[bk])
                }
            },
        }
    }
}

/// The row delimiter text recorded for each layout.
pub open spec fn matrix_vector_delim(t: Seq<char>) -> Seq<char> {
    let ia = matrix_inner(t).0;
    let ib = matrix_inner(t).1;
    match matrix_layout(t) {
        RowLayout::Nested => match nested_gap_of(t, ia, ib) {
            Some(g) => t.subrange(g.0, g.1),
            None => seq![',', ' '],
        },
        RowLayout::Semicolon => if contains_pair(t, ia, ib, ';', ' ') {
            seq![';', ' ']
        } else {
            seq![';']
        },
        RowLayout::Lines => seq!['\n'],
        RowLayout::Flat => seq![',', ' '],
    }
}

/// The row bracket pair, present only for the nested layout.
pub open spec fn matrix_row_brackets(t: Seq<char>) -> Option<(char, char)> {
    if matrix_layout(t) is Nested {
        Some((t[matrix_inner(t).0], closer_for(t[matrix_inner(t).0])))
    } else {
        None
    }
}

/// Whether a parsed format records exactly the matrix notation of the
/// trimmed input `t`.
pub open spec fn matrix_format_matches(f: SpecFormat, t: Seq<char>) -> bool {
    &&& f.number_delimiter == delim_display(t, matrix_rows(t)[0].0, matrix_rows(t)[0].1)
    &&& f.open_vector == (match matrix_row_brackets(t) {
        Some(p) => seq![p.0],
        None => Seq::<char>::empty(),
    })
    &&& f.close_vector == (match matrix_row_brackets(t) {
        Some(p) => seq![p.1],
        None => Seq::<char>::empty(),
    })
    &&& f.vector_delimiter == matrix_vector_delim(t)
    &&& f.open_matrix == (match crate::vector::vector_brackets(t) {
        Some(p) => seq![p.0],
        None => Seq::<char>::empty(),
    })
    &&& f.close_matrix == (match crate::vector::vector_brackets(t) {
        Some(p) => seq![p.1],
        None => Seq::<char>::empty(),
    })
    &&& f.prefix == t.subrange(0, payload_bounds(t).0)
    &&& f.suffix == t.subrange(payload_bounds(t).1, t.len() as int)
}

impl TextFormat {
    /// Auto-detect the notation of `input` and parse it as a matrix.
    ///
    /// Recognizes nested bracket rows, Matlab-style semicolon rows,
    /// newline-separated rows, and a flat number list (one row), optionally
    /// wrapped in matrix brackets and call syntax.  Returns the detected
    /// format and the rows of normalized number tokens.
    pub fn detect_and_parse_matrix(input: &str) -> (r: Result<
        (TextFormat, Vec<Vec<String>>),
        ParseError,
    >)
        ensures
            ({
                let t = spec_trim(input@);
                match r {
                    Ok(res) => matrix_accepts(t) && matrix_format_matches(res.0@, t)
                        && res.1.deep_view() == matrix_token_rows(t),
                    Err(e) => !matrix_accepts(t) && matrix_error_matches(e, t),
                }
            }),
    {
        let cs = str_to_chars(input);
        let tb = trim_in(&cs, 0, cs.len());
        let t = copy_range(&cs, tb.0, tb.1);
        let ghost ts = spec_trim(input@);
        proof {
            assert(t@ == ts);
        }
        if t.len() == 0 {
            return Err(ParseError::EmptyInput);
        }
        if let Err(e) = TextFormat::validate_brackets(&t) {
            return Err(e);
        }
        let pb = TextFormat::strip_wrappers(&t);
        let db = TextFormat::detect_brackets(&t, pb.0, pb.1);
        if db.1 == db.2 {
            return Err(ParseError::NoNumbersFound);
        }
        let (layout, rb, vd, raw_rows) = match TextFormat::detect_and_split_rows(&t, db.1, db.2) {
            Err(e) => {
                return Err(e);
            },
            Ok(x) => x,
        };
        let proc = process_rows(&t, &raw_rows);
        let (nd, token_rows) = match parse_rows(&t, &proc) {
            Err(e) => {
                return Err(e);
            },
            Ok(x) => x,
        };
        let (ov, cv) = match rb {
            Some((o, c)) => (
                crate::vector::single_char_string(o),
                crate::vector::single_char_string(c),
            ),
            None => (String::new(), String::new()),
        };
        let (om, cm) = match db.0 {
            Some((o, c)) => (
                crate::vector::single_char_string(o),
                crate::vector::single_char_string(c),
            ),
            None => (String::new(), String::new()),
        };
        let fmt = TextFormat {
            number_delimiter: nd,
            open_vector: ov,
            close_vector: cv,
            vector_delimiter: vd,
            open_matrix: om,
            close_matrix: cm,
            prefix: string_from_range(&t, 0, pb.0),
            suffix: string_from_range(&t, pb.1, t.len()),
        };
        Ok((fmt, token_rows))
    }
}

/// Index of the first row whose length is not `c`, from `k` on; the row
/// count when every remaining row has length `c`.
pub open spec fn first_wrong_len(rs: Seq<Seq<Seq<char>>>, c: int, k: int) -> int
    decreases rs.len() - k,
{
    if k < 0 || k >= rs.len() {
        rs.len() as int
    } else if rs[k].len() != c {
        k
    } else {
        first_wrong_len(rs, c, k + 1)
    }
}

/// Processing a single row range trims it and keeps it only when
/// something is left.
proof fn lemma_processed_single(s: Seq<char>, a: int, b: int)
    ensures
        processed_rows(s, seq![(a, b)]) == (if is_nonblank(trim_pair(s, (a, b))) {
            seq![trim_pair(s, (a, b))]
        } else {
            Seq::<(int, int)>::empty()
        }),
{
    reveal(Seq::filter);
    let trimf = |p: (int, int)| trim_pair(s, p);
    let nbf = |p: (int, int)| is_nonblank(p);
    let single = seq![(a, b)];
    assert(single.map_values(trimf) =~= seq![trim_pair(s, (a, b))]);
    let mapped = seq![trim_pair(s, (a, b))];
    assert(mapped.drop_last() =~= Seq::<(int, int)>::empty());
    assert(Seq::<(int, int)>::empty().filter(nbf) =~= Seq::<(int, int)>::empty());
    if is_nonblank(trim_pair(s, (a, b))) {
        assert(mapped.filter(nbf) =~= seq![trim_pair(s, (a, b))]);
    } else {
        assert(mapped.filter(nbf) =~= Seq::<(int, int)>::empty());
    }
}

/// Split a flat token list into `rows` rows of `cols` tokens each.
fn reshape(toks: Vec<String>, rows: usize, cols: usize) -> (r: Vec<Vec<String>>)
    requires
        toks.deep_view().len() == rows as int * cols as int,
    ensures
        r.deep_view().len() == rows as int,
        forall|k: int|
            0 <= k < rows as int ==> (#[trigger] r.deep_view()[k]) == toks.deep_view().subrange(
                k * cols as int,
                (k + 1) * cols as int,
            ),
{
    let ghost flat = toks.deep_view();
    let mut rest = toks;
    let mut out: Vec<Vec<String>> = Vec::new();
    let mut i: usize = 0;
    proof {
        assert(flat.skip(0) =~= flat);
    }
    while i < rows
        invariant
            i <= rows,
            flat.len() == rows as int * cols as int,
            out.deep_view().len() == i as int,
            forall|k: int|
                0 <= k < i as int ==> (#[trigger] out.deep_view()[k]) == flat.subrange(
                    k * cols as int,
                    (k + 1) * cols as int,
                ),
            rest.deep_view() == flat.skip(i as int * cols as int),
        decreases rows - i,
    {
        let ghost base = i as int * cols as int;
        proof {
            assert((i as int + 1) * cols as int <= rows as int * cols as int) by (nonlinear_arith)
                requires
                    0 <= i as int + 1 <= rows as int,
                    0 <= cols as int,
            ;
            assert((i as int + 1) * cols as int == base + cols as int) by (nonlinear_arith)
                requires
                    base == i as int * cols as int,
            ;
        }
        let mut row: Vec<String> = Vec::new();
        let mut j: usize = 0;
        proof {
            assert(row.deep_view() =~= flat.subrange(base, base + 0));
        }
        while j < cols
            invariant
                j <= cols,
                i < rows,
                flat.len() == rows as int * cols as int,
                base == i as int * cols as int,
                base + cols as int <= flat.len(),
                row.deep_view() == flat.subrange(base, base + j as int),
                rest.deep_view() == flat.skip(base + j as int),
            decreases cols - j,
        {
            proof {
                assert((base + j as int) < flat.len());
                assert(rest.deep_view().len() > 0);
            }
            let x = rest.remove(0);
            let ghost old_row = row.deep_view();
            row.push(x);
            proof {
                assert(rest.deep_view() =~= flat.skip(base + j as int).skip(1));
                assert(flat.skip(base + j as int).skip(1) =~= flat.skip(base + j as int + 1));
                assert(flat.skip(base + j as int)[0] == flat[base + j as int]);
                assert(row.deep_view() =~= old_row.push(x@));
                assert(flat.subrange(base, base + j as int + 1) =~= flat.subrange(
                    base,
                    base + j as int,
                ).push(flat[base + j as int]));
            }
            j = j + 1;
        }
        let ghost old_out = out.deep_view();
        out.push(row);
        proof {
            assert(out.deep_view() =~= old_out.push(row.deep_view()));
            assert((i as int + 1) * cols as int == base + cols as int) by (nonlinear_arith)
                requires
                    base == i as int * cols as int,
            ;
        }
        i = i + 1;
    }
    out
}

/// Parse `input` as a matrix of exactly `rows` x `cols` numbers.
///
/// Structured layouts (nested rows, semicolon rows, newline rows) must
/// supply exactly `rows` rows of `cols` numbers; a flat number list is
/// accepted as a row-major fallback and reshaped, provided it holds
/// exactly `rows * cols` numbers.
pub fn parse_matrix(input: &str, rows: usize, cols: usize) -> (r: Result<
    (Vec<Vec<String>>, TextFormat),
    ParseError,
>)
    requires
        rows as int * cols as int <= usize::MAX as int,
    ensures
        ({
            let t = spec_trim(input@);
            match r {
                Ok(res) => matrix_accepts(t) && matrix_format_matches(res.1@, t) && (
                if matrix_layout(t) is Flat {
                    let toks = matrix_token_rows(t)[0];
                    &&& toks.len() == rows as int * cols as int
                    &&& res.0.deep_view().len() == rows as int
                    &&& forall|k: int|
                        0 <= k < rows as int ==> (#[trigger] res.0.deep_view()[k]) == toks.subrange(
                            k * cols as int,
                            (k + 1) * cols as int,
                        )
                } else {
                    &&& matrix_token_rows(t).len() == rows as int
                    &&& first_wrong_len(matrix_token_rows(t), cols as int, 0)
                        == matrix_token_rows(t).len()
                    &&& res.0.deep_view() == matrix_token_rows(t)
                }),
                Err(e) => if !matrix_accepts(t) {
                    matrix_error_matches(e, t)
                } else if matrix_layout(t) is Flat {
                    let toks = matrix_token_rows(t)[0];
                    toks.len() != rows as int * cols as int && e == (ParseError::WrongCount {
                        expected: (rows * cols) as usize,
                        actual: toks.len() as usize,
                    })
                } else {
                    let trs = matrix_token_rows(t);
                    if trs.len() != rows as int {
                        e == (ParseError::WrongCount { expected: rows, actual: trs.len() as usize })
                    } else {
                        let w = first_wrong_len(trs, cols as int, 0);
                        w < trs.len() && e == (ParseError::WrongColumnCount {
                            row: w as usize,
                            expected: cols,
                            actual: trs[w].len() as usize,
                        })
                    }
                },
            }
        }),
{
    let cs = str_to_chars(input);
    let tb = trim_in(&cs, 0, cs.len());
    let t = copy_range(&cs, tb.0, tb.1);
    let ghost ts = spec_trim(input@);
    proof {
        assert(t@ == ts);
    }
    if t.len() == 0 {
        return Err(ParseError::EmptyInput);
    }
    if let Err(e) = TextFormat::validate_brackets(&t) {
        return Err(e);
    }
    let pb = TextFormat::strip_wrappers(&t);
    let db = TextFormat::detect_brackets(&t, pb.0, pb.1);
    if db.1 == db.2 {
        return Err(ParseError::NoNumbersFound);
    }
    let (layout, rb, vd, raw_rows) = match TextFormat::detect_and_split_rows(&t, db.1, db.2) {
        Err(e) => {
            return Err(e);
        },
        Ok(x) => x,
    };
    if layout == RowLayout::Flat {
        proof {
            lemma_processed_single(t@, db.1 as int, db.2 as int);
        }
        let tb2 = trim_in(&t, db.1, db.2);
        if tb2.0 >= tb2.1 {
            return Err(ParseError::NoNumbersFound);
        }
        let (nd, flat_toks) = match TextFormat::detect_delimiter_and_parse(&t, tb2.0, tb2.1) {
            Err(e) => {
                return Err(e);
            },
            Ok(x) => x,
        };
        proof {
            assert((db.1 as int, db.2 as int) == matrix_inner(ts));
            assert(matrix_raw_rows(ts) == seq![(db.1 as int, db.2 as int)]);
            assert(trim_pair(ts, (db.1 as int, db.2 as int)) == (tb2.0 as int, tb2.1 as int));
            assert(matrix_rows(ts) == seq![(tb2.0 as int, tb2.1 as int)]);
            assert(!row_error(ts, (tb2.0 as int, tb2.1 as int)));
            assert(matrix_rows(ts)[0] == (tb2.0 as int, tb2.1 as int));
            assert(first_bad_row_from(ts, matrix_rows(ts), 1) == 1);
            assert(first_bad_row_from(ts, matrix_rows(ts), 0) == 1);
            assert(matrix_accepts(ts));
            assert(matrix_token_rows(ts)[0] == row_tokens(ts, (tb2.0 as int, tb2.1 as int)));
            assert(flat_toks.deep_view().len() == matrix_token_rows(ts)[0].len());
            assert(matrix_layout(ts) is Flat);
        }
        let total = rows * cols;
        if flat_toks.len() != total {
            return Err(ParseError::WrongCount { expected: total, actual: flat_toks.len() });
        }
        let (om, cm) = match db.0 {
            Some((o, c)) => (
                crate::vector::single_char_string(o),
                crate::vector::single_char_string(c),
            ),
            None => (String::new(), String::new()),
        };
        let fmt = TextFormat {
            number_delimiter: nd,
            open_vector: String::new(),
            close_vector: String::new(),
            vector_delimiter: vd,
            open_matrix: om,
            close_matrix: cm,
            prefix: string_from_range(&t, 0, pb.0),
            suffix: string_from_range(&t, pb.1, t.len()),
        };
        let out = reshape(flat_toks, rows, cols);
        Ok((out, fmt))
    } else {
        let proc = process_rows(&t, &raw_rows);
        let (nd, trs) = match parse_rows(&t, &proc) {
            Err(e) => {
                return Err(e);
            },
            Ok(x) => x,
        };
        proof {
            assert((db.1 as int, db.2 as int) == matrix_inner(ts));
            assert(matrix_raw_rows(ts) == rows_view(raw_rows@));
            assert(matrix_rows(ts) == rows_view(proc@));
            assert(matrix_accepts(ts));
            assert(trs.deep_view() == matrix_token_rows(ts));
            assert(!(matrix_layout(ts) is Flat));
        }
        if trs.len() != rows {
            return Err(ParseError::WrongCount { expected: rows, actual: trs.len() });
        }
        let ghost trsd = trs.deep_view();
        let mut j: usize = 0;
        while j < rows
            invariant
                j <= rows,
                trsd == trs.deep_view(),
                trsd == matrix_token_rows(ts),
                ts == spec_trim(input@),
                matrix_accepts(ts),
                !(matrix_layout(ts) is Flat),
                trsd.len() == rows as int,
                trs@.len() == rows as int,
                cols <= usize::MAX,
                first_wrong_len(trsd, cols as int, 0) == first_wrong_len(trsd, cols as int, j as int),
            decreases rows - j,
        {
            if trs[j].len() != cols {
                proof {
                    assert(trsd[j as int] == trs@[j as int].deep_view());
                    assert(trsd[j as int].len() == trs@[j as int]@.len());
                    assert(first_wrong_len(trsd, cols as int, j as int) == j as int);
                }
                return Err(
                    ParseError::WrongColumnCount { row: j, expected: cols, actual: trs[j].len() },
                );
            }
            proof {
                assert(trsd[j as int] == trs@[j as int].deep_view());
                assert(trsd[j as int].len() == trs@[j as int]@.len());
            }
            j = j + 1;
        }
        let (ov, cv) = match rb {
            Some((o, c)) => (
                crate::vector::single_char_string(o),
                crate::vector::single_char_string(c),
            ),
            None => (String::new(), String::new()),
        };
        let (om, cm) = match db.0 {
            Some((o, c)) => (
                crate::vector::single_char_string(o),
                crate::vector::single_char_string(c),
            ),
            None => (String::new(), String::new()),
        };
        let fmt = TextFormat {
            number_delimiter: nd,
            open_vector: ov,
            close_vector: cv,
            vector_delimiter: vd,
            open_matrix: om,
            close_matrix: cm,
            prefix: string_from_range(&t, 0, pb.0),
            suffix: string_from_range(&t, pb.1, t.len()),
        };
        Ok((trs, fmt))
    }
}

} // verus!

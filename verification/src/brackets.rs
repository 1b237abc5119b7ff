//! Stack-based bracket validation and bracket matching.
//!
//! [`crate::format::TextFormat::validate_brackets`] checks that every
//! `()`/`[]`/`{}` pair in the input nests properly and reports the first
//! offence with its character and position.  [`find_matching_close`] locates
//! the partner of one opening bracket by depth counting.

use vstd::prelude::*;
use crate::errors::ParseError;
use crate::format::TextFormat;

verus! {

/// Opening bracket test.
pub open spec fn is_open_char(c: char) -> bool {
    c == '(' || c == '[' || c == '{'
}

/// Closing bracket test.
pub open spec fn is_close_char(c: char) -> bool {
    c == ')' || c == ']' || c == '}'
}

/// Any bracket character.
pub open spec fn is_bracket_char(c: char) -> bool {
    is_open_char(c) || is_close_char(c)
}

/// The opener a closing bracket must match.
pub open spec fn opener_for(c: char) -> char {
    if c == ')' {
        '('
    } else if c == ']' {
        '['
    } else {
        '{'
    }
}

/// The closer belonging to an opening bracket.
pub open spec fn closer_for(c: char) -> char {
    if c == '(' {
        ')'
    } else if c == '[' {
        ']'
    } else {
        '}'
    }
}

/// Executable test for [`is_open_char`].
pub fn is_open(c: char) -> (r: bool)
    ensures
        r == is_open_char(c),
{
    c == '(' || c == '[' || c == '{'
}

/// Executable test for [`is_close_char`].
pub fn is_close(c: char) -> (r: bool)
    ensures
        r == is_close_char(c),
{
    c == ')' || c == ']' || c == '}'
}

/// One matched bracket pair: the opener's index, the closer's index, and the
/// opening character.
#[derive(Clone, Copy, Debug, PartialEq, Eq, Structural)]
pub struct BracketPair {
    pub open_idx: usize,
    pub close_idx: usize,
    pub open: char,
}

/// What a full left-to-right bracket scan of a string yields: either every
/// pair matched, or the first offending bracket.
pub enum ScanResult {
    Balanced { pairs: Seq<BracketPair> },
    UnexpectedClose { close: char, pos: usize },
    MismatchedClose { opened: char, closed: char, pos: usize },
    Unclosed { open: char, pos: usize },
}

/// The bracket scan from position `i` with open brackets `stack`
/// (position and character, innermost last) and pairs matched so far.
pub open spec fn scan_brackets(
    s: Seq<char>,
    i: int,
    stack: Seq<(usize, char)>,
    pairs: Seq<BracketPair>,
) -> ScanResult
    decreases s.len() - i,
{
    if i < 0 || i >= s.len() {
        if stack.len() == 0 {
            ScanResult::Balanced { pairs }
        } else {
            ScanResult::Unclosed { open: stack.last().1, pos: stack.last().0 }
        }
    } else {
        let c = s[i];
        if is_open_char(c) {
            scan_brackets(s, i + 1, stack.push((i as usize, c)), pairs)
        } else if is_close_char(c) {
            if stack.len() == 0 {
                ScanResult::UnexpectedClose { close: c, pos: i as usize }
            } else if stack.last().1 != opener_for(c) {
                ScanResult::MismatchedClose { opened: stack.last().1, closed: c, pos: i as usize }
            } else {
                scan_brackets(
                    s,
                    i + 1,
                    stack.drop_last(),
                    pairs.push(
                        BracketPair {
                            open_idx: stack.last().0,
                            close_idx: i as usize,
                            open: stack.last().1,
                        },
                    ),
                )
            }
        } else {
            scan_brackets(s, i + 1, stack, pairs)
        }
    }
}

/// The scan of a whole string, from an empty stack.
pub open spec fn spec_validate(s: Seq<char>) -> ScanResult {
    scan_brackets(s, 0, Seq::empty(), Seq::empty())
}

impl TextFormat {
    /// Check that every bracket in `chars` is matched and properly nested.
    ///
    /// On success returns the matched pairs in the order their closers
    /// appear; on failure returns the first offence found scanning left to
    /// right, with its character and character position.
    pub fn validate_brackets(chars: &Vec<char>) -> (r: Result<Vec<BracketPair>, ParseError>)
    ensures
        match spec_validate(chars@) {
            ScanResult::Balanced { pairs } => r matches Ok(v) && v@ == pairs,
            ScanResult::UnexpectedClose { close, pos } => r matches Err(e) && e
                == (ParseError::UnexpectedClose { close, pos }),
            ScanResult::MismatchedClose { opened, closed, pos } => r matches Err(e) && e
                == (ParseError::MismatchedClose { opened, closed, pos }),
            ScanResult::Unclosed { open, pos } => r matches Err(e) && e
                == (ParseError::UnclosedBracket { open, pos }),
        },
{
    let ghost s = chars@;
    let mut stack: Vec<(usize, char)> = Vec::new();
    let mut pairs: Vec<BracketPair> = Vec::new();
    let mut i: usize = 0;
    while i < chars.len()
        invariant
            i <= chars@.len(),
            chars@ == s,
            spec_validate(s) == scan_brackets(s, i as int, stack@, pairs@),
        decreases chars@.len() - i,
    {
        let c = chars[i];
        if is_open(c) {
            stack.push((i, c));
        } else if is_close(c) {
            let expected = if c == ')' {
                '('
            } else if c == ']' {
                '['
            } else {
                '{'
            };
            assert(expected == opener_for(c));
            match stack.pop() {
                None => {
                    return Err(ParseError::UnexpectedClose { close: c, pos: i });
                },
                Some((open_pos, open_ch)) => {
                    if open_ch != expected {
                        return Err(
                            ParseError::MismatchedClose { opened: open_ch, closed: c, pos: i },
                        );
                    }
                    pairs.push(BracketPair { open_idx: open_pos, close_idx: i, open: open_ch });
                },
            }
        }
        i = i + 1;
    }
    if stack.len() > 0 {
        let (open_pos, open_ch) = stack[stack.len() - 1];
        return Err(ParseError::UnclosedBracket { open: open_ch, pos: open_pos });
    }
    Ok(pairs)
}
}

/// How one character changes the bracket nesting depth.
pub open spec fn depth_delta(c: char) -> int {
    if is_open_char(c) {
        1
    } else if is_close_char(c) {
        -1
    } else {
        0
    }
}

/// First index `j >= i` where the running depth (starting at `depth`)
/// returns to zero, or `-1` if it never does.  Bracket kinds are ignored;
/// on a balanced string this yields the matching closer.
pub open spec fn find_close_from(s: Seq<char>, i: int, depth: int) -> int
    decreases s.len() - i,
{
    if i < 0 || i >= s.len() {
        -1
    } else {
        let d = depth + depth_delta(s[i]);
        if d == 0 {
            i
        } else {
            find_close_from(s, i + 1, d)
        }
    }
}

/// The index of the closer matching an opener at `o`, or `-1`.
pub open spec fn match_of(s: Seq<char>, o: int) -> int {
    find_close_from(s, o + 1, 1)
}

proof fn lemma_find_close_from_bounds(s: Seq<char>, i: int, depth: int)
    requires
        0 <= i,
        depth >= 1,
    ensures
        find_close_from(s, i, depth) == -1 || i <= find_close_from(s, i, depth) < s.len(),
    decreases s.len() - i,
{
    if 0 <= i && i < s.len() {
        let d = depth + depth_delta(s[i]);
        if d != 0 {
            lemma_find_close_from_bounds(s, i + 1, d);
        }
    }
}

/// The position [`match_of`] names is a real position past the opener.
pub proof fn lemma_match_of_bounds(s: Seq<char>, o: int)
    requires
        0 <= o,
    ensures
        match_of(s, o) == -1 || o + 1 <= match_of(s, o) < s.len(),
{
    lemma_find_close_from_bounds(s, o + 1, 1);
}

/// Find the position where the bracket opened at `o` is closed, by depth
/// counting (the bracket kind is not examined).
pub fn find_matching_close(chars: &Vec<char>, o: usize) -> (r: Option<usize>)
    requires
        o < chars@.len(),
    ensures
        match r {
            Some(j) => match_of(chars@, o as int) == j as int && o < j < chars@.len(),
            None => match_of(chars@, o as int) == -1,
        },
{
    let ghost s = chars@;
    proof {
        lemma_match_of_bounds(s, o as int);
    }
    let n = chars.len();
    let mut i = o + 1;
    let mut depth: usize = 1;
    while i < n
        invariant
            o + 1 <= i,
            i <= n == chars@.len(),
            chars@ == s,
            1 <= depth <= i,
            match_of(s, o as int) == find_close_from(s, i as int, depth as int),
        decreases n - i,
    {
        let c = chars[i];
        if is_open(c) {
            depth = depth + 1;
        } else if is_close(c) {
            depth = depth - 1;
            if depth == 0 {
                return Some(i);
            }
        }
        i = i + 1;
    }
    None
}

/// First opening bracket at or after `i`, or `end` if there is none.
pub open spec fn find_open_in(s: Seq<char>, i: int, end: int) -> int
    decreases end - i,
{
    if i < 0 || i >= end || end > s.len() {
        end
    } else if is_open_char(s[i]) {
        i
    } else {
        find_open_in(s, i + 1, end)
    }
}

/// Find the first opening bracket in `[start, end)`.
pub fn find_open(chars: &Vec<char>, start: usize, end: usize) -> (r: usize)
    requires
        start <= end <= chars@.len(),
    ensures
        r as int == find_open_in(chars@, start as int, end as int),
        start <= r <= end,
{
    let ghost s = chars@;
    let mut i = start;
    while i < end && !is_open(chars[i])
        invariant
            start <= i <= end <= chars@.len(),
            chars@ == s,
            find_open_in(s, start as int, end as int) == find_open_in(s, i as int, end as int),
        decreases end - i,
    {
        i = i + 1;
    }
    i
}

} // verus!

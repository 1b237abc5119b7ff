//! The vector parser: delimiter detection, token splitting, and the full
//! text-to-tokens pipeline.
//!
//! Delimiters are tried in strict priority — comma, semicolon, tab,
//! newline, then plain whitespace — and the first class present wins, so a
//! mix of delimiter classes surfaces as a wrong token or an unparsable
//! token, never as a silent reinterpretation.

use vstd::prelude::*;
use vstd::string::*;
use crate::brackets::ScanResult;
use crate::brackets::is_open_char;
use crate::brackets::match_of;
use crate::brackets::spec_validate;
use crate::chars::contains_char;
use crate::chars::contains_pair;
use crate::chars::chars_to_string;
use crate::chars::copy_range;
use crate::chars::find_char;
use crate::chars::find_char_in;
use crate::chars::find_space;
use crate::chars::find_space_in;
use crate::chars::has_pair;
use crate::chars::lemma_find_char_in;
use crate::chars::lemma_find_space_in;
use crate::chars::lemma_skip_spaces_bounds;
use crate::chars::skip_spaces;
use crate::chars::skip_ws;
use crate::chars::spec_trim;
use crate::chars::str_to_chars;
use crate::chars::string_from_range;
use crate::chars::trim_bounds;
use crate::chars::trim_in;
use crate::errors::ParseError;
use crate::format::SpecFormat;
use crate::format::TextFormat;
use crate::number::check_number_token;
use crate::number::clean_number_token;
use crate::number::clean_token;
use crate::number::is_number_token;
use crate::wrapper::multiple_top_groups;
use crate::wrapper::payload_bounds;

verus! {

/// The trimmed text of the piece `p` (a half-open character range).
pub open spec fn piece_raw(s: Seq<char>, p: (int, int)) -> Seq<char> {
    let tb = trim_bounds(s, p.0, p.1);
    s.subrange(tb.0, tb.1)
}

/// The normalized token of the piece `p`: trimmed, suffix dropped,
/// underscores removed.
pub open spec fn piece_token(s: Seq<char>, p: (int, int)) -> Seq<char> {
    clean_token(piece_raw(s, p))
}

/// `[a, b)` split at every occurrence of the delimiter `d`, as ranges.
pub open spec fn split_rng(s: Seq<char>, a: int, b: int, d: char) -> Seq<(int, int)>
    decreases b - a,
        when 0 <= a <= b <= s.len()
        via split_rng_decreases
{
    let i = find_char_in(s, a, b, d);
    if i >= b {
        seq![(a, b)]
    } else {
        seq![(a, i)] + split_rng(s, i + 1, b, d)
    }
}

#[via_fn]
proof fn split_rng_decreases(s: Seq<char>, a: int, b: int, d: char) {
    if 0 <= a && a <= b && b <= s.len() {
        lemma_find_char_in(s, a, b, d);
    }
}

/// `[a, b)` split at maximal whitespace runs, as non-empty ranges.
pub open spec fn split_ws_rng(s: Seq<char>, a: int, b: int) -> Seq<(int, int)>
    decreases b - a,
        when 0 <= a <= b <= s.len()
        via split_ws_rng_decreases
{
    let i = skip_spaces(s, a, b);
    if i >= b {
        Seq::empty()
    } else {
        let j = find_space_in(s, i, b);
        seq![(i, j)] + split_ws_rng(s, j, b)
    }
}

#[via_fn]
proof fn split_ws_rng_decreases(s: Seq<char>, a: int, b: int) {
    if 0 <= a && a <= b && b <= s.len() {
        lemma_skip_spaces_bounds(s, a, b);
        let i = skip_spaces(s, a, b);
        if i < b {
            lemma_find_space_in(s, i, b);
        }
    }
}

/// Index of the first piece whose token fails the number grammar, looking
/// from `k` on; the piece count when every remaining token passes.
pub open spec fn first_bad_from(s: Seq<char>, ps: Seq<(int, int)>, k: int) -> int
    decreases ps.len() - k,
{
    if k < 0 || k >= ps.len() {
        ps.len() as int
    } else if !is_number_token(piece_token(s, ps[k])) {
        k
    } else {
        first_bad_from(s, ps, k + 1)
    }
}

/// The delimiter class of `[a, b)`, in strict priority: comma, semicolon,
/// tab, newline, whitespace (`' '` stands for the whitespace class).
pub open spec fn delim_of(s: Seq<char>, a: int, b: int) -> char {
    if contains_char(s, a, b, ',') {
        ','
    } else if contains_char(s, a, b, ';') {
        ';'
    } else if contains_char(s, a, b, '\t') {
        '\t'
    } else if contains_char(s, a, b, '\n') {
        '\n'
    } else {
        ' '
    }
}

/// The pieces of `[a, b)` under its detected delimiter class.
pub open spec fn pieces_of(s: Seq<char>, a: int, b: int) -> Seq<(int, int)> {
    let d = delim_of(s, a, b);
    if d == ' ' {
        split_ws_rng(s, a, b)
    } else {
        split_rng(s, a, b, d)
    }
}

/// The delimiter text recorded in the format: the delimiter with a
/// trailing space when the input spells it that way.
pub open spec fn delim_display(s: Seq<char>, a: int, b: int) -> Seq<char> {
    let d = delim_of(s, a, b);
    if d == ',' && contains_pair(s, a, b, ',', ' ') {
        seq![',', ' ']
    } else if d == ';' && contains_pair(s, a, b, ';', ' ') {
        seq![';', ' ']
    } else {
        seq![d]
    }
}

/// Trim one piece, normalize it, and check the number grammar.
fn piece_to_token(chars: &Vec<char>, pa: usize, pb: usize) -> (r: Result<String, ParseError>)
    requires
        pa <= pb <= chars@.len(),
    ensures
        ({
            let raw = piece_raw(chars@, (pa as int, pb as int));
            let ct = piece_token(chars@, (pa as int, pb as int));
            match r {
                Ok(t) => is_number_token(ct) && t@ == ct,
                Err(e) => !is_number_token(ct) && (e matches ParseError::NumberParseFailure {
                    token,
                } && token@ == raw),
            }
        }),
{
    let tb = trim_in(chars, pa, pb);
    let piece = copy_range(chars, tb.0, tb.1);
    let cleaned = clean_number_token(&piece);
    if check_number_token(&cleaned) {
        Ok(chars_to_string(&cleaned))
    } else {
        Err(ParseError::NumberParseFailure { token: string_from_range(chars, tb.0, tb.1) })
    }
}

/// Split `[a, b)` on the single-character delimiter `d` and tokenize each
/// piece, reporting the first piece that is not a number.
fn split_tokens_on(chars: &Vec<char>, a: usize, b: usize, d: char) -> (r: Result<
    Vec<String>,
    ParseError,
>)
    requires
        a <= b <= chars@.len(),
    ensures
        ({
            let s = chars@;
            let ps = split_rng(s, a as int, b as int, d);
            let bad = first_bad_from(s, ps, 0);
            match r {
                Ok(toks) => bad == ps.len() && toks.deep_view() == ps.map_values(
                    |p: (int, int)| piece_token(s, p),
                ),
                Err(e) => bad < ps.len() && (e matches ParseError::NumberParseFailure { token }
                    && token@ == piece_raw(s, ps[bad])),
            }
        }),
{
    let ghost s = chars@;
    let ghost ps = split_rng(s, a as int, b as int, d);
    let ghost tokfn = |p: (int, int)| piece_token(s, p);
    let mut toks: Vec<String> = Vec::new();
    let mut start = a;
    let ghost mut k: int = 0;
    proof {
        assert(ps.take(0).map_values(tokfn) =~= toks.deep_view());
    }
    loop
        invariant
            a <= start <= b <= chars@.len(),
            chars@ == s,
            ps == split_rng(s, a as int, b as int, d),
            tokfn == (|p: (int, int)| piece_token(s, p)),
            0 <= k <= ps.len(),
            split_rng(s, start as int, b as int, d) == ps.skip(k),
            toks.deep_view() == ps.take(k).map_values(tokfn),
            first_bad_from(s, ps, 0) == first_bad_from(s, ps, k),
        decreases b - start,
    {
        proof {
            lemma_find_char_in(s, start as int, b as int, d);
        }
        let i = find_char(chars, start, b, d);
        proof {
            assert(split_rng(s, start as int, b as int, d)[0] == (start as int, i as int));
            assert(ps.skip(k).len() >= 1);
            assert(k < ps.len());
            assert(ps[k] == (start as int, i as int));
        }
        match piece_to_token(chars, start, i) {
            Err(e) => {
                proof {
                    assert(first_bad_from(s, ps, k) == k);
                }
                return Err(e);
            },
            Ok(t) => {
                let ghost old_deep = toks.deep_view();
                toks.push(t);
                proof {
                    assert(toks.deep_view() =~= old_deep.push(t@));
                    assert(ps.take(k + 1).map_values(tokfn) =~= ps.take(k).map_values(
                        tokfn,
                    ).push(tokfn(ps[k])));
                    assert(first_bad_from(s, ps, k) == first_bad_from(s, ps, k + 1));
                    k = k + 1;
                }
            },
        }
        if i == b {
            proof {
                assert(ps.skip(k - 1).len() == 1);
                assert(k == ps.len());
                assert(ps.take(k) =~= ps);
            }
            return Ok(toks);
        }
        proof {
            assert(split_rng(s, start as int, b as int, d) == seq![(start as int, i as int)]
                + split_rng(s, i + 1, b as int, d));
            assert((seq![(start as int, i as int)] + split_rng(s, i + 1, b as int, d)).skip(1)
                =~= split_rng(s, i + 1, b as int, d));
            assert(ps.skip(k - 1).skip(1) =~= ps.skip(k));
        }
        start = i + 1;
    }
}

/// Split `[a, b)` at whitespace runs and tokenize each piece, reporting
/// the first piece that is not a number.
fn split_tokens_ws(chars: &Vec<char>, a: usize, b: usize) -> (r: Result<Vec<String>, ParseError>)
    requires
        a <= b <= chars@.len(),
    ensures
        ({
            let s = chars@;
            let ps = split_ws_rng(s, a as int, b as int);
            let bad = first_bad_from(s, ps, 0);
            match r {
                Ok(toks) => bad == ps.len() && toks.deep_view() == ps.map_values(
                    |p: (int, int)| piece_token(s, p),
                ),
                Err(e) => bad < ps.len() && (e matches ParseError::NumberParseFailure { token }
                    && token@ == piece_raw(s, ps[bad])),
            }
        }),
{
    let ghost s = chars@;
    let ghost ps = split_ws_rng(s, a as int, b as int);
    let ghost tokfn = |p: (int, int)| piece_token(s, p);
    let mut toks: Vec<String> = Vec::new();
    let mut start = a;
    let ghost mut k: int = 0;
    proof {
        assert(ps.take(0).map_values(tokfn) =~= toks.deep_view());
    }
    loop
        invariant
            a <= start <= b <= chars@.len(),
            chars@ == s,
            ps == split_ws_rng(s, a as int, b as int),
            tokfn == (|p: (int, int)| piece_token(s, p)),
            0 <= k <= ps.len(),
            split_ws_rng(s, start as int, b as int) == ps.skip(k),
            toks.deep_view() == ps.take(k).map_values(tokfn),
            first_bad_from(s, ps, 0) == first_bad_from(s, ps, k),
        decreases b - start,
    {
        let st = skip_ws(chars, start, b);
        if st == b {
            proof {
                assert(ps.skip(k).len() == 0);
                assert(k == ps.len());
                assert(ps.take(k) =~= ps);
            }
            return Ok(toks);
        }
        proof {
            lemma_find_space_in(s, st as int, b as int);
        }
        let j = find_space(chars, st, b);
        proof {
            assert(split_ws_rng(s, start as int, b as int)[0] == (st as int, j as int));
            assert(ps.skip(k).len() >= 1);
            assert(k < ps.len());
            assert(ps[k] == (st as int, j as int));
        }
        match piece_to_token(chars, st, j) {
            Err(e) => {
                proof {
                    assert(first_bad_from(s, ps, k) == k);
                }
                return Err(e);
            },
            Ok(t) => {
                let ghost old_deep = toks.deep_view();
                toks.push(t);
                proof {
                    assert(toks.deep_view() =~= old_deep.push(t@));
                    assert(ps.take(k + 1).map_values(tokfn) =~= ps.take(k).map_values(
                        tokfn,
                    ).push(tokfn(ps[k])));
                    assert(first_bad_from(s, ps, k) == first_bad_from(s, ps, k + 1));
                    k = k + 1;
                }
            },
        }
        proof {
            assert(split_ws_rng(s, start as int, b as int) == seq![(st as int, j as int)]
                + split_ws_rng(s, j as int, b as int));
            assert((seq![(st as int, j as int)] + split_ws_rng(s, j as int, b as int)).skip(1)
                =~= split_ws_rng(s, j as int, b as int));
            assert(ps.skip(k - 1).skip(1) =~= ps.skip(k));
        }
        start = j;
    }
}

/// Build the one- or two-character `String` of a delimiter.
fn delim_string(d: char, with_space: bool) -> (r: String)
    ensures
        with_space ==> r@ == seq![d, ' '],
        !with_space ==> r@ == seq![d],
{
    let mut v: Vec<char> = Vec::new();
    v.push(d);
    if with_space {
        v.push(' ');
        proof {
            assert(v@ =~= seq![d, ' ']);
        }
    } else {
        proof {
            assert(v@ =~= seq![d]);
        }
    }
    chars_to_string(&v)
}

/// Build the `String` holding one character.
pub(crate) fn single_char_string(c: char) -> (r: String)
    ensures
        r@ == seq![c],
{
    let mut v: Vec<char> = Vec::new();
    v.push(c);
    proof {
        assert(v@ =~= seq![c]);
    }
    chars_to_string(&v)
}

impl TextFormat {
    /// Detect the number delimiter of `[a, b)` in strict priority order and
    /// parse every token, returning the delimiter text and the normalized
    /// tokens.
    pub fn detect_delimiter_and_parse(chars: &Vec<char>, a: usize, b: usize) -> (r: Result<
        (String, Vec<String>),
        ParseError,
    >)
        requires
            a <= b <= chars@.len(),
        ensures
            ({
                let s = chars@;
                let ps = pieces_of(s, a as int, b as int);
                let bad = first_bad_from(s, ps, 0);
                match r {
                    Ok(res) => ps.len() > 0 && bad == ps.len() && res.0@ == delim_display(
                        s,
                        a as int,
                        b as int,
                    ) && res.1.deep_view() == ps.map_values(|p: (int, int)| piece_token(s, p)),
                    Err(e) => (ps.len() == 0 && e is NoNumbersFound) || (bad < ps.len() && (
                    e matches ParseError::NumberParseFailure { token } && token@ == piece_raw(
                        s,
                        ps[bad],
                    ))),
                }
            }),
    {
        let ghost s = chars@;
        let has_comma = find_char(chars, a, b, ',') < b;
        let has_semi = find_char(chars, a, b, ';') < b;
        let has_tab = find_char(chars, a, b, '\t') < b;
        let has_nl = find_char(chars, a, b, '\n') < b;
        if has_comma {
            let toks = match split_tokens_on(chars, a, b, ',') {
                Err(e) => {
                    return Err(e);
                },
                Ok(t) => t,
            };
            proof {
                assert(split_rng(s, a as int, b as int, ',').len() >= 1);
                assert(delim_of(s, a as int, b as int) == ',');
                assert(pieces_of(s, a as int, b as int) == split_rng(s, a as int, b as int, ','));
            }
            let delim = delim_string(',', has_pair(chars, a, b, ',', ' '));
            Ok((delim, toks))
        } else if has_semi {
            let toks = match split_tokens_on(chars, a, b, ';') {
                Err(e) => {
                    return Err(e);
                },
                Ok(t) => t,
            };
            proof {
                assert(split_rng(s, a as int, b as int, ';').len() >= 1);
                assert(delim_of(s, a as int, b as int) == ';');
                assert(pieces_of(s, a as int, b as int) == split_rng(s, a as int, b as int, ';'));
            }
            let delim = delim_string(';', has_pair(chars, a, b, ';', ' '));
            Ok((delim, toks))
        } else if has_tab {
            let toks = match split_tokens_on(chars, a, b, '\t') {
                Err(e) => {
                    return Err(e);
                },
                Ok(t) => t,
            };
            proof {
                assert(split_rng(s, a as int, b as int, '\t').len() >= 1);
                assert(delim_of(s, a as int, b as int) == '\t');
                assert(pieces_of(s, a as int, b as int) == split_rng(s, a as int, b as int, '\t'));
            }
            Ok((single_char_string('\t'), toks))
        } else if has_nl {
            let toks = match split_tokens_on(chars, a, b, '\n') {
                Err(e) => {
                    return Err(e);
                },
                Ok(t) => t,
            };
            proof {
                assert(split_rng(s, a as int, b as int, '\n').len() >= 1);
                assert(delim_of(s, a as int, b as int) == '\n');
                assert(pieces_of(s, a as int, b as int) == split_rng(s, a as int, b as int, '\n'));
            }
            Ok((single_char_string('\n'), toks))
        } else {
            let toks = match split_tokens_ws(chars, a, b) {
                Err(e) => {
                    return Err(e);
                },
                Ok(t) => t,
            };
            if toks.len() == 0 {
                proof {
                    assert(split_ws_rng(s, a as int, b as int).len() == 0) by {
                        let ps = split_ws_rng(s, a as int, b as int);
                        assert(toks.deep_view() =~= ps.map_values(
                            |p: (int, int)| piece_token(s, p),
                        ));
                        assert(ps.map_values(|p: (int, int)| piece_token(s, p)).len() == ps.len());
                    }
                }
                return Err(ParseError::NoNumbersFound);
            }
            proof {
                let ps2 = split_ws_rng(s, a as int, b as int);
                assert(toks.deep_view().len() == ps2.map_values(
                    |p: (int, int)| piece_token(s, p),
                ).len());
                assert(ps2.len() > 0);
                assert(pieces_of(s, a as int, b as int) == ps2);
            }
            Ok((single_char_string(' '), toks))
        }
    }
}

/// The bracket pair around the payload, when the payload is one bracket
/// group.
pub open spec fn vector_brackets(t: Seq<char>) -> Option<(char, char)> {
    let pb = payload_bounds(t);
    if pb.1 - pb.0 >= 2 && is_open_char(t[pb.0]) && match_of(t, pb.0) == pb.1 - 1 {
        Some((t[pb.0], t[pb.1 - 1]))
    } else {
        None
    }
}

/// The trimmed content the delimiter detector runs on: inside the payload
/// brackets when they exist, the payload itself otherwise.
pub open spec fn vector_inner(t: Seq<char>) -> (int, int) {
    let pb = payload_bounds(t);
    if vector_brackets(t) is Some {
        trim_bounds(t, pb.0 + 1, pb.1 - 1)
    } else {
        pb
    }
}

/// The pieces of the trimmed input `t`.
pub open spec fn vector_pieces(t: Seq<char>) -> Seq<(int, int)> {
    pieces_of(t, vector_inner(t).0, vector_inner(t).1)
}

/// The normalized number tokens of the trimmed input `t`.
pub open spec fn vector_tokens(t: Seq<char>) -> Seq<Seq<char>> {
    vector_pieces(t).map_values(|p: (int, int)| piece_token(t, p))
}

/// Whether the trimmed input `t` parses as a vector: non-empty, brackets
/// balanced, one top-level group, and every token a number.
pub open spec fn vector_accepts(t: Seq<char>) -> bool {
    &&& t.len() > 0
    &&& spec_validate(t) is Balanced
    &&& !multiple_top_groups(t)
    &&& vector_pieces(t).len() > 0
    &&& first_bad_from(t, vector_pieces(t), 0) == vector_pieces(t).len()
}

/// The error a rejected trimmed input `t` is reported with.
pub open spec fn vector_error_matches(e: ParseError, t: Seq<char>) -> bool {
    if t.len() == 0 {
        e is EmptyInput
    } else {
        match spec_validate(t) {
            ScanResult::UnexpectedClose { close, pos } => e == (ParseError::UnexpectedClose {
                close,
                pos,
            }),
            ScanResult::MismatchedClose { opened, closed, pos } => e
                == (ParseError::MismatchedClose { opened, closed, pos }),
            ScanResult::Unclosed { open, pos } => e == (ParseError::UnclosedBracket {
                open,
                pos,
            }),
            ScanResult::Balanced { pairs } => if multiple_top_groups(t) {
                e is MultipleVectorsFound
            } else if vector_pieces(t).len() == 0 {
                e is NoNumbersFound
            } else {
                let bad = first_bad_from(t, vector_pieces(t), 0);
                bad < vector_pieces(t).len() && (e matches ParseError::NumberParseFailure { token }
                    && token@ == piece_raw(t, vector_pieces(t)[bad]))
            },
        }
    }
}

/// Whether a parsed format records exactly the notation of the trimmed
/// input `t`.
pub open spec fn vector_format_matches(f: SpecFormat, t: Seq<char>) -> bool {
    &&& f.number_delimiter == delim_display(t, vector_inner(t).0, vector_inner(t).1)
    &&& f.open_vector == (match vector_brackets(t) {
        Some(p) => seq![p.0],
        None => Seq::<char>::empty(),
    })
    &&& f.close_vector == (match vector_brackets(t) {
        Some(p) => seq![p.1],
        None => Seq::<char>::empty(),
    })
    &&& f.vector_delimiter == seq![',', ' ']
    &&& f.open_matrix == Seq::<char>::empty()
    &&& f.close_matrix == Seq::<char>::empty()
    &&& f.prefix == t.subrange(0, payload_bounds(t).0)
    &&& f.suffix == t.subrange(payload_bounds(t).1, t.len() as int)
}

impl TextFormat {
    /// Auto-detect the notation of `input` and parse its numbers.
    ///
    /// Accepts bracketed or bare vectors with comma, semicolon, tab,
    /// newline or whitespace delimiters, optionally wrapped in call syntax
    /// such as `np.array([...])`.  Returns the detected format and the
    /// normalized number tokens, or the first error encountered.
    pub fn detect_and_parse(input: &str) -> (r: Result<(TextFormat, Vec<String>), ParseError>)
        ensures
            ({
                let t = spec_trim(input@);
                match r {
                    Ok(res) => vector_accepts(t) && vector_format_matches(res.0@, t)
                        && res.1.deep_view() == vector_tokens(t),
                    Err(e) => !vector_accepts(t) && vector_error_matches(e, t),
                }
            }),
    {
        let cs = str_to_chars(input);
        let tb = trim_in(&cs, 0, cs.len());
        let t = copy_range(&cs, tb.0, tb.1);
        let ghost ts = spec_trim(input@);
        proof {
            assert(t@ == ts);
        }
        if t.len() == 0 {
            return Err(ParseError::EmptyInput);
        }
        if let Err(e) = TextFormat::validate_brackets(&t) {
            return Err(e);
        }
        if TextFormat::has_multiple_top_groups(&t) {
            return Err(ParseError::MultipleVectorsFound);
        }
        let pb = TextFormat::strip_wrappers(&t);
        let db = TextFormat::detect_brackets(&t, pb.0, pb.1);
        let (delim, toks) = match TextFormat::detect_delimiter_and_parse(&t, db.1, db.2) {
            Err(e) => {
                return Err(e);
            },
            Ok(x) => x,
        };
        let (ov, cv) = match db.0 {
            Some((o, c)) => (single_char_string(o), single_char_string(c)),
            None => (String::new(), String::new()),
        };
        let fmt = TextFormat {
            number_delimiter: delim,
            open_vector: ov,
            close_vector: cv,
            vector_delimiter: String::from_str(", "),
            open_matrix: String::new(),
            close_matrix: String::new(),
            prefix: string_from_range(&t, 0, pb.0),
            suffix: string_from_range(&t, pb.1, t.len()),
        };
        proof {
            reveal_strlit(", ");
            assert(", "@ =~= seq![',', ' ']);
        }
        Ok((fmt, toks))
    }
}

/// Parse `input` as a vector of exactly `expected` numbers.
///
/// Wraps [`TextFormat::detect_and_parse`] and rejects any other arity with
/// `WrongCount`, never truncating or padding.
pub fn parse_vector(input: &str, expected: usize) -> (r: Result<
    (Vec<String>, TextFormat),
    ParseError,
>)
    ensures
        ({
            let t = spec_trim(input@);
            match r {
                Ok(res) => vector_accepts(t) && vector_tokens(t).len() == expected
                    && res.0.deep_view() == vector_tokens(t) && vector_format_matches(res.1@, t),
                Err(e) => if vector_accepts(t) {
                    vector_tokens(t).len() != expected && e == (ParseError::WrongCount {
                        expected,
                        actual: vector_tokens(t).len() as usize,
                    })
                } else {
                    vector_error_matches(e, t)
                },
            }
        }),
{
    match TextFormat::detect_and_parse(input) {
        Err(e) => Err(e),
        Ok((fmt, toks)) => {
            if toks.len() != expected {
                Err(ParseError::WrongCount { expected, actual: toks.len() })
            } else {
                Ok((toks, fmt))
            }
        },
    }
}

} // verus!

//! Round-trip laws connecting the formatter and the vector parser.
//!
//! The central law: a vector rendered by the formatter from valid number
//! tokens — bare or inside any bracket pair, with the delimiter `", "`,
//! `"; "` or `" "` — parses back to exactly those tokens.  Together with the
//! contracts of [`crate::format::TextFormat::format_vector`] and
//! [`crate::vector::parse_vector`], this pins the executable round trip.

use vstd::prelude::*;
use crate::brackets::ScanResult;
use crate::brackets::closer_for;
use crate::brackets::find_close_from;
use crate::brackets::is_bracket_char;
use crate::brackets::is_close_char;
use crate::brackets::is_open_char;
use crate::brackets::scan_brackets;
use crate::brackets::spec_validate;
use crate::chars::find_char_in;
use crate::chars::find_space_in;
use crate::chars::is_space_char;
use crate::chars::lemma_find_char_in;
use crate::chars::lemma_find_space_in;
use crate::chars::lemma_rskip_spaces_bounds;
use crate::chars::rskip_spaces;
use crate::chars::skip_spaces;
use crate::chars::spec_trim;
use crate::chars::trim_bounds;
use crate::format::SpecFormat;
use crate::format::join_with;
use crate::format::spec_format_vector;
use crate::number::NumState;
use crate::number::clean_token;
use crate::number::is_number_token;
use crate::number::is_digit_char;
use crate::number::num_run;
use crate::number::num_step;
use crate::number::strip_float_suffix;
use crate::brackets::find_open_in;
use crate::vector::first_bad_from;
use crate::vector::piece_token;
use crate::vector::pieces_of;
use crate::vector::split_rng;
use crate::vector::split_ws_rng;
use crate::vector::vector_accepts;
use crate::vector::vector_brackets;
use crate::vector::vector_inner;
use crate::vector::vector_pieces;
use crate::vector::vector_tokens;
use crate::wrapper::multiple_top_groups;
use crate::wrapper::payload_bounds;

verus! {

/// The characters a valid number token can consist of: digits, signs, the
/// decimal point, and the exponent letter.  None of them is whitespace, a
/// delimiter, a bracket, an underscore or a suffix letter.
pub open spec fn plain_number_char(c: char) -> bool {
    is_digit_char(c) || c == '+' || c == '-' || c == '.' || c == 'e' || c == 'E'
}

proof fn lemma_num_run_reject(s: Seq<char>, i: int)
    ensures
        num_run(s, i, NumState::Reject) == NumState::Reject,
    decreases s.len() - i,
{
    if 0 <= i && i < s.len() {
        lemma_num_run_reject(s, i + 1);
    }
}

proof fn lemma_num_run_bad(s: Seq<char>, i: int, st: NumState, k: int)
    requires
        0 <= i <= k < s.len(),
        !plain_number_char(s[k]),
    ensures
        num_run(s, i, st) == NumState::Reject,
    decreases k - i,
{
    if i == k {
        assert(num_step(st, s[k]) == NumState::Reject);
        lemma_num_run_reject(s, i + 1);
    } else {
        lemma_num_run_bad(s, i + 1, num_step(st, s[i]), k);
    }
}

/// A valid number token is non-empty and consists of plain number
/// characters only.
pub proof fn lemma_number_token_chars(s: Seq<char>)
    requires
        is_number_token(s),
    ensures
        s.len() > 0,
        forall|k: int| 0 <= k < s.len() ==> plain_number_char(#[trigger] s[k]),
{
    assert forall|k: int| 0 <= k < s.len() implies plain_number_char(#[trigger] s[k]) by {
        if !plain_number_char(s[k]) {
            lemma_num_run_bad(s, 0, NumState::Start, k);
        }
    }
}

proof fn lemma_filter_all(s: Seq<char>, pred: spec_fn(char) -> bool)
    requires
        forall|k: int| 0 <= k < s.len() ==> pred(#[trigger] s[k]),
    ensures
        s.filter(pred) == s,
    decreases s.len(),
{
    reveal(Seq::filter);
    if s.len() > 0 {
        lemma_filter_all(s.drop_last(), pred);
        assert(s.drop_last().push(s.last()) =~= s);
    }
}

/// Cleaning does not change a token made of plain number characters.
pub proof fn lemma_clean_plain(s: Seq<char>)
    requires
        forall|k: int| 0 <= k < s.len() ==> plain_number_char(#[trigger] s[k]),
    ensures
        clean_token(s) == s,
{
    assert(strip_float_suffix(s) == s);
    lemma_filter_all(s, |c: char| c != '_');
}

proof fn lemma_find_char_at(s: Seq<char>, a: int, b: int, c: char, p: int)
    requires
        0 <= a <= p < b <= s.len(),
        s[p] == c,
        forall|k: int| a <= k < p ==> s[k] != c,
    ensures
        find_char_in(s, a, b, c) == p,
{
    lemma_find_char_in(s, a, b, c);
}

proof fn lemma_find_char_none(s: Seq<char>, a: int, b: int, c: char)
    requires
        0 <= a <= b <= s.len(),
        forall|k: int| a <= k < b ==> s[k] != c,
    ensures
        find_char_in(s, a, b, c) == b,
{
    lemma_find_char_in(s, a, b, c);
}

/// Characters of a range named by a subrange equation.
proof fn lemma_subrange_chars(s: Seq<char>, a: int, b: int, e: Seq<char>)
    requires
        0 <= a <= b <= s.len(),
        s.subrange(a, b) == e,
    ensures
        e.len() == b - a,
        forall|m: int| 0 <= m < b - a ==> s[a + m] == e[m],
{
    assert forall|m: int| 0 <= m < b - a implies s[a + m] == e[m] by {
        assert(s.subrange(a, b)[m] == s[a + m]);
    }
}

/// The head decomposition of a join: first part, delimiter, joined rest.
proof fn lemma_join_left(parts: Seq<Seq<char>>, d: Seq<char>)
    requires
        parts.len() >= 2,
    ensures
        join_with(parts, d) == parts[0] + d + join_with(parts.drop_first(), d),
    decreases parts.len(),
{
    if parts.len() == 2 {
        assert(parts.drop_last().len() == 1);
        assert(join_with(parts.drop_last(), d) == parts.drop_last()[0]);
        assert(parts.drop_last()[0] == parts[0]);
        assert(parts.drop_first().len() == 1);
        assert(join_with(parts.drop_first(), d) == parts.drop_first()[0]);
        assert(parts.drop_first()[0] == parts[1]);
        assert(join_with(parts, d) == join_with(parts.drop_last(), d) + d + parts.last());
        assert(join_with(parts, d) =~= parts[0] + d + join_with(parts.drop_first(), d));
    } else {
        let dl = parts.drop_last();
        lemma_join_left(dl, d);
        assert(dl.drop_first() =~= parts.drop_first().drop_last());
        assert(parts.drop_first().len() >= 2);
        assert(parts.drop_first().last() == parts.last());
        assert(dl[0] == parts[0]);
        assert(join_with(parts, d) == join_with(dl, d) + d + parts.last());
        assert(join_with(parts.drop_first(), d) == join_with(parts.drop_first().drop_last(), d) + d
            + parts.last());
        assert(join_with(parts, d) =~= parts[0] + d + join_with(parts.drop_first(), d));
    }
}

/// Tokens all pass the grammar, so no piece is bad.
proof fn lemma_all_good(s: Seq<char>, ps: Seq<(int, int)>, k: int)
    requires
        0 <= k <= ps.len(),
        forall|m: int| k <= m < ps.len() ==> is_number_token(piece_token(s, #[trigger] ps[m])),
    ensures
        first_bad_from(s, ps, k) == ps.len(),
    decreases ps.len() - k,
{
    if k < ps.len() {
        lemma_all_good(s, ps, k + 1);
    }
}

/// Splitting a join on its delimiter and normalizing each piece
/// recovers the joined tokens.
#[verifier::rlimit(100)]
proof fn lemma_split_join_delim(
    s: Seq<char>,
    a: int,
    b: int,
    toks: Seq<Seq<char>>,
    lead_space: bool,
    d: char,
)
    requires
        d == ',' || d == ';',
        0 <= a <= b <= s.len(),
        toks.len() >= 1,
        forall|k: int| 0 <= k < toks.len() ==> (#[trigger] toks[k]).len() > 0,
        forall|k: int, m: int|
            0 <= k < toks.len() && 0 <= m < toks[k].len() ==> plain_number_char(
                #[trigger] toks[k][m],
            ),
        s.subrange(a, b) == (if lead_space {
            seq![' ']
        } else {
            Seq::<char>::empty()
        }) + join_with(toks, seq![d, ' ']),
    ensures
        split_rng(s, a, b, d).map_values(|p: (int, int)| piece_token(s, p)) == toks,
    decreases toks.len(),
{
    let sep = seq![d, ' '];
    let lead: int = if lead_space {
        1
    } else {
        0
    };
    let t0 = toks[0];
    let n0 = t0.len() as int;
    let base = a + lead;
    let tokfn = |p: (int, int)| piece_token(s, p);
    let lead_seq: Seq<char> = if lead_space {
        seq![' ']
    } else {
        Seq::<char>::empty()
    };
    if toks.len() == 1 {
        assert(join_with(toks, sep) == t0);
        let e = lead_seq + t0;
        lemma_subrange_chars(s, a, b, e);
        assert(b - a == lead + n0);
        assert forall|m: int| 0 <= m < n0 implies s[base + m] == t0[m] by {
            assert(s[a + (lead + m)] == e[lead + m]);
            assert(e[lead + m] == t0[m]);
        }
        assert forall|k: int| a <= k < b implies s[k] != d by {
            let m = k - a;
            assert(s[a + m] == e[m]);
            if m >= lead {
                assert(e[m] == t0[m - lead]);
                assert(plain_number_char(t0[m - lead]));
            }
        }
        lemma_find_char_none(s, a, b, d);
        assert(split_rng(s, a, b, d) =~= seq![(a, b)]);
        if lead_space {
            assert(s[a + 0] == e[0]);
            assert(is_space_char(s[a]));
        }
        assert(s[base + 0] == t0[0]);
        assert(!is_space_char(s[base]));
        if lead_space {
            assert(skip_spaces(s, a, b) == skip_spaces(s, a + 1, b));
        }
        assert(skip_spaces(s, base, b) == base);
        assert(skip_spaces(s, a, b) == base);
        assert(s[base + (n0 - 1)] == t0[n0 - 1]);
        assert(!is_space_char(s[b - 1]));
        assert(rskip_spaces(s, base, b) == b);
        assert(trim_bounds(s, a, b) == (base, b));
        assert(s.subrange(base, b) =~= t0);
        lemma_clean_plain(t0);
        assert(piece_token(s, (a, b)) == t0);
        assert(split_rng(s, a, b, d).map_values(tokfn) =~= toks);
    } else {
        lemma_join_left(toks, sep);
        let rest = toks.drop_first();
        let jr = join_with(rest, sep);
        let e = lead_seq + (t0 + sep + jr);
        assert(s.subrange(a, b) == e);
        lemma_subrange_chars(s, a, b, e);
        assert(e.len() == lead + n0 + 2 + jr.len());
        let p = base + n0;
        assert forall|m: int| 0 <= m < n0 implies s[base + m] == t0[m] by {
            assert(s[a + (lead + m)] == e[lead + m]);
            assert(e[lead + m] == (t0 + sep + jr)[m]);
            assert((t0 + sep + jr)[m] == (t0 + sep)[m]);
            assert((t0 + sep)[m] == t0[m]);
        }
        assert(s[a + (lead + n0)] == e[lead + n0]);
        assert(e[lead + n0] == (t0 + sep + jr)[n0]);
        assert((t0 + sep + jr)[n0] == (t0 + sep)[n0]);
        assert((t0 + sep)[n0] == sep[0]);
        assert(s[p] == d);
        assert(s[a + (lead + n0 + 1)] == e[lead + n0 + 1]);
        assert(e[lead + n0 + 1] == (t0 + sep + jr)[n0 + 1]);
        assert((t0 + sep + jr)[n0 + 1] == (t0 + sep)[n0 + 1]);
        assert((t0 + sep)[n0 + 1] == sep[1]);
        assert(s[p + 1] == ' ');
        assert forall|m: int| 0 <= m < jr.len() implies s[p + 2 + m] == jr[m] by {
            assert(s[a + (lead + n0 + 2 + m)] == e[lead + n0 + 2 + m]);
            assert(e[lead + n0 + 2 + m] == (t0 + sep + jr)[n0 + 2 + m]);
            assert((t0 + sep + jr)[n0 + 2 + m] == jr[m]);
        }
        assert forall|k: int| a <= k < p implies s[k] != d by {
            let m = k - a;
            assert(s[a + m] == e[m]);
            if m >= lead {
                assert(e[m] == (t0 + sep + jr)[m - lead]);
                assert((t0 + sep + jr)[m - lead] == (t0 + sep)[m - lead]);
                assert((t0 + sep)[m - lead] == t0[m - lead]);
                assert(plain_number_char(t0[m - lead]));
            }
        }
        lemma_find_char_at(s, a, b, d, p);
        assert(split_rng(s, a, b, d) == seq![(a, p)] + split_rng(s, p + 1, b, d));
        if lead_space {
            assert(s[a + 0] == e[0]);
            assert(is_space_char(s[a]));
        }
        assert(s[base + 0] == t0[0]);
        assert(!is_space_char(s[base]));
        if lead_space {
            assert(skip_spaces(s, a, p) == skip_spaces(s, a + 1, p));
        }
        assert(skip_spaces(s, base, p) == base);
        assert(skip_spaces(s, a, p) == base);
        assert(s[base + (n0 - 1)] == t0[n0 - 1]);
        assert(!is_space_char(s[p - 1]));
        assert(rskip_spaces(s, base, p) == p);
        assert(trim_bounds(s, a, p) == (base, p));
        assert(s.subrange(base, p) =~= t0);
        lemma_clean_plain(t0);
        assert(piece_token(s, (a, p)) == t0);
        assert(s.subrange(p + 1, b) =~= seq![' '] + jr);
        assert(rest.len() >= 1);
        assert(forall|k: int| 0 <= k < rest.len() ==> (#[trigger] rest[k]).len() > 0);
        assert(forall|k: int, m: int|
            0 <= k < rest.len() && 0 <= m < rest[k].len() ==> plain_number_char(
                #[trigger] rest[k][m],
            ));
        lemma_split_join_delim(s, p + 1, b, rest, true, d);
        let rsplit = split_rng(s, p + 1, b, d);
        assert((seq![(a, p)] + rsplit).map_values(tokfn) =~= seq![tokfn((a, p))]
            + rsplit.map_values(tokfn));
        assert(seq![t0] + rest =~= toks);
        assert(split_rng(s, a, b, d).map_values(tokfn) =~= toks);
    }
}

proof fn lemma_find_space_at(s: Seq<char>, a: int, b: int, p: int)
    requires
        0 <= a <= p < b <= s.len(),
        is_space_char(s[p]),
        forall|k: int| a <= k < p ==> !is_space_char(#[trigger] s[k]),
    ensures
        find_space_in(s, a, b) == p,
{
    lemma_find_space_in(s, a, b);
}

/// Splitting a space-separated join at whitespace runs and normalizing
/// each piece recovers the joined tokens.
#[verifier::rlimit(100)]
proof fn lemma_split_ws_join(s: Seq<char>, a: int, b: int, toks: Seq<Seq<char>>, lead_space: bool)
    requires
        0 <= a <= b <= s.len(),
        toks.len() >= 1,
        forall|k: int| 0 <= k < toks.len() ==> (#[trigger] toks[k]).len() > 0,
        forall|k: int, m: int|
            0 <= k < toks.len() && 0 <= m < toks[k].len() ==> plain_number_char(
                #[trigger] toks[k][m],
            ),
        s.subrange(a, b) == (if lead_space {
            seq![' ']
        } else {
            Seq::<char>::empty()
        }) + join_with(toks, seq![' ']),
    ensures
        split_ws_rng(s, a, b).map_values(|p: (int, int)| piece_token(s, p)) == toks,
    decreases toks.len(),
{
    let sep = seq![' '];
    let lead: int = if lead_space {
        1
    } else {
        0
    };
    let t0 = toks[0];
    let n0 = t0.len() as int;
    let base = a + lead;
    let tokfn = |p: (int, int)| piece_token(s, p);
    let lead_seq: Seq<char> = if lead_space {
        seq![' ']
    } else {
        Seq::<char>::empty()
    };
    if toks.len() == 1 {
        assert(join_with(toks, sep) == t0);
        let e = lead_seq + t0;
        lemma_subrange_chars(s, a, b, e);
        assert(b - a == lead + n0);
        assert forall|m: int| 0 <= m < n0 implies s[base + m] == t0[m] by {
            assert(s[a + (lead + m)] == e[lead + m]);
            assert(e[lead + m] == t0[m]);
        }
        if lead_space {
            assert(s[a + 0] == e[0]);
            assert(is_space_char(s[a]));
            assert(skip_spaces(s, a, b) == skip_spaces(s, a + 1, b));
        }
        assert(s[base + 0] == t0[0]);
        assert(!is_space_char(s[base]));
        assert(skip_spaces(s, base, b) == base);
        assert(skip_spaces(s, a, b) == base);
        assert forall|k: int| base <= k < b implies !is_space_char(#[trigger] s[k]) by {
            assert(s[a + (k - a)] == e[k - a]);
        }
        lemma_find_space_none(s, base, b);
        assert(split_ws_rng(s, a, b) =~= seq![(base, b)] + split_ws_rng(s, b, b));
        assert(split_ws_rng(s, b, b) =~= Seq::<(int, int)>::empty());
        assert(split_ws_rng(s, a, b) =~= seq![(base, b)]);
        assert(s[base + (n0 - 1)] == t0[n0 - 1]);
        assert(!is_space_char(s[b - 1]));
        lemma_rskip_spaces_bounds(s, base, b);
        assert(rskip_spaces(s, base, b) == b);
        assert(trim_bounds(s, base, b) == (base, b));
        assert(s.subrange(base, b) =~= t0);
        lemma_clean_plain(t0);
        assert(piece_token(s, (base, b)) == t0);
        assert(split_ws_rng(s, a, b).map_values(tokfn) =~= toks);
    } else {
        lemma_join_left(toks, sep);
        let rest = toks.drop_first();
        let jr = join_with(rest, sep);
        let e = lead_seq + (t0 + sep + jr);
        assert(s.subrange(a, b) == e);
        lemma_subrange_chars(s, a, b, e);
        assert(e.len() == lead + n0 + 1 + jr.len());
        let p = base + n0;
        assert forall|m: int| 0 <= m < n0 implies s[base + m] == t0[m] by {
            assert(s[a + (lead + m)] == e[lead + m]);
            assert(e[lead + m] == (t0 + sep + jr)[m]);
            assert((t0 + sep + jr)[m] == (t0 + sep)[m]);
            assert((t0 + sep)[m] == t0[m]);
        }
        assert(s[a + (lead + n0)] == e[lead + n0]);
        assert(e[lead + n0] == (t0 + sep + jr)[n0]);
        assert((t0 + sep + jr)[n0] == (t0 + sep)[n0]);
        assert((t0 + sep)[n0] == sep[0]);
        assert(s[p] == ' ');
        assert forall|m: int| 0 <= m < jr.len() implies s[p + 1 + m] == jr[m] by {
            assert(s[a + (lead + n0 + 1 + m)] == e[lead + n0 + 1 + m]);
            assert(e[lead + n0 + 1 + m] == (t0 + sep + jr)[n0 + 1 + m]);
            assert((t0 + sep + jr)[n0 + 1 + m] == jr[m]);
        }
        if lead_space {
            assert(s[a + 0] == e[0]);
            assert(is_space_char(s[a]));
            assert(skip_spaces(s, a, b) == skip_spaces(s, a + 1, b));
        }
        assert(s[base + 0] == t0[0]);
        assert(!is_space_char(s[base]));
        assert(skip_spaces(s, base, b) == base);
        assert(skip_spaces(s, a, b) == base);
        assert forall|k: int| base <= k < p implies !is_space_char(#[trigger] s[k]) by {
            assert(s[base + (k - base)] == t0[k - base]);
        }
        lemma_find_space_at(s, base, b, p);
        assert(split_ws_rng(s, a, b) == seq![(base, p)] + split_ws_rng(s, p, b));
        assert(s[base + (n0 - 1)] == t0[n0 - 1]);
        assert(!is_space_char(s[p - 1]));
        lemma_rskip_spaces_bounds(s, base, p);
        assert(rskip_spaces(s, base, p) == p);
        assert(trim_bounds(s, base, p) == (base, p));
        assert(s.subrange(base, p) =~= t0);
        lemma_clean_plain(t0);
        assert(piece_token(s, (base, p)) == t0);
        assert(s.subrange(p, b) =~= seq![' '] + jr);
        assert(rest.len() >= 1);
        assert(forall|k: int| 0 <= k < rest.len() ==> (#[trigger] rest[k]).len() > 0);
        assert(forall|k: int, m: int|
            0 <= k < rest.len() && 0 <= m < rest[k].len() ==> plain_number_char(
                #[trigger] rest[k][m],
            ));
        lemma_split_ws_join(s, p, b, rest, true);
        let rsplit = split_ws_rng(s, p, b);
        assert((seq![(base, p)] + rsplit).map_values(tokfn) =~= seq![tokfn((base, p))]
            + rsplit.map_values(tokfn));
        assert(seq![t0] + rest =~= toks);
        assert(split_ws_rng(s, a, b).map_values(tokfn) =~= toks);
    }
}

/// Each character of a space-separated join of plain tokens is a token
/// character or a space.
proof fn lemma_join_ws_chars(toks: Seq<Seq<char>>, m: int)
    requires
        toks.len() >= 1,
        forall|k: int| 0 <= k < toks.len() ==> (#[trigger] toks[k]).len() > 0,
        forall|k: int, m2: int|
            0 <= k < toks.len() && 0 <= m2 < toks[k].len() ==> plain_number_char(
                #[trigger] toks[k][m2],
            ),
        0 <= m < join_with(toks, seq![' ']).len(),
    ensures
        plain_number_char(join_with(toks, seq![' '])[m]) || join_with(toks, seq![' '])[m] == ' ',
    decreases toks.len(),
{
    let sep = seq![' '];
    let j = join_with(toks, sep);
    if toks.len() == 1 {
        assert(j == toks[0]);
    } else {
        lemma_join_left(toks, sep);
        let t0 = toks[0];
        let n0 = t0.len() as int;
        if m < n0 {
            assert(j[m] == t0[m]);
        } else if m < n0 + 1 {
            assert(j[m] == sep[m - n0]);
        } else {
            let rest = toks.drop_first();
            assert(j[m] == join_with(rest, sep)[m - n0 - 1]);
            lemma_join_ws_chars(rest, m - n0 - 1);
        }
    }
}

/// A space-separated join of non-empty plain tokens is non-empty and
/// starts and ends with a token character.
proof fn lemma_join_ws_first_last(toks: Seq<Seq<char>>)
    requires
        toks.len() >= 1,
        forall|k: int| 0 <= k < toks.len() ==> (#[trigger] toks[k]).len() > 0,
        forall|k: int, m: int|
            0 <= k < toks.len() && 0 <= m < toks[k].len() ==> plain_number_char(
                #[trigger] toks[k][m],
            ),
    ensures
        join_with(toks, seq![' ']).len() > 0,
        plain_number_char(join_with(toks, seq![' '])[0]),
        plain_number_char(join_with(toks, seq![' ']).last()),
    decreases toks.len(),
{
    let sep = seq![' '];
    let j = join_with(toks, sep);
    if toks.len() == 1 {
        assert(j == toks[0]);
    } else {
        lemma_join_left(toks, sep);
        assert(j[0] == toks[0][0]);
        let dl = toks.drop_last();
        lemma_join_ws_first_last(dl);
        assert(j == join_with(dl, sep) + sep + toks.last());
        assert(j.last() == toks.last().last());
    }
}

/// The tokens recovered from a range holding exactly a space-separated
/// join.
proof fn lemma_inner_tokens_space(s: Seq<char>, a: int, b: int, toks: Seq<Seq<char>>)
    requires
        0 <= a <= b <= s.len(),
        toks.len() >= 1,
        forall|k: int| 0 <= k < toks.len() ==> is_number_token(#[trigger] toks[k]),
        s.subrange(a, b) == join_with(toks, seq![' ']),
    ensures
        pieces_of(s, a, b).len() == toks.len(),
        forall|m: int|
            0 <= m < toks.len() ==> piece_token(s, #[trigger] pieces_of(s, a, b)[m]) == toks[m],
        first_bad_from(s, pieces_of(s, a, b), 0) == toks.len(),
{
    let sep = seq![' '];
    let j = join_with(toks, sep);
    let tokfn = |p: (int, int)| piece_token(s, p);
    assert forall|k: int| 0 <= k < toks.len() implies (#[trigger] toks[k]).len() > 0 by {
        lemma_number_token_chars(toks[k]);
    }
    assert forall|k: int, m: int|
        0 <= k < toks.len() && 0 <= m < toks[k].len() implies plain_number_char(
        #[trigger] toks[k][m],
    ) by {
        lemma_number_token_chars(toks[k]);
    }
    lemma_subrange_chars(s, a, b, j);
    assert forall|k: int| a <= k < b implies (plain_number_char(#[trigger] s[k]) || s[k]
        == ' ') by {
        assert(s[a + (k - a)] == j[k - a]);
        lemma_join_ws_chars(toks, k - a);
    }
    assert(forall|k: int| a <= k < b ==> s[k] != ',' && s[k] != ';' && s[k] != '\t' && s[k] != '\n');
    lemma_find_char_none(s, a, b, ',');
    lemma_find_char_none(s, a, b, ';');
    lemma_find_char_none(s, a, b, '\t');
    lemma_find_char_none(s, a, b, '\n');
    assert(crate::vector::delim_of(s, a, b) == ' ');
    assert(Seq::<char>::empty() + j =~= j);
    lemma_split_ws_join(s, a, b, toks, false);
    assert(pieces_of(s, a, b) == split_ws_rng(s, a, b));
    assert(split_ws_rng(s, a, b).map_values(tokfn).len() == split_ws_rng(s, a, b).len());
    assert forall|m: int|
        0 <= m < toks.len() implies piece_token(s, #[trigger] pieces_of(s, a, b)[m]) == toks[m] by {
        assert(split_ws_rng(s, a, b).map_values(tokfn)[m] == tokfn(split_ws_rng(s, a, b)[m]));
    }
    assert forall|m: int|
        0 <= m < pieces_of(s, a, b).len() implies is_number_token(piece_token(
        s,
        #[trigger] pieces_of(s, a, b)[m],
    )) by {
        assert(piece_token(s, pieces_of(s, a, b)[m]) == toks[m]);
    }
    lemma_all_good(s, pieces_of(s, a, b), 0);
}

proof fn lemma_scan_no_brackets(s: Seq<char>, i: int, stack: Seq<(usize, char)>, pairs: Seq<
    crate::brackets::BracketPair,
>)
    requires
        0 <= i <= s.len(),
        forall|k: int| i <= k < s.len() ==> !is_bracket_char(#[trigger] s[k]),
        stack.len() == 0,
    ensures
        scan_brackets(s, i, stack, pairs) == (ScanResult::Balanced { pairs }),
    decreases s.len() - i,
{
    if i < s.len() {
        lemma_scan_no_brackets(s, i + 1, stack, pairs);
    }
}

proof fn lemma_find_open_none(s: Seq<char>, i: int, end: int)
    requires
        0 <= i <= end <= s.len(),
        forall|k: int| i <= k < end ==> !is_open_char(#[trigger] s[k]),
    ensures
        find_open_in(s, i, end) == end,
    decreases end - i,
{
    if i < end {
        lemma_find_open_none(s, i + 1, end);
    }
}

proof fn lemma_find_space_none(s: Seq<char>, i: int, end: int)
    requires
        0 <= i <= end <= s.len(),
        forall|k: int| i <= k < end ==> !is_space_char(#[trigger] s[k]),
    ensures
        find_space_in(s, i, end) == end,
{
    lemma_find_space_in(s, i, end);
    if find_space_in(s, i, end) < end {
        assert(is_space_char(s[find_space_in(s, i, end)]));
    }
}

/// Round-trip law for the bare delimiter-separated notations.
///
/// Rendering non-empty valid number tokens with a bare format — no
/// brackets, no wrapper text, the delimiter `", "`, `"; "` or `" "` — and
/// parsing the rendered text back recovers exactly the same tokens.  Via the
/// contracts of `TextFormat::format_vector` and `parse_vector`, this
/// extends to the executable functions.
pub proof fn lemma_vector_round_trip(f: SpecFormat, d: char, toks: Seq<Seq<char>>)
    requires
        toks.len() >= 1,
        forall|k: int| 0 <= k < toks.len() ==> is_number_token(#[trigger] toks[k]),
        d == ',' || d == ';' || d == ' ',
        f.prefix == Seq::<char>::empty(),
        f.suffix == Seq::<char>::empty(),
        f.open_vector == Seq::<char>::empty(),
        f.close_vector == Seq::<char>::empty(),
        f.number_delimiter == (if d == ' ' {
            seq![' ']
        } else {
            seq![d, ' ']
        }),
    ensures
        vector_accepts(spec_trim(spec_format_vector(f, toks))),
        vector_tokens(spec_trim(spec_format_vector(f, toks))) == toks,
{
    let sep: Seq<char> = if d == ' ' {
        seq![' ']
    } else {
        seq![d, ' ']
    };
    let out = spec_format_vector(f, toks);
    let j = join_with(toks, sep);
    assert(out =~= j);
    assert forall|k: int| 0 <= k < toks.len() implies (#[trigger] toks[k]).len() > 0 by {
        lemma_number_token_chars(toks[k]);
    }
    assert forall|k: int, m: int|
        0 <= k < toks.len() && 0 <= m < toks[k].len() implies plain_number_char(
        #[trigger] toks[k][m],
    ) by {
        lemma_number_token_chars(toks[k]);
    }
    let n = j.len() as int;
    if d == ' ' {
        lemma_join_ws_first_last(toks);
    } else {
        lemma_join_first_last(toks, d);
    }
    assert(n > 0);
    assert(!is_space_char(j[0]) && !is_space_char(j[n - 1]));
    // The rendered text is already trimmed.
    assert(skip_spaces(j, 0, n) == 0);
    lemma_rskip_spaces_bounds(j, 0, n);
    assert(rskip_spaces(j, 0, n) == n);
    assert(spec_trim(j) =~= j);
    let t = j;
    // No brackets anywhere, so the scan is balanced and there is no
    // bracket group at all.
    assert forall|k: int| 0 <= k < n implies !is_bracket_char(#[trigger] t[k]) by {
        if d == ' ' {
            lemma_join_ws_chars(toks, k);
        } else {
            lemma_join_chars(toks, d, k);
        }
    }
    lemma_scan_no_brackets(t, 0, Seq::empty(), Seq::empty());
    assert(spec_validate(t) is Balanced);
    lemma_find_open_none(t, 0, n);
    assert(!multiple_top_groups(t));
    assert(payload_bounds(t) == (0int, n));
    assert(vector_brackets(t) is None);
    assert(vector_inner(t) == (0int, n));
    // The whole trimmed text is the join, so the tokens come back.
    assert(t.subrange(0, n) =~= j);
    if d == ' ' {
        lemma_inner_tokens_space(t, 0, n, toks);
    } else {
        lemma_inner_tokens(t, 0, n, toks, d);
    }
    assert(vector_pieces(t) == pieces_of(t, 0, n));
    assert(vector_tokens(t).len() == toks.len());
    assert forall|m: int| 0 <= m < toks.len() implies #[trigger] vector_tokens(t)[m]
        == toks[m] by {
        assert(vector_tokens(t)[m] == piece_token(t, vector_pieces(t)[m]));
    }
    assert(vector_tokens(t) =~= toks);
    assert(vector_accepts(t));
}

/// The tokens recovered from a range holding exactly a delimiter-joined
/// rendering.
proof fn lemma_inner_tokens(s: Seq<char>, a: int, b: int, toks: Seq<Seq<char>>, d: char)
    requires
        d == ',' || d == ';',
        0 <= a <= b <= s.len(),
        toks.len() >= 1,
        forall|k: int| 0 <= k < toks.len() ==> is_number_token(#[trigger] toks[k]),
        s.subrange(a, b) == join_with(toks, seq![d, ' ']),
    ensures
        pieces_of(s, a, b).len() == toks.len(),
        forall|m: int|
            0 <= m < toks.len() ==> piece_token(s, #[trigger] pieces_of(s, a, b)[m]) == toks[m],
        first_bad_from(s, pieces_of(s, a, b), 0) == toks.len(),
{
    let sep = seq![d, ' '];
    let j = join_with(toks, sep);
    let tokfn = |p: (int, int)| piece_token(s, p);
    assert forall|k: int| 0 <= k < toks.len() implies (#[trigger] toks[k]).len() > 0 by {
        lemma_number_token_chars(toks[k]);
    }
    assert forall|k: int, m: int|
        0 <= k < toks.len() && 0 <= m < toks[k].len() implies plain_number_char(
        #[trigger] toks[k][m],
    ) by {
        lemma_number_token_chars(toks[k]);
    }
    lemma_subrange_chars(s, a, b, j);
    if toks.len() >= 2 {
        lemma_join_left(toks, sep);
        let t0 = toks[0];
        let n0 = t0.len() as int;
        let rest = toks.drop_first();
        let jr = join_with(rest, sep);
        assert(s[a + n0] == j[n0]);
        assert(j[n0] == (t0 + sep + jr)[n0]);
        assert((t0 + sep + jr)[n0] == (t0 + sep)[n0]);
        assert((t0 + sep)[n0] == sep[0]);
        assert(s[a + n0] == d);
        lemma_find_char_in(s, a, b, d);
        assert(crate::chars::contains_char(s, a, b, d));
        if d == ';' {
            assert forall|k: int| a <= k < b implies s[k] != ',' by {
                assert(s[a + (k - a)] == j[k - a]);
                lemma_join_chars(toks, d, k - a);
            }
            lemma_find_char_none(s, a, b, ',');
        }
        assert(crate::vector::delim_of(s, a, b) == d);
        assert(Seq::<char>::empty() + j =~= j);
        lemma_split_join_delim(s, a, b, toks, false, d);
        assert(pieces_of(s, a, b) == split_rng(s, a, b, d));
        assert(split_rng(s, a, b, d).map_values(tokfn).len() == split_rng(s, a, b, d).len());
        assert forall|m: int|
            0 <= m < toks.len() implies piece_token(s, #[trigger] pieces_of(s, a, b)[m])
            == toks[m] by {
            assert(split_rng(s, a, b, d).map_values(tokfn)[m] == tokfn(
                split_rng(s, a, b, d)[m],
            ));
        }
        assert forall|m: int|
            0 <= m < pieces_of(s, a, b).len() implies is_number_token(piece_token(
            s,
            #[trigger] pieces_of(s, a, b)[m],
        )) by {
            assert(piece_token(s, pieces_of(s, a, b)[m]) == toks[m]);
        }
        lemma_all_good(s, pieces_of(s, a, b), 0);
    } else {
        let t0 = toks[0];
        assert(j == t0);
        let n0 = t0.len() as int;
        assert(b - a == n0);
        assert forall|k: int| a <= k < b implies plain_number_char(#[trigger] s[k]) by {
            assert(s[a + (k - a)] == j[k - a]);
        }
        assert(forall|k: int|
            a <= k < b ==> s[k] != ',' && s[k] != ';' && s[k] != '\t' && s[k] != '\n');
        lemma_find_char_none(s, a, b, ',');
        lemma_find_char_none(s, a, b, ';');
        lemma_find_char_none(s, a, b, '\t');
        lemma_find_char_none(s, a, b, '\n');
        assert(crate::vector::delim_of(s, a, b) == ' ');
        assert(forall|k: int| a <= k < b ==> !is_space_char(#[trigger] s[k]));
        assert(s[a + 0] == j[0]);
        assert(skip_spaces(s, a, b) == a);
        lemma_find_space_none(s, a, b);
        assert(split_ws_rng(s, a, b) =~= seq![(a, b)] + split_ws_rng(s, b, b));
        assert(split_ws_rng(s, b, b) =~= Seq::<(int, int)>::empty());
        assert(split_ws_rng(s, a, b) =~= seq![(a, b)]);
        assert(pieces_of(s, a, b) == seq![(a, b)]);
        lemma_rskip_spaces_bounds(s, a, b);
        assert(rskip_spaces(s, a, b) == b);
        assert(trim_bounds(s, a, b) == (a, b));
        assert(s.subrange(a, b) =~= t0);
        lemma_clean_plain(t0);
        assert(piece_token(s, (a, b)) == t0);
        assert forall|m: int|
            0 <= m < pieces_of(s, a, b).len() implies is_number_token(piece_token(
            s,
            #[trigger] pieces_of(s, a, b)[m],
        )) by {
            assert(pieces_of(s, a, b)[m] == (a, b));
        }
        lemma_all_good(s, pieces_of(s, a, b), 0);
    }
}

/// The depth count returns to zero exactly at a final closer when the
/// middle holds no brackets.
proof fn lemma_find_close_middle(s: Seq<char>, i: int)
    requires
        1 <= i <= s.len() - 1,
        is_close_char(s[s.len() - 1]),
        forall|k: int| i <= k < s.len() - 1 ==> !is_bracket_char(#[trigger] s[k]),
    ensures
        find_close_from(s, i, 1) == s.len() - 1,
    decreases s.len() - i,
{
    if i < s.len() - 1 {
        lemma_find_close_middle(s, i + 1);
    }
}

/// Scanning past a bracket-free middle to the final closer completes the
/// one open pair.
proof fn lemma_scan_middle(s: Seq<char>, i: int, o: char)
    requires
        1 <= i <= s.len() - 1,
        is_open_char(o),
        s[0] == o,
        s[s.len() - 1] == closer_for(o),
        forall|k: int| i <= k < s.len() - 1 ==> !is_bracket_char(#[trigger] s[k]),
    ensures
        scan_brackets(s, i, seq![(0usize, o)], Seq::empty()) == (ScanResult::Balanced {
            pairs: seq![
                crate::brackets::BracketPair {
                    open_idx: 0,
                    close_idx: (s.len() - 1) as usize,
                    open: o,
                },
            ],
        }),
    decreases s.len() - i,
{
    if i < s.len() - 1 {
        lemma_scan_middle(s, i + 1, o);
    } else {
        let stack = seq![(0usize, o)];
        let pair = crate::brackets::BracketPair {
            open_idx: 0,
            close_idx: (s.len() - 1) as usize,
            open: o,
        };
        assert(stack.last() == (0usize, o));
        assert(stack.drop_last() =~= Seq::<(usize, char)>::empty());
        assert(!is_open_char(s[i]));
        assert(is_close_char(s[i]));
        assert(crate::brackets::opener_for(s[i]) == o);
        assert(Seq::<crate::brackets::BracketPair>::empty().push(pair) =~= seq![pair]);
        assert(scan_brackets(
            s,
            i + 1,
            Seq::<(usize, char)>::empty(),
            seq![pair],
        ) == (ScanResult::Balanced { pairs: seq![pair] }));
    }
}

/// Round-trip law for the bracketed delimiter-separated notations.
///
/// Rendering non-empty valid number tokens inside one bracket pair with
/// the delimiter `", "`, `"; "` or `" "` — as in `[1.0, 2.0, 3.0]` — and
/// parsing the rendered text back recovers exactly the same tokens, and
/// the detected format records the same bracket pair.
pub proof fn lemma_vector_round_trip_bracketed(
    f: SpecFormat,
    o: char,
    d: char,
    toks: Seq<Seq<char>>,
)
    requires
        toks.len() >= 1,
        forall|k: int| 0 <= k < toks.len() ==> is_number_token(#[trigger] toks[k]),
        is_open_char(o),
        d == ',' || d == ';' || d == ' ',
        f.prefix == Seq::<char>::empty(),
        f.suffix == Seq::<char>::empty(),
        f.open_vector == seq![o],
        f.close_vector == seq![closer_for(o)],
        f.number_delimiter == (if d == ' ' {
            seq![' ']
        } else {
            seq![d, ' ']
        }),
    ensures
        vector_accepts(spec_trim(spec_format_vector(f, toks))),
        vector_tokens(spec_trim(spec_format_vector(f, toks))) == toks,
        vector_brackets(spec_trim(spec_format_vector(f, toks))) == Some((o, closer_for(o))),
{
    let sep: Seq<char> = if d == ' ' {
        seq![' ']
    } else {
        seq![d, ' ']
    };
    let c = closer_for(o);
    let out = spec_format_vector(f, toks);
    let j = join_with(toks, sep);
    assert(out =~= seq![o] + j + seq![c]);
    assert forall|k: int| 0 <= k < toks.len() implies (#[trigger] toks[k]).len() > 0 by {
        lemma_number_token_chars(toks[k]);
    }
    assert forall|k: int, m: int|
        0 <= k < toks.len() && 0 <= m < toks[k].len() implies plain_number_char(
        #[trigger] toks[k][m],
    ) by {
        lemma_number_token_chars(toks[k]);
    }
    if d == ' ' {
        lemma_join_ws_first_last(toks);
    } else {
        lemma_join_first_last(toks, d);
    }
    let nj = j.len() as int;
    let n = out.len() as int;
    assert(n == nj + 2);
    assert(out[0] == o);
    assert(out[n - 1] == c);
    assert(forall|m: int| 0 <= m < nj ==> out[1 + m] == j[m]);
    assert forall|m: int| 1 <= m < n - 1 implies !is_bracket_char(#[trigger] out[m]) by {
        assert(out[m] == j[m - 1]);
        if d == ' ' {
            lemma_join_ws_chars(toks, m - 1);
        } else {
            lemma_join_chars(toks, d, m - 1);
        }
    }
    // The rendered text is already trimmed: brackets are not whitespace.
    assert(!is_space_char(out[0]));
    assert(!is_space_char(out[n - 1]));
    assert(skip_spaces(out, 0, n) == 0);
    lemma_rskip_spaces_bounds(out, 0, n);
    assert(rskip_spaces(out, 0, n) == n);
    assert(spec_trim(out) =~= out);
    let t = out;
    // The scan opens the bracket, skips the bracket-free middle, and
    // closes it at the end.
    lemma_scan_middle(t, 1, o);
    assert(spec_validate(t) is Balanced);
    // One top-level group only.
    assert(find_open_in(t, 0, n) == 0);
    lemma_find_close_middle(t, 1);
    assert(crate::brackets::match_of(t, 0) == n - 1);
    lemma_find_open_none(t, n, n);
    assert(find_open_in(t, n, n) == n);
    assert(!multiple_top_groups(t));
    // The payload is the whole bracket group.
    assert(t[1] == j[0]);
    assert(!is_space_char(t[1]));
    assert(skip_spaces(t, 1, n - 1) == 1);
    assert(t[1 + (nj - 1)] == j[nj - 1]);
    assert(!is_space_char(t[n - 2]));
    lemma_rskip_spaces_bounds(t, 1, n - 1);
    assert(rskip_spaces(t, 1, n - 1) == n - 1);
    assert(trim_bounds(t, 1, n - 1) == (1int, n - 1));
    assert(!is_open_char(t[1])) by {
        if d == ' ' {
            lemma_join_ws_chars(toks, 0);
        } else {
            lemma_join_chars(toks, d, 0);
        }
    }
    assert(crate::wrapper::descend_wrapper(t, 0, n - 1) == (0int, n));
    assert(payload_bounds(t) == (0int, n));
    assert(vector_brackets(t) == Some((o, c)));
    assert(vector_inner(t) == (1int, n - 1));
    // The interior is exactly the join, so the tokens come back.
    assert(t.subrange(1, n - 1) =~= j);
    if d == ' ' {
        lemma_inner_tokens_space(t, 1, n - 1, toks);
    } else {
        lemma_inner_tokens(t, 1, n - 1, toks, d);
    }
    assert(vector_pieces(t) == pieces_of(t, 1, n - 1));
    assert(vector_tokens(t).len() == toks.len());
    assert forall|m: int| 0 <= m < toks.len() implies #[trigger] vector_tokens(t)[m]
        == toks[m] by {
        assert(vector_tokens(t)[m] == piece_token(t, vector_pieces(t)[m]));
    }
    assert(vector_tokens(t) =~= toks);
    assert(vector_accepts(t));
}

/// Each character of a join of plain tokens is a token character, the
/// delimiter or a space.
proof fn lemma_join_chars(toks: Seq<Seq<char>>, d: char, m: int)
    requires
        toks.len() >= 1,
        forall|k: int| 0 <= k < toks.len() ==> (#[trigger] toks[k]).len() > 0,
        forall|k: int, m2: int|
            0 <= k < toks.len() && 0 <= m2 < toks[k].len() ==> plain_number_char(
                #[trigger] toks[k][m2],
            ),
        0 <= m < join_with(toks, seq![d, ' ']).len(),
    ensures
        plain_number_char(join_with(toks, seq![d, ' '])[m]) || join_with(
            toks,
            seq![d, ' '],
        )[m] == d || join_with(toks, seq![d, ' '])[m] == ' ',
    decreases toks.len(),
{
    let sep = seq![d, ' '];
    let j = join_with(toks, sep);
    if toks.len() == 1 {
        assert(j == toks[0]);
    } else {
        lemma_join_left(toks, sep);
        let t0 = toks[0];
        let n0 = t0.len() as int;
        if m < n0 {
            assert(j[m] == t0[m]);
        } else if m < n0 + 2 {
            assert(j[m] == sep[m - n0]);
        } else {
            let rest = toks.drop_first();
            assert(j[m] == join_with(rest, sep)[m - n0 - 2]);
            lemma_join_chars(rest, d, m - n0 - 2);
        }
    }
}

/// A join of non-empty plain tokens is non-empty and starts and ends
/// with a token character.
proof fn lemma_join_first_last(toks: Seq<Seq<char>>, d: char)
    requires
        toks.len() >= 1,
        forall|k: int| 0 <= k < toks.len() ==> (#[trigger] toks[k]).len() > 0,
        forall|k: int, m: int|
            0 <= k < toks.len() && 0 <= m < toks[k].len() ==> plain_number_char(
                #[trigger] toks[k][m],
            ),
    ensures
        join_with(toks, seq![d, ' ']).len() > 0,
        plain_number_char(join_with(toks, seq![d, ' '])[0]),
        plain_number_char(join_with(toks, seq![d, ' ']).last()),
    decreases toks.len(),
{
    let sep = seq![d, ' '];
    let j = join_with(toks, sep);
    if toks.len() == 1 {
        assert(j == toks[0]);
    } else {
        lemma_join_left(toks, sep);
        assert(j[0] == toks[0][0]);
        let dl = toks.drop_last();
        lemma_join_first_last(dl, d);
        assert(j == join_with(dl, sep) + sep + toks.last());
        assert(j.last() == toks.last().last());
    }
}

} // verus!

//! Validation and normalization of a single numeric token.
//!
//! A token is accepted when, after dropping a Rust float type suffix
//! (`f32`/`f64`) and Rust digit separators (`_`), it matches the decimal
//! grammar `sign? (digits ['.' digits?] | '.' digits) [('e'|'E') sign? digits]`.
//! Every accepted token is also a valid input to an IEEE-754 string
//! conversion, which the caller performs outside this crate.

use vstd::prelude::*;

verus! {

/// Decimal digit test.
pub open spec fn is_digit_char(c: char) -> bool {
    '0' <= c && c <= '9'
}

/// States of the number-literal automaton.
///
/// `Start`: nothing read; `Sign`: leading sign read; `IntDigits`: at least
/// one integer digit read; `DotOnly`: a leading `.` with no digit yet;
/// `Frac`: digits read and a `.` seen (accepting); `Exp`: `e`/`E` read;
/// `ExpSign`: exponent sign read; `ExpDigits`: at least one exponent digit
/// read (accepting); `Reject`: dead state.
#[derive(Clone, Copy, Debug, PartialEq, Eq, Structural)]
pub enum NumState {
    Start,
    Sign,
    IntDigits,
    DotOnly,
    Frac,
    Exp,
    ExpSign,
    ExpDigits,
    Reject,
}

/// One automaton transition.
pub open spec fn num_step(st: NumState, c: char) -> NumState {
    match st {
        NumState::Start => if c == '+' || c == '-' {
            NumState::Sign
        } else if is_digit_char(c) {
            NumState::IntDigits
        } else if c == '.' {
            NumState::DotOnly
        } else {
            NumState::Reject
        },
        NumState::Sign => if is_digit_char(c) {
            NumState::IntDigits
        } else if c == '.' {
            NumState::DotOnly
        } else {
            NumState::Reject
        },
        NumState::IntDigits => if is_digit_char(c) {
            NumState::IntDigits
        } else if c == '.' {
            NumState::Frac
        } else if c == 'e' || c == 'E' {
            NumState::Exp
        } else {
            NumState::Reject
        },
        NumState::DotOnly => if is_digit_char(c) {
            NumState::Frac
        } else {
            NumState::Reject
        },
        NumState::Frac => if is_digit_char(c) {
            NumState::Frac
        } else if c == 'e' || c == 'E' {
            NumState::Exp
        } else {
            NumState::Reject
        },
        NumState::Exp => if c == '+' || c == '-' {
            NumState::ExpSign
        } else if is_digit_char(c) {
            NumState::ExpDigits
        } else {
            NumState::Reject
        },
        NumState::ExpSign => if is_digit_char(c) {
            NumState::ExpDigits
        } else {
            NumState::Reject
        },
        NumState::ExpDigits => if is_digit_char(c) {
            NumState::ExpDigits
        } else {
            NumState::Reject
        },
        NumState::Reject => NumState::Reject,
    }
}

/// Run the automaton over `s[i..]` starting in `st`.
pub open spec fn num_run(s: Seq<char>, i: int, st: NumState) -> NumState
    decreases s.len() - i,
{
    if i < 0 || i >= s.len() {
        st
    } else {
        num_run(s, i + 1, num_step(st, s[i]))
    }
}

/// The automaton's accepting states.
pub open spec fn num_accepting(st: NumState) -> bool {
    st == NumState::IntDigits || st == NumState::Frac || st == NumState::ExpDigits
}

/// Whether a cleaned token is a decimal number literal.
pub open spec fn is_number_token(s: Seq<char>) -> bool {
    num_accepting(num_run(s, 0, NumState::Start))
}

/// A token with a trailing Rust float type suffix removed.
pub open spec fn strip_float_suffix(s: Seq<char>) -> Seq<char> {
    let n = s.len() as int;
    if n >= 3 && s[n - 3] == 'f' && ((s[n - 2] == '3' && s[n - 1] == '2') || (s[n - 2] == '6'
        && s[n - 1] == '4')) {
        s.take(n - 3)
    } else {
        s
    }
}

/// A token with every underscore digit separator removed.
pub open spec fn remove_underscores(s: Seq<char>) -> Seq<char> {
    s.filter(|c: char| c != '_')
}

/// The normal form of a raw token: suffix dropped, separators removed.
pub open spec fn clean_token(s: Seq<char>) -> Seq<char> {
    remove_underscores(strip_float_suffix(s))
}

/// Normalize a raw token: drop one `f32`/`f64` suffix, drop underscores.
pub fn clean_number_token(v: &Vec<char>) -> (r: Vec<char>)
    ensures
        r@ == clean_token(v@),
{
    let n = v.len();
    let ghost t = strip_float_suffix(v@);
    let stripped_len: usize = if n >= 3 && v[n - 3] == 'f' && ((v[n - 2] == '3' && v[n - 1]
        == '2') || (v[n - 2] == '6' && v[n - 1] == '4')) {
        n - 3
    } else {
        proof {
            assert(v@.take(n as int) =~= v@);
        }
        n
    };
    assert(t == v@.take(stripped_len as int));
    let mut r: Vec<char> = Vec::new();
    let mut i: usize = 0;
    while i < stripped_len
        invariant
            i <= stripped_len <= v@.len(),
            t == strip_float_suffix(v@),
            t == v@.take(stripped_len as int),
            r@ == t.take(i as int).filter(|c: char| c != '_'),
        decreases stripped_len - i,
    {
        proof {
            reveal(Seq::filter);
            assert(t.take(i as int + 1).drop_last() =~= t.take(i as int));
            assert(t.take(i as int + 1).last() == t[i as int]);
            assert(t[i as int] == v@[i as int]);
        }
        if v[i] != '_' {
            r.push(v[i]);
        }
        i = i + 1;
    }
    proof {
        reveal(Seq::filter);
        assert(t.take(stripped_len as int) =~= t);
    }
    r
}

/// Decide whether a cleaned token matches the number grammar.
pub fn check_number_token(v: &Vec<char>) -> (r: bool)
    ensures
        r == is_number_token(v@),
{
    let ghost s = v@;
    let mut st = NumState::Start;
    let mut i: usize = 0;
    while i < v.len()
        invariant
            i <= v@.len(),
            v@ == s,
            num_run(s, 0, NumState::Start) == num_run(s, i as int, st),
        decreases v@.len() - i,
    {
        let c = v[i];
        st = match st {
            NumState::Start => if c == '+' || c == '-' {
                NumState::Sign
            } else if '0' <= c && c <= '9' {
                NumState::IntDigits
            } else if c == '.' {
                NumState::DotOnly
            } else {
                NumState::Reject
            },
            NumState::Sign => if '0' <= c && c <= '9' {
                NumState::IntDigits
            } else if c == '.' {
                NumState::DotOnly
            } else {
                NumState::Reject
            },
            NumState::IntDigits => if '0' <= c && c <= '9' {
                NumState::IntDigits
            } else if c == '.' {
                NumState::Frac
            } else if c == 'e' || c == 'E' {
                NumState::Exp
            } else {
                NumState::Reject
            },
            NumState::DotOnly => if '0' <= c && c <= '9' {
                NumState::Frac
            } else {
                NumState::Reject
            },
            NumState::Frac => if '0' <= c && c <= '9' {
                NumState::Frac
            } else if c == 'e' || c == 'E' {
                NumState::Exp
            } else {
                NumState::Reject
            },
            NumState::Exp => if c == '+' || c == '-' {
                NumState::ExpSign
            } else if '0' <= c && c <= '9' {
                NumState::ExpDigits
            } else {
                NumState::Reject
            },
            NumState::ExpSign => if '0' <= c && c <= '9' {
                NumState::ExpDigits
            } else {
                NumState::Reject
            },
            NumState::ExpDigits => if '0' <= c && c <= '9' {
                NumState::ExpDigits
            } else {
                NumState::Reject
            },
            NumState::Reject => NumState::Reject,
        };
        i = i + 1;
    }
    match st {
        NumState::IntDigits => true,
        NumState::Frac => true,
        NumState::ExpDigits => true,
        _ => false,
    }
}

} // verus!

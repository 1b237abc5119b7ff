//! The error taxonomy shared by the vector and matrix parsers.

use vstd::prelude::*;

verus! {

/// Why a piece of rotation text was rejected.
///
/// Every parser in this crate reports failure through this type; nothing is
/// silently coerced (a wrong-count vector is never truncated or padded) and
/// no parsing path panics.  Bracket positions are character indices into the
/// trimmed input.
#[derive(Debug, Clone)]
pub enum ParseError {
    /// The input was empty or contained only whitespace.
    EmptyInput,
    /// No numeric tokens were found in the payload.
    NoNumbersFound,
    /// An opening bracket was never closed.
    UnclosedBracket { open: char, pos: usize },
    /// A closing bracket appeared with no bracket open.
    UnexpectedClose { close: char, pos: usize },
    /// A closing bracket did not match the most recently opened bracket.
    MismatchedClose { opened: char, closed: char, pos: usize },
    /// More than one top-level bracket group in a single vector input.
    MultipleVectorsFound,
    /// The vector (or matrix row list) held the wrong number of entries.
    WrongCount { expected: usize, actual: usize },
    /// One matrix row held the wrong number of entries.
    WrongColumnCount { row: usize, expected: usize, actual: usize },
    /// Matrix rows were bracketed with more than one bracket type.
    InconsistentRowBrackets,
    /// A token was not a valid decimal number literal.
    NumberParseFailure { token: String },
    /// A quaternion with all four components zero cannot be normalized.
    ZeroNormQuaternion,
    /// A zero rotation axis is only allowed together with a zero angle.
    ZeroNormAxis,
}

impl ParseError {
    /// A short, stable phrase describing the error kind.
    pub fn message(&self) -> (r: &'static str)
        ensures
            r@ == self.message_spec(),
    {
        match self {
            ParseError::EmptyInput => "Empty input",
            ParseError::NoNumbersFound => "No numbers found",
            ParseError::UnclosedBracket { .. } => "Unclosed bracket",
            ParseError::UnexpectedClose { .. } => "Unexpected closing bracket",
            ParseError::MismatchedClose { .. } => "Mismatched brackets",
            ParseError::MultipleVectorsFound => "Multiple vectors found",
            ParseError::WrongCount { .. } => "Wrong number of values",
            ParseError::WrongColumnCount { .. } => "Wrong number of values in row",
            ParseError::InconsistentRowBrackets => "Inconsistent row bracket types",
            ParseError::NumberParseFailure { .. } => "Failed to parse number",
            ParseError::ZeroNormQuaternion => "Quaternion is zero",
            ParseError::ZeroNormAxis => "Axis norm cannot be zero unless angle is zero",
        }
    }

    /// The phrase [`Self::message`] returns for each variant.
    pub open spec fn message_spec(&self) -> Seq<char> {
        match self {
            ParseError::EmptyInput => "Empty input"@,
            ParseError::NoNumbersFound => "No numbers found"@,
            ParseError::UnclosedBracket { .. } => "Unclosed bracket"@,
            ParseError::UnexpectedClose { .. } => "Unexpected closing bracket"@,
            ParseError::MismatchedClose { .. } => "Mismatched brackets"@,
            ParseError::MultipleVectorsFound => "Multiple vectors found"@,
            ParseError::WrongCount { .. } => "Wrong number of values"@,
            ParseError::WrongColumnCount { .. } => "Wrong number of values in row"@,
            ParseError::InconsistentRowBrackets => "Inconsistent row bracket types"@,
            ParseError::NumberParseFailure { .. } => "Failed to parse number"@,
            ParseError::ZeroNormQuaternion => "Quaternion is zero"@,
            ParseError::ZeroNormAxis => "Axis norm cannot be zero unless angle is zero"@,
        }
    }
}

} // verus!

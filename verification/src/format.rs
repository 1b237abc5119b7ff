//! The detected text notation of a vector or matrix, and the formatter that
//! renders numbers back in that notation.

use vstd::prelude::*;
use vstd::string::*;

verus! {

/// The notation detected from user input: delimiter and bracket scheme for
/// vectors and matrices, plus any call-style wrapper text around the payload.
///
/// Captured once per successful parse and handed back to
/// [`TextFormat::format_vector`] / [`TextFormat::format_matrix`] so output
/// text matches the user's original style.
#[derive(Debug, Clone, PartialEq)]
pub struct TextFormat {
    /// Delimiter between numbers within a row or vector, e.g. `", "` or `","`.
    pub number_delimiter: String,
    /// Opening bracket of each row or vector, e.g. `"["`, or empty.
    pub open_vector: String,
    /// Closing bracket of each row or vector, e.g. `"]"`, or empty.
    pub close_vector: String,
    /// Delimiter between the rows of a matrix, e.g. `", "` or `"; "`.
    pub vector_delimiter: String,
    /// Opening bracket of a whole matrix, or empty.
    pub open_matrix: String,
    /// Closing bracket of a whole matrix, or empty.
    pub close_matrix: String,
    /// Wrapper text before the payload, e.g. `"np.array("`, or empty.
    pub prefix: String,
    /// Wrapper text after the payload, e.g. `")"`, or empty.
    pub suffix: String,
}

/// The mathematical value of a [`TextFormat`]: each field as a character
/// sequence.
pub struct SpecFormat {
    pub number_delimiter: Seq<char>,
    pub open_vector: Seq<char>,
    pub close_vector: Seq<char>,
    pub vector_delimiter: Seq<char>,
    pub open_matrix: Seq<char>,
    pub close_matrix: Seq<char>,
    pub prefix: Seq<char>,
    pub suffix: Seq<char>,
}

impl View for TextFormat {
    type V = SpecFormat;

    open spec fn view(&self) -> SpecFormat {
        SpecFormat {
            number_delimiter: self.number_delimiter@,
            open_vector: self.open_vector@,
            close_vector: self.close_vector@,
            vector_delimiter: self.vector_delimiter@,
            open_matrix: self.open_matrix@,
            close_matrix: self.close_matrix@,
            prefix: self.prefix@,
            suffix: self.suffix@,
        }
    }
}

impl Default for TextFormat {
    /// The conventional style: `[1.0, 2.0, 3.0]` rows inside `[...]` matrices.
    fn default() -> (r: Self)
        ensures
            r@.number_delimiter == ", "@,
            r@.open_vector == "["@,
            r@.close_vector == "]"@,
            r@.vector_delimiter == ", "@,
            r@.open_matrix == "["@,
            r@.close_matrix == "]"@,
            r@.prefix == ""@,
            r@.suffix == ""@,
    {
        proof {
            reveal_strlit("");
            assert(""@ =~= Seq::<char>::empty());
        }
        TextFormat {
            number_delimiter: String::from_str(", "),
            open_vector: String::from_str("["),
            close_vector: String::from_str("]"),
            vector_delimiter: String::from_str(", "),
            open_matrix: String::from_str("["),
            close_matrix: String::from_str("]"),
            prefix: String::new(),
            suffix: String::new(),
        }
    }
}

/// `parts` joined by the delimiter `d`.
pub open spec fn join_with(parts: Seq<Seq<char>>, d: Seq<char>) -> Seq<char>
    decreases parts.len(),
{
    if parts.len() == 0 {
        Seq::empty()
    } else if parts.len() == 1 {
        parts[0]
    } else {
        join_with(parts.drop_last(), d) + d + parts.last()
    }
}

/// A vector rendered in format `f`: prefix, bracket, joined tokens, bracket,
/// suffix.
pub open spec fn spec_format_vector(f: SpecFormat, toks: Seq<Seq<char>>) -> Seq<char> {
    f.prefix + f.open_vector + join_with(toks, f.number_delimiter) + f.close_vector + f.suffix
}

/// One matrix row rendered in format `f` (no wrapper text on rows).
pub open spec fn spec_format_row(f: SpecFormat, row: Seq<Seq<char>>) -> Seq<char> {
    f.open_vector + join_with(row, f.number_delimiter) + f.close_vector
}

/// A matrix rendered in format `f`: rows rendered individually, joined by
/// the row delimiter, wrapped in the matrix brackets and the wrapper text.
pub open spec fn spec_format_matrix(f: SpecFormat, rows: Seq<Seq<Seq<char>>>) -> Seq<char> {
    f.prefix + f.open_matrix + join_with(
        rows.map_values(|row: Seq<Seq<char>>| spec_format_row(f, row)),
        f.vector_delimiter,
    ) + f.close_matrix + f.suffix
}

impl TextFormat {
    /// Render number tokens as one vector in this format.
    ///
    /// Joins the tokens with `number_delimiter`, wraps them in
    /// `open_vector`/`close_vector` and reattaches `prefix`/`suffix`
    /// verbatim.
    pub fn format_vector(&self, values: &Vec<String>) -> (r: String)
        ensures
            r@ == spec_format_vector(self@, values.deep_view()),
    {
        let ghost toks = values.deep_view();
        let mut out = String::new();
        out.append(self.prefix.as_str());
        out.append(self.open_vector.as_str());
        let mut i: usize = 0;
        while i < values.len()
            invariant
                i <= values@.len(),
                toks == values.deep_view(),
                toks.len() == values@.len(),
                forall|k: int| 0 <= k < toks.len() ==> toks[k] == values@[k]@,
                out@ == self.prefix@ + self.open_vector@ + join_with(
                    toks.take(i as int),
                    self.number_delimiter@,
                ),
            decreases values@.len() - i,
        {
            if i > 0 {
                out.append(self.number_delimiter.as_str());
            }
            out.append(values[i].as_str());
            proof {
                assert(toks.take(i as int + 1).drop_last() =~= toks.take(i as int));
                assert(toks.take(i as int + 1).last() == toks[i as int]);
                if i == 0 {
                    assert(out@ =~= self.prefix@ + self.open_vector@ + join_with(
                        toks.take(1),
                        self.number_delimiter@,
                    ));
                } else {
                    assert(out@ =~= self.prefix@ + self.open_vector@ + join_with(
                        toks.take(i as int + 1),
                        self.number_delimiter@,
                    ));
                }
            }
            i = i + 1;
        }
        out.append(self.close_vector.as_str());
        out.append(self.suffix.as_str());
        proof {
            assert(toks.take(toks.len() as int) =~= toks);
            assert(out@ =~= spec_format_vector(self@, toks));
        }
        out
    }

    /// Render one row: tokens joined by `number_delimiter` inside the row
    /// brackets, with no wrapper text.
    fn format_row(&self, row: &Vec<String>) -> (r: String)
        ensures
            r@ == spec_format_row(self@, row.deep_view()),
    {
        let ghost toks = row.deep_view();
        let mut out = String::new();
        out.append(self.open_vector.as_str());
        let mut i: usize = 0;
        while i < row.len()
            invariant
                i <= row@.len(),
                toks == row.deep_view(),
                toks.len() == row@.len(),
                forall|k: int| 0 <= k < toks.len() ==> toks[k] == row@[k]@,
                out@ == self.open_vector@ + join_with(toks.take(i as int), self.number_delimiter@),
            decreases row@.len() - i,
        {
            if i > 0 {
                out.append(self.number_delimiter.as_str());
            }
            out.append(row[i].as_str());
            proof {
                assert(toks.take(i as int + 1).drop_last() =~= toks.take(i as int));
                assert(toks.take(i as int + 1).last() == toks[i as int]);
                assert(out@ =~= self.open_vector@ + join_with(
                    toks.take(i as int + 1),
                    self.number_delimiter@,
                ));
            }
            i = i + 1;
        }
        out.append(self.close_vector.as_str());
        proof {
            assert(toks.take(toks.len() as int) =~= toks);
        }
        out
    }

    /// Render rows of number tokens as one matrix in this format.
    ///
    /// Each row is rendered as a bracketed vector, rows are joined by
    /// `vector_delimiter`, and the whole is wrapped in
    /// `open_matrix`/`close_matrix` with `prefix`/`suffix` reattached.
    pub fn format_matrix(&self, rows: &Vec<Vec<String>>) -> (r: String)
        ensures
            r@ == spec_format_matrix(self@, rows.deep_view()),
    {
        let ghost rs = rows.deep_view();
        let ghost mapped = rs.map_values(|row: Seq<Seq<char>>| spec_format_row(self@, row));
        let mut out = String::new();
        out.append(self.prefix.as_str());
        out.append(self.open_matrix.as_str());
        let mut i: usize = 0;
        while i < rows.len()
            invariant
                i <= rows@.len(),
                rs == rows.deep_view(),
                rs.len() == rows@.len(),
                mapped == rs.map_values(|row: Seq<Seq<char>>| spec_format_row(self@, row)),
                forall|k: int| 0 <= k < rs.len() ==> rs[k] == rows@[k].deep_view(),
                out@ == self.prefix@ + self.open_matrix@ + join_with(
                    mapped.take(i as int),
                    self.vector_delimiter@,
                ),
            decreases rows@.len() - i,
        {
            if i > 0 {
                out.append(self.vector_delimiter.as_str());
            }
            let row_str = self.format_row(&rows[i]);
            out.append(row_str.as_str());
            proof {
                assert(mapped.take(i as int + 1).drop_last() =~= mapped.take(i as int));
                assert(mapped.take(i as int + 1).last() == mapped[i as int]);
                assert(mapped[i as int] == spec_format_row(self@, rs[i as int]));
                assert(out@ =~= self.prefix@ + self.open_matrix@ + join_with(
                    mapped.take(i as int + 1),
                    self.vector_delimiter@,
                ));
            }
            i = i + 1;
        }
        out.append(self.close_matrix.as_str());
        out.append(self.suffix.as_str());
        proof {
            assert(mapped.take(mapped.len() as int) =~= mapped);
            assert(out@ =~= spec_format_matrix(self@, rs));
        }
        out
    }
}

/// Quaternion component ordering convention used when four parsed numbers
/// are interpreted as a quaternion.
#[derive(Debug, Clone, Copy, PartialEq, Eq, Structural)]
pub enum QuaternionOrder {
    /// x, y, z, w (common in robotics frameworks).
    XYZW,
    /// w, x, y, z (common in mathematics libraries).
    WXYZ,
}

} // verus!

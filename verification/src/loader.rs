//! Assembling validated matrix rows from text.
//!
//! The text is split on newlines into lines and each line on commas into
//! tokens. Every token must be a floating-point literal and every line must
//! have as many tokens as the first line; the first failure, in line order,
//! decides the error. On success the tokens are returned as a rectangular
//! matrix, in row-major input order.

use vstd::prelude::*;

use crate::LoadError;
use crate::grammar::is_float_literal;
use crate::grammar::is_float_token;
use crate::text::lemma_split_seq_len;
use crate::text::split_seq;
use crate::text::split_str;
use crate::text::trim_spec;
use crate::text::trim_str;
use crate::text::views_of;

verus! {

/// The tokens of one line: the line split on commas. Every line has at
/// least one token.
pub open spec fn row_tokens(line: Seq<char>) -> Seq<Seq<char>> {
    split_seq(line, ',')
}

/// Every token of the line is a floating-point literal.
pub open spec fn row_valid(line: Seq<char>) -> bool {
    forall|i: int|
        0 <= i < row_tokens(line).len() ==> is_float_literal(#[trigger] row_tokens(line)[i])
}

/// The lines of the text: the text split on newlines.
pub open spec fn text_lines(text: Seq<char>) -> Seq<Seq<char>> {
    split_seq(text, '\n')
}

/// The outcome of validating `lines` against the column count `cols`, in
/// order: the lines' tokens as matrix rows, or the first error. A line with
/// a token that is not a literal fails with `TokenParseError`; a line with a
/// token count other than `cols` fails with `RaggedMatrix`; on one line the
/// token check comes first.
pub open spec fn check_rows(lines: Seq<Seq<char>>, cols: nat) -> Result<
    Seq<Seq<Seq<char>>>,
    LoadError,
>
    decreases lines.len(),
{
    if lines.len() == 0 {
        Ok(Seq::empty())
    } else if !row_valid(lines[0]) {
        Err(LoadError::TokenParseError)
    } else if row_tokens(lines[0]).len() != cols {
        Err(LoadError::RaggedMatrix)
    } else {
        match check_rows(lines.skip(1), cols) {
            Ok(rest) => Ok(seq![row_tokens(lines[0])] + rest),
            Err(e) => Err(e),
        }
    }
}

/// The outcome of parsing a whole (already trimmed) text: `EmptyInput` for
/// the empty text, otherwise the lines validated in order against the first
/// line's token count.
pub open spec fn fill_spec(text: Seq<char>) -> Result<Seq<Seq<Seq<char>>>, LoadError> {
    if text.len() == 0 {
        Err(LoadError::EmptyInput)
    } else {
        check_rows(text_lines(text), row_tokens(text_lines(text)[0]).len())
    }
}

/// The outcome of loading raw text: the text is trimmed of leading and
/// trailing whitespace, then parsed as `fill_spec` describes.
pub open spec fn load_spec(raw: Seq<char>) -> Result<Seq<Seq<Seq<char>>>, LoadError> {
    fill_spec(trim_spec(raw))
}

/// The views of a row's tokens: each token as its characters.
pub open spec fn token_views(row: Seq<String>) -> Seq<Seq<char>> {
    row.map_values(|t: String| t@)
}

/// The views of a matrix's rows.
pub open spec fn matrix_view(rows: Seq<Vec<String>>) -> Seq<Seq<Seq<char>>> {
    rows.map_values(|r: Vec<String>| token_views(r@))
}

/// Appending a token to a row appends its view to the row's views.
pub proof fn lemma_token_views_push(row: Seq<String>, t: String)
    ensures
        token_views(row.push(t)) == token_views(row).push(t@),
{
    assert(token_views(row.push(t)) =~= token_views(row).push(t@));
}

/// Appending a row to a matrix appends its views to the matrix's views.
pub proof fn lemma_matrix_view_push(rows: Seq<Vec<String>>, r: Vec<String>)
    ensures
        matrix_view(rows.push(r)) == matrix_view(rows).push(token_views(r@)),
{
    assert(matrix_view(rows.push(r)) =~= matrix_view(rows).push(token_views(r@)));
}

/// A well-formed matrix: at least one row, at least one column, every row
/// of the same width, and every cell a floating-point literal.
pub open spec fn matrix_wf(m: Seq<Seq<Seq<char>>>) -> bool {
    &&& m.len() >= 1
    &&& m[0].len() >= 1
    &&& (forall|i: int| 0 <= i < m.len() ==> (#[trigger] m[i]).len() == m[0].len())
    &&& (forall|i: int, j: int|
        0 <= i < m.len() && 0 <= j < m[i].len() ==> is_float_literal(#[trigger] m[i][j]))
}

/// A rectangular matrix of validated cell tokens, in row-major input order.
/// Its view is the sequence of rows, each row the sequence of its tokens'
/// characters.
pub struct Matrix {
    rows: Vec<Vec<String>>,
}

impl View for Matrix {
    type V = Seq<Seq<Seq<char>>>;

    closed spec fn view(&self) -> Seq<Seq<Seq<char>>> {
        matrix_view(self.rows@)
    }
}

impl Matrix {
    /// The number of rows.
    pub fn num_rows(&self) -> (n: usize)
        ensures
            n == self@.len(),
    {
        self.rows.len()
    }

    /// The number of columns, read off the first row.
    pub fn num_cols(&self) -> (n: usize)
        requires
            self@.len() > 0,
        ensures
            n == self@[0].len(),
    {
        self.rows[0].len()
    }

    /// The validated token at row `i`, column `j`.
    pub fn token(&self, i: usize, j: usize) -> (t: &String)
        requires
            i < self@.len(),
            j < self@[i as int].len(),
        ensures
            t@ == self@[i as int][j as int],
    {
        &self.rows[i][j]
    }
}

/// A successful validation returns exactly the lines' tokens: one row per
/// line, each of width `cols`, with every token a literal.
pub proof fn lemma_check_rows_ok(lines: Seq<Seq<char>>, cols: nat, rows: Seq<Seq<Seq<char>>>)
    requires
        check_rows(lines, cols) == Ok::<Seq<Seq<Seq<char>>>, LoadError>(rows),
    ensures
        rows.len() == lines.len(),
        forall|i: int| 0 <= i < lines.len() ==> #[trigger] rows[i] == row_tokens(lines[i]),
        forall|i: int| 0 <= i < lines.len() ==> row_valid(#[trigger] lines[i]),
        forall|i: int| 0 <= i < lines.len() ==> (#[trigger] rows[i]).len() == cols,
    decreases lines.len(),
{
    if lines.len() == 0 {
    } else {
        match check_rows(lines.skip(1), cols) {
            Ok(rest) => {
                lemma_check_rows_ok(lines.skip(1), cols, rest);
                assert forall|i: int| 0 <= i < lines.len() implies #[trigger] rows[i]
                    == row_tokens(lines[i]) by {
                    if i > 0 {
                        assert(rest[i - 1] == row_tokens(lines.skip(1)[i - 1]));
                        assert(lines.skip(1)[i - 1] == lines[i]);
                    }
                }
                assert forall|i: int| 0 <= i < lines.len() implies row_valid(
                    #[trigger] lines[i],
                ) by {
                    if i > 0 {
                        assert(row_valid(lines.skip(1)[i - 1]));
                    }
                }
            },
            Err(_) => {},
        }
    }
}

/// Parses one line into its comma-separated tokens, validating each.
/// Returns the tokens exactly when every token is a floating-point literal,
/// and `TokenParseError` otherwise.
pub fn parse_row(row: &str) -> (r: Result<Vec<String>, LoadError>)
    ensures
        match r {
            Ok(toks) => row_valid(row@) && token_views(toks@) == row_tokens(row@),
            Err(e) => e == LoadError::TokenParseError && !row_valid(row@),
        },
{
    let pieces = split_str(row, ',');
    let n = pieces.len();
    let mut toks: Vec<String> = Vec::new();
    proof {
        assert(views_of(pieces@).len() == pieces@.len());
        assert(token_views(toks@) =~= row_tokens(row@).take(0));
    }
    let mut i: usize = 0;
    while i < n
        invariant
            0 <= i <= n,
            n == pieces@.len(),
            views_of(pieces@) == row_tokens(row@),
            forall|k: int| 0 <= k < i ==> is_float_literal(#[trigger] row_tokens(row@)[k]),
            token_views(toks@) == row_tokens(row@).take(i as int),
        decreases n - i,
    {
        let piece = pieces[i];
        proof {
            assert(views_of(pieces@)[i as int] == piece@);
        }
        if !is_float_token(piece) {
            proof {
                assert(!is_float_literal(row_tokens(row@)[i as int]));
            }
            return Err(LoadError::TokenParseError);
        }
        let owned = piece.to_owned();
        proof {
            lemma_token_views_push(toks@, owned);
            assert(token_views(toks@).push(owned@) =~= row_tokens(row@).take(i + 1));
        }
        toks.push(owned);
        i = i + 1;
    }
    proof {
        assert(row_tokens(row@).take(n as int) =~= row_tokens(row@));
    }
    Ok(toks)
}

/// Parses a whole (already trimmed) text into a matrix, as `fill_spec`
/// describes: `EmptyInput` on the empty text, `TokenParseError` on the
/// first line with a token that is not a literal, `RaggedMatrix` on the
/// first line whose token count differs from the first line's, and
/// otherwise the well-formed matrix of all the lines' tokens in input
/// order.
pub fn fill_matrix(text: &str) -> (r: Result<Matrix, LoadError>)
    ensures
        match r {
            Ok(m) => matrix_wf(m@) && fill_spec(text@) == Ok::<Seq<Seq<Seq<char>>>, LoadError>(m@),
            Err(e) => fill_spec(text@) == Err::<Seq<Seq<Seq<char>>>, LoadError>(e),
        },
{
    if text.unicode_len() == 0 {
        return Err(LoadError::EmptyInput);
    }
    let lines = split_str(text, '\n');
    let ghost lv = views_of(lines@);
    proof {
        lemma_split_seq_len(text@, '\n');
        assert(lv.len() == lines@.len());
        assert(lv[0] == lines@[0]@);
    }
    let first = match parse_row(lines[0]) {
        Ok(t) => t,
        Err(e) => {
            proof {
                assert(check_rows(lv, row_tokens(lv[0]).len()) == Err::<
                    Seq<Seq<Seq<char>>>,
                    LoadError,
                >(LoadError::TokenParseError));
            }
            return Err(e);
        },
    };
    let cols = first.len();
    proof {
        assert(token_views(first@).len() == first@.len());
        lemma_split_seq_len(lv[0], ',');
    }
    let mut rows: Vec<Vec<String>> = Vec::new();
    proof {
        lemma_matrix_view_push(rows@, first);
        assert(matrix_view(rows@) =~= Seq::<Seq<Seq<char>>>::empty());
    }
    rows.push(first);
    proof {
        assert(matrix_view(rows@) =~= seq![row_tokens(lv[0])]);
        assert(check_rows(lv, cols as nat) == (match check_rows(lv.skip(1), cols as nat) {
            Ok(rest) => Ok::<Seq<Seq<Seq<char>>>, LoadError>(seq![row_tokens(lv[0])] + rest),
            Err(e) => Err(e),
        }));
        let ghost r1 = check_rows(lv.skip(1), cols as nat);
        match r1 {
            Ok(rest) => {
                assert(seq![row_tokens(lv[0])] + rest =~= matrix_view(rows@) + rest);
            },
            Err(_) => {},
        }
    }
    let n = lines.len();
    let mut i: usize = 1;
    while i < n
        invariant
            1 <= i <= n,
            n == lines@.len(),
            lv == views_of(lines@),
            text@.len() > 0,
            lv == text_lines(text@),
            cols as nat == row_tokens(lv[0]).len(),
            cols >= 1,
            fill_spec(text@) == (match check_rows(lv.skip(i as int), cols as nat) {
                Ok(rest) => Ok::<Seq<Seq<Seq<char>>>, LoadError>(matrix_view(rows@) + rest),
                Err(e) => Err::<Seq<Seq<Seq<char>>>, LoadError>(e),
            }),
        decreases n - i,
    {
        let ghost sfx = lv.skip(i as int);
        proof {
            assert(sfx[0] == lv[i as int]);
            assert(lines@[i as int]@ == lv[i as int]);
        }
        let toks = match parse_row(lines[i]) {
            Ok(t) => t,
            Err(e) => {
                proof {
                    assert(check_rows(sfx, cols as nat) == Err::<Seq<Seq<Seq<char>>>, LoadError>(
                        LoadError::TokenParseError,
                    ));
                }
                return Err(e);
            },
        };
        if toks.len() != cols {
            proof {
                assert(row_tokens(sfx[0]).len() == token_views(toks@).len());
                assert(check_rows(sfx, cols as nat) == Err::<Seq<Seq<Seq<char>>>, LoadError>(
                    LoadError::RaggedMatrix,
                ));
            }
            return Err(LoadError::RaggedMatrix);
        }
        proof {
            assert(row_tokens(sfx[0]).len() == token_views(toks@).len());
            assert(sfx.skip(1) =~= lv.skip(i as int + 1));
            assert(check_rows(sfx, cols as nat) == (match check_rows(
                lv.skip(i as int + 1),
                cols as nat,
            ) {
                Ok(rest) => Ok::<Seq<Seq<Seq<char>>>, LoadError>(
                    seq![row_tokens(sfx[0])] + rest,
                ),
                Err(e) => Err(e),
            }));
            lemma_matrix_view_push(rows@, toks);
            let ghost r1 = check_rows(lv.skip(i as int + 1), cols as nat);
            match r1 {
                Ok(rest) => {
                    assert(matrix_view(rows@) + (seq![row_tokens(sfx[0])] + rest) =~= matrix_view(
                        rows@.push(toks),
                    ) + rest);
                },
                Err(_) => {},
            }
        }
        rows.push(toks);
        i = i + 1;
    }
    proof {
        assert(lv.skip(n as int) =~= Seq::<Seq<char>>::empty());
        assert(check_rows(lv.skip(n as int), cols as nat) == Ok::<Seq<Seq<Seq<char>>>, LoadError>(
            Seq::empty(),
        ));
        assert(matrix_view(rows@) + Seq::<Seq<Seq<char>>>::empty() =~= matrix_view(rows@));
        assert(fill_spec(text@) == Ok::<Seq<Seq<Seq<char>>>, LoadError>(matrix_view(rows@)));
        lemma_check_rows_ok(lv, cols as nat, matrix_view(rows@));
        assert(matrix_wf(matrix_view(rows@))) by {
            let m = matrix_view(rows@);
            assert(m[0] == row_tokens(lv[0]));
            assert forall|a: int, b: int| 0 <= a < m.len() && 0 <= b < m[a].len()
                implies is_float_literal(#[trigger] m[a][b]) by {
                assert(m[a] == row_tokens(lv[a]));
                assert(row_valid(lv[a]));
                assert(is_float_literal(row_tokens(lv[a])[b]));
            }
        }
    }
    Ok(Matrix { rows })
}

/// Loads a matrix from raw text: trims leading and trailing whitespace,
/// then parses as `fill_matrix` does. The one entry point for callers that
/// hold the file contents.
pub fn load_text(contents: &str) -> (r: Result<Matrix, LoadError>)
    ensures
        match r {
            Ok(m) => matrix_wf(m@) && load_spec(contents@) == Ok::<
                Seq<Seq<Seq<char>>>,
                LoadError,
            >(m@),
            Err(e) => load_spec(contents@) == Err::<Seq<Seq<Seq<char>>>, LoadError>(e),
        },
{
    let trimmed = trim_str(contents);
    fill_matrix(trimmed)
}

} // verus!

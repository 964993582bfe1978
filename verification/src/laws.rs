//! The loader's laws: what loading guarantees for whole classes of input,
//! proved once and for all over the spec-level model.

use vstd::prelude::*;

use crate::LoadError;
use crate::grammar::is_float_literal;
use crate::loader::check_rows;
use crate::loader::fill_spec;
use crate::loader::load_spec;
use crate::loader::matrix_wf;
use crate::loader::row_tokens;
use crate::loader::row_valid;
use crate::loader::text_lines;
use crate::text::lemma_split_seq_len;

verus! {

/// Validating lines that are all valid and all of width `cols` succeeds and
/// returns exactly their tokens.
proof fn lemma_check_rows_all_ok(lines: Seq<Seq<char>>, cols: nat)
    requires
        forall|i: int| 0 <= i < lines.len() ==> row_valid(#[trigger] lines[i]),
        forall|i: int| 0 <= i < lines.len() ==> row_tokens(#[trigger] lines[i]).len() == cols,
    ensures
        check_rows(lines, cols) is Ok,
        check_rows(lines, cols)->Ok_0.len() == lines.len(),
        forall|i: int|
            0 <= i < lines.len() ==> #[trigger] check_rows(lines, cols)->Ok_0[i] == row_tokens(
                lines[i],
            ),
    decreases lines.len(),
{
    if lines.len() == 0 {
    } else {
        assert forall|i: int| 0 <= i < lines.skip(1).len() implies row_valid(
            #[trigger] lines.skip(1)[i],
        ) && row_tokens(lines.skip(1)[i]).len() == cols by {
            assert(lines.skip(1)[i] == lines[i + 1]);
        }
        lemma_check_rows_all_ok(lines.skip(1), cols);
        let rest = check_rows(lines.skip(1), cols)->Ok_0;
        assert forall|i: int| 0 <= i < lines.len() implies #[trigger] check_rows(
            lines,
            cols,
        )->Ok_0[i] == row_tokens(lines[i]) by {
            if i > 0 {
                assert(rest[i - 1] == row_tokens(lines.skip(1)[i - 1]));
                assert(lines.skip(1)[i - 1] == lines[i]);
            }
        }
    }
}

/// Validating lines never reports an empty or unreadable file.
proof fn lemma_check_rows_never_io_or_empty(lines: Seq<Seq<char>>, cols: nat)
    ensures
        check_rows(lines, cols) != Err::<Seq<Seq<Seq<char>>>, LoadError>(LoadError::EmptyInput),
        check_rows(lines, cols) != Err::<Seq<Seq<Seq<char>>>, LoadError>(LoadError::IoError),
    decreases lines.len(),
{
    if lines.len() == 0 {
    } else {
        lemma_check_rows_never_io_or_empty(lines.skip(1), cols);
    }
}

/// When every line is valid but some line's width differs from `cols`,
/// validation fails with `RaggedMatrix`.
proof fn lemma_check_rows_ragged(lines: Seq<Seq<char>>, cols: nat)
    requires
        forall|i: int| 0 <= i < lines.len() ==> row_valid(#[trigger] lines[i]),
        exists|i: int| 0 <= i < lines.len() && row_tokens(#[trigger] lines[i]).len() != cols,
    ensures
        check_rows(lines, cols) == Err::<Seq<Seq<Seq<char>>>, LoadError>(LoadError::RaggedMatrix),
    decreases lines.len(),
{
    let w = choose|i: int| 0 <= i < lines.len() && row_tokens(#[trigger] lines[i]).len() != cols;
    if row_tokens(lines[0]).len() != cols {
    } else {
        assert(w != 0);
        assert forall|i: int| 0 <= i < lines.skip(1).len() implies row_valid(
            #[trigger] lines.skip(1)[i],
        ) by {
            assert(lines.skip(1)[i] == lines[i + 1]);
        }
        assert(lines.skip(1)[w - 1] == lines[w]);
        assert(row_tokens(lines.skip(1)[w - 1]).len() != cols);
        lemma_check_rows_ragged(lines.skip(1), cols);
    }
}

/// When every line has width `cols` but some line holds a token that is not
/// a literal, validation fails with `TokenParseError`.
proof fn lemma_check_rows_token_error(lines: Seq<Seq<char>>, cols: nat)
    requires
        forall|i: int| 0 <= i < lines.len() ==> row_tokens(#[trigger] lines[i]).len() == cols,
        exists|i: int| 0 <= i < lines.len() && !row_valid(#[trigger] lines[i]),
    ensures
        check_rows(lines, cols) == Err::<Seq<Seq<Seq<char>>>, LoadError>(
            LoadError::TokenParseError,
        ),
    decreases lines.len(),
{
    let w = choose|i: int| 0 <= i < lines.len() && !row_valid(#[trigger] lines[i]);
    if !row_valid(lines[0]) {
    } else {
        assert(w != 0);
        assert forall|i: int| 0 <= i < lines.skip(1).len() implies row_tokens(
            #[trigger] lines.skip(1)[i],
        ).len() == cols by {
            assert(lines.skip(1)[i] == lines[i + 1]);
        }
        assert(lines.skip(1)[w - 1] == lines[w]);
        assert(!row_valid(lines.skip(1)[w - 1]));
        lemma_check_rows_token_error(lines.skip(1), cols);
    }
}

/// Well-formed text loads. When the text is not empty, every line's tokens
/// are all floating-point literals, and every line has as many tokens as the
/// first line, parsing succeeds and returns a well-formed matrix with one
/// row per line, the first line's token count as the column count, and the
/// tokens exactly in row-major input order.
pub proof fn lemma_well_formed_fills(text: Seq<char>)
    requires
        text.len() > 0,
        forall|i: int|
            0 <= i < text_lines(text).len() ==> row_valid(#[trigger] text_lines(text)[i]),
        forall|i: int|
            0 <= i < text_lines(text).len() ==> row_tokens(#[trigger] text_lines(text)[i]).len()
                == row_tokens(text_lines(text)[0]).len(),
    ensures
        fill_spec(text) is Ok,
        fill_spec(text)->Ok_0.len() == text_lines(text).len(),
        forall|i: int|
            0 <= i < text_lines(text).len() ==> #[trigger] fill_spec(text)->Ok_0[i] == row_tokens(
                text_lines(text)[i],
            ),
        matrix_wf(fill_spec(text)->Ok_0),
{
    let lines = text_lines(text);
    let cols = row_tokens(lines[0]).len();
    lemma_split_seq_len(text, '\n');
    lemma_split_seq_len(lines[0], ',');
    lemma_check_rows_all_ok(lines, cols);
    let m = fill_spec(text)->Ok_0;
    assert(m[0] == row_tokens(lines[0]));
    assert forall|i: int| 0 <= i < m.len() implies (#[trigger] m[i]).len() == m[0].len() by {
        assert(m[i] == row_tokens(lines[i]));
    }
    assert forall|a: int, b: int|
        0 <= a < m.len() && 0 <= b < m[a].len() implies is_float_literal(#[trigger] m[a][b]) by {
        assert(m[a] == row_tokens(lines[a]));
        assert(row_valid(lines[a]));
        assert(is_float_literal(row_tokens(lines[a])[b]));
    }
}

/// Parsing fails with `EmptyInput` exactly on the empty trimmed text.
pub proof fn lemma_empty_input_iff(text: Seq<char>)
    ensures
        (fill_spec(text) == Err::<Seq<Seq<Seq<char>>>, LoadError>(LoadError::EmptyInput)) <==> text.len() == 0,
{
    if text.len() > 0 {
        lemma_check_rows_never_io_or_empty(
            text_lines(text),
            row_tokens(text_lines(text)[0]).len(),
        );
    }
}

/// Ragged input is refused. When every token of the text is a literal but
/// some line's token count differs from the first line's, parsing fails
/// with `RaggedMatrix`. (A line with a bad token earlier than every count
/// mismatch would make `TokenParseError` win instead; the first premise
/// rules such input out.)
pub proof fn lemma_ragged_fails(text: Seq<char>)
    requires
        text.len() > 0,
        forall|i: int|
            0 <= i < text_lines(text).len() ==> row_valid(#[trigger] text_lines(text)[i]),
        exists|i: int|
            0 <= i < text_lines(text).len() && row_tokens(#[trigger] text_lines(text)[i]).len()
                != row_tokens(text_lines(text)[0]).len(),
    ensures
        fill_spec(text) == Err::<Seq<Seq<Seq<char>>>, LoadError>(LoadError::RaggedMatrix),
{
    lemma_check_rows_ragged(text_lines(text), row_tokens(text_lines(text)[0]).len());
}

/// A token that is not a number is refused. When every line has as many
/// tokens as the first line but some token of the text is not a literal,
/// parsing fails with `TokenParseError`. (A line with a count mismatch
/// earlier than every bad token would make `RaggedMatrix` win instead; the
/// first premise rules such input out.)
pub proof fn lemma_token_error_fails(text: Seq<char>)
    requires
        text.len() > 0,
        forall|i: int|
            0 <= i < text_lines(text).len() ==> row_tokens(#[trigger] text_lines(text)[i]).len()
                == row_tokens(text_lines(text)[0]).len(),
        exists|i: int| 0 <= i < text_lines(text).len() && !row_valid(#[trigger] text_lines(text)[i]),
    ensures
        fill_spec(text) == Err::<Seq<Seq<Seq<char>>>, LoadError>(LoadError::TokenParseError),
{
    lemma_check_rows_token_error(text_lines(text), row_tokens(text_lines(text)[0]).len());
}

/// Loading is idempotent: two successful loads of the same unmodified text
/// yield element-wise equal matrices.
pub proof fn lemma_load_idempotent(raw: Seq<char>, a: Seq<Seq<Seq<char>>>, b: Seq<Seq<Seq<char>>>)
    requires
        load_spec(raw) == Ok::<Seq<Seq<Seq<char>>>, LoadError>(a),
        load_spec(raw) == Ok::<Seq<Seq<Seq<char>>>, LoadError>(b),
    ensures
        a == b,
        forall|i: int, j: int| 0 <= i < a.len() && 0 <= j < a[i].len() ==> a[i][j] == b[i][j],
{
}

} // verus!

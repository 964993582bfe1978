//! A loader for plain-text numeric matrices.
//!
//! The input text holds one matrix row per line; within a line, cells are
//! separated by commas, and every cell must be a decimal floating-point
//! literal. The loader validates the whole text (every token numeric, every
//! row of the same width) and returns a rectangular matrix of the validated
//! tokens, or a single descriptive error.

pub mod grammar;
pub mod laws;
pub mod loader;
pub mod text;

pub use loader::Matrix;
pub use loader::fill_matrix;
pub use loader::load_text;
pub use loader::parse_row;

use vstd::prelude::*;

verus! {

/// The ways a load can fail, one variant per category of bad input.
#[derive(Clone, Copy, Debug, PartialEq, Eq, Structural)]
pub enum LoadError {
    /// The file could not be opened or read as text.
    IoError,
    /// The trimmed file contents were the empty string.
    EmptyInput,
    /// Some comma-delimited token is not a floating-point literal.
    TokenParseError,
    /// Some row's token count differs from the first row's.
    RaggedMatrix,
}

impl LoadError {
    /// A short, stable, human-readable description of the error category.
    pub fn message(&self) -> (m: &'static str)
        ensures
            *self == LoadError::IoError ==> m@ == "could not read the file"@,
            *self == LoadError::EmptyInput ==> m@ == "file was empty"@,
            *self == LoadError::TokenParseError ==> m@ == "could not parse token into a number"@,
            *self == LoadError::RaggedMatrix ==> m@ == "cannot create array with variable length columns"@,
    {
        match self {
            LoadError::IoError => "could not read the file",
            LoadError::EmptyInput => "file was empty",
            LoadError::TokenParseError => "could not parse token into a number",
            LoadError::RaggedMatrix => "cannot create array with variable length columns",
        }
    }
}

} // verus!

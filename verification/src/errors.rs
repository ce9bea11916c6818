//! The unrecoverable failure conditions of the splitting engine. Every one of
//! them signals malformed input; none is recovered from, since continuing
//! would silently corrupt the output.

use vstd::prelude::*;

verus! {

/// A fatal splitting failure.
#[derive(Clone, Copy, Debug, PartialEq, Eq, Structural)]
pub enum SplitError {
    /// The first character of the document is not the `[` that opens a
    /// top-level array.
    InvalidFirstChar { found: char },
    /// A closing bracket arrived whose opening counterpart is not the most
    /// recently opened bracket, or nothing is open at all: the document's
    /// brackets are unbalanced or incorrectly nested.
    BracketMismatch { closing: char },
}

impl SplitError {
    /// A short diagnostic text for the failure.
    pub fn message(&self) -> (r: String)
        ensures
            self matches SplitError::InvalidFirstChar { .. } ==> r@ =~= "the document must open with '['"@,
            self matches SplitError::BracketMismatch { .. } ==> r@ =~= "mismatched closing bracket"@,
    {
        match self {
            SplitError::InvalidFirstChar { .. } => "the document must open with '['".to_owned(),
            SplitError::BracketMismatch { .. } => "mismatched closing bracket".to_owned(),
        }
    }
}

} // verus!

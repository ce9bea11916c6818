//! The one decision made at the reading edge: the document must open with
//! the `[` of a top-level array before any splitting begins.

use vstd::prelude::*;

verus! {

/// Checks that the first character of the document is a `[`. Any other first
/// character means the document is not a top-level JSON array, which is
/// fatal: the caller must stop before any element is emitted.
pub fn verify_first_char(first_char: &char) -> (r: bool)
    ensures
        r == (*first_char == '['),
{
    *first_char == '['
}

} // verus!

//! Admission of catalogue keys.

use vstd::prelude::*;

verus! {

/// Whether a string is admitted as the key of a title. The catalogue sets no
/// rule on the form of a key: every string is admitted.
pub fn verify_isbn(_isbn: &str) -> (admitted: bool)
    ensures
        admitted,
{
    true
}

} // verus!

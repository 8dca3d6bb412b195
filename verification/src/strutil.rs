//! Conversions between strings and character vectors.
//!
//! Verified code works on `Vec<char>` cell rows; these wrappers cross to and
//! from `String` at the edges.

use vstd::prelude::*;

verus! {

/// Relies on str::chars: it yields the string's characters in order, so the
/// collected vector's view is the string's view.
#[verifier::external_body]
pub fn str_chars(s: &str) -> (r: Vec<char>)
    ensures
        r@ == s@,
{
    s.chars().collect()
}

/// Relies on String's FromIterator over chars: collecting characters in
/// order builds the string whose view is the vector's view.
#[verifier::external_body]
pub fn chars_to_string(v: &Vec<char>) -> (r: String)
    ensures
        r@ == v@,
{
    v.iter().collect()
}

} // verus!

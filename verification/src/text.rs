//! Bridges between character vectors and owned strings.

use vstd::prelude::*;

verus! {

/// Relies on `String`'s `FromIterator` over `char`: collecting characters
/// builds the string of exactly those characters.
#[verifier::external_body]
pub fn chars_to_string(chars: &Vec<char>) -> (r: String)
    ensures
        r@ == chars@,
{
    chars.iter().collect()
}

/// Relies on `str::chars`: the characters of a string, in order.
#[verifier::external_body]
pub fn string_to_chars(s: &str) -> (r: Vec<char>)
    ensures
        r@ == s@,
{
    s.chars().collect()
}

} // verus!

//! The Unicode questions the locator needs — which characters count as
//! alphabetic, what a character's lowercase expansion is — are answered by
//! the standard library; this module names those answers and trusts them.

use vstd::prelude::*;

verus! {

/// Whether `c` has the Unicode `Alphabetic` property, exactly as
/// `char::is_alphabetic` decides it; a function of the character alone.
pub uninterp spec fn is_alpha(c: char) -> bool;

/// The lowercase mapping of `c`, exactly as `char::to_lowercase` yields
/// it; a function of the character alone.
pub uninterp spec fn lower_of(c: char) -> Seq<char>;

/// Relies on char::is_alphabetic: true exactly for characters with the
/// Unicode `Alphabetic` property.
pub assume_specification[ char::is_alphabetic ](c: char) -> (r: bool)
    ensures
        r == is_alpha(c),
;

/// Relies on char::to_lowercase: yields the lowercase mapping of the
/// character as one or more characters.
#[verifier::external_body]
pub fn lower_chars(c: char) -> (r: Vec<char>)
    ensures
        r@ == lower_of(c),
        r@.len() >= 1,
{
    c.to_lowercase().collect()
}

/// Relies on str::chars: yields the characters of the slice in order, the
/// same sequence as the slice's view.
#[verifier::external_body]
pub fn str_chars(s: &str) -> (r: Vec<char>)
    ensures
        r@ == s@,
{
    s.chars().collect()
}

/// Relies on String's FromIterator impl: collecting characters builds the
/// string holding exactly those characters in order.
#[verifier::external_body]
pub fn chars_to_string(v: &Vec<char>) -> (r: String)
    ensures
        r@ == v@,
{
    v.iter().collect()
}

} // verus!

//! Character classification.
//!
//! The scanner sorts characters into whitespace, digits, letters and the
//! rest.  The Unicode tables behind those classes are not restated here:
//! each class is a named, uninterpreted predicate, and a trusted wrapper
//! ties the predicate to the standard library function that decides it.

use vstd::prelude::*;

verus! {

/// Whether `char::is_whitespace` holds of `c`: the Unicode `White_Space`
/// property, a function of the character alone.
pub uninterp spec fn whitespace_char(c: char) -> bool;

/// Whether `char::is_numeric` holds of `c`: the Unicode number categories,
/// a function of the character alone.
pub uninterp spec fn numeric_char(c: char) -> bool;

/// Whether `char::is_alphabetic` holds of `c`: the Unicode `Alphabetic`
/// property, a function of the character alone.
pub uninterp spec fn alphabetic_char(c: char) -> bool;

/// A character that may begin a symbol run: a letter or an underscore.
pub open spec fn symbol_start_char(c: char) -> bool {
    alphabetic_char(c) || c == '_'
}

/// A character that may continue a symbol run: a letter, a digit or an
/// underscore.
pub open spec fn symbol_char(c: char) -> bool {
    alphabetic_char(c) || numeric_char(c) || c == '_'
}

/// Relies on `char::is_whitespace`: whether `c` has the Unicode
/// `White_Space` property.
#[verifier::external_body]
pub(crate) fn char_is_whitespace(c: char) -> (r: bool)
    ensures
        r == whitespace_char(c),
{
    c.is_whitespace()
}

/// Relies on `char::is_numeric`: whether `c` is in one of the Unicode
/// number categories.
#[verifier::external_body]
pub(crate) fn char_is_numeric(c: char) -> (r: bool)
    ensures
        r == numeric_char(c),
{
    c.is_numeric()
}

/// Relies on `char::is_alphabetic`: whether `c` has the Unicode
/// `Alphabetic` property.
#[verifier::external_body]
pub(crate) fn char_is_alphabetic(c: char) -> (r: bool)
    ensures
        r == alphabetic_char(c),
{
    c.is_alphabetic()
}

/// Relies on `char::is_alphanumeric`, which its documentation defines as
/// `is_alphabetic` or `is_numeric`.
#[verifier::external_body]
pub(crate) fn char_is_alphanumeric(c: char) -> (r: bool)
    ensures
        r == (alphabetic_char(c) || numeric_char(c)),
{
    c.is_alphanumeric()
}

} // verus!

//! Character classification.
//!
//! The scanner decides what to do with a character by the Unicode-aware
//! predicates of `char`.  Their full behaviour is given by Unicode category
//! tables, so each predicate is modelled by an uninterpreted spec function;
//! the wrappers below tie the spec functions to the real calls and pin the
//! answers down exactly on the ASCII range, where the documentation states
//! them outright.

use vstd::prelude::*;

verus! {

/// What `char::is_whitespace` returns for `c`.
pub uninterp spec fn whitespace(c: char) -> bool;

/// What `char::is_alphabetic` returns for `c`.
pub uninterp spec fn alphabetic(c: char) -> bool;

/// What `char::is_numeric` returns for `c`.
pub uninterp spec fn numeric(c: char) -> bool;

/// A character that may continue an identifier: alphabetic or numeric,
/// exactly as `char::is_alphanumeric` groups them.
pub open spec fn alphanumeric(c: char) -> bool {
    alphabetic(c) || numeric(c)
}

/// An ASCII decimal digit, `'0'` through `'9'`.
pub open spec fn ascii_digit(c: char) -> bool {
    48 <= (c as u32) <= 57
}

/// The numeric value of an ASCII decimal digit.
pub open spec fn digit_val(c: char) -> int {
    c as u32 - 48
}

/// Relies on `char::is_whitespace`: true exactly of characters with the
/// Unicode `White_Space` property.  In the ASCII range these are horizontal
/// tab through carriage return (code points 9 to 13) and the space.
#[verifier::external_body]
pub(crate) fn char_is_whitespace(c: char) -> (r: bool)
    ensures
        r == whitespace(c),
        (c as u32) < 128 ==> (r <==> ((c as u32) == 32 || 9 <= (c as u32) <= 13)),
{
    c.is_whitespace()
}

/// Relies on `char::is_alphabetic`: true exactly of characters in the Unicode
/// letter categories.  In the ASCII range these are `'a'` through `'z'` and
/// `'A'` through `'Z'`.
#[verifier::external_body]
pub(crate) fn char_is_alphabetic(c: char) -> (r: bool)
    ensures
        r == alphabetic(c),
        (c as u32) < 128 ==> (r <==> (97 <= (c as u32) <= 122 || 65 <= (c as u32) <= 90)),
{
    c.is_alphabetic()
}

/// Relies on `char::is_numeric`: true exactly of characters in the Unicode
/// number categories.  In the ASCII range these are the decimal digits `'0'`
/// through `'9'`.
#[verifier::external_body]
pub(crate) fn char_is_numeric(c: char) -> (r: bool)
    ensures
        r == numeric(c),
        (c as u32) < 128 ==> (r <==> ascii_digit(c)),
{
    c.is_numeric()
}

} // verus!

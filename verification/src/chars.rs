//! Character classification for the lexer.
//!
//! The ASCII behaviour of every class is written out exactly, so proofs about
//! ASCII source text need no assumptions. Outside ASCII the classes follow the
//! Unicode properties that the standard library implements; those are named by
//! uninterpreted functions and reached only through the trusted wrappers below.

use vstd::prelude::*;

verus! {

/// Whether `c` is an ASCII decimal digit, `'0'` through `'9'`.
pub open spec fn is_digit_char(c: char) -> bool {
    48 <= c as u32 && c as u32 <= 57
}

/// Whether `c` is a digit or the `'_'` separator accepted inside numeric literals.
pub open spec fn is_digit_or_sep(c: char) -> bool {
    is_digit_char(c) || c == '_'
}

/// Whether the non-ASCII code point `c` has the Unicode `White_Space` property.
pub uninterp spec fn nonascii_whitespace(c: char) -> bool;

/// Whether the non-ASCII code point `c` has the Unicode `Alphabetic` property.
pub uninterp spec fn nonascii_alphabetic(c: char) -> bool;

/// Whether the non-ASCII code point `c` is alphanumeric (`Alphabetic` or numeric).
pub uninterp spec fn nonascii_alphanumeric(c: char) -> bool;

/// Whether `c` is whitespace. Within ASCII the `White_Space` code points are
/// exactly space, tab, line feed, vertical tab, form feed and carriage return;
/// no code point is both `White_Space` and `Alphabetic`, so outside ASCII
/// whitespace excludes every alphabetic character.
pub open spec fn is_whitespace_char(c: char) -> bool {
    if (c as u32) < 128 {
        c as u32 == 32 || (9 <= c as u32 && c as u32 <= 13)
    } else {
        nonascii_whitespace(c) && !nonascii_alphabetic(c)
    }
}

/// Whether `c` is alphabetic. Within ASCII the `Alphabetic` code points are
/// exactly the letters `'A'`-`'Z'` and `'a'`-`'z'`.
pub open spec fn is_alpha_char(c: char) -> bool {
    if (c as u32) < 128 {
        (65 <= c as u32 && c as u32 <= 90) || (97 <= c as u32 && c as u32 <= 122)
    } else {
        nonascii_alphabetic(c)
    }
}

/// Whether `c` is alphanumeric. Within ASCII these are exactly the letters
/// and the decimal digits.
pub open spec fn is_alnum_char(c: char) -> bool {
    if (c as u32) < 128 {
        is_alpha_char(c) || is_digit_char(c)
    } else {
        nonascii_alphanumeric(c)
    }
}

/// Relies on `char::is_whitespace`: true exactly for code points with the
/// Unicode `White_Space` property. Within ASCII those are space, tab, line
/// feed, vertical tab, form feed and carriage return, and `White_Space`
/// holds of no `Alphabetic` code point.
#[verifier::external_body]
pub fn whitespace_char(c: char) -> (r: bool)
    ensures
        r == is_whitespace_char(c),
        (c as u32) >= 128 ==> r == (nonascii_whitespace(c) && !nonascii_alphabetic(c)),
{
    c.is_whitespace()
}

/// Relies on `char::is_alphabetic`: true exactly for code points with the
/// Unicode `Alphabetic` property; within ASCII those are the letters.
#[verifier::external_body]
pub fn alphabetic_char(c: char) -> (r: bool)
    ensures
        r == is_alpha_char(c),
        (c as u32) >= 128 ==> r == nonascii_alphabetic(c),
{
    c.is_alphabetic()
}

/// Relies on `char::is_alphanumeric`: true exactly when the code point is
/// alphabetic or numeric; within ASCII those are the letters and digits.
#[verifier::external_body]
pub fn alphanumeric_char(c: char) -> (r: bool)
    ensures
        r == is_alnum_char(c),
        (c as u32) >= 128 ==> r == nonascii_alphanumeric(c),
{
    c.is_alphanumeric()
}

/// Tests for an ASCII decimal digit.
pub fn digit_char(c: char) -> (r: bool)
    ensures
        r == is_digit_char(c),
{
    let u = c as u32;
    48 <= u && u <= 57
}

/// Tests for a digit or the `'_'` separator.
pub fn digit_or_sep_char(c: char) -> (r: bool)
    ensures
        r == is_digit_or_sep(c),
{
    digit_char(c) || c == '_'
}

} // verus!

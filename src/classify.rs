//! ASCII character classes used by the scanner.
use vstd::prelude::*;

verus! {

/// `c` is an ASCII decimal digit.
pub open spec fn is_digit(c: char) -> bool {
    '0' <= c && c <= '9'
}

/// `c` is an ASCII letter, lower or upper case.
pub open spec fn is_letter(c: char) -> bool {
    ('a' <= c && c <= 'z') || ('A' <= c && c <= 'Z')
}

/// `c` is an ASCII letter or digit.
pub open spec fn is_letter_or_digit(c: char) -> bool {
    is_letter(c) || is_digit(c)
}

/// Returns true if `c` is in the range `'0'..='9'`.
pub fn is_numeric(c: char) -> (r: bool)
    ensures
        r == is_digit(c),
{
    c >= '0' && c <= '9'
}

/// Returns true if `c` is in the range `'a'..='z'` or `'A'..='Z'`.
pub fn is_alpha(c: char) -> (r: bool)
    ensures
        r == is_letter(c),
{
    (c >= 'a' && c <= 'z') || (c >= 'A' && c <= 'Z')
}

/// Returns true if `c` is an ASCII letter or digit.
pub fn is_alpha_numeric(c: char) -> (r: bool)
    ensures
        r == is_letter_or_digit(c),
{
    is_alpha(c) || is_numeric(c)
}

} // verus!

//! Character classes used by the scanner, and the two conversions
//! between text and character vectors that the library trusts std for.

use vstd::prelude::*;

verus! {

/// An ASCII decimal digit.
pub open spec fn is_digit_char(c: char) -> bool {
    '0' <= c <= '9'
}

/// A character that may continue a numeral: a digit or a dot.
pub open spec fn is_numeral_char(c: char) -> bool {
    is_digit_char(c) || c == '.'
}

/// A character that may begin or continue a word (keyword or
/// identifier): an ASCII letter or an underscore. Digits are not
/// permitted in words by this scanner.
pub open spec fn is_word_char(c: char) -> bool {
    ('A' <= c <= 'Z') || ('a' <= c <= 'z') || c == '_'
}

/// Relies on `str::chars`: yields exactly the characters of the text,
/// in order.
#[verifier::external_body]
pub fn str_chars(s: &str) -> (r: Vec<char>)
    ensures
        r@ == s@,
{
    s.chars().collect()
}

/// Relies on `String`'s `FromIterator` over `char`: collects exactly
/// the given characters, in order.
#[verifier::external_body]
pub fn chars_to_string(v: &Vec<char>) -> (r: String)
    ensures
        r@ == v@,
{
    v.iter().collect()
}

} // verus!

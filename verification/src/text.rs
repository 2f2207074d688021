//! Small helpers over characters and strings that the tokenizer and the
//! parsers share: character classification and string comparison.

use vstd::prelude::*;
use vstd::string::StringExecFns;

verus! {

/// Whether a character is within the ASCII range.
pub open spec fn is_ascii_char(c: char) -> bool {
    (c as u32) < 128
}

/// Whether `char::is_whitespace` holds of a character beyond ASCII; the
/// result depends on the character alone (the Unicode `White_Space`
/// property).
pub uninterp spec fn is_whitespace_char_beyond_ascii(c: char) -> bool;

/// Whether `char::is_alphabetic` holds of a character beyond ASCII; the
/// result depends on the character alone (the Unicode `Alphabetic`
/// property).
pub uninterp spec fn is_alphabetic_char_beyond_ascii(c: char) -> bool;

/// Whether `char::is_alphanumeric` holds of a character beyond ASCII; the
/// result depends on the character alone (Unicode `Alphabetic` plus the
/// numeric categories).
pub uninterp spec fn is_alphanumeric_char_beyond_ascii(c: char) -> bool;

/// Whether `char::is_whitespace` holds of a character: within ASCII,
/// exactly space, tab, line feed, vertical tab, form feed and carriage
/// return; beyond ASCII, the Unicode `White_Space` property.
pub open spec fn is_whitespace_char(c: char) -> bool {
    if is_ascii_char(c) {
        c == ' ' || c == '\t' || c == '\n' || c == '\r' || c as u32 == 11 || c as u32 == 12
    } else {
        is_whitespace_char_beyond_ascii(c)
    }
}

/// Whether `char::is_alphabetic` holds of a character: within ASCII,
/// exactly the letters; beyond ASCII, the Unicode `Alphabetic` property.
pub open spec fn is_alphabetic_char(c: char) -> bool {
    if is_ascii_char(c) {
        ('a' <= c && c <= 'z') || ('A' <= c && c <= 'Z')
    } else {
        is_alphabetic_char_beyond_ascii(c)
    }
}

/// Whether `char::is_alphanumeric` holds of a character: within ASCII,
/// exactly letters and digits; beyond ASCII, Unicode `Alphabetic` plus the
/// numeric categories.
pub open spec fn is_alphanumeric_char(c: char) -> bool {
    if is_ascii_char(c) {
        ('a' <= c && c <= 'z') || ('A' <= c && c <= 'Z') || ('0' <= c && c <= '9')
    } else {
        is_alphanumeric_char_beyond_ascii(c)
    }
}

/// Relies on char::is_whitespace: it tests the Unicode `White_Space`
/// property, which within ASCII holds exactly of space, tab, line feed,
/// vertical tab, form feed and carriage return.
#[verifier::external_body]
pub fn char_is_whitespace(c: char) -> (r: bool)
    ensures
        r == is_whitespace_char(c),
        !is_ascii_char(c) ==> r == is_whitespace_char_beyond_ascii(c),
{
    c.is_whitespace()
}

/// Relies on char::is_alphabetic: it tests the Unicode `Alphabetic`
/// property, which within ASCII holds exactly of the letters.
#[verifier::external_body]
pub fn char_is_alphabetic(c: char) -> (r: bool)
    ensures
        r == is_alphabetic_char(c),
        !is_ascii_char(c) ==> r == is_alphabetic_char_beyond_ascii(c),
{
    c.is_alphabetic()
}

/// Relies on char::is_alphanumeric: it tests Unicode `Alphabetic` plus the
/// numeric categories, which within ASCII hold exactly of letters and
/// digits.
#[verifier::external_body]
pub fn char_is_alphanumeric(c: char) -> (r: bool)
    ensures
        r == is_alphanumeric_char(c),
        !is_ascii_char(c) ==> r == is_alphanumeric_char_beyond_ascii(c),
{
    c.is_alphanumeric()
}

/// Whether a character is an ASCII decimal digit.
pub open spec fn is_ascii_digit_char(c: char) -> bool {
    '0' <= c && c <= '9'
}

/// Executable check for an ASCII decimal digit.
pub fn char_is_ascii_digit(c: char) -> (r: bool)
    ensures
        r == is_ascii_digit_char(c),
{
    '0' <= c && c <= '9'
}

/// The numeric value of an ASCII decimal digit.
pub open spec fn digit_value(c: char) -> int {
    c as int - '0' as int
}

/// Relies on String's FromIterator over characters (Iterator::collect):
/// the string holds exactly the given characters, in order.
#[verifier::external_body]
pub fn chars_to_string(v: &Vec<char>) -> (r: String)
    ensures
        r@ == v@,
{
    v.iter().collect()
}

/// String equality by characters, through the specified `String` comparison.
pub fn str_eq(a: &str, b: &str) -> (r: bool)
    ensures
        r == (a@ == b@),
{
    let sa = String::from_str(a);
    let sb = String::from_str(b);
    sa == sb
}

} // verus!

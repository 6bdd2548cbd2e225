//! Character classes that the scanner relies on, and their specifications.
use vstd::prelude::*;

verus! {

/// The characters with the Unicode `White_Space` property.
pub open spec fn white_space(c: char) -> bool {
    let u = c as u32;
    ||| 0x09 <= u <= 0x0D
    ||| u == 0x20 || u == 0x85 || u == 0xA0 || u == 0x1680
    ||| 0x2000 <= u <= 0x200A
    ||| u == 0x2028 || u == 0x2029 || u == 0x202F || u == 0x205F || u == 0x3000
}

/// Whether a character has the Unicode `Alphabetic` property.
pub uninterp spec fn alphabetic(c: char) -> bool;

/// Whether a character is in one of the Unicode numeric categories (`Nd`, `Nl`, `No`).
pub uninterp spec fn numeric(c: char) -> bool;

/// Characters that may make up an identifier: letters and the underscore.
pub open spec fn identifier_char(c: char) -> bool {
    alphabetic(c) || c == '_'
}

/// What remains of `s` once its leading whitespace is removed.
pub open spec fn trim_white_space(s: Seq<char>) -> Seq<char>
    decreases s.len(),
{
    if s.len() > 0 && white_space(s[0]) {
        trim_white_space(s.drop_first())
    } else {
        s
    }
}

/// Relies on `char::is_whitespace`: true exactly for the characters with the
/// `White_Space` property.
#[verifier::external_body]
pub(crate) fn is_whitespace(c: char) -> (r: bool)
    ensures
        r == white_space(c),
{
    c.is_whitespace()
}

/// Relies on `char::is_alphabetic`: true for the characters with the
/// `Alphabetic` property; the answer depends on the character alone.
#[verifier::external_body]
pub(crate) fn is_alphabetic(c: char) -> (r: bool)
    ensures
        r == alphabetic(c),
{
    c.is_alphabetic()
}

/// Relies on `char::is_numeric`: true for the characters of the general
/// categories `Nd`, `Nl` and `No`; the answer depends on the character alone.
#[verifier::external_body]
pub(crate) fn is_numeric(c: char) -> (r: bool)
    ensures
        r == numeric(c),
{
    c.is_numeric()
}

/// Relies on `str::trim_start`: the slice without its leading characters of
/// the `White_Space` property.
#[verifier::external_body]
pub(crate) fn trim_start<'a>(s: &'a str) -> (r: &'a str)
    ensures
        r@ == trim_white_space(s@),
{
    s.trim_start()
}

/// Whether `c` may stand in an identifier.
pub fn is_valid_identifier(c: char) -> (r: bool)
    ensures
        r == identifier_char(c),
{
    is_alphabetic(c) || c == '_'
}

} // verus!

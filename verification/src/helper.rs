//! Character classification used by the lexer.

use vstd::prelude::*;

verus! {

/// A character that may start or continue an identifier: an ASCII letter or
/// an underscore.
pub open spec fn spec_is_identifier(ch: char) -> bool {
    ('a' <= ch && ch <= 'z') || ('A' <= ch && ch <= 'Z') || ch == '_'
}

/// An ASCII decimal digit.
pub open spec fn spec_is_digit(ch: char) -> bool {
    '0' <= ch && ch <= '9'
}

/// A character with the Unicode `White_Space` property.
pub open spec fn spec_is_whitespace(ch: char) -> bool {
    ||| ch == '\u{0009}'
    ||| ch == '\u{000A}'
    ||| ch == '\u{000B}'
    ||| ch == '\u{000C}'
    ||| ch == '\u{000D}'
    ||| ch == ' '
    ||| ch == '\u{0085}'
    ||| ch == '\u{00A0}'
    ||| ch == '\u{1680}'
    ||| ('\u{2000}' <= ch && ch <= '\u{200A}')
    ||| ch == '\u{2028}'
    ||| ch == '\u{2029}'
    ||| ch == '\u{202F}'
    ||| ch == '\u{205F}'
    ||| ch == '\u{3000}'
}

pub fn is_identifier(ch: char) -> (r: bool)
    ensures
        r == spec_is_identifier(ch),
{
    ('a' <= ch && ch <= 'z') || ('A' <= ch && ch <= 'Z') || ch == '_'
}

pub fn is_digit(ch: char) -> (r: bool)
    ensures
        r == spec_is_digit(ch),
{
    '0' <= ch && ch <= '9'
}

pub fn is_whitespace(ch: char) -> (r: bool)
    ensures
        r == spec_is_whitespace(ch),
{
    ch == '\u{0009}' || ch == '\u{000A}' || ch == '\u{000B}' || ch == '\u{000C}'
        || ch == '\u{000D}' || ch == ' ' || ch == '\u{0085}' || ch == '\u{00A0}'
        || ch == '\u{1680}' || ('\u{2000}' <= ch && ch <= '\u{200A}') || ch == '\u{2028}'
        || ch == '\u{2029}' || ch == '\u{202F}' || ch == '\u{205F}' || ch == '\u{3000}'
}

} // verus!

//! Character classes of the lexical grammar.
use vstd::prelude::*;

verus! {

/// Space, carriage return, line feed and tab separate tokens.
pub open spec fn whitespace(ch: char) -> bool {
    ch == ' ' || ch == '\r' || ch == '\n' || ch == '\t'
}

/// The decimal digits.
pub open spec fn number(ch: char) -> bool {
    '0' <= ch <= '9'
}

/// The unaccented Latin letters of either case.
pub open spec fn letter(ch: char) -> bool {
    ('A' <= ch <= 'Z') || ('a' <= ch <= 'z')
}

/// What may follow the first letter of an identifier.
pub open spec fn valid_in_identifier(ch: char) -> bool {
    letter(ch) || number(ch) || ch == '_'
}

/// An identifier is a letter followed by letters, digits and underscores.
pub open spec fn valid_identifier(s: Seq<char>) -> bool {
    &&& s.len() > 0
    &&& letter(s[0])
    &&& forall|i: int| 0 <= i < s.len() ==> valid_in_identifier(#[trigger] s[i])
}

pub fn is_whitespace(ch: char) -> (b: bool)
    ensures
        b == whitespace(ch),
{
    ch == ' ' || ch == '\r' || ch == '\n' || ch == '\t'
}

pub fn is_number(ch: char) -> (b: bool)
    ensures
        b == number(ch),
{
    '0' <= ch && ch <= '9'
}

pub fn is_letter(ch: char) -> (b: bool)
    ensures
        b == letter(ch),
{
    ('A' <= ch && ch <= 'Z') || ('a' <= ch && ch <= 'z')
}

pub fn is_valid_in_identifier(c: char) -> (b: bool)
    ensures
        b == valid_in_identifier(c),
{
    is_letter(c) || is_number(c) || c == '_'
}

pub fn is_valid_identifier(s: &str) -> (b: bool)
    ensures
        b == valid_identifier(s@),
{
    let chars = crate::common::text::chars_of(s);
    if chars.len() == 0 {
        return false;
    }
    if !is_letter(chars[0]) {
        return false;
    }
    let mut i: usize = 0;
    while i < chars.len()
        invariant
            i <= chars.len(),
            chars@ == s@,
            forall|j: int| 0 <= j < i ==> valid_in_identifier(#[trigger] chars@[j]),
        decreases chars.len() - i,
    {
        if !is_valid_in_identifier(chars[i]) {
            return false;
        }
        i += 1;
    }
    true
}

} // verus!

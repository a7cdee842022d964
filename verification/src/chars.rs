//! Character classes of the token grammar.

use vstd::prelude::*;

verus! {

/// Whitespace that separates tokens.
pub open spec fn is_space(c: char) -> bool {
    c == ' ' || c == '\t' || c == '\n' || c == '\r'
}

/// Decimal digits.
pub open spec fn is_digit(c: char) -> bool {
    '0' <= c && c <= '9'
}

/// Characters that may begin an identifier.
pub open spec fn is_ident_start(c: char) -> bool {
    ('a' <= c && c <= 'z') || ('A' <= c && c <= 'Z') || c == '_'
}

/// Characters that may continue an identifier.
pub open spec fn is_ident_continue(c: char) -> bool {
    is_ident_start(c) || is_digit(c)
}

/// Characters of a run: digits only, or everything an identifier may hold.
pub open spec fn in_run(c: char, digits_only: bool) -> bool {
    if digits_only {
        is_digit(c)
    } else {
        is_ident_continue(c)
    }
}

/// Characters that form a punctuation token on their own.
pub open spec fn is_punct(c: char) -> bool {
    c == '!' || c == '#' || c == '$' || c == '%' || c == '&' || c == '*' || c == '+' || c == ','
        || c == '-' || c == '.' || c == '/' || c == ':' || c == ';' || c == '<' || c == '='
        || c == '>' || c == '?' || c == '@' || c == '^' || c == '|' || c == '~'
}

/// Exec twin of [`is_space`].
pub fn char_is_space(c: char) -> (b: bool)
    ensures
        b == is_space(c),
{
    c == ' ' || c == '\t' || c == '\n' || c == '\r'
}

/// Exec twin of [`is_digit`].
pub fn char_is_digit(c: char) -> (b: bool)
    ensures
        b == is_digit(c),
{
    '0' <= c && c <= '9'
}

/// Exec twin of [`is_ident_start`].
pub fn char_is_ident_start(c: char) -> (b: bool)
    ensures
        b == is_ident_start(c),
{
    ('a' <= c && c <= 'z') || ('A' <= c && c <= 'Z') || c == '_'
}

/// Exec twin of [`is_ident_continue`].
pub fn char_is_ident_continue(c: char) -> (b: bool)
    ensures
        b == is_ident_continue(c),
{
    char_is_ident_start(c) || char_is_digit(c)
}

/// Exec twin of [`in_run`].
pub fn char_in_run(c: char, digits_only: bool) -> (b: bool)
    ensures
        b == in_run(c, digits_only),
{
    if digits_only {
        char_is_digit(c)
    } else {
        char_is_ident_continue(c)
    }
}

/// Exec twin of [`is_punct`].
pub fn char_is_punct(c: char) -> (b: bool)
    ensures
        b == is_punct(c),
{
    c == '!' || c == '#' || c == '$' || c == '%' || c == '&' || c == '*' || c == '+' || c == ','
        || c == '-' || c == '.' || c == '/' || c == ':' || c == ';' || c == '<' || c == '='
        || c == '>' || c == '?' || c == '@' || c == '^' || c == '|' || c == '~'
}

} // verus!

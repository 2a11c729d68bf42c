//! Classes of characters that the grammar is built from.
use vstd::prelude::*;

use crate::unicode::{
    is_letter, is_mark_enclosing, is_mark_nonspacing, is_mark_spacing_combining,
    is_number_decimal_digit, is_number_letter, is_number_other, is_other_private_use,
    is_punctuation_connector, is_punctuation_dash, is_punctuation_other, is_separator, is_symbol,
    unicode_letter, unicode_mark_enclosing, unicode_mark_nonspacing,
    unicode_mark_spacing_combining, unicode_number_decimal_digit, unicode_number_letter,
    unicode_number_other, unicode_other_private_use, unicode_punctuation_connector,
    unicode_punctuation_dash, unicode_punctuation_other, unicode_separator, unicode_symbol,
};

verus! {

pub open spec fn is_ascii_alphabetic(c: char) -> bool {
    ('a' <= c && c <= 'z') || ('A' <= c && c <= 'Z')
}

pub open spec fn is_ascii_digit(c: char) -> bool {
    '0' <= c && c <= '9'
}

pub open spec fn is_ascii_hexdigit(c: char) -> bool {
    is_ascii_digit(c) || ('a' <= c && c <= 'f') || ('A' <= c && c <= 'F')
}

/// `char::to_digit`: the value of a digit in a radix from 2 to 36, where letters of either case
/// stand for 10 upwards.
pub open spec fn digit_value(c: char, radix: u32) -> Option<u32> {
    let v: int = if is_ascii_digit(c) {
        c as int - '0' as int
    } else if 'a' <= c && c <= 'z' {
        c as int - 'a' as int + 10
    } else if 'A' <= c && c <= 'Z' {
        c as int - 'A' as int + 10
    } else {
        36
    };
    if v < radix {
        Some(v as u32)
    } else {
        None
    }
}

/// The characters that may begin an identifier by themselves.
pub open spec fn constituent(c: char) -> bool {
    is_ascii_alphabetic(c) || (c as u32 > 127 && (unicode_letter(c) || unicode_mark_nonspacing(c)
        || unicode_number_letter(c) || unicode_number_other(c) || unicode_punctuation_dash(c)
        || unicode_punctuation_connector(c) || unicode_punctuation_other(c) || unicode_symbol(c)
        || unicode_other_private_use(c)))
}

pub open spec fn special_initial(c: char) -> bool {
    c == '!' || c == '$' || c == '%' || c == '&' || c == '*' || c == '/' || c == ':' || c == '<'
        || c == '=' || c == '>' || c == '?' || c == '^' || c == '_' || c == '~'
}

pub open spec fn special_subsequent(c: char) -> bool {
    c == '+' || c == '-' || c == '.' || c == '@'
}

/// The single characters that may continue an identifier besides those that may begin one.
pub open spec fn subsequent_char(c: char) -> bool {
    is_ascii_digit(c) || unicode_number_decimal_digit(c) || unicode_mark_spacing_combining(c)
        || unicode_mark_enclosing(c) || special_subsequent(c)
}

/// A single character of whitespace between lexemes.
pub open spec fn whitespace_char(c: char) -> bool {
    unicode_separator(c) || c == '\t' || c == '\n'
}

/// `char::to_digit`, for a radix from 2 to 36.
pub fn to_digit(c: char, radix: u32) -> (r: Option<u32>)
    requires
        2 <= radix <= 36,
    ensures
        r == digit_value(c, radix),
{
    let v: u32 = if '0' <= c && c <= '9' {
        (c as u32) - ('0' as u32)
    } else if 'a' <= c && c <= 'z' {
        (c as u32) - ('a' as u32) + 10
    } else if 'A' <= c && c <= 'Z' {
        (c as u32) - ('A' as u32) + 10
    } else {
        36
    };
    if v < radix {
        Some(v)
    } else {
        None
    }
}

pub fn is_hex_digit(c: char) -> (r: bool)
    ensures
        r == is_ascii_hexdigit(c),
{
    ('0' <= c && c <= '9') || ('a' <= c && c <= 'f') || ('A' <= c && c <= 'F')
}

/// Whether `c` may begin an identifier by itself: an ASCII letter, or a non-ASCII letter, mark,
/// number, dash, connector, other punctuation, symbol or private-use character.
pub fn is_constituent(c: char) -> (r: bool)
    ensures
        r == constituent(c),
{
    (('a' <= c && c <= 'z') || ('A' <= c && c <= 'Z')) || ((c as u32) > 127 && (is_letter(c)
        || is_mark_nonspacing(c) || is_number_letter(c) || is_number_other(c)
        || is_punctuation_dash(c) || is_punctuation_connector(c) || is_punctuation_other(c)
        || is_symbol(c) || is_other_private_use(c)))
}

/// Whether `c` is one of `!$%&*/:<=>?^_~`.
pub fn is_special_initial(c: char) -> (r: bool)
    ensures
        r == special_initial(c),
{
    c == '!' || c == '$' || c == '%' || c == '&' || c == '*' || c == '/' || c == ':' || c == '<'
        || c == '=' || c == '>' || c == '?' || c == '^' || c == '_' || c == '~'
}

pub fn is_subsequent_char(c: char) -> (r: bool)
    ensures
        r == subsequent_char(c),
{
    ('0' <= c && c <= '9') || is_number_decimal_digit(c) || is_mark_spacing_combining(c)
        || is_mark_enclosing(c) || (c == '+' || c == '-' || c == '.' || c == '@')
}

pub fn is_whitespace_char(c: char) -> (r: bool)
    ensures
        r == whitespace_char(c),
{
    is_separator(c) || c == '\t' || c == '\n'
}

} // verus!

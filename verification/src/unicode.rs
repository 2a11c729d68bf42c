//! The Unicode general categories that the lexer asks about, answered by the
//! `unicode_categories` crate. Each category is a table lookup that depends on the character
//! alone; its result is named here and not restated.
use unicode_categories::UnicodeCategories;
use vstd::prelude::*;

verus! {

/// `UnicodeCategories::is_separator`: the character is in Zs, Zl or Zp.
pub uninterp spec fn unicode_separator(c: char) -> bool;

/// `UnicodeCategories::is_letter`: the character is in Lu, Ll, Lt, Lm or Lo.
pub uninterp spec fn unicode_letter(c: char) -> bool;

/// `UnicodeCategories::is_mark_nonspacing`: the character is in Mn.
pub uninterp spec fn unicode_mark_nonspacing(c: char) -> bool;

/// `UnicodeCategories::is_mark_spacing_combining`: the character is in Mc.
pub uninterp spec fn unicode_mark_spacing_combining(c: char) -> bool;

/// `UnicodeCategories::is_mark_enclosing`: the character is in Me.
pub uninterp spec fn unicode_mark_enclosing(c: char) -> bool;

/// `UnicodeCategories::is_number_decimal_digit`: the character is in Nd.
pub uninterp spec fn unicode_number_decimal_digit(c: char) -> bool;

/// `UnicodeCategories::is_number_letter`: the character is in Nl.
pub uninterp spec fn unicode_number_letter(c: char) -> bool;

/// `UnicodeCategories::is_number_other`: the character is in No.
pub uninterp spec fn unicode_number_other(c: char) -> bool;

/// `UnicodeCategories::is_punctuation_dash`: the character is in Pd.
pub uninterp spec fn unicode_punctuation_dash(c: char) -> bool;

/// `UnicodeCategories::is_punctuation_connector`: the character is in Pc.
pub uninterp spec fn unicode_punctuation_connector(c: char) -> bool;

/// `UnicodeCategories::is_punctuation_other`: the character is in Po.
pub uninterp spec fn unicode_punctuation_other(c: char) -> bool;

/// `UnicodeCategories::is_symbol`: the character is in Sm, Sc, Sk or So.
pub uninterp spec fn unicode_symbol(c: char) -> bool;

/// `UnicodeCategories::is_other_private_use`: the character is in Co.
pub uninterp spec fn unicode_other_private_use(c: char) -> bool;

/// Calls `UnicodeCategories::is_separator`; claims only that the answer is the named one.
#[verifier::external_body]
pub(crate) fn is_separator(c: char) -> (r: bool)
    ensures
        r == unicode_separator(c),
{
    c.is_separator()
}

/// Calls `UnicodeCategories::is_letter`; claims only that the answer is the named one.
#[verifier::external_body]
pub(crate) fn is_letter(c: char) -> (r: bool)
    ensures
        r == unicode_letter(c),
{
    c.is_letter()
}

/// Calls `UnicodeCategories::is_mark_nonspacing`; claims only that the answer is the named one.
#[verifier::external_body]
pub(crate) fn is_mark_nonspacing(c: char) -> (r: bool)
    ensures
        r == unicode_mark_nonspacing(c),
{
    c.is_mark_nonspacing()
}

/// Calls `UnicodeCategories::is_mark_spacing_combining`; claims only that the answer is the
/// named one.
#[verifier::external_body]
pub(crate) fn is_mark_spacing_combining(c: char) -> (r: bool)
    ensures
        r == unicode_mark_spacing_combining(c),
{
    c.is_mark_spacing_combining()
}

/// Calls `UnicodeCategories::is_mark_enclosing`; claims only that the answer is the named one.
#[verifier::external_body]
pub(crate) fn is_mark_enclosing(c: char) -> (r: bool)
    ensures
        r == unicode_mark_enclosing(c),
{
    c.is_mark_enclosing()
}

/// Calls `UnicodeCategories::is_number_decimal_digit`; claims only that the answer is the
/// named one.
#[verifier::external_body]
pub(crate) fn is_number_decimal_digit(c: char) -> (r: bool)
    ensures
        r == unicode_number_decimal_digit(c),
{
    c.is_number_decimal_digit()
}

/// Calls `UnicodeCategories::is_number_letter`; claims only that the answer is the named one.
#[verifier::external_body]
pub(crate) fn is_number_letter(c: char) -> (r: bool)
    ensures
        r == unicode_number_letter(c),
{
    c.is_number_letter()
}

/// Calls `UnicodeCategories::is_number_other`; claims only that the answer is the named one.
#[verifier::external_body]
pub(crate) fn is_number_other(c: char) -> (r: bool)
    ensures
        r == unicode_number_other(c),
{
    c.is_number_other()
}

/// Calls `UnicodeCategories::is_punctuation_dash`; claims only that the answer is the named one.
#[verifier::external_body]
pub(crate) fn is_punctuation_dash(c: char) -> (r: bool)
    ensures
        r == unicode_punctuation_dash(c),
{
    c.is_punctuation_dash()
}

/// Calls `UnicodeCategories::is_punctuation_connector`; claims only that the answer is the
/// named one.
#[verifier::external_body]
pub(crate) fn is_punctuation_connector(c: char) -> (r: bool)
    ensures
        r == unicode_punctuation_connector(c),
{
    c.is_punctuation_connector()
}

/// Calls `UnicodeCategories::is_punctuation_other`; claims only that the answer is the named one.
#[verifier::external_body]
pub(crate) fn is_punctuation_other(c: char) -> (r: bool)
    ensures
        r == unicode_punctuation_other(c),
{
    c.is_punctuation_other()
}

/// Calls `UnicodeCategories::is_symbol`; claims only that the answer is the named one.
#[verifier::external_body]
pub(crate) fn is_symbol(c: char) -> (r: bool)
    ensures
        r == unicode_symbol(c),
{
    c.is_symbol()
}

/// Calls `UnicodeCategories::is_other_private_use`; claims only that the answer is the named one.
#[verifier::external_body]
pub(crate) fn is_other_private_use(c: char) -> (r: bool)
    ensures
        r == unicode_other_private_use(c),
{
    c.is_other_private_use()
}

} // verus!

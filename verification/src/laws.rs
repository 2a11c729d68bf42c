//! What holds of the lexer and of numeric conversion as a whole.
use vstd::prelude::*;

use crate::chars::digit_value;
use crate::grammar::{
    after_bytes, boolean, char_at, character, closes_comment, comment, comment_body_end, digits_end,
    escape_name, escape_order, folds_to, fragment, fragments, has_prefix, hex_char_code, hex_end,
    identifier, initial, lexeme, lexemes, line_end, named_char_from, nested_comment, number,
    prefixed_number, signed_digits, space_end, space_item, string, string_escape, subsequent,
    subsequents_end, tag_no_case, unescaped_end, utf8_width, whitespace_end, LexFailure, Scan,
};
use crate::integer::{read_digits, unbounded_value};
use crate::lexeme::{escaped_char_value, CharacterView, EscapedCharacter, FragmentView, LexemeView};
use crate::source::{
    byte_column, byte_offset, char_column, lemma_byte_offset_step, lemma_newlines_step,
    lemma_scalar_width, line_number,
};
use vstd::utf8::{encode_scalar, encode_utf8};
use crate::number::{accumulate_digits, number_value, NumberView, TryFromNumberErrorKind};

verus! {

// ---------------------------------------------------------------------------------------------
// Positions advance
// ---------------------------------------------------------------------------------------------
proof fn lemma_after_bytes(s: Seq<char>, i: int, m: int)
    requires
        0 <= i <= s.len(),
    ensures
        after_bytes(s, i, m) matches Some(e) ==> i <= e <= s.len() && (m > 0 ==> i < e),
    decreases s.len() - i,
{
    if m != 0 && !(m < 0 || i < 0 || i >= s.len()) {
        lemma_after_bytes(s, i + 1, m - utf8_width(s[i]));
    }
}

proof fn lemma_tag_no_case(s: Seq<char>, i: int, t: Seq<char>)
    requires
        0 <= i <= s.len(),
    ensures
        tag_no_case(s, i, t) matches Some(e) ==> i <= e <= s.len() && (t.len() > 0 ==> i < e),
{
    lemma_after_bytes(s, i, t.len() as int);
}

proof fn lemma_runs(s: Seq<char>, i: int, radix: u32)
    requires
        0 <= i <= s.len(),
    ensures
        i <= hex_end(s, i) <= s.len(),
        i <= digits_end(s, i, radix) <= s.len(),
        i <= line_end(s, i) <= s.len(),
        i <= unescaped_end(s, i) <= s.len(),
        i <= whitespace_end(s, i) <= s.len(),
    decreases s.len() - i,
{
    if i < s.len() {
        lemma_runs(s, i + 1, radix);
    }
}

proof fn lemma_initial(s: Seq<char>, i: int)
    requires
        0 <= i <= s.len(),
    ensures
        initial(s, i) matches Some(e) ==> i < e <= s.len(),
        subsequent(s, i) matches Some(e) ==> i < e <= s.len(),
{
    if i + 2 <= s.len() {
        lemma_runs(s, i + 2, 10);
    }
}

proof fn lemma_subsequents_end(s: Seq<char>, i: int)
    requires
        0 <= i <= s.len(),
    ensures
        i <= subsequents_end(s, i) <= s.len(),
    decreases s.len() - i,
{
    if let Some(e) = subsequent(s, i) {
        if i < e <= s.len() {
            lemma_subsequents_end(s, e);
        }
    }
}

proof fn lemma_identifier(s: Seq<char>, i: int)
    requires
        0 <= i <= s.len(),
    ensures
        identifier(s, i) matches Some(e) ==> i < e <= s.len(),
{
    lemma_initial(s, i);
    if let Some(j) = initial(s, i) {
        lemma_subsequents_end(s, j);
    }
    if has_prefix(s, i, seq!['-', '>']) {
        lemma_subsequents_end(s, i + 2);
    }
}

proof fn lemma_signed_digits(s: Seq<char>, j: int, radix: u32)
    requires
        0 <= j <= s.len(),
    ensures
        signed_digits(s, j, radix) matches Some((e, _)) ==> j < e <= s.len(),
{
    let k = if char_at(s, j, '-') { j + 1 } else { j };
    lemma_runs(s, k, radix);
}

proof fn lemma_number(s: Seq<char>, i: int)
    requires
        0 <= i <= s.len(),
    ensures
        number(s, i) matches Some((e, _)) ==> i < e <= s.len(),
{
    lemma_tag_no_case(s, i, seq!['#', 'b']);
    lemma_tag_no_case(s, i, seq!['#', 'o']);
    lemma_tag_no_case(s, i, seq!['#', 'x']);
    lemma_tag_no_case(s, i, seq!['#', 'd']);
    if let Some(j) = tag_no_case(s, i, seq!['#', 'b']) {
        lemma_signed_digits(s, j, 2);
    }
    if let Some(j) = tag_no_case(s, i, seq!['#', 'o']) {
        lemma_signed_digits(s, j, 8);
    }
    if let Some(j) = tag_no_case(s, i, seq!['#', 'x']) {
        lemma_signed_digits(s, j, 16);
    }
    if let Some(j) = tag_no_case(s, i, seq!['#', 'd']) {
        lemma_signed_digits(s, j, 10);
    } else {
        lemma_signed_digits(s, i, 10);
    }
}

proof fn lemma_named_char_from(s: Seq<char>, j: int, k: int)
    requires
        0 <= j <= s.len(),
    ensures
        named_char_from(s, j, k) matches Some((e, _)) ==> j < e <= s.len(),
    decreases escape_order().len() - k,
{
    if 0 <= k < escape_order().len() {
        lemma_tag_no_case(s, j, escape_name(escape_order()[k]));
        lemma_named_char_from(s, j, k + 1);
    }
}

proof fn lemma_character(s: Seq<char>, i: int)
    requires
        0 <= i <= s.len(),
    ensures
        character(s, i) matches Scan::Matched(e, _) ==> i < e <= s.len(),
{
    if char_at(s, i, '#') && char_at(s, i + 1, '\\') {
        lemma_named_char_from(s, i + 2, 0);
        lemma_tag_no_case(s, i + 2, seq!['x']);
        if let Some(k) = hex_char_code(s, i + 2) {
            lemma_runs(s, k, 10);
        }
    }
}

proof fn lemma_fragment(s: Seq<char>, j: int)
    requires
        0 <= j <= s.len(),
    ensures
        fragment(s, j) matches Scan::Matched(e, _) ==> j < e <= s.len(),
{
    lemma_runs(s, j, 10);
    if j + 1 <= s.len() {
        lemma_tag_no_case(s, j + 1, seq!['x']);
        if let Some(m) = hex_char_code(s, j + 1) {
            lemma_runs(s, m, 10);
        }
    }
}

proof fn lemma_fragments(s: Seq<char>, j: int)
    requires
        0 <= j <= s.len(),
    ensures
        fragments(s, j) matches Scan::Matched(k, _) ==> j <= k <= s.len(),
    decreases s.len() - j,
{
    if let Scan::Matched(e, _) = fragment(s, j) {
        if j < e <= s.len() {
            lemma_fragments(s, e);
        }
    }
}

proof fn lemma_boolean(s: Seq<char>, i: int)
    requires
        0 <= i <= s.len(),
    ensures
        boolean(s, i) matches Some((e, _)) ==> i < e <= s.len(),
{
    lemma_tag_no_case(s, i, seq!['#', 't']);
    lemma_tag_no_case(s, i, seq!['#', 'f']);
}

/// Every lexeme takes at least one character of the input, and no more than there are.
pub proof fn lexeme_consumes_input(s: Seq<char>, i: int)
    requires
        0 <= i <= s.len(),
    ensures
        lexeme(s, i) matches Scan::Matched(e, _) ==> i < e <= s.len(),
{
    lemma_character(s, i);
    lemma_number(s, i);
    lemma_identifier(s, i);
    lemma_boolean(s, i);
    if char_at(s, i, '"') {
        lemma_fragments(s, i + 1);
    }
}

// ---------------------------------------------------------------------------------------------
// Space between lexemes
// ---------------------------------------------------------------------------------------------
proof fn lemma_comment_body_end(s: Seq<char>, j: int)
    requires
        0 <= j <= s.len(),
    ensures
        j <= comment_body_end(s, j) <= s.len(),
    decreases s.len() - j,
{
    match nested_comment(s, j) {
        Some(e) => if j < e <= s.len() {
            lemma_comment_body_end(s, e);
        },
        None => if j < s.len() && !closes_comment(s, j) {
            lemma_comment_body_end(s, j + 1);
        },
    }
}

/// Every piece of space between lexemes (whitespace, a line comment, a nested comment) takes
/// at least one character of the input, and no more than there are.
pub proof fn space_item_consumes_input(s: Seq<char>, i: int)
    requires
        0 <= i <= s.len(),
    ensures
        space_item(s, i) matches Some(e) ==> i < e <= s.len(),
{
    if i + 1 <= s.len() {
        lemma_runs(s, i + 1, 10);
        lemma_runs(s, line_end(s, i + 1), 10);
    }
    if i + 2 <= s.len() {
        lemma_comment_body_end(s, i + 2);
    }
}

proof fn lemma_space_end(s: Seq<char>, i: int)
    requires
        0 <= i <= s.len(),
    ensures
        i <= space_end(s, i) <= s.len(),
        space_end(s, space_end(s, i)) == space_end(s, i),
    decreases s.len() - i,
{
    match space_item(s, i) {
        Some(e) => if i < e <= s.len() {
            lemma_space_end(s, e);
        },
        None => {},
    }
}

/// Skipping the space between lexemes twice skips no more than once: where it stops, no more
/// whitespace or comment begins.
pub proof fn space_end_is_idempotent(s: Seq<char>, i: int)
    requires
        0 <= i <= s.len(),
    ensures
        space_end(s, space_end(s, i)) == space_end(s, i),
{
    lemma_space_end(s, i);
}

/// Space before the first lexeme does not change the lexemes that follow.
pub proof fn leading_space_is_skipped(s: Seq<char>, i: int)
    requires
        0 <= i <= s.len(),
    ensures
        lexemes(s, i) == lexemes(s, space_end(s, i)),
{
    lemma_space_end(s, i);
}

// ---------------------------------------------------------------------------------------------
// The lexemes of an input
// ---------------------------------------------------------------------------------------------
/// The positions of the lexemes found from `i` increase strictly and lie in the input, and a
/// position where no lexeme starts lies in the input too.
pub proof fn lexeme_positions_increase(s: Seq<char>, i: int)
    requires
        0 <= i <= s.len(),
    ensures
        lexemes(s, i) matches Ok(ls) ==> forall|a: int, b: int|
            0 <= a < b < ls.len() ==> i <= #[trigger] ls[a].0 < #[trigger] ls[b].0 < s.len(),
        lexemes(s, i) matches Ok(ls) ==> forall|a: int| 0 <= a < ls.len() ==> i <= #[trigger] ls[a].0 < s.len(),
        lexemes(s, i) matches Err(LexFailure::NoLexeme(j)) ==> i <= j < s.len(),
    decreases s.len() - i,
{
    lemma_space_end(s, i);
    let j = space_end(s, i);
    if i <= j < s.len() {
        if let Scan::Matched(e, l) = lexeme(s, j) {
            if j < e <= s.len() {
                lexeme_positions_increase(s, e);
                if let Ok(rest) = lexemes(s, e) {
                    let ls = seq![(j, l)] + rest;
                    assert forall|a: int| 0 <= a < ls.len() implies i <= #[trigger] ls[a].0 < s.len() by {
                        if a > 0 {
                            assert(ls[a] == rest[a - 1]);
                        }
                    }
                    assert forall|a: int, b: int|
                        0 <= a < b < ls.len() implies i <= #[trigger] ls[a].0 < #[trigger] ls[b].0 < s.len() by {
                        assert(ls[b] == rest[b - 1]);
                        if a > 0 {
                            assert(ls[a] == rest[a - 1]);
                        }
                    }
                }
            }
        }
    }
}

// ---------------------------------------------------------------------------------------------
// Numbers
// ---------------------------------------------------------------------------------------------
/// All characters from `k` to the end of the run are digits of the radix.
proof fn lemma_digits_run(s: Seq<char>, k: int, radix: u32)
    requires
        0 <= k <= s.len(),
    ensures
        forall|m: int| k <= m < digits_end(s, k, radix) ==> digit_value(#[trigger] s[m], radix) is Some,
    decreases s.len() - k,
{
    if k < s.len() && digit_value(s[k], radix) is Some {
        lemma_digits_run(s, k + 1, radix);
    }
}

/// A sequence of digits reads into a value.
proof fn lemma_read_all_digits(cs: Seq<char>, radix: u32, acc: int)
    requires
        forall|m: int| 0 <= m < cs.len() ==> digit_value(#[trigger] cs[m], radix) is Some,
    ensures
        read_digits(cs, radix, acc) is Ok,
    decreases cs.len(),
{
    if cs.len() > 0 {
        let d = digit_value(cs[0], radix).unwrap();
        assert forall|m: int| 0 <= m < cs.drop_first().len() implies digit_value(
            #[trigger] cs.drop_first()[m],
            radix,
        ) is Some by {
            assert(cs.drop_first()[m] == cs[m + 1]);
        }
        lemma_read_all_digits(cs.drop_first(), radix, acc * radix + d);
    }
}

/// The digits of a numeric literal that the lexer finds are all digits of its radix, so that
/// reading it never fails on a digit: its only way to fail a conversion is to overflow.
pub proof fn lexed_numbers_have_valid_digits(s: Seq<char>, i: int)
    requires
        0 <= i <= s.len(),
    ensures
        number(s, i) matches Some((_, n)) ==> unbounded_value(n) is Ok && 2 <= n.radix <= 36,
{
    if let Some((e, n)) = number(s, i) {
        let negative = |j: int| char_at(s, j, '-');
        let j = if prefixed_number(s, i, 'b', 2) is Some {
            tag_no_case(s, i, seq!['#', 'b']).unwrap()
        } else if prefixed_number(s, i, 'o', 8) is Some {
            tag_no_case(s, i, seq!['#', 'o']).unwrap()
        } else if prefixed_number(s, i, 'x', 16) is Some {
            tag_no_case(s, i, seq!['#', 'x']).unwrap()
        } else {
            match tag_no_case(s, i, seq!['#', 'd']) {
                Some(j) => j,
                None => i,
            }
        };
        lemma_tag_no_case(s, i, seq!['#', 'b']);
        lemma_tag_no_case(s, i, seq!['#', 'o']);
        lemma_tag_no_case(s, i, seq!['#', 'x']);
        lemma_tag_no_case(s, i, seq!['#', 'd']);
        assert(signed_digits(s, j, n.radix) == Some((e, n)));
        let k = if negative(j) { j + 1 } else { j };
        lemma_runs(s, k, n.radix);
        lemma_digits_run(s, k, n.radix);
        let cs = s.subrange(k, digits_end(s, k, n.radix));
        assert(cs == n.contents);
        assert forall|m: int| 0 <= m < cs.len() implies digit_value(#[trigger] cs[m], n.radix) is Some by {
            assert(cs[m] == s[k + m]);
        }
        lemma_read_all_digits(cs, n.radix, 0);
    }
}

/// Reading goes only upward from a nonnegative accumulator.
proof fn lemma_read_grows(cs: Seq<char>, radix: u32, acc: int)
    requires
        acc >= 0,
        radix >= 1,
    ensures
        read_digits(cs, radix, acc) matches Ok(v) ==> v >= acc,
    decreases cs.len(),
{
    if cs.len() > 0 {
        if let Some(d) = digit_value(cs[0], radix) {
            assert(acc * radix >= acc) by (nonlinear_arith)
                requires acc >= 0, radix >= 1;
            lemma_read_grows(cs.drop_first(), radix, acc * radix + d);
        }
    }
}

/// A bounded read that succeeds gives the unbounded value.
proof fn lemma_bounded_is_unbounded(cs: Seq<char>, radix: u32, max: int, acc: int)
    ensures
        accumulate_digits(cs, radix, max, acc) matches Ok(v) ==> read_digits(cs, radix, acc) == Ok::<int, TryFromNumberErrorKind>(v),
        accumulate_digits(cs, radix, max, acc) == Err::<int, TryFromNumberErrorKind>(TryFromNumberErrorKind::InvalidDigit(radix))
            ==> read_digits(cs, radix, acc) == Err::<int, TryFromNumberErrorKind>(TryFromNumberErrorKind::InvalidDigit(radix)),
    decreases cs.len(),
{
    if cs.len() > 0 && !(acc * radix > max) {
        if let Some(d) = digit_value(cs[0], radix) {
            if !(acc * radix + d > max) {
                lemma_bounded_is_unbounded(cs.drop_first(), radix, max, acc * radix + d);
            }
        }
    }
}

/// A bounded read from an accumulator within the bound stays within it.
proof fn lemma_bounded_within(cs: Seq<char>, radix: u32, max: int, acc: int)
    requires
        0 <= acc <= max,
        radix >= 1,
    ensures
        accumulate_digits(cs, radix, max, acc) matches Ok(v) ==> 0 <= v <= max,
    decreases cs.len(),
{
    if cs.len() > 0 && !(acc * radix > max) {
        if let Some(d) = digit_value(cs[0], radix) {
            if !(acc * radix + d > max) {
                assert(acc * radix >= 0) by (nonlinear_arith)
                    requires acc >= 0, radix >= 1;
                lemma_bounded_within(cs.drop_first(), radix, max, acc * radix + d);
            }
        }
    }
}

/// An unbounded value within the bound is what the bounded read gives.
proof fn lemma_unbounded_within(cs: Seq<char>, radix: u32, max: int, acc: int)
    requires
        acc >= 0,
        radix >= 1,
    ensures
        read_digits(cs, radix, acc) matches Ok(v) ==> (v <= max ==> accumulate_digits(cs, radix, max, acc) == Ok::<int, TryFromNumberErrorKind>(v)),
    decreases cs.len(),
{
    if cs.len() > 0 {
        if let Some(d) = digit_value(cs[0], radix) {
            assert(acc * radix >= 0) by (nonlinear_arith)
                requires acc >= 0, radix >= 1;
            lemma_read_grows(cs.drop_first(), radix, acc * radix + d);
            lemma_unbounded_within(cs.drop_first(), radix, max, acc * radix + d);
        }
    }
}

/// A conversion into a bounded type and the conversion into an unbounded integer agree: the
/// bounded one succeeds exactly when the literal has a value whose magnitude is within the
/// bound, and then gives that value; it reports an invalid digit only when the unbounded one
/// does, and otherwise an overflow.
pub proof fn bounded_conversion_agrees(n: NumberView, max: int)
    requires
        n.radix >= 1,
        max >= 0,
    ensures
        number_value(n, max) matches Ok(v) ==> (if v < 0 { -v } else { v }) <= max,
        number_value(n, max) matches Ok(v) ==> unbounded_value(n) == Ok::<int, TryFromNumberErrorKind>(v),
        unbounded_value(n) matches Ok(v) ==> ((if v < 0 { -v } else { v }) <= max ==> number_value(n, max) == Ok::<int, TryFromNumberErrorKind>(v)),
        number_value(n, max) == Err::<int, TryFromNumberErrorKind>(TryFromNumberErrorKind::InvalidDigit(n.radix))
            ==> unbounded_value(n) == Err::<int, TryFromNumberErrorKind>(TryFromNumberErrorKind::InvalidDigit(n.radix)),
        number_value(n, max) == Err::<int, TryFromNumberErrorKind>(TryFromNumberErrorKind::Overflow)
            ==> (unbounded_value(n) matches Ok(v) ==> (if v < 0 { -v } else { v }) > max),
{
    lemma_bounded_is_unbounded(n.contents, n.radix, max, 0);
    lemma_unbounded_within(n.contents, n.radix, max, 0);
    lemma_read_grows(n.contents, n.radix, 0);
    lemma_bounded_within(n.contents, n.radix, max, 0);
}

/// A literal that converts into a type converts to the same value into any wider type.
pub proof fn widening_keeps_value(n: NumberView, narrow: int, wide: int)
    requires
        n.radix >= 1,
        0 <= narrow <= wide,
    ensures
        number_value(n, narrow) matches Ok(v) ==> number_value(n, wide) == Ok::<int, TryFromNumberErrorKind>(v),
{
    bounded_conversion_agrees(n, narrow);
    bounded_conversion_agrees(n, wide);
    lemma_read_grows(n.contents, n.radix, 0);
}

/// The sign of a literal only negates its value; the digits fail alike.
pub proof fn sign_negates_value(radix: u32, contents: Seq<char>, max: int)
    ensures
        ({
            let pos = number_value(NumberView { radix, negative: false, contents }, max);
            let neg = number_value(NumberView { radix, negative: true, contents }, max);
            &&& pos matches Ok(v) ==> neg == Ok::<int, TryFromNumberErrorKind>(-v)
            &&& pos matches Err(k) ==> neg == Err::<int, TryFromNumberErrorKind>(k)
        }),
{
}

/// Distinct named characters stand for distinct characters.
pub proof fn named_characters_are_distinct(a: EscapedCharacter, b: EscapedCharacter)
    ensures
        a != b ==> escaped_char_value(a) != escaped_char_value(b),
{
}

// ---------------------------------------------------------------------------------------------
// Runs of characters stop exactly where their class ends
// ---------------------------------------------------------------------------------------------
/// An ASCII hex digit: `0`-`9`, `a`-`f` or `A`-`F`.
pub open spec fn ascii_hex_char(c: char) -> bool {
    ('0' <= c && c <= '9') || ('a' <= c && c <= 'f') || ('A' <= c && c <= 'F')
}

/// The digits of the radixes that numeric literals use, as characters: `0`-`1` in radix 2,
/// `0`-`7` in radix 8, `0`-`9` in radix 10, and in radix 16 also `a`-`f` and `A`-`F`, each with
/// its usual value.
pub proof fn digits_of_literal_radixes(c: char)
    ensures
        (digit_value(c, 2) is Some) == ('0' <= c && c <= '1'),
        (digit_value(c, 8) is Some) == ('0' <= c && c <= '7'),
        (digit_value(c, 10) is Some) == ('0' <= c && c <= '9'),
        (digit_value(c, 16) is Some) == ascii_hex_char(c),
        '0' <= c && c <= '9' ==> digit_value(c, 16) == Some((c as int - '0' as int) as u32),
        'a' <= c && c <= 'f' ==> digit_value(c, 16) == Some((c as int - 'a' as int + 10) as u32),
        'A' <= c && c <= 'F' ==> digit_value(c, 16) == Some((c as int - 'A' as int + 10) as u32),
{
}

/// The digits after a radix prefix are the longest run of digits of the radix: each character
/// of the run is a digit of the radix, and the one after it is not (or the input ends).
pub proof fn digits_end_is_longest_run(s: Seq<char>, i: int, radix: u32)
    requires
        0 <= i <= s.len(),
    ensures
        i <= digits_end(s, i, radix) <= s.len(),
        forall|m: int| i <= m < digits_end(s, i, radix) ==> digit_value(#[trigger] s[m], radix) is Some,
        digits_end(s, i, radix) < s.len() ==> digit_value(s[digits_end(s, i, radix)], radix) is None,
    decreases s.len() - i,
{
    if i < s.len() && digit_value(s[i], radix) is Some {
        digits_end_is_longest_run(s, i + 1, radix);
    }
}

/// A run of hex digits is the longest run of `0`-`9`, `a`-`f`, `A`-`F`.
pub proof fn hex_end_is_longest_run(s: Seq<char>, i: int)
    requires
        0 <= i <= s.len(),
    ensures
        i <= hex_end(s, i) <= s.len(),
        forall|m: int| i <= m < hex_end(s, i) ==> ascii_hex_char(#[trigger] s[m]),
        hex_end(s, i) < s.len() ==> !ascii_hex_char(s[hex_end(s, i)]),
    decreases s.len() - i,
{
    if i < s.len() && ascii_hex_char(s[i]) {
        hex_end_is_longest_run(s, i + 1);
    }
}

/// The plain text of a string runs up to the first `"` or `\`, and through everything else.
pub proof fn unescaped_end_is_longest_run(s: Seq<char>, i: int)
    requires
        0 <= i <= s.len(),
    ensures
        i <= unescaped_end(s, i) <= s.len(),
        forall|m: int| i <= m < unescaped_end(s, i) ==> #[trigger] s[m] != '"' && s[m] != '\\',
        unescaped_end(s, i) < s.len() ==> s[unescaped_end(s, i)] == '"' || s[unescaped_end(s, i)] == '\\',
    decreases s.len() - i,
{
    if i < s.len() && s[i] != '"' && s[i] != '\\' {
        unescaped_end_is_longest_run(s, i + 1);
    }
}

/// A line runs up to the first newline, and through everything else.
pub proof fn line_end_is_longest_run(s: Seq<char>, i: int)
    requires
        0 <= i <= s.len(),
    ensures
        i <= line_end(s, i) <= s.len(),
        forall|m: int| i <= m < line_end(s, i) ==> #[trigger] s[m] != '\n',
        line_end(s, i) < s.len() ==> s[line_end(s, i)] == '\n',
    decreases s.len() - i,
{
    if i < s.len() && s[i] != '\n' {
        line_end_is_longest_run(s, i + 1);
    }
}

/// If a run of the given kind holds exactly the characters from `i` to `k`, the run ends at `k`.
proof fn lemma_hex_run_ends(s: Seq<char>, i: int, k: int)
    requires
        0 <= i <= k <= s.len(),
        forall|m: int| i <= m < k ==> ascii_hex_char(#[trigger] s[m]),
        k < s.len() ==> !ascii_hex_char(s[k]),
    ensures
        hex_end(s, i) == k,
    decreases k - i,
{
    if i < k {
        assert(ascii_hex_char(s[i]));
        lemma_hex_run_ends(s, i + 1, k);
    }
}

proof fn lemma_unescaped_run_ends(s: Seq<char>, i: int, k: int)
    requires
        0 <= i <= k <= s.len(),
        forall|m: int| i <= m < k ==> #[trigger] s[m] != '"' && s[m] != '\\',
        k < s.len() ==> s[k] == '"' || s[k] == '\\',
    ensures
        unescaped_end(s, i) == k,
    decreases k - i,
{
    if i < k {
        assert(s[i] != '"' && s[i] != '\\');
        lemma_unescaped_run_ends(s, i + 1, k);
    }
}

// ---------------------------------------------------------------------------------------------
// Identifiers continue through every subsequent character
// ---------------------------------------------------------------------------------------------
/// `+`, `-`, `.`, `@` and the decimal digits continue an identifier by one character.
pub proof fn special_subsequents_continue_identifiers(s: Seq<char>, i: int)
    requires
        0 <= i < s.len(),
        s[i] == '+' || s[i] == '-' || s[i] == '.' || s[i] == '@' || ('0' <= s[i] && s[i] <= '9'),
    ensures
        subsequent(s, i) == Some(i + 1),
{
}

/// ASCII letters and `!$%&*/:<=>?^_~` begin and continue an identifier by one character.
pub proof fn ascii_initials_begin_identifiers(s: Seq<char>, i: int)
    requires
        0 <= i < s.len(),
        ('a' <= s[i] && s[i] <= 'z') || ('A' <= s[i] && s[i] <= 'Z') || s[i] == '!' || s[i] == '$'
            || s[i] == '%' || s[i] == '&' || s[i] == '*' || s[i] == '/' || s[i] == ':' || s[i] == '<'
            || s[i] == '=' || s[i] == '>' || s[i] == '?' || s[i] == '^' || s[i] == '_' || s[i] == '~',
    ensures
        initial(s, i) == Some(i + 1),
        subsequent(s, i) == Some(i + 1),
{
}

/// An identifier stops only where no subsequent starts: never before an ASCII letter, a digit,
/// one of `+-.@`, or one of `!$%&*/:<=>?^_~`.
pub proof fn identifiers_stop_only_where_no_subsequent_starts(s: Seq<char>, i: int)
    requires
        0 <= i <= s.len(),
    ensures
        i <= subsequents_end(s, i) <= s.len(),
        subsequents_end(s, i) < s.len() ==> subsequent(s, subsequents_end(s, i)) is None,
        subsequents_end(s, i) < s.len() ==> ({
            let c = s[subsequents_end(s, i)];
            !(('a' <= c && c <= 'z') || ('A' <= c && c <= 'Z') || ('0' <= c && c <= '9') || c == '+'
                || c == '-' || c == '.' || c == '@' || c == '!' || c == '$' || c == '%' || c == '&'
                || c == '*' || c == '/' || c == ':' || c == '<' || c == '=' || c == '>' || c == '?'
                || c == '^' || c == '_' || c == '~')
        }),
    decreases s.len() - i,
{
    lemma_initial(s, i);
    if let Some(e) = subsequent(s, i) {
        if i < e <= s.len() {
            identifiers_stop_only_where_no_subsequent_starts(s, e);
        }
    }
    let e = subsequents_end(s, i);
    lemma_subsequents_end(s, i);
    if e < s.len() {
        let c = s[e];
        if ('a' <= c && c <= 'z') || ('A' <= c && c <= 'Z') || c == '!' || c == '$' || c == '%'
            || c == '&' || c == '*' || c == '/' || c == ':' || c == '<' || c == '=' || c == '>'
            || c == '?' || c == '^' || c == '_' || c == '~' {
            ascii_initials_begin_identifiers(s, e);
        }
        if c == '+' || c == '-' || c == '.' || c == '@' || ('0' <= c && c <= '9') {
            special_subsequents_continue_identifiers(s, e);
        }
    }
}

// ---------------------------------------------------------------------------------------------
// Strings and character codes
// ---------------------------------------------------------------------------------------------
/// A string literal whose body holds no `"` and no `\` is one `String` lexeme: no fragment if
/// the body is empty, else a single plain fragment that is the whole body.
pub proof fn plain_string_is_one_fragment(s: Seq<char>, i: int, k: int)
    requires
        0 <= i < k < s.len(),
        s[i] == '"',
        s[k] == '"',
        forall|m: int| i < m < k ==> #[trigger] s[m] != '"' && s[m] != '\\',
    ensures
        k == i + 1 ==> string(s, i) == Scan::Matched(k + 1, Seq::<FragmentView>::empty()),
        k > i + 1 ==> string(s, i) == Scan::Matched(
            k + 1,
            seq![FragmentView::Unescaped(s.subrange(i + 1, k))],
        ),
{
    lemma_unescaped_run_ends(s, i + 1, k);
    lemma_unescaped_run_ends(s, k, k);
    assert(fragment(s, k) is Failed);
    assert(fragments(s, k) == Scan::Matched(k, Seq::<FragmentView>::empty()));
    if k > i + 1 {
        assert(fragment(s, i + 1) == Scan::Matched(k, FragmentView::Unescaped(s.subrange(i + 1, k))));
        assert(seq![FragmentView::Unescaped(s.subrange(i + 1, k))] + Seq::<FragmentView>::empty()
            =~= seq![FragmentView::Unescaped(s.subrange(i + 1, k))]);
    }
}

/// No name of a named character begins with `x` or `X`.
proof fn lemma_no_name_begins_with_x(s: Seq<char>, j: int, k: int)
    requires
        0 <= j < s.len(),
        s[j] == 'x' || s[j] == 'X',
    ensures
        named_char_from(s, j, k) is None,
    decreases escape_order().len() - k,
{
    if 0 <= k < escape_order().len() {
        let t = escape_name(escape_order()[k]);
        assert(t.len() > 0 && 'a' <= t[0] && t[0] <= 'z' && t[0] != 'x' && t[0] != 'k');
        assert(!folds_to(s[j + 0], t[0]));
        assert(tag_no_case(s, j, t) is None);
        lemma_no_name_begins_with_x(s, j, k + 1);
    }
}

/// After `#\x` (or `#\X`), the code of a character literal is the longest run of ASCII hex
/// digits that follows, lowercase `a`-`f` included.
pub proof fn character_code_is_longest_hex_run(s: Seq<char>, i: int, k: int)
    requires
        0 <= i,
        i + 3 < k <= s.len(),
        s[i] == '#',
        s[i + 1] == '\\',
        s[i + 2] == 'x' || s[i + 2] == 'X',
        forall|m: int| i + 3 <= m < k ==> ascii_hex_char(#[trigger] s[m]),
        k < s.len() ==> !ascii_hex_char(s[k]),
    ensures
        character(s, i) == Scan::Matched(k, CharacterView::Unicode(s.subrange(i + 3, k))),
{
    lemma_no_name_begins_with_x(s, i + 2, 0);
    lemma_hex_run_ends(s, i + 3, k);
    assert(folds_to(s[(i + 2) + 0], seq!['x'][0]));
    assert(after_bytes(s, i + 3, 0) == Some(i + 3));
    assert(after_bytes(s, i + 2, 1) == Some(i + 3));
    assert(tag_no_case(s, i + 2, seq!['x']) == Some(i + 3));
    assert(hex_char_code(s, i + 2) == Some(i + 3));
}

// ---------------------------------------------------------------------------------------------
// Positions
// ---------------------------------------------------------------------------------------------
/// The first position of the input is at byte 0, on line 1, in column 1.
pub proof fn position_of_the_start(s: Seq<char>)
    ensures
        byte_offset(s, 0) == 0,
        line_number(s, 0) == 1,
        byte_column(s, 0) == 1,
        char_column(s, 0) == 1,
{
    assert(s.take(0) =~= Seq::<char>::empty());
    assert(encode_utf8(Seq::<char>::empty()) =~= Seq::<u8>::empty());
}

/// A character moves the byte offset by the length of its UTF-8 encoding. A newline moves to
/// the next line and back to column 1; any other character stays on the line and moves the
/// byte column by its encoded length and the character column by one.
pub proof fn position_after_a_character(s: Seq<char>, j: int)
    requires
        0 <= j < s.len(),
    ensures
        byte_offset(s, j + 1) == byte_offset(s, j) + encode_scalar(s[j] as u32).len(),
        s[j] == '\n' ==> line_number(s, j + 1) == line_number(s, j) + 1,
        s[j] == '\n' ==> byte_column(s, j + 1) == 1 && char_column(s, j + 1) == 1,
        s[j] != '\n' ==> line_number(s, j + 1) == line_number(s, j),
        s[j] != '\n' ==> byte_column(s, j + 1) == byte_column(s, j) + encode_scalar(s[j] as u32).len(),
        s[j] != '\n' ==> char_column(s, j + 1) == char_column(s, j) + 1,
{
    lemma_byte_offset_step(s, j);
    lemma_scalar_width(s[j]);
    lemma_newlines_step(s, j);
}

// ---------------------------------------------------------------------------------------------
// Space, comments, and the choice between lexemes
// ---------------------------------------------------------------------------------------------
/// Tabs, newlines and line comments are space between lexemes; the space stops only where no
/// piece of space starts, so never at a tab, a newline or a `;`.
pub proof fn space_stops_only_where_no_space_starts(s: Seq<char>, i: int)
    requires
        0 <= i <= s.len(),
    ensures
        space_end(s, i) < s.len() ==> space_item(s, space_end(s, i)) is None,
        space_end(s, i) < s.len() ==> ({
            let c = s[space_end(s, i)];
            c != '\t' && c != '\n' && c != ';'
        }),
    decreases s.len() - i,
{
    space_item_consumes_input(s, i);
    if let Some(e) = space_item(s, i) {
        if i < e <= s.len() {
            space_stops_only_where_no_space_starts(s, e);
        }
    }
}

/// A line comment takes `;`, the rest of its line, and the whitespace after it.
pub proof fn line_comment_takes_its_line(s: Seq<char>, i: int)
    requires
        0 <= i < s.len(),
        s[i] == ';',
    ensures
        comment(s, i) matches Some(e) && line_end(s, i + 1) <= e <= s.len()
            && (forall|m: int| i < m < line_end(s, i + 1) ==> #[trigger] s[m] != '\n')
            && (line_end(s, i + 1) < s.len() ==> s[line_end(s, i + 1)] == '\n' && e > line_end(
            s,
            i + 1,
        )),
{
    line_end_is_longest_run(s, i + 1);
    let le = line_end(s, i + 1);
    lemma_runs(s, le, 10);
    if le < s.len() {
        lemma_runs(s, le + 1, 10);
        assert(whitespace_end(s, le) == whitespace_end(s, le + 1));
    }
}

/// A nested comment `#|...|#` whose body holds neither `#` nor `|` ends right after its `|#`.
pub proof fn plain_nested_comment(s: Seq<char>, i: int, k: int)
    requires
        0 <= i,
        i + 2 <= k,
        k + 2 <= s.len(),
        s[i] == '#',
        s[i + 1] == '|',
        s[k] == '|',
        s[k + 1] == '#',
        forall|m: int| i + 2 <= m < k ==> #[trigger] s[m] != '#' && s[m] != '|',
    ensures
        nested_comment(s, i) == Some(k + 2),
{
    lemma_plain_comment_body(s, i + 2, k);
}

proof fn lemma_plain_comment_body(s: Seq<char>, j: int, k: int)
    requires
        0 <= j <= k,
        k + 2 <= s.len(),
        s[k] == '|',
        s[k + 1] == '#',
        forall|m: int| j <= m < k ==> #[trigger] s[m] != '#' && s[m] != '|',
    ensures
        comment_body_end(s, j) == k,
    decreases k - j,
{
    if j < k {
        assert(s[j] != '#' && s[j] != '|');
        assert(nested_comment(s, j) is None);
        lemma_plain_comment_body(s, j + 1, k);
    } else {
        assert(nested_comment(s, j) is None);
    }
}

/// `#t` and `#f` are booleans in either case.
pub proof fn booleans_in_either_case(s: Seq<char>, i: int)
    requires
        0 <= i,
        i + 2 <= s.len(),
        s[i] == '#',
    ensures
        (s[i + 1] == 't' || s[i + 1] == 'T') ==> boolean(s, i) == Some((i + 2, true)),
        (s[i + 1] == 'f' || s[i + 1] == 'F') ==> boolean(s, i) == Some((i + 2, false)),
{
    let t = seq!['#', 't'];
    let f = seq!['#', 'f'];
    if s[i + 1] == 't' || s[i + 1] == 'T' || s[i + 1] == 'f' || s[i + 1] == 'F' {
        assert(folds_to(s[i + 0], t[0]) && folds_to(s[i + 0], f[0]));
        assert(after_bytes(s, i + 2, 0) == Some(i + 2));
        assert(after_bytes(s, i + 1, 1) == Some(i + 2));
        assert(after_bytes(s, i, 2) == Some(i + 2));
        if s[i + 1] == 't' || s[i + 1] == 'T' {
            assert(folds_to(s[i + 1], t[1]));
            assert(tag_no_case(s, i, t) == Some(i + 2));
        } else {
            assert(!folds_to(s[i + 1], t[1]));
            assert(tag_no_case(s, i, t) is None);
            assert(folds_to(s[i + 1], f[1]));
            assert(tag_no_case(s, i, f) == Some(i + 2));
        }
    }
}

/// A `-` followed by decimal digits is a negative decimal number whose digits are the longest
/// run of decimal digits.
pub proof fn minus_and_digits_is_a_negative_number(s: Seq<char>, i: int, k: int)
    requires
        0 <= i,
        i + 1 < k <= s.len(),
        s[i] == '-',
        forall|m: int| i + 1 <= m < k ==> '0' <= #[trigger] s[m] && s[m] <= '9',
        k < s.len() ==> !('0' <= s[k] && s[k] <= '9'),
    ensures
        lexeme(s, i) == Scan::Matched(
            k,
            LexemeView::Number(NumberView { radix: 10, negative: true, contents: s.subrange(i + 1, k) }),
        ),
{
    assert(!folds_to(s[i + 0], seq!['#', 'b'][0]));
    assert(tag_no_case(s, i, seq!['#', 'b']) is None);
    assert(tag_no_case(s, i, seq!['#', 'o']) is None);
    assert(tag_no_case(s, i, seq!['#', 'x']) is None);
    assert(tag_no_case(s, i, seq!['#', 'd']) is None);
    lemma_decimal_run_ends(s, i + 1, k);
    assert(character(s, i) is Failed);
}

proof fn lemma_decimal_run_ends(s: Seq<char>, i: int, k: int)
    requires
        0 <= i <= k <= s.len(),
        forall|m: int| i <= m < k ==> '0' <= #[trigger] s[m] && s[m] <= '9',
        k < s.len() ==> !('0' <= s[k] && s[k] <= '9'),
    ensures
        digits_end(s, i, 10) == k,
    decreases k - i,
{
    if i < k {
        assert('0' <= s[i] && s[i] <= '9');
        lemma_decimal_run_ends(s, i + 1, k);
    }
}

/// `#x` (either case) followed by hex digits is a hexadecimal number whose digits are the
/// longest run of `0`-`9`, `a`-`f`, `A`-`F`.
pub proof fn hex_prefix_and_digits_is_a_hex_number(s: Seq<char>, i: int, k: int)
    requires
        0 <= i,
        i + 2 < k <= s.len(),
        s[i] == '#',
        s[i + 1] == 'x' || s[i + 1] == 'X',
        forall|m: int| i + 2 <= m < k ==> ascii_hex_char(#[trigger] s[m]),
        k < s.len() ==> !ascii_hex_char(s[k]),
    ensures
        number(s, i) == Some(
            (k, NumberView { radix: 16, negative: false, contents: s.subrange(i + 2, k) }),
        ),
{
    let b = seq!['#', 'b'];
    let o = seq!['#', 'o'];
    let x = seq!['#', 'x'];
    assert(!folds_to(s[i + 1], b[1]));
    assert(tag_no_case(s, i, b) is None);
    assert(!folds_to(s[i + 1], o[1]));
    assert(tag_no_case(s, i, o) is None);
    assert(folds_to(s[i + 0], x[0]) && folds_to(s[i + 1], x[1]));
    assert(after_bytes(s, i + 2, 0) == Some(i + 2));
    assert(after_bytes(s, i + 1, 1) == Some(i + 2));
    assert(after_bytes(s, i, 2) == Some(i + 2));
    assert(tag_no_case(s, i, x) == Some(i + 2));
    assert(!char_at(s, i + 2, '-'));
    lemma_hex_digits_run_ends(s, i + 2, k);
}

proof fn lemma_hex_digits_run_ends(s: Seq<char>, i: int, k: int)
    requires
        0 <= i <= k <= s.len(),
        forall|m: int| i <= m < k ==> ascii_hex_char(#[trigger] s[m]),
        k < s.len() ==> !ascii_hex_char(s[k]),
    ensures
        digits_end(s, i, 16) == k,
    decreases k - i,
{
    if i < k {
        assert(ascii_hex_char(s[i]));
        lemma_hex_digits_run_ends(s, i + 1, k);
    }
}

/// In a string, `\` followed by a letter other than `x` is the control character that R7RS
/// gives it (`\a` alarm, `\b` backspace, `\t` tab, `\n` newline, `\v` vertical tab, `\f` form
/// feed, `\r` return), and followed by any other character it is that character.
pub proof fn one_character_string_escapes(s: Seq<char>, k: int)
    requires
        0 <= k < s.len(),
        s[k] != 'x' && s[k] != 'X',
    ensures
        string_escape(s, k) == Scan::Matched(
            k + 1,
            FragmentView::Escaped(
                if s[k] == 'a' {
                    '\u{07}'
                } else if s[k] == 'b' {
                    '\u{08}'
                } else if s[k] == 't' {
                    '\u{09}'
                } else if s[k] == 'n' {
                    '\u{0A}'
                } else if s[k] == 'v' {
                    '\u{0B}'
                } else if s[k] == 'f' {
                    '\u{0C}'
                } else if s[k] == 'r' {
                    '\u{0D}'
                } else {
                    s[k]
                },
            ),
        ),
{
    assert(!folds_to(s[k + 0], seq!['x'][0]));
    assert(tag_no_case(s, k, seq!['x']) is None);
}

// ---------------------------------------------------------------------------------------------
// The value of digits
// ---------------------------------------------------------------------------------------------
proof fn lemma_read_push(cs: Seq<char>, c: char, radix: u32, acc: int)
    ensures
        read_digits(cs.push(c), radix, acc) == match read_digits(cs, radix, acc) {
            Ok(v) => match digit_value(c, radix) {
                Some(d) => Ok(v * radix + d),
                None => Err(TryFromNumberErrorKind::InvalidDigit(radix)),
            },
            Err(k) => Err(k),
        },
    decreases cs.len(),
{
    if cs.len() == 0 {
        assert(cs.push(c).drop_first() =~= Seq::<char>::empty());
        assert(cs.push(c)[0] == c);
        if let Some(d) = digit_value(c, radix) {
            assert(read_digits(cs.push(c).drop_first(), radix, acc * radix + d) == Ok::<int, TryFromNumberErrorKind>(acc * radix + d));
        }
    } else {
        assert(cs.push(c).drop_first() =~= cs.drop_first().push(c));
        assert(cs.push(c)[0] == cs[0]);
        if let Some(d) = digit_value(cs[0], radix) {
            lemma_read_push(cs.drop_first(), c, radix, acc * radix + d);
        }
    }
}

/// No digits read as zero, and one more digit on the right multiplies the value by the radix
/// and adds the digit; a character that is no digit of the radix is the error.
pub proof fn digits_read_positionally(cs: Seq<char>, c: char, radix: u32)
    ensures
        read_digits(Seq::<char>::empty(), radix, 0) == Ok::<int, TryFromNumberErrorKind>(0),
        read_digits(cs, radix, 0) matches Ok(v) ==> read_digits(cs.push(c), radix, 0) == match digit_value(c, radix) {
            Some(d) => Ok::<int, TryFromNumberErrorKind>(v * radix + d),
            None => Err(TryFromNumberErrorKind::InvalidDigit(radix)),
        },
        read_digits(cs, radix, 0) matches Err(k) ==> read_digits(cs.push(c), radix, 0) == Err::<int, TryFromNumberErrorKind>(k),
{
    lemma_read_push(cs, c, radix, 0);
}

/// The punctuation lexemes: `'`, `(`, `)`, `[`, `]`, a `.` that does not begin `...`, and `#(`,
/// `#u8(`, `#'`.
pub proof fn punctuation_lexemes(s: Seq<char>, i: int)
    requires
        0 <= i < s.len(),
    ensures
        s[i] == '\'' ==> lexeme(s, i) == Scan::Matched(i + 1, LexemeView::Quote),
        s[i] == '(' ==> lexeme(s, i) == Scan::Matched(i + 1, LexemeView::LParen),
        s[i] == ')' ==> lexeme(s, i) == Scan::Matched(i + 1, LexemeView::RParen),
        s[i] == '[' ==> lexeme(s, i) == Scan::Matched(i + 1, LexemeView::LBracket),
        s[i] == ']' ==> lexeme(s, i) == Scan::Matched(i + 1, LexemeView::RBracket),
        s[i] == '.' && !has_prefix(s, i, seq!['.', '.', '.']) ==> lexeme(s, i) == Scan::Matched(
            i + 1,
            LexemeView::Period,
        ),
        has_prefix(s, i, seq!['#', '(']) ==> lexeme(s, i) == Scan::Matched(i + 2, LexemeView::HashParen),
        has_prefix(s, i, seq!['#', 'u', '8', '(']) ==> lexeme(s, i) == Scan::Matched(
            i + 4,
            LexemeView::Vu8Paren,
        ),
        has_prefix(s, i, seq!['#', '\'']) ==> lexeme(s, i) == Scan::Matched(i + 2, LexemeView::HashTick),
{
    let c = s[i];
    if c == '\'' || c == '(' || c == ')' || c == '[' || c == ']' || c == '.' {
        assert(!folds_to(s[i + 0], seq!['#', 'b'][0]));
        assert(tag_no_case(s, i, seq!['#', 'b']) is None);
        assert(tag_no_case(s, i, seq!['#', 'o']) is None);
        assert(tag_no_case(s, i, seq!['#', 'x']) is None);
        assert(tag_no_case(s, i, seq!['#', 'd']) is None);
        assert(tag_no_case(s, i, seq!['#', 't']) is None);
        assert(tag_no_case(s, i, seq!['#', 'f']) is None);
        assert(digits_end(s, i, 10) == i);
    }
    if c == '#' && i + 1 < s.len() && (s[i + 1] == '(' || s[i + 1] == 'u' || s[i + 1] == '\'') {
        let n = s[i + 1];
        assert(!folds_to(s[i + 1], seq!['#', 'b'][1]));
        assert(tag_no_case(s, i, seq!['#', 'b']) is None);
        assert(!folds_to(s[i + 1], seq!['#', 'o'][1]));
        assert(tag_no_case(s, i, seq!['#', 'o']) is None);
        assert(!folds_to(s[i + 1], seq!['#', 'x'][1]));
        assert(tag_no_case(s, i, seq!['#', 'x']) is None);
        assert(!folds_to(s[i + 1], seq!['#', 'd'][1]));
        assert(tag_no_case(s, i, seq!['#', 'd']) is None);
        assert(!folds_to(s[i + 1], seq!['#', 't'][1]));
        assert(tag_no_case(s, i, seq!['#', 't']) is None);
        assert(!folds_to(s[i + 1], seq!['#', 'f'][1]));
        assert(tag_no_case(s, i, seq!['#', 'f']) is None);
        assert(digits_end(s, i, 10) == i);
        if has_prefix(s, i, seq!['#', 'u', '8', '(']) {
            assert(s[i + 1] == seq!['#', 'u', '8', '('][1]);
        }
        if has_prefix(s, i, seq!['#', '(']) {
            assert(s[i + 1] == seq!['#', '('][1]);
        }
        if has_prefix(s, i, seq!['#', '\'']) {
            assert(s[i + 1] == seq!['#', '\''][1]);
        }
    }
    if has_prefix(s, i, seq!['#', '(']) {
        assert(s[i] == seq!['#', '('][0] && s[i + 1] == seq!['#', '('][1]);
    }
    if has_prefix(s, i, seq!['#', 'u', '8', '(']) {
        assert(s[i] == seq!['#', 'u', '8', '('][0] && s[i + 1] == seq!['#', 'u', '8', '('][1]);
        assert(!has_prefix(s, i, seq!['#', '(']));
    }
    if has_prefix(s, i, seq!['#', '\'']) {
        assert(s[i] == seq!['#', '\''][0] && s[i + 1] == seq!['#', '\''][1]);
        assert(!has_prefix(s, i, seq!['#', '(']));
        assert(!has_prefix(s, i, seq!['#', 'u', '8', '(']));
    }
}

// ---------------------------------------------------------------------------------------------
// Named characters
// ---------------------------------------------------------------------------------------------
/// The names of characters that R7RS gives (6.6).
pub open spec fn r7rs_character_name(c: EscapedCharacter) -> Seq<char> {
    match c {
        EscapedCharacter::Alarm => seq!['a', 'l', 'a', 'r', 'm'],
        EscapedCharacter::Backspace => seq!['b', 'a', 'c', 'k', 's', 'p', 'a', 'c', 'e'],
        EscapedCharacter::Delete => seq!['d', 'e', 'l', 'e', 't', 'e'],
        EscapedCharacter::Escape => seq!['e', 's', 'c', 'a', 'p', 'e'],
        EscapedCharacter::Newline => seq!['n', 'e', 'w', 'l', 'i', 'n', 'e'],
        EscapedCharacter::Null => seq!['n', 'u', 'l', 'l'],
        EscapedCharacter::Return => seq!['r', 'e', 't', 'u', 'r', 'n'],
        EscapedCharacter::Space => seq!['s', 'p', 'a', 'c', 'e'],
        EscapedCharacter::Tab => seq!['t', 'a', 'b'],
    }
}

proof fn lemma_after_ascii_bytes(s: Seq<char>, j: int, m: int)
    requires
        0 <= j,
        0 <= m,
        j + m <= s.len(),
        forall|q: int| j <= q < j + m ==> (#[trigger] s[q]) as u32 <= 0x7F,
    ensures
        after_bytes(s, j, m) == Some(j + m),
    decreases m,
{
    if m > 0 {
        assert((s[j] as u32) <= 0x7F);
        lemma_after_ascii_bytes(s, j + 1, m - 1);
    }
}

proof fn lemma_tag_fails_at(s: Seq<char>, j: int, t: Seq<char>, p: int)
    requires
        0 <= j,
        0 <= p < t.len(),
        j + p < s.len(),
        !folds_to(s[j + p], t[p]),
    ensures
        tag_no_case(s, j, t) is None,
{
}

proof fn lemma_name_matches(s: Seq<char>, j: int, c: EscapedCharacter, k: int)
    requires
        0 <= j,
        has_prefix(s, j, r7rs_character_name(c)),
        0 <= k < escape_order().len(),
        escape_order()[k] == c,
    ensures
        tag_no_case(s, j, escape_name(escape_order()[k])) == Some(j + r7rs_character_name(c).len()),
{
    let t = r7rs_character_name(c);
    assert(escape_name(c) =~= t);
    assert forall|q: int| j <= q < j + t.len() implies (#[trigger] s[q]) as u32 <= 0x7F by {
        assert(s[q] == s.subrange(j, j + t.len())[q - j]);
    }
    assert forall|q: int| 0 <= q < t.len() && j + q < s.len() implies folds_to(#[trigger] s[j + q], t[q]) by {
        assert(s[j + q] == s.subrange(j, j + t.len())[q]);
    }
    lemma_after_ascii_bytes(s, j, t.len() as int);
}

/// `#\` followed by the R7RS name of a character, in lowercase, is that named character.
pub proof fn named_character_literals(s: Seq<char>, i: int, c: EscapedCharacter)
    requires
        0 <= i,
        i + 2 <= s.len(),
        s[i] == '#',
        s[i + 1] == '\\',
        has_prefix(s, i + 2, r7rs_character_name(c)),
    ensures
        character(s, i) == Scan::Matched(
            i + 2 + r7rs_character_name(c).len(),
            CharacterView::Escaped(c),
        ),
{
    let j = i + 2;
    let t = r7rs_character_name(c);
    assert(s[j] == s.subrange(j, j + t.len())[0]);
    let names = escape_order();
    let k: int = match c {
        EscapedCharacter::Alarm => 0,
        EscapedCharacter::Backspace => 1,
        EscapedCharacter::Delete => 2,
        EscapedCharacter::Escape => 3,
        EscapedCharacter::Newline => 4,
        EscapedCharacter::Null => 5,
        EscapedCharacter::Return => 6,
        EscapedCharacter::Space => 7,
        EscapedCharacter::Tab => 8,
    };
    assert(names[k] == c);
    lemma_names_from(s, j, c, k, 0);
}

/// The names before the `k`-th, which is `c`'s, do not match where `c`'s name stands.
proof fn lemma_names_from(s: Seq<char>, j: int, c: EscapedCharacter, k: int, m: int)
    requires
        0 <= j,
        0 <= m <= k < 9,
        has_prefix(s, j, r7rs_character_name(c)),
        escape_order()[k] == c,
    ensures
        named_char_from(s, j, m) == Some((j + r7rs_character_name(c).len(), c)),
    decreases k - m,
{
    let t = r7rs_character_name(c);
    assert(s[j] == s.subrange(j, j + t.len())[0]);
    if m == k {
        lemma_name_matches(s, j, c, k);
    } else {
        lemma_names_from(s, j, c, k, m + 1);
        let u = escape_name(escape_order()[m]);
        if c == EscapedCharacter::Null && m == 4 {
            assert(s[j + 1] == s.subrange(j, j + t.len())[1]);
            lemma_tag_fails_at(s, j, u, 1);
        } else {
            assert(!folds_to(s[j + 0], u[0]));
            lemma_tag_fails_at(s, j, u, 0);
        }
    }
}

/// The radix that a prefix letter names: `b` 2, `o` 8, `x` 16, `d` 10, in either case.
pub open spec fn prefix_radix(letter: char) -> Option<u32> {
    if letter == 'b' || letter == 'B' {
        Some(2)
    } else if letter == 'o' || letter == 'O' {
        Some(8)
    } else if letter == 'x' || letter == 'X' {
        Some(16)
    } else if letter == 'd' || letter == 'D' {
        Some(10)
    } else {
        None
    }
}

proof fn lemma_two_char_tag(s: Seq<char>, i: int, t: Seq<char>)
    requires
        0 <= i,
        i + 2 <= s.len(),
        t.len() == 2,
        t[0] == '#',
        'a' <= t[1] && t[1] <= 'z',
        t[1] != 'k',
        s[i] == '#',
    ensures
        folds_to(s[i + 1], t[1]) ==> tag_no_case(s, i, t) == Some(i + 2),
        !folds_to(s[i + 1], t[1]) ==> tag_no_case(s, i, t) is None,
{
    if folds_to(s[i + 1], t[1]) {
        assert(folds_to(s[i + 0], t[0]));
        assert(s[i + 1] as u32 <= 0x7F);
        lemma_after_ascii_bytes(s, i, 2);
    } else {
        lemma_tag_fails_at(s, i, t, 1);
    }
}

proof fn lemma_radix_run_ends(s: Seq<char>, i: int, k: int, radix: u32)
    requires
        0 <= i <= k <= s.len(),
        forall|m: int| i <= m < k ==> digit_value(#[trigger] s[m], radix) is Some,
        k < s.len() ==> digit_value(s[k], radix) is None,
    ensures
        digits_end(s, i, radix) == k,
    decreases k - i,
{
    if i < k {
        assert(digit_value(s[i], radix) is Some);
        lemma_radix_run_ends(s, i + 1, k, radix);
    }
}

/// `#` and a radix letter, an optional `-`, then digits of that radix: a number of that radix
/// and sign whose digits are the longest run of digits of the radix.
pub proof fn radix_prefixed_numbers(s: Seq<char>, i: int, negative: bool, k: int)
    requires
        0 <= i,
        i + 2 <= s.len(),
        s[i] == '#',
        prefix_radix(s[i + 1]) is Some,
        negative == (i + 2 < s.len() && s[i + 2] == '-'),
        (if negative { i + 3 } else { i + 2 }) < k <= s.len(),
        forall|m: int|
            (if negative { i + 3 } else { i + 2 }) <= m < k ==> digit_value(
                #[trigger] s[m],
                prefix_radix(s[i + 1])->0,
            ) is Some,
        k < s.len() ==> digit_value(s[k], prefix_radix(s[i + 1])->0) is None,
    ensures
        number(s, i) == Some(
            (
                k,
                NumberView {
                    radix: prefix_radix(s[i + 1])->0,
                    negative,
                    contents: s.subrange(if negative { i + 3 } else { i + 2 }, k),
                },
            ),
        ),
{
    let radix = prefix_radix(s[i + 1])->0;
    let start = if negative { i + 3 } else { i + 2 };
    lemma_two_char_tag(s, i, seq!['#', 'b']);
    lemma_two_char_tag(s, i, seq!['#', 'o']);
    lemma_two_char_tag(s, i, seq!['#', 'x']);
    lemma_two_char_tag(s, i, seq!['#', 'd']);
    lemma_radix_run_ends(s, start, k, radix);
    if radix != 2 {
        assert(prefixed_number(s, i, 'b', 2) is None);
    }
    if radix != 8 {
        assert(prefixed_number(s, i, 'o', 8) is None);
    }
    if radix != 16 {
        assert(prefixed_number(s, i, 'x', 16) is None);
    }
}

/// `\x`, a nonempty run of hex digits and `;` begin an identifier, taking all of it.
pub proof fn inline_hex_escapes_begin_identifiers(s: Seq<char>, i: int, k: int)
    requires
        0 <= i,
        i + 2 < k < s.len(),
        s[i] == '\\',
        s[i + 1] == 'x',
        forall|m: int| i + 2 <= m < k ==> ascii_hex_char(#[trigger] s[m]),
        s[k] == ';',
    ensures
        initial(s, i) == Some(k + 1),
        subsequent(s, i) == Some(k + 1),
{
    lemma_hex_run_ends(s, i + 2, k);
}

} // verus!

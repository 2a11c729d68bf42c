//! The lexical grammar, stated over the characters of the input.
//!
//! Every rule reads the input `s` from position `i` and tells where it stops. A rule that fails
//! may leave the choice to the next alternative; only a `\` escape or a `#\` literal that ends
//! with the input asks for more input than there is, and that stops the whole lexer.
//!
//! Where a rule repeats another, it goes on only from a position that moved forward within the
//! input, which is what makes each repetition end; `laws::lexeme_consumes_input` and
//! `laws::space_item_consumes_input` show that lexemes and pieces of space always move forward,
//! so that condition never cuts the lexemes of an input short.
use vstd::prelude::*;

use crate::chars::{
    constituent, digit_value, is_ascii_hexdigit, special_initial, subsequent_char,
    whitespace_char,
};
use crate::lexeme::{CharacterView, EscapedCharacter, FragmentView, LexemeView};
use crate::number::NumberView;

verus! {

/// The outcome of a rule that may ask for more input.
pub enum Scan<T> {
    /// The rule matched up to (not including) the given position.
    Matched(int, T),
    /// The rule does not match here; the next alternative is tried.
    Failed,
    /// The input ended where the rule needed one more character.
    Incomplete,
}

/// `s[i]` is `c`.
pub open spec fn char_at(s: Seq<char>, i: int, c: char) -> bool {
    0 <= i < s.len() && s[i] == c
}

/// The input holds the exact text `t` at `i`.
pub open spec fn has_prefix(s: Seq<char>, i: int, t: Seq<char>) -> bool {
    0 <= i && i + t.len() <= s.len() && s.subrange(i, i + t.len()) == t
}

/// `c.to_lowercase() == t.to_lowercase()` for an ASCII character `t`: the two are the same
/// letter in either case, or equal, or `c` is the Kelvin sign, whose lowercase is `k`.
pub open spec fn folds_to(c: char, t: char) -> bool {
    ||| c == t
    ||| ('a' <= t && t <= 'z' && c as int + 32 == t as int)
    ||| ('A' <= t && t <= 'Z' && c as int == t as int + 32)
    ||| ((t == 'k' || t == 'K') && c == '\u{212A}')
}

/// The number of bytes of the UTF-8 encoding of `c`.
pub open spec fn utf8_width(c: char) -> int {
    if c as u32 <= 0x7F {
        1
    } else if c as u32 <= 0x7FF {
        2
    } else if c as u32 <= 0xFFFF {
        3
    } else {
        4
    }
}

/// The position after the characters from `i` whose encoding takes exactly `m` bytes, if the
/// `m`-th byte ends a character.
pub open spec fn after_bytes(s: Seq<char>, i: int, m: int) -> Option<int>
    decreases s.len() - i,
{
    if m == 0 {
        Some(i)
    } else if m < 0 || i < 0 || i >= s.len() {
        None
    } else {
        after_bytes(s, i + 1, m - utf8_width(s[i]))
    }
}

/// A case-insensitive tag of ASCII text `t`: the characters of the input and of the tag, as far
/// as both go, fold to the same lowercase, and the match takes as many bytes of the input as
/// the tag has.
pub open spec fn tag_no_case(s: Seq<char>, i: int, t: Seq<char>) -> Option<int> {
    if forall|j: int| 0 <= j < t.len() && i + j < s.len() ==> folds_to(#[trigger] s[i + j], t[j]) {
        after_bytes(s, i, t.len() as int)
    } else {
        None
    }
}

/// The end of the run of ASCII hex digits from `i`.
pub open spec fn hex_end(s: Seq<char>, i: int) -> int
    decreases s.len() - i,
{
    if 0 <= i < s.len() && is_ascii_hexdigit(s[i]) {
        hex_end(s, i + 1)
    } else {
        i
    }
}

/// The end of the run of digits of `radix` from `i`.
pub open spec fn digits_end(s: Seq<char>, i: int, radix: u32) -> int
    decreases s.len() - i,
{
    if 0 <= i < s.len() && digit_value(s[i], radix) is Some {
        digits_end(s, i + 1, radix)
    } else {
        i
    }
}

/// The end of the line from `i`: the next newline, or the end of the input.
pub open spec fn line_end(s: Seq<char>, i: int) -> int
    decreases s.len() - i,
{
    if 0 <= i < s.len() && s[i] != '\n' {
        line_end(s, i + 1)
    } else {
        i
    }
}

/// The end of the run of characters from `i` that are neither `"` nor `\`.
pub open spec fn unescaped_end(s: Seq<char>, i: int) -> int
    decreases s.len() - i,
{
    if 0 <= i < s.len() && s[i] != '"' && s[i] != '\\' {
        unescaped_end(s, i + 1)
    } else {
        i
    }
}

/// The end of the run of whitespace characters from `i`.
pub open spec fn whitespace_end(s: Seq<char>, i: int) -> int
    decreases s.len() - i,
{
    if 0 <= i < s.len() && whitespace_char(s[i]) {
        whitespace_end(s, i + 1)
    } else {
        i
    }
}

// ---------------------------------------------------------------------------------------------
// Whitespace and comments
// ---------------------------------------------------------------------------------------------
/// A line comment: `;`, the rest of the line, and the whitespace after it.
pub open spec fn comment(s: Seq<char>, i: int) -> Option<int> {
    if char_at(s, i, ';') {
        Some(whitespace_end(s, line_end(s, i + 1)))
    } else {
        None
    }
}

/// `|#` at `i`.
pub open spec fn closes_comment(s: Seq<char>, i: int) -> bool {
    char_at(s, i, '|') && char_at(s, i + 1, '#')
}

/// A nested comment `#| ... |#`, whose body may hold nested comments.
pub open spec fn nested_comment(s: Seq<char>, i: int) -> Option<int>
    decreases s.len() - i, 0int,
{
    if char_at(s, i, '#') && char_at(s, i + 1, '|') {
        let k = comment_body_end(s, i + 2);
        if closes_comment(s, k) {
            Some(k + 2)
        } else {
            None
        }
    } else {
        None
    }
}

/// Where the body of a nested comment that starts at `j` stops: each step takes a whole nested
/// comment if one starts there, else one character that does not begin `|#`.
pub open spec fn comment_body_end(s: Seq<char>, j: int) -> int
    decreases s.len() - j, 1int,
{
    if 0 <= j <= s.len() {
        match nested_comment(s, j) {
            Some(e) => if j < e <= s.len() {
                comment_body_end(s, e)
            } else {
                j
            },
            None => if j < s.len() && !closes_comment(s, j) {
                comment_body_end(s, j + 1)
            } else {
                j
            },
        }
    } else {
        j
    }
}

/// One piece of the space between lexemes: a whitespace character, a line comment or a nested
/// comment.
pub open spec fn space_item(s: Seq<char>, i: int) -> Option<int> {
    if 0 <= i < s.len() && whitespace_char(s[i]) {
        Some(i + 1)
    } else if comment(s, i) is Some {
        comment(s, i)
    } else {
        nested_comment(s, i)
    }
}

/// The end of the space between lexemes that starts at `i`.
pub open spec fn space_end(s: Seq<char>, i: int) -> int
    decreases s.len() - i,
{
    match space_item(s, i) {
        Some(e) => if i < e <= s.len() {
            space_end(s, e)
        } else {
            i
        },
        None => i,
    }
}

// ---------------------------------------------------------------------------------------------
// Characters
// ---------------------------------------------------------------------------------------------
/// The name of a named character.
pub open spec fn escape_name(c: EscapedCharacter) -> Seq<char> {
    match c {
        EscapedCharacter::Alarm => seq!['a', 'l', 'a', 'r', 'm'],
        EscapedCharacter::Backspace => seq!['b', 'a', 'c', 'k', 's', 'p', 'a', 'c', 'e'],
        EscapedCharacter::Delete => seq!['d', 'e', 'l', 'e', 't', 'e'],
        EscapedCharacter::Escape => seq!['e', 's', 'c', 'a', 'p', 'e'],
        EscapedCharacter::Newline => seq!['n', 'e', 'w', 'l', 'i', 'n', 'e'],
        EscapedCharacter::Null => seq!['n', 'u', 'l', 'l'],
        EscapedCharacter::Return => seq!['r', 'e', 't', 'u', 'r', 'n'],
        EscapedCharacter::Space => seq!['s', 'p', 'a', 'c', 'e'],
        EscapedCharacter::Tab => seq!['t', 'a', 'b'],
    }
}

/// The order in which the names of characters are tried.
pub open spec fn escape_order() -> Seq<EscapedCharacter> {
    seq![
        EscapedCharacter::Alarm,
        EscapedCharacter::Backspace,
        EscapedCharacter::Delete,
        EscapedCharacter::Escape,
        EscapedCharacter::Newline,
        EscapedCharacter::Null,
        EscapedCharacter::Return,
        EscapedCharacter::Space,
        EscapedCharacter::Tab,
    ]
}

/// The first of the names, from the `k`-th on, that matches at `j` regardless of case.
pub open spec fn named_char_from(s: Seq<char>, j: int, k: int) -> Option<(int, EscapedCharacter)>
    decreases escape_order().len() - k,
{
    if 0 <= k < escape_order().len() {
        match tag_no_case(s, j, escape_name(escape_order()[k])) {
            Some(e) => Some((e, escape_order()[k])),
            None => named_char_from(s, j, k + 1),
        }
    } else {
        None
    }
}

/// `x` (either case) and a run of hex digits after it.
pub open spec fn hex_char_code(s: Seq<char>, j: int) -> Option<int> {
    match tag_no_case(s, j, seq!['x']) {
        Some(k) => if hex_end(s, k) > k {
            Some(k)
        } else {
            None
        },
        None => None,
    }
}

/// A character literal `#\...`: a name, a hex code after `x`, or any one character.
pub open spec fn character(s: Seq<char>, i: int) -> Scan<CharacterView> {
    if char_at(s, i, '#') && char_at(s, i + 1, '\\') {
        let j = i + 2;
        match named_char_from(s, j, 0) {
            Some((e, c)) => Scan::Matched(e, CharacterView::Escaped(c)),
            None => match hex_char_code(s, j) {
                Some(k) => Scan::Matched(hex_end(s, k), CharacterView::Unicode(s.subrange(k, hex_end(s, k)))),
                None => if j < s.len() {
                    Scan::Matched(j + 1, CharacterView::Literal(s[j]))
                } else {
                    Scan::Incomplete
                },
            },
        }
    } else {
        Scan::Failed
    }
}

// ---------------------------------------------------------------------------------------------
// Numbers
// ---------------------------------------------------------------------------------------------
/// An optional `-` at `j` and a nonempty run of digits of `radix` after it.
pub open spec fn signed_digits(s: Seq<char>, j: int, radix: u32) -> Option<(int, NumberView)> {
    let negative = char_at(s, j, '-');
    let k = if negative { j + 1 } else { j };
    let e = digits_end(s, k, radix);
    if e > k {
        Some((e, NumberView { radix, negative, contents: s.subrange(k, e) }))
    } else {
        None
    }
}

/// `#` and a radix letter (either case), then signed digits of that radix.
pub open spec fn prefixed_number(s: Seq<char>, i: int, letter: char, radix: u32) -> Option<(int, NumberView)> {
    match tag_no_case(s, i, seq!['#', letter]) {
        Some(j) => signed_digits(s, j, radix),
        None => None,
    }
}

/// A numeric literal: binary, octal or hexadecimal after `#b`, `#o`, `#x`, else decimal after an
/// optional `#d`.
pub open spec fn number(s: Seq<char>, i: int) -> Option<(int, NumberView)> {
    if prefixed_number(s, i, 'b', 2) is Some {
        prefixed_number(s, i, 'b', 2)
    } else if prefixed_number(s, i, 'o', 8) is Some {
        prefixed_number(s, i, 'o', 8)
    } else if prefixed_number(s, i, 'x', 16) is Some {
        prefixed_number(s, i, 'x', 16)
    } else {
        let j = match tag_no_case(s, i, seq!['#', 'd']) {
            Some(j) => j,
            None => i,
        };
        signed_digits(s, j, 10)
    }
}

// ---------------------------------------------------------------------------------------------
// Identifiers and booleans
// ---------------------------------------------------------------------------------------------
/// `\x`, a run of hex digits and `;`.
pub open spec fn inline_hex_escape(s: Seq<char>, i: int) -> Option<int> {
    if char_at(s, i, '\\') && char_at(s, i + 1, 'x') && hex_end(s, i + 2) > i + 2 && char_at(
        s,
        hex_end(s, i + 2),
        ';',
    ) {
        Some(hex_end(s, i + 2) + 1)
    } else {
        None
    }
}

/// The beginning of an identifier: a constituent or special initial character, or an inline
/// hex escape.
pub open spec fn initial(s: Seq<char>, i: int) -> Option<int> {
    if 0 <= i < s.len() && (constituent(s[i]) || special_initial(s[i])) {
        Some(i + 1)
    } else {
        inline_hex_escape(s, i)
    }
}

/// A continuation of an identifier: what may begin one, or a digit, a mark or one of `+-.@`.
pub open spec fn subsequent(s: Seq<char>, i: int) -> Option<int> {
    if initial(s, i) is Some {
        initial(s, i)
    } else if 0 <= i < s.len() && subsequent_char(s[i]) {
        Some(i + 1)
    } else {
        None
    }
}

/// The end of the run of continuations from `i`.
pub open spec fn subsequents_end(s: Seq<char>, i: int) -> int
    decreases s.len() - i,
{
    match subsequent(s, i) {
        Some(e) => if i < e <= s.len() {
            subsequents_end(s, e)
        } else {
            i
        },
        None => i,
    }
}

/// `+`, `-`, `...`, or `->` and continuations.
pub open spec fn peculiar_identifier(s: Seq<char>, i: int) -> Option<int> {
    if char_at(s, i, '+') || char_at(s, i, '-') {
        Some(i + 1)
    } else if has_prefix(s, i, seq!['.', '.', '.']) {
        Some(i + 3)
    } else if has_prefix(s, i, seq!['-', '>']) {
        Some(subsequents_end(s, i + 2))
    } else {
        None
    }
}

/// An identifier: its text is the input it spans.
pub open spec fn identifier(s: Seq<char>, i: int) -> Option<int> {
    match initial(s, i) {
        Some(j) => Some(subsequents_end(s, j)),
        None => peculiar_identifier(s, i),
    }
}

/// `#t` or `#f`, either case.
pub open spec fn boolean(s: Seq<char>, i: int) -> Option<(int, bool)> {
    match tag_no_case(s, i, seq!['#', 't']) {
        Some(e) => Some((e, true)),
        None => match tag_no_case(s, i, seq!['#', 'f']) {
            Some(e) => Some((e, false)),
            None => None,
        },
    }
}

// ---------------------------------------------------------------------------------------------
// Strings
// ---------------------------------------------------------------------------------------------
/// The character that a one-letter escape `\c` in a string stands for.
pub open spec fn escaped_in_string(c: char) -> char {
    if c == 'a' {
        '\u{07}'
    } else if c == 'b' {
        '\u{08}'
    } else if c == 't' {
        '\t'
    } else if c == 'n' {
        '\n'
    } else if c == 'v' {
        '\u{0B}'
    } else if c == 'f' {
        '\u{0C}'
    } else if c == 'r' {
        '\r'
    } else {
        c
    }
}

/// What follows a `\` in a string, from `k`: `x`, hex digits and `;`, or any one character.
pub open spec fn string_escape(s: Seq<char>, k: int) -> Scan<FragmentView> {
    match hex_char_code(s, k) {
        Some(m) if char_at(s, hex_end(s, m), ';') => Scan::Matched(
            hex_end(s, m) + 1,
            FragmentView::HexValue(s.subrange(m, hex_end(s, m))),
        ),
        _ => if 0 <= k < s.len() {
            Scan::Matched(k + 1, FragmentView::Escaped(escaped_in_string(s[k])))
        } else {
            Scan::Incomplete
        },
    }
}

/// One piece of a string: an escape, or a nonempty run of plain characters.
pub open spec fn fragment(s: Seq<char>, j: int) -> Scan<FragmentView> {
    if char_at(s, j, '\\') {
        string_escape(s, j + 1)
    } else if unescaped_end(s, j) > j {
        Scan::Matched(unescaped_end(s, j), FragmentView::Unescaped(s.subrange(j, unescaped_end(s, j))))
    } else {
        Scan::Failed
    }
}

/// The pieces of a string from `j` on, as many as match.
pub open spec fn fragments(s: Seq<char>, j: int) -> Scan<Seq<FragmentView>>
    decreases s.len() - j,
{
    match fragment(s, j) {
        Scan::Matched(e, f) => if j < e <= s.len() {
            match fragments(s, e) {
                Scan::Matched(k, fs) => Scan::Matched(k, seq![f] + fs),
                Scan::Failed => Scan::Failed,
                Scan::Incomplete => Scan::Incomplete,
            }
        } else {
            Scan::Matched(j, Seq::empty())
        },
        Scan::Failed => Scan::Matched(j, Seq::empty()),
        Scan::Incomplete => Scan::Incomplete,
    }
}

/// A string literal: `"`, its pieces, `"`.
pub open spec fn string(s: Seq<char>, i: int) -> Scan<Seq<FragmentView>> {
    if char_at(s, i, '"') {
        match fragments(s, i + 1) {
            Scan::Matched(k, fs) => if char_at(s, k, '"') {
                Scan::Matched(k + 1, fs)
            } else {
                Scan::Failed
            },
            Scan::Failed => Scan::Failed,
            Scan::Incomplete => Scan::Incomplete,
        }
    } else {
        Scan::Failed
    }
}

// ---------------------------------------------------------------------------------------------
// Lexemes
// ---------------------------------------------------------------------------------------------
/// The single-character and short punctuation lexemes, tried in this order: `.`, `'`, `(`, `)`,
/// `[`, `]`, `#(`, `#u8(`, `#'`.
pub open spec fn punctuation(s: Seq<char>, i: int) -> Option<(int, LexemeView)> {
    if char_at(s, i, '.') {
        Some((i + 1, LexemeView::Period))
    } else if char_at(s, i, '\'') {
        Some((i + 1, LexemeView::Quote))
    } else if char_at(s, i, '(') {
        Some((i + 1, LexemeView::LParen))
    } else if char_at(s, i, ')') {
        Some((i + 1, LexemeView::RParen))
    } else if char_at(s, i, '[') {
        Some((i + 1, LexemeView::LBracket))
    } else if char_at(s, i, ']') {
        Some((i + 1, LexemeView::RBracket))
    } else if has_prefix(s, i, seq!['#', '(']) {
        Some((i + 2, LexemeView::HashParen))
    } else if has_prefix(s, i, seq!['#', 'u', '8', '(']) {
        Some((i + 4, LexemeView::Vu8Paren))
    } else if has_prefix(s, i, seq!['#', '\'']) {
        Some((i + 2, LexemeView::HashTick))
    } else {
        None
    }
}

/// One lexeme at `i`: the first of character, number, identifier, boolean, string and
/// punctuation that matches.
pub open spec fn lexeme(s: Seq<char>, i: int) -> Scan<LexemeView> {
    match character(s, i) {
        Scan::Matched(e, c) => Scan::Matched(e, LexemeView::Character(c)),
        Scan::Incomplete => Scan::Incomplete,
        Scan::Failed => match number(s, i) {
            Some((e, n)) => Scan::Matched(e, LexemeView::Number(n)),
            None => match identifier(s, i) {
                Some(e) => Scan::Matched(e, LexemeView::Identifier(s.subrange(i, e))),
                None => match boolean(s, i) {
                    Some((e, b)) => Scan::Matched(e, LexemeView::Boolean(b)),
                    None => match string(s, i) {
                        Scan::Matched(e, fs) => Scan::Matched(e, LexemeView::String(fs)),
                        Scan::Incomplete => Scan::Incomplete,
                        Scan::Failed => match punctuation(s, i) {
                            Some((e, l)) => Scan::Matched(e, l),
                            None => Scan::Failed,
                        },
                    },
                },
            },
        },
    }
}

/// Why the input cannot be split into lexemes.
pub enum LexFailure {
    /// The input ended inside an escape that needs one more character.
    Incomplete,
    /// No lexeme starts at this position.
    NoLexeme(int),
}

/// The lexemes of the input from `i` on, each with the position it starts at: space, then a
/// lexeme, and so on until only space is left.
pub open spec fn lexemes(s: Seq<char>, i: int) -> Result<Seq<(int, LexemeView)>, LexFailure>
    decreases s.len() - i,
{
    let j = space_end(s, i);
    if !(i <= j < s.len()) {
        Ok(Seq::empty())
    } else {
        match lexeme(s, j) {
            Scan::Matched(e, l) => if j < e <= s.len() {
                match lexemes(s, e) {
                    Ok(rest) => Ok(seq![(j, l)] + rest),
                    Err(f) => Err(f),
                }
            } else {
                Err(LexFailure::NoLexeme(j))
            },
            Scan::Incomplete => Err(LexFailure::Incomplete),
            Scan::Failed => Err(LexFailure::NoLexeme(j)),
        }
    }
}

} // verus!

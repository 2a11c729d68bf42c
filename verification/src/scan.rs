//! The rules of the grammar, run on the characters of a [`Source`]. Each function here gives
//! exactly what the rule of the same name in `grammar` says.
use vstd::prelude::*;

use crate::chars::{
    is_constituent, is_hex_digit, is_special_initial, is_subsequent_char, is_whitespace_char,
    to_digit,
};
use crate::grammar;
use crate::grammar::{folds_to, Scan};
use crate::lexeme::{
    fragments_view, Character, EscapedCharacter, Fragment, FragmentView, Lexeme,
};
use crate::number::{Number, NumberView};
use crate::source::{char_width, Source};
use std::borrow::Cow;

verus! {

/// The outcome of a rule run on the input.
pub enum Scanned<T> {
    Matched(usize, T),
    Failed,
    Incomplete,
}

impl<T: View> View for Scanned<T> {
    type V = Scan<T::V>;

    open spec fn view(&self) -> Scan<T::V> {
        match self {
            Scanned::Matched(e, v) => Scan::Matched(*e as int, v@),
            Scanned::Failed => Scan::Failed,
            Scanned::Incomplete => Scan::Incomplete,
        }
    }
}

/// A position, as the grammar states it.
pub open spec fn position(r: Option<usize>) -> Option<int> {
    match r {
        Some(e) => Some(e as int),
        None => None,
    }
}

/// `s[i] == c`.
pub fn char_at(src: &Source, i: usize, c: char) -> (r: bool)
    requires
        src.wf(),
    ensures
        r == grammar::char_at(src.chars@, i as int, c),
{
    i < src.chars.len() && src.chars[i] == c
}

/// Whether `c` folds to the lowercase of the ASCII character `t`.
pub fn folds(c: char, t: char) -> (r: bool)
    ensures
        r == folds_to(c, t),
{
    c == t || ('a' <= t && t <= 'z' && (c as u32) + 32 == (t as u32)) || ('A' <= t && t <= 'Z'
        && (c as u32) == (t as u32) + 32) || ((t == 'k' || t == 'K') && c == '\u{212A}')
}

/// The position after `m` bytes of characters from `i`, if the `m`-th byte ends a character.
pub fn after_bytes(src: &Source, i: usize, m: usize) -> (r: Option<usize>)
    requires
        src.wf(),
        i <= src.chars@.len(),
    ensures
        position(r) == grammar::after_bytes(src.chars@, i as int, m as int),
        r matches Some(e) ==> i <= e <= src.chars@.len(),
        m > 0 ==> (r matches Some(e) ==> i < e),
{
    let n = src.chars.len();
    let mut k = i;
    let mut left = m;
    while left > 0
        invariant
            src.wf(),
            n == src.chars@.len(),
            i <= k <= n,
            k == i ==> left == m,
            grammar::after_bytes(src.chars@, i as int, m as int) == grammar::after_bytes(
                src.chars@,
                k as int,
                left as int,
            ),
        decreases left,
    {
        if k >= n {
            return None;
        }
        let w = char_width(src.chars[k]);
        if w > left {
            proof {
                assert(grammar::after_bytes(src.chars@, k + 1, left - w) is None);
            }
            return None;
        }
        left = left - w;
        k = k + 1;
    }
    Some(k)
}

/// A case-insensitive tag of ASCII text.
pub fn tag_no_case(src: &Source, i: usize, t: &[char]) -> (r: Option<usize>)
    requires
        src.wf(),
        i <= src.chars@.len(),
        forall|k: int| 0 <= k < t@.len() ==> (#[trigger] t@[k]) as u32 <= 0x7F,
    ensures
        position(r) == grammar::tag_no_case(src.chars@, i as int, t@),
        r matches Some(e) ==> i <= e <= src.chars@.len(),
        t@.len() > 0 ==> (r matches Some(e) ==> i < e),
{
    let n = src.chars.len();
    let mut j: usize = 0;
    while j < t.len() && j < n - i
        invariant
            src.wf(),
            n == src.chars@.len(),
            i <= n,
            j <= t@.len(),
            forall|jj: int| 0 <= jj < j ==> folds_to(#[trigger] src.chars@[i + jj], t@[jj]),
        decreases t@.len() - j,
    {
        if !folds(src.chars[i + j], t[j]) {
            return None;
        }
        j = j + 1;
    }
    after_bytes(src, i, t.len())
}

/// Whether the input holds the exact text `t` at `i`.
pub fn has_prefix(src: &Source, i: usize, t: &[char]) -> (r: bool)
    requires
        src.wf(),
    ensures
        r == grammar::has_prefix(src.chars@, i as int, t@),
{
    let n = src.chars.len();
    if i > n || t.len() > n - i {
        return false;
    }
    let mut j: usize = 0;
    while j < t.len()
        invariant
            src.wf(),
            n == src.chars@.len(),
            i + t@.len() <= n,
            j <= t@.len(),
            forall|jj: int| 0 <= jj < j ==> src.chars@[i + jj] == t@[jj],
        decreases t@.len() - j,
    {
        if src.chars[i + j] != t[j] {
            proof {
                assert(src.chars@.subrange(i as int, i + t@.len())[j as int] != t@[j as int]);
            }
            return false;
        }
        j = j + 1;
    }
    proof {
        assert(src.chars@.subrange(i as int, i + t@.len()) =~= t@);
    }
    true
}

/// The end of the run of ASCII hex digits from `i`.
pub fn hex_end(src: &Source, i: usize) -> (e: usize)
    requires
        src.wf(),
        i <= src.chars@.len(),
    ensures
        e == grammar::hex_end(src.chars@, i as int),
        i <= e <= src.chars@.len(),
{
    let mut k = i;
    while k < src.chars.len() && is_hex_digit(src.chars[k])
        invariant
            src.wf(),
            i <= k <= src.chars@.len(),
            grammar::hex_end(src.chars@, i as int) == grammar::hex_end(src.chars@, k as int),
        decreases src.chars@.len() - k,
    {
        k = k + 1;
    }
    k
}

/// The end of the run of digits of `radix` from `i`.
pub fn digits_end(src: &Source, i: usize, radix: u32) -> (e: usize)
    requires
        src.wf(),
        i <= src.chars@.len(),
        2 <= radix <= 36,
    ensures
        e == grammar::digits_end(src.chars@, i as int, radix),
        i <= e <= src.chars@.len(),
{
    let mut k = i;
    while k < src.chars.len() && to_digit(src.chars[k], radix).is_some()
        invariant
            src.wf(),
            2 <= radix <= 36,
            i <= k <= src.chars@.len(),
            grammar::digits_end(src.chars@, i as int, radix) == grammar::digits_end(
                src.chars@,
                k as int,
                radix,
            ),
        decreases src.chars@.len() - k,
    {
        k = k + 1;
    }
    k
}

/// The end of the line from `i`.
pub fn line_end(src: &Source, i: usize) -> (e: usize)
    requires
        src.wf(),
        i <= src.chars@.len(),
    ensures
        e == grammar::line_end(src.chars@, i as int),
        i <= e <= src.chars@.len(),
{
    let mut k = i;
    while k < src.chars.len() && src.chars[k] != '\n'
        invariant
            src.wf(),
            i <= k <= src.chars@.len(),
            grammar::line_end(src.chars@, i as int) == grammar::line_end(src.chars@, k as int),
        decreases src.chars@.len() - k,
    {
        k = k + 1;
    }
    k
}

/// The end of the run of characters from `i` that are neither `"` nor `\`.
pub fn unescaped_end(src: &Source, i: usize) -> (e: usize)
    requires
        src.wf(),
        i <= src.chars@.len(),
    ensures
        e == grammar::unescaped_end(src.chars@, i as int),
        i <= e <= src.chars@.len(),
{
    let mut k = i;
    while k < src.chars.len() && src.chars[k] != '"' && src.chars[k] != '\\'
        invariant
            src.wf(),
            i <= k <= src.chars@.len(),
            grammar::unescaped_end(src.chars@, i as int) == grammar::unescaped_end(
                src.chars@,
                k as int,
            ),
        decreases src.chars@.len() - k,
    {
        k = k + 1;
    }
    k
}

/// The end of the run of whitespace characters from `i`.
pub fn whitespace_end(src: &Source, i: usize) -> (e: usize)
    requires
        src.wf(),
        i <= src.chars@.len(),
    ensures
        e == grammar::whitespace_end(src.chars@, i as int),
        i <= e <= src.chars@.len(),
{
    let mut k = i;
    while k < src.chars.len() && is_whitespace_char(src.chars[k])
        invariant
            src.wf(),
            i <= k <= src.chars@.len(),
            grammar::whitespace_end(src.chars@, i as int) == grammar::whitespace_end(
                src.chars@,
                k as int,
            ),
        decreases src.chars@.len() - k,
    {
        k = k + 1;
    }
    k
}

/// A whitespace character at `i`.
pub fn whitespace(src: &Source, i: usize) -> (r: bool)
    requires
        src.wf(),
    ensures
        r == (0 <= i < src.chars@.len() && crate::chars::whitespace_char(src.chars@[i as int])),
{
    i < src.chars.len() && is_whitespace_char(src.chars[i])
}

/// A line comment at `i`.
pub fn comment(src: &Source, i: usize) -> (r: Option<usize>)
    requires
        src.wf(),
        i <= src.chars@.len(),
    ensures
        position(r) == grammar::comment(src.chars@, i as int),
        r matches Some(e) ==> i < e <= src.chars@.len(),
{
    if char_at(src, i, ';') {
        let e = line_end(src, i + 1);
        Some(whitespace_end(src, e))
    } else {
        None
    }
}

/// `|#` at `i`.
pub fn closes_comment(src: &Source, i: usize) -> (r: bool)
    requires
        src.wf(),
        i <= src.chars@.len(),
    ensures
        r == grammar::closes_comment(src.chars@, i as int),
{
    pair_at(src, i, '|', '#')
}

/// The characters `a` and `b` at `i` and `i + 1`.
pub fn pair_at(src: &Source, i: usize, a: char, b: char) -> (r: bool)
    requires
        src.wf(),
        i <= src.chars@.len(),
    ensures
        r == (grammar::char_at(src.chars@, i as int, a) && grammar::char_at(src.chars@, i + 1, b)),
{
    i < src.chars.len() && src.chars[i] == a && src.chars.len() - i > 1 && src.chars[i + 1] == b
}

/// A nested comment at `i`.
pub fn nested_comment(src: &Source, i: usize) -> (r: Option<usize>)
    requires
        src.wf(),
        i <= src.chars@.len(),
    ensures
        position(r) == grammar::nested_comment(src.chars@, i as int),
        r matches Some(e) ==> i < e <= src.chars@.len(),
    decreases src.chars@.len() - i,
{
    if !pair_at(src, i, '#', '|') {
        return None;
    }
    let ghost s = src.chars@;
    let mut j = i + 2;
    loop
        invariant
            src.wf(),
            s == src.chars@,
            i + 2 <= j <= s.len(),
            grammar::char_at(s, i as int, '#') && grammar::char_at(s, i + 1, '|'),
            grammar::comment_body_end(s, i + 2) == grammar::comment_body_end(s, j as int),
        decreases s.len() - j,
    {
        match nested_comment(src, j) {
            Some(e) => {
                j = e;
            },
            None => {
                if j < src.chars.len() && !closes_comment(src, j) {
                    j = j + 1;
                } else if closes_comment(src, j) {
                    assert(grammar::comment_body_end(s, j as int) == j);
                    return Some(j + 2);
                } else {
                    assert(grammar::comment_body_end(s, j as int) == j);
                    return None;
                }
            },
        }
    }
}

/// One piece of the space between lexemes at `i`.
pub fn space_item(src: &Source, i: usize) -> (r: Option<usize>)
    requires
        src.wf(),
        i <= src.chars@.len(),
    ensures
        position(r) == grammar::space_item(src.chars@, i as int),
        r matches Some(e) ==> i < e <= src.chars@.len(),
{
    if whitespace(src, i) {
        Some(i + 1)
    } else {
        match comment(src, i) {
            Some(e) => Some(e),
            None => nested_comment(src, i),
        }
    }
}

/// The end of the space between lexemes from `i`.
pub fn interlexeme_space(src: &Source, i: usize) -> (e: usize)
    requires
        src.wf(),
        i <= src.chars@.len(),
    ensures
        e == grammar::space_end(src.chars@, i as int),
        i <= e <= src.chars@.len(),
{
    let mut k = i;
    loop
        invariant
            src.wf(),
            i <= k <= src.chars@.len(),
            grammar::space_end(src.chars@, i as int) == grammar::space_end(src.chars@, k as int),
        decreases src.chars@.len() - k,
    {
        match space_item(src, k) {
            Some(e) => {
                k = e;
            },
            None => {
                return k;
            },
        }
    }
}

// ---------------------------------------------------------------------------------------------
// Characters
// ---------------------------------------------------------------------------------------------
/// The `k`-th named character in the order they are tried.
fn escape_at(k: usize) -> (c: EscapedCharacter)
    requires
        k < 9,
    ensures
        c == grammar::escape_order()[k as int],
{
    if k == 0 {
        EscapedCharacter::Alarm
    } else if k == 1 {
        EscapedCharacter::Backspace
    } else if k == 2 {
        EscapedCharacter::Delete
    } else if k == 3 {
        EscapedCharacter::Escape
    } else if k == 4 {
        EscapedCharacter::Newline
    } else if k == 5 {
        EscapedCharacter::Null
    } else if k == 6 {
        EscapedCharacter::Return
    } else if k == 7 {
        EscapedCharacter::Space
    } else {
        EscapedCharacter::Tab
    }
}

/// The name of a named character.
fn escape_name(c: EscapedCharacter) -> (t: &'static [char])
    ensures
        t@ == grammar::escape_name(c),
{
    match c {
        EscapedCharacter::Alarm => &['a', 'l', 'a', 'r', 'm'],
        EscapedCharacter::Backspace => &['b', 'a', 'c', 'k', 's', 'p', 'a', 'c', 'e'],
        EscapedCharacter::Delete => &['d', 'e', 'l', 'e', 't', 'e'],
        EscapedCharacter::Escape => &['e', 's', 'c', 'a', 'p', 'e'],
        EscapedCharacter::Newline => &['n', 'e', 'w', 'l', 'i', 'n', 'e'],
        EscapedCharacter::Null => &['n', 'u', 'l', 'l'],
        EscapedCharacter::Return => &['r', 'e', 't', 'u', 'r', 'n'],
        EscapedCharacter::Space => &['s', 'p', 'a', 'c', 'e'],
        EscapedCharacter::Tab => &['t', 'a', 'b'],
    }
}

/// The first of the names from the `k`-th on that matches at `j`.
fn named_char_from(src: &Source, j: usize, k: usize) -> (r: Option<(usize, EscapedCharacter)>)
    requires
        src.wf(),
        j <= src.chars@.len(),
    ensures
        match r {
            Some((e, c)) => grammar::named_char_from(src.chars@, j as int, k as int) == Some(
                (e as int, c),
            ) && j <= e <= src.chars@.len(),
            None => grammar::named_char_from(src.chars@, j as int, k as int) is None,
        },
    decreases 9 - k,
{
    if k >= 9 {
        return None;
    }
    let c = escape_at(k);
    match tag_no_case(src, j, escape_name(c)) {
        Some(e) => Some((e, c)),
        None => named_char_from(src, j, k + 1),
    }
}

/// `x` (either case) followed by hex digits, at `j`: the position after the `x`.
fn hex_char_code(src: &Source, j: usize) -> (r: Option<usize>)
    requires
        src.wf(),
        j <= src.chars@.len(),
    ensures
        position(r) == grammar::hex_char_code(src.chars@, j as int),
        r matches Some(k) ==> j < k < src.chars@.len(),
{
    match tag_no_case(src, j, &['x']) {
        Some(k) => if hex_end(src, k) > k {
            Some(k)
        } else {
            None
        },
        None => None,
    }
}

/// A character literal at `i`.
pub fn character(src: &Source, i: usize) -> (r: Scanned<Character>)
    requires
        src.wf(),
        i <= src.chars@.len(),
    ensures
        r@ == grammar::character(src.chars@, i as int),
        r matches Scanned::Matched(e, _) ==> i < e <= src.chars@.len(),
{
    if !pair_at(src, i, '#', '\\') {
        return Scanned::Failed;
    }
    let j = i + 2;
    match named_char_from(src, j, 0) {
        Some((e, c)) => Scanned::Matched(e, Character::Escaped(c)),
        None => match hex_char_code(src, j) {
            Some(k) => {
                let e = hex_end(src, k);
                Scanned::Matched(e, Character::Unicode(src.slice(k, e).to_owned()))
            },
            None => if j < src.chars.len() {
                Scanned::Matched(j + 1, Character::Literal(src.chars[j]))
            } else {
                Scanned::Incomplete
            },
        },
    }
}

// ---------------------------------------------------------------------------------------------
// Numbers
// ---------------------------------------------------------------------------------------------
/// How a found number relates to what the grammar says.
pub open spec fn number_found<'a>(r: Option<(usize, Number<'a>)>, g: Option<(int, NumberView)>) -> bool {
    match r {
        Some((e, n)) => g == Some((e as int, n@)),
        None => g is None,
    }
}

fn signed_digits<'a>(src: &Source<'a>, j: usize, radix: u32) -> (r: Option<(usize, Number<'a>)>)
    requires
        src.wf(),
        j <= src.chars@.len(),
        2 <= radix <= 36,
    ensures
        number_found(r, grammar::signed_digits(src.chars@, j as int, radix)),
        r matches Some((e, _)) ==> j < e <= src.chars@.len(),
{
    let negative = char_at(src, j, '-');
    let k = if negative {
        j + 1
    } else {
        j
    };
    let e = digits_end(src, k, radix);
    if e > k {
        Some((e, Number::new(radix, negative, src.slice(k, e))))
    } else {
        None
    }
}

fn prefixed_number<'a>(src: &Source<'a>, i: usize, letter: char, radix: u32) -> (r: Option<(usize, Number<'a>)>)
    requires
        src.wf(),
        i <= src.chars@.len(),
        2 <= radix <= 36,
        letter as u32 <= 0x7F,
    ensures
        number_found(r, grammar::prefixed_number(src.chars@, i as int, letter, radix)),
        r matches Some((e, _)) ==> i < e <= src.chars@.len(),
{
    let t = ['#', letter];
    proof {
        assert(t@ == seq!['#', letter]);
        assert(forall|k: int| 0 <= k < t@.len() ==> (#[trigger] t@[k]) as u32 <= 0x7F);
    }
    match tag_no_case(src, i, &t) {
        Some(j) => signed_digits(src, j, radix),
        None => None,
    }
}

/// A numeric literal at `i`.
pub fn number<'a>(src: &Source<'a>, i: usize) -> (r: Option<(usize, Number<'a>)>)
    requires
        src.wf(),
        i <= src.chars@.len(),
    ensures
        number_found(r, grammar::number(src.chars@, i as int)),
        r matches Some((e, _)) ==> i < e <= src.chars@.len(),
{
    if let Some(r) = prefixed_number(src, i, 'b', 2) {
        return Some(r);
    }
    if let Some(r) = prefixed_number(src, i, 'o', 8) {
        return Some(r);
    }
    if let Some(r) = prefixed_number(src, i, 'x', 16) {
        return Some(r);
    }
    let j = match tag_no_case(src, i, &['#', 'd']) {
        Some(j) => j,
        None => i,
    };
    signed_digits(src, j, 10)
}

// ---------------------------------------------------------------------------------------------
// Identifiers and booleans
// ---------------------------------------------------------------------------------------------
/// `\x`, hex digits and `;` at `i`.
pub fn inline_hex_escape(src: &Source, i: usize) -> (r: Option<usize>)
    requires
        src.wf(),
        i <= src.chars@.len(),
    ensures
        position(r) == grammar::inline_hex_escape(src.chars@, i as int),
        r matches Some(e) ==> i < e <= src.chars@.len(),
{
    if pair_at(src, i, '\\', 'x') {
        let e = hex_end(src, i + 2);
        if e > i + 2 && char_at(src, e, ';') {
            return Some(e + 1);
        }
    }
    None
}

/// What may begin an identifier, at `i`.
pub fn initial(src: &Source, i: usize) -> (r: Option<usize>)
    requires
        src.wf(),
        i <= src.chars@.len(),
    ensures
        position(r) == grammar::initial(src.chars@, i as int),
        r matches Some(e) ==> i < e <= src.chars@.len(),
{
    if i < src.chars.len() && (is_constituent(src.chars[i]) || is_special_initial(src.chars[i])) {
        Some(i + 1)
    } else {
        inline_hex_escape(src, i)
    }
}

/// What may continue an identifier, at `i`.
pub fn subsequent(src: &Source, i: usize) -> (r: Option<usize>)
    requires
        src.wf(),
        i <= src.chars@.len(),
    ensures
        position(r) == grammar::subsequent(src.chars@, i as int),
        r matches Some(e) ==> i < e <= src.chars@.len(),
{
    match initial(src, i) {
        Some(e) => Some(e),
        None => if i < src.chars.len() && is_subsequent_char(src.chars[i]) {
            Some(i + 1)
        } else {
            None
        },
    }
}

/// The end of the run of continuations from `i`.
pub fn subsequents_end(src: &Source, i: usize) -> (e: usize)
    requires
        src.wf(),
        i <= src.chars@.len(),
    ensures
        e == grammar::subsequents_end(src.chars@, i as int),
        i <= e <= src.chars@.len(),
{
    let mut k = i;
    loop
        invariant
            src.wf(),
            i <= k <= src.chars@.len(),
            grammar::subsequents_end(src.chars@, i as int) == grammar::subsequents_end(
                src.chars@,
                k as int,
            ),
        decreases src.chars@.len() - k,
    {
        match subsequent(src, k) {
            Some(e) => {
                k = e;
            },
            None => {
                return k;
            },
        }
    }
}

/// `+`, `-`, `...` or `->` and continuations, at `i`.
pub fn peculiar_identifier(src: &Source, i: usize) -> (r: Option<usize>)
    requires
        src.wf(),
        i <= src.chars@.len(),
    ensures
        position(r) == grammar::peculiar_identifier(src.chars@, i as int),
        r matches Some(e) ==> i < e <= src.chars@.len(),
{
    if char_at(src, i, '+') || char_at(src, i, '-') {
        Some(i + 1)
    } else if has_prefix(src, i, &['.', '.', '.']) {
        Some(i + 3)
    } else if has_prefix(src, i, &['-', '>']) {
        Some(subsequents_end(src, i + 2))
    } else {
        None
    }
}

/// An identifier at `i`.
pub fn identifier(src: &Source, i: usize) -> (r: Option<usize>)
    requires
        src.wf(),
        i <= src.chars@.len(),
    ensures
        position(r) == grammar::identifier(src.chars@, i as int),
        r matches Some(e) ==> i < e <= src.chars@.len(),
{
    match initial(src, i) {
        Some(j) => Some(subsequents_end(src, j)),
        None => peculiar_identifier(src, i),
    }
}

/// `#t` or `#f` at `i`.
pub fn boolean(src: &Source, i: usize) -> (r: Option<(usize, bool)>)
    requires
        src.wf(),
        i <= src.chars@.len(),
    ensures
        match r {
            Some((e, b)) => grammar::boolean(src.chars@, i as int) == Some((e as int, b)),
            None => grammar::boolean(src.chars@, i as int) is None,
        },
        r matches Some((e, _)) ==> i < e <= src.chars@.len(),
{
    match tag_no_case(src, i, &['#', 't']) {
        Some(e) => Some((e, true)),
        None => match tag_no_case(src, i, &['#', 'f']) {
            Some(e) => Some((e, false)),
            None => None,
        },
    }
}

// ---------------------------------------------------------------------------------------------
// Strings
// ---------------------------------------------------------------------------------------------
/// The character that a one-letter escape `\c` in a string stands for.
fn escaped_in_string(c: char) -> (r: char)
    ensures
        r == grammar::escaped_in_string(c),
{
    if c == 'a' {
        '\u{07}'
    } else if c == 'b' {
        '\u{08}'
    } else if c == 't' {
        '\t'
    } else if c == 'n' {
        '\n'
    } else if c == 'v' {
        '\u{0B}'
    } else if c == 'f' {
        '\u{0C}'
    } else if c == 'r' {
        '\r'
    } else {
        c
    }
}

/// What follows a `\` in a string, from `k`.
fn string_escape<'a>(src: &Source<'a>, k: usize) -> (r: Scanned<Fragment<'a>>)
    requires
        src.wf(),
        k <= src.chars@.len(),
    ensures
        r@ == grammar::string_escape(src.chars@, k as int),
        r matches Scanned::Matched(e, _) ==> k < e <= src.chars@.len(),
{
    if let Some(m) = hex_char_code(src, k) {
        let e = hex_end(src, m);
        if char_at(src, e, ';') {
            return Scanned::Matched(e + 1, Fragment::HexValue(Cow::Owned(src.slice(m, e).to_owned())));
        }
    }
    if k < src.chars.len() {
        Scanned::Matched(k + 1, Fragment::Escaped(escaped_in_string(src.chars[k])))
    } else {
        Scanned::Incomplete
    }
}

/// One piece of a string at `j`.
fn fragment<'a>(src: &Source<'a>, j: usize) -> (r: Scanned<Fragment<'a>>)
    requires
        src.wf(),
        j <= src.chars@.len(),
    ensures
        r@ == grammar::fragment(src.chars@, j as int),
        r matches Scanned::Matched(e, _) ==> j < e <= src.chars@.len(),
{
    if char_at(src, j, '\\') {
        string_escape(src, j + 1)
    } else {
        let e = unescaped_end(src, j);
        if e > j {
            Scanned::Matched(e, Fragment::Unescaped(Cow::Owned(src.slice(j, e).to_owned())))
        } else {
            Scanned::Failed
        }
    }
}

/// The pieces matched so far, put before what the rest of the string gives.
pub open spec fn prepend(done: Seq<FragmentView>, rest: Scan<Seq<FragmentView>>) -> Scan<Seq<FragmentView>> {
    match rest {
        Scan::Matched(k, fs) => Scan::Matched(k, done + fs),
        Scan::Failed => Scan::Failed,
        Scan::Incomplete => Scan::Incomplete,
    }
}

/// How the pieces of a string relate to what the grammar says.
pub open spec fn fragments_found<'a>(r: Scanned<Vec<Fragment<'a>>>, g: Scan<Seq<FragmentView>>) -> bool {
    match r {
        Scanned::Matched(e, v) => g == Scan::Matched(e as int, fragments_view(v@)),
        Scanned::Failed => g is Failed,
        Scanned::Incomplete => g is Incomplete,
    }
}

/// A string literal at `i`.
pub fn string<'a>(src: &Source<'a>, i: usize) -> (r: Scanned<Vec<Fragment<'a>>>)
    requires
        src.wf(),
        i <= src.chars@.len(),
    ensures
        fragments_found(r, grammar::string(src.chars@, i as int)),
        r matches Scanned::Matched(e, _) ==> i < e <= src.chars@.len(),
{
    if !char_at(src, i, '"') {
        return Scanned::Failed;
    }
    let ghost s = src.chars@;
    let mut frags: Vec<Fragment<'a>> = Vec::new();
    let mut j = i + 1;
    proof {
        assert(fragments_view(frags@) =~= Seq::<FragmentView>::empty());
        assert(prepend(Seq::empty(), grammar::fragments(s, j as int)) == grammar::fragments(s, j as int)) by {
            match grammar::fragments(s, j as int) {
                Scan::Matched(k, fs) => {
                    assert(Seq::<FragmentView>::empty() + fs =~= fs);
                },
                _ => {},
            }
        }
    }
    loop
        invariant
            src.wf(),
            s == src.chars@,
            i < j <= s.len(),
            grammar::char_at(s, i as int, '"'),
            grammar::fragments(s, i + 1) == prepend(fragments_view(frags@), grammar::fragments(s, j as int)),
        decreases s.len() - j,
    {
        match fragment(src, j) {
            Scanned::Matched(e, f) => {
                let ghost before = frags@;
                proof {
                    match grammar::fragments(s, e as int) {
                        Scan::Matched(k, fs) => {
                            assert(fragments_view(before) + (seq![f@] + fs) =~= fragments_view(before.push(f)) + fs);
                        },
                        _ => {},
                    }
                }
                frags.push(f);
                j = e;
            },
            Scanned::Failed => {
                proof {
                    assert(fragments_view(frags@) + Seq::<FragmentView>::empty() =~= fragments_view(frags@));
                }
                if char_at(src, j, '"') {
                    return Scanned::Matched(j + 1, frags);
                } else {
                    return Scanned::Failed;
                }
            },
            Scanned::Incomplete => {
                return Scanned::Incomplete;
            },
        }
    }
}

// ---------------------------------------------------------------------------------------------
// Lexemes
// ---------------------------------------------------------------------------------------------
/// Punctuation at `i`.
pub fn punctuation<'a>(src: &Source<'a>, i: usize) -> (r: Option<(usize, Lexeme<'a>)>)
    requires
        src.wf(),
        i <= src.chars@.len(),
    ensures
        match r {
            Some((e, l)) => grammar::punctuation(src.chars@, i as int) == Some((e as int, l@)),
            None => grammar::punctuation(src.chars@, i as int) is None,
        },
        r matches Some((e, _)) ==> i < e <= src.chars@.len(),
{
    if char_at(src, i, '.') {
        Some((i + 1, Lexeme::Period))
    } else if char_at(src, i, '\'') {
        Some((i + 1, Lexeme::Quote))
    } else if char_at(src, i, '(') {
        Some((i + 1, Lexeme::LParen))
    } else if char_at(src, i, ')') {
        Some((i + 1, Lexeme::RParen))
    } else if char_at(src, i, '[') {
        Some((i + 1, Lexeme::LBracket))
    } else if char_at(src, i, ']') {
        Some((i + 1, Lexeme::RBracket))
    } else if has_prefix(src, i, &['#', '(']) {
        Some((i + 2, Lexeme::HashParen))
    } else if has_prefix(src, i, &['#', 'u', '8', '(']) {
        Some((i + 4, Lexeme::Vu8Paren))
    } else if has_prefix(src, i, &['#', '\'']) {
        Some((i + 2, Lexeme::HashTick))
    } else {
        None
    }
}

/// One lexeme at `i`.
pub fn lexeme<'a>(src: &Source<'a>, i: usize) -> (r: Scanned<Lexeme<'a>>)
    requires
        src.wf(),
        i <= src.chars@.len(),
    ensures
        r@ == grammar::lexeme(src.chars@, i as int),
        r matches Scanned::Matched(e, _) ==> i < e <= src.chars@.len(),
{
    match character(src, i) {
        Scanned::Matched(e, c) => {
            return Scanned::Matched(e, Lexeme::Character(c));
        },
        Scanned::Incomplete => {
            return Scanned::Incomplete;
        },
        Scanned::Failed => {},
    }
    if let Some((e, n)) = number(src, i) {
        return Scanned::Matched(e, Lexeme::Number(n));
    }
    if let Some(e) = identifier(src, i) {
        return Scanned::Matched(e, Lexeme::Identifier(src.slice(i, e).to_owned()));
    }
    if let Some((e, b)) = boolean(src, i) {
        return Scanned::Matched(e, Lexeme::Boolean(b));
    }
    match string(src, i) {
        Scanned::Matched(e, fs) => {
            return Scanned::Matched(e, Lexeme::String(fs));
        },
        Scanned::Incomplete => {
            return Scanned::Incomplete;
        },
        Scanned::Failed => {},
    }
    match punctuation(src, i) {
        Some((e, l)) => Scanned::Matched(e, l),
        None => Scanned::Failed,
    }
}

} // verus!

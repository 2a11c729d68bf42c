//! The lexemes of the Scheme surface syntax and their mathematical models.
use std::borrow::Cow;
use vstd::prelude::*;

use crate::number::{Number, NumberView};

verus! {

/// A lexeme of the input, without its position.
#[derive(Clone, Debug, PartialEq, Eq)]
pub enum Lexeme<'a> {
    Identifier(String),
    Boolean(bool),
    Number(Number<'a>),
    Character(Character),
    String(Vec<Fragment<'a>>),
    LParen,
    RParen,
    LBracket,
    RBracket,
    HashParen,
    Vu8Paren,
    Quote,
    Tick,
    Comma,
    CommaAt,
    Period,
    HashQuote,
    HashTick,
    HashComma,
    HashCommaAt,
}

/// The model of a [`Lexeme`]: text is a sequence of characters.
pub enum LexemeView {
    Identifier(Seq<char>),
    Boolean(bool),
    Number(NumberView),
    Character(CharacterView),
    String(Seq<FragmentView>),
    LParen,
    RParen,
    LBracket,
    RBracket,
    HashParen,
    Vu8Paren,
    Quote,
    Tick,
    Comma,
    CommaAt,
    Period,
    HashQuote,
    HashTick,
    HashComma,
    HashCommaAt,
}

/// The models of a sequence of string fragments.
pub open spec fn fragments_view<'a>(v: Seq<Fragment<'a>>) -> Seq<FragmentView> {
    v.map_values(|f: Fragment<'a>| f@)
}

impl<'a> View for Lexeme<'a> {
    type V = LexemeView;

    open spec fn view(&self) -> LexemeView {
        match self {
            Lexeme::Identifier(s) => LexemeView::Identifier(s@),
            Lexeme::Boolean(b) => LexemeView::Boolean(*b),
            Lexeme::Number(n) => LexemeView::Number(n@),
            Lexeme::Character(c) => LexemeView::Character(c@),
            Lexeme::String(v) => LexemeView::String(fragments_view(v@)),
            Lexeme::LParen => LexemeView::LParen,
            Lexeme::RParen => LexemeView::RParen,
            Lexeme::LBracket => LexemeView::LBracket,
            Lexeme::RBracket => LexemeView::RBracket,
            Lexeme::HashParen => LexemeView::HashParen,
            Lexeme::Vu8Paren => LexemeView::Vu8Paren,
            Lexeme::Quote => LexemeView::Quote,
            Lexeme::Tick => LexemeView::Tick,
            Lexeme::Comma => LexemeView::Comma,
            Lexeme::CommaAt => LexemeView::CommaAt,
            Lexeme::Period => LexemeView::Period,
            Lexeme::HashQuote => LexemeView::HashQuote,
            Lexeme::HashTick => LexemeView::HashTick,
            Lexeme::HashComma => LexemeView::HashComma,
            Lexeme::HashCommaAt => LexemeView::HashCommaAt,
        }
    }
}

impl<'a> Lexeme<'a> {
    /// The value of a `Boolean` lexeme; calling it on another lexeme is a programming error.
    pub fn to_boolean(&self) -> (b: bool)
        requires
            self is Boolean,
        ensures
            b == self->Boolean_0,
    {
        match self {
            Lexeme::Boolean(b) => *b,
            _ => { proof { assert(false); } false },
        }
    }

    /// The name of an `Identifier` lexeme; calling it on another lexeme is a programming error.
    pub fn to_ident(&self) -> (name: &str)
        requires
            self is Identifier,
        ensures
            name@ == self->Identifier_0@,
    {
        match self {
            Lexeme::Identifier(i) => i.as_str(),
            _ => { proof { assert(false); } "" },
        }
    }

    /// The character of a `Character` lexeme; calling it on another lexeme is a programming error.
    pub fn to_char(&self) -> (c: &Character)
        requires
            self is Character,
        ensures
            *c == self->Character_0,
    {
        match self {
            Lexeme::Character(c) => c,
            _ => { proof { assert(false); } &Character::Literal(' ') },
        }
    }

    /// The fragments of a `String` lexeme; calling it on another lexeme is a programming error.
    pub fn to_string(&self) -> (s: &[Fragment<'a>])
        requires
            self is String,
        ensures
            s@ == self->String_0@,
    {
        match self {
            Lexeme::String(s) => s.as_slice(),
            _ => { proof { assert(false); } &[] },
        }
    }

    /// A `String` lexeme made of the given fragments.
    pub fn string(v: Vec<Fragment<'a>>) -> (l: Self)
        ensures
            l == Lexeme::String(v),
    {
        Self::String(v)
    }
}

/// A character literal.
#[derive(Clone, Debug, PartialEq, Eq)]
pub enum Character {
    /// `#\a` characters
    Literal(char),
    /// `#\foo` characters
    Escaped(EscapedCharacter),
    /// `#\xcafe` characters
    Unicode(String),
}

/// The model of a [`Character`].
pub enum CharacterView {
    Literal(char),
    Escaped(EscapedCharacter),
    Unicode(Seq<char>),
}

impl View for Character {
    type V = CharacterView;

    open spec fn view(&self) -> CharacterView {
        match self {
            Character::Literal(c) => CharacterView::Literal(*c),
            Character::Escaped(e) => CharacterView::Escaped(*e),
            Character::Unicode(s) => CharacterView::Unicode(s@),
        }
    }
}

/// The named characters of `#\name` literals.
#[derive(Clone, Copy, Debug, PartialEq, Eq)]
pub enum EscapedCharacter {
    Alarm,
    Backspace,
    Delete,
    Escape,
    Newline,
    Null,
    Return,
    Space,
    Tab,
}

/// The character that a named character stands for (R7RS 6.6).
pub open spec fn escaped_char_value(c: EscapedCharacter) -> char {
    match c {
        EscapedCharacter::Alarm => '\u{0007}',
        EscapedCharacter::Backspace => '\u{0008}',
        EscapedCharacter::Delete => '\u{007F}',
        EscapedCharacter::Escape => '\u{001B}',
        EscapedCharacter::Newline => '\u{000A}',
        EscapedCharacter::Null => '\u{0000}',
        EscapedCharacter::Return => '\u{000D}',
        EscapedCharacter::Space => ' ',
        EscapedCharacter::Tab => '\u{0009}',
    }
}

impl From<EscapedCharacter> for char {
    fn from(c: EscapedCharacter) -> (r: char) {
        match c {
            EscapedCharacter::Alarm => '\u{0007}',
            EscapedCharacter::Backspace => '\u{0008}',
            EscapedCharacter::Delete => '\u{007F}',
            EscapedCharacter::Escape => '\u{001B}',
            EscapedCharacter::Newline => '\u{000A}',
            EscapedCharacter::Null => '\u{0000}',
            EscapedCharacter::Return => '\u{000D}',
            EscapedCharacter::Space => ' ',
            EscapedCharacter::Tab => '\u{0009}',
        }
    }
}

impl vstd::std_specs::convert::FromSpecImpl<EscapedCharacter> for char {
    open spec fn obeys_from_spec() -> bool {
        true
    }

    open spec fn from_spec(c: EscapedCharacter) -> char {
        escaped_char_value(c)
    }
}

/// A piece of a string literal.
#[derive(Debug, PartialEq, Eq)]
pub enum Fragment<'a> {
    HexValue(Cow<'a, str>),
    Escaped(char),
    Unescaped(Cow<'a, str>),
}

/// The model of a [`Fragment`].
pub enum FragmentView {
    HexValue(Seq<char>),
    Escaped(char),
    Unescaped(Seq<char>),
}

/// A copy of a borrowed text borrows the same text; a copy of an owned text owns a copy.
fn clone_text<'a>(t: &Cow<'a, str>) -> (r: Cow<'a, str>)
    ensures
        r@ == t@,
{
    match t {
        Cow::Borrowed(b) => Cow::Borrowed(*b),
        Cow::Owned(o) => Cow::Owned(o.clone()),
    }
}

impl<'a> Clone for Fragment<'a> {
    fn clone(&self) -> (r: Self)
        ensures
            r@ == self@,
    {
        match self {
            Fragment::HexValue(t) => Fragment::HexValue(clone_text(t)),
            Fragment::Escaped(c) => Fragment::Escaped(*c),
            Fragment::Unescaped(t) => Fragment::Unescaped(clone_text(t)),
        }
    }
}

impl<'a> View for Fragment<'a> {
    type V = FragmentView;

    open spec fn view(&self) -> FragmentView {
        match self {
            Fragment::HexValue(s) => FragmentView::HexValue(s@),
            Fragment::Escaped(c) => FragmentView::Escaped(*c),
            Fragment::Unescaped(s) => FragmentView::Unescaped(s@),
        }
    }
}

} // verus!

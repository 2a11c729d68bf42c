use std::borrow::Cow;

use scheme_lexer::chars::{is_constituent, is_special_initial};
use scheme_lexer::token::{LexError, Token};
use scheme_lexer::{Character, EscapedCharacter, Fragment, Lexeme};

fn single_identifier(s: &str) -> bool {
    match Token::tokenize(s, None) {
        Ok(toks) => toks.len() == 1 && toks[0].lexeme == Lexeme::Identifier(s.to_string()),
        Err(_) => false,
    }
}

fn fails_at_start(s: &str) -> bool {
    matches!(Token::tokenize(s, None), Err(LexError::Error(span)) if span.offset == 0)
}

#[test]
fn special_initial_characters() {
    for c in "!$%&*/:<=>?^_~".chars() {
        assert!(is_special_initial(c), "{c}");
    }
    for c in "+-.@#a1 ".chars() {
        assert!(!is_special_initial(c), "{c}");
    }
}

#[test]
fn ascii_constituents_are_letters() {
    assert!(is_constituent('a'));
    assert!(is_constituent('Z'));
    assert!(!is_constituent('1'));
    assert!(!is_constituent('_'));
    assert!(!is_constituent('|'));
}

#[test]
fn non_ascii_constituents_by_category() {
    assert!(is_constituent('λ')); // letter
    assert!(is_constituent('\u{0301}')); // nonspacing mark
    assert!(is_constituent('Ⅻ')); // letter number
    assert!(is_constituent('²')); // other number
    assert!(is_constituent('–')); // dash punctuation
    assert!(is_constituent('‿')); // connector punctuation
    assert!(is_constituent('¡')); // other punctuation
    assert!(is_constituent('€')); // currency symbol
    assert!(is_constituent('\u{E000}')); // private use
    assert!(!is_constituent('\u{00A0}')); // space separator
    assert!(!is_constituent('\u{0663}')); // decimal digit
}

#[test]
fn subsequent_only_categories() {
    // decimal digits, spacing and enclosing marks may continue but not begin an identifier
    for c in ['\u{0663}', '\u{0903}', '\u{20DD}'] {
        let mut s = String::from("a");
        s.push(c);
        assert!(single_identifier(&s), "{s:?}");
        assert!(fails_at_start(&c.to_string()), "{c:?}");
    }
}

#[test]
fn unicode_separators_are_whitespace() {
    let toks = Token::tokenize("a\u{2003}b\u{00A0}c", None).unwrap();
    assert_eq!(toks.len(), 3);
}

#[test]
fn named_characters_as_chars() {
    assert_eq!(char::from(EscapedCharacter::Alarm), '\u{0007}');
    assert_eq!(char::from(EscapedCharacter::Backspace), '\u{0008}');
    assert_eq!(char::from(EscapedCharacter::Delete), '\u{007F}');
    assert_eq!(char::from(EscapedCharacter::Escape), '\u{001B}');
    assert_eq!(char::from(EscapedCharacter::Newline), '\n');
    assert_eq!(char::from(EscapedCharacter::Null), '\0');
    assert_eq!(char::from(EscapedCharacter::Return), '\r');
    assert_eq!(char::from(EscapedCharacter::Space), ' ');
    assert_eq!(char::from(EscapedCharacter::Tab), '\t');
}

#[test]
fn named_characters_are_distinct_chars() {
    let all = [
        EscapedCharacter::Alarm,
        EscapedCharacter::Backspace,
        EscapedCharacter::Delete,
        EscapedCharacter::Escape,
        EscapedCharacter::Newline,
        EscapedCharacter::Null,
        EscapedCharacter::Return,
        EscapedCharacter::Space,
        EscapedCharacter::Tab,
    ];
    for a in all {
        for b in all {
            assert_eq!(a == b, char::from(a) == char::from(b));
        }
    }
}

#[test]
fn every_name_lexes_to_its_character() {
    let names = [
        ("alarm", EscapedCharacter::Alarm),
        ("backspace", EscapedCharacter::Backspace),
        ("delete", EscapedCharacter::Delete),
        ("escape", EscapedCharacter::Escape),
        ("newline", EscapedCharacter::Newline),
        ("null", EscapedCharacter::Null),
        ("return", EscapedCharacter::Return),
        ("space", EscapedCharacter::Space),
        ("tab", EscapedCharacter::Tab),
    ];
    for (name, c) in names {
        let text = format!("#\\{name}");
        let toks = Token::tokenize(&text, None).unwrap();
        assert_eq!(toks.len(), 1);
        assert_eq!(toks[0].lexeme, Lexeme::Character(Character::Escaped(c)));
    }
}

#[test]
fn lexeme_accessors() {
    let b = Lexeme::Boolean(true);
    assert!(b.to_boolean());
    let i = Lexeme::Identifier("car".to_string());
    assert_eq!(i.to_ident(), "car");
    let c = Lexeme::Character(Character::Literal('z'));
    assert_eq!(c.to_char(), &Character::Literal('z'));
    let frags = vec![Fragment::Unescaped(Cow::Borrowed("hi")), Fragment::Escaped('\n')];
    let s = Lexeme::string(frags.clone());
    assert_eq!(s, Lexeme::String(frags.clone()));
    assert_eq!(s.to_string(), frags.as_slice());
}

#[test]
fn accessors_on_lexed_tokens() {
    let toks = Token::tokenize("#f name #\\a \"s\"", None).unwrap();
    assert!(!toks[0].lexeme.to_boolean());
    assert_eq!(toks[1].lexeme.to_ident(), "name");
    assert_eq!(toks[2].lexeme.to_char(), &Character::Literal('a'));
    assert_eq!(toks[3].lexeme.to_string(), &[Fragment::Unescaped(Cow::Owned("s".to_string()))]);
}

use std::borrow::Cow;

use scheme_lexer::token::{LexError, Token};
use scheme_lexer::{Character, EscapedCharacter, Fragment, Lexeme, Number};

fn lexemes(s: &str) -> Vec<Lexeme<'_>> {
    Token::tokenize(s, None)
        .expect("input should lex")
        .into_iter()
        .map(|t| t.lexeme)
        .collect()
}

fn ident(s: &str) -> Lexeme<'static> {
    Lexeme::Identifier(s.to_string())
}

fn owned(s: &str) -> Cow<'static, str> {
    Cow::Owned(s.to_string())
}

fn error_offset(s: &str) -> usize {
    match Token::tokenize(s, None) {
        Err(LexError::Error(span)) => span.offset,
        other => panic!("expected a lexing error, got {:?}", other),
    }
}

#[test]
fn simple_list() {
    assert_eq!(
        lexemes("(define x 10)"),
        vec![
            Lexeme::LParen,
            ident("define"),
            ident("x"),
            Lexeme::Number(Number::new(10, false, "10")),
            Lexeme::RParen,
        ]
    );
}

#[test]
fn spans_of_simple_list() {
    let toks = Token::tokenize("(define x 10)", Some("prog.scm")).unwrap();
    let offsets: Vec<usize> = toks.iter().map(|t| t.span.offset).collect();
    assert_eq!(offsets, vec![0, 1, 8, 10, 12]);
    let columns: Vec<usize> = toks.iter().map(|t| t.span.column).collect();
    assert_eq!(columns, vec![1, 2, 9, 11, 13]);
    assert!(toks.iter().all(|t| t.span.line == 1));
    assert!(toks.iter().all(|t| t.span.file_name == "prog.scm"));
}

#[test]
fn default_file_name() {
    let toks = Token::tokenize("x", None).unwrap();
    assert_eq!(toks[0].span.file_name, "<stdin>");
}

#[test]
fn lines_and_columns_after_comment() {
    let toks = Token::tokenize("; a comment\n  foo\nbar", None).unwrap();
    assert_eq!(toks.len(), 2);
    assert_eq!(toks[0].lexeme, ident("foo"));
    assert_eq!(toks[0].span.line, 2);
    assert_eq!(toks[0].span.column, 3);
    assert_eq!(toks[0].span.offset, 14);
    assert_eq!(toks[1].span.line, 3);
    assert_eq!(toks[1].span.column, 1);
}

#[test]
fn byte_and_char_columns_differ_after_multibyte() {
    let toks = Token::tokenize("é x", None).unwrap();
    assert_eq!(toks.len(), 2);
    assert_eq!(toks[1].lexeme, ident("x"));
    assert_eq!(toks[1].span.offset, 3);
    assert_eq!(toks[1].span.column, 4);
    assert_eq!(toks[1].span.utf8_column, 3);
}

#[test]
fn empty_and_blank_inputs() {
    assert!(Token::tokenize("", None).unwrap().is_empty());
    assert!(Token::tokenize("  \t\n ", None).unwrap().is_empty());
    assert!(Token::tokenize("; only a comment", None).unwrap().is_empty());
}

#[test]
fn booleans() {
    assert_eq!(
        lexemes("#t #f #T #F"),
        vec![
            Lexeme::Boolean(true),
            Lexeme::Boolean(false),
            Lexeme::Boolean(true),
            Lexeme::Boolean(false),
        ]
    );
}

#[test]
fn long_boolean_is_split() {
    assert_eq!(lexemes("#true"), vec![Lexeme::Boolean(true), ident("rue")]);
}

#[test]
fn character_literals() {
    assert_eq!(
        lexemes("#\\a #\\newline #\\SPACE #\\x41 #\\( #\\x"),
        vec![
            Lexeme::Character(Character::Literal('a')),
            Lexeme::Character(Character::Escaped(EscapedCharacter::Newline)),
            Lexeme::Character(Character::Escaped(EscapedCharacter::Space)),
            Lexeme::Character(Character::Unicode("41".to_string())),
            Lexeme::Character(Character::Literal('(')),
            Lexeme::Character(Character::Literal('x')),
        ]
    );
}

#[test]
fn character_hex_needs_digits() {
    assert_eq!(
        lexemes("#\\xyz"),
        vec![Lexeme::Character(Character::Literal('x')), ident("yz")]
    );
}

#[test]
fn character_names_are_prefixes() {
    assert_eq!(
        lexemes("#\\nul"),
        vec![Lexeme::Character(Character::Literal('n')), ident("ul")]
    );
    assert_eq!(
        lexemes("#\\tabs"),
        vec![Lexeme::Character(Character::Escaped(EscapedCharacter::Tab)), ident("s")]
    );
}

#[test]
fn character_name_with_kelvin_sign() {
    // The Kelvin sign lowercases to `k`, and the tag takes as many bytes as `backspace` has.
    assert_eq!(
        lexemes("#\\bac\u{212A}space"),
        vec![
            Lexeme::Character(Character::Escaped(EscapedCharacter::Backspace)),
            ident("ce"),
        ]
    );
}

#[test]
fn character_at_end_is_incomplete() {
    assert!(matches!(Token::tokenize("#\\", None), Err(LexError::Incomplete)));
    assert!(matches!(Token::tokenize("(a #\\", None), Err(LexError::Incomplete)));
}

#[test]
fn numbers_in_every_radix() {
    assert_eq!(
        lexemes("#b101 #o17 #x-FF #d42 #D7 -7 0"),
        vec![
            Lexeme::Number(Number::new(2, false, "101")),
            Lexeme::Number(Number::new(8, false, "17")),
            Lexeme::Number(Number::new(16, true, "FF")),
            Lexeme::Number(Number::new(10, false, "42")),
            Lexeme::Number(Number::new(10, false, "7")),
            Lexeme::Number(Number::new(10, true, "7")),
            Lexeme::Number(Number::new(10, false, "0")),
        ]
    );
}

#[test]
fn number_followed_by_letters() {
    assert_eq!(
        lexemes("12abc"),
        vec![Lexeme::Number(Number::new(10, false, "12")), ident("abc")]
    );
    assert_eq!(
        lexemes("1.5"),
        vec![
            Lexeme::Number(Number::new(10, false, "1")),
            Lexeme::Period,
            Lexeme::Number(Number::new(10, false, "5")),
        ]
    );
}

#[test]
fn binary_prefix_without_digits_fails() {
    assert_eq!(error_offset("#b2"), 0);
}

#[test]
fn peculiar_identifiers() {
    assert_eq!(lexemes("+ - ..."), vec![ident("+"), ident("-"), ident("...")]);
    assert_eq!(lexemes("->x"), vec![ident("-"), ident(">x")]);
    assert_eq!(lexemes("-abc"), vec![ident("-"), ident("abc")]);
    assert_eq!(lexemes("+5"), vec![ident("+"), Lexeme::Number(Number::new(10, false, "5"))]);
}

#[test]
fn identifiers() {
    assert_eq!(
        lexemes("foo-bar! <=? a.b@c x1 \\x41;b λx"),
        vec![
            ident("foo-bar!"),
            ident("<=?"),
            ident("a.b@c"),
            ident("x1"),
            ident("\\x41;b"),
            ident("λx"),
        ]
    );
}

#[test]
fn strings_with_escapes() {
    assert_eq!(
        lexemes("\"a\\nb\\x41;c\\q\\\"\""),
        vec![Lexeme::String(vec![
            Fragment::Unescaped(owned("a")),
            Fragment::Escaped('\n'),
            Fragment::Unescaped(owned("b")),
            Fragment::HexValue(owned("41")),
            Fragment::Unescaped(owned("c")),
            Fragment::Escaped('q'),
            Fragment::Escaped('"'),
        ])]
    );
}

#[test]
fn string_escape_letters() {
    assert_eq!(
        lexemes("\"\\a\\b\\t\\v\\f\\r\\\\\""),
        vec![Lexeme::String(vec![
            Fragment::Escaped('\u{07}'),
            Fragment::Escaped('\u{08}'),
            Fragment::Escaped('\t'),
            Fragment::Escaped('\u{0B}'),
            Fragment::Escaped('\u{0C}'),
            Fragment::Escaped('\r'),
            Fragment::Escaped('\\'),
        ])]
    );
}

#[test]
fn string_hex_escape_without_semicolon() {
    assert_eq!(
        lexemes("\"\\x41\""),
        vec![Lexeme::String(vec![Fragment::Escaped('x'), Fragment::Unescaped(owned("41"))])]
    );
}

#[test]
fn empty_string() {
    assert_eq!(lexemes("\"\""), vec![Lexeme::String(vec![])]);
}

#[test]
fn unterminated_string_is_an_error() {
    assert_eq!(error_offset("x \"abc"), 2);
}

#[test]
fn string_ending_in_backslash_is_incomplete() {
    assert!(matches!(Token::tokenize("\"ab\\", None), Err(LexError::Incomplete)));
}

#[test]
fn punctuation() {
    assert_eq!(
        lexemes("'(a . b) #(1) #u8(1) #'f [ ]"),
        vec![
            Lexeme::Quote,
            Lexeme::LParen,
            ident("a"),
            Lexeme::Period,
            ident("b"),
            Lexeme::RParen,
            Lexeme::HashParen,
            Lexeme::Number(Number::new(10, false, "1")),
            Lexeme::RParen,
            Lexeme::Vu8Paren,
            Lexeme::Number(Number::new(10, false, "1")),
            Lexeme::RParen,
            Lexeme::HashTick,
            ident("f"),
            Lexeme::LBracket,
            Lexeme::RBracket,
        ]
    );
}

#[test]
fn nested_comments() {
    assert_eq!(lexemes("#| a #| b |# c |# x"), vec![ident("x")]);
    assert_eq!(lexemes("#| #|# y"), vec![ident("y")]);
}

#[test]
fn unterminated_nested_comment_is_an_error() {
    assert_eq!(error_offset("a #| b"), 2);
}

#[test]
fn unknown_characters_are_errors() {
    assert_eq!(error_offset(","), 0);
    assert_eq!(error_offset("a,b"), 1);
    assert_eq!(error_offset("`x"), 0);
    assert_eq!(error_offset("a\r\nb"), 1);
}

#[test]
fn error_span_is_located() {
    match Token::tokenize("ok\n  ,", Some("f")) {
        Err(LexError::Error(span)) => {
            assert_eq!(span.offset, 5);
            assert_eq!(span.line, 2);
            assert_eq!(span.column, 3);
            assert_eq!(span.utf8_column, 3);
            assert_eq!(span.file_name, "f");
        }
        other => panic!("expected an error, got {:?}", other),
    }
}

#[test]
fn token_positions_increase() {
    let toks: Vec<Token<'_>> = Token::tokenize("(a #\\b \"c\" ; d\n #| e |# 12)", None).unwrap();
    for w in toks.windows(2) {
        assert!(w[0].span.offset < w[1].span.offset);
    }
    assert_eq!(toks.len(), 6);
}

#[test]
fn leading_space_does_not_change_lexemes() {
    let plain = lexemes("(x . 1)");
    let spaced = lexemes(" \n ; note\n #| c |#  (x . 1)");
    assert_eq!(plain, spaced);
    let a = Token::tokenize("x", None).unwrap();
    let b = Token::tokenize("   x", None).unwrap();
    assert_eq!(a[0].span.offset + 3, b[0].span.offset);
}

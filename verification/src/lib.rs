//! A lexer for the surface syntax of Scheme (R7RS), with its grammar stated and proved.
pub mod chars;
pub mod grammar;
pub mod integer;
pub mod laws;
pub mod lexeme;
pub mod number;
pub mod scan;
pub mod source;
pub mod token;
pub mod unicode;

pub use crate::lexeme::{Character, EscapedCharacter, Fragment, Lexeme};
pub use crate::number::{Number, TryFromNumberError, TryFromNumberErrorKind};
pub use crate::token::{LexError, Span, Token};

# scheme_lexer

A lexer for the surface syntax of Scheme (R7RS): identifiers, booleans, numbers in radix 2, 8,
10 and 16, character literals, strings with their escapes, and the punctuation of lists and
vectors, separated by whitespace, line comments and nested `#| |#` comments.

The lexical grammar is stated in `src/grammar.rs` as functions over the characters of the
input; `src/scan.rs` runs each rule and is proved to give what the rule says, and
`src/token.rs` splits a whole input into tokens with their byte offset, line and columns.
Numeric literals convert into machine integers (`src/number.rs`) and into `rug::Integer`
(`src/integer.rs`). `src/laws.rs` proves properties of the whole: every lexeme takes input,
token positions increase, skipping space is idempotent, lexed numbers only fail to convert by
overflowing, and bounded conversions agree with the unbounded one.

`app/` gives the conversion errors `Display` and `std::error::Error`.

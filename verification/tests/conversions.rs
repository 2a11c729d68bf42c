use rug::Integer;
use scheme_lexer::token::Token;
use scheme_lexer::{Lexeme, Number, TryFromNumberError, TryFromNumberErrorKind};

#[test]
fn fits_each_width() {
    let n = Number::new(10, false, "127");
    assert_eq!(i8::try_from(n), Ok(127));
    assert_eq!(i16::try_from(n), Ok(127));
    assert_eq!(i32::try_from(n), Ok(127));
    assert_eq!(i64::try_from(n), Ok(127));
    assert_eq!(i128::try_from(n), Ok(127));
    assert_eq!(isize::try_from(n), Ok(127));
}

#[test]
fn widening_keeps_the_value() {
    let n = Number::new(16, true, "7fff");
    assert_eq!(i16::try_from(n), Ok(-0x7fff));
    assert_eq!(i32::try_from(n), Ok(-0x7fff));
    assert_eq!(i64::try_from(n), Ok(-0x7fff));
    assert_eq!(i8::try_from(n), Err(TryFromNumberError::new("7fff", TryFromNumberErrorKind::Overflow)));
}

#[test]
fn negative_literals_negate() {
    assert_eq!(i8::try_from(Number::new(10, true, "127")), Ok(-127));
    // the magnitude is read first, so the most negative value overflows
    assert_eq!(
        i8::try_from(Number::new(10, true, "128")),
        Err(TryFromNumberError::new("128", TryFromNumberErrorKind::Overflow))
    );
    assert_eq!(i32::try_from(Number::new(2, true, "101")), Ok(-5));
}

#[test]
fn overflow_is_found_before_a_later_bad_digit() {
    assert_eq!(
        i8::try_from(Number::new(10, false, "99x")),
        Err(TryFromNumberError::new("99x", TryFromNumberErrorKind::Overflow))
    );
    assert_eq!(
        i8::try_from(Number::new(10, false, "1x")),
        Err(TryFromNumberError::new("1x", TryFromNumberErrorKind::InvalidDigit(10)))
    );
}

#[test]
fn extreme_widths() {
    assert_eq!(
        i64::try_from(Number::new(10, false, "9223372036854775807")),
        Ok(i64::MAX)
    );
    assert_eq!(
        i64::try_from(Number::new(10, false, "9223372036854775808")),
        Err(TryFromNumberError::new("9223372036854775808", TryFromNumberErrorKind::Overflow))
    );
    assert_eq!(
        i128::try_from(Number::new(16, false, "7fffffffffffffffffffffffffffffff")),
        Ok(i128::MAX)
    );
    assert_eq!(
        i128::try_from(Number::new(16, false, "80000000000000000000000000000000")),
        Err(TryFromNumberError::new(
            "80000000000000000000000000000000",
            TryFromNumberErrorKind::Overflow
        ))
    );
}

#[test]
fn letters_are_digits_in_high_radixes() {
    assert_eq!(i32::try_from(Number::new(36, false, "zZ")), Ok(35 * 36 + 35));
    assert_eq!(
        i32::try_from(Number::new(8, false, "8")),
        Err(TryFromNumberError::new("8", TryFromNumberErrorKind::InvalidDigit(8)))
    );
}

#[test]
fn empty_digits_are_zero() {
    assert_eq!(i32::try_from(Number::new(10, false, "")), Ok(0));
}

#[test]
fn big_integers() {
    let n = Number::new(10, false, "123456789012345678901234567890");
    let v = Integer::try_from(n).unwrap();
    assert_eq!(v.to_string(), "123456789012345678901234567890");
    let m = Number::new(16, true, "ff");
    assert_eq!(Integer::try_from(m).unwrap(), Integer::from(-255));
    assert_eq!(Integer::try_from(Number::new(10, false, "")).unwrap(), Integer::from(0));
}

#[test]
fn big_integer_bad_digit() {
    assert_eq!(
        Integer::try_from(Number::new(2, false, "1012")),
        Err(TryFromNumberError::new("1012", TryFromNumberErrorKind::InvalidDigit(2)))
    );
}

#[test]
fn big_integers_agree_with_machine_integers() {
    for text in ["0", "1", "7f", "80", "ffff", "7fffffff"] {
        let n = Number::new(16, false, text);
        match i32::try_from(n) {
            Ok(v) => assert_eq!(Integer::try_from(n).unwrap(), Integer::from(v)),
            Err(_) => panic!("{text} fits in i32"),
        }
    }
}

#[test]
fn error_messages() {
    let e = TryFromNumberError::new("9001", TryFromNumberErrorKind::Overflow);
    assert_eq!(e.message(), "invalid number `9001`: number too large");
    let e = TryFromNumberError::new("foo bar", TryFromNumberErrorKind::InvalidDigit(10));
    assert_eq!(e.message(), "invalid number `foo bar`: invalid digit of radix `10`");
    assert_eq!(TryFromNumberErrorKind::InvalidDigit(1234567).message(), "invalid digit of radix `1234567`");
}

#[test]
fn lexed_numbers_only_overflow() {
    let toks = Token::tokenize("#xFF 300 #b-1 99999999999999999999", None).unwrap();
    let nums: Vec<Number<'_>> = toks
        .iter()
        .map(|t| match t.lexeme {
            Lexeme::Number(n) => n,
            _ => panic!("expected a number"),
        })
        .collect();
    assert_eq!(i16::try_from(nums[0]), Ok(255));
    assert_eq!(i8::try_from(nums[1]), Err(TryFromNumberError::new("300", TryFromNumberErrorKind::Overflow)));
    assert_eq!(i8::try_from(nums[2]), Ok(-1));
    assert!(matches!(i64::try_from(nums[3]), Err(_)));
    assert!(Integer::try_from(nums[3]).is_ok());
}

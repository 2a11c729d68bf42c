use scheme_lexer::{Number, TryFromNumberError, TryFromNumberErrorKind};

#[test]
fn number_lexeme_to_num() {
    assert_eq!(
        <Number<'_> as TryInto<i32>>::try_into(Number::new(10, false, "123")),
        Ok(123_i32),
    );
    assert_eq!(
        <Number<'_> as TryInto<i64>>::try_into(Number::new(16, false, "DEADBEEF")),
        Ok(0xDEADBEEF_i64),
    );
}

#[test]
fn number_lexeme_errors() {
    assert_eq!(
        <Number<'_> as TryInto<i8>>::try_into(Number::new(10, false, "9001")),
        Err(TryFromNumberError::new(
            "9001",
            TryFromNumberErrorKind::Overflow
        )),
    );
    assert_eq!(
        <Number<'_> as TryInto<i8>>::try_into(Number::new(10, false, "foo bar")),
        Err(TryFromNumberError::new(
            "foo bar",
            TryFromNumberErrorKind::InvalidDigit(10)
        )),
    );
}

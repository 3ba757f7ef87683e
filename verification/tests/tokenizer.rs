use st_core::error::{CompileError, CompileErrorEnum};
use st_core::tokenizer::{tokenize, Token, TokenEnum};

fn collect(source: &str) -> Vec<Result<Token, CompileError>> {
    tokenize(source).collect_all()
}

#[test]
fn test_pipe_operators() {
    let test_str = "|> |! |. |= |? \\?";
    let expected = vec![
        Ok(Token { token: TokenEnum::PipeNext, row: 1, column: 1 }),
        Ok(Token { token: TokenEnum::PipeError, row: 1, column: 4 }),
        Ok(Token { token: TokenEnum::PipeReturn, row: 1, column: 7 }),
        Ok(Token { token: TokenEnum::PipeSet, row: 1, column: 10 }),
        Ok(Token { token: TokenEnum::PipeMatch, row: 1, column: 13 }),
        Ok(Token { token: TokenEnum::PipeMatchEnd, row: 1, column: 16 }),
    ];

    let actual = collect(test_str);
    assert_eq!(expected.len(), actual.len(), "{actual:#?}");
    for (i, (expected, received)) in expected.into_iter().zip(actual).enumerate() {
        assert_eq!(expected, received, "{}th assertion failed", i + 1);
    }
}

#[test]
fn parse_singles() {
    let test_str = "+-*/%^.(){}<>;:.,";
    let expected = vec![
        Ok(Token { token: TokenEnum::Plus, row: 1, column: 1 }),
        Ok(Token { token: TokenEnum::Minus, row: 1, column: 2 }),
        Ok(Token { token: TokenEnum::Times, row: 1, column: 3 }),
        Ok(Token { token: TokenEnum::Divide, row: 1, column: 4 }),
        Ok(Token { token: TokenEnum::Modulo, row: 1, column: 5 }),
        Ok(Token { token: TokenEnum::Power, row: 1, column: 6 }),
        Ok(Token { token: TokenEnum::Period, row: 1, column: 7 }),
        Ok(Token { token: TokenEnum::OpenBrace, row: 1, column: 8 }),
        Ok(Token { token: TokenEnum::CloseBrace, row: 1, column: 9 }),
        Ok(Token { token: TokenEnum::OpenCurlyBrace, row: 1, column: 10 }),
        Ok(Token { token: TokenEnum::CloseCurlyBrace, row: 1, column: 11 }),
        Ok(Token { token: TokenEnum::LessThen, row: 1, column: 12 }),
        Ok(Token { token: TokenEnum::GreaterThen, row: 1, column: 13 }),
        Ok(Token { token: TokenEnum::SemiColon, row: 1, column: 14 }),
        Ok(Token { token: TokenEnum::Colon, row: 1, column: 15 }),
        Ok(Token { token: TokenEnum::Period, row: 1, column: 16 }),
        Ok(Token { token: TokenEnum::Comma, row: 1, column: 17 }),
    ];

    let actual = collect(test_str);
    assert_eq!(expected.len(), actual.len(), "{actual:#?}");
    for (i, (expected, received)) in expected.into_iter().zip(actual).enumerate() {
        assert_eq!(expected, received, "{}th assertion failed", i + 1);
    }
}

#[test]
fn test_words() {
    let test_str = "func data using.object enum lalala true false mut ref";
    let expected = vec![
        Ok(Token { token: TokenEnum::KWFunc, row: 1, column: 1 }),
        Ok(Token { token: TokenEnum::KWData, row: 1, column: 6 }),
        Ok(Token { token: TokenEnum::KWUsing, row: 1, column: 11 }),
        Ok(Token { token: TokenEnum::Period, row: 1, column: 16 }),
        Ok(Token { token: TokenEnum::KWObject, row: 1, column: 17 }),
        Ok(Token { token: TokenEnum::KWEnum, row: 1, column: 24 }),
        Ok(Token { token: TokenEnum::Identifier("lalala".into()), row: 1, column: 29 }),
        Ok(Token { token: TokenEnum::Bool(true), row: 1, column: 36 }),
        Ok(Token { token: TokenEnum::Bool(false), row: 1, column: 41 }),
        Ok(Token { token: TokenEnum::KWMut, column: 47, row: 1 }),
        Ok(Token { token: TokenEnum::KWRef, column: 51, row: 1 }),
    ];

    let actual = collect(test_str);
    assert_eq!(expected.len(), actual.len(), "{actual:#?}");
    for (i, (expected, received)) in expected.into_iter().zip(actual).enumerate() {
        assert_eq!(expected, received, "{}th assertion failed", i + 1);
    }
}

#[test]
fn test_misc() {
    let test_str = "::->||";
    let expected = vec![
        Ok(Token { token: TokenEnum::DoubleColon, row: 1, column: 1 }),
        Ok(Token { token: TokenEnum::Arrow, row: 1, column: 3 }),
        Ok(Token { token: TokenEnum::Or, row: 1, column: 5 }),
    ];

    let actual = collect(test_str);
    assert_eq!(expected.len(), actual.len(), "{actual:#?}");
    for (i, (expected, received)) in expected.into_iter().zip(actual).enumerate() {
        assert_eq!(expected, received, "{}th assertion failed", i + 1);
    }
}

#[test]
fn test_parse_numbers() {
    let test_str = "123 123.123 123.123.123";
    let expected = vec![
        Ok(Token { token: TokenEnum::Integer(123), row: 1, column: 1 }),
        Ok(Token { token: TokenEnum::Float("123.123".into()), row: 1, column: 5 }),
        Ok(Token { token: TokenEnum::Float("123.123".into()), row: 1, column: 13 }),
        Ok(Token { token: TokenEnum::Period, row: 1, column: 20 }),
        Ok(Token { token: TokenEnum::Integer(123), row: 1, column: 21 }),
    ];

    let actual = collect(test_str);
    assert_eq!(expected.len(), actual.len(), "{actual:#?}");
    for (i, (expected, received)) in expected.into_iter().zip(actual).enumerate() {
        assert_eq!(expected, received, "{}th assertion failed", i + 1);
    }
}

#[test]
fn test_parse_str() {
    let test_str = "\"This is a \\\"beautiful\\\" \nstring\"";
    let expected = vec![Ok(Token {
        token: TokenEnum::String("This is a \"beautiful\" \nstring".into()),
        row: 1,
        column: 1,
    })];

    let actual = collect(test_str);
    assert_eq!(expected.len(), actual.len(), "{actual:#?}");
    for (i, (expected, received)) in expected.into_iter().zip(actual).enumerate() {
        assert_eq!(expected, received, "{}th assertion failed", i + 1);
    }
}

#[test]
fn test_dotted_number_chain() {
    // the deliberate quirk: a second decimal point is left for the next
    // token, so the tail lexes as a period and a fresh integer
    let actual = collect("123.123.123");
    let expected = vec![
        Ok(Token { token: TokenEnum::Float("123.123".into()), row: 1, column: 1 }),
        Ok(Token { token: TokenEnum::Period, row: 1, column: 8 }),
        Ok(Token { token: TokenEnum::Integer(123), row: 1, column: 9 }),
    ];
    assert_eq!(expected, actual);
}

#[test]
fn test_escaped_quote_in_string() {
    let actual = collect("\"a \\\"b\\\" c\"");
    let expected = vec![Ok(Token {
        token: TokenEnum::String("a \"b\" c".into()),
        row: 1,
        column: 1,
    })];
    assert_eq!(expected, actual);
}

#[test]
fn test_unclosed_string() {
    let actual = collect("\"abc");
    let expected = vec![Err(CompileError::new(1, 1, CompileErrorEnum::UnclosedString))];
    assert_eq!(expected, actual);
}

#[test]
fn test_pipe_errors() {
    let actual = collect("|x");
    let expected = vec![Err(CompileError::new(
        1,
        2,
        CompileErrorEnum::ExpectedPipe("Unexpected character 'x'".to_string()),
    ))];
    assert_eq!(expected, actual);

    let actual = collect("|");
    let expected = vec![Err(CompileError::new(
        1,
        1,
        CompileErrorEnum::ExpectedPipe(
            "Expected '>', '=', '?', '!', '.' or '|', found end of input".to_string(),
        ),
    ))];
    assert_eq!(expected, actual);

    let actual = collect("\\x");
    let expected = vec![Err(CompileError::new(
        1,
        2,
        CompileErrorEnum::ExpectedPipe("Unexpected character 'x'".to_string()),
    ))];
    assert_eq!(expected, actual);
}

#[test]
fn test_stray_character() {
    let actual = collect("@");
    let expected = vec![Err(CompileError::new(
        1,
        1,
        CompileErrorEnum::ExpectedPipe("Unexpected character '@'".to_string()),
    ))];
    assert_eq!(expected, actual);
}

#[test]
fn test_integer_range() {
    // the largest 128-bit signed value still lexes; one more digit is an
    // error, and lexing resumes after it
    let actual = collect("170141183460469231731687303715884105727");
    let expected = vec![Ok(Token {
        token: TokenEnum::Integer(i128::MAX),
        row: 1,
        column: 1,
    })];
    assert_eq!(expected, actual);

    let actual = collect("1701411834604692317316873037158841057270 ;");
    let expected = vec![
        Err(CompileError::new(
            1,
            1,
            CompileErrorEnum::ExpectedPipe("Integer literal too large for 128 bits".to_string()),
        )),
        Ok(Token { token: TokenEnum::SemiColon, row: 1, column: 42 }),
    ];
    assert_eq!(expected, actual);
}

#[test]
fn test_comments_are_transparent() {
    let actual = collect("1 // a comment / with * stuff\n2");
    let expected = vec![
        Ok(Token { token: TokenEnum::Integer(1), row: 1, column: 1 }),
        Ok(Token { token: TokenEnum::Integer(2), row: 2, column: 1 }),
    ];
    assert_eq!(expected, actual);

    // a trailing comment produces nothing at all
    let actual = collect("// only a comment");
    assert_eq!(actual.len(), 0);
}

#[test]
fn test_errors_do_not_stop_the_stream() {
    let actual = collect("@ ;");
    assert_eq!(actual.len(), 2);
    assert!(actual[0].is_err());
    assert_eq!(
        actual[1],
        Ok(Token { token: TokenEnum::SemiColon, row: 1, column: 3 })
    );
}

#[test]
fn test_positions_across_lines() {
    let actual = collect(";\n ;\n\n;");
    let expected = vec![
        Ok(Token { token: TokenEnum::SemiColon, row: 1, column: 1 }),
        Ok(Token { token: TokenEnum::SemiColon, row: 2, column: 2 }),
        Ok(Token { token: TokenEnum::SemiColon, row: 4, column: 1 }),
    ];
    assert_eq!(expected, actual);
}

#[test]
fn test_trailing_decimal_point() {
    // a decimal point right at the end of a digit run still selects a float
    let actual = collect("1. 2");
    let expected = vec![
        Ok(Token { token: TokenEnum::Float("1.".into()), row: 1, column: 1 }),
        Ok(Token { token: TokenEnum::Integer(2), row: 1, column: 4 }),
    ];
    assert_eq!(expected, actual);
}

#[test]
fn test_identifier_with_digits_and_underscores() {
    let actual = collect("a1_b pub");
    let expected = vec![
        Ok(Token { token: TokenEnum::Identifier("a1_b".into()), row: 1, column: 1 }),
        // `pub` is not in the lexer's keyword table; it stays an identifier
        Ok(Token { token: TokenEnum::Identifier("pub".into()), row: 1, column: 6 }),
    ];
    assert_eq!(expected, actual);
}

use st_core::ast::{parse_identifier, AstNodeEnum};
use st_core::cursor::Cursor;
use st_core::error::{CompileError, CompileErrorEnum, PrintToken};
use st_core::tokenizer::{Token, TokenEnum};

#[test]
fn test_parse_identifier() {
    let mut tokens = Cursor::new(vec![
        Token {
            token: TokenEnum::Identifier("test".to_string()),
            row: 1,
            column: 1,
        },
        Token {
            token: TokenEnum::DoubleColon,
            row: 1,
            column: 2,
        },
        Token {
            token: TokenEnum::Identifier("test".to_string()),
            row: 1,
            column: 3,
        },
    ]);

    let result = parse_identifier(&mut tokens, "test".to_string());

    assert_eq!(result, Ok(AstNodeEnum::Identifier("test::test".to_string())));
}

#[test]
fn test_parse_identifier_stops_before_other_tokens() {
    let mut tokens = Cursor::new(vec![
        Token {
            token: TokenEnum::Identifier("a".to_string()),
            row: 1,
            column: 1,
        },
        Token {
            token: TokenEnum::SemiColon,
            row: 1,
            column: 2,
        },
    ]);

    let result = parse_identifier(&mut tokens, "a".to_string());

    assert_eq!(result, Ok(AstNodeEnum::Identifier("a".to_string())));
    // the token after the chain stays unconsumed
    assert_eq!(tokens.len(), 1);
}

#[test]
fn test_parse_identifier_expects_identifier_after_separator() {
    let mut tokens = Cursor::new(vec![
        Token {
            token: TokenEnum::Identifier("a".to_string()),
            row: 1,
            column: 1,
        },
        Token {
            token: TokenEnum::DoubleColon,
            row: 1,
            column: 2,
        },
        Token {
            token: TokenEnum::SemiColon,
            row: 1,
            column: 4,
        },
    ]);

    let result = parse_identifier(&mut tokens, "a".to_string());

    assert_eq!(
        result,
        Err(CompileError::new(
            1,
            4,
            CompileErrorEnum::ExpectedToken {
                expected: PrintToken(TokenEnum::Identifier(String::new())),
                found: TokenEnum::SemiColon,
            },
        ))
    );
}

#[test]
fn test_parse_identifier_end_of_input() {
    let mut tokens = Cursor::new(vec![
        Token {
            token: TokenEnum::Identifier("a".to_string()),
            row: 1,
            column: 1,
        },
        Token {
            token: TokenEnum::DoubleColon,
            row: 1,
            column: 2,
        },
    ]);

    let result = parse_identifier(&mut tokens, "a".to_string());

    assert_eq!(
        result,
        Err(CompileError::new(
            1,
            2,
            CompileErrorEnum::UnexpectedEndOfInput {
                expected: PrintToken(TokenEnum::Identifier(String::new())),
            },
        ))
    );
}

use st_core::error::{token_name, CompileError, CompileErrorEnum, PrintToken, PrintTokens};
use st_core::tokenizer::TokenEnum;

#[test]
fn test_token_names_render_surface_syntax() {
    assert_eq!(token_name(&TokenEnum::PipeNext), "|>");
    assert_eq!(token_name(&TokenEnum::PipeMatch), "|?");
    assert_eq!(token_name(&TokenEnum::PipeMatchEnd), "\\?");
    assert_eq!(token_name(&TokenEnum::Arrow), "->");
    assert_eq!(token_name(&TokenEnum::KWFunc), "func");
    assert_eq!(token_name(&TokenEnum::Identifier("abc".into())), "<identifier>");
    assert_eq!(token_name(&TokenEnum::Integer(5)), "<integer>");
    assert_eq!(token_name(&TokenEnum::String("s".into())), "\"<string>\"");
}

#[test]
fn test_token_names_never_empty() {
    let samples = vec![
        TokenEnum::KWFunc,
        TokenEnum::KWData,
        TokenEnum::KWUsing,
        TokenEnum::KWObject,
        TokenEnum::KWEnum,
        TokenEnum::KWRef,
        TokenEnum::KWMut,
        TokenEnum::KWPub,
        TokenEnum::PipeMatch,
        TokenEnum::PipeNext,
        TokenEnum::PipeSet,
        TokenEnum::PipeError,
        TokenEnum::PipeReturn,
        TokenEnum::PipeMatchEnd,
        TokenEnum::LessThen,
        TokenEnum::GreaterThen,
        TokenEnum::Plus,
        TokenEnum::Minus,
        TokenEnum::Times,
        TokenEnum::Divide,
        TokenEnum::Power,
        TokenEnum::Modulo,
        TokenEnum::Arrow,
        TokenEnum::Or,
        TokenEnum::OpenBrace,
        TokenEnum::CloseBrace,
        TokenEnum::OpenCurlyBrace,
        TokenEnum::CloseCurlyBrace,
        TokenEnum::DoubleColon,
        TokenEnum::Colon,
        TokenEnum::SemiColon,
        TokenEnum::Period,
        TokenEnum::Comma,
        TokenEnum::Identifier("x".into()),
        TokenEnum::Bool(true),
        TokenEnum::Integer(1),
        TokenEnum::Float("1.5".into()),
        TokenEnum::String("x".into()),
    ];
    for t in &samples {
        assert!(!token_name(t).is_empty());
        let wrapped = PrintToken(t.clone());
        assert!(!wrapped.render().is_empty());
        let err = CompileError::new(3, 7, CompileErrorEnum::UnexpectedToken(t.clone()));
        assert!(!err.render().is_empty());
    }
}

#[test]
fn test_render_positions_and_message() {
    let err = CompileError::new(3, 7, CompileErrorEnum::UnexpectedToken(TokenEnum::PipeNext));
    assert_eq!(err.render(), "3:7: Unexpected token '|>'");

    let err = CompileError::new(12, 40, CompileErrorEnum::UnclosedString);
    assert_eq!(err.render(), "12:40: Unclosed string");

    let err = CompileError::new(
        1,
        2,
        CompileErrorEnum::ExpectedToken {
            expected: PrintToken(TokenEnum::Identifier(String::new())),
            found: TokenEnum::Comma,
        },
    );
    assert_eq!(err.render(), "1:2: Expected '<identifier>', found ','");
}

#[test]
fn test_render_expected_one_of() {
    let err = CompileError::new(
        2,
        5,
        CompileErrorEnum::ExpectedOneOf {
            expected: PrintTokens(vec![TokenEnum::PipeNext, TokenEnum::PipeSet]),
            found: TokenEnum::KWFunc,
        },
    );
    assert_eq!(err.render(), "2:5: Expected one of |>|=, found 'func'");
}

#[test]
fn test_print_token_renders_quoted() {
    assert_eq!(PrintToken(TokenEnum::PipeNext).render(), "'|>'");
    assert_eq!(PrintToken(TokenEnum::Bool(false)).render(), "'<true|false>'");
}

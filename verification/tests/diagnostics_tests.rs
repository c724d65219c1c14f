use rcc::diagnostics::decimal_text;
use rcc::driver::{check_source_path, usage};
use rcc::lexer::{tokenize, Token};
use rcc::parser::{parse, ParseError};

fn every_token() -> Vec<Token> {
    vec![
        Token::Int,
        Token::Void,
        Token::Return,
        Token::If,
        Token::Else,
        Token::While,
        Token::For,
        Token::Break,
        Token::Continue,
        Token::Identifier("answer_42".to_string()),
        Token::Identifier("say \"hi\"\n".to_string()),
        Token::Plus,
        Token::Minus,
        Token::Star,
        Token::Slash,
        Token::Percent,
        Token::LeftParen,
        Token::RightParen,
        Token::LeftBrace,
        Token::RightBrace,
        Token::Semicolon,
        Token::Comma,
        Token::Equals,
        Token::EqualEqual,
        Token::NotEqual,
        Token::LessThan,
        Token::LessEqual,
        Token::GreaterThan,
        Token::GreaterEqual,
        Token::AndAnd,
        Token::OrOr,
        Token::Exclamation,
        Token::Ampersand,
        Token::PlusPlus,
        Token::MinusMinus,
        Token::PlusEqual,
        Token::MinusEqual,
        Token::StarEqual,
        Token::SlashEqual,
        Token::PercentEqual,
        Token::Integer(0),
        Token::Integer(7),
        Token::Integer(-45),
        Token::Integer(i32::MAX),
        Token::Integer(i32::MIN),
    ]
}

#[test]
fn unexpected_token_message_shows_the_token_as_debug_does() {
    for token in every_token() {
        let error = ParseError::UnexpectedToken {
            expected: "expression",
            found: Some(token.clone()),
        };
        assert_eq!(
            error.message(),
            format!("expected expression, found {:?}", Some(token))
        );
    }
    let at_end = ParseError::UnexpectedToken {
        expected: "`}`",
        found: None,
    };
    assert_eq!(at_end.message(), "expected `}`, found None");
}

#[test]
fn trailing_token_message() {
    for token in every_token() {
        let error = ParseError::TrailingTokens {
            found: token.clone(),
        };
        assert_eq!(
            error.message(),
            format!("unexpected trailing token after program: {:?}", token)
        );
    }
}

#[test]
fn invalid_increment_target_message() {
    assert_eq!(
        ParseError::InvalidIncrementTarget.message(),
        "`++`/`--` target must be a variable"
    );
}

#[test]
fn rejects_invalid_parameters() {
    let tokens = tokenize("int main(int x y) { return 0; }\n").expect("should lex");
    let error = parse(&tokens).expect_err("should not parse");
    assert_eq!(
        error.message(),
        "expected `,` or `)`, found Some(Identifier(\"y\"))"
    );
}

#[test]
fn decimal_text_of_integers() {
    assert_eq!(decimal_text(0), "0");
    assert_eq!(decimal_text(9), "9");
    assert_eq!(decimal_text(10), "10");
    assert_eq!(decimal_text(-5), "-5");
    assert_eq!(decimal_text(2147483647), "2147483647");
    assert_eq!(decimal_text(-2147483648), "-2147483648");
}

#[test]
fn accepts_only_c_sources() {
    assert_eq!(check_source_path("samples/return_5.c"), Ok(()));
    assert_eq!(check_source_path(".c"), Ok(()));
    assert_eq!(
        check_source_path("main.cpp"),
        Err("expected a .c input file, received: main.cpp".to_string())
    );
    assert_eq!(
        check_source_path("c"),
        Err("expected a .c input file, received: c".to_string())
    );
}

#[test]
fn usage_line_names_the_program() {
    assert_eq!(usage("compiler"), "usage: compiler <input.c>");
}

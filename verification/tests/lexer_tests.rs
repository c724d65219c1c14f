use rcc::lexer::{tokenize, Token};

#[test]
fn tokenizes_minimal_c_program() {
    let source = "int main() { return 5; }";
    let tokens = tokenize(source).expect("tokenization should succeed");

    assert_eq!(
        tokens,
        vec![
            Token::Int,
            Token::Identifier("main".to_string()),
            Token::LeftParen,
            Token::RightParen,
            Token::LeftBrace,
            Token::Return,
            Token::Integer(5),
            Token::Semicolon,
            Token::RightBrace,
        ]
    );
}

#[test]
fn ignores_whitespace_between_tokens() {
    let source = " \n\tint   answer  ( )  { return 123; }\n";
    let tokens = tokenize(source).expect("tokenization should succeed");

    assert_eq!(
        tokens,
        vec![
            Token::Int,
            Token::Identifier("answer".to_string()),
            Token::LeftParen,
            Token::RightParen,
            Token::LeftBrace,
            Token::Return,
            Token::Integer(123),
            Token::Semicolon,
            Token::RightBrace,
        ]
    );
}

#[test]
fn rejects_unexpected_characters() {
    let error = tokenize("int main() { return @; }").expect_err("tokenization should fail");

    assert!(error.contains("unexpected character `@`"));
}

#[test]
fn tokenizes_arithmetic_expression() {
    let source = "int main() { return 4 * (2 + 1); }";
    let tokens = tokenize(source).expect("tokenization should succeed");

    assert_eq!(
        tokens,
        vec![
            Token::Int,
            Token::Identifier("main".to_string()),
            Token::LeftParen,
            Token::RightParen,
            Token::LeftBrace,
            Token::Return,
            Token::Integer(4),
            Token::Star,
            Token::LeftParen,
            Token::Integer(2),
            Token::Plus,
            Token::Integer(1),
            Token::RightParen,
            Token::Semicolon,
            Token::RightBrace,
        ]
    );
}

#[test]
fn tokenizes_void_keyword() {
    let source = "int main(void) { return 0; }";
    let tokens = tokenize(source).expect("should succeed");
    assert_eq!(
        tokens,
        vec![
            Token::Int,
            Token::Identifier("main".to_string()),
            Token::LeftParen,
            Token::Void,
            Token::RightParen,
            Token::LeftBrace,
            Token::Return,
            Token::Integer(0),
            Token::Semicolon,
            Token::RightBrace,
        ]
    );
}

#[test]
fn tokenizes_relational_and_logical_operators() {
    let source = "== != < <= > >= && || !";
    let tokens = tokenize(source).expect("should succeed");
    assert_eq!(
        tokens,
        vec![
            Token::EqualEqual,
            Token::NotEqual,
            Token::LessThan,
            Token::LessEqual,
            Token::GreaterThan,
            Token::GreaterEqual,
            Token::AndAnd,
            Token::OrOr,
            Token::Exclamation,
        ]
    );
}

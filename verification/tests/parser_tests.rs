use rcc::ast::{
    BinaryExpr, BinaryOp, Expr, Function, FunctionCallExpr, IntegerLiteral, Parameter, Program,
    ReturnStatement, Statement, Type, UnaryExpr, UnaryOp, VarAssignStatement,
    VarDeclareStatement, VariableExpr,
};
use rcc::lexer::Token;
use rcc::parser::{parse, ParseError, Parser};

#[test]
fn parses_minimal_program() {
    let tokens = vec![
        Token::Int,
        Token::Identifier("main".to_string()),
        Token::LeftParen,
        Token::RightParen,
        Token::LeftBrace,
        Token::Return,
        Token::Integer(5),
        Token::Semicolon,
        Token::RightBrace,
    ];

    let program = parse(&tokens).expect("parser should accept a minimal program");

    assert_eq!(
        program,
        Program {
            functions: vec![Function {
                name: "main".to_string(),
                return_type: Type::Int,
                params: vec![],
                body: vec![Statement::Return(ReturnStatement {
                    expr: Expr::IntegerLiteral(IntegerLiteral { value: 5 }),
                })],
            }],
        }
    );
}

#[test]
fn parses_function_with_recursive_descent_entrypoint() {
    let tokens = vec![
        Token::Int,
        Token::Identifier("main".to_string()),
        Token::LeftParen,
        Token::RightParen,
        Token::LeftBrace,
        Token::Return,
        Token::Integer(42),
        Token::Semicolon,
        Token::RightBrace,
    ];

    let mut parser = Parser::new(&tokens);
    let function = parser
        .parse_function()
        .expect("parser should read a function");

    assert_eq!(
        function,
        Function {
            name: "main".to_string(),
            return_type: Type::Int,
            params: vec![],
            body: vec![Statement::Return(ReturnStatement {
                expr: Expr::IntegerLiteral(IntegerLiteral { value: 42 }),
            })],
        }
    );
}

#[test]
fn reports_unexpected_token() {
    let tokens = vec![
        Token::Int,
        Token::Identifier("main".to_string()),
        Token::LeftParen,
        Token::RightParen,
        Token::LeftBrace,
        Token::Return,
        Token::Semicolon,
        Token::RightBrace,
    ];

    let error = parse(&tokens).expect_err("parser should reject a missing integer literal");

    assert_eq!(
        error,
        ParseError::UnexpectedToken {
            expected: "expression",
            found: Some(Token::Semicolon),
        }
    );
}

#[test]
fn parses_addition_expression() {
    let tokens = vec![
        Token::Int,
        Token::Identifier("main".to_string()),
        Token::LeftParen,
        Token::RightParen,
        Token::LeftBrace,
        Token::Return,
        Token::Integer(2),
        Token::Plus,
        Token::Integer(3),
        Token::Semicolon,
        Token::RightBrace,
    ];

    let program = parse(&tokens).expect("parser should accept addition");

    assert_eq!(
        program.functions[0].body,
        vec![Statement::Return(ReturnStatement {
            expr: Expr::Binary(BinaryExpr {
                left: Box::new(Expr::IntegerLiteral(IntegerLiteral { value: 2 })),
                operator: BinaryOp::Add,
                right: Box::new(Expr::IntegerLiteral(IntegerLiteral { value: 3 })),
            }),
        })]
    );
}

#[test]
fn respects_operator_precedence_and_parentheses() {
    let tokens = vec![
        Token::Int,
        Token::Identifier("main".to_string()),
        Token::LeftParen,
        Token::RightParen,
        Token::LeftBrace,
        Token::Return,
        Token::Integer(4),
        Token::Star,
        Token::LeftParen,
        Token::Integer(2),
        Token::Plus,
        Token::Integer(1),
        Token::RightParen,
        Token::Semicolon,
        Token::RightBrace,
    ];

    let program = parse(&tokens).expect("parser should accept grouped multiplication");

    assert_eq!(
        program.functions[0].body,
        vec![Statement::Return(ReturnStatement {
            expr: Expr::Binary(BinaryExpr {
                left: Box::new(Expr::IntegerLiteral(IntegerLiteral { value: 4 })),
                operator: BinaryOp::Multiply,
                right: Box::new(Expr::Binary(BinaryExpr {
                    left: Box::new(Expr::IntegerLiteral(IntegerLiteral { value: 2 })),
                    operator: BinaryOp::Add,
                    right: Box::new(Expr::IntegerLiteral(IntegerLiteral { value: 1 })),
                })),
            }),
        })]
    );
}

#[test]
fn parses_unary_expressions() {
    let tokens = vec![
        Token::Int,
        Token::Identifier("main".to_string()),
        Token::LeftParen,
        Token::RightParen,
        Token::LeftBrace,
        Token::Return,
        Token::Minus,
        Token::Plus,
        Token::Integer(5),
        Token::Semicolon,
        Token::RightBrace,
    ];

    let program = parse(&tokens).expect("parser should accept unary ops");

    assert_eq!(
        program.functions[0].body,
        vec![Statement::Return(ReturnStatement {
            expr: Expr::Unary(UnaryExpr {
                operator: UnaryOp::Negate,
                expr: Box::new(Expr::Unary(UnaryExpr {
                    operator: UnaryOp::Posate,
                    expr: Box::new(Expr::IntegerLiteral(IntegerLiteral { value: 5 })),
                })),
            }),
        })]
    );
}

#[test]
fn parses_void_parameter() {
    let tokens = vec![
        Token::Int,
        Token::Identifier("main".to_string()),
        Token::LeftParen,
        Token::Void,
        Token::RightParen,
        Token::LeftBrace,
        Token::Return,
        Token::Integer(0),
        Token::Semicolon,
        Token::RightBrace,
    ];

    let program = parse(&tokens).expect("parser should accept void parameter");

    assert_eq!(program.functions[0].name, "main".to_string());
}

#[test]
fn parses_variable_declaration_and_assignment() {
    let tokens = vec![
        Token::Int,
        Token::Identifier("main".to_string()),
        Token::LeftParen,
        Token::RightParen,
        Token::LeftBrace,
        Token::Int,
        Token::Identifier("x".to_string()),
        Token::Equals,
        Token::Integer(5),
        Token::Semicolon,
        Token::Identifier("x".to_string()),
        Token::Equals,
        Token::Identifier("x".to_string()),
        Token::Plus,
        Token::Integer(2),
        Token::Semicolon,
        Token::Return,
        Token::Identifier("x".to_string()),
        Token::Semicolon,
        Token::RightBrace,
    ];

    let program =
        parse(&tokens).expect("parser should accept variables and multiple statements");

    assert_eq!(
        program.functions[0].body,
        vec![
            Statement::Declare(VarDeclareStatement {
                name: "x".to_string(),
                ty: Type::Int,
                init: Expr::IntegerLiteral(IntegerLiteral { value: 5 }),
            }),
            Statement::Assign(VarAssignStatement {
                target: Expr::Variable(VariableExpr {
                    name: "x".to_string(),
                }),
                op: None,
                expr: Expr::Binary(BinaryExpr {
                    left: Box::new(Expr::Variable(VariableExpr {
                        name: "x".to_string()
                    })),
                    operator: BinaryOp::Add,
                    right: Box::new(Expr::IntegerLiteral(IntegerLiteral { value: 2 })),
                }),
            }),
            Statement::Return(ReturnStatement {
                expr: Expr::Variable(VariableExpr {
                    name: "x".to_string()
                }),
            }),
        ]
    );
}

#[test]
fn parses_compound_assignment() {
    let tokens = vec![
        Token::Int,
        Token::Identifier("main".to_string()),
        Token::LeftParen,
        Token::RightParen,
        Token::LeftBrace,
        Token::Int,
        Token::Identifier("x".to_string()),
        Token::Equals,
        Token::Integer(5),
        Token::Semicolon,
        Token::Identifier("x".to_string()),
        Token::PlusEqual,
        Token::Integer(2),
        Token::Semicolon,
        Token::Return,
        Token::Identifier("x".to_string()),
        Token::Semicolon,
        Token::RightBrace,
    ];

    let program = parse(&tokens).expect("parser should accept compound assignment");

    assert_eq!(
        program.functions[0].body[1],
        Statement::Assign(VarAssignStatement {
            target: Expr::Variable(VariableExpr {
                name: "x".to_string(),
            }),
            op: Some(BinaryOp::Add),
            expr: Expr::IntegerLiteral(IntegerLiteral { value: 2 }),
        })
    );
}

#[test]
fn parses_increment_and_decrement_statements() {
    let tokens = vec![
        Token::Int,
        Token::Identifier("main".to_string()),
        Token::LeftParen,
        Token::RightParen,
        Token::LeftBrace,
        Token::Int,
        Token::Identifier("x".to_string()),
        Token::Equals,
        Token::Integer(5),
        Token::Semicolon,
        Token::Identifier("x".to_string()),
        Token::PlusPlus,
        Token::Semicolon,
        Token::MinusMinus,
        Token::Identifier("x".to_string()),
        Token::Semicolon,
        Token::Return,
        Token::Identifier("x".to_string()),
        Token::Semicolon,
        Token::RightBrace,
    ];

    let program = parse(&tokens).expect("parser should accept increment statements");

    let expected_incdec = |op| {
        Statement::Assign(VarAssignStatement {
            target: Expr::Variable(VariableExpr {
                name: "x".to_string(),
            }),
            op: Some(op),
            expr: Expr::IntegerLiteral(IntegerLiteral { value: 1 }),
        })
    };
    assert_eq!(program.functions[0].body[1], expected_incdec(BinaryOp::Add));
    assert_eq!(
        program.functions[0].body[2],
        expected_incdec(BinaryOp::Subtract)
    );
}

#[test]
fn rejects_increment_of_non_variable() {
    let tokens = vec![
        Token::Int,
        Token::Identifier("main".to_string()),
        Token::LeftParen,
        Token::RightParen,
        Token::LeftBrace,
        Token::Star,
        Token::Identifier("p".to_string()),
        Token::PlusPlus,
        Token::Semicolon,
        Token::RightBrace,
    ];

    let error = parse(&tokens).expect_err("parser should reject `*p++`");
    assert_eq!(error, ParseError::InvalidIncrementTarget);
}

#[test]
fn parses_comparisons_and_logical_operators() {
    let tokens = vec![
        Token::Int,
        Token::Identifier("main".to_string()),
        Token::LeftParen,
        Token::RightParen,
        Token::LeftBrace,
        Token::Return,
        Token::Integer(1),
        Token::LessThan,
        Token::Integer(2),
        Token::AndAnd,
        Token::Exclamation,
        Token::Integer(0),
        Token::Semicolon,
        Token::RightBrace,
    ];

    let program = parse(&tokens).expect("should parse logic ops");

    assert_eq!(
        program.functions[0].body,
        vec![Statement::Return(ReturnStatement {
            expr: Expr::Binary(BinaryExpr {
                left: Box::new(Expr::Binary(BinaryExpr {
                    left: Box::new(Expr::IntegerLiteral(IntegerLiteral { value: 1 })),
                    operator: BinaryOp::LessThan,
                    right: Box::new(Expr::IntegerLiteral(IntegerLiteral { value: 2 })),
                })),
                operator: BinaryOp::LogicalAnd,
                right: Box::new(Expr::Unary(UnaryExpr {
                    operator: UnaryOp::LogicalNot,
                    expr: Box::new(Expr::IntegerLiteral(IntegerLiteral { value: 0 })),
                })),
            }),
        })]
    );
}

#[test]
fn parses_multiple_functions_with_parameters() {
    let tokens = vec![
        // int add(int a, int b) { return a + b; }
        Token::Int,
        Token::Identifier("add".to_string()),
        Token::LeftParen,
        Token::Int,
        Token::Identifier("a".to_string()),
        Token::Comma,
        Token::Int,
        Token::Identifier("b".to_string()),
        Token::RightParen,
        Token::LeftBrace,
        Token::Return,
        Token::Identifier("a".to_string()),
        Token::Plus,
        Token::Identifier("b".to_string()),
        Token::Semicolon,
        Token::RightBrace,
        // int main() { return add(2, 3); }
        Token::Int,
        Token::Identifier("main".to_string()),
        Token::LeftParen,
        Token::RightParen,
        Token::LeftBrace,
        Token::Return,
        Token::Identifier("add".to_string()),
        Token::LeftParen,
        Token::Integer(2),
        Token::Comma,
        Token::Integer(3),
        Token::RightParen,
        Token::Semicolon,
        Token::RightBrace,
    ];

    let program = parse(&tokens).expect("should parse multiple functions with params");

    assert_eq!(program.functions.len(), 2);

    // check first function
    assert_eq!(program.functions[0].name, "add".to_string());
    assert_eq!(program.functions[0].return_type, Type::Int);
    assert_eq!(
        program.functions[0].params,
        vec![
            Parameter {
                name: "a".to_string(),
                ty: Type::Int
            },
            Parameter {
                name: "b".to_string(),
                ty: Type::Int
            },
        ]
    );

    // check second function
    assert_eq!(program.functions[1].name, "main".to_string());
    assert_eq!(
        program.functions[1].body[0],
        Statement::Return(ReturnStatement {
            expr: Expr::Call(FunctionCallExpr {
                name: "add".to_string(),
                args: vec![
                    Expr::IntegerLiteral(IntegerLiteral { value: 2 }),
                    Expr::IntegerLiteral(IntegerLiteral { value: 3 }),
                ],
            }),
        })
    );
}

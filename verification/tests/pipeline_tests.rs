use rcc::ast::{
    BinaryExpr, BinaryOp, ConditionalExpr, Expr, IntegerLiteral, Program, ReturnStatement, Statement, UnaryExpr,
    UnaryOp, VarAssignStatement, VariableExpr,
};
use rcc::codegen::{lower_program, CodegenError};
use rcc::lexer::{tokenize, Token};
use rcc::parser::{parse, ParseError};

fn lit(value: i32) -> Expr {
    Expr::IntegerLiteral(IntegerLiteral { value })
}

fn var(name: &str) -> Expr {
    Expr::Variable(VariableExpr {
        name: name.to_string(),
    })
}

fn bin(left: Expr, operator: BinaryOp, right: Expr) -> Expr {
    Expr::Binary(BinaryExpr {
        left: Box::new(left),
        operator,
        right: Box::new(right),
    })
}

fn cond(condition: Expr, then_expr: Expr, else_expr: Expr) -> Expr {
    Expr::Conditional(ConditionalExpr {
        condition: Box::new(condition),
        then_expr: Box::new(then_expr),
        else_expr: Box::new(else_expr),
    })
}

fn parse_source(source: &str) -> Program {
    let tokens = tokenize(source).expect("source should lex");
    parse(&tokens).expect("source should parse")
}

/// The statements of `main` in a one-function program.
fn main_body(source: &str) -> Vec<Statement> {
    let mut program = parse_source(source);
    assert_eq!(program.functions.len(), 1);
    program.functions.remove(0).body
}

fn returned(source: &str) -> Expr {
    match main_body(source).remove(0) {
        Statement::Return(ReturnStatement { expr }) => expr,
        other => panic!("expected a return statement, got {other:?}"),
    }
}

#[test]
fn tokenizes_keywords_and_compound_operators() {
    let tokens = tokenize("if else while for break continue & ++ -- += -= *= /= %= % ,")
        .expect("should lex");
    assert_eq!(
        tokens,
        vec![
            Token::If,
            Token::Else,
            Token::While,
            Token::For,
            Token::Break,
            Token::Continue,
            Token::Ampersand,
            Token::PlusPlus,
            Token::MinusMinus,
            Token::PlusEqual,
            Token::MinusEqual,
            Token::StarEqual,
            Token::SlashEqual,
            Token::PercentEqual,
            Token::Percent,
            Token::Comma,
        ]
    );
}

#[test]
fn lexer_errors_name_their_cause() {
    assert_eq!(
        tokenize("int main() { return 1 | 2; }"),
        Err("expected '|' after '|'".to_string())
    );
    assert_eq!(
        tokenize("return 99999999999;"),
        Err(
            "invalid integer literal `99999999999`: number too large to fit in target type"
                .to_string()
        )
    );
    assert_eq!(
        tokenize("int x; /* never closed"),
        Err("unterminated block comment".to_string())
    );
    assert_eq!(
        tokenize("int $"),
        Err("unexpected character `$`".to_string())
    );
}

#[test]
fn largest_integer_literal_is_accepted() {
    assert_eq!(
        tokenize("2147483647"),
        Ok(vec![Token::Integer(2147483647)])
    );
}

#[test]
fn comments_are_dropped() {
    let with_comments = tokenize(
        "// leading comment\nint main() {\n    int x = 6; // set x\n    /* block\n       comment */\n    return x % 4;\n}\n",
    )
    .expect("should lex");
    let without = tokenize("int main() { int x = 6; return x % 4; }").expect("should lex");
    assert_eq!(with_comments, without);
}

#[test]
fn lexing_lines_joined_by_newline_concatenates_their_tokens() {
    let a = "int x = 1;";
    let b = "return x;";
    let mut expected = tokenize(a).expect("should lex");
    expected.extend(tokenize(b).expect("should lex"));
    assert_eq!(tokenize(&format!("{a}\n{b}")), Ok(expected));
}

#[test]
fn multiplication_binds_tighter_than_addition() {
    assert_eq!(
        returned("int main() { return 2 + 3 * 4; }"),
        bin(lit(2), BinaryOp::Add, bin(lit(3), BinaryOp::Multiply, lit(4)))
    );
}

#[test]
fn modulo_groups_left_to_right_with_multiplication() {
    assert_eq!(
        returned("int main() { return 1 + 10 % 4 * 2; }"),
        bin(
            lit(1),
            BinaryOp::Add,
            bin(bin(lit(10), BinaryOp::Modulo, lit(4)), BinaryOp::Multiply, lit(2))
        )
    );
    assert_eq!(
        returned("int main() { return 20 / 5 - 1; }"),
        bin(bin(lit(20), BinaryOp::Divide, lit(5)), BinaryOp::Subtract, lit(1))
    );
}

#[test]
fn unary_minus_binds_tighter_than_multiplication() {
    let neg = |e| {
        Expr::Unary(UnaryExpr {
            operator: UnaryOp::Negate,
            expr: Box::new(e),
        })
    };
    assert_eq!(
        returned("int main() { return -2 * -3; }"),
        bin(neg(lit(2)), BinaryOp::Multiply, neg(lit(3)))
    );
}

#[test]
fn parentheses_only_group() {
    assert_eq!(
        returned("int main() { return (((4 * (2 + 1)))); }"),
        returned("int main() { return 4 * (2 + 1); }")
    );
}

#[test]
fn logical_operators_bind_looser_than_comparisons() {
    assert_eq!(
        returned("int main() { return 1 < 2 && 3 == 3 || 0; }"),
        bin(
            bin(
                bin(lit(1), BinaryOp::LessThan, lit(2)),
                BinaryOp::LogicalAnd,
                bin(lit(3), BinaryOp::Equal, lit(3))
            ),
            BinaryOp::LogicalOr,
            lit(0)
        )
    );
}

#[test]
fn increment_and_decrement_are_compound_assignments_of_one() {
    let body = main_body("int main() { x++; ++x; x--; --x; x += 1; }");
    let add_one = Statement::Assign(VarAssignStatement {
        target: var("x"),
        op: Some(BinaryOp::Add),
        expr: lit(1),
    });
    let sub_one = Statement::Assign(VarAssignStatement {
        target: var("x"),
        op: Some(BinaryOp::Subtract),
        expr: lit(1),
    });
    assert_eq!(body, vec![add_one.clone(), add_one.clone(), sub_one.clone(), sub_one, add_one]);
}

#[test]
fn increment_needs_a_variable() {
    let tokens = tokenize("int main() { 5++; }").expect("should lex");
    assert_eq!(parse(&tokens), Err(ParseError::InvalidIncrementTarget));
}

#[test]
fn compound_assignment_lowers_as_plain_assignment() {
    let compound = lower_program(&parse_source("int main() { int x = 40; x += 2; return x; }"))
        .expect("should lower");
    let plain = lower_program(&parse_source("int main() { int x = 40; x = x + 2; return x; }"))
        .expect("should lower");
    assert_eq!(compound, plain);
}

#[test]
fn break_and_continue_are_accepted_anywhere_inside_loops() {
    let program = parse_source(
        "int main() { int x = 0; while (1) { if (x) { { break; } } else { x++; continue; } } for (;;) { { if (1) break; } } return x; }",
    );
    assert!(!matches!(
        lower_program(&program),
        Err(CodegenError::Semantic(_))
    ));
}

#[test]
fn end_to_end_programs_lower() {
    let sources = [
        "int main() { return 5; }\n",
        "int main(void) { return 42; }\n",
        "int main() { return - - -5; }\n",
        "int main() { int x = 10; x += 5; x -= 3; x *= 4; x /= 6; x %= 5; return x; }\n",
        "int main() { int x = 40; int *p = &x; *p += 2; return x; }\n",
        "int main() { int x = 0; while (1) { x++; if (x == 7) { break; } } return x; }\n",
        "int main() { int count = 0; for (int i = 0; i < 3; i++) { while (1) { break; } count++; } return count; }\n",
        "int main() {\n    int result = 0;\n    for (int i = 0; i < 3; i = i + 1) {\n        int j = 0;\n        while (j < 2) {\n            if (i == 1) {\n                result = result + 10;\n            } else {\n                result = result + 1;\n            }\n            j = j + 1;\n        }\n    }\n    return result;\n}\n",
        "int main() {\n    int x = 42;\n    int* p = &x;\n    int** pp = &p;\n    **pp = 200;\n    return x;\n}\n",
        "int main() { return 1 && 2; }\n",
        "int main() { return !5; }\n",
    ];
    for source in sources {
        let program = parse_source(source);
        let ir = lower_program(&program).unwrap_or_else(|e| panic!("{source}: {e:?}"));
        assert!(ir.contains("define i32 @main()"), "{source}");
    }
}

#[test]
fn tokenizes_conditional_punctuation() {
    assert_eq!(
        tokenize("a ? b : c"),
        Ok(vec![
            Token::Identifier("a".to_string()),
            Token::Question,
            Token::Identifier("b".to_string()),
            Token::Colon,
            Token::Identifier("c".to_string()),
        ])
    );
}

#[test]
fn evaluates_chained_ternary_right_associativity() {
    let source = "int main() { int x = 2; return x == 1 ? 10 : x == 2 ? 20 : 30; }\n";
    let body = main_body(source);
    assert_eq!(
        body[1],
        Statement::Return(ReturnStatement {
            expr: cond(
                bin(var("x"), BinaryOp::Equal, lit(1)),
                lit(10),
                cond(bin(var("x"), BinaryOp::Equal, lit(2)), lit(20), lit(30)),
            ),
        })
    );
    let ir = lower_program(&parse_source(source)).expect("should lower");
    assert!(ir.contains("phi i32 [ 20, %cond.true"), "{ir}");
    assert!(ir.contains("phi i32 [ 10, %cond.true ]"), "{ir}");
}

#[test]
fn conditional_binds_looser_than_logical_or_and_nests_in_its_middle() {
    assert_eq!(
        returned("int main() { return 0 || 1 ? 1 ? 2 : 3 : 4; }"),
        cond(
            bin(lit(0), BinaryOp::LogicalOr, lit(1)),
            cond(lit(1), lit(2), lit(3)),
            lit(4),
        )
    );
    assert_eq!(
        returned("int main() { return (1 ? 2 : 3) + 4; }"),
        bin(cond(lit(1), lit(2), lit(3)), BinaryOp::Add, lit(4))
    );
}

#[test]
fn conditional_needs_its_colon() {
    let tokens = tokenize("int main() { return 1 ? 2; }").expect("should lex");
    assert_eq!(
        parse(&tokens),
        Err(ParseError::UnexpectedToken {
            expected: "`:`",
            found: Some(Token::Semicolon),
        })
    );
}

#[test]
fn evaluates_ternary_with_calls_and_assignment() {
    let source = "int max(int a, int b) { return a > b ? a : b; }\nint main() { int m = max(3, 9); m += 1 ? 2 : 100; return m; }\n";
    let ir = lower_program(&parse_source(source)).expect("should lower");
    assert!(ir.contains("call i32 @max(i32 3, i32 9)"), "{ir}");
    assert!(ir.contains("phi i32 [ 2, %cond.true ], [ 100, %cond.false ]"), "{ir}");
    assert_eq!(ir.matches("phi i32").count(), 2, "{ir}");
}

#[test]
fn lexing_texts_joined_by_a_space_concatenates_their_tokens() {
    let a = "int x = 1; /* note */";
    let b = "return x;";
    let mut expected = tokenize(a).expect("should lex");
    expected.extend(tokenize(b).expect("should lex"));
    assert_eq!(tokenize(&format!("{a} {b}")), Ok(expected));
    assert_eq!(tokenize(&format!("{a}\t{b}")), tokenize(&format!("{a} {b}")));
    assert_eq!(tokenize("// note return x;"), Ok(vec![]));
}

#[test]
fn first_unexpected_character_is_the_error() {
    assert_eq!(
        tokenize("int x = 1; @ $ 99999999999"),
        Err("unexpected character `@`".to_string())
    );
    assert_eq!(
        tokenize("/* c */ x#"),
        Err("unexpected character `#`".to_string())
    );
}

#[test]
fn parsing_programs_one_after_the_other_concatenates_their_functions() {
    let a = tokenize("int twice(int x) { return x * 2; }").expect("should lex");
    let b = tokenize("int main() { if (1) return twice(21); return 0; }").expect("should lex");
    let mut both = tokenize("int twice(int x) { return x * 2; }").expect("should lex");
    both.extend(tokenize("int main() { if (1) return twice(21); return 0; }").expect("should lex"));
    let mut expected = parse(&a).expect("should parse").functions;
    expected.extend(parse(&b).expect("should parse").functions);
    assert_eq!(parse(&both).expect("should parse").functions, expected);
}

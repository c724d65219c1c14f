use rcc::ast::{
    BinaryExpr, BinaryOp, Expr, Function, IntegerLiteral, Program, ReturnStatement, Statement,
    Type, UnaryExpr, UnaryOp, VarAssignStatement, VarDeclareStatement, VariableExpr,
};
use rcc::codegen::{generate_ir, lower_program, CodegenError};
use rcc::ir::{ArithOp, BlockKind, Comparison, Instr, Operand};
use rcc::lowering::lower_to_ir;
use rcc::lexer::tokenize;
use rcc::parser::parse;

fn compile(source: &str) -> Result<String, CodegenError> {
    let tokens = tokenize(source).expect("source should lex");
    let program = parse(&tokens).expect("source should parse");
    lower_program(&program)
}

fn semantic(message: &str) -> Result<String, CodegenError> {
    Err(CodegenError::Semantic(message.to_string()))
}

#[test]
fn generates_llvm_ir_for_comparison() {
    let program = Program {
        functions: vec![Function {
            name: "main".to_string(),
            return_type: Type::Int,
            params: vec![],
            body: vec![
                Statement::Declare(VarDeclareStatement {
                    name: "x".to_string(),
                    ty: Type::Int,
                    init: Expr::IntegerLiteral(IntegerLiteral { value: 5 }),
                }),
                Statement::Return(ReturnStatement {
                    expr: Expr::Binary(BinaryExpr {
                        left: Box::new(Expr::Variable(VariableExpr {
                            name: "x".to_string(),
                        })),
                        operator: BinaryOp::LessThan,
                        right: Box::new(Expr::IntegerLiteral(IntegerLiteral { value: 10 })),
                    }),
                }),
            ],
        }],
    };

    let ir = generate_ir(&program).expect("should generate LLVM IR");

    assert!(ir.contains("icmp slt i32"));
    assert!(ir.contains("zext i1") || ir.contains("cast"));
    assert!(ir.contains("ret i32"));
}

#[test]
fn generates_llvm_ir_for_logical_and() {
    let program = Program {
        functions: vec![Function {
            name: "main".to_string(),
            return_type: Type::Int,
            params: vec![],
            body: vec![Statement::Return(ReturnStatement {
                expr: Expr::Binary(BinaryExpr {
                    left: Box::new(Expr::IntegerLiteral(IntegerLiteral { value: 1 })),
                    operator: BinaryOp::LogicalAnd,
                    right: Box::new(Expr::IntegerLiteral(IntegerLiteral { value: 2 })),
                }),
            })],
        }],
    };

    let ir = generate_ir(&program).expect("should generate LLVM IR");

    assert!(ir.contains("and.rhs:"));
    assert!(ir.contains("and.merge:"));
    assert!(ir.contains("phi i32"));
}

#[test]
fn lowers_integer_return_to_a_main_function() {
    let ir = compile("int main() { return 5; }").expect("should lower");
    assert!(ir.contains("define i32 @main()"));
    assert!(ir.contains("retval"));
    assert!(ir.contains("ret i32"));
}

#[test]
fn lowers_logical_or_with_its_own_blocks() {
    let ir = compile("int main() { return 0 || 2; }").expect("should lower");
    assert!(ir.contains("or.rhs:"));
    assert!(ir.contains("or.merge:"));
    assert!(ir.contains("phi i32"));
}

#[test]
fn lowers_arithmetic_with_signed_division_and_remainder() {
    let ir = compile("int main() { int a = 7; int b = 2; return a / b + a % b - a * b; }")
        .expect("should lower");
    assert!(ir.contains("sdiv i32"));
    assert!(ir.contains("srem i32"));
    assert!(ir.contains("mul i32"));
}

#[test]
fn lowers_compound_assignment_to_load_operate_store() {
    let ir = compile("int main() { int x = 40; x += 2; return x; }").expect("should lower");
    assert!(ir.contains("%x = alloca i32"));
    assert!(ir.contains("add i32"));
}

#[test]
fn lowers_loops_with_break_and_continue() {
    let ir = compile(
        "int main() { int total = 0; for (int i = 0; i < 10; i++) { if (i % 2 == 0) { continue; } total += i; } while (1) { break; } return total; }",
    )
    .expect("should lower");
    assert!(ir.contains("for.cond:"));
    assert!(ir.contains("for.step:"));
    assert!(ir.contains("while.cont:"));
}

#[test]
fn lowers_pointers_and_calls() {
    let ir = compile(
        "int add(int a, int b) { return a + b; }\nint main() { int x = 42; int* p = &x; int** pp = &p; **pp = add(1, 2); return *p; }",
    )
    .expect("should lower");
    assert!(ir.contains("define i32 @add(i32 %0, i32 %1)"));
    assert!(ir.contains("call i32 @add"));
}

#[test]
fn rejects_program_without_main() {
    assert_eq!(
        compile("int foo() { return 5; }"),
        semantic("expected a function named 'main'")
    );
    let tokens = tokenize("int foo() { return 5; }").expect("source should lex");
    let program = parse(&tokens).expect("source should parse");
    assert_eq!(
        generate_ir(&program),
        Err("expected a function named 'main'".to_string())
    );
}

#[test]
fn rejects_break_outside_loop() {
    assert_eq!(
        compile("int main() { break; return 0; }"),
        semantic("`break` used outside of a loop")
    );
}

#[test]
fn rejects_continue_outside_loop() {
    assert_eq!(
        compile("int main() { if (1) { continue; } return 0; }"),
        semantic("`continue` used outside of a loop")
    );
}

#[test]
fn reports_undefined_variable() {
    assert_eq!(
        compile("int main() { return y; }"),
        semantic("undefined variable 'y'")
    );
}

#[test]
fn reports_undefined_function() {
    assert_eq!(
        compile("int main() { return f(1); }"),
        semantic("undefined function 'f'")
    );
}

#[test]
fn block_variables_do_not_outlive_their_block() {
    assert_eq!(
        compile("int main() { { int y = 1; } return y; }"),
        semantic("undefined variable 'y'")
    );
    assert_eq!(
        compile("int main() { for (int i = 0; i < 3; i++) { } return i; }"),
        semantic("undefined variable 'i'")
    );
}

#[test]
fn inner_declarations_shadow_outer_ones() {
    let ir = compile("int main() { int x = 1; { int x = 2; x = 3; } return x; }")
        .expect("should lower");
    assert!(ir.contains("%x1 = alloca i32") || ir.matches("alloca i32").count() >= 3);
}

#[test]
fn statements_after_return_are_not_lowered() {
    let ir = compile("int main() { return 1; return y; }").expect("should lower");
    assert!(ir.contains("ret i32"));
}

#[test]
fn rejects_dereference_of_integer() {
    assert_eq!(
        compile("int main() { int x = 1; return *x; }"),
        semantic("dereference operand did not evaluate to a pointer")
    );
    assert_eq!(
        compile("int main() { int x = 1; *x = 2; return 0; }"),
        semantic("dereference target did not evaluate to a pointer")
    );
}

#[test]
fn rejects_pointer_where_integer_is_needed() {
    assert_eq!(
        compile("int main() { int x = 1; int* p = &x; return p; }"),
        semantic("function return value must be an integer")
    );
    assert_eq!(
        compile("int main() { int x = 1; int* p = &x; return p + 1; }"),
        semantic("expected integer operand")
    );
    assert_eq!(
        compile("int main() { int x = 1; int* p = &x; return -p; }"),
        semantic("expected integer operand for unary operator")
    );
    assert_eq!(
        compile("int main() { int x = 1; int* p = &x; return p && 1; }"),
        semantic("expected integer for logical AND operand")
    );
    assert_eq!(
        compile("int main() { int x = 1; int* p = &x; return 0 || p; }"),
        semantic("expected integer for logical OR operand")
    );
    assert_eq!(
        compile("int main() { int x = 1; int* p = &x; if (p) { return 1; } return 0; }"),
        semantic("if condition must be an integer")
    );
    assert_eq!(
        compile("int main() { int x = 1; int* p = &x; while (p) { } return 0; }"),
        semantic("while condition must be an integer")
    );
    assert_eq!(
        compile("int main() { int x = 1; int* p = &x; for (; p; ) { } return 0; }"),
        semantic("for condition must be an integer")
    );
}

#[test]
fn rejects_assignment_to_a_value() {
    let program = Program {
        functions: vec![Function {
            name: "main".to_string(),
            return_type: Type::Int,
            params: vec![],
            body: vec![Statement::Assign(VarAssignStatement {
                target: Expr::IntegerLiteral(IntegerLiteral { value: 1 }),
                op: None,
                expr: Expr::IntegerLiteral(IntegerLiteral { value: 2 }),
            })],
        }],
    };
    assert_eq!(
        lower_program(&program),
        semantic("expression is not an lvalue")
    );
}

#[test]
fn error_message_is_the_same_whatever_its_kind() {
    assert_eq!(
        CodegenError::Semantic("a".to_string()).into_message(),
        "a".to_string()
    );
    assert_eq!(
        CodegenError::Llvm("b".to_string()).into_message(),
        "b".to_string()
    );
}

#[test]
fn reports_ir_that_llvm_rejects() {
    assert_eq!(
        compile("int main() { int* p = 5; return 0; }"),
        Err(CodegenError::Llvm(
            "LLVM verification failed for function 'main'".to_string()
        ))
    );
}

#[test]
fn generates_llvm_ir_for_integer_return() {
    let program = Program {
        functions: vec![Function {
            name: "main".to_string(),
            return_type: Type::Int,
            params: vec![],
            body: vec![Statement::Return(ReturnStatement {
                expr: Expr::IntegerLiteral(IntegerLiteral { value: 5 }),
            })],
        }],
    };

    let ir = generate_ir(&program).expect("should generate LLVM IR");

    assert!(ir.contains("define i32 @main()"));
    assert!(ir.contains("store i32 5, i32* %retval"));
    assert!(ir.contains("ret i32"));
}

#[test]
fn generates_llvm_ir_for_arithmetic_expression() {
    let program = Program {
        functions: vec![Function {
            name: "main".to_string(),
            return_type: Type::Int,
            params: vec![],
            body: vec![Statement::Return(ReturnStatement {
                expr: Expr::Binary(BinaryExpr {
                    left: Box::new(Expr::IntegerLiteral(IntegerLiteral { value: 4 })),
                    operator: BinaryOp::Multiply,
                    right: Box::new(Expr::Binary(BinaryExpr {
                        left: Box::new(Expr::IntegerLiteral(IntegerLiteral { value: 2 })),
                        operator: BinaryOp::Add,
                        right: Box::new(Expr::IntegerLiteral(IntegerLiteral { value: 1 })),
                    })),
                }),
            })],
        }],
    };

    let ir = generate_ir(&program).expect("should generate LLVM IR");

    assert!(ir.contains("define i32 @main()"));
    assert!(ir.contains("store i32 12, i32* %retval"));
    assert!(ir.contains("ret i32"));
}

#[test]
fn generates_llvm_ir_for_unary_negation() {
    let program = Program {
        functions: vec![Function {
            name: "main".to_string(),
            return_type: Type::Int,
            params: vec![],
            body: vec![Statement::Return(ReturnStatement {
                expr: Expr::Unary(UnaryExpr {
                    operator: UnaryOp::Negate,
                    expr: Box::new(Expr::IntegerLiteral(IntegerLiteral { value: 5 })),
                }),
            })],
        }],
    };

    let ir = generate_ir(&program).expect("should generate LLVM IR");

    assert!(ir.contains("define i32 @main()"));
    assert!(ir.contains("store i32 -5, i32* %retval"));
    assert!(ir.contains("ret i32"));
}

#[test]
fn generates_llvm_ir_for_variables() {
    let program = Program {
        functions: vec![Function {
            name: "main".to_string(),
            return_type: Type::Int,
            params: vec![],
            body: vec![
                Statement::Declare(VarDeclareStatement {
                    name: "x".to_string(),
                    ty: Type::Int,
                    init: Expr::IntegerLiteral(IntegerLiteral { value: 42 }),
                }),
                Statement::Assign(VarAssignStatement {
                    target: Expr::Variable(VariableExpr {
                        name: "x".to_string(),
                    }),
                    op: None,
                    expr: Expr::Binary(BinaryExpr {
                        left: Box::new(Expr::Variable(VariableExpr {
                            name: "x".to_string(),
                        })),
                        operator: BinaryOp::Add,
                        right: Box::new(Expr::IntegerLiteral(IntegerLiteral { value: 10 })),
                    }),
                }),
                Statement::Return(ReturnStatement {
                    expr: Expr::Variable(VariableExpr {
                        name: "x".to_string(),
                    }),
                }),
            ],
        }],
    };

    let ir = generate_ir(&program).expect("should generate LLVM IR");

    assert!(ir.contains("define i32 @main()"));
    assert!(ir.contains("%x = alloca i32"));
    assert!(ir.contains("store i32 42, i32* %x"));
    assert!(ir.contains("load i32, i32* %x"));
    assert!(ir.contains("store i32"));
    assert!(ir.contains("ret i32"));
}

fn code_of(source: &str) -> Vec<Instr> {
    let tokens = tokenize(source).expect("source should lex");
    let program = parse(&tokens).expect("source should parse");
    let mut module = lower_to_ir(&program).expect("should lower");
    assert_eq!(module.functions.len(), 1);
    module.functions.remove(0).code
}

fn prologue() -> Vec<Instr> {
    vec![
        Instr::NewBlock(BlockKind::Entry),
        Instr::NewBlock(BlockKind::Return),
        Instr::Position(0),
        Instr::Alloca { ty: Type::Int, name: "retval".to_string() },
        Instr::StoreZero { ty: Type::Int, ptr: Operand::Reg(3) },
    ]
}

#[test]
fn return_stores_the_value_and_jumps_to_the_return_block() {
    let mut expected = prologue();
    expected.extend(vec![
        Instr::Store { value: Operand::Int(5), ptr: Operand::Reg(3) },
        Instr::Br { target: 1 },
        Instr::Position(1),
        Instr::Load { ptr: Operand::Reg(3), name: "retval".to_string() },
        Instr::Ret { value: Operand::Reg(8) },
    ]);
    assert_eq!(code_of("int main() { return 5; }"), expected);
}

#[test]
fn logical_and_evaluates_its_right_operand_only_when_the_left_is_true() {
    let mut expected = prologue();
    expected.extend(vec![
        Instr::Compare {
            relation: Comparison::NotEqual,
            lhs: Operand::Int(1),
            rhs: Operand::Int(0),
            name: "lhs_true".to_string(),
        },
        Instr::NewBlock(BlockKind::AndRhs),
        Instr::NewBlock(BlockKind::AndMerge),
        Instr::CondBr { cond: Operand::Reg(5), then_block: 2, else_block: 3 },
        Instr::Position(2),
        Instr::Compare {
            relation: Comparison::NotEqual,
            lhs: Operand::Int(2),
            rhs: Operand::Int(0),
            name: "rhs_true".to_string(),
        },
        Instr::ZExt { value: Operand::Reg(10), name: "rhs_cast".to_string() },
        Instr::Br { target: 3 },
        Instr::Position(3),
        Instr::Phi {
            name: "and.result".to_string(),
            first: Operand::Int(0),
            first_block: 0,
            second: Operand::Reg(11),
            second_block: 2,
        },
        Instr::Store { value: Operand::Reg(14), ptr: Operand::Reg(3) },
        Instr::Br { target: 1 },
        Instr::Position(1),
        Instr::Load { ptr: Operand::Reg(3), name: "retval".to_string() },
        Instr::Ret { value: Operand::Reg(18) },
    ]);
    assert_eq!(code_of("int main() { return 1 && 2; }"), expected);
}

#[test]
fn if_jumps_to_then_when_true_and_to_else_otherwise() {
    let code = code_of("int main() { if (1) { return 2; } return 3; }");
    assert_eq!(
        code[5..10].to_vec(),
        vec![
            Instr::Compare {
                relation: Comparison::NotEqual,
                lhs: Operand::Int(1),
                rhs: Operand::Int(0),
                name: "ifcond".to_string(),
            },
            Instr::NewBlock(BlockKind::Then),
            Instr::NewBlock(BlockKind::Else),
            Instr::NewBlock(BlockKind::IfCont),
            Instr::CondBr { cond: Operand::Reg(5), then_block: 2, else_block: 3 },
        ]
    );
}

#[test]
fn compound_assignment_through_a_pointer_evaluates_the_place_once() {
    let code = code_of("int main() { int x = 40; int *p = &x; *p += 2; return x; }");
    let loads_of_p = code
        .iter()
        .filter(|i| matches!(i, Instr::Load { name, .. } if name == "p"))
        .count();
    assert_eq!(loads_of_p, 1);
}

#[test]
fn program_errors_come_before_any_llvm_work() {
    let program = Program {
        functions: vec![Function {
            name: "main".to_string(),
            return_type: Type::Int,
            params: vec![],
            body: vec![Statement::Return(ReturnStatement {
                expr: Expr::Variable(VariableExpr { name: "y".to_string() }),
            })],
        }],
    };
    assert_eq!(generate_ir(&program), Err("undefined variable 'y'".to_string()));
    assert_eq!(lower_to_ir(&program).err(), Some("undefined variable 'y'".to_string()));
}

fn conditional_steps(condition: Operand, first: i32, second: i32) -> Vec<Instr> {
    let mut expected = prologue();
    expected.extend(vec![
        Instr::Compare {
            relation: Comparison::NotEqual,
            lhs: condition,
            rhs: Operand::Int(0),
            name: "condtmp".to_string(),
        },
        Instr::NewBlock(BlockKind::CondTrue),
        Instr::NewBlock(BlockKind::CondFalse),
        Instr::NewBlock(BlockKind::CondEnd),
        Instr::CondBr { cond: Operand::Reg(5), then_block: 2, else_block: 3 },
        Instr::Position(2),
        Instr::Br { target: 4 },
        Instr::Position(3),
        Instr::Br { target: 4 },
        Instr::Position(4),
        Instr::Phi {
            name: "cond.result".to_string(),
            first: Operand::Int(first),
            first_block: 2,
            second: Operand::Int(second),
            second_block: 3,
        },
        Instr::Store { value: Operand::Reg(15), ptr: Operand::Reg(3) },
        Instr::Br { target: 1 },
        Instr::Position(1),
        Instr::Load { ptr: Operand::Reg(3), name: "retval".to_string() },
        Instr::Ret { value: Operand::Reg(19) },
    ]);
    expected
}

#[test]
fn evaluates_ternary_conditional() {
    assert_eq!(
        code_of("int main() { return 1 ? 10 : 20; }\n"),
        conditional_steps(Operand::Int(1), 10, 20)
    );
    assert_eq!(
        code_of("int main() { return 0 ? 10 : 20; }\n"),
        conditional_steps(Operand::Int(0), 10, 20)
    );
    let ir = compile("int main() { return 1 ? 10 : 20; }\n").expect("should lower");
    assert!(ir.contains("%cond.result = phi i32 [ 10, %cond.true ], [ 20, %cond.false ]"), "{ir}");
}

#[test]
fn ternary_evaluates_only_taken_branch() {
    let code = code_of("int main() { int zero = 0; return 0 ? 5 / zero : 7; }\n");
    let at = |step: &Instr| code.iter().position(|i| i == step).expect("step should be there");
    let divide = code
        .iter()
        .position(|i| matches!(i, Instr::Arith { op: ArithOp::SignedDiv, .. }))
        .expect("the division should be lowered");
    let true_start = at(&Instr::Position(2));
    let false_start = at(&Instr::Position(3));
    assert!(true_start < divide && divide < false_start);
    assert_eq!(code[divide + 1], Instr::Br { target: 4 });
    assert_eq!(
        code[false_start + 1..false_start + 3].to_vec(),
        vec![Instr::Br { target: 4 }, Instr::Position(4)]
    );
}

#[test]
fn conditional_operands_must_be_integers() {
    assert_eq!(
        compile("int main() { int x = 1; int *p = &x; return p ? 1 : 2; }"),
        semantic("expected integer for conditional operand")
    );
    assert_eq!(
        compile("int main() { int x = 1; int *p = &x; return 1 ? p : 2; }"),
        semantic("expected integer for conditional operand")
    );
    assert_eq!(
        compile("int main() { return 1 ? y : 2; }"),
        semantic("undefined variable 'y'")
    );
}

#[test]
fn address_and_dereference_undo_each_other_in_types() {
    assert!(compile("int main() { int x = 5; return *&x; }").is_ok());
    assert!(compile("int main() { int x = 5; int *p = &x; int **q = &p; return **q + *&*p; }").is_ok());
    assert_eq!(
        compile("int main() { int x = 5; return *x; }"),
        semantic("dereference operand did not evaluate to a pointer")
    );
}

#[test]
fn lowered_arithmetic_computes_the_value_in_source_order() {
    let mut expected = prologue();
    expected.extend(vec![
        Instr::Arith { op: ArithOp::Mul, lhs: Operand::Int(2), rhs: Operand::Int(3) },
        Instr::Arith { op: ArithOp::Sub, lhs: Operand::Int(7), rhs: Operand::Reg(5) },
        Instr::Store { value: Operand::Reg(6), ptr: Operand::Reg(3) },
        Instr::Br { target: 1 },
        Instr::Position(1),
        Instr::Load { ptr: Operand::Reg(3), name: "retval".to_string() },
        Instr::Ret { value: Operand::Reg(10) },
    ]);
    assert_eq!(code_of("int main() { return 7 - 2 * 3; }"), expected);
}

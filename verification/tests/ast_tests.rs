use rcc::ast::{BinaryExpr, BinaryOp, Expr, IntegerLiteral, ReturnStatement, Statement};

#[test]
fn builds_binary_expression_tree() {
    let statement = Statement::Return(ReturnStatement {
        expr: Expr::Binary(BinaryExpr {
            left: Box::new(Expr::IntegerLiteral(IntegerLiteral { value: 2 })),
            operator: BinaryOp::Add,
            right: Box::new(Expr::IntegerLiteral(IntegerLiteral { value: 3 })),
        }),
    });

    assert_eq!(
        statement,
        Statement::Return(ReturnStatement {
            expr: Expr::Binary(BinaryExpr {
                left: Box::new(Expr::IntegerLiteral(IntegerLiteral { value: 2 })),
                operator: BinaryOp::Add,
                right: Box::new(Expr::IntegerLiteral(IntegerLiteral { value: 3 })),
            }),
        })
    );
}

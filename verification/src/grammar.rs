//! The grammar of the C subset, as spec functions over token sequences.
//!
//! Each function reads the tokens `ts` from position `p` and gives the parsed
//! value together with the position after it, or the error the parser reports.
use vstd::prelude::*;
use crate::ast::{BinaryOp, ExprView, FunctionView, ParameterView, StatementView, Type, UnaryOp};
use crate::lexer::TokenView;

verus! {

/// An error of the parser, as a mathematical value.
#[allow(inconsistent_fields)]
pub enum ParseErrorView {
    UnexpectedToken { expected: &'static str, found: Option<TokenView> },
    TrailingTokens { found: TokenView },
    InvalidIncrementTarget,
}

/// A parsed value and the position after it, or the error.
pub type Parsed<T> = Result<(T, int), ParseErrorView>;

pub open spec fn peek(ts: Seq<TokenView>, p: int) -> Option<TokenView> {
    if 0 <= p < ts.len() {
        Some(ts[p])
    } else {
        None
    }
}

pub open spec fn unexpected<T>(expected: &'static str, ts: Seq<TokenView>, p: int) -> Parsed<T> {
    Err(ParseErrorView::UnexpectedToken { expected, found: peek(ts, p) })
}

/// `q` lies after `p` and within the tokens.
pub open spec fn advances(ts: Seq<TokenView>, p: int, q: int) -> bool {
    p < q <= ts.len()
}

/// What the grammar gives where a sub-parse would not have moved forward.
/// `lemma_expression_progress` and `lemma_statement_progress` show that this
/// never happens; it is there so that every recursion visibly terminates.
pub open spec fn stalled<T>(ts: Seq<TokenView>, p: int) -> Parsed<T> {
    unexpected("progress", ts, p)
}

/// Consumes the token `t`, reporting `label` if another one stands at `p`.
pub open spec fn expect(ts: Seq<TokenView>, p: int, t: TokenView, label: &'static str) -> Result<
    int,
    ParseErrorView,
> {
    if peek(ts, p) == Some(t) {
        Ok(p + 1)
    } else {
        Err(ParseErrorView::UnexpectedToken { expected: label, found: peek(ts, p) })
    }
}

pub open spec fn identifier(ts: Seq<TokenView>, p: int) -> Parsed<Seq<char>> {
    match peek(ts, p) {
        Some(TokenView::Identifier(name)) => Ok((name, p + 1)),
        _ => unexpected("identifier", ts, p),
    }
}

pub open spec fn integer_literal(ts: Seq<TokenView>, p: int) -> Parsed<ExprView> {
    match peek(ts, p) {
        Some(TokenView::Integer(v)) => Ok((ExprView::IntegerLiteral(v), p + 1)),
        _ => unexpected("integer literal", ts, p),
    }
}

/// `ty` followed by the `*`s at `p`.
pub open spec fn pointer_suffix(ts: Seq<TokenView>, ty: Type, p: int) -> (Type, int)
    decreases ts.len() - p,
{
    if peek(ts, p) == Some(TokenView::Star) {
        pointer_suffix(ts, Type::Pointer(Box::new(ty)), p + 1)
    } else {
        (ty, p)
    }
}

/// `int` followed by any number of `*`.
pub open spec fn type_spec(ts: Seq<TokenView>, p: int) -> Parsed<Type> {
    match expect(ts, p, TokenView::Int, "`int`") {
        Ok(q) => Ok(pointer_suffix(ts, Type::Int, q)),
        Err(e) => Err(e),
    }
}

pub open spec fn unary_op_of(t: Option<TokenView>) -> Option<UnaryOp> {
    match t {
        Some(TokenView::Minus) => Some(UnaryOp::Negate),
        Some(TokenView::Plus) => Some(UnaryOp::Posate),
        Some(TokenView::Exclamation) => Some(UnaryOp::LogicalNot),
        Some(TokenView::Star) => Some(UnaryOp::Deref),
        Some(TokenView::Ampersand) => Some(UnaryOp::AddrOf),
        _ => None,
    }
}

/// The binary operator that `t` stands for at precedence level `k`:
/// 1 multiplicative, 2 additive, 3 relational, 4 equality, 5 `&&`, 6 `||`.
pub open spec fn binary_op_of(k: nat, t: Option<TokenView>) -> Option<BinaryOp> {
    match t {
        Some(tok) => if k == 1 {
            match tok {
                TokenView::Star => Some(BinaryOp::Multiply),
                TokenView::Slash => Some(BinaryOp::Divide),
                TokenView::Percent => Some(BinaryOp::Modulo),
                _ => None,
            }
        } else if k == 2 {
            match tok {
                TokenView::Plus => Some(BinaryOp::Add),
                TokenView::Minus => Some(BinaryOp::Subtract),
                _ => None,
            }
        } else if k == 3 {
            match tok {
                TokenView::LessThan => Some(BinaryOp::LessThan),
                TokenView::LessEqual => Some(BinaryOp::LessEqual),
                TokenView::GreaterThan => Some(BinaryOp::GreaterThan),
                TokenView::GreaterEqual => Some(BinaryOp::GreaterEqual),
                _ => None,
            }
        } else if k == 4 {
            match tok {
                TokenView::EqualEqual => Some(BinaryOp::Equal),
                TokenView::NotEqual => Some(BinaryOp::NotEqual),
                _ => None,
            }
        } else if k == 5 {
            match tok {
                TokenView::AndAnd => Some(BinaryOp::LogicalAnd),
                _ => None,
            }
        } else if k == 6 {
            match tok {
                TokenView::OrOr => Some(BinaryOp::LogicalOr),
                _ => None,
            }
        } else {
            None
        },
        None => None,
    }
}

/// The precedence level of `||`, the loosest binary operator.
pub open spec fn top_level() -> nat {
    6
}

/// `r` with the items `done` put in front of its parsed items.
pub open spec fn prepend_parsed<T>(done: Seq<T>, r: Parsed<Seq<T>>) -> Parsed<Seq<T>> {
    match r {
        Ok((rest, q)) => Ok((done + rest, q)),
        Err(e) => Err(e),
    }
}

/// `r` with the items `done` put in front of its items.
pub open spec fn prepend_result<T>(done: Seq<T>, r: Result<Seq<T>, ParseErrorView>) -> Result<
    Seq<T>,
    ParseErrorView,
> {
    match r {
        Ok(rest) => Ok(done + rest),
        Err(e) => Err(e),
    }
}

pub proof fn lemma_prepend_parsed<T>(a: Seq<T>, b: Seq<T>, r: Parsed<Seq<T>>)
    ensures
        prepend_parsed(a, prepend_parsed(b, r)) == prepend_parsed(a + b, r),
{
    if let Ok((rest, q)) = r {
        assert(a + (b + rest) =~= (a + b) + rest);
    }
}

pub proof fn lemma_prepend_result<T>(a: Seq<T>, b: Seq<T>, r: Result<Seq<T>, ParseErrorView>)
    ensures
        prepend_result(a, prepend_result(b, r)) == prepend_result(a + b, r),
{
    if let Ok(rest) = r {
        assert(a + (b + rest) =~= (a + b) + rest);
    }
}

// ---------------------------------------------------------------------------
// Expressions
// ---------------------------------------------------------------------------

pub open spec fn expression(ts: Seq<TokenView>, p: int) -> Parsed<ExprView>
    decreases ts.len() - p, 17int,
{
    conditional(ts, p)
}

/// `c ? a : b`, where `c` is a `||` expression, `a` any expression and `b`
/// again a conditional expression, so that `?:` groups to the right; or
/// just the `||` expression.
pub open spec fn conditional(ts: Seq<TokenView>, p: int) -> Parsed<ExprView>
    decreases ts.len() - p, 16int,
{
    match binary(ts, p, top_level()) {
        Ok((c, q)) => if peek(ts, q) == Some(TokenView::Question) {
            if advances(ts, p, q + 1) {
                match expression(ts, q + 1) {
                    Ok((a, q2)) => match expect(ts, q2, TokenView::Colon, "`:`") {
                        Ok(q3) => if advances(ts, p, q3) {
                            match conditional(ts, q3) {
                                Ok((b, q4)) => Ok(
                                    (ExprView::Conditional(Box::new(c), Box::new(a), Box::new(b)), q4),
                                ),
                                Err(e) => Err(e),
                            }
                        } else {
                            stalled(ts, p)
                        },
                        Err(e) => Err(e),
                    },
                    Err(e) => Err(e),
                }
            } else {
                stalled(ts, p)
            }
        } else {
            Ok((c, q))
        },
        Err(e) => Err(e),
    }
}

/// An expression of precedence level `k` (1 to 6): operands of level `k - 1`
/// (unary expressions for level 1) joined left to right by the operators of
/// level `k`.
pub open spec fn binary(ts: Seq<TokenView>, p: int, k: nat) -> Parsed<ExprView>
    decreases ts.len() - p, 3 + 2 * k,
{
    match operand(ts, p, k) {
        Ok((left, q)) => if advances(ts, p, q) {
            binary_rest(ts, k, left, q)
        } else {
            stalled(ts, p)
        },
        Err(e) => Err(e),
    }
}

/// An operand of an operator of level `k`.
pub open spec fn operand(ts: Seq<TokenView>, p: int, k: nat) -> Parsed<ExprView>
    decreases ts.len() - p, 2 + 2 * k,
{
    if k <= 1 {
        unary(ts, p)
    } else {
        binary(ts, p, (k - 1) as nat)
    }
}

/// The operators of level `k` and their operands that follow `left` at `q`.
pub open spec fn binary_rest(ts: Seq<TokenView>, k: nat, left: ExprView, q: int) -> Parsed<
    ExprView,
>
    decreases ts.len() - q, 3 + 2 * k,
{
    match binary_op_of(k, peek(ts, q)) {
        Some(op) => match operand(ts, q + 1, k) {
            Ok((right, q2)) => if advances(ts, q, q2) {
                binary_rest(ts, k, ExprView::Binary(Box::new(left), op, Box::new(right)), q2)
            } else {
                stalled(ts, q)
            },
            Err(e) => Err(e),
        },
        None => Ok((left, q)),
    }
}

pub open spec fn unary(ts: Seq<TokenView>, p: int) -> Parsed<ExprView>
    decreases ts.len() - p, 1int,
{
    match unary_op_of(peek(ts, p)) {
        Some(op) => match unary(ts, p + 1) {
            Ok((e, q)) => Ok((ExprView::Unary(op, Box::new(e)), q)),
            Err(e) => Err(e),
        },
        None => primary(ts, p),
    }
}

pub open spec fn primary(ts: Seq<TokenView>, p: int) -> Parsed<ExprView>
    decreases ts.len() - p, 0int,
{
    match peek(ts, p) {
        Some(TokenView::Integer(v)) => Ok((ExprView::IntegerLiteral(v), p + 1)),
        Some(TokenView::Identifier(name)) => if peek(ts, p + 1) == Some(TokenView::LeftParen) {
            if peek(ts, p + 2) == Some(TokenView::RightParen) {
                Ok((ExprView::Call(name, Seq::empty()), p + 3))
            } else {
                match call_args(ts, p + 2) {
                    Ok((args, q)) => Ok((ExprView::Call(name, args), q)),
                    Err(e) => Err(e),
                }
            }
        } else {
            Ok((ExprView::Variable(name), p + 1))
        },
        Some(TokenView::LeftParen) => match expression(ts, p + 1) {
            Ok((e, q)) => match expect(ts, q, TokenView::RightParen, "`)`") {
                Ok(q2) => Ok((e, q2)),
                Err(err) => Err(err),
            },
            Err(err) => Err(err),
        },
        _ => unexpected("expression", ts, p),
    }
}

/// A non-empty argument list `e1, ..., en)` after the opening parenthesis.
pub open spec fn call_args(ts: Seq<TokenView>, p: int) -> Parsed<Seq<ExprView>>
    decreases ts.len() - p, 18int,
{
    match expression(ts, p) {
        Ok((e, q)) => match peek(ts, q) {
            Some(TokenView::Comma) => if advances(ts, p, q + 1) {
                match call_args(ts, q + 1) {
                    Ok((rest, r)) => Ok((seq![e] + rest, r)),
                    Err(err) => Err(err),
                }
            } else {
                stalled(ts, p)
            },
            Some(TokenView::RightParen) => Ok((seq![e], q + 1)),
            _ => unexpected("`,` or `)`", ts, q),
        },
        Err(err) => Err(err),
    }
}

// ---------------------------------------------------------------------------
// Statements
// ---------------------------------------------------------------------------

/// `++` and `--` stand for adding and subtracting one.
pub open spec fn increment_op_of(t: Option<TokenView>) -> Option<BinaryOp> {
    match t {
        Some(TokenView::PlusPlus) => Some(BinaryOp::Add),
        Some(TokenView::MinusMinus) => Some(BinaryOp::Subtract),
        _ => None,
    }
}

/// `target op= 1`, where only a variable may be incremented.
pub open spec fn increment(target: ExprView, op: BinaryOp, q: int) -> Parsed<StatementView> {
    if target is Variable {
        Ok((StatementView::Assign(target, Some(op), ExprView::IntegerLiteral(1)), q))
    } else {
        Err(ParseErrorView::InvalidIncrementTarget)
    }
}

/// The compound operator of an assignment token: `=` has none.
pub open spec fn assign_op_of(t: Option<TokenView>) -> Option<Option<BinaryOp>> {
    match t {
        Some(TokenView::Equals) => Some(None),
        Some(TokenView::PlusEqual) => Some(Some(BinaryOp::Add)),
        Some(TokenView::MinusEqual) => Some(Some(BinaryOp::Subtract)),
        Some(TokenView::StarEqual) => Some(Some(BinaryOp::Multiply)),
        Some(TokenView::SlashEqual) => Some(Some(BinaryOp::Divide)),
        Some(TokenView::PercentEqual) => Some(Some(BinaryOp::Modulo)),
        _ => None,
    }
}

/// The `= expr` or `op= expr` that follows an assignment target.
pub open spec fn assignment_tail(ts: Seq<TokenView>, target: ExprView, q: int) -> Parsed<StatementView> {
    match assign_op_of(peek(ts, q)) {
        Some(op) => match expression(ts, q + 1) {
            Ok((e, r)) => Ok((StatementView::Assign(target, op, e), r)),
            Err(err) => Err(err),
        },
        None => unexpected("`=`, `+=`, `-=`, `*=`, `/=`, or `%=`", ts, q),
    }
}

/// An assignment-like statement without its semicolon: `++x`, `x++`,
/// `--x`, `x--`, `x = e` or `x op= e`.
pub open spec fn assignment_statement(ts: Seq<TokenView>, p: int) -> Parsed<StatementView> {
    match increment_op_of(peek(ts, p)) {
        Some(op) => match unary(ts, p + 1) {
            Ok((target, q)) => increment(target, op, q),
            Err(e) => Err(e),
        },
        None => match unary(ts, p) {
            Ok((target, q)) => match increment_op_of(peek(ts, q)) {
                Some(op) => increment(target, op, q + 1),
                None => assignment_tail(ts, target, q),
            },
            Err(e) => Err(e),
        },
    }
}

pub open spec fn statement_keywords() -> &'static str {
    "statement (return, variable declaration, assignment, block, if, while, or for)"
}

pub open spec fn statement(ts: Seq<TokenView>, p: int) -> Parsed<StatementView>
    decreases ts.len() - p, 1int,
{
    match peek(ts, p) {
        Some(TokenView::Return) => match expression(ts, p + 1) {
            Ok((e, q)) => match expect(ts, q, TokenView::Semicolon, "`;`") {
                Ok(q2) => Ok((StatementView::Return(e), q2)),
                Err(err) => Err(err),
            },
            Err(err) => Err(err),
        },
        Some(TokenView::Int) => match type_spec(ts, p) {
            Ok((ty, q1)) => match identifier(ts, q1) {
                Ok((name, q2)) => match expect(ts, q2, TokenView::Equals, "`=`") {
                    Ok(q3) => match expression(ts, q3) {
                        Ok((init, q4)) => match expect(ts, q4, TokenView::Semicolon, "`;`") {
                            Ok(q5) => Ok((StatementView::Declare(name, ty, init), q5)),
                            Err(err) => Err(err),
                        },
                        Err(err) => Err(err),
                    },
                    Err(err) => Err(err),
                },
                Err(err) => Err(err),
            },
            Err(err) => Err(err),
        },
        Some(TokenView::LeftBrace) => match block_items(ts, p + 1) {
            Ok((body, q)) => match expect(ts, q, TokenView::RightBrace, "`}`") {
                Ok(q2) => Ok((StatementView::Block(body), q2)),
                Err(err) => Err(err),
            },
            Err(err) => Err(err),
        },
        Some(TokenView::If) => match expect(ts, p + 1, TokenView::LeftParen, "`(`") {
            Ok(q1) => {
                proof {
                    lemma_expression_progress(ts, q1);
                }
                match expression(ts, q1) {
                    Ok((cond, q2)) => match expect(ts, q2, TokenView::RightParen, "`)`") {
                        Ok(q3) => match statement(ts, q3) {
                            Ok((then_branch, q4)) => if peek(ts, q4) == Some(TokenView::Else) {
                                if advances(ts, p, q4 + 1) {
                                    match statement(ts, q4 + 1) {
                                        Ok((else_branch, q5)) => Ok(
                                            (
                                                StatementView::If(
                                                    cond,
                                                    Box::new(then_branch),
                                                    Some(Box::new(else_branch)),
                                                ),
                                                q5,
                                            ),
                                        ),
                                        Err(err) => Err(err),
                                    }
                                } else {
                                    stalled(ts, p)
                                }
                            } else {
                                Ok((StatementView::If(cond, Box::new(then_branch), None), q4))
                            },
                            Err(err) => Err(err),
                        },
                        Err(err) => Err(err),
                    },
                    Err(err) => Err(err),
                }
            },
            Err(err) => Err(err),
        },
        Some(TokenView::While) => match expect(ts, p + 1, TokenView::LeftParen, "`(`") {
            Ok(q1) => {
                proof {
                    lemma_expression_progress(ts, q1);
                }
                match expression(ts, q1) {
                    Ok((cond, q2)) => match expect(ts, q2, TokenView::RightParen, "`)`") {
                        Ok(q3) => match statement(ts, q3) {
                            Ok((body, q4)) => Ok((StatementView::While(cond, Box::new(body)), q4)),
                            Err(err) => Err(err),
                        },
                        Err(err) => Err(err),
                    },
                    Err(err) => Err(err),
                }
            },
            Err(err) => Err(err),
        },
        Some(TokenView::For) => match expect(ts, p + 1, TokenView::LeftParen, "`(`") {
            Ok(q1) => match for_init(ts, q1) {
                Ok((init, q2)) => if advances(ts, p, q2) {
                    for_after_init(ts, p, init, q2)
                } else {
                    stalled(ts, p)
                },
                Err(err) => Err(err),
            },
            Err(err) => Err(err),
        },
        Some(TokenView::Break) => match expect(ts, p + 1, TokenView::Semicolon, "`;`") {
            Ok(q) => Ok((StatementView::Break, q)),
            Err(err) => Err(err),
        },
        Some(TokenView::Continue) => match expect(ts, p + 1, TokenView::Semicolon, "`;`") {
            Ok(q) => Ok((StatementView::Continue, q)),
            Err(err) => Err(err),
        },
        Some(_) => match assignment_statement(ts, p) {
            Ok((s, q)) => match expect(ts, q, TokenView::Semicolon, "`;`") {
                Ok(q2) => Ok((s, q2)),
                Err(err) => Err(err),
            },
            Err(err) => Err(err),
        },
        None => unexpected(statement_keywords(), ts, p),
    }
}

/// The initialising statement of a `for`, which brings its own `;`, or a lone `;`.
pub open spec fn for_init(ts: Seq<TokenView>, p: int) -> Parsed<Option<Box<StatementView>>>
    decreases ts.len() - p, 2int,
{
    if peek(ts, p) == Some(TokenView::Semicolon) {
        Ok((None, p + 1))
    } else {
        match statement(ts, p) {
            Ok((s, q)) => Ok((Some(Box::new(s)), q)),
            Err(err) => Err(err),
        }
    }
}

/// The rest of a `for` statement starting at `p`, after its initialiser:
/// `cond? ; post? ) body`.
pub open spec fn for_after_init(
    ts: Seq<TokenView>,
    p: int,
    init: Option<Box<StatementView>>,
    q: int,
) -> Parsed<StatementView>
    decreases ts.len() - q, 3int,
{
    let cond = if peek(ts, q) == Some(TokenView::Semicolon) {
        Ok((None, q))
    } else {
        match expression(ts, q) {
            Ok((e, r)) => Ok((Some(e), r)),
            Err(err) => Err(err),
        }
    };
    match cond {
        Ok((cond, q1)) => match expect(ts, q1, TokenView::Semicolon, "`;`") {
            Ok(q2) => {
                let post = if peek(ts, q2) == Some(TokenView::RightParen) {
                    Ok((None, q2))
                } else {
                    match assignment_statement(ts, q2) {
                        Ok((s, r)) => Ok((Some(Box::new(s)), r)),
                        Err(err) => Err(err),
                    }
                };
                match post {
                    Ok((post, q3)) => match expect(ts, q3, TokenView::RightParen, "`)`") {
                        Ok(q4) => if advances(ts, q, q4) {
                            match statement(ts, q4) {
                                Ok((body, q5)) => Ok(
                                    (StatementView::For(init, cond, post, Box::new(body)), q5),
                                ),
                                Err(err) => Err(err),
                            }
                        } else {
                            stalled(ts, q)
                        },
                        Err(err) => Err(err),
                    },
                    Err(err) => Err(err),
                }
            },
            Err(err) => Err(err),
        },
        Err(err) => Err(err),
    }
}

/// The statements of a block up to (not including) its closing `}`.
pub open spec fn block_items(ts: Seq<TokenView>, p: int) -> Parsed<Seq<StatementView>>
    decreases ts.len() - p, 2int,
{
    if peek(ts, p) == Some(TokenView::RightBrace) {
        Ok((Seq::empty(), p))
    } else {
        match statement(ts, p) {
            Ok((s, q)) => if advances(ts, p, q) {
                match block_items(ts, q) {
                    Ok((rest, r)) => Ok((seq![s] + rest, r)),
                    Err(err) => Err(err),
                }
            } else {
                stalled(ts, p)
            },
            Err(err) => Err(err),
        }
    }
}

// ---------------------------------------------------------------------------
// Functions and programs
// ---------------------------------------------------------------------------

/// A non-empty parameter list `int a, int *b)` after the opening parenthesis.
pub open spec fn param_list(ts: Seq<TokenView>, p: int) -> Parsed<Seq<ParameterView>>
    decreases ts.len() - p,
{
    match type_spec(ts, p) {
        Ok((ty, q1)) => match identifier(ts, q1) {
            Ok((name, q2)) => match peek(ts, q2) {
                Some(TokenView::Comma) => {
                    proof {
                        lemma_type_spec_progress(ts, p);
                    }
                    match param_list(ts, q2 + 1) {
                        Ok((rest, r)) => Ok((seq![ParameterView { name, ty }] + rest, r)),
                        Err(err) => Err(err),
                    }
                },
                Some(TokenView::RightParen) => Ok((seq![ParameterView { name, ty }], q2 + 1)),
                _ => unexpected("`,` or `)`", ts, q2),
            },
            Err(err) => Err(err),
        },
        Err(err) => Err(err),
    }
}

/// The parameters of a function after its opening parenthesis, with the closing one.
pub open spec fn params(ts: Seq<TokenView>, p: int) -> Parsed<Seq<ParameterView>> {
    if peek(ts, p) == Some(TokenView::Void) {
        match expect(ts, p + 1, TokenView::RightParen, "`)`") {
            Ok(q) => Ok((Seq::empty(), q)),
            Err(err) => Err(err),
        }
    } else if peek(ts, p) == Some(TokenView::RightParen) {
        Ok((Seq::empty(), p + 1))
    } else {
        param_list(ts, p)
    }
}

pub open spec fn function(ts: Seq<TokenView>, p: int) -> Parsed<FunctionView> {
    match type_spec(ts, p) {
        Ok((return_type, q1)) => match identifier(ts, q1) {
            Ok((name, q2)) => match expect(ts, q2, TokenView::LeftParen, "`(`") {
                Ok(q3) => match params(ts, q3) {
                    Ok((params, q4)) => match expect(ts, q4, TokenView::LeftBrace, "`{`") {
                        Ok(q5) => match block_items(ts, q5) {
                            Ok((body, q6)) => match expect(ts, q6, TokenView::RightBrace, "`}`") {
                                Ok(q7) => Ok((FunctionView { name, return_type, params, body }, q7)),
                                Err(err) => Err(err),
                            },
                            Err(err) => Err(err),
                        },
                        Err(err) => Err(err),
                    },
                    Err(err) => Err(err),
                },
                Err(err) => Err(err),
            },
            Err(err) => Err(err),
        },
        Err(err) => Err(err),
    }
}

/// The functions from `p` to the end of the tokens.
pub open spec fn functions(ts: Seq<TokenView>, p: int) -> Result<Seq<FunctionView>, ParseErrorView>
    decreases ts.len() - p,
{
    if peek(ts, p).is_some() {
        proof {
            lemma_function_progress(ts, p);
        }
        match function(ts, p) {
            Ok((f, q)) => match functions(ts, q) {
                Ok(rest) => Ok(seq![f] + rest),
                Err(err) => Err(err),
            },
            Err(err) => Err(err),
        }
    } else {
        Ok(Seq::empty())
    }
}

/// The program that the tokens `ts` spell, or the parser's error.
pub open spec fn program(ts: Seq<TokenView>) -> Result<Seq<FunctionView>, ParseErrorView> {
    functions(ts, 0)
}

/// One unfolding of `operand`.
pub proof fn lemma_operand(ts: Seq<TokenView>, p: int, k: nat)
    ensures
        operand(ts, p, k) == if k <= 1 {
            unary(ts, p)
        } else {
            binary(ts, p, (k - 1) as nat)
        },
{
}

/// One unfolding of `for_init`.
pub proof fn lemma_for_init(ts: Seq<TokenView>, p: int)
    ensures
        for_init(ts, p) == if peek(ts, p) == Some(TokenView::Semicolon) {
            Ok((None, p + 1))
        } else {
            match statement(ts, p) {
                Ok((s, q)) => Ok((Some(Box::new(s)), q)),
                Err(err) => Err(err),
            }
        },
{
}

// ---------------------------------------------------------------------------
// Every successful parse moves forward and stays within the tokens
// ---------------------------------------------------------------------------

pub proof fn lemma_pointer_suffix_progress(ts: Seq<TokenView>, ty: Type, p: int)
    requires
        0 <= p <= ts.len(),
    ensures
        p <= pointer_suffix(ts, ty, p).1 <= ts.len(),
    decreases ts.len() - p,
{
    if peek(ts, p) == Some(TokenView::Star) {
        lemma_pointer_suffix_progress(ts, Type::Pointer(Box::new(ty)), p + 1);
    }
}

pub proof fn lemma_type_spec_progress(ts: Seq<TokenView>, p: int)
    requires
        0 <= p <= ts.len(),
    ensures
        type_spec(ts, p) matches Ok((_, q)) ==> p < q <= ts.len(),
{
    if peek(ts, p) == Some(TokenView::Int) {
        lemma_pointer_suffix_progress(ts, Type::Int, p + 1);
    }
}

pub proof fn lemma_expression_progress(ts: Seq<TokenView>, p: int)
    requires
        0 <= p <= ts.len(),
    ensures
        expression(ts, p) matches Ok((_, q)) ==> p < q <= ts.len(),
    decreases ts.len() - p, 17int,
{
    lemma_conditional_progress(ts, p);
}

pub proof fn lemma_conditional_progress(ts: Seq<TokenView>, p: int)
    requires
        0 <= p <= ts.len(),
    ensures
        conditional(ts, p) matches Ok((_, q)) ==> p < q <= ts.len(),
    decreases ts.len() - p, 16int,
{
    lemma_binary_progress(ts, p, top_level());
    if let Ok((_, q)) = binary(ts, p, top_level()) {
        if peek(ts, q) == Some(TokenView::Question) && advances(ts, p, q + 1) {
            lemma_expression_progress(ts, q + 1);
            if let Ok((_, q2)) = expression(ts, q + 1) {
                if let Ok(q3) = expect(ts, q2, TokenView::Colon, "`:`") {
                    if advances(ts, p, q3) {
                        lemma_conditional_progress(ts, q3);
                    }
                }
            }
        }
    }
}

pub proof fn lemma_binary_progress(ts: Seq<TokenView>, p: int, k: nat)
    requires
        0 <= p <= ts.len(),
    ensures
        binary(ts, p, k) matches Ok((_, q)) ==> p < q <= ts.len(),
    decreases ts.len() - p, 3 + 2 * k,
{
    lemma_operand_progress(ts, p, k);
    if let Ok((left, q)) = operand(ts, p, k) {
        if advances(ts, p, q) {
            lemma_binary_rest_progress(ts, k, left, q);
        }
    }
}

pub proof fn lemma_operand_progress(ts: Seq<TokenView>, p: int, k: nat)
    requires
        0 <= p <= ts.len(),
    ensures
        operand(ts, p, k) matches Ok((_, q)) ==> p < q <= ts.len(),
    decreases ts.len() - p, 2 + 2 * k,
{
    if k <= 1 {
        lemma_unary_progress(ts, p);
    } else {
        lemma_binary_progress(ts, p, (k - 1) as nat);
    }
}

pub proof fn lemma_binary_rest_progress(ts: Seq<TokenView>, k: nat, left: ExprView, q: int)
    requires
        0 <= q <= ts.len(),
    ensures
        binary_rest(ts, k, left, q) matches Ok((_, r)) ==> q <= r <= ts.len(),
    decreases ts.len() - q, 3 + 2 * k,
{
    if let Some(op) = binary_op_of(k, peek(ts, q)) {
        lemma_operand_progress(ts, q + 1, k);
        if let Ok((right, q2)) = operand(ts, q + 1, k) {
            if advances(ts, q, q2) {
                lemma_binary_rest_progress(
                    ts,
                    k,
                    ExprView::Binary(Box::new(left), op, Box::new(right)),
                    q2,
                );
            }
        }
    }
}

pub proof fn lemma_unary_progress(ts: Seq<TokenView>, p: int)
    requires
        0 <= p <= ts.len(),
    ensures
        unary(ts, p) matches Ok((_, q)) ==> p < q <= ts.len(),
    decreases ts.len() - p, 1int,
{
    if unary_op_of(peek(ts, p)).is_some() {
        lemma_unary_progress(ts, p + 1);
    } else {
        lemma_primary_progress(ts, p);
    }
}

pub proof fn lemma_primary_progress(ts: Seq<TokenView>, p: int)
    requires
        0 <= p <= ts.len(),
    ensures
        primary(ts, p) matches Ok((_, q)) ==> p < q <= ts.len(),
    decreases ts.len() - p, 0int,
{
    match peek(ts, p) {
        Some(TokenView::Identifier(_)) => {
            if peek(ts, p + 1) == Some(TokenView::LeftParen) && peek(ts, p + 2) != Some(
                TokenView::RightParen,
            ) {
                lemma_call_args_progress(ts, p + 2);
            }
        },
        Some(TokenView::LeftParen) => {
            lemma_expression_progress(ts, p + 1);
        },
        _ => {},
    }
}

pub proof fn lemma_call_args_progress(ts: Seq<TokenView>, p: int)
    requires
        0 <= p <= ts.len(),
    ensures
        call_args(ts, p) matches Ok((_, q)) ==> p < q <= ts.len(),
    decreases ts.len() - p, 18int,
{
    lemma_expression_progress(ts, p);
    if let Ok((_, q)) = expression(ts, p) {
        if peek(ts, q) == Some(TokenView::Comma) && advances(ts, p, q + 1) {
            lemma_call_args_progress(ts, q + 1);
        }
    }
}

pub proof fn lemma_assignment_progress(ts: Seq<TokenView>, p: int)
    requires
        0 <= p <= ts.len(),
    ensures
        assignment_statement(ts, p) matches Ok((_, q)) ==> p < q <= ts.len(),
{
    if increment_op_of(peek(ts, p)).is_some() {
        lemma_unary_progress(ts, p + 1);
    } else {
        lemma_unary_progress(ts, p);
        if let Ok((target, q)) = unary(ts, p) {
            if increment_op_of(peek(ts, q)).is_none() && assign_op_of(peek(ts, q)).is_some() {
                lemma_expression_progress(ts, q + 1);
            }
        }
    }
}

pub proof fn lemma_statement_progress(ts: Seq<TokenView>, p: int)
    requires
        0 <= p <= ts.len(),
    ensures
        statement(ts, p) matches Ok((_, q)) ==> p < q <= ts.len(),
    decreases ts.len() - p, 1int,
{
    match peek(ts, p) {
        Some(TokenView::Return) => {
            lemma_expression_progress(ts, p + 1);
        },
        Some(TokenView::Int) => {
            lemma_type_spec_progress(ts, p);
            if let Ok((_, q1)) = type_spec(ts, p) {
                if let Ok((_, q2)) = identifier(ts, q1) {
                    if let Ok(q3) = expect(ts, q2, TokenView::Equals, "`=`") {
                        lemma_expression_progress(ts, q3);
                    }
                }
            }
        },
        Some(TokenView::LeftBrace) => {
            lemma_block_items_progress(ts, p + 1);
        },
        Some(TokenView::If) => {
            if let Ok(q1) = expect(ts, p + 1, TokenView::LeftParen, "`(`") {
                lemma_expression_progress(ts, q1);
                if let Ok((_, q2)) = expression(ts, q1) {
                    if let Ok(q3) = expect(ts, q2, TokenView::RightParen, "`)`") {
                        lemma_statement_progress(ts, q3);
                        if let Ok((_, q4)) = statement(ts, q3) {
                            if peek(ts, q4) == Some(TokenView::Else) && advances(ts, p, q4 + 1) {
                                lemma_statement_progress(ts, q4 + 1);
                            }
                        }
                    }
                }
            }
        },
        Some(TokenView::While) => {
            if let Ok(q1) = expect(ts, p + 1, TokenView::LeftParen, "`(`") {
                lemma_expression_progress(ts, q1);
                if let Ok((_, q2)) = expression(ts, q1) {
                    if let Ok(q3) = expect(ts, q2, TokenView::RightParen, "`)`") {
                        lemma_statement_progress(ts, q3);
                    }
                }
            }
        },
        Some(TokenView::For) => {
            if let Ok(q1) = expect(ts, p + 1, TokenView::LeftParen, "`(`") {
                if let Ok((init, q2)) = for_init(ts, q1) {
                    if advances(ts, p, q2) {
                        lemma_for_after_init_progress(ts, p, init, q2);
                    }
                }
            }
        },
        Some(TokenView::Break) => {},
        Some(TokenView::Continue) => {},
        Some(_) => {
            lemma_assignment_progress(ts, p);
        },
        None => {},
    }
}

pub proof fn lemma_for_after_init_progress(
    ts: Seq<TokenView>,
    p: int,
    init: Option<Box<StatementView>>,
    q: int,
)
    requires
        0 <= q <= ts.len(),
    ensures
        for_after_init(ts, p, init, q) matches Ok((_, r)) ==> q < r <= ts.len(),
    decreases ts.len() - q, 3int,
{
    lemma_expression_progress(ts, q);
    let cond: Parsed<Option<ExprView>> = if peek(ts, q) == Some(TokenView::Semicolon) {
        Ok((None, q))
    } else {
        match expression(ts, q) {
            Ok((e, r)) => Ok((Some(e), r)),
            Err(err) => Err(err),
        }
    };
    if let Ok((_, q1)) = cond {
        if let Ok(q2) = expect(ts, q1, TokenView::Semicolon, "`;`") {
            lemma_assignment_progress(ts, q2);
            let post: Parsed<Option<Box<StatementView>>> = if peek(ts, q2) == Some(
                TokenView::RightParen,
            ) {
                Ok((None, q2))
            } else {
                match assignment_statement(ts, q2) {
                    Ok((s, r)) => Ok((Some(Box::new(s)), r)),
                    Err(err) => Err(err),
                }
            };
            if let Ok((_, q3)) = post {
                if let Ok(q4) = expect(ts, q3, TokenView::RightParen, "`)`") {
                    if advances(ts, q, q4) {
                        lemma_statement_progress(ts, q4);
                    }
                }
            }
        }
    }
}

pub proof fn lemma_block_items_progress(ts: Seq<TokenView>, p: int)
    requires
        0 <= p <= ts.len(),
    ensures
        block_items(ts, p) matches Ok((_, q)) ==> p <= q <= ts.len(),
    decreases ts.len() - p, 2int,
{
    if peek(ts, p) != Some(TokenView::RightBrace) {
        lemma_statement_progress(ts, p);
        if let Ok((_, q)) = statement(ts, p) {
            if advances(ts, p, q) {
                lemma_block_items_progress(ts, q);
            }
        }
    }
}

pub proof fn lemma_function_progress(ts: Seq<TokenView>, p: int)
    requires
        0 <= p <= ts.len(),
    ensures
        function(ts, p) matches Ok((_, q)) ==> p < q <= ts.len(),
{
    lemma_type_spec_progress(ts, p);
    if let Ok((_, q1)) = type_spec(ts, p) {
        if let Ok((_, q2)) = identifier(ts, q1) {
            if let Ok(q3) = expect(ts, q2, TokenView::LeftParen, "`(`") {
                lemma_params_progress(ts, q3);
                if let Ok((_, q4)) = params(ts, q3) {
                    if let Ok(q5) = expect(ts, q4, TokenView::LeftBrace, "`{`") {
                        lemma_block_items_progress(ts, q5);
                    }
                }
            }
        }
    }
}

pub proof fn lemma_param_list_progress(ts: Seq<TokenView>, p: int)
    requires
        0 <= p <= ts.len(),
    ensures
        param_list(ts, p) matches Ok((_, q)) ==> p < q <= ts.len(),
    decreases ts.len() - p,
{
    lemma_type_spec_progress(ts, p);
    if let Ok((_, q1)) = type_spec(ts, p) {
        if let Ok((_, q2)) = identifier(ts, q1) {
            if peek(ts, q2) == Some(TokenView::Comma) {
                lemma_param_list_progress(ts, q2 + 1);
            }
        }
    }
}

pub proof fn lemma_params_progress(ts: Seq<TokenView>, p: int)
    requires
        0 <= p <= ts.len(),
    ensures
        params(ts, p) matches Ok((_, q)) ==> p < q <= ts.len(),
{
    lemma_param_list_progress(ts, p);
}

} // verus!

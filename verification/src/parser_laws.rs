//! Laws of the grammar: how parsing behaves under context.
use vstd::prelude::*;
use crate::ast::{BinaryOp, ExprView, FunctionView, StatementView, Type};
use crate::grammar::{
    advances, assign_op_of, assignment_statement, binary, binary_op_of, binary_rest,
    block_items, call_args, conditional, expect, expression, for_after_init, for_init, function,
    functions, identifier, increment_op_of, lemma_assignment_progress, lemma_binary_progress,
    lemma_binary_rest_progress, lemma_block_items_progress, lemma_call_args_progress,
    lemma_conditional_progress, lemma_expression_progress, lemma_for_after_init_progress,
    lemma_for_init, lemma_function_progress, lemma_param_list_progress, lemma_params_progress,
    lemma_pointer_suffix_progress, lemma_statement_progress, lemma_type_spec_progress, param_list,
    params, pointer_suffix, program, type_spec, lemma_operand, lemma_operand_progress, lemma_primary_progress,
    lemma_unary_progress, operand, peek, primary, statement, unary, unary_op_of, Parsed,
};
use crate::lexer::{lex, TokenView};

verus! {

/// `r` with every position moved on by `d`.
pub open spec fn shifted<T>(r: Parsed<T>, d: int) -> Parsed<T> {
    match r {
        Ok((v, q)) => Ok((v, q + d)),
        Err(e) => Err(e),
    }
}

/// Whether the token `t` could carry an expression on: a binary operator,
/// the `(` of a call, or the `?` of a conditional.
pub open spec fn may_continue_expression(t: TokenView) -> bool {
    ||| t is LeftParen
    ||| t is Question
    ||| t is Star
    ||| t is Slash
    ||| t is Percent
    ||| t is Plus
    ||| t is Minus
    ||| t is LessThan
    ||| t is LessEqual
    ||| t is GreaterThan
    ||| t is GreaterEqual
    ||| t is EqualEqual
    ||| t is NotEqual
    ||| t is AndAnd
    ||| t is OrOr
}

/// A parse of `t` that ended at `q` is not carried on by the tokens `post`
/// written after `t`.
pub open spec fn stops_before(t: Seq<TokenView>, post: Seq<TokenView>, q: int) -> bool {
    q < t.len() || post.len() == 0 || !may_continue_expression(post[0])
}

proof fn lemma_no_operator(t: TokenView, k: nat)
    requires
        !may_continue_expression(t),
    ensures
        binary_op_of(k, Some(t)) is None,
{
}

// ---------------------------------------------------------------------------
// Tokens in front do not change a parse, only its positions
// ---------------------------------------------------------------------------

proof fn lemma_peek_shift(pre: Seq<TokenView>, t: Seq<TokenView>, p: int)
    requires
        0 <= p,
    ensures
        peek(pre + t, pre.len() + p) == peek(t, p),
{
}

pub proof fn lemma_shift_expression(pre: Seq<TokenView>, t: Seq<TokenView>, p: int)
    requires
        0 <= p <= t.len(),
    ensures
        expression(pre + t, pre.len() + p) == shifted(expression(t, p), pre.len() as int),
    decreases t.len() - p, 17int,
{
    lemma_shift_conditional(pre, t, p);
}

proof fn lemma_shift_conditional(pre: Seq<TokenView>, t: Seq<TokenView>, p: int)
    requires
        0 <= p <= t.len(),
    ensures
        conditional(pre + t, pre.len() + p) == shifted(conditional(t, p), pre.len() as int),
    decreases t.len() - p, 16int,
{
    lemma_shift_binary(pre, t, p, 6);
    lemma_binary_progress(t, p, 6);
    if let Ok((_, q)) = binary(t, p, 6) {
        lemma_peek_shift(pre, t, q);
        if peek(t, q) == Some(TokenView::Question) && advances(t, p, q + 1) {
            lemma_shift_expression(pre, t, q + 1);
            lemma_expression_progress(t, q + 1);
            if let Ok((_, q2)) = expression(t, q + 1) {
                lemma_peek_shift(pre, t, q2);
                if let Ok(q3) = expect(t, q2, TokenView::Colon, "`:`") {
                    if advances(t, p, q3) {
                        lemma_shift_conditional(pre, t, q3);
                    }
                }
            }
        }
    }
}

proof fn lemma_shift_binary(pre: Seq<TokenView>, t: Seq<TokenView>, p: int, k: nat)
    requires
        0 <= p <= t.len(),
    ensures
        binary(pre + t, pre.len() + p, k) == shifted(binary(t, p, k), pre.len() as int),
    decreases t.len() - p, 3 + 2 * k,
{
    lemma_peek_shift(pre, t, p);
    lemma_shift_operand(pre, t, p, k);
    if let Ok((left, q)) = operand(t, p, k) {
        if advances(t, p, q) {
            lemma_shift_binary_rest(pre, t, k, left, q);
        }
    }
}

proof fn lemma_shift_operand(pre: Seq<TokenView>, t: Seq<TokenView>, p: int, k: nat)
    requires
        0 <= p <= t.len(),
    ensures
        operand(pre + t, pre.len() + p, k) == shifted(operand(t, p, k), pre.len() as int),
    decreases t.len() - p, 2 + 2 * k,
{
    if k <= 1 {
        lemma_shift_unary(pre, t, p);
    } else {
        lemma_shift_binary(pre, t, p, (k - 1) as nat);
    }
}

proof fn lemma_shift_binary_rest(
    pre: Seq<TokenView>,
    t: Seq<TokenView>,
    k: nat,
    left: ExprView,
    q: int,
)
    requires
        0 <= q <= t.len(),
    ensures
        binary_rest(pre + t, k, left, pre.len() + q) == shifted(
            binary_rest(t, k, left, q),
            pre.len() as int,
        ),
    decreases t.len() - q, 3 + 2 * k,
{
    lemma_peek_shift(pre, t, q);
    if let Some(op) = binary_op_of(k, peek(t, q)) {
        lemma_shift_operand(pre, t, q + 1, k);
        if let Ok((right, q2)) = operand(t, q + 1, k) {
            if advances(t, q, q2) {
                lemma_shift_binary_rest(
                    pre,
                    t,
                    k,
                    ExprView::Binary(Box::new(left), op, Box::new(right)),
                    q2,
                );
            }
        }
    }
}

proof fn lemma_shift_unary(pre: Seq<TokenView>, t: Seq<TokenView>, p: int)
    requires
        0 <= p <= t.len(),
    ensures
        unary(pre + t, pre.len() + p) == shifted(unary(t, p), pre.len() as int),
    decreases t.len() - p, 1int,
{
    lemma_peek_shift(pre, t, p);
    if unary_op_of(peek(t, p)) is Some {
        lemma_shift_unary(pre, t, p + 1);
    } else {
        lemma_shift_primary(pre, t, p);
    }
}

proof fn lemma_shift_primary(pre: Seq<TokenView>, t: Seq<TokenView>, p: int)
    requires
        0 <= p <= t.len(),
    ensures
        primary(pre + t, pre.len() + p) == shifted(primary(t, p), pre.len() as int),
    decreases t.len() - p, 0int,
{
    lemma_peek_shift(pre, t, p);
    lemma_peek_shift(pre, t, p + 1);
    lemma_peek_shift(pre, t, p + 2);
    match peek(t, p) {
        Some(TokenView::Identifier(_)) => {
            if peek(t, p + 1) == Some(TokenView::LeftParen) && peek(t, p + 2) != Some(
                TokenView::RightParen,
            ) {
                lemma_shift_call_args(pre, t, p + 2);
            }
        },
        Some(TokenView::LeftParen) => {
            lemma_shift_expression(pre, t, p + 1);
            if let Ok((_, q)) = expression(t, p + 1) {
                lemma_expression_progress(t, p + 1);
                lemma_peek_shift(pre, t, q);
            }
        },
        _ => {},
    }
}

proof fn lemma_shift_call_args(pre: Seq<TokenView>, t: Seq<TokenView>, p: int)
    requires
        0 <= p <= t.len(),
    ensures
        call_args(pre + t, pre.len() + p) == shifted(call_args(t, p), pre.len() as int),
    decreases t.len() - p, 18int,
{
    lemma_shift_expression(pre, t, p);
    lemma_expression_progress(t, p);
    if let Ok((_, q)) = expression(t, p) {
        lemma_peek_shift(pre, t, q);
        if peek(t, q) == Some(TokenView::Comma) && advances(t, p, q + 1) {
            lemma_shift_call_args(pre, t, q + 1);
        }
    }
}

// ---------------------------------------------------------------------------
// Tokens after a parse that they do not carry on do not change it
// ---------------------------------------------------------------------------

proof fn lemma_peek_extend(t: Seq<TokenView>, post: Seq<TokenView>, i: int)
    requires
        0 <= i < t.len(),
    ensures
        peek(t + post, i) == peek(t, i),
{
}

/// At the end of `t`, `post` brings no operator and no call.
proof fn lemma_peek_at_end(t: Seq<TokenView>, post: Seq<TokenView>, k: nat)
    requires
        stops_before(t, post, t.len() as int),
    ensures
        binary_op_of(k, peek(t + post, t.len() as int)) is None,
        peek(t + post, t.len() as int) != Some(TokenView::LeftParen),
        peek(t + post, t.len() as int) != Some(TokenView::Question),
{
    if post.len() > 0 {
        assert(peek(t + post, t.len() as int) == Some(post[0]));
        lemma_no_operator(post[0], k);
    }
}

pub proof fn lemma_extend_expression(t: Seq<TokenView>, post: Seq<TokenView>, p: int)
    requires
        0 <= p <= t.len(),
    ensures
        expression(t, p) matches Ok((_, q)) && stops_before(t, post, q) ==> expression(t + post, p)
            == expression(t, p),
    decreases t.len() - p, 17int,
{
    lemma_extend_conditional(t, post, p);
}

proof fn lemma_extend_conditional(t: Seq<TokenView>, post: Seq<TokenView>, p: int)
    requires
        0 <= p <= t.len(),
    ensures
        conditional(t, p) matches Ok((_, r)) && stops_before(t, post, r) ==> conditional(
            t + post,
            p,
        ) == conditional(t, p),
    decreases t.len() - p, 16int,
{
    if let Ok((_, r)) = conditional(t, p) {
        if stops_before(t, post, r) {
            lemma_binary_progress(t, p, 6);
            let (_, q) = binary(t, p, 6)->Ok_0;
            if q < t.len() {
                lemma_peek_extend(t, post, q);
            } else {
                lemma_peek_at_end(t, post, 6);
            }
            if peek(t, q) == Some(TokenView::Question) {
                lemma_extend_binary(t, post, p, 6);
                lemma_expression_progress(t, q + 1);
                let (_, q2) = expression(t, q + 1)->Ok_0;
                lemma_peek_extend(t, post, q2);
                lemma_extend_expression(t, post, q + 1);
                lemma_conditional_progress(t, q2 + 1);
                lemma_extend_conditional(t, post, q2 + 1);
            } else {
                lemma_extend_binary(t, post, p, 6);
            }
        }
    }
}

proof fn lemma_extend_binary(t: Seq<TokenView>, post: Seq<TokenView>, p: int, k: nat)
    requires
        0 <= p <= t.len(),
    ensures
        binary(t, p, k) matches Ok((_, q)) && stops_before(t, post, q) ==> binary(t + post, p, k)
            == binary(t, p, k),
    decreases t.len() - p, 3 + 2 * k,
{
    if let Ok((_, q)) = binary(t, p, k) {
        if stops_before(t, post, q) {
            lemma_operand_progress(t, p, k);
            let (left, q1) = operand(t, p, k)->Ok_0;
            lemma_binary_rest_progress(t, k, left, q1);
            lemma_extend_operand(t, post, p, k);
            lemma_extend_binary_rest(t, post, k, left, q1);
        }
    }
}

proof fn lemma_extend_operand(t: Seq<TokenView>, post: Seq<TokenView>, p: int, k: nat)
    requires
        0 <= p <= t.len(),
    ensures
        operand(t, p, k) matches Ok((_, q)) && stops_before(t, post, q) ==> operand(t + post, p, k)
            == operand(t, p, k),
    decreases t.len() - p, 2 + 2 * k,
{
    if k <= 1 {
        lemma_extend_unary(t, post, p);
    } else {
        lemma_extend_binary(t, post, p, (k - 1) as nat);
    }
}

proof fn lemma_extend_binary_rest(
    t: Seq<TokenView>,
    post: Seq<TokenView>,
    k: nat,
    left: ExprView,
    q: int,
)
    requires
        0 <= q <= t.len(),
    ensures
        binary_rest(t, k, left, q) matches Ok((_, r)) && stops_before(t, post, r) ==> binary_rest(
            t + post,
            k,
            left,
            q,
        ) == binary_rest(t, k, left, q),
    decreases t.len() - q, 3 + 2 * k,
{
    if let Ok((_, r)) = binary_rest(t, k, left, q) {
        if stops_before(t, post, r) {
            if q < t.len() {
                lemma_peek_extend(t, post, q);
            } else {
                lemma_peek_at_end(t, post, k);
            }
            if let Some(op) = binary_op_of(k, peek(t, q)) {
                lemma_operand_progress(t, q + 1, k);
                let (right, q2) = operand(t, q + 1, k)->Ok_0;
                let next = ExprView::Binary(Box::new(left), op, Box::new(right));
                lemma_binary_rest_progress(t, k, next, q2);
                lemma_extend_operand(t, post, q + 1, k);
                lemma_extend_binary_rest(t, post, k, next, q2);
            }
        }
    }
}

proof fn lemma_extend_unary(t: Seq<TokenView>, post: Seq<TokenView>, p: int)
    requires
        0 <= p <= t.len(),
    ensures
        unary(t, p) matches Ok((_, q)) && stops_before(t, post, q) ==> unary(t + post, p) == unary(
            t,
            p,
        ),
    decreases t.len() - p, 1int,
{
    if let Ok((_, q)) = unary(t, p) {
        if stops_before(t, post, q) {
            lemma_unary_progress(t, p);
            lemma_peek_extend(t, post, p);
            if unary_op_of(peek(t, p)) is Some {
                lemma_extend_unary(t, post, p + 1);
            } else {
                lemma_extend_primary(t, post, p);
            }
        }
    }
}

proof fn lemma_extend_primary(t: Seq<TokenView>, post: Seq<TokenView>, p: int)
    requires
        0 <= p <= t.len(),
    ensures
        primary(t, p) matches Ok((_, q)) && stops_before(t, post, q) ==> primary(t + post, p)
            == primary(t, p),
    decreases t.len() - p, 0int,
{
    if let Ok((_, q)) = primary(t, p) {
        if stops_before(t, post, q) {
            lemma_primary_progress(t, p);
            lemma_peek_extend(t, post, p);
            match peek(t, p) {
                Some(TokenView::Identifier(_)) => {
                    if p + 1 < t.len() {
                        lemma_peek_extend(t, post, p + 1);
                        if peek(t, p + 1) == Some(TokenView::LeftParen) {
                            lemma_peek_extend(t, post, p + 2);
                            if peek(t, p + 2) != Some(TokenView::RightParen) {
                                lemma_call_args_progress(t, p + 2);
                                lemma_extend_call_args(t, post, p + 2);
                            }
                        }
                    } else {
                        lemma_peek_at_end(t, post, 1);
                    }
                },
                Some(TokenView::LeftParen) => {
                    lemma_expression_progress(t, p + 1);
                    let (_, q1) = expression(t, p + 1)->Ok_0;
                    lemma_peek_extend(t, post, q1);
                    lemma_extend_expression(t, post, p + 1);
                },
                _ => {},
            }
        }
    }
}

proof fn lemma_extend_call_args(t: Seq<TokenView>, post: Seq<TokenView>, p: int)
    requires
        0 <= p <= t.len(),
    ensures
        call_args(t, p) matches Ok((_, q)) && stops_before(t, post, q) ==> call_args(t + post, p)
            == call_args(t, p),
    decreases t.len() - p, 18int,
{
    if let Ok((_, r)) = call_args(t, p) {
        if stops_before(t, post, r) {
            lemma_expression_progress(t, p);
            let (_, q) = expression(t, p)->Ok_0;
            lemma_peek_extend(t, post, q);
            lemma_extend_expression(t, post, p);
            if peek(t, q) == Some(TokenView::Comma) {
                lemma_call_args_progress(t, q + 1);
                lemma_extend_call_args(t, post, q + 1);
            }
        }
    }
}

// ---------------------------------------------------------------------------
// Grouping
// ---------------------------------------------------------------------------

/// A unary expression followed by no operator of levels up to `k` is the
/// whole expression of level `k`.
proof fn lemma_binary_of_unary(ts: Seq<TokenView>, p: int, k: nat)
    requires
        0 <= p <= ts.len(),
        unary(ts, p) matches Ok((_, q)) && forall|j: nat| #[trigger]
            binary_op_of(j, peek(ts, q)) is None,
    ensures
        binary(ts, p, k) == unary(ts, p),
    decreases k,
{
    lemma_unary_progress(ts, p);
    lemma_operand(ts, p, k);
    let (e, q) = unary(ts, p)->Ok_0;
    assert(binary_op_of(k, peek(ts, q)) is None);
    if k > 1 {
        lemma_binary_of_unary(ts, p, (k - 1) as nat);
    }
    assert(binary_rest(ts, k, e, q) == Ok::<(ExprView, int), crate::grammar::ParseErrorView>(
        (e, q),
    ));
}

/// Parentheses group: a token sequence that is one whole expression, put
/// between `(` and `)`, is a primary expression that parses to the same
/// expression and ends after the `)`, and so is the whole expression.
pub proof fn law_parentheses_group(t: Seq<TokenView>)
    requires
        expression(t, 0) matches Ok((_, q)) && q == t.len(),
    ensures
        primary(seq![TokenView::LeftParen] + t + seq![TokenView::RightParen], 0) == Ok::<
            (ExprView, int),
            crate::grammar::ParseErrorView,
        >((expression(t, 0)->Ok_0.0, t.len() + 2int)),
        expression(seq![TokenView::LeftParen] + t + seq![TokenView::RightParen], 0) == Ok::<
            (ExprView, int),
            crate::grammar::ParseErrorView,
        >((expression(t, 0)->Ok_0.0, t.len() + 2int)),
{
    let lp = seq![TokenView::LeftParen];
    let rp = seq![TokenView::RightParen];
    let w = lp + t + rp;
    let e = expression(t, 0)->Ok_0.0;
    assert(w =~= lp + (t + rp));
    lemma_extend_expression(t, rp, 0);
    assert(expression(t + rp, 0) == expression(t, 0));
    lemma_shift_expression(lp, t + rp, 0);
    assert(expression(w, 1) == Ok::<(ExprView, int), crate::grammar::ParseErrorView>(
        (e, t.len() + 1int),
    ));
    assert(peek(w, t.len() + 1int) == Some(TokenView::RightParen));
    assert(peek(w, 0) == Some(TokenView::LeftParen));
    assert(primary(w, 0) == Ok::<(ExprView, int), crate::grammar::ParseErrorView>(
        (e, t.len() + 2int),
    ));
    assert(unary(w, 0) == primary(w, 0));
    assert(peek(w, t.len() + 2int) is None);
    lemma_binary_of_unary(w, 0, 6);
    assert(binary(w, 0, 6) == unary(w, 0));
}

// ---------------------------------------------------------------------------
// Increment and decrement
// ---------------------------------------------------------------------------

proof fn lemma_increment_forms(
    x: Seq<char>,
    rest: Seq<TokenView>,
    step: TokenView,
    compound: TokenView,
    op: BinaryOp,
)
    requires
        (step == TokenView::PlusPlus && compound == TokenView::PlusEqual && op == BinaryOp::Add)
            || (step == TokenView::MinusMinus && compound == TokenView::MinusEqual && op
            == BinaryOp::Subtract),
    ensures
        ({
            let v = StatementView::Assign(ExprView::Variable(x), Some(op), ExprView::IntegerLiteral(1));
            &&& statement(seq![TokenView::Identifier(x), step, TokenView::Semicolon] + rest, 0) == Ok::<
                (StatementView, int),
                crate::grammar::ParseErrorView,
            >((v, 3))
            &&& statement(seq![step, TokenView::Identifier(x), TokenView::Semicolon] + rest, 0) == Ok::<
                (StatementView, int),
                crate::grammar::ParseErrorView,
            >((v, 3))
            &&& statement(
                seq![
                    TokenView::Identifier(x),
                    compound,
                    TokenView::Integer(1),
                    TokenView::Semicolon,
                ] + rest,
                0,
            ) == Ok::<(StatementView, int), crate::grammar::ParseErrorView>((v, 4))
        }),
{
    let var = ExprView::Variable(x);
    let postfix = seq![TokenView::Identifier(x), step, TokenView::Semicolon] + rest;
    assert(peek(postfix, 0) == Some(TokenView::Identifier(x)));
    assert(peek(postfix, 1) == Some(step));
    assert(peek(postfix, 2) == Some(TokenView::Semicolon));
    assert(primary(postfix, 0) == Ok::<(ExprView, int), crate::grammar::ParseErrorView>((var, 1)));
    assert(unary(postfix, 0) == primary(postfix, 0));
    assert(assignment_statement(postfix, 0) == Ok::<
        (StatementView, int),
        crate::grammar::ParseErrorView,
    >((StatementView::Assign(var, Some(op), ExprView::IntegerLiteral(1)), 2)));

    let prefix = seq![step, TokenView::Identifier(x), TokenView::Semicolon] + rest;
    assert(peek(prefix, 0) == Some(step));
    assert(peek(prefix, 1) == Some(TokenView::Identifier(x)));
    assert(peek(prefix, 2) == Some(TokenView::Semicolon));
    assert(primary(prefix, 1) == Ok::<(ExprView, int), crate::grammar::ParseErrorView>((var, 2)));
    assert(unary(prefix, 1) == primary(prefix, 1));
    assert(assignment_statement(prefix, 0) == Ok::<
        (StatementView, int),
        crate::grammar::ParseErrorView,
    >((StatementView::Assign(var, Some(op), ExprView::IntegerLiteral(1)), 2)));

    let long = seq![TokenView::Identifier(x), compound, TokenView::Integer(1), TokenView::Semicolon]
        + rest;
    assert(peek(long, 0) == Some(TokenView::Identifier(x)));
    assert(peek(long, 1) == Some(compound));
    assert(peek(long, 2) == Some(TokenView::Integer(1)));
    assert(peek(long, 3) == Some(TokenView::Semicolon));
    assert(primary(long, 0) == Ok::<(ExprView, int), crate::grammar::ParseErrorView>((var, 1)));
    assert(unary(long, 0) == primary(long, 0));
    assert(primary(long, 2) == Ok::<(ExprView, int), crate::grammar::ParseErrorView>(
        (ExprView::IntegerLiteral(1), 3),
    ));
    assert(unary(long, 2) == primary(long, 2));
    lemma_binary_of_unary(long, 2, 6);
    assert(binary(long, 2, 6) == unary(long, 2));
    assert(expression(long, 2) == unary(long, 2));
    assert(assignment_statement(long, 0) == Ok::<
        (StatementView, int),
        crate::grammar::ParseErrorView,
    >((StatementView::Assign(var, Some(op), ExprView::IntegerLiteral(1)), 3)));
}

/// `x++;` and `++x;` parse to the same statement as `x += 1;`.
pub proof fn law_increment_is_add_one(x: Seq<char>, rest: Seq<TokenView>)
    ensures
        ({
            let v = StatementView::Assign(
                ExprView::Variable(x),
                Some(BinaryOp::Add),
                ExprView::IntegerLiteral(1),
            );
            &&& statement(
                seq![TokenView::Identifier(x), TokenView::PlusPlus, TokenView::Semicolon] + rest,
                0,
            ) == Ok::<(StatementView, int), crate::grammar::ParseErrorView>((v, 3))
            &&& statement(
                seq![TokenView::PlusPlus, TokenView::Identifier(x), TokenView::Semicolon] + rest,
                0,
            ) == Ok::<(StatementView, int), crate::grammar::ParseErrorView>((v, 3))
            &&& statement(
                seq![
                    TokenView::Identifier(x),
                    TokenView::PlusEqual,
                    TokenView::Integer(1),
                    TokenView::Semicolon,
                ] + rest,
                0,
            ) == Ok::<(StatementView, int), crate::grammar::ParseErrorView>((v, 4))
        }),
{
    lemma_increment_forms(x, rest, TokenView::PlusPlus, TokenView::PlusEqual, BinaryOp::Add);
}

/// `x--;` and `--x;` parse to the same statement as `x -= 1;`.
pub proof fn law_decrement_is_subtract_one(x: Seq<char>, rest: Seq<TokenView>)
    ensures
        ({
            let v = StatementView::Assign(
                ExprView::Variable(x),
                Some(BinaryOp::Subtract),
                ExprView::IntegerLiteral(1),
            );
            &&& statement(
                seq![TokenView::Identifier(x), TokenView::MinusMinus, TokenView::Semicolon] + rest,
                0,
            ) == Ok::<(StatementView, int), crate::grammar::ParseErrorView>((v, 3))
            &&& statement(
                seq![TokenView::MinusMinus, TokenView::Identifier(x), TokenView::Semicolon] + rest,
                0,
            ) == Ok::<(StatementView, int), crate::grammar::ParseErrorView>((v, 3))
            &&& statement(
                seq![
                    TokenView::Identifier(x),
                    TokenView::MinusEqual,
                    TokenView::Integer(1),
                    TokenView::Semicolon,
                ] + rest,
                0,
            ) == Ok::<(StatementView, int), crate::grammar::ParseErrorView>((v, 4))
        }),
{
    lemma_increment_forms(
        x,
        rest,
        TokenView::MinusMinus,
        TokenView::MinusEqual,
        BinaryOp::Subtract,
    );
}

// ---------------------------------------------------------------------------
// Statements and functions: tokens in front shift a parse
// ---------------------------------------------------------------------------

proof fn lemma_shift_pointer_suffix(pre: Seq<TokenView>, t: Seq<TokenView>, ty: Type, p: int)
    requires
        0 <= p <= t.len(),
    ensures
        pointer_suffix(pre + t, ty, pre.len() + p) == (
            pointer_suffix(t, ty, p).0,
            pointer_suffix(t, ty, p).1 + pre.len(),
        ),
    decreases t.len() - p,
{
    lemma_peek_shift(pre, t, p);
    if peek(t, p) == Some(TokenView::Star) {
        lemma_shift_pointer_suffix(pre, t, Type::Pointer(Box::new(ty)), p + 1);
    }
}

proof fn lemma_shift_type_spec(pre: Seq<TokenView>, t: Seq<TokenView>, p: int)
    requires
        0 <= p <= t.len(),
    ensures
        type_spec(pre + t, pre.len() + p) == shifted(type_spec(t, p), pre.len() as int),
{
    lemma_peek_shift(pre, t, p);
    if peek(t, p) == Some(TokenView::Int) {
        lemma_shift_pointer_suffix(pre, t, Type::Int, p + 1);
    }
}

proof fn lemma_shift_assignment(pre: Seq<TokenView>, t: Seq<TokenView>, p: int)
    requires
        0 <= p <= t.len(),
    ensures
        assignment_statement(pre + t, pre.len() + p) == shifted(
            assignment_statement(t, p),
            pre.len() as int,
        ),
{
    lemma_peek_shift(pre, t, p);
    if increment_op_of(peek(t, p)) is Some {
        lemma_shift_unary(pre, t, p + 1);
    } else {
        lemma_shift_unary(pre, t, p);
        lemma_unary_progress(t, p);
        if let Ok((_, q)) = unary(t, p) {
            lemma_peek_shift(pre, t, q);
            if increment_op_of(peek(t, q)) is None && assign_op_of(peek(t, q)) is Some {
                lemma_shift_expression(pre, t, q + 1);
            }
        }
    }
}

#[verifier::rlimit(100)]
#[verifier::spinoff_prover]
proof fn lemma_shift_statement(pre: Seq<TokenView>, t: Seq<TokenView>, p: int)
    requires
        0 <= p <= t.len(),
    ensures
        statement(pre + t, pre.len() + p) == shifted(statement(t, p), pre.len() as int),
    decreases t.len() - p, 1int,
{
    let d = pre.len() as int;
    lemma_peek_shift(pre, t, p);
    lemma_peek_shift(pre, t, p + 1);
    match peek(t, p) {
        Some(TokenView::Return) => {
            lemma_shift_expression(pre, t, p + 1);
            lemma_expression_progress(t, p + 1);
            if let Ok((_, q)) = expression(t, p + 1) {
                lemma_peek_shift(pre, t, q);
            }
        },
        Some(TokenView::Int) => {
            lemma_shift_type_spec(pre, t, p);
            lemma_type_spec_progress(t, p);
            if let Ok((_, q1)) = type_spec(t, p) {
                lemma_peek_shift(pre, t, q1);
                lemma_peek_shift(pre, t, q1 + 1);
                if identifier(t, q1) is Ok && peek(t, q1 + 1) == Some(TokenView::Equals) {
                    lemma_shift_expression(pre, t, q1 + 2);
                    lemma_expression_progress(t, q1 + 2);
                    if let Ok((_, q4)) = expression(t, q1 + 2) {
                        lemma_peek_shift(pre, t, q4);
                    }
                }
            }
        },
        Some(TokenView::LeftBrace) => {
            lemma_shift_block_items(pre, t, p + 1);
            lemma_block_items_progress(t, p + 1);
            if let Ok((_, q)) = block_items(t, p + 1) {
                lemma_peek_shift(pre, t, q);
            }
        },
        Some(TokenView::If) | Some(TokenView::While) => {
            if peek(t, p + 1) == Some(TokenView::LeftParen) {
                lemma_shift_expression(pre, t, p + 2);
                lemma_expression_progress(t, p + 2);
                if let Ok((_, q2)) = expression(t, p + 2) {
                    lemma_peek_shift(pre, t, q2);
                    if peek(t, q2) == Some(TokenView::RightParen) {
                        lemma_shift_statement(pre, t, q2 + 1);
                        lemma_statement_progress(t, q2 + 1);
                        if let Ok((_, q4)) = statement(t, q2 + 1) {
                            lemma_peek_shift(pre, t, q4);
                            if peek(t, p) == Some(TokenView::If) && peek(t, q4) == Some(
                                TokenView::Else,
                            ) && advances(t, p, q4 + 1) {
                                lemma_shift_statement(pre, t, q4 + 1);
                            }
                        }
                    }
                }
            }
        },
        Some(TokenView::For) => {
            if peek(t, p + 1) == Some(TokenView::LeftParen) {
                lemma_shift_for_init(pre, t, p + 2);
                lemma_for_init(t, p + 2);
                lemma_for_init(pre + t, d + p + 2);
                lemma_statement_progress(t, p + 2);
                if let Ok((init, q2)) = for_init(t, p + 2) {
                    if advances(t, p, q2) {
                        lemma_shift_for_after_init(pre, t, p, init, q2);
                    }
                }
            }
        },
        Some(TokenView::Break) | Some(TokenView::Continue) => {},
        Some(_) => {
            lemma_shift_assignment(pre, t, p);
            lemma_assignment_progress(t, p);
            if let Ok((_, q)) = assignment_statement(t, p) {
                lemma_peek_shift(pre, t, q);
            }
        },
        None => {},
    }
}

proof fn lemma_shift_for_init(pre: Seq<TokenView>, t: Seq<TokenView>, p: int)
    requires
        0 <= p <= t.len(),
    ensures
        for_init(pre + t, pre.len() + p) == shifted(for_init(t, p), pre.len() as int),
    decreases t.len() - p, 2int,
{
    lemma_peek_shift(pre, t, p);
    lemma_for_init(t, p);
    lemma_for_init(pre + t, pre.len() + p);
    if peek(t, p) != Some(TokenView::Semicolon) {
        lemma_shift_statement(pre, t, p);
    }
}

proof fn lemma_shift_for_after_init(
    pre: Seq<TokenView>,
    t: Seq<TokenView>,
    p: int,
    init: Option<Box<StatementView>>,
    q: int,
)
    requires
        0 <= p < q <= t.len(),
    ensures
        for_after_init(pre + t, pre.len() + p, init, pre.len() + q) == shifted(
            for_after_init(t, p, init, q),
            pre.len() as int,
        ),
    decreases t.len() - q, 3int,
{
    lemma_peek_shift(pre, t, q);
    let cond = if peek(t, q) == Some(TokenView::Semicolon) {
        Ok::<(Option<ExprView>, int), crate::grammar::ParseErrorView>((None, q))
    } else {
        lemma_shift_expression(pre, t, q);
        lemma_expression_progress(t, q);
        match expression(t, q) {
            Ok((e, r)) => Ok((Some(e), r)),
            Err(err) => Err(err),
        }
    };
    if let Ok((_, q1)) = cond {
        lemma_peek_shift(pre, t, q1);
        if peek(t, q1) == Some(TokenView::Semicolon) {
            let q2 = q1 + 1;
            lemma_peek_shift(pre, t, q2);
            if peek(t, q2) != Some(TokenView::RightParen) {
                lemma_shift_assignment(pre, t, q2);
                lemma_assignment_progress(t, q2);
            }
            let post = if peek(t, q2) == Some(TokenView::RightParen) {
                Ok::<(Option<Box<StatementView>>, int), crate::grammar::ParseErrorView>((None, q2))
            } else {
                match assignment_statement(t, q2) {
                    Ok((s, r)) => Ok((Some(Box::new(s)), r)),
                    Err(err) => Err(err),
                }
            };
            if let Ok((_, q3)) = post {
                lemma_peek_shift(pre, t, q3);
                if peek(t, q3) == Some(TokenView::RightParen) && advances(t, q, q3 + 1) {
                    lemma_shift_statement(pre, t, q3 + 1);
                }
            }
        }
    }
}

proof fn lemma_shift_block_items(pre: Seq<TokenView>, t: Seq<TokenView>, p: int)
    requires
        0 <= p <= t.len(),
    ensures
        block_items(pre + t, pre.len() + p) == shifted(block_items(t, p), pre.len() as int),
    decreases t.len() - p, 2int,
{
    lemma_peek_shift(pre, t, p);
    if peek(t, p) != Some(TokenView::RightBrace) {
        lemma_shift_statement(pre, t, p);
        lemma_statement_progress(t, p);
        if let Ok((_, q)) = statement(t, p) {
            if advances(t, p, q) {
                lemma_shift_block_items(pre, t, q);
            }
        }
    }
}

proof fn lemma_shift_param_list(pre: Seq<TokenView>, t: Seq<TokenView>, p: int)
    requires
        0 <= p <= t.len(),
    ensures
        param_list(pre + t, pre.len() + p) == shifted(param_list(t, p), pre.len() as int),
    decreases t.len() - p,
{
    lemma_shift_type_spec(pre, t, p);
    lemma_type_spec_progress(t, p);
    if let Ok((_, q1)) = type_spec(t, p) {
        lemma_peek_shift(pre, t, q1);
        lemma_peek_shift(pre, t, q1 + 1);
        if identifier(t, q1) is Ok && peek(t, q1 + 1) == Some(TokenView::Comma) {
            lemma_shift_param_list(pre, t, q1 + 2);
        }
    }
}

proof fn lemma_shift_function(pre: Seq<TokenView>, t: Seq<TokenView>, p: int)
    requires
        0 <= p <= t.len(),
    ensures
        function(pre + t, pre.len() + p) == shifted(function(t, p), pre.len() as int),
{
    lemma_shift_type_spec(pre, t, p);
    lemma_type_spec_progress(t, p);
    if let Ok((_, q1)) = type_spec(t, p) {
        lemma_peek_shift(pre, t, q1);
        lemma_peek_shift(pre, t, q1 + 1);
        if identifier(t, q1) is Ok && peek(t, q1 + 1) == Some(TokenView::LeftParen) {
            let q3 = q1 + 2;
            lemma_peek_shift(pre, t, q3);
            lemma_peek_shift(pre, t, q3 + 1);
            if peek(t, q3) != Some(TokenView::Void) && peek(t, q3) != Some(TokenView::RightParen) {
                lemma_shift_param_list(pre, t, q3);
            }
            lemma_params_progress(t, q3);
            if let Ok((_, q4)) = params(t, q3) {
                lemma_peek_shift(pre, t, q4);
                if peek(t, q4) == Some(TokenView::LeftBrace) {
                    lemma_shift_block_items(pre, t, q4 + 1);
                    lemma_block_items_progress(t, q4 + 1);
                    if let Ok((_, q6)) = block_items(t, q4 + 1) {
                        lemma_peek_shift(pre, t, q6);
                    }
                }
            }
        }
    }
}

proof fn lemma_shift_functions(pre: Seq<TokenView>, t: Seq<TokenView>, p: int)
    requires
        0 <= p <= t.len(),
    ensures
        functions(pre + t, pre.len() + p) == functions(t, p),
    decreases t.len() - p,
{
    lemma_peek_shift(pre, t, p);
    if peek(t, p).is_some() {
        lemma_shift_function(pre, t, p);
        lemma_function_progress(t, p);
        if let Ok((_, q)) = function(t, p) {
            lemma_shift_functions(pre, t, q);
        }
    }
}

// ---------------------------------------------------------------------------
// Statements and functions: tokens after a parse that ends inside the
// tokens do not change it
// ---------------------------------------------------------------------------

proof fn lemma_extend_pointer_suffix(t: Seq<TokenView>, post: Seq<TokenView>, ty: Type, p: int)
    requires
        0 <= p <= t.len(),
        pointer_suffix(t, ty, p).1 < t.len(),
    ensures
        pointer_suffix(t + post, ty, p) == pointer_suffix(t, ty, p),
    decreases t.len() - p,
{
    lemma_pointer_suffix_progress(t, ty, p);
    lemma_peek_extend(t, post, p);
    if peek(t, p) == Some(TokenView::Star) {
        lemma_extend_pointer_suffix(t, post, Type::Pointer(Box::new(ty)), p + 1);
    }
}

proof fn lemma_extend_type_spec(t: Seq<TokenView>, post: Seq<TokenView>, p: int)
    requires
        0 <= p <= t.len(),
        type_spec(t, p) matches Ok((_, q)) && q < t.len(),
    ensures
        type_spec(t + post, p) == type_spec(t, p),
{
    lemma_type_spec_progress(t, p);
    lemma_peek_extend(t, post, p);
    lemma_extend_pointer_suffix(t, post, Type::Int, p + 1);
}

proof fn lemma_extend_assignment(t: Seq<TokenView>, post: Seq<TokenView>, p: int)
    requires
        0 <= p <= t.len(),
        assignment_statement(t, p) matches Ok((_, q)) && q < t.len(),
    ensures
        assignment_statement(t + post, p) == assignment_statement(t, p),
{
    lemma_assignment_progress(t, p);
    lemma_peek_extend(t, post, p);
    if increment_op_of(peek(t, p)) is Some {
        lemma_unary_progress(t, p + 1);
        lemma_extend_unary(t, post, p + 1);
    } else {
        lemma_unary_progress(t, p);
        let (_, q1) = unary(t, p)->Ok_0;
        if increment_op_of(peek(t, q1)) is None {
            lemma_expression_progress(t, q1 + 1);
        }
        lemma_extend_unary(t, post, p);
        lemma_peek_extend(t, post, q1);
        if increment_op_of(peek(t, q1)) is None {
            lemma_extend_expression(t, post, q1 + 1);
        }
    }
}

#[verifier::rlimit(100)]
#[verifier::spinoff_prover]
proof fn lemma_extend_statement(t: Seq<TokenView>, post: Seq<TokenView>, p: int)
    requires
        0 <= p <= t.len(),
        statement(t, p) matches Ok((_, q)) && q < t.len(),
    ensures
        statement(t + post, p) == statement(t, p),
    decreases t.len() - p, 1int,
{
    lemma_statement_progress(t, p);
    lemma_peek_extend(t, post, p);
    match peek(t, p) {
        Some(TokenView::Return) => {
            lemma_expression_progress(t, p + 1);
            let (_, q1) = expression(t, p + 1)->Ok_0;
            lemma_extend_expression(t, post, p + 1);
            lemma_peek_extend(t, post, q1);
        },
        Some(TokenView::Int) => {
            lemma_type_spec_progress(t, p);
            let (_, q1) = type_spec(t, p)->Ok_0;
            lemma_extend_type_spec(t, post, p);
            lemma_peek_extend(t, post, q1);
            lemma_peek_extend(t, post, q1 + 1);
            lemma_expression_progress(t, q1 + 2);
            let (_, q4) = expression(t, q1 + 2)->Ok_0;
            lemma_extend_expression(t, post, q1 + 2);
            lemma_peek_extend(t, post, q4);
        },
        Some(TokenView::LeftBrace) => {
            lemma_block_items_progress(t, p + 1);
            let (_, r) = block_items(t, p + 1)->Ok_0;
            lemma_extend_block_items(t, post, p + 1);
            lemma_peek_extend(t, post, r);
        },
        Some(TokenView::If) | Some(TokenView::While) => {
            lemma_peek_extend(t, post, p + 1);
            lemma_expression_progress(t, p + 2);
            let (_, q2) = expression(t, p + 2)->Ok_0;
            lemma_extend_expression(t, post, p + 2);
            lemma_peek_extend(t, post, q2);
            lemma_statement_progress(t, q2 + 1);
            let (_, q4) = statement(t, q2 + 1)->Ok_0;
            lemma_extend_statement(t, post, q2 + 1);
            lemma_peek_extend(t, post, q4);
            if peek(t, p) == Some(TokenView::If) && peek(t, q4) == Some(TokenView::Else) {
                lemma_extend_statement(t, post, q4 + 1);
            }
        },
        Some(TokenView::For) => {
            lemma_peek_extend(t, post, p + 1);
            lemma_for_init(t, p + 2);
            lemma_for_init(t + post, p + 2);
            lemma_statement_progress(t, p + 2);
            let (init, q2) = for_init(t, p + 2)->Ok_0;
            lemma_for_after_init_progress(t, p, init, q2);
            lemma_extend_for_init(t, post, p + 2);
            lemma_extend_for_after_init(t, post, p, init, q2);
        },
        Some(TokenView::Break) | Some(TokenView::Continue) => {
            lemma_peek_extend(t, post, p + 1);
        },
        Some(_) => {
            lemma_assignment_progress(t, p);
            let (_, q1) = assignment_statement(t, p)->Ok_0;
            lemma_extend_assignment(t, post, p);
            lemma_peek_extend(t, post, q1);
        },
        None => {},
    }
}

proof fn lemma_extend_for_init(t: Seq<TokenView>, post: Seq<TokenView>, p: int)
    requires
        0 <= p <= t.len(),
        for_init(t, p) matches Ok((_, q)) && q < t.len(),
    ensures
        for_init(t + post, p) == for_init(t, p),
    decreases t.len() - p, 2int,
{
    lemma_for_init(t, p);
    lemma_for_init(t + post, p);
    lemma_statement_progress(t, p);
    lemma_peek_extend(t, post, p);
    if peek(t, p) != Some(TokenView::Semicolon) {
        lemma_extend_statement(t, post, p);
    }
}

proof fn lemma_extend_for_after_init(
    t: Seq<TokenView>,
    post: Seq<TokenView>,
    p: int,
    init: Option<Box<StatementView>>,
    q: int,
)
    requires
        0 <= p < q <= t.len(),
        for_after_init(t, p, init, q) matches Ok((_, r)) && r < t.len(),
    ensures
        for_after_init(t + post, p, init, q) == for_after_init(t, p, init, q),
    decreases t.len() - q, 3int,
{
    lemma_for_after_init_progress(t, p, init, q);
    lemma_peek_extend(t, post, q);
    if peek(t, q) != Some(TokenView::Semicolon) {
        lemma_expression_progress(t, q);
        let (_, q1) = expression(t, q)->Ok_0;
        lemma_extend_expression(t, post, q);
    }
    let cond = if peek(t, q) == Some(TokenView::Semicolon) {
        Ok::<(Option<ExprView>, int), crate::grammar::ParseErrorView>((None, q))
    } else {
        match expression(t, q) {
            Ok((e, r)) => Ok((Some(e), r)),
            Err(err) => Err(err),
        }
    };
    let (_, q1) = cond->Ok_0;
    lemma_peek_extend(t, post, q1);
    let q2 = q1 + 1;
    if peek(t, q2) != Some(TokenView::RightParen) {
        lemma_assignment_progress(t, q2);
    }
    let after_post = if peek(t, q2) == Some(TokenView::RightParen) {
        Ok::<(Option<Box<StatementView>>, int), crate::grammar::ParseErrorView>((None, q2))
    } else {
        match assignment_statement(t, q2) {
            Ok((s, r)) => Ok((Some(Box::new(s)), r)),
            Err(err) => Err(err),
        }
    };
    let (_, q3) = after_post->Ok_0;
    lemma_peek_extend(t, post, q2);
    if peek(t, q2) != Some(TokenView::RightParen) {
        lemma_extend_assignment(t, post, q2);
    }
    lemma_peek_extend(t, post, q3);
    lemma_extend_statement(t, post, q3 + 1);
}

proof fn lemma_extend_block_items(t: Seq<TokenView>, post: Seq<TokenView>, p: int)
    requires
        0 <= p <= t.len(),
        block_items(t, p) matches Ok((_, r)) && r < t.len(),
    ensures
        block_items(t + post, p) == block_items(t, p),
    decreases t.len() - p, 2int,
{
    lemma_block_items_progress(t, p);
    if peek(t, p) == Some(TokenView::RightBrace) {
        lemma_peek_extend(t, post, p);
    } else {
        lemma_statement_progress(t, p);
        let (_, q) = statement(t, p)->Ok_0;
        lemma_block_items_progress(t, q);
        lemma_peek_extend(t, post, p);
        lemma_extend_statement(t, post, p);
        lemma_extend_block_items(t, post, q);
    }
}

proof fn lemma_extend_param_list(t: Seq<TokenView>, post: Seq<TokenView>, p: int)
    requires
        0 <= p <= t.len(),
        param_list(t, p) matches Ok((_, r)) && r < t.len(),
    ensures
        param_list(t + post, p) == param_list(t, p),
    decreases t.len() - p,
{
    lemma_type_spec_progress(t, p);
    let (_, q1) = type_spec(t, p)->Ok_0;
    lemma_extend_type_spec(t, post, p);
    lemma_peek_extend(t, post, q1);
    lemma_peek_extend(t, post, q1 + 1);
    if peek(t, q1 + 1) == Some(TokenView::Comma) {
        lemma_extend_param_list(t, post, q1 + 2);
    }
}

proof fn lemma_extend_function(t: Seq<TokenView>, post: Seq<TokenView>, p: int)
    requires
        0 <= p <= t.len(),
        function(t, p) is Ok,
    ensures
        function(t + post, p) == function(t, p),
{
    lemma_type_spec_progress(t, p);
    let (_, q1) = type_spec(t, p)->Ok_0;
    lemma_extend_type_spec(t, post, p);
    lemma_peek_extend(t, post, q1);
    lemma_peek_extend(t, post, q1 + 1);
    let q3 = q1 + 2;
    lemma_params_progress(t, q3);
    let (_, q4) = params(t, q3)->Ok_0;
    lemma_peek_extend(t, post, q3);
    if peek(t, q3) == Some(TokenView::Void) {
        lemma_peek_extend(t, post, q3 + 1);
    } else if peek(t, q3) != Some(TokenView::RightParen) {
        lemma_param_list_progress(t, q3);
        lemma_extend_param_list(t, post, q3);
    }
    lemma_peek_extend(t, post, q4);
    lemma_block_items_progress(t, q4 + 1);
    let (_, q6) = block_items(t, q4 + 1)->Ok_0;
    lemma_extend_block_items(t, post, q4 + 1);
    lemma_peek_extend(t, post, q6);
}

proof fn lemma_concat_functions(a: Seq<TokenView>, b: Seq<TokenView>, p: int)
    requires
        0 <= p <= a.len(),
        functions(a, p) is Ok,
        program(b) is Ok,
    ensures
        functions(a + b, p) == Ok::<Seq<FunctionView>, crate::grammar::ParseErrorView>(
            functions(a, p)->Ok_0 + program(b)->Ok_0,
        ),
    decreases a.len() - p,
{
    let pb = program(b)->Ok_0;
    if peek(a, p) is None {
        lemma_shift_functions(a, b, 0);
        assert(Seq::<FunctionView>::empty() + pb =~= pb);
    } else {
        lemma_peek_extend(a, b, p);
        lemma_function_progress(a, p);
        lemma_function_progress(a + b, p);
        let (f, q) = function(a, p)->Ok_0;
        lemma_extend_function(a, b, p);
        lemma_concat_functions(a, b, q);
        let rest = functions(a, q)->Ok_0;
        assert(seq![f] + (rest + pb) =~= (seq![f] + rest) + pb);
    }
}

/// Two token sequences that each spell a program, one after the other,
/// spell the functions of the first followed by those of the second: each
/// function is parsed on its own, in source order.
pub proof fn law_programs_concatenate(a: Seq<TokenView>, b: Seq<TokenView>)
    requires
        program(a) is Ok,
        program(b) is Ok,
    ensures
        program(a + b) == Ok::<Seq<FunctionView>, crate::grammar::ParseErrorView>(
            program(a)->Ok_0 + program(b)->Ok_0,
        ),
{
    lemma_concat_functions(a, b, 0);
}

// ---------------------------------------------------------------------------
// Compound assignment
// ---------------------------------------------------------------------------

/// `x op= v;` for an assignment token that stands for `Some(op)`.
proof fn lemma_compound_statement(
    x: Seq<char>,
    ct: TokenView,
    op: BinaryOp,
    v: i32,
    rest: Seq<TokenView>,
)
    requires
        assign_op_of(Some(ct)) == Some(Some(op)),
    ensures
        statement(
            seq![TokenView::Identifier(x), ct, TokenView::Integer(v), TokenView::Semicolon] + rest,
            0,
        ) == Ok::<(StatementView, int), crate::grammar::ParseErrorView>(
            (StatementView::Assign(ExprView::Variable(x), Some(op), ExprView::IntegerLiteral(v)), 4),
        ),
{
    let var = ExprView::Variable(x);
    let ts = seq![TokenView::Identifier(x), ct, TokenView::Integer(v), TokenView::Semicolon] + rest;
    assert(peek(ts, 0) == Some(TokenView::Identifier(x)));
    assert(peek(ts, 1) == Some(ct));
    assert(peek(ts, 2) == Some(TokenView::Integer(v)));
    assert(peek(ts, 3) == Some(TokenView::Semicolon));
    assert(primary(ts, 0) == Ok::<(ExprView, int), crate::grammar::ParseErrorView>((var, 1)));
    assert(unary(ts, 0) == primary(ts, 0));
    assert(primary(ts, 2) == Ok::<(ExprView, int), crate::grammar::ParseErrorView>(
        (ExprView::IntegerLiteral(v), 3),
    ));
    assert(unary(ts, 2) == primary(ts, 2));
    lemma_binary_of_unary(ts, 2, 6);
    assert(binary(ts, 2, 6) == unary(ts, 2));
    assert(expression(ts, 2) == unary(ts, 2));
    assert(assignment_statement(ts, 0) == Ok::<
        (StatementView, int),
        crate::grammar::ParseErrorView,
    >((StatementView::Assign(var, Some(op), ExprView::IntegerLiteral(v)), 3)));
}

/// A compound assignment applies the operator its spelling names: when the
/// character `c` lexes to an arithmetic operator (precedence levels 1 and
/// 2) standing for `op`, the token that `c=` lexes to makes `x c= v;` the
/// assignment of `x op v` to `x` (`%=` modulo, `*=` multiplication, `/=`
/// division, `+=` addition, `-=` subtraction).
pub proof fn law_compound_assignment_uses_its_operator(
    c: char,
    bt: TokenView,
    ct: TokenView,
    k: nat,
    op: BinaryOp,
    x: Seq<char>,
    v: i32,
    rest: Seq<TokenView>,
)
    requires
        lex(seq![c]) == Ok::<Seq<TokenView>, Seq<char>>(seq![bt]),
        lex(seq![c, '=']) == Ok::<Seq<TokenView>, Seq<char>>(seq![ct]),
        1 <= k <= 2,
        binary_op_of(k, Some(bt)) == Some(op),
    ensures
        statement(
            seq![TokenView::Identifier(x), ct, TokenView::Integer(v), TokenView::Semicolon] + rest,
            0,
        ) == Ok::<(StatementView, int), crate::grammar::ParseErrorView>(
            (StatementView::Assign(ExprView::Variable(x), Some(op), ExprView::IntegerLiteral(v)), 4),
        ),
{
    let one = seq![c];
    let two = seq![c, '='];
    assert(lex(Seq::<char>::empty()) == Ok::<Seq<TokenView>, Seq<char>>(Seq::empty()));
    assert(one.skip(1) =~= Seq::<char>::empty());
    assert(two.skip(2) =~= Seq::<char>::empty());
    assert(one[0] == c && two[0] == c && two[1] == '=');
    assert(one.drop_first() =~= Seq::<char>::empty());
    if crate::lexer::is_space(c) {
        assert(lex(one) == lex(one.drop_first()));
        assert(seq![bt].len() == 1);
        assert(false);
    }
    assert(!crate::lexer::starts_line_comment(one) && !crate::lexer::starts_block_comment(one));
    let (t, n) = crate::lexer::scan_token(one)->Ok_0;
    crate::lexer::lemma_scan_token_bounds(one);
    assert(n == 1);
    assert(lex(one) == Ok::<Seq<TokenView>, Seq<char>>(seq![t] + Seq::<TokenView>::empty()));
    assert((seq![t] + Seq::<TokenView>::empty())[0] == t);
    assert(seq![bt][0] == bt);
    assert(t == bt);
    assert(!crate::lexer::second_is(one, '=') && !crate::lexer::second_is(one, '+')
        && !crate::lexer::second_is(one, '-'));
    if bt == TokenView::Star {
        assert(c == '*');
    } else if bt == TokenView::Slash {
        assert(c == '/');
    } else if bt == TokenView::Percent {
        assert(c == '%');
    } else if bt == TokenView::Plus {
        assert(c == '+');
    } else {
        assert(bt == TokenView::Minus);
        assert(c == '-');
    }
    assert(crate::lexer::second_is(two, '='));
    assert(!crate::lexer::second_is(two, '/') && !crate::lexer::second_is(two, '*')
        && !crate::lexer::second_is(two, '+') && !crate::lexer::second_is(two, '-'));
    let expected = if c == '*' {
        TokenView::StarEqual
    } else if c == '/' {
        TokenView::SlashEqual
    } else if c == '%' {
        TokenView::PercentEqual
    } else if c == '+' {
        TokenView::PlusEqual
    } else {
        TokenView::MinusEqual
    };
    assert(crate::lexer::scan_token(two) == Ok::<(TokenView, nat), Seq<char>>((expected, 2)));
    assert(lex(two) == Ok::<Seq<TokenView>, Seq<char>>(seq![expected] + Seq::<TokenView>::empty()));
    assert((seq![expected] + Seq::<TokenView>::empty())[0] == expected);
    assert(seq![ct][0] == ct);
    assert(ct == expected);
    assert(assign_op_of(Some(ct)) == Some(Some(op)));
    lemma_compound_statement(x, ct, op, v, rest);
}

} // verus!

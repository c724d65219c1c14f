//! Properties of lowering that hold for every program.
use vstd::prelude::*;
use crate::ast::{BinaryOp, ExprView, StatementView, Type, UnaryOp};
use crate::lowering::{
    apply_binary, emit, lookup_slot, lower_expr, lower_place, lower_stmt, next_value, place_name,
    Lowering, Slot,
};
use crate::ir::{
    arith_value, holds, lemma_step_value_frame, operand_value, step_value, wrap, ArithOp,
    Comparison, InstrView, Operand,
};
use crate::codegen::{
    assigned_value, comparison_for, expr_type, is_compound, operand_before, yields_pointer,
    args_fault, break_outside_loop_message, continue_outside_loop_message, expr_fault,
    lvalue_fault, run_items, stmt_run, undefined_function_message, undefined_variable_message,
};

verus! {

/// The first character of an error message about an expression.
proof fn lemma_expr_messages(e: ExprView, vars: Seq<(Seq<char>, Type)>, funcs: Seq<(Seq<char>, Type)>)
    ensures
        expr_fault(e, vars, funcs) matches Some(m) ==> m.len() > 0 && m[0] != '`',
        lvalue_fault(e, vars, funcs) matches Some(m) ==> m.len() > 0 && m[0] != '`',
    decreases e,
{
    reveal_strlit("undefined variable '");
    reveal_strlit("undefined function '");
    reveal_strlit("dereference operand did not evaluate to a pointer");
    reveal_strlit("dereference target did not evaluate to a pointer");
    reveal_strlit("expected integer operand for unary operator");
    reveal_strlit("expected integer for logical AND operand");
    reveal_strlit("expected integer for logical OR operand");
    reveal_strlit("expected integer operand");
    reveal_strlit("expected integer for conditional operand");
    reveal_strlit("expression is not an lvalue");
    match e {
        ExprView::Variable(name) => {
            assert(undefined_variable_message(name)[0] == 'u');
        },
        ExprView::Unary(_, inner) => {
            lemma_expr_messages(*inner, vars, funcs);
        },
        ExprView::Binary(l, _, r) => {
            lemma_expr_messages(*l, vars, funcs);
            lemma_expr_messages(*r, vars, funcs);
        },
        ExprView::Call(name, args) => {
            assert(undefined_function_message(name)[0] == 'u');
            lemma_args_messages(args, vars, funcs);
        },
        ExprView::Conditional(c, a, b) => {
            lemma_expr_messages(*c, vars, funcs);
            lemma_expr_messages(*a, vars, funcs);
            lemma_expr_messages(*b, vars, funcs);
        },
        _ => {},
    }
}

proof fn lemma_args_messages(
    args: Seq<ExprView>,
    vars: Seq<(Seq<char>, Type)>,
    funcs: Seq<(Seq<char>, Type)>,
)
    ensures
        args_fault(args, vars, funcs) matches Some(m) ==> m.len() > 0 && m[0] != '`',
    decreases args,
{
    if args.len() > 0 {
        lemma_expr_messages(args[0], vars, funcs);
        lemma_args_messages(args.drop_first(), vars, funcs);
    }
}

proof fn lemma_statement_messages(
    s: StatementView,
    vars: Seq<(Seq<char>, Type)>,
    funcs: Seq<(Seq<char>, Type)>,
)
    ensures
        stmt_run(s, vars, funcs, true) matches Err(m) ==> m.len() > 0 && m[0] != '`',
    decreases s,
{
    reveal_strlit("function return value must be an integer");
    reveal_strlit("if condition must be an integer");
    reveal_strlit("while condition must be an integer");
    reveal_strlit("for condition must be an integer");
    match s {
        StatementView::Return(e) => lemma_expr_messages(e, vars, funcs),
        StatementView::Declare(_, _, init) => lemma_expr_messages(init, vars, funcs),
        StatementView::Assign(target, op, value) => {
            lemma_expr_messages(target, vars, funcs);
            lemma_expr_messages(value, vars, funcs);
            match op {
                Some(o) => lemma_expr_messages(
                    ExprView::Binary(Box::new(target), o, Box::new(value)),
                    vars,
                    funcs,
                ),
                None => {},
            }
        },
        StatementView::Block(items) => lemma_items_messages(items, vars, funcs),
        StatementView::If(cond, then_branch, else_branch) => {
            lemma_expr_messages(cond, vars, funcs);
            lemma_statement_messages(*then_branch, vars, funcs);
            match stmt_run(*then_branch, vars, funcs, true) {
                Ok((v1, _)) => match else_branch {
                    Some(e) => lemma_statement_messages(*e, v1, funcs),
                    None => {},
                },
                Err(_) => {},
            }
        },
        StatementView::While(cond, body) => {
            lemma_expr_messages(cond, vars, funcs);
            lemma_statement_messages(*body, vars, funcs);
        },
        StatementView::For(init, cond, post, body) => {
            let first = match init {
                None => Ok((vars, false)),
                Some(i) => {
                    lemma_statement_messages(*i, vars, funcs);
                    stmt_run(*i, vars, funcs, true)
                },
            };
            match first {
                Ok((v1, _)) => {
                    match cond {
                        Some(c) => lemma_expr_messages(c, v1, funcs),
                        None => {},
                    }
                    lemma_statement_messages(*body, v1, funcs);
                    match stmt_run(*body, v1, funcs, true) {
                        Ok((v2, _)) => match post {
                            Some(p) => lemma_statement_messages(*p, v2, funcs),
                            None => {},
                        },
                        Err(_) => {},
                    }
                },
                Err(_) => {},
            }
        },
        _ => {},
    }
}

proof fn lemma_items_messages(
    items: Seq<StatementView>,
    vars: Seq<(Seq<char>, Type)>,
    funcs: Seq<(Seq<char>, Type)>,
)
    ensures
        run_items(items, vars, funcs, true) matches Err(m) ==> m.len() > 0 && m[0] != '`',
    decreases items,
{
    if items.len() > 0 {
        lemma_statement_messages(items[0], vars, funcs);
        match stmt_run(items[0], vars, funcs, true) {
            Ok((v1, false)) => lemma_items_messages(items.drop_first(), v1, funcs),
            _ => {},
        }
    }
}

/// Inside a loop, `break` and `continue` are accepted wherever they stand:
/// lowering a statement that a loop encloses never fails for a misplaced
/// `break` or `continue`.
pub proof fn law_loop_bodies_accept_break_and_continue(
    s: StatementView,
    vars: Seq<(Seq<char>, Type)>,
    funcs: Seq<(Seq<char>, Type)>,
)
    ensures
        stmt_run(s, vars, funcs, true) != Err::<(Seq<(Seq<char>, Type)>, bool), Seq<char>>(
            break_outside_loop_message(),
        ),
        stmt_run(s, vars, funcs, true) != Err::<(Seq<(Seq<char>, Type)>, bool), Seq<char>>(
            continue_outside_loop_message(),
        ),
{
    reveal_strlit("`break` used outside of a loop");
    reveal_strlit("`continue` used outside of a loop");
    lemma_statement_messages(s, vars, funcs);
    assert(break_outside_loop_message()[0] == '`');
    assert(continue_outside_loop_message()[0] == '`');
}

/// Outside every loop, `break` and `continue` are refused.
pub proof fn law_jumps_outside_loops_refused(
    vars: Seq<(Seq<char>, Type)>,
    funcs: Seq<(Seq<char>, Type)>,
)
    ensures
        stmt_run(StatementView::Break, vars, funcs, false) == Err::<
            (Seq<(Seq<char>, Type)>, bool),
            Seq<char>,
        >(break_outside_loop_message()),
        stmt_run(StatementView::Continue, vars, funcs, false) == Err::<
            (Seq<(Seq<char>, Type)>, bool),
            Seq<char>,
        >(continue_outside_loop_message()),
{
}

/// For a variable `x`, `x op= value;` is checked as `x = x op value;`: it
/// fails exactly when that does, with the same error.
pub proof fn law_compound_assignment_is_plain_assignment(
    x: Seq<char>,
    op: BinaryOp,
    value: ExprView,
    vars: Seq<(Seq<char>, Type)>,
    funcs: Seq<(Seq<char>, Type)>,
    in_loop: bool,
)
    ensures
        ({
            let target = ExprView::Variable(x);
            stmt_run(StatementView::Assign(target, Some(op), value), vars, funcs, in_loop)
                == stmt_run(
                StatementView::Assign(
                    target,
                    None,
                    ExprView::Binary(Box::new(target), op, Box::new(value)),
                ),
                vars,
                funcs,
                in_loop,
            )
        }),
{
    let target = ExprView::Variable(x);
    let whole = ExprView::Binary(Box::new(target), op, Box::new(value));
    assert(expr_fault(target, vars, funcs) == lvalue_fault(target, vars, funcs));
    if op != BinaryOp::LogicalAnd && op != BinaryOp::LogicalOr {
        assert(expr_fault(whole, vars, funcs) == match expr_fault(target, vars, funcs) {
            Some(m) => Some(m),
            None => match expr_fault(value, vars, funcs) {
                Some(m) => Some(m),
                None => if yields_pointer(target, vars, funcs) || yields_pointer(value, vars, funcs) {
                    Some("expected integer operand"@)
                } else {
                    None
                },
            },
        });
    }
}

/// For a variable `x` and an operator other than `&&` and `||`,
/// `x op= value;` is lowered to exactly the code of `x = x op value;`: a
/// load of `x`, the code of `value`, the operation, and a store to `x`.
pub proof fn law_compound_assignment_lowers_as_plain_assignment(
    x: Seq<char>,
    op: BinaryOp,
    value: ExprView,
    vars: Seq<Slot>,
    loops: Seq<(nat, nat)>,
    st: Lowering,
)
    requires
        op != BinaryOp::LogicalAnd,
        op != BinaryOp::LogicalOr,
    ensures
        ({
            let target = ExprView::Variable(x);
            lower_stmt(StatementView::Assign(target, Some(op), value), vars, loops, st) == lower_stmt(
                StatementView::Assign(
                    target,
                    None,
                    ExprView::Binary(Box::new(target), op, Box::new(value)),
                ),
                vars,
                loops,
                st,
            )
        }),
{
    let target = ExprView::Variable(x);
    let whole = ExprView::Binary(Box::new(target), op, Box::new(value));
    let slot = Operand::Reg(lookup_slot(vars, x) as usize);
    let s1 = emit(st, InstrView::Load { ptr: slot, name: x });
    assert(lower_place(target, vars, st) == (st, slot));
    assert(lower_expr(target, vars, st) == (s1, next_value(st)));
    assert(place_name(target) == x);
    let (s3, o) = lower_expr(value, vars, s1);
    assert(lower_expr(whole, vars, st) == apply_binary(op, next_value(st), o, s3));
    let (s4, res) = apply_binary(op, next_value(st), o, s3);
    assert(lower_place(target, vars, s4) == (s4, slot));
    assert(is_compound(Some(op)));
    assert(!is_compound(None));
    assert(assigned_value(target, None, whole) == whole);
}

/// Once a statement ends its block with a jump (`return`, `break`,
/// `continue`), the statements after it are unreachable and play no part:
/// in particular no error is reported about them.
pub proof fn law_code_after_jump_is_ignored(
    first: StatementView,
    rest: Seq<StatementView>,
    vars: Seq<(Seq<char>, Type)>,
    funcs: Seq<(Seq<char>, Type)>,
    in_loop: bool,
)
    requires
        stmt_run(first, vars, funcs, in_loop) matches Ok((_, ends)) && ends,
    ensures
        run_items(seq![first] + rest, vars, funcs, in_loop) == stmt_run(first, vars, funcs, in_loop),
{
    let items = seq![first] + rest;
    assert(items[0] == first);
}

/// A block leaves the variables in scope as it found them: what it declares
/// goes out of scope at its end.
pub proof fn law_block_restores_scope(
    items: Seq<StatementView>,
    vars: Seq<(Seq<char>, Type)>,
    funcs: Seq<(Seq<char>, Type)>,
    in_loop: bool,
)
    ensures
        stmt_run(StatementView::Block(items), vars, funcs, in_loop) matches Ok((after, _)) ==> after
            == vars,
{
}

/// Taking the address of a well-typed expression gives a pointer to its
/// type, dereferencing that address gives the type back, and an `int`
/// cannot be dereferenced.
pub proof fn law_address_and_dereference_types(
    e: ExprView,
    vars: Seq<(Seq<char>, Type)>,
    funcs: Seq<(Seq<char>, Type)>,
)
    requires
        expr_type(e, vars, funcs) is Ok,
    ensures
        ({
            let t = expr_type(e, vars, funcs)->Ok_0;
            let address = ExprView::Unary(UnaryOp::AddrOf, Box::new(e));
            &&& expr_type(address, vars, funcs) == Ok::<Type, Seq<char>>(Type::Pointer(Box::new(t)))
            &&& expr_type(ExprView::Unary(UnaryOp::Deref, Box::new(address)), vars, funcs)
                == Ok::<Type, Seq<char>>(t)
            &&& t == Type::Int ==> expr_type(ExprView::Unary(UnaryOp::Deref, Box::new(e)), vars, funcs)
                == Err::<Type, Seq<char>>("cannot dereference non-pointer type"@)
        }),
{
}

/// The value of an expression of integer constants and the operators
/// `- + !` (unary), `+ - * / %` and the comparisons, as the code for it
/// computes on `i32`: `+ - *` and negation wrap, division truncates toward
/// zero. `None` for any other expression, and where the value is undefined
/// (a zero divisor, or `-2^31` divided by `-1`).
pub open spec fn constant_value(e: ExprView) -> Option<int>
    decreases e,
{
    match e {
        ExprView::IntegerLiteral(v) => Some(v as int),
        ExprView::Unary(op, inner) => match constant_value(*inner) {
            Some(v) => match op {
                UnaryOp::Negate => Some(wrap(-v)),
                UnaryOp::Posate => Some(v),
                UnaryOp::LogicalNot => Some(if v == 0 { 1int } else { 0int }),
                _ => None,
            },
            None => None,
        },
        ExprView::Binary(l, op, r) => match (constant_value(*l), constant_value(*r)) {
            (Some(a), Some(b)) => match op {
                BinaryOp::Add => arith_value(ArithOp::Add, a, b),
                BinaryOp::Subtract => arith_value(ArithOp::Sub, a, b),
                BinaryOp::Multiply => arith_value(ArithOp::Mul, a, b),
                BinaryOp::Divide => arith_value(ArithOp::SignedDiv, a, b),
                BinaryOp::Modulo => arith_value(ArithOp::SignedRem, a, b),
                BinaryOp::LogicalAnd | BinaryOp::LogicalOr => None,
                _ => Some(if holds(comparison_for(op), a, b) { 1int } else { 0int }),
            },
            _ => None,
        },
        _ => None,
    }
}

/// An operand of code `c1` reads the same value once more steps follow.
proof fn lemma_operand_read_later(c1: Seq<InstrView>, c2: Seq<InstrView>, o: Operand, below: nat)
    requires
        operand_before(o, c1.len()),
        c1.len() <= below,
    ensures
        operand_value(c1 + c2, o, below) == operand_value(c1, o, c1.len()),
{
    if let Operand::Reg(j) = o {
        lemma_step_value_frame(c1, c2, j as nat);
    }
}

/// Lowering such an expression only adds steps.
proof fn lemma_lowered_grows(e: ExprView, vars: Seq<Slot>, st: Lowering)
    requires
        constant_value(e) is Some,
    ensures
        ({
            let s = lower_expr(e, vars, st).0;
            &&& st.code.len() <= s.code.len()
            &&& s.code.take(st.code.len() as int) == st.code
        }),
    decreases e,
{
    match e {
        ExprView::IntegerLiteral(_) => {
            assert(st.code.take(st.code.len() as int) =~= st.code);
        },
        ExprView::Unary(op, inner) => {
            lemma_lowered_grows(*inner, vars, st);
            let s1 = lower_expr(*inner, vars, st).0;
            let s = lower_expr(e, vars, st).0;
            assert(s.code.take(s1.code.len() as int) =~= s1.code);
            assert(s.code.take(st.code.len() as int) =~= s1.code.take(st.code.len() as int));
        },
        ExprView::Binary(l, op, r) => {
            lemma_lowered_grows(*l, vars, st);
            let s1 = lower_expr(*l, vars, st).0;
            lemma_lowered_grows(*r, vars, s1);
            let s2 = lower_expr(*r, vars, s1).0;
            let s = lower_expr(e, vars, st).0;
            assert(s.code.take(s2.code.len() as int) =~= s2.code);
            assert(s.code.take(s1.code.len() as int) =~= s2.code.take(s1.code.len() as int));
            assert(s.code.take(st.code.len() as int) =~= s1.code.take(st.code.len() as int));
        },
        _ => {},
    }
}

/// The operand that lowering gives for such an expression reads its value.
proof fn lemma_lowered_value(e: ExprView, vars: Seq<Slot>, st: Lowering)
    requires
        constant_value(e) is Some,
        lower_expr(e, vars, st).0.code.len() <= usize::MAX,
    ensures
        operand_before(lower_expr(e, vars, st).1, lower_expr(e, vars, st).0.code.len()),
        operand_value(
            lower_expr(e, vars, st).0.code,
            lower_expr(e, vars, st).1,
            lower_expr(e, vars, st).0.code.len(),
        ) == constant_value(e),
    decreases e, 1nat,
{
    match e {
        ExprView::IntegerLiteral(_) => {},
        ExprView::Unary(op, inner) => {
            lemma_unary_value(e, op, *inner, vars, st);
        },
        ExprView::Binary(l, op, r) => {
            lemma_binary_value(e, *l, op, *r, vars, st);
        },
        _ => {},
    }
}

proof fn lemma_unary_value(e: ExprView, op: UnaryOp, inner: ExprView, vars: Seq<Slot>, st: Lowering)
    requires
        e == ExprView::Unary(op, Box::new(inner)),
        constant_value(e) is Some,
        lower_expr(e, vars, st).0.code.len() <= usize::MAX,
    ensures
        operand_before(lower_expr(e, vars, st).1, lower_expr(e, vars, st).0.code.len()),
        operand_value(
            lower_expr(e, vars, st).0.code,
            lower_expr(e, vars, st).1,
            lower_expr(e, vars, st).0.code.len(),
        ) == constant_value(e),
    decreases e, 0nat,
{
    lemma_lowered_grows(e, vars, st);
    lemma_lowered_grows(inner, vars, st);
    let (s1, o) = lower_expr(inner, vars, st);
    assert(decreases_to!(e => inner));
    lemma_lowered_value(inner, vars, st);
    let n = s1.code.len();
    let s = lower_expr(e, vars, st).0;
    let tail = s.code.skip(n as int);
    assert(s1.code + tail =~= s.code);
    lemma_operand_read_later(s1.code, tail, o, n);
    if op == UnaryOp::Negate {
        assert(step_value(s.code, n) == constant_value(e));
    } else if op == UnaryOp::LogicalNot {
        assert(step_value(s.code, n) == constant_value(e));
        assert(step_value(s.code, n + 1) == constant_value(e));
    }
}

proof fn lemma_binary_value(
    e: ExprView,
    l: ExprView,
    op: BinaryOp,
    r: ExprView,
    vars: Seq<Slot>,
    st: Lowering,
)
    requires
        e == ExprView::Binary(Box::new(l), op, Box::new(r)),
        constant_value(e) is Some,
        lower_expr(e, vars, st).0.code.len() <= usize::MAX,
    ensures
        operand_before(lower_expr(e, vars, st).1, lower_expr(e, vars, st).0.code.len()),
        operand_value(
            lower_expr(e, vars, st).0.code,
            lower_expr(e, vars, st).1,
            lower_expr(e, vars, st).0.code.len(),
        ) == constant_value(e),
    decreases e, 0nat,
{
    assert(op != BinaryOp::LogicalAnd && op != BinaryOp::LogicalOr);
    lemma_lowered_grows(e, vars, st);
    lemma_lowered_grows(l, vars, st);
    let (s1, lo) = lower_expr(l, vars, st);
    lemma_lowered_grows(r, vars, s1);
    let (s2, ro) = lower_expr(r, vars, s1);
    assert(lower_expr(e, vars, st) == apply_binary(op, lo, ro, s2));
    assert(decreases_to!(e => l));
    assert(decreases_to!(e => r));
    lemma_lowered_value(l, vars, st);
    lemma_lowered_value(r, vars, s1);
    let n = s2.code.len();
    let s3 = lower_expr(e, vars, st).0;
    let tail1 = s3.code.skip(s1.code.len() as int);
    let tail2 = s3.code.skip(n as int);
    assert(s1.code =~= s2.code.take(s1.code.len() as int));
    assert(s1.code + tail1 =~= s3.code);
    assert(s2.code + tail2 =~= s3.code);
    lemma_operand_read_later(s1.code, tail1, lo, n);
    lemma_operand_read_later(s2.code, tail2, ro, n);
    let a = constant_value(l)->Some_0;
    let b = constant_value(r)->Some_0;
    assert(step_value(s3.code, n) == match op {
        BinaryOp::Add => arith_value(ArithOp::Add, a, b),
        BinaryOp::Subtract => arith_value(ArithOp::Sub, a, b),
        BinaryOp::Multiply => arith_value(ArithOp::Mul, a, b),
        BinaryOp::Divide => arith_value(ArithOp::SignedDiv, a, b),
        BinaryOp::Modulo => arith_value(ArithOp::SignedRem, a, b),
        _ => Some(if holds(comparison_for(op), a, b) { 1int } else { 0int }),
    });
    assert(constant_value(e) == match op {
        BinaryOp::Add => arith_value(ArithOp::Add, a, b),
        BinaryOp::Subtract => arith_value(ArithOp::Sub, a, b),
        BinaryOp::Multiply => arith_value(ArithOp::Mul, a, b),
        BinaryOp::Divide => arith_value(ArithOp::SignedDiv, a, b),
        BinaryOp::Modulo => arith_value(ArithOp::SignedRem, a, b),
        _ => Some(if holds(comparison_for(op), a, b) { 1int } else { 0int }),
    });
    if op == BinaryOp::Add || op == BinaryOp::Subtract || op == BinaryOp::Multiply || op
        == BinaryOp::Divide || op == BinaryOp::Modulo {
        assert(lower_expr(e, vars, st).1 == Operand::Reg(n as usize));
    } else {
        assert(lower_expr(e, vars, st).1 == Operand::Reg((n + 1) as usize));
        assert(step_value(s3.code, n + 1) == step_value(s3.code, n));
    }
}

/// The code that lowering gives for an expression of integer constants and
/// arithmetic computes the expression's value: its operand reads
/// `constant_value(e)`.
pub proof fn law_lowered_arithmetic_computes_its_value(e: ExprView, vars: Seq<Slot>, st: Lowering)
    requires
        constant_value(e) is Some,
        lower_expr(e, vars, st).0.code.len() <= usize::MAX,
    ensures
        ({
            let (s, o) = lower_expr(e, vars, st);
            operand_value(s.code, o, s.code.len()) == constant_value(e)
        }),
{
    lemma_lowered_value(e, vars, st);
}

} // verus!

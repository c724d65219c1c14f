//! Code generation: the errors it reports about a program, and the hand-off
//! of the program's code to LLVM.
//!
//! `program_fault` specifies the first error in a program (undefined names,
//! static types, places, misplaced `break` and `continue`, a missing
//! `main`). The code itself is computed and proved in [`crate::lowering`];
//! here each of its steps is handed to LLVM through [`crate::emitter`],
//! and the LLVM objects that result are opaque.
use vstd::prelude::*;
use crate::ast;
use crate::ast::{BinaryOp, ExprView, Program, StatementView, Type, UnaryOp};
use crate::emitter::{
    begin_function, blocks_created, building, declare_function, emitted, handed, new_emitter, operand_in,
    print_emitted_module, printed, record, step_add, step_alloca, step_br, step_call, step_compare, step_cond_br,
    step_load, step_mul, step_neg, step_new_block, step_param, step_phi, step_position,
    step_ret, step_signed_div, step_signed_rem, step_store, step_store_zero, step_sub,
    step_zext, verify_current_function, verify_emitted_module, Emitter,
};
use crate::ir::{
    instrs_view, ArithOp, BlockKind, Comparison, Instr, InstrView, IrFunction, IrFunctionView,
    IrModule, Operand,
};
use crate::llvm::{
    create_builder, create_context, create_module, create_target_machine,
    data_layout, default_triple, initialize_native_target, set_data_layout, set_triple,
    target_data, target_from_triple,
};
use crate::lowering::{lower_to_ir, lowered};

verus! {

// ---------------------------------------------------------------------------
// Names in scope
// ---------------------------------------------------------------------------

/// What `name` denotes in a list of declarations: the type of its last
/// declaration, since a later declaration shadows an earlier one.
pub open spec fn lookup(entries: Seq<(Seq<char>, Type)>, name: Seq<char>) -> Option<Type>
    decreases entries.len(),
{
    if entries.len() == 0 {
        None
    } else if entries.last().0 == name {
        Some(entries.last().1)
    } else {
        lookup(entries.drop_last(), name)
    }
}

pub open spec fn undefined_variable_message(name: Seq<char>) -> Seq<char> {
    "undefined variable '"@ + name + "'"@
}

pub open spec fn undefined_function_message(name: Seq<char>) -> Seq<char> {
    "undefined function '"@ + name + "'"@
}

pub open spec fn missing_main_message() -> Seq<char> {
    "expected a function named 'main'"@
}

pub open spec fn break_outside_loop_message() -> Seq<char> {
    "`break` used outside of a loop"@
}

pub open spec fn continue_outside_loop_message() -> Seq<char> {
    "`continue` used outside of a loop"@
}

// ---------------------------------------------------------------------------
// Static types
// ---------------------------------------------------------------------------

/// The type of an expression. `vars` are the variables in scope and `funcs`
/// the functions of the program, each with its return type.
pub open spec fn expr_type(
    e: ExprView,
    vars: Seq<(Seq<char>, Type)>,
    funcs: Seq<(Seq<char>, Type)>,
) -> Result<Type, Seq<char>>
    decreases e,
{
    match e {
        ExprView::IntegerLiteral(_) => Ok(Type::Int),
        ExprView::Variable(name) => match lookup(vars, name) {
            Some(t) => Ok(t),
            None => Err(undefined_variable_message(name)),
        },
        ExprView::Unary(op, inner) => match op {
            UnaryOp::Deref => match expr_type(*inner, vars, funcs) {
                Ok(Type::Pointer(t)) => Ok(*t),
                Ok(Type::Int) => Err("cannot dereference non-pointer type"@),
                Err(m) => Err(m),
            },
            UnaryOp::AddrOf => match expr_type(*inner, vars, funcs) {
                Ok(t) => Ok(Type::Pointer(Box::new(t))),
                Err(m) => Err(m),
            },
            _ => Ok(Type::Int),
        },
        ExprView::Binary(_, _, _) => Ok(Type::Int),
        ExprView::Call(name, _) => match lookup(funcs, name) {
            Some(t) => Ok(t),
            None => Err(undefined_function_message(name)),
        },
        ExprView::Conditional(_, _, _) => Ok(Type::Int),
    }
}

/// Whether the expression has a pointer type (and so yields an LLVM pointer).
pub open spec fn yields_pointer(
    e: ExprView,
    vars: Seq<(Seq<char>, Type)>,
    funcs: Seq<(Seq<char>, Type)>,
) -> bool {
    expr_type(e, vars, funcs) matches Ok(Type::Pointer(_))
}

// ---------------------------------------------------------------------------
// Faults: the first error that lowering reports about the program itself
// ---------------------------------------------------------------------------

/// The first error met while lowering `e` as a value, or `None`.
pub open spec fn expr_fault(
    e: ExprView,
    vars: Seq<(Seq<char>, Type)>,
    funcs: Seq<(Seq<char>, Type)>,
) -> Option<Seq<char>>
    decreases e,
{
    match e {
        ExprView::IntegerLiteral(_) => None,
        ExprView::Variable(name) => if lookup(vars, name) is None {
            Some(undefined_variable_message(name))
        } else {
            None
        },
        ExprView::Unary(op, inner) => match op {
            UnaryOp::Deref => match expr_fault(*inner, vars, funcs) {
                Some(m) => Some(m),
                None => if yields_pointer(*inner, vars, funcs) {
                    None
                } else {
                    Some("dereference operand did not evaluate to a pointer"@)
                },
            },
            UnaryOp::AddrOf => lvalue_fault(*inner, vars, funcs),
            _ => match expr_fault(*inner, vars, funcs) {
                Some(m) => Some(m),
                None => if yields_pointer(*inner, vars, funcs) {
                    Some("expected integer operand for unary operator"@)
                } else {
                    None
                },
            },
        },
        ExprView::Binary(l, op, r) => if op == BinaryOp::LogicalAnd || op == BinaryOp::LogicalOr {
            let msg = if op == BinaryOp::LogicalAnd {
                "expected integer for logical AND operand"@
            } else {
                "expected integer for logical OR operand"@
            };
            match expr_fault(*l, vars, funcs) {
                Some(m) => Some(m),
                None => if yields_pointer(*l, vars, funcs) {
                    Some(msg)
                } else {
                    match expr_fault(*r, vars, funcs) {
                        Some(m) => Some(m),
                        None => if yields_pointer(*r, vars, funcs) {
                            Some(msg)
                        } else {
                            None
                        },
                    }
                },
            }
        } else {
            match expr_fault(*l, vars, funcs) {
                Some(m) => Some(m),
                None => match expr_fault(*r, vars, funcs) {
                    Some(m) => Some(m),
                    None => if yields_pointer(*l, vars, funcs) || yields_pointer(*r, vars, funcs) {
                        Some("expected integer operand"@)
                    } else {
                        None
                    },
                },
            }
        },
        ExprView::Call(name, args) => if lookup(funcs, name) is None {
            Some(undefined_function_message(name))
        } else {
            args_fault(args, vars, funcs)
        },
        ExprView::Conditional(c, a, b) => {
            let msg = "expected integer for conditional operand"@;
            match expr_fault(*c, vars, funcs) {
                Some(m) => Some(m),
                None => if yields_pointer(*c, vars, funcs) {
                    Some(msg)
                } else {
                    match expr_fault(*a, vars, funcs) {
                        Some(m) => Some(m),
                        None => if yields_pointer(*a, vars, funcs) {
                            Some(msg)
                        } else {
                            match expr_fault(*b, vars, funcs) {
                                Some(m) => Some(m),
                                None => if yields_pointer(*b, vars, funcs) {
                                    Some(msg)
                                } else {
                                    None
                                },
                            }
                        },
                    }
                },
            }
        },
    }
}

/// The first error met while lowering `e` as the place an assignment or `&` refers to.
pub open spec fn lvalue_fault(
    e: ExprView,
    vars: Seq<(Seq<char>, Type)>,
    funcs: Seq<(Seq<char>, Type)>,
) -> Option<Seq<char>>
    decreases e,
{
    match e {
        ExprView::Variable(name) => if lookup(vars, name) is None {
            Some(undefined_variable_message(name))
        } else {
            None
        },
        ExprView::Unary(UnaryOp::Deref, inner) => match expr_fault(*inner, vars, funcs) {
            Some(m) => Some(m),
            None => if yields_pointer(*inner, vars, funcs) {
                None
            } else {
                Some("dereference target did not evaluate to a pointer"@)
            },
        },
        _ => Some("expression is not an lvalue"@),
    }
}

/// The first error met while lowering call arguments from left to right.
pub open spec fn args_fault(
    args: Seq<ExprView>,
    vars: Seq<(Seq<char>, Type)>,
    funcs: Seq<(Seq<char>, Type)>,
) -> Option<Seq<char>>
    decreases args,
{
    if args.len() == 0 {
        None
    } else {
        match expr_fault(args[0], vars, funcs) {
            Some(m) => Some(m),
            None => args_fault(args.drop_first(), vars, funcs),
        }
    }
}

/// The value an assignment stores: the right-hand side, or for `op=` the
/// target combined with it.
pub open spec fn assigned_value(target: ExprView, op: Option<BinaryOp>, value: ExprView) -> ExprView {
    match op {
        None => value,
        Some(o) => ExprView::Binary(Box::new(target), o, Box::new(value)),
    }
}

/// An assignment `target op= value` with an arithmetic or comparison
/// operator: the place of `target` is evaluated once, read, combined with
/// `value` and written.
pub open spec fn is_compound(op: Option<BinaryOp>) -> bool {
    op matches Some(o) && o != BinaryOp::LogicalAnd && o != BinaryOp::LogicalOr
}

/// Lowering a statement with the variables `vars` in scope: the first error,
/// or the variables in scope afterwards and whether the statement ended the
/// current block with a jump (so that what follows it is unreachable).
/// `in_loop` tells whether a loop encloses the statement.
pub open spec fn stmt_run(
    s: StatementView,
    vars: Seq<(Seq<char>, Type)>,
    funcs: Seq<(Seq<char>, Type)>,
    in_loop: bool,
) -> Result<(Seq<(Seq<char>, Type)>, bool), Seq<char>>
    decreases s,
{
    match s {
        StatementView::Return(e) => match expr_fault(e, vars, funcs) {
            Some(m) => Err(m),
            None => if yields_pointer(e, vars, funcs) {
                Err("function return value must be an integer"@)
            } else {
                Ok((vars, true))
            },
        },
        StatementView::Declare(name, ty, init) => match expr_fault(init, vars, funcs) {
            Some(m) => Err(m),
            None => Ok((vars.push((name, ty)), false)),
        },
        StatementView::Assign(target, op, value) => if is_compound(op) {
            match lvalue_fault(target, vars, funcs) {
                Some(m) => Err(m),
                None => match expr_fault(value, vars, funcs) {
                    Some(m) => Err(m),
                    None => if yields_pointer(target, vars, funcs) || yields_pointer(
                        value,
                        vars,
                        funcs,
                    ) {
                        Err("expected integer operand"@)
                    } else {
                        Ok((vars, false))
                    },
                },
            }
        } else {
            match expr_fault(assigned_value(target, op, value), vars, funcs) {
                Some(m) => Err(m),
                None => match lvalue_fault(target, vars, funcs) {
                    Some(m) => Err(m),
                    None => Ok((vars, false)),
                },
            }
        },
        StatementView::Block(items) => match run_items(items, vars, funcs, in_loop) {
            Err(m) => Err(m),
            Ok((_, ends)) => Ok((vars, ends)),
        },
        StatementView::If(cond, then_branch, else_branch) => match expr_fault(cond, vars, funcs) {
            Some(m) => Err(m),
            None => if yields_pointer(cond, vars, funcs) {
                Err("if condition must be an integer"@)
            } else {
                match stmt_run(*then_branch, vars, funcs, in_loop) {
                    Err(m) => Err(m),
                    Ok((v1, _)) => match else_branch {
                        None => Ok((v1, false)),
                        Some(e) => match stmt_run(*e, v1, funcs, in_loop) {
                            Err(m) => Err(m),
                            Ok((v2, _)) => Ok((v2, false)),
                        },
                    },
                }
            },
        },
        StatementView::While(cond, body) => match expr_fault(cond, vars, funcs) {
            Some(m) => Err(m),
            None => if yields_pointer(cond, vars, funcs) {
                Err("while condition must be an integer"@)
            } else {
                match stmt_run(*body, vars, funcs, true) {
                    Err(m) => Err(m),
                    Ok((v1, _)) => Ok((v1, false)),
                }
            },
        },
        StatementView::For(init, cond, post, body) => {
            let first = match init {
                None => Ok((vars, false)),
                Some(i) => stmt_run(*i, vars, funcs, in_loop),
            };
            match first {
                Err(m) => Err(m),
                Ok((v1, _)) => {
                    match for_condition_fault(cond, v1, funcs) {
                        Some(m) => Err(m),
                        None => match stmt_run(*body, v1, funcs, true) {
                            Err(m) => Err(m),
                            Ok((v2, _)) => match post {
                                None => Ok((vars, false)),
                                Some(p) => match stmt_run(*p, v2, funcs, in_loop) {
                                    Err(m) => Err(m),
                                    Ok(_) => Ok((vars, false)),
                                },
                            },
                        },
                    }
                },
            }
        },
        StatementView::Break => if in_loop {
            Ok((vars, true))
        } else {
            Err(break_outside_loop_message())
        },
        StatementView::Continue => if in_loop {
            Ok((vars, true))
        } else {
            Err(continue_outside_loop_message())
        },
    }
}

/// The first error in the condition of a `for` loop, if it has one.
pub open spec fn for_condition_fault(
    cond: Option<ExprView>,
    vars: Seq<(Seq<char>, Type)>,
    funcs: Seq<(Seq<char>, Type)>,
) -> Option<Seq<char>> {
    match cond {
        None => None,
        Some(c) => match expr_fault(c, vars, funcs) {
            Some(m) => Some(m),
            None => if yields_pointer(c, vars, funcs) {
                Some("for condition must be an integer"@)
            } else {
                None
            },
        },
    }
}

/// Lowering a list of statements in order. Once one of them ends the block
/// with a jump, the rest are unreachable and are not lowered.
pub open spec fn run_items(
    items: Seq<StatementView>,
    vars: Seq<(Seq<char>, Type)>,
    funcs: Seq<(Seq<char>, Type)>,
    in_loop: bool,
) -> Result<(Seq<(Seq<char>, Type)>, bool), Seq<char>>
    decreases items,
{
    if items.len() == 0 {
        Ok((vars, false))
    } else {
        match stmt_run(items[0], vars, funcs, in_loop) {
            Err(m) => Err(m),
            Ok((v1, true)) => Ok((v1, true)),
            Ok((v1, false)) => run_items(items.drop_first(), v1, funcs, in_loop),
        }
    }
}

// ---------------------------------------------------------------------------
// Functions and programs
// ---------------------------------------------------------------------------

/// The function table: each function's name and return type, in source order.
pub open spec fn signatures(fs: Seq<ast::FunctionView>) -> Seq<(Seq<char>, Type)> {
    fs.map_values(|f: ast::FunctionView| (f.name, f.return_type))
}

/// The parameters of a function as the variables in scope at its start.
pub open spec fn parameter_scope(ps: Seq<ast::ParameterView>) -> Seq<(Seq<char>, Type)> {
    ps.map_values(|p: ast::ParameterView| (p.name, p.ty))
}

/// The first error met while lowering the body of `f`.
pub open spec fn function_fault(f: ast::FunctionView, funcs: Seq<(Seq<char>, Type)>) -> Option<
    Seq<char>,
> {
    match run_items(f.body, parameter_scope(f.params), funcs, false) {
        Err(m) => Some(m),
        Ok(_) => None,
    }
}

/// The first error met while lowering the functions in order.
pub open spec fn functions_fault(fs: Seq<ast::FunctionView>, funcs: Seq<(Seq<char>, Type)>) -> Option<
    Seq<char>,
>
    decreases fs.len(),
{
    if fs.len() == 0 {
        None
    } else {
        match function_fault(fs[0], funcs) {
            Some(m) => Some(m),
            None => functions_fault(fs.drop_first(), funcs),
        }
    }
}

pub open spec fn has_main(p: Seq<ast::FunctionView>) -> bool {
    exists|i: int| 0 <= i < p.len() && #[trigger] p[i].name == "main"@
}

/// The first error that lowering reports about the program itself: a
/// program without `main` is refused before anything else.
pub open spec fn program_fault(p: Seq<ast::FunctionView>) -> Option<Seq<char>> {
    if !has_main(p) {
        Some(missing_main_message())
    } else {
        functions_fault(p, signatures(p))
    }
}

// ---------------------------------------------------------------------------
// Errors
// ---------------------------------------------------------------------------

/// Why lowering failed: an error in the program itself, or a failure
/// reported by LLVM.
#[derive(Debug, Clone, PartialEq, Eq)]
pub enum CodegenError {
    Semantic(String),
    Llvm(String),
}

impl CodegenError {
    /// The message, whatever its kind.
    pub fn into_message(self) -> (r: String)
        ensures
            r@ == match self {
                CodegenError::Semantic(m) => m@,
                CodegenError::Llvm(m) => m@,
            },
    {
        match self {
            CodegenError::Semantic(m) => m,
            CodegenError::Llvm(m) => m,
        }
    }
}

/// The message of a failed lowering when the error lies in the program.
pub open spec fn semantic_error<T>(r: Result<T, CodegenError>) -> Option<Seq<char>> {
    match r {
        Err(CodegenError::Semantic(m)) => Some(m@),
        _ => None,
    }
}


fn llvm(message: &str) -> (r: CodegenError)
    ensures
        r matches CodegenError::Llvm(m) && m@ == message@,
{
    CodegenError::Llvm(String::from_str(message))
}

/// `before`, a name and `after`.
fn quoted(before: &str, name: &String, after: &str) -> (r: String)
    ensures
        r@ == before@ + name@ + after@,
{
    let mut m = String::from_str(before);
    m.append(name.as_str());
    m.append(after);
    m
}



// ---------------------------------------------------------------------------
// Tables
// ---------------------------------------------------------------------------

/// The function table, in source order.
pub open spec fn table_view(sigs: Seq<(String, Type)>) -> Seq<(Seq<char>, Type)> {
    sigs.map_values(|e: (String, Type)| (e.0@, e.1))
}

/// The signed LLVM comparison that a comparison operator compiles to.
pub open spec fn comparison_for(op: BinaryOp) -> Comparison {
    match op {
        BinaryOp::Equal => Comparison::Equal,
        BinaryOp::NotEqual => Comparison::NotEqual,
        BinaryOp::LessThan => Comparison::Less,
        BinaryOp::LessEqual => Comparison::LessOrEqual,
        BinaryOp::GreaterThan => Comparison::Greater,
        _ => Comparison::GreaterOrEqual,
    }
}

// ---------------------------------------------------------------------------
// Handing the code to LLVM
// ---------------------------------------------------------------------------

/// The LLVM name of a block.
pub open spec fn block_label(k: BlockKind) -> Seq<char> {
    match k {
        BlockKind::Entry => "entry"@,
        BlockKind::Return => "return"@,
        BlockKind::Then => "then"@,
        BlockKind::Else => "else"@,
        BlockKind::IfCont => "ifcont"@,
        BlockKind::WhileCond => "while.cond"@,
        BlockKind::WhileBody => "while.body"@,
        BlockKind::WhileCont => "while.cont"@,
        BlockKind::ForCond => "for.cond"@,
        BlockKind::ForBody => "for.body"@,
        BlockKind::ForStep => "for.step"@,
        BlockKind::ForCont => "for.cont"@,
        BlockKind::AndRhs => "and.rhs"@,
        BlockKind::AndMerge => "and.merge"@,
        BlockKind::OrRhs => "or.rhs"@,
        BlockKind::OrMerge => "or.merge"@,
        BlockKind::CondTrue => "cond.true"@,
        BlockKind::CondFalse => "cond.false"@,
        BlockKind::CondEnd => "cond.end"@,
    }
}

fn block_name(k: BlockKind) -> (r: &'static str)
    ensures
        r@ == block_label(k),
{
    match k {
        BlockKind::Entry => "entry",
        BlockKind::Return => "return",
        BlockKind::Then => "then",
        BlockKind::Else => "else",
        BlockKind::IfCont => "ifcont",
        BlockKind::WhileCond => "while.cond",
        BlockKind::WhileBody => "while.body",
        BlockKind::WhileCont => "while.cont",
        BlockKind::ForCond => "for.cond",
        BlockKind::ForBody => "for.body",
        BlockKind::ForStep => "for.step",
        BlockKind::ForCont => "for.cont",
        BlockKind::AndRhs => "and.rhs",
        BlockKind::AndMerge => "and.merge",
        BlockKind::OrRhs => "or.rhs",
        BlockKind::OrMerge => "or.merge",
        BlockKind::CondTrue => "cond.true",
        BlockKind::CondFalse => "cond.false",
        BlockKind::CondEnd => "cond.end",
    }
}

/// An operand names a constant or one of the first `len` steps.
pub open spec fn operand_before(o: Operand, len: nat) -> bool {
    match o {
        Operand::Reg(k) => k < len,
        _ => true,
    }
}

/// A step can follow `len` steps that created `blocks` blocks: its operands
/// name earlier steps and its blocks exist.
pub open spec fn step_fits(s: InstrView, len: nat, blocks: nat) -> bool {
    match s {
        InstrView::Position(b) => b < blocks,
        InstrView::Store { value, ptr } => operand_before(value, len) && operand_before(ptr, len),
        InstrView::StoreZero { ptr, .. } => operand_before(ptr, len),
        InstrView::Load { ptr, .. } => operand_before(ptr, len),
        InstrView::Neg { value } => operand_before(value, len),
        InstrView::Arith { lhs, rhs, .. } => operand_before(lhs, len) && operand_before(rhs, len),
        InstrView::Compare { lhs, rhs, .. } => operand_before(lhs, len) && operand_before(rhs, len),
        InstrView::ZExt { value, .. } => operand_before(value, len),
        InstrView::Br { target } => target < blocks,
        InstrView::CondBr { cond, then_block, else_block } => operand_before(cond, len)
            && then_block < blocks && else_block < blocks,
        InstrView::Phi { first, first_block, second, second_block, .. } => operand_before(first, len)
            && operand_before(second, len) && first_block < blocks && second_block < blocks,
        InstrView::Call { args, .. } => forall|i: int| 0 <= i < args.len() ==> operand_before(
            #[trigger] args[i],
            len,
        ),
        InstrView::Ret { value } => operand_before(value, len),
        _ => true,
    }
}

fn operand_fits(o: Operand, len: usize) -> (r: bool)
    ensures
        r == operand_before(o, len as nat),
{
    match o {
        Operand::Reg(k) => k < len,
        _ => true,
    }
}

fn step_fits_exec(step: &Instr, len: usize, blocks: usize) -> (r: bool)
    ensures
        r == step_fits(step@, len as nat, blocks as nat),
{
    match step {
        Instr::Position(b) => *b < blocks,
        Instr::Store { value, ptr } => operand_fits(*value, len) && operand_fits(*ptr, len),
        Instr::StoreZero { ptr, .. } => operand_fits(*ptr, len),
        Instr::Load { ptr, .. } => operand_fits(*ptr, len),
        Instr::Neg { value } => operand_fits(*value, len),
        Instr::Arith { lhs, rhs, .. } => operand_fits(*lhs, len) && operand_fits(*rhs, len),
        Instr::Compare { lhs, rhs, .. } => operand_fits(*lhs, len) && operand_fits(*rhs, len),
        Instr::ZExt { value, .. } => operand_fits(*value, len),
        Instr::Br { target } => *target < blocks,
        Instr::CondBr { cond, then_block, else_block } => operand_fits(*cond, len) && *then_block
            < blocks && *else_block < blocks,
        Instr::Phi { first, first_block, second, second_block, .. } => operand_fits(*first, len)
            && operand_fits(*second, len) && *first_block < blocks && *second_block < blocks,
        Instr::Call { callee, args } => {
            let mut i: usize = 0;
            while i < args.len()
                invariant
                    i <= args.len(),
                    step@ == (InstrView::Call { callee: callee@, args: args@ }),
                    forall|j: int| 0 <= j < i ==> operand_before(#[trigger] args@[j], len as nat),
                decreases args.len() - i,
            {
                if !operand_fits(args[i], len) {
                    assert(!operand_before(args@[i as int], len as nat));
                    assert(step@->args[i as int] == args@[i as int]);
                    assert(!step_fits(step@, len as nat, blocks as nat));
                    return false;
                }
                i += 1;
            }
            true
        },
        Instr::Ret { value } => operand_fits(*value, len),
        _ => true,
    }
}

/// Hands one step to LLVM: each step is one call of the emitter.
fn emit_step<'ctx>(e: &mut Emitter<'ctx>, step: &Instr) -> (r: Result<(), CodegenError>)
    requires
        building(handed(*old(e))),
        step_fits(step@, handed(*old(e)).last().len(), blocks_created(handed(*old(e)).last())),
    ensures
        r is Ok ==> handed(*final(e)) == record(handed(*old(e)), step@),
        r matches Err(x) ==> x is Llvm,
{
    let result = match step {
        Instr::NewBlock(k) => step_new_block(e, *k, block_name(*k)),
        Instr::Position(b) => step_position(e, *b),
        Instr::Alloca { ty, name } => step_alloca(e, ty, name),
        Instr::Param { index } => step_param(e, *index),
        Instr::Store { value, ptr } => step_store(e, *value, *ptr),
        Instr::StoreZero { ty, ptr } => step_store_zero(e, ty, *ptr),
        Instr::Load { ptr, name } => step_load(e, *ptr, name),
        Instr::Neg { value } => step_neg(e, *value),
        Instr::Arith { op, lhs, rhs } => match op {
            ArithOp::Add => step_add(e, *lhs, *rhs),
            ArithOp::Sub => step_sub(e, *lhs, *rhs),
            ArithOp::Mul => step_mul(e, *lhs, *rhs),
            ArithOp::SignedDiv => step_signed_div(e, *lhs, *rhs),
            ArithOp::SignedRem => step_signed_rem(e, *lhs, *rhs),
        },
        Instr::Compare { relation, lhs, rhs, name } => step_compare(e, *relation, *lhs, *rhs, name),
        Instr::ZExt { value, name } => step_zext(e, *value, name),
        Instr::Br { target } => step_br(e, *target),
        Instr::CondBr { cond, then_block, else_block } => step_cond_br(
            e,
            *cond,
            *then_block,
            *else_block,
        ),
        Instr::Phi { name, first, first_block, second, second_block } => step_phi(
            e,
            name,
            *first,
            *first_block,
            *second,
            *second_block,
        ),
        Instr::Call { callee, args } => {
            assert(step@ == (InstrView::Call { callee: callee@, args: args@ }));
            assert forall|i: int| 0 <= i < args.len() implies operand_in(
                handed(*e),
                #[trigger] args@[i],
            ) by {
                assert(step@->args[i] == args@[i]);
                assert(operand_before(args@[i], handed(*e).last().len()));
            }
            step_call(e, callee, args)
        },
        Instr::Ret { value } => step_ret(e, *value),
    };
    match result {
        Ok(()) => Ok(()),
        Err(m) => Err(CodegenError::Llvm(m)),
    }
}

proof fn lemma_blocks_created_push(s: Seq<InstrView>, x: InstrView)
    ensures
        blocks_created(s.push(x)) == blocks_created(s) + if x is NewBlock {
            1nat
        } else {
            0nat
        },
{
    assert(s.push(x).drop_last() =~= s);
}

/// Hands the code of a function to LLVM, step by step, and has LLVM check
/// the function.
fn emit_function<'ctx>(e: &mut Emitter<'ctx>, func: &IrFunction) -> (r: Result<(), CodegenError>)
    ensures
        r is Ok ==> handed(*final(e)) == handed(*old(e)).push(instrs_view(func.code@)),
        r matches Err(x) ==> x is Llvm,
{
    if !begin_function(e, func.name.as_str()) {
        return Err(
            CodegenError::Llvm(quoted("failed to find declared LLVM function '", &func.name, "'")),
        );
    }
    let ghost before = handed(*old(e));
    let ghost code = instrs_view(func.code@);
    let mut blocks: usize = 0;
    let mut i: usize = 0;
    proof {
        assert(code.take(0) =~= Seq::<InstrView>::empty());
    }
    while i < func.code.len()
        invariant
            i <= func.code.len(),
            code == instrs_view(func.code@),
            code.len() == func.code.len(),
            handed(*e) == before.push(code.take(i as int)),
            blocks == blocks_created(code.take(i as int)),
            blocks <= i,
        decreases func.code.len() - i,
    {
        let ghost h = handed(*e);
        assert(h.last() == code.take(i as int));
        assert(code[i as int] == func.code@[i as int]@);
        if !step_fits_exec(&func.code[i], i, blocks) {
            return Err(llvm("a step names a value or block that does not exist"));
        }
        let new_block = matches!(func.code[i], Instr::NewBlock(_));
        emit_step(e, &func.code[i])?;
        proof {
            assert(code.take(i + 1) =~= code.take(i as int).push(code[i as int]));
            assert(h.drop_last() =~= before);
            lemma_blocks_created_push(code.take(i as int), code[i as int]);
        }
        if new_block {
            blocks = blocks + 1;
        }
        i += 1;
    }
    proof {
        assert(code.take(i as int) =~= code);
    }
    if !verify_current_function(e) {
        return Err(
            CodegenError::Llvm(quoted("LLVM verification failed for function '", &func.name, "'")),
        );
    }
    Ok(())
}

/// The code of each function of a module, in order.
pub open spec fn module_code(m: Seq<IrFunctionView>) -> Seq<Seq<InstrView>> {
    m.map_values(|f: IrFunctionView| f.code)
}

/// Hands the code of every function of a module to LLVM, in order: on
/// success, the steps handed over are exactly the module's code.
fn emit_functions<'ctx>(e: &mut Emitter<'ctx>, ir: &IrModule) -> (r: Result<(), CodegenError>)
    ensures
        r is Ok ==> handed(*final(e)) == handed(*old(e)) + module_code(ir@),
        r matches Err(x) ==> x is Llvm,
{
    let ghost before = handed(*old(e));
    let mut i: usize = 0;
    proof {
        assert(before + module_code(ir@).take(0) =~= before);
    }
    while i < ir.functions.len()
        invariant
            i <= ir.functions.len(),
            handed(*e) == before + module_code(ir@).take(i as int),
        decreases ir.functions.len() - i,
    {
        emit_function(e, &ir.functions[i])?;
        proof {
            assert(module_code(ir@)[i as int] == instrs_view(ir.functions@[i as int].code@));
            assert(before + module_code(ir@).take(i + 1) =~= (before + module_code(ir@).take(
                i as int,
            )).push(module_code(ir@)[i as int]));
        }
        i += 1;
    }
    proof {
        assert(module_code(ir@).take(i as int) =~= module_code(ir@));
    }
    Ok(())
}

/// Hands a module's code to LLVM for the host target and gives the text of
/// the LLVM module: on success, the text that LLVM prints for a module that
/// was handed exactly the module's code. Every failure here is LLVM's.
fn emit_module(ir: &IrModule) -> (r: Result<String, CodegenError>)
    ensures
        r matches Ok(text) ==> emitted(module_code(ir@), text@),
        r matches Err(x) ==> x is Llvm,
{
    if let Err(e) = initialize_native_target() {
        return Err(
            CodegenError::Llvm(quoted("failed to initialize LLVM target support: ", &e, "")),
        );
    }
    let context = create_context();
    let module = create_module(&context, "rcc_module");
    let builder = create_builder(&context);
    let triple = default_triple();
    set_triple(&module, &triple);
    let target = match target_from_triple(&triple) {
        Ok(t) => t,
        Err(e) => return Err(
            CodegenError::Llvm(quoted("failed to resolve target from triple: ", &e, "")),
        ),
    };
    let machine = match create_target_machine(&target, &triple, "generic", "") {
        Some(m) => m,
        None => return Err(llvm("failed to create LLVM target machine")),
    };
    let data = target_data(&machine);
    let layout = data_layout(&data);
    set_data_layout(&module, &layout);
    let mut e = new_emitter(&context, module, builder);
    let mut i: usize = 0;
    while i < ir.functions.len()
        invariant
            handed(e) == Seq::<Seq<InstrView>>::empty(),
        decreases ir.functions.len() - i,
    {
        let f = &ir.functions[i];
        declare_function(&mut e, f.name.as_str(), &f.return_type, &f.params);
        i += 1;
    }
    emit_functions(&mut e, ir)?;
    assert(handed(e) =~= module_code(ir@));
    if verify_emitted_module(&e).is_err() {
        return Err(llvm("generated LLVM module did not verify"));
    }
    let text = print_emitted_module(&e);
    assert(handed(e) == module_code(ir@) && printed(e) == text@);
    Ok(text)
}

/// Lowers a program to the text of an LLVM module for the host target.
///
/// The program is first lowered to its code ([`lower_to_ir`], which gives
/// exactly `lowered(program@)`), and fails there with the first error in the
/// program (`Semantic`); the code is then handed to LLVM step by step, and
/// any failure after that is LLVM's (`Llvm`). On success the text is what
/// LLVM prints for a module that was handed exactly the program's code.
pub fn lower_program(program: &Program) -> (r: Result<String, CodegenError>)
    ensures
        r is Ok ==> program_fault(program@) is None,
        semantic_error(r) == program_fault(program@),
        r matches Ok(text) ==> emitted(module_code(lowered(program@)), text@),
{
    let ir = match lower_to_ir(program) {
        Ok(ir) => ir,
        Err(m) => return Err(CodegenError::Semantic(m)),
    };
    emit_module(&ir)
}

/// Lowers a program to the text of an LLVM module, reporting any failure
/// by its message. See [`lower_program`].
pub fn generate_ir(program: &Program) -> (r: Result<String, String>)
    ensures
        r is Ok ==> program_fault(program@) is None,
        program_fault(program@) matches Some(m) ==> (r matches Err(e) && e@ == m),
        r matches Ok(text) ==> emitted(module_code(lowered(program@)), text@),
{
    match lower_program(program) {
        Ok(ir) => Ok(ir),
        Err(e) => Err(e.into_message()),
    }
}

} // verus!

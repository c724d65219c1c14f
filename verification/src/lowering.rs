//! Lowering of the syntax tree to the instruction sequences of [`crate::ir`]:
//! which instructions, on which operands, in which blocks, in which order.
//! Each lowering step also finds the first error in the program, as
//! [`crate::codegen`] specifies.
use vstd::prelude::*;
use crate::ast;
use crate::ast::{BinaryOp, Expr, ExprView, Program, Statement, StatementView, Type, UnaryOp};
use crate::codegen::{
    args_fault, comparison_for, for_condition_fault, expr_fault, expr_type, function_fault, functions_fault, has_main,
    is_compound, lookup, lvalue_fault, program_fault, run_items, signatures, stmt_run,
    table_view, yields_pointer, missing_main_message, undefined_function_message,
    undefined_variable_message, break_outside_loop_message, continue_outside_loop_message,
    parameter_scope, assigned_value,
};
use crate::ir::{ArithOp, BlockKind, Comparison, Instr, InstrView, IrFunction, IrFunctionView, IrModule, Operand};

verus! {

// ---------------------------------------------------------------------------
// The state of lowering one function
// ---------------------------------------------------------------------------

/// The code so far, the number of blocks created, and the block that new
/// instructions go to.
#[verifier::ext_equal]
pub struct Lowering {
    pub code: Seq<InstrView>,
    pub blocks: nat,
    pub current: nat,
}

/// The operand that the next instruction will yield.
pub open spec fn next_value(st: Lowering) -> Operand {
    Operand::Reg(st.code.len() as usize)
}

pub open spec fn emit(st: Lowering, i: InstrView) -> Lowering {
    Lowering { code: st.code.push(i), blocks: st.blocks, current: st.current }
}

/// Creates a block; it is numbered `st.blocks`.
pub open spec fn new_block(st: Lowering, k: BlockKind) -> Lowering {
    Lowering { code: st.code.push(InstrView::NewBlock(k)), blocks: st.blocks + 1, current: st.current }
}

pub open spec fn position(st: Lowering, b: nat) -> Lowering {
    Lowering { code: st.code.push(InstrView::Position(b)), blocks: st.blocks, current: b }
}

/// A variable in scope: its name, its type and the instruction that made its slot.
pub type Slot = (Seq<char>, Type, nat);

pub open spec fn slot_names(vars: Seq<Slot>) -> Seq<(Seq<char>, Type)> {
    vars.map_values(|v: Slot| (v.0, v.1))
}

/// The slot of the variable that `name` denotes.
pub open spec fn lookup_slot(vars: Seq<Slot>, name: Seq<char>) -> nat
    decreases vars.len(),
{
    if vars.len() == 0 {
        0
    } else if vars.last().0 == name {
        vars.last().2
    } else {
        lookup_slot(vars.drop_last(), name)
    }
}

// ---------------------------------------------------------------------------
// Expressions
// ---------------------------------------------------------------------------

/// `lo op ro` for an operator that is neither `&&` nor `||`.
pub open spec fn apply_binary(op: BinaryOp, lo: Operand, ro: Operand, st: Lowering) -> (
    Lowering,
    Operand,
) {
    let arith = match op {
        BinaryOp::Add => Some(ArithOp::Add),
        BinaryOp::Subtract => Some(ArithOp::Sub),
        BinaryOp::Multiply => Some(ArithOp::Mul),
        BinaryOp::Divide => Some(ArithOp::SignedDiv),
        BinaryOp::Modulo => Some(ArithOp::SignedRem),
        _ => None,
    };
    match arith {
        Some(a) => (emit(st, InstrView::Arith { op: a, lhs: lo, rhs: ro }), next_value(st)),
        None => {
            let s1 = emit(
                st,
                InstrView::Compare { relation: comparison_for(op), lhs: lo, rhs: ro, name: "cmptmp"@ },
            );
            (emit(s1, InstrView::ZExt { value: next_value(st), name: "casttmp"@ }), next_value(s1))
        },
    }
}

/// The code of an expression and the operand holding its value.
pub open spec fn lower_expr(e: ExprView, vars: Seq<Slot>, st: Lowering) -> (Lowering, Operand)
    decreases e,
{
    match e {
        ExprView::IntegerLiteral(v) => (st, Operand::Int(v)),
        ExprView::Variable(name) => (
            emit(
                st,
                InstrView::Load { ptr: Operand::Reg(lookup_slot(vars, name) as usize), name },
            ),
            next_value(st),
        ),
        ExprView::Unary(op, inner) => if op == UnaryOp::AddrOf {
            lower_place(*inner, vars, st)
        } else {
            let (s1, o) = lower_expr(*inner, vars, st);
            if op == UnaryOp::Deref {
                (emit(s1, InstrView::Load { ptr: o, name: "dereftmp"@ }), next_value(s1))
            } else if op == UnaryOp::Negate {
                (emit(s1, InstrView::Neg { value: o }), next_value(s1))
            } else if op == UnaryOp::LogicalNot {
                let s2 = emit(
                    s1,
                    InstrView::Compare {
                        relation: Comparison::Equal,
                        lhs: o,
                        rhs: Operand::Int(0),
                        name: "nottmp"@,
                    },
                );
                (emit(s2, InstrView::ZExt { value: next_value(s1), name: "casttmp"@ }), next_value(s2))
            } else {
                (s1, o)
            }
        },
        ExprView::Binary(l, op, r) => if op == BinaryOp::LogicalAnd || op == BinaryOp::LogicalOr {
            let is_and = op == BinaryOp::LogicalAnd;
            let (s1, lo) = lower_expr(*l, vars, st);
            let s2 = emit(
                s1,
                InstrView::Compare {
                    relation: Comparison::NotEqual,
                    lhs: lo,
                    rhs: Operand::Int(0),
                    name: "lhs_true"@,
                },
            );
            let start = s2.current;
            let rhs_block = s2.blocks;
            let merge_block = s2.blocks + 1;
            let s3 = new_block(
                new_block(s2, if is_and { BlockKind::AndRhs } else { BlockKind::OrRhs }),
                if is_and { BlockKind::AndMerge } else { BlockKind::OrMerge },
            );
            let s4 = emit(
                s3,
                if is_and {
                    InstrView::CondBr { cond: next_value(s1), then_block: rhs_block, else_block: merge_block }
                } else {
                    InstrView::CondBr { cond: next_value(s1), then_block: merge_block, else_block: rhs_block }
                },
            );
            let s5 = position(s4, rhs_block);
            let (s6, ro) = lower_expr(*r, vars, s5);
            let s7 = emit(
                s6,
                InstrView::Compare {
                    relation: Comparison::NotEqual,
                    lhs: ro,
                    rhs: Operand::Int(0),
                    name: "rhs_true"@,
                },
            );
            let s8 = emit(s7, InstrView::ZExt { value: next_value(s6), name: "rhs_cast"@ });
            let s9 = emit(s8, InstrView::Br { target: merge_block });
            let s10 = position(s9, merge_block);
            (
                emit(
                    s10,
                    InstrView::Phi {
                        name: if is_and { "and.result"@ } else { "or.result"@ },
                        first: Operand::Int(if is_and { 0 } else { 1 }),
                        first_block: start,
                        second: next_value(s7),
                        second_block: s6.current,
                    },
                ),
                next_value(s10),
            )
        } else {
            let (s1, lo) = lower_expr(*l, vars, st);
            let (s2, ro) = lower_expr(*r, vars, s1);
            apply_binary(op, lo, ro, s2)
        },
        ExprView::Call(name, args) => {
            let (s1, os) = lower_args(args, vars, st);
            (emit(s1, InstrView::Call { callee: name, args: os }), next_value(s1))
        },
        ExprView::Conditional(c, a, e2) => {
            let (s1, co) = lower_expr(*c, vars, st);
            let s2 = emit(
                s1,
                InstrView::Compare {
                    relation: Comparison::NotEqual,
                    lhs: co,
                    rhs: Operand::Int(0),
                    name: "condtmp"@,
                },
            );
            let true_block = s2.blocks;
            let s3 = new_block(
                new_block(new_block(s2, BlockKind::CondTrue), BlockKind::CondFalse),
                BlockKind::CondEnd,
            );
            let s4 = emit(
                s3,
                InstrView::CondBr {
                    cond: next_value(s1),
                    then_block: true_block,
                    else_block: true_block + 1,
                },
            );
            let s5 = position(s4, true_block);
            let (s6, ao) = lower_expr(*a, vars, s5);
            let s7 = emit(s6, InstrView::Br { target: true_block + 2 });
            let s8 = position(s7, true_block + 1);
            let (s9, eo) = lower_expr(*e2, vars, s8);
            let s10 = emit(s9, InstrView::Br { target: true_block + 2 });
            let s11 = position(s10, true_block + 2);
            (
                emit(
                    s11,
                    InstrView::Phi {
                        name: "cond.result"@,
                        first: ao,
                        first_block: s6.current,
                        second: eo,
                        second_block: s9.current,
                    },
                ),
                next_value(s11),
            )
        },
    }
}

/// The code of an expression as a place, and the operand holding its address.
pub open spec fn lower_place(e: ExprView, vars: Seq<Slot>, st: Lowering) -> (Lowering, Operand)
    decreases e,
{
    match e {
        ExprView::Variable(name) => (st, Operand::Reg(lookup_slot(vars, name) as usize)),
        ExprView::Unary(UnaryOp::Deref, inner) => lower_expr(*inner, vars, st),
        _ => (st, Operand::Int(0)),
    }
}

/// The code of call arguments, left to right, and their operands.
pub open spec fn lower_args(args: Seq<ExprView>, vars: Seq<Slot>, st: Lowering) -> (
    Lowering,
    Seq<Operand>,
)
    decreases args,
{
    if args.len() == 0 {
        (st, Seq::empty())
    } else {
        let (s1, o) = lower_expr(args[0], vars, st);
        let (s2, os) = lower_args(args.drop_first(), vars, s1);
        (s2, seq![o] + os)
    }
}

// ---------------------------------------------------------------------------
// Statements
// ---------------------------------------------------------------------------

/// The slot of a function's return value: the first instruction after the
/// two blocks are created and the entry block is entered.
pub open spec fn retval_slot() -> Operand {
    Operand::Reg(3)
}

/// The block that every `return` jumps to.
pub open spec fn return_block() -> nat {
    1
}

/// The name of the load that reads the place an `op=` assignment updates.
pub open spec fn place_name(target: ExprView) -> Seq<char> {
    match target {
        ExprView::Variable(name) => name,
        _ => "dereftmp"@,
    }
}

/// The code of a statement, the variables in scope after it, and whether it
/// ends its block with a jump. `loops` holds where `break` and `continue`
/// jump to in each enclosing loop, innermost last.
pub open spec fn lower_stmt(
    s: StatementView,
    vars: Seq<Slot>,
    loops: Seq<(nat, nat)>,
    st: Lowering,
) -> (Lowering, Seq<Slot>, bool)
    decreases s,
{
    match s {
        StatementView::Return(e) => {
            let (s1, o) = lower_expr(e, vars, st);
            let s2 = emit(s1, InstrView::Store { value: o, ptr: retval_slot() });
            (emit(s2, InstrView::Br { target: return_block() }), vars, true)
        },
        StatementView::Declare(name, ty, init) => {
            let (s1, o) = lower_expr(init, vars, st);
            let s2 = emit(s1, InstrView::Alloca { ty, name });
            (
                emit(s2, InstrView::Store { value: o, ptr: next_value(s1) }),
                vars.push((name, ty, s1.code.len())),
                false,
            )
        },
        StatementView::Assign(target, op, value) => if is_compound(op) {
            let o = match op {
                Some(o) => o,
                None => BinaryOp::Add,
            };
            let (s1, p) = lower_place(target, vars, st);
            let s2 = emit(s1, InstrView::Load { ptr: p, name: place_name(target) });
            let (s3, v) = lower_expr(value, vars, s2);
            let (s4, res) = apply_binary(o, next_value(s1), v, s3);
            (emit(s4, InstrView::Store { value: res, ptr: p }), vars, false)
        } else {
            let (s1, v) = lower_expr(assigned_value(target, op, value), vars, st);
            let (s2, p) = lower_place(target, vars, s1);
            (emit(s2, InstrView::Store { value: v, ptr: p }), vars, false)
        },
        StatementView::Block(items) => {
            let (s1, _, ends) = lower_items(items, vars, loops, st);
            (s1, vars, ends)
        },
        StatementView::If(cond, then_branch, else_branch) => {
            let (s1, o) = lower_expr(cond, vars, st);
            let s2 = emit(
                s1,
                InstrView::Compare {
                    relation: Comparison::NotEqual,
                    lhs: o,
                    rhs: Operand::Int(0),
                    name: "ifcond"@,
                },
            );
            let then_block = s2.blocks;
            let else_block = s2.blocks + 1;
            let merge_block = s2.blocks + 2;
            let s3 = new_block(
                new_block(new_block(s2, BlockKind::Then), BlockKind::Else),
                BlockKind::IfCont,
            );
            let s4 = emit(s3, InstrView::CondBr { cond: next_value(s1), then_block, else_block });
            let (s5, v1, e1) = lower_stmt(*then_branch, vars, loops, position(s4, then_block));
            let s6 = if e1 { s5 } else { emit(s5, InstrView::Br { target: merge_block }) };
            let (s7, v2, e2) = match else_branch {
                Some(e) => lower_stmt(*e, v1, loops, position(s6, else_block)),
                None => (position(s6, else_block), v1, false),
            };
            let s8 = if e2 { s7 } else { emit(s7, InstrView::Br { target: merge_block }) };
            (position(s8, merge_block), v2, false)
        },
        StatementView::While(cond, body) => {
            let cond_block = st.blocks;
            let body_block = st.blocks + 1;
            let merge_block = st.blocks + 2;
            let s1 = new_block(
                new_block(new_block(st, BlockKind::WhileCond), BlockKind::WhileBody),
                BlockKind::WhileCont,
            );
            let s2 = position(emit(s1, InstrView::Br { target: cond_block }), cond_block);
            let (s3, o) = lower_expr(cond, vars, s2);
            let s4 = emit(
                s3,
                InstrView::Compare {
                    relation: Comparison::NotEqual,
                    lhs: o,
                    rhs: Operand::Int(0),
                    name: "whilecond"@,
                },
            );
            let s5 = emit(
                s4,
                InstrView::CondBr {
                    cond: next_value(s3),
                    then_block: body_block,
                    else_block: merge_block,
                },
            );
            let (s6, v1, e1) = lower_stmt(
                *body,
                vars,
                loops.push((merge_block, cond_block)),
                position(s5, body_block),
            );
            let s7 = if e1 { s6 } else { emit(s6, InstrView::Br { target: cond_block }) };
            (position(s7, merge_block), v1, false)
        },
        StatementView::For(init, cond, post, body) => {
            let (s1, v1, _) = match init {
                Some(i) => lower_stmt(*i, vars, loops, st),
                None => (st, vars, false),
            };
            let cond_block = s1.blocks;
            let body_block = s1.blocks + 1;
            let step_block = s1.blocks + 2;
            let merge_block = s1.blocks + 3;
            let s2 = new_block(
                new_block(
                    new_block(new_block(s1, BlockKind::ForCond), BlockKind::ForBody),
                    BlockKind::ForStep,
                ),
                BlockKind::ForCont,
            );
            let s3 = position(emit(s2, InstrView::Br { target: cond_block }), cond_block);
            let (s4, test) = lower_for_condition(cond, v1, s3);
            let s5 = emit(
                s4,
                InstrView::CondBr { cond: test, then_block: body_block, else_block: merge_block },
            );
            let (s6, v2, e1) = lower_stmt(
                *body,
                v1,
                loops.push((merge_block, step_block)),
                position(s5, body_block),
            );
            let s7 = if e1 { s6 } else { emit(s6, InstrView::Br { target: step_block }) };
            let s8 = position(s7, step_block);
            let s9 = match post {
                Some(p) => lower_stmt(*p, v2, loops, s8).0,
                None => s8,
            };
            let s10 = emit(s9, InstrView::Br { target: cond_block });
            (position(s10, merge_block), vars, false)
        },
        StatementView::Break => (emit(st, InstrView::Br { target: loops.last().0 }), vars, true),
        StatementView::Continue => (emit(st, InstrView::Br { target: loops.last().1 }), vars, true),
    }
}

/// The code of the condition of a `for` loop and its `i1` operand; with no
/// condition, `true`.
pub open spec fn lower_for_condition(cond: Option<ExprView>, vars: Seq<Slot>, st: Lowering) -> (
    Lowering,
    Operand,
) {
    match cond {
        Some(c) => {
            let (t1, o) = lower_expr(c, vars, st);
            (
                emit(
                    t1,
                    InstrView::Compare {
                        relation: Comparison::NotEqual,
                        lhs: o,
                        rhs: Operand::Int(0),
                        name: "forcond"@,
                    },
                ),
                next_value(t1),
            )
        },
        None => (st, Operand::True),
    }
}

/// The code of statements in order, up to the first that ends its block.
pub open spec fn lower_items(
    items: Seq<StatementView>,
    vars: Seq<Slot>,
    loops: Seq<(nat, nat)>,
    st: Lowering,
) -> (Lowering, Seq<Slot>, bool)
    decreases items,
{
    if items.len() == 0 {
        (st, vars, false)
    } else {
        let (s1, v1, e1) = lower_stmt(items[0], vars, loops, st);
        if e1 {
            (s1, v1, true)
        } else {
            lower_items(items.drop_first(), v1, loops, s1)
        }
    }
}

// ---------------------------------------------------------------------------
// Functions and programs
// ---------------------------------------------------------------------------

/// The code that copies each parameter into a stack slot of its own.
pub open spec fn lower_params(ps: Seq<ast::ParameterView>, i: nat, vars: Seq<Slot>, st: Lowering) -> (
    Lowering,
    Seq<Slot>,
)
    decreases ps.len(),
{
    if ps.len() == 0 {
        (st, vars)
    } else {
        let s1 = emit(st, InstrView::Param { index: i });
        let s2 = emit(s1, InstrView::Alloca { ty: ps[0].ty, name: ps[0].name });
        let s3 = emit(s2, InstrView::Store { value: next_value(st), ptr: next_value(s1) });
        lower_params(ps.drop_first(), i + 1, vars.push((ps[0].name, ps[0].ty, s1.code.len())), s3)
    }
}

/// The code of a function: the entry and return blocks, the return slot
/// set to zero, the parameters' slots, the body, and the return of the slot.
pub open spec fn lower_function(f: ast::FunctionView) -> IrFunctionView {
    let s0 = Lowering { code: Seq::empty(), blocks: 0, current: 0 };
    let s1 = position(new_block(new_block(s0, BlockKind::Entry), BlockKind::Return), 0);
    let s2 = emit(s1, InstrView::Alloca { ty: f.return_type, name: "retval"@ });
    let s3 = emit(s2, InstrView::StoreZero { ty: f.return_type, ptr: retval_slot() });
    let (s4, vars) = lower_params(f.params, 0, Seq::empty(), s3);
    let (s5, _, ends) = lower_items(f.body, vars, Seq::empty(), s4);
    let s6 = if ends { s5 } else { emit(s5, InstrView::Br { target: return_block() }) };
    let s7 = position(s6, return_block());
    let s8 = emit(s7, InstrView::Load { ptr: retval_slot(), name: "retval"@ });
    let s9 = emit(s8, InstrView::Ret { value: next_value(s7) });
    IrFunctionView {
        name: f.name,
        return_type: f.return_type,
        params: f.params.map_values(|p: ast::ParameterView| p.ty),
        code: s9.code,
    }
}

/// The code of a program: its functions' code, in source order.
pub open spec fn lowered(p: Seq<ast::FunctionView>) -> Seq<IrFunctionView> {
    p.map_values(|f: ast::FunctionView| lower_function(f))
}

// ---------------------------------------------------------------------------
// The builder of a function's code
// ---------------------------------------------------------------------------

struct CodeBuilder {
    code: Vec<Instr>,
    blocks: usize,
    current: usize,
}

impl View for CodeBuilder {
    type V = Lowering;

    closed spec fn view(&self) -> Lowering {
        Lowering {
            code: crate::ir::instrs_view(self.code@),
            blocks: self.blocks as nat,
            current: self.current as nat,
        }
    }
}

impl CodeBuilder {
    spec fn wf(&self) -> bool {
        self.blocks <= self.code.len()
    }

    fn new() -> (r: Self)
        ensures
            r.wf(),
            r@ == (Lowering { code: Seq::empty(), blocks: 0, current: 0 }),
    {
        let r = CodeBuilder { code: Vec::new(), blocks: 0, current: 0 };
        assert(r@.code =~= Seq::<InstrView>::empty());
        r
    }

    fn emit_instr(&mut self, i: Instr) -> (r: Operand)
        requires
            old(self).wf(),
        ensures
            final(self).wf(),
            final(self)@ == emit(old(self)@, i@),
            r == next_value(old(self)@),
    {
        let r = Operand::Reg(self.code.len());
        let ghost before = self.code@;
        self.code.push(i);
        proof {
            assert(crate::ir::instrs_view(self.code@) =~= crate::ir::instrs_view(before).push(i@));
        }
        r
    }

    fn new_block(&mut self, k: BlockKind) -> (r: usize)
        requires
            old(self).wf(),
        ensures
            final(self).wf(),
            final(self)@ == new_block(old(self)@, k),
            r == old(self)@.blocks,
    {
        let r = self.blocks;
        let ghost before = self.code@;
        self.code.push(Instr::NewBlock(k));
        let n = self.code.len();
        assert(self.blocks < n);
        self.blocks = self.blocks + 1;
        proof {
            assert(crate::ir::instrs_view(self.code@) =~= crate::ir::instrs_view(before).push(
                InstrView::NewBlock(k),
            ));
        }
        r
    }

    fn position(&mut self, b: usize)
        requires
            old(self).wf(),
        ensures
            final(self).wf(),
            final(self)@ == position(old(self)@, b as nat),
    {
        let ghost before = self.code@;
        self.code.push(Instr::Position(b));
        self.current = b;
        proof {
            assert(crate::ir::instrs_view(self.code@) =~= crate::ir::instrs_view(before).push(
                InstrView::Position(b as nat),
            ));
        }
    }
}

// ---------------------------------------------------------------------------
// Scopes
// ---------------------------------------------------------------------------

/// A variable in scope: its name, its type and the instruction that made its slot.
struct Binding {
    name: String,
    ty: Type,
    slot: usize,
}

spec fn scope_view(bs: Seq<Binding>) -> Seq<(Seq<char>, Type)> {
    bs.map_values(|b: Binding| (b.name@, b.ty))
}

spec fn slots_view(bs: Seq<Binding>) -> Seq<Slot> {
    bs.map_values(|b: Binding| (b.name@, b.ty, b.slot as nat))
}

proof fn lemma_lookup_at(bs: Seq<Binding>, name: Seq<char>, i: int)
    requires
        0 <= i < bs.len(),
        bs[i].name@ == name,
        forall|j: int| i < j < bs.len() ==> bs[j].name@ != name,
    ensures
        lookup(scope_view(bs), name) == Some(bs[i].ty),
        lookup_slot(slots_view(bs), name) == bs[i].slot as nat,
    decreases bs.len(),
{
    if i < bs.len() - 1 {
        lemma_lookup_at(bs.drop_last(), name, i);
        assert(scope_view(bs.drop_last()) =~= scope_view(bs).drop_last());
        assert(slots_view(bs.drop_last()) =~= slots_view(bs).drop_last());
    }
}

proof fn lemma_lookup_absent(bs: Seq<Binding>, name: Seq<char>)
    requires
        forall|j: int| 0 <= j < bs.len() ==> bs[j].name@ != name,
    ensures
        lookup(scope_view(bs), name) is None,
    decreases bs.len(),
{
    if bs.len() > 0 {
        lemma_lookup_absent(bs.drop_last(), name);
        assert(scope_view(bs.drop_last()) =~= scope_view(bs).drop_last());
    }
}

/// The variable that `name` denotes: the innermost, latest declaration.
fn lookup_variable<'a>(name: &String, vars: &'a Vec<Binding>) -> (r: Option<&'a Binding>)
    ensures
        match r {
            Some(b) => lookup(scope_view(vars@), name@) == Some(b.ty) && lookup_slot(
                slots_view(vars@),
                name@,
            ) == b.slot as nat,
            None => lookup(scope_view(vars@), name@) is None,
        },
{
    let mut i = vars.len();
    while i > 0
        invariant
            i <= vars.len(),
            forall|j: int| i <= j < vars.len() ==> vars@[j].name@ != name@,
        decreases i,
    {
        i = i - 1;
        if vars[i].name == *name {
            proof {
                lemma_lookup_at(vars@, name@, i as int);
            }
            return Some(&vars[i]);
        }
    }
    proof {
        lemma_lookup_absent(vars@, name@);
    }
    None
}

proof fn lemma_table_lookup_at(entries: Seq<(Seq<char>, Type)>, name: Seq<char>, i: int)
    requires
        0 <= i < entries.len(),
        entries[i].0 == name,
        forall|j: int| i < j < entries.len() ==> entries[j].0 != name,
    ensures
        lookup(entries, name) == Some(entries[i].1),
    decreases entries.len(),
{
    if i < entries.len() - 1 {
        lemma_table_lookup_at(entries.drop_last(), name, i);
    }
}

proof fn lemma_table_lookup_absent(entries: Seq<(Seq<char>, Type)>, name: Seq<char>)
    requires
        forall|j: int| 0 <= j < entries.len() ==> entries[j].0 != name,
    ensures
        lookup(entries, name) is None,
    decreases entries.len(),
{
    if entries.len() > 0 {
        lemma_table_lookup_absent(entries.drop_last(), name);
    }
}

/// The return type of the function that `name` denotes.
fn lookup_function(name: &String, sigs: &Vec<(String, Type)>) -> (r: Option<Type>)
    ensures
        r == lookup(table_view(sigs@), name@),
{
    let ghost view = table_view(sigs@);
    let mut i = sigs.len();
    while i > 0
        invariant
            i <= sigs.len(),
            view == table_view(sigs@),
            forall|j: int| i <= j < sigs.len() ==> view[j].0 != name@,
        decreases i,
    {
        i = i - 1;
        if sigs[i].0 == *name {
            proof {
                lemma_table_lookup_at(view, name@, i as int);
            }
            return Some(ast::copy_type(&sigs[i].1));
        }
    }
    proof {
        lemma_table_lookup_absent(view, name@);
    }
    None
}

fn undefined_variable_text(name: &String) -> (r: String)
    ensures
        r@ == undefined_variable_message(name@),
{
    let mut m = String::from_str("undefined variable '");
    m.append(name.as_str());
    m.append("'");
    m
}

fn undefined_function_text(name: &String) -> (r: String)
    ensures
        r@ == undefined_function_message(name@),
{
    let mut m = String::from_str("undefined function '");
    m.append(name.as_str());
    m.append("'");
    m
}

/// The static type of an expression.
fn type_of_expr(expr: &Expr, vars: &Vec<Binding>, sigs: &Vec<(String, Type)>) -> (r: Result<
    Type,
    String,
>)
    ensures
        match r {
            Ok(t) => expr_type(expr@, scope_view(vars@), table_view(sigs@)) == Ok::<
                Type,
                Seq<char>,
            >(t),
            Err(m) => expr_type(expr@, scope_view(vars@), table_view(sigs@)) == Err::<
                Type,
                Seq<char>,
            >(m@),
        },
    decreases expr,
{
    match expr {
        Expr::IntegerLiteral(_) => Ok(Type::Int),
        Expr::Variable(var) => match lookup_variable(&var.name, vars) {
            Some(b) => Ok(ast::copy_type(&b.ty)),
            None => Err(undefined_variable_text(&var.name)),
        },
        Expr::Unary(unary) => match unary.operator {
            UnaryOp::Deref => match type_of_expr(&unary.expr, vars, sigs) {
                Ok(Type::Pointer(inner)) => Ok(*inner),
                Ok(Type::Int) => Err(String::from_str("cannot dereference non-pointer type")),
                Err(m) => Err(m),
            },
            UnaryOp::AddrOf => match type_of_expr(&unary.expr, vars, sigs) {
                Ok(t) => Ok(Type::Pointer(Box::new(t))),
                Err(m) => Err(m),
            },
            _ => Ok(Type::Int),
        },
        Expr::Binary(_) => Ok(Type::Int),
        Expr::Call(call) => match lookup_function(&call.name, sigs) {
            Some(t) => Ok(t),
            None => Err(undefined_function_text(&call.name)),
        },
        Expr::Conditional(_) => Ok(Type::Int),
    }
}

/// Whether an expression yields a pointer.
fn is_pointer_valued(expr: &Expr, vars: &Vec<Binding>, sigs: &Vec<(String, Type)>) -> (r: bool)
    ensures
        r == yields_pointer(expr@, scope_view(vars@), table_view(sigs@)),
{
    match type_of_expr(expr, vars, sigs) {
        Ok(Type::Pointer(_)) => true,
        _ => false,
    }
}

// ---------------------------------------------------------------------------
// Lowering expressions
// ---------------------------------------------------------------------------

/// The signed comparison of a comparison operator.
fn comparison_of(op: BinaryOp) -> (r: Comparison)
    requires
        op != BinaryOp::LogicalAnd,
        op != BinaryOp::LogicalOr,
    ensures
        r == comparison_for(op),
{
    match op {
        BinaryOp::Equal => Comparison::Equal,
        BinaryOp::NotEqual => Comparison::NotEqual,
        BinaryOp::LessThan => Comparison::Less,
        BinaryOp::LessEqual => Comparison::LessOrEqual,
        BinaryOp::GreaterThan => Comparison::Greater,
        _ => Comparison::GreaterOrEqual,
    }
}

/// Adds the code of `lo op ro` for an operator that is neither `&&` nor `||`.
fn apply_binary_code(b: &mut CodeBuilder, op: BinaryOp, lo: Operand, ro: Operand) -> (r: Operand)
    requires
        old(b).wf(),
        op != BinaryOp::LogicalAnd,
        op != BinaryOp::LogicalOr,
    ensures
        final(b).wf(),
        final(b)@ == apply_binary(op, lo, ro, old(b)@).0,
        r == apply_binary(op, lo, ro, old(b)@).1,
{
    let arith = match op {
        BinaryOp::Add => Some(ArithOp::Add),
        BinaryOp::Subtract => Some(ArithOp::Sub),
        BinaryOp::Multiply => Some(ArithOp::Mul),
        BinaryOp::Divide => Some(ArithOp::SignedDiv),
        BinaryOp::Modulo => Some(ArithOp::SignedRem),
        _ => None,
    };
    match arith {
        Some(a) => b.emit_instr(Instr::Arith { op: a, lhs: lo, rhs: ro }),
        None => {
            let test = b.emit_instr(
                Instr::Compare {
                    relation: comparison_of(op),
                    lhs: lo,
                    rhs: ro,
                    name: String::from_str("cmptmp"),
                },
            );
            b.emit_instr(Instr::ZExt { value: test, name: String::from_str("casttmp") })
        },
    }
}

/// Adds the code of an expression; gives the operand of its value, or the
/// first error in it.
fn lower_expr_code(
    b: &mut CodeBuilder,
    expr: &Expr,
    vars: &Vec<Binding>,
    sigs: &Vec<(String, Type)>,
) -> (r: Result<Operand, String>)
    requires
        old(b).wf(),
    ensures
        final(b).wf(),
        r is Ok <==> expr_fault(expr@, scope_view(vars@), table_view(sigs@)) is None,
        r matches Err(m) ==> expr_fault(expr@, scope_view(vars@), table_view(sigs@)) == Some(m@),
        r matches Ok(o) ==> final(b)@ == lower_expr(expr@, slots_view(vars@), old(b)@).0 && o
            == lower_expr(expr@, slots_view(vars@), old(b)@).1,
    decreases expr@, 2nat,
{
    match expr {
        Expr::IntegerLiteral(integer) => Ok(Operand::Int(integer.value)),
        Expr::Variable(var) => match lookup_variable(&var.name, vars) {
            None => Err(undefined_variable_text(&var.name)),
            Some(binding) => Ok(
                b.emit_instr(Instr::Load { ptr: Operand::Reg(binding.slot), name: var.name.clone() }),
            ),
        },
        Expr::Unary(unary) => {
            if unary.operator == UnaryOp::AddrOf {
                return lower_place_code(b, &unary.expr, vars, sigs);
            }
            let operand = lower_expr_code(b, &unary.expr, vars, sigs)?;
            let pointer = is_pointer_valued(&unary.expr, vars, sigs);
            if unary.operator == UnaryOp::Deref {
                if !pointer {
                    return Err(String::from_str("dereference operand did not evaluate to a pointer"));
                }
                return Ok(
                    b.emit_instr(Instr::Load { ptr: operand, name: String::from_str("dereftmp") }),
                );
            }
            if pointer {
                return Err(String::from_str("expected integer operand for unary operator"));
            }
            if unary.operator == UnaryOp::Negate {
                Ok(b.emit_instr(Instr::Neg { value: operand }))
            } else if unary.operator == UnaryOp::LogicalNot {
                let test = b.emit_instr(
                    Instr::Compare {
                        relation: Comparison::Equal,
                        lhs: operand,
                        rhs: Operand::Int(0),
                        name: String::from_str("nottmp"),
                    },
                );
                Ok(b.emit_instr(Instr::ZExt { value: test, name: String::from_str("casttmp") }))
            } else {
                Ok(operand)
            }
        },
        Expr::Binary(binary) => lower_binary_code(
            b,
            binary.operator,
            &binary.left,
            &binary.right,
            vars,
            sigs,
            Ghost(expr@),
        ),
        Expr::Call(call) => {
            let ghost args = ast::exprs_view(call.args@);
            let ghost sv = slots_view(vars@);
            if lookup_function(&call.name, sigs).is_none() {
                return Err(undefined_function_text(&call.name));
            }
            proof {
                ast::lemma_exprs_view_index(call.args@);
                assert(args.skip(0) =~= args);
            }
            let ghost st0 = b@;
            let mut ops: Vec<Operand> = Vec::new();
            let mut i: usize = 0;
            while i < call.args.len()
                invariant
                    i <= call.args.len(),
                    b.wf(),
                    args == ast::exprs_view(call.args@),
                    args.len() == call.args.len(),
                    forall|j: int| 0 <= j < args.len() ==> #[trigger] args[j] == call.args@[j]@,
                    expr@ == ExprView::Call(call.name@, args),
                    sv == slots_view(vars@),
                    lookup(table_view(sigs@), call.name@) is Some,
                    expr_fault(expr@, scope_view(vars@), table_view(sigs@)) == args_fault(
                        args.skip(i as int),
                        scope_view(vars@),
                        table_view(sigs@),
                    ),
                    lower_args(args, sv, st0) == (
                        lower_args(args.skip(i as int), sv, b@).0,
                        ops@ + lower_args(args.skip(i as int), sv, b@).1,
                    ),
                decreases call.args.len() - i,
            {
                proof {
                    assert(args.skip(i as int)[0] == args[i as int]);
                    assert(args.skip(i as int).drop_first() =~= args.skip(i + 1));
                    assert(decreases_to!(expr@ => args[i as int]));
                }
                let ghost before = b@;
                let o = lower_expr_code(b, &call.args[i], vars, sigs)?;
                proof {
                    let rest = lower_args(args.skip(i + 1), sv, b@);
                    assert(lower_args(args.skip(i as int), sv, before) == (rest.0, seq![o] + rest.1));
                    assert(ops@.push(o) + rest.1 =~= ops@ + (seq![o] + rest.1));
                }
                ops.push(o);
                i += 1;
            }
            proof {
                assert(args.skip(i as int).len() == 0);
                assert(ops@ + Seq::<Operand>::empty() =~= ops@);
            }
            Ok(b.emit_instr(Instr::Call { callee: call.name.clone(), args: ops }))
        },
        Expr::Conditional(c) => lower_conditional_code(
            b,
            &c.condition,
            &c.then_expr,
            &c.else_expr,
            vars,
            sigs,
            Ghost(expr@),
        ),
    }
}

/// Adds the code of an expression as a place; gives the operand of its
/// address, or the first error in it.
fn lower_place_code(
    b: &mut CodeBuilder,
    expr: &Expr,
    vars: &Vec<Binding>,
    sigs: &Vec<(String, Type)>,
) -> (r: Result<Operand, String>)
    requires
        old(b).wf(),
    ensures
        final(b).wf(),
        r is Ok <==> lvalue_fault(expr@, scope_view(vars@), table_view(sigs@)) is None,
        r matches Err(m) ==> lvalue_fault(expr@, scope_view(vars@), table_view(sigs@)) == Some(m@),
        r matches Ok(o) ==> final(b)@ == lower_place(expr@, slots_view(vars@), old(b)@).0 && o
            == lower_place(expr@, slots_view(vars@), old(b)@).1,
    decreases expr@, 2nat,
{
    match expr {
        Expr::Variable(var) => match lookup_variable(&var.name, vars) {
            Some(binding) => Ok(Operand::Reg(binding.slot)),
            None => Err(undefined_variable_text(&var.name)),
        },
        Expr::Unary(unary) => {
            if unary.operator != UnaryOp::Deref {
                return Err(String::from_str("expression is not an lvalue"));
            }
            let o = lower_expr_code(b, &unary.expr, vars, sigs)?;
            if !is_pointer_valued(&unary.expr, vars, sigs) {
                return Err(String::from_str("dereference target did not evaluate to a pointer"));
            }
            Ok(o)
        },
        _ => Err(String::from_str("expression is not an lvalue")),
    }
}

/// Adds the code of `left op right`; `whole` is that expression.
fn lower_binary_code(
    b: &mut CodeBuilder,
    op: BinaryOp,
    left: &Expr,
    right: &Expr,
    vars: &Vec<Binding>,
    sigs: &Vec<(String, Type)>,
    Ghost(whole): Ghost<ExprView>,
) -> (r: Result<Operand, String>)
    requires
        old(b).wf(),
        whole == ExprView::Binary(Box::new(left@), op, Box::new(right@)),
    ensures
        final(b).wf(),
        r is Ok <==> expr_fault(whole, scope_view(vars@), table_view(sigs@)) is None,
        r matches Err(m) ==> expr_fault(whole, scope_view(vars@), table_view(sigs@)) == Some(m@),
        r matches Ok(o) ==> final(b)@ == lower_expr(whole, slots_view(vars@), old(b)@).0 && o
            == lower_expr(whole, slots_view(vars@), old(b)@).1,
    decreases whole, 1nat,
{
    if op == BinaryOp::LogicalAnd || op == BinaryOp::LogicalOr {
        return lower_short_circuit_code(
            b,
            op == BinaryOp::LogicalAnd,
            left,
            right,
            vars,
            sigs,
            Ghost(whole),
        );
    }
    let lo = lower_expr_code(b, left, vars, sigs)?;
    let ro = lower_expr_code(b, right, vars, sigs)?;
    if is_pointer_valued(left, vars, sigs) || is_pointer_valued(right, vars, sigs) {
        return Err(String::from_str("expected integer operand"));
    }
    Ok(apply_binary_code(b, op, lo, ro))
}

/// Adds the code of `left && right` (`is_and`) or `left || right`.
fn lower_short_circuit_code(
    b: &mut CodeBuilder,
    is_and: bool,
    left: &Expr,
    right: &Expr,
    vars: &Vec<Binding>,
    sigs: &Vec<(String, Type)>,
    Ghost(whole): Ghost<ExprView>,
) -> (r: Result<Operand, String>)
    requires
        old(b).wf(),
        whole == ExprView::Binary(
            Box::new(left@),
            if is_and {
                BinaryOp::LogicalAnd
            } else {
                BinaryOp::LogicalOr
            },
            Box::new(right@),
        ),
    ensures
        final(b).wf(),
        r is Ok <==> expr_fault(whole, scope_view(vars@), table_view(sigs@)) is None,
        r matches Err(m) ==> expr_fault(whole, scope_view(vars@), table_view(sigs@)) == Some(m@),
        r matches Ok(o) ==> final(b)@ == lower_expr(whole, slots_view(vars@), old(b)@).0 && o
            == lower_expr(whole, slots_view(vars@), old(b)@).1,
    decreases whole, 0nat,
{
    let msg = if is_and {
        "expected integer for logical AND operand"
    } else {
        "expected integer for logical OR operand"
    };
    let lo = lower_expr_code(b, left, vars, sigs)?;
    if is_pointer_valued(left, vars, sigs) {
        return Err(String::from_str(msg));
    }
    let lhs_true = b.emit_instr(
        Instr::Compare {
            relation: Comparison::NotEqual,
            lhs: lo,
            rhs: Operand::Int(0),
            name: String::from_str("lhs_true"),
        },
    );
    let start = b.current;
    let rhs_block = b.new_block(
        if is_and {
            BlockKind::AndRhs
        } else {
            BlockKind::OrRhs
        },
    );
    let merge_block = b.new_block(
        if is_and {
            BlockKind::AndMerge
        } else {
            BlockKind::OrMerge
        },
    );
    if is_and {
        b.emit_instr(Instr::CondBr { cond: lhs_true, then_block: rhs_block, else_block: merge_block });
    } else {
        b.emit_instr(Instr::CondBr { cond: lhs_true, then_block: merge_block, else_block: rhs_block });
    }
    b.position(rhs_block);
    let ro = lower_expr_code(b, right, vars, sigs)?;
    if is_pointer_valued(right, vars, sigs) {
        return Err(String::from_str(msg));
    }
    let rhs_true = b.emit_instr(
        Instr::Compare {
            relation: Comparison::NotEqual,
            lhs: ro,
            rhs: Operand::Int(0),
            name: String::from_str("rhs_true"),
        },
    );
    let rhs_cast = b.emit_instr(Instr::ZExt { value: rhs_true, name: String::from_str("rhs_cast") });
    b.emit_instr(Instr::Br { target: merge_block });
    let actual_rhs_block = b.current;
    b.position(merge_block);
    let name = if is_and {
        String::from_str("and.result")
    } else {
        String::from_str("or.result")
    };
    let decided = if is_and {
        Operand::Int(0)
    } else {
        Operand::Int(1)
    };
    Ok(
        b.emit_instr(
            Instr::Phi {
                name,
                first: decided,
                first_block: start,
                second: rhs_cast,
                second_block: actual_rhs_block,
            },
        ),
    )
}

/// Adds the code of `condition ? then_expr : else_expr`: each branch in a
/// block of its own, so that only the chosen one runs, and a phi in the
/// block after them that takes the value of the branch that ran.
fn lower_conditional_code(
    b: &mut CodeBuilder,
    condition: &Expr,
    then_expr: &Expr,
    else_expr: &Expr,
    vars: &Vec<Binding>,
    sigs: &Vec<(String, Type)>,
    Ghost(whole): Ghost<ExprView>,
) -> (r: Result<Operand, String>)
    requires
        old(b).wf(),
        whole == ExprView::Conditional(
            Box::new(condition@),
            Box::new(then_expr@),
            Box::new(else_expr@),
        ),
    ensures
        final(b).wf(),
        r is Ok <==> expr_fault(whole, scope_view(vars@), table_view(sigs@)) is None,
        r matches Err(m) ==> expr_fault(whole, scope_view(vars@), table_view(sigs@)) == Some(m@),
        r matches Ok(o) ==> final(b)@ == lower_expr(whole, slots_view(vars@), old(b)@).0 && o
            == lower_expr(whole, slots_view(vars@), old(b)@).1,
    decreases whole, 1nat,
{
    let msg = "expected integer for conditional operand";
    let co = lower_expr_code(b, condition, vars, sigs)?;
    if is_pointer_valued(condition, vars, sigs) {
        return Err(String::from_str(msg));
    }
    let test = b.emit_instr(
        Instr::Compare {
            relation: Comparison::NotEqual,
            lhs: co,
            rhs: Operand::Int(0),
            name: String::from_str("condtmp"),
        },
    );
    let true_block = b.new_block(BlockKind::CondTrue);
    let false_block = b.new_block(BlockKind::CondFalse);
    let end_block = b.new_block(BlockKind::CondEnd);
    b.emit_instr(Instr::CondBr { cond: test, then_block: true_block, else_block: false_block });
    b.position(true_block);
    let first = lower_expr_code(b, then_expr, vars, sigs)?;
    if is_pointer_valued(then_expr, vars, sigs) {
        return Err(String::from_str(msg));
    }
    b.emit_instr(Instr::Br { target: end_block });
    let first_block = b.current;
    b.position(false_block);
    let second = lower_expr_code(b, else_expr, vars, sigs)?;
    if is_pointer_valued(else_expr, vars, sigs) {
        return Err(String::from_str(msg));
    }
    b.emit_instr(Instr::Br { target: end_block });
    let second_block = b.current;
    b.position(end_block);
    Ok(
        b.emit_instr(
            Instr::Phi {
                name: String::from_str("cond.result"),
                first,
                first_block,
                second,
                second_block,
            },
        ),
    )
}

// ---------------------------------------------------------------------------
// Lowering statements
// ---------------------------------------------------------------------------

/// `longer` starts with `shorter`.
spec fn extends<T>(longer: Seq<T>, shorter: Seq<T>) -> bool {
    &&& shorter.len() <= longer.len()
    &&& forall|j: int| 0 <= j < shorter.len() ==> longer[j] == shorter[j]
}

spec fn loops_view(loops: Seq<(usize, usize)>) -> Seq<(nat, nat)> {
    loops.map_values(|l: (usize, usize)| (l.0 as nat, l.1 as nat))
}

/// What lowering a statement achieves: on success, the code `after` of the
/// builder, the variables in scope and whether the statement ends its block
/// are those of `lower_stmt`, and they agree with `stmt_run`; on failure, the
/// error is `stmt_run`'s.
spec fn stmt_lowered(
    s: StatementView,
    vars: Seq<Binding>,
    loops: Seq<(usize, usize)>,
    before: Lowering,
    sigs: Seq<(String, Type)>,
    r: Result<bool, String>,
    vars_after: Seq<Binding>,
    loops_after: Seq<(usize, usize)>,
    after: Lowering,
) -> bool {
    let run = stmt_run(s, scope_view(vars), table_view(sigs), loops.len() > 0);
    let low = lower_stmt(s, slots_view(vars), loops_view(loops), before);
    &&& (r is Ok <==> run is Ok)
    &&& match r {
        Ok(ends) => {
            &&& run == Ok::<(Seq<(Seq<char>, Type)>, bool), Seq<char>>((scope_view(vars_after), ends))
            &&& after == low.0
            &&& slots_view(vars_after) == low.1
            &&& ends == low.2
            &&& loops_after == loops
            &&& extends(vars_after, vars)
        },
        Err(m) => run == Err::<(Seq<(Seq<char>, Type)>, bool), Seq<char>>(m@),
    }
}

/// Adds the code of a statement; says whether it ended its block with a jump.
fn lower_stmt_code(
    b: &mut CodeBuilder,
    statement: &Statement,
    vars: &mut Vec<Binding>,
    loops: &mut Vec<(usize, usize)>,
    sigs: &Vec<(String, Type)>,
) -> (r: Result<bool, String>)
    requires
        old(b).wf(),
    ensures
        final(b).wf(),
        stmt_lowered(
            statement@,
            old(vars)@,
            old(loops)@,
            old(b)@,
            sigs@,
            r,
            final(vars)@,
            final(loops)@,
            final(b)@,
        ),
    decreases statement, 1nat,
{
    match statement {
        Statement::Declare(decl) => {
            let o = lower_expr_code(b, &decl.init, vars, sigs)?;
            let slot = b.emit_instr(Instr::Alloca { ty: ast::copy_type(&decl.ty), name: decl.name.clone() });
            b.emit_instr(Instr::Store { value: o, ptr: slot });
            let index = match slot {
                Operand::Reg(k) => k,
                _ => 0,
            };
            vars.push(Binding { name: decl.name.clone(), ty: ast::copy_type(&decl.ty), slot: index });
            proof {
                assert(scope_view(vars@) =~= scope_view(old(vars)@).push((decl.name@, decl.ty)));
                assert(slots_view(vars@) =~= slots_view(old(vars)@).push(
                    (decl.name@, decl.ty, index as nat),
                ));
            }
            Ok(false)
        },
        Statement::Assign(_) => lower_assign_code(b, statement, vars, loops, sigs),
        Statement::Return(ret_stmt) => {
            let value = lower_expr_code(b, &ret_stmt.expr, vars, sigs)?;
            if is_pointer_valued(&ret_stmt.expr, vars, sigs) {
                return Err(String::from_str("function return value must be an integer"));
            }
            b.emit_instr(Instr::Store { value, ptr: Operand::Reg(3) });
            b.emit_instr(Instr::Br { target: 1 });
            Ok(true)
        },
        Statement::Block(body) => {
            let saved = vars.len();
            let ends = lower_items_code(b, body, vars, loops, sigs)?;
            vars.truncate(saved);
            proof {
                assert(vars@ =~= old(vars)@);
            }
            Ok(ends)
        },
        Statement::If(_) => lower_if_code(b, statement, vars, loops, sigs),
        Statement::While(_) => lower_while_code(b, statement, vars, loops, sigs),
        Statement::For(_) => lower_for_code(b, statement, vars, loops, sigs),
        Statement::Break => {
            if loops.len() == 0 {
                return Err(String::from_str("`break` used outside of a loop"));
            }
            let target = loops[loops.len() - 1].0;
            b.emit_instr(Instr::Br { target });
            Ok(true)
        },
        Statement::Continue => {
            if loops.len() == 0 {
                return Err(String::from_str("`continue` used outside of a loop"));
            }
            let target = loops[loops.len() - 1].1;
            b.emit_instr(Instr::Br { target });
            Ok(true)
        },
    }
}

#[verifier::rlimit(50)]
fn lower_assign_code(
    b: &mut CodeBuilder,
    statement: &Statement,
    vars: &mut Vec<Binding>,
    loops: &mut Vec<(usize, usize)>,
    sigs: &Vec<(String, Type)>,
) -> (r: Result<bool, String>)
    requires
        old(b).wf(),
        statement is Assign,
    ensures
        final(b).wf(),
        stmt_lowered(
            statement@,
            old(vars)@,
            old(loops)@,
            old(b)@,
            sigs@,
            r,
            final(vars)@,
            final(loops)@,
            final(b)@,
        ),
    decreases statement, 0nat,
{
    let assign = match statement {
        Statement::Assign(assign) => assign,
        _ => {
            return Err(String::new());
        },
    };
        let compound = match assign.op {
            Some(op) => op != BinaryOp::LogicalAnd && op != BinaryOp::LogicalOr,
            None => false,
        };
        if compound {
            let op = match assign.op {
                Some(op) => op,
                None => BinaryOp::Add,
            };
            let place = lower_place_code(b, &assign.target, vars, sigs)?;
            let name = match &assign.target {
                Expr::Variable(var) => var.name.clone(),
                _ => String::from_str("dereftmp"),
            };
            let current = b.emit_instr(Instr::Load { ptr: place, name });
            let value = lower_expr_code(b, &assign.expr, vars, sigs)?;
            if is_pointer_valued(&assign.target, vars, sigs) || is_pointer_valued(
                &assign.expr,
                vars,
                sigs,
            ) {
                return Err(String::from_str("expected integer operand"));
            }
            let res = apply_binary_code(b, op, current, value);
            b.emit_instr(Instr::Store { value: res, ptr: place });
            Ok(false)
        } else {
            let value = match assign.op {
                None => lower_expr_code(b, &assign.expr, vars, sigs)?,
                Some(op) => lower_binary_code(
                    b,
                    op,
                    &assign.target,
                    &assign.expr,
                    vars,
                    sigs,
                    Ghost(ExprView::Binary(Box::new(assign.target@), op, Box::new(assign.expr@))),
                )?,
            };
            let place = lower_place_code(b, &assign.target, vars, sigs)?;
            b.emit_instr(Instr::Store { value, ptr: place });
            Ok(false)
        }
}

#[verifier::rlimit(50)]
fn lower_if_code(
    b: &mut CodeBuilder,
    statement: &Statement,
    vars: &mut Vec<Binding>,
    loops: &mut Vec<(usize, usize)>,
    sigs: &Vec<(String, Type)>,
) -> (r: Result<bool, String>)
    requires
        old(b).wf(),
        statement is If,
    ensures
        final(b).wf(),
        stmt_lowered(
            statement@,
            old(vars)@,
            old(loops)@,
            old(b)@,
            sigs@,
            r,
            final(vars)@,
            final(loops)@,
            final(b)@,
        ),
    decreases statement, 0nat,
{
    let if_stmt = match statement {
        Statement::If(if_stmt) => if_stmt,
        _ => {
            return Err(String::new());
        },
    };
        let cond = lower_expr_code(b, &if_stmt.cond, vars, sigs)?;
        if is_pointer_valued(&if_stmt.cond, vars, sigs) {
            return Err(String::from_str("if condition must be an integer"));
        }
        let test = b.emit_instr(
            Instr::Compare {
                relation: Comparison::NotEqual,
                lhs: cond,
                rhs: Operand::Int(0),
                name: String::from_str("ifcond"),
            },
        );
        let then_block = b.new_block(BlockKind::Then);
        let else_block = b.new_block(BlockKind::Else);
        let merge_block = b.new_block(BlockKind::IfCont);
        b.emit_instr(Instr::CondBr { cond: test, then_block, else_block });
        b.position(then_block);
        let then_ends = lower_stmt_code(b, &if_stmt.then_branch, vars, loops, sigs)?;
        if !then_ends {
            b.emit_instr(Instr::Br { target: merge_block });
        }
        b.position(else_block);
        let else_ends = match &if_stmt.else_branch {
            Some(else_branch) => lower_stmt_code(b, else_branch, vars, loops, sigs)?,
            None => false,
        };
        if !else_ends {
            b.emit_instr(Instr::Br { target: merge_block });
        }
        b.position(merge_block);
        Ok(false)
}

#[verifier::rlimit(50)]
fn lower_while_code(
    b: &mut CodeBuilder,
    statement: &Statement,
    vars: &mut Vec<Binding>,
    loops: &mut Vec<(usize, usize)>,
    sigs: &Vec<(String, Type)>,
) -> (r: Result<bool, String>)
    requires
        old(b).wf(),
        statement is While,
    ensures
        final(b).wf(),
        stmt_lowered(
            statement@,
            old(vars)@,
            old(loops)@,
            old(b)@,
            sigs@,
            r,
            final(vars)@,
            final(loops)@,
            final(b)@,
        ),
    decreases statement, 0nat,
{
    let while_stmt = match statement {
        Statement::While(while_stmt) => while_stmt,
        _ => {
            return Err(String::new());
        },
    };
        let cond_block = b.new_block(BlockKind::WhileCond);
        let body_block = b.new_block(BlockKind::WhileBody);
        let merge_block = b.new_block(BlockKind::WhileCont);
        b.emit_instr(Instr::Br { target: cond_block });
        b.position(cond_block);
        let cond = lower_expr_code(b, &while_stmt.cond, vars, sigs)?;
        if is_pointer_valued(&while_stmt.cond, vars, sigs) {
            return Err(String::from_str("while condition must be an integer"));
        }
        let test = b.emit_instr(
            Instr::Compare {
                relation: Comparison::NotEqual,
                lhs: cond,
                rhs: Operand::Int(0),
                name: String::from_str("whilecond"),
            },
        );
        b.emit_instr(Instr::CondBr { cond: test, then_block: body_block, else_block: merge_block });
        b.position(body_block);
        loops.push((merge_block, cond_block));
        proof {
            assert(loops_view(loops@) =~= loops_view(old(loops)@).push(
                (merge_block as nat, cond_block as nat),
            ));
        }
        let body_ends = lower_stmt_code(b, &while_stmt.body, vars, loops, sigs)?;
        loops.pop();
        proof {
            assert(loops@ =~= old(loops)@);
        }
        if !body_ends {
            b.emit_instr(Instr::Br { target: cond_block });
        }
        b.position(merge_block);
        Ok(false)
}

#[verifier::rlimit(100)]
#[verifier::spinoff_prover]
fn lower_for_code(
    b: &mut CodeBuilder,
    statement: &Statement,
    vars: &mut Vec<Binding>,
    loops: &mut Vec<(usize, usize)>,
    sigs: &Vec<(String, Type)>,
) -> (r: Result<bool, String>)
    requires
        old(b).wf(),
        statement is For,
    ensures
        final(b).wf(),
        stmt_lowered(
            statement@,
            old(vars)@,
            old(loops)@,
            old(b)@,
            sigs@,
            r,
            final(vars)@,
            final(loops)@,
            final(b)@,
        ),
    decreases statement, 0nat,
{
    let for_stmt = match statement {
        Statement::For(for_stmt) => for_stmt,
        _ => {
            return Err(String::new());
        },
    };
        let saved = vars.len();
        if let Some(init) = &for_stmt.init {
            lower_stmt_code(b, init, vars, loops, sigs)?;
        }
        let cond_block = b.new_block(BlockKind::ForCond);
        let body_block = b.new_block(BlockKind::ForBody);
        let step_block = b.new_block(BlockKind::ForStep);
        let merge_block = b.new_block(BlockKind::ForCont);
        b.emit_instr(Instr::Br { target: cond_block });
        b.position(cond_block);
        let test = lower_for_condition_code(b, &for_stmt.cond, vars, sigs)?;
        b.emit_instr(Instr::CondBr { cond: test, then_block: body_block, else_block: merge_block });
        b.position(body_block);
        loops.push((merge_block, step_block));
        proof {
            assert(loops_view(loops@) =~= loops_view(old(loops)@).push(
                (merge_block as nat, step_block as nat),
            ));
        }
        let body_ends = lower_stmt_code(b, &for_stmt.body, vars, loops, sigs)?;
        loops.pop();
        proof {
            assert(loops@ =~= old(loops)@);
        }
        if !body_ends {
            b.emit_instr(Instr::Br { target: step_block });
        }
        b.position(step_block);
        if let Some(post) = &for_stmt.post {
            lower_stmt_code(b, post, vars, loops, sigs)?;
        }
        b.emit_instr(Instr::Br { target: cond_block });
        b.position(merge_block);
        vars.truncate(saved);
        proof {
            assert(vars@ =~= old(vars)@);
        }
        Ok(false)
}

/// Adds the code of the condition of a `for` loop.
fn lower_for_condition_code(
    b: &mut CodeBuilder,
    cond: &Option<Expr>,
    vars: &Vec<Binding>,
    sigs: &Vec<(String, Type)>,
) -> (r: Result<Operand, String>)
    requires
        old(b).wf(),
    ensures
        final(b).wf(),
        ({
            let c = match cond {
                Some(e) => Some(e@),
                None => None,
            };
            &&& (r is Ok <==> for_condition_fault(c, scope_view(vars@), table_view(sigs@)) is None)
            &&& (r matches Err(m) ==> for_condition_fault(c, scope_view(vars@), table_view(sigs@))
                == Some(m@))
            &&& (r matches Ok(o) ==> final(b)@ == lower_for_condition(c, slots_view(vars@), old(b)@).0
                && o == lower_for_condition(c, slots_view(vars@), old(b)@).1)
        }),
{
    match cond {
        Some(cond_expr) => {
            let value = lower_expr_code(b, cond_expr, vars, sigs)?;
            if is_pointer_valued(cond_expr, vars, sigs) {
                return Err(String::from_str("for condition must be an integer"));
            }
            Ok(
                b.emit_instr(
                    Instr::Compare {
                        relation: Comparison::NotEqual,
                        lhs: value,
                        rhs: Operand::Int(0),
                        name: String::from_str("forcond"),
                    },
                ),
            )
        },
        None => Ok(Operand::True),
    }
}

/// Adds the code of statements in order, up to the first that ends its block.
fn lower_items_code(
    b: &mut CodeBuilder,
    items: &Vec<Statement>,
    vars: &mut Vec<Binding>,
    loops: &mut Vec<(usize, usize)>,
    sigs: &Vec<(String, Type)>,
) -> (r: Result<bool, String>)
    requires
        old(b).wf(),
    ensures
        final(b).wf(),
        r is Ok <==> run_items(
            ast::stmts_view(items@),
            scope_view(old(vars)@),
            table_view(sigs@),
            old(loops)@.len() > 0,
        ) is Ok,
        match r {
            Ok(ends) => {
                &&& run_items(
                    ast::stmts_view(items@),
                    scope_view(old(vars)@),
                    table_view(sigs@),
                    old(loops)@.len() > 0,
                ) == Ok::<(Seq<(Seq<char>, Type)>, bool), Seq<char>>(
                    (scope_view(final(vars)@), ends),
                )
                &&& final(b)@ == lower_items(
                    ast::stmts_view(items@),
                    slots_view(old(vars)@),
                    loops_view(old(loops)@),
                    old(b)@,
                ).0
                &&& slots_view(final(vars)@) == lower_items(
                    ast::stmts_view(items@),
                    slots_view(old(vars)@),
                    loops_view(old(loops)@),
                    old(b)@,
                ).1
                &&& ends == lower_items(
                    ast::stmts_view(items@),
                    slots_view(old(vars)@),
                    loops_view(old(loops)@),
                    old(b)@,
                ).2
                &&& final(loops)@ == old(loops)@
                &&& extends(final(vars)@, old(vars)@)
            },
            Err(m) => run_items(
                ast::stmts_view(items@),
                scope_view(old(vars)@),
                table_view(sigs@),
                old(loops)@.len() > 0,
            ) == Err::<(Seq<(Seq<char>, Type)>, bool), Seq<char>>(m@),
        },
    decreases items, 1nat,
{
    let ghost sv = ast::stmts_view(items@);
    let ghost tv = table_view(sigs@);
    let ghost lv = loops_view(loops@);
    let ghost in_loop = loops@.len() > 0;
    let ghost start = run_items(sv, scope_view(vars@), tv, in_loop);
    let ghost code = lower_items(sv, slots_view(vars@), lv, b@);
    proof {
        ast::lemma_stmts_view_index(items@);
        assert(sv.skip(0) =~= sv);
    }
    let mut i: usize = 0;
    while i < items.len()
        invariant
            i <= items.len(),
            b.wf(),
            sv == ast::stmts_view(items@),
            sv.len() == items.len(),
            forall|j: int| 0 <= j < sv.len() ==> #[trigger] sv[j] == items@[j]@,
            tv == table_view(sigs@),
            in_loop == (old(loops)@.len() > 0),
            lv == loops_view(old(loops)@),
            start == run_items(sv, scope_view(old(vars)@), tv, in_loop),
            start == run_items(sv.skip(i as int), scope_view(vars@), tv, in_loop),
            code == lower_items(sv, slots_view(old(vars)@), lv, old(b)@),
            code == lower_items(sv.skip(i as int), slots_view(vars@), lv, b@),
            loops@ == old(loops)@,
            extends(vars@, old(vars)@),
        decreases items.len() - i,
    {
        proof {
            assert(sv.skip(i as int)[0] == sv[i as int]);
            assert(sv.skip(i as int).drop_first() =~= sv.skip(i + 1));
        }
        let ends = lower_stmt_code(b, &items[i], vars, loops, sigs)?;
        i += 1;
        if ends {
            return Ok(true);
        }
    }
    proof {
        assert(sv.skip(i as int).len() == 0);
    }
    Ok(false)
}

/// Whether the program defines `main`.
fn has_main_function(program: &Program) -> (r: bool)
    ensures
        r == has_main(program@),
{
    let main = String::from_str("main");
    let mut i: usize = 0;
    while i < program.functions.len()
        invariant
            i <= program.functions.len(),
            main@ == "main"@,
            forall|j: int| 0 <= j < i ==> #[trigger] program@[j].name != "main"@,
        decreases program.functions.len() - i,
    {
        if program.functions[i].name == main {
            assert(program@[i as int].name == "main"@);
            return true;
        }
        i += 1;
    }
    false
}

/// The function table: each function's name and return type.
fn function_table(program: &Program) -> (r: Vec<(String, Type)>)
    ensures
        table_view(r@) == signatures(program@),
{
    let mut sigs: Vec<(String, Type)> = Vec::new();
    let mut i: usize = 0;
    while i < program.functions.len()
        invariant
            i <= program.functions.len(),
            sigs.len() == i,
            table_view(sigs@) =~= signatures(program@).take(i as int),
        decreases program.functions.len() - i,
    {
        let f = &program.functions[i];
        let ghost before = sigs@;
        sigs.push((f.name.clone(), ast::copy_type(&f.return_type)));
        proof {
            assert(program@[i as int] == ast::function_view(program.functions@[i as int]));
            assert(sigs@ == before.push(sigs@[i as int]));
            assert(table_view(sigs@) =~= table_view(before).push((f.name@, f.return_type)));
        }
        i += 1;
        proof {
            assert(table_view(sigs@) =~= signatures(program@).take(i as int));
        }
    }
    proof {
        assert(signatures(program@).take(i as int) =~= signatures(program@));
    }
    sigs
}

/// Adds the code that copies each parameter into a stack slot of its own.
fn lower_params_code(
    b: &mut CodeBuilder,
    func: &ast::Function,
    vars: &mut Vec<Binding>,
)
    requires
        old(b).wf(),
        old(vars)@.len() == 0,
    ensures
        final(b).wf(),
        scope_view(final(vars)@) == parameter_scope(func@.params),
        final(b)@ == lower_params(func@.params, 0, Seq::empty(), old(b)@).0,
        slots_view(final(vars)@) == lower_params(func@.params, 0, Seq::empty(), old(b)@).1,
{
    let ghost params = func@.params;
    let ghost target = lower_params(params, 0, Seq::empty(), b@);
    proof {
        assert(params.skip(0) =~= params);
        assert(slots_view(vars@) =~= Seq::<Slot>::empty());
    }
    let mut i: usize = 0;
    while i < func.params.len()
        invariant
            i <= func.params.len(),
            b.wf(),
            params == func@.params,
            params == ast::params_view(func.params@),
            vars.len() == i,
            scope_view(vars@) =~= parameter_scope(params).take(i as int),
            target == lower_params(params.skip(i as int), i as nat, slots_view(vars@), b@),
        decreases func.params.len() - i,
    {
        let param = &func.params[i];
        proof {
            assert(params.skip(i as int)[0] == params[i as int]);
            assert(params.skip(i as int).drop_first() =~= params.skip(i + 1));
            assert(params[i as int] == func.params@[i as int]@);
        }
        let value = b.emit_instr(Instr::Param { index: i });
        let slot = b.emit_instr(Instr::Alloca { ty: ast::copy_type(&param.ty), name: param.name.clone() });
        b.emit_instr(Instr::Store { value, ptr: slot });
        let index = match slot {
            Operand::Reg(k) => k,
            _ => 0,
        };
        let ghost before = vars@;
        vars.push(Binding { name: param.name.clone(), ty: ast::copy_type(&param.ty), slot: index });
        proof {
            assert(scope_view(vars@) =~= scope_view(before).push((param.name@, param.ty)));
            assert(slots_view(vars@) =~= slots_view(before).push((param.name@, param.ty, index as nat)));
        }
        i += 1;
        proof {
            assert(scope_view(vars@) =~= parameter_scope(params).take(i as int));
        }
    }
    proof {
        assert(parameter_scope(params).take(i as int) =~= parameter_scope(params));
        assert(params.skip(i as int).len() == 0);
    }
}

/// The code of a function, or the first error in its body.
fn lower_function_code(func: &ast::Function, sigs: &Vec<(String, Type)>) -> (r: Result<
    IrFunction,
    String,
>)
    ensures
        r is Ok <==> function_fault(func@, table_view(sigs@)) is None,
        r matches Err(m) ==> function_fault(func@, table_view(sigs@)) == Some(m@),
        r matches Ok(f) ==> f@ == lower_function(func@),
{
    let mut b = CodeBuilder::new();
    let entry = b.new_block(BlockKind::Entry);
    b.new_block(BlockKind::Return);
    b.position(entry);
    let retval = b.emit_instr(Instr::Alloca { ty: ast::copy_type(&func.return_type), name: String::from_str("retval") });
    b.emit_instr(Instr::StoreZero { ty: ast::copy_type(&func.return_type), ptr: retval });
    let mut vars: Vec<Binding> = Vec::new();
    lower_params_code(&mut b, func, &mut vars);
    let mut loops: Vec<(usize, usize)> = Vec::new();
    proof {
        assert(loops_view(loops@) =~= Seq::<(nat, nat)>::empty());
    }
    let ends = lower_items_code(&mut b, &func.body, &mut vars, &mut loops, sigs)?;
    if !ends {
        b.emit_instr(Instr::Br { target: 1 });
    }
    b.position(1);
    let value = b.emit_instr(Instr::Load { ptr: Operand::Reg(3), name: String::from_str("retval") });
    b.emit_instr(Instr::Ret { value });
    let mut params: Vec<Type> = Vec::new();
    let mut i: usize = 0;
    while i < func.params.len()
        invariant
            i <= func.params.len(),
            params@ =~= func@.params.map_values(|p: ast::ParameterView| p.ty).take(i as int),
        decreases func.params.len() - i,
    {
        params.push(ast::copy_type(&func.params[i].ty));
        i += 1;
    }
    proof {
        assert(func@.params.map_values(|p: ast::ParameterView| p.ty).take(i as int)
            =~= func@.params.map_values(|p: ast::ParameterView| p.ty));
    }
    let code = b.code;
    Ok(IrFunction { name: func.name.clone(), return_type: ast::copy_type(&func.return_type), params, code })
}

/// The code of a program, or the first error in it.
pub fn lower_to_ir(program: &ast::Program) -> (r: Result<IrModule, String>)
    ensures
        r is Ok <==> program_fault(program@) is None,
        r matches Err(m) ==> program_fault(program@) == Some(m@),
        r matches Ok(m) ==> m@ == lowered(program@),
{
    if !has_main_function(program) {
        return Err(String::from_str("expected a function named 'main'"));
    }
    let sigs = function_table(program);
    let ghost fs = program@;
    let ghost tv = table_view(sigs@);
    proof {
        assert(fs.skip(0) =~= fs);
    }
    let mut functions: Vec<IrFunction> = Vec::new();
    let mut i: usize = 0;
    while i < program.functions.len()
        invariant
            i <= program.functions.len(),
            fs == program@,
            fs.len() == program.functions.len(),
            tv == table_view(sigs@),
            tv == signatures(fs),
            has_main(fs),
            program_fault(fs) == functions_fault(fs.skip(i as int), tv),
            functions@.map_values(|f: IrFunction| f@) =~= lowered(fs).take(i as int),
        decreases program.functions.len() - i,
    {
        proof {
            assert(fs.skip(i as int)[0] == fs[i as int]);
            assert(fs.skip(i as int).drop_first() =~= fs.skip(i + 1));
            assert(fs[i as int] == program.functions@[i as int]@);
        }
        let f = lower_function_code(&program.functions[i], &sigs)?;
        let ghost before = functions@;
        functions.push(f);
        proof {
            assert(functions@.map_values(|f: IrFunction| f@) =~= before.map_values(
                |f: IrFunction| f@,
            ).push(f@));
        }
        i += 1;
    }
    proof {
        assert(fs.skip(i as int).len() == 0);
        assert(lowered(fs).take(i as int) =~= lowered(fs));
    }
    Ok(IrModule { functions })
}

} // verus!

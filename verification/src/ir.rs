//! The instructions that lowering hands to LLVM, as plain values.
//!
//! A function's code is the sequence of builder steps in the order they are
//! taken: creating a block, moving to the end of a block, and adding one
//! instruction. An instruction that yields a value is referred to by its
//! index in that sequence.
use vstd::prelude::*;
use crate::ast::Type;

verus! {

/// An operand: the value of an earlier instruction, or a constant.
#[derive(Debug, Clone, Copy, PartialEq, Eq, Structural)]
pub enum Operand {
    /// The value yielded by the instruction at this index.
    Reg(usize),
    /// An `i32` constant.
    Int(i32),
    /// The `i1` constant `true`.
    True,
}

/// Integer arithmetic on `i32`.
#[derive(Debug, Clone, Copy, PartialEq, Eq, Structural)]
pub enum ArithOp {
    Add,
    Sub,
    Mul,
    SignedDiv,
    SignedRem,
}

/// The signed integer comparisons.
#[derive(Debug, Clone, Copy, PartialEq, Eq, Structural)]
pub enum Comparison {
    Equal,
    NotEqual,
    Less,
    LessOrEqual,
    Greater,
    GreaterOrEqual,
}

/// The blocks that lowering creates; each kind has its LLVM name.
#[derive(Debug, Clone, Copy, PartialEq, Eq, Structural)]
pub enum BlockKind {
    Entry,
    Return,
    Then,
    Else,
    IfCont,
    WhileCond,
    WhileBody,
    WhileCont,
    ForCond,
    ForBody,
    ForStep,
    ForCont,
    AndRhs,
    AndMerge,
    OrRhs,
    OrMerge,
    CondTrue,
    CondFalse,
    CondEnd,
}

/// One builder step. Blocks are numbered in the order they are created.
#[derive(Debug, Clone, PartialEq, Eq)]
pub enum Instr {
    /// Creates the next block.
    NewBlock(BlockKind),
    /// Moves to the end of a block.
    Position(usize),
    /// A stack slot of a type, named `name`; yields its address.
    Alloca { ty: Type, name: String },
    /// Yields the function's parameter at `index`.
    Param { index: usize },
    /// Stores `value` at the address `ptr`.
    Store { value: Operand, ptr: Operand },
    /// Stores the zero (or null) value of a type at the address `ptr`.
    StoreZero { ty: Type, ptr: Operand },
    /// Loads from the address `ptr`; named `name`.
    Load { ptr: Operand, name: String },
    /// Negates an `i32`.
    Neg { value: Operand },
    /// `lhs op rhs` on `i32`.
    Arith { op: ArithOp, lhs: Operand, rhs: Operand },
    /// Compares two integers, yielding an `i1`; named `name`.
    Compare { relation: Comparison, lhs: Operand, rhs: Operand, name: String },
    /// Zero-extends an `i1` to `i32`; named `name`.
    ZExt { value: Operand, name: String },
    /// Jumps to a block.
    Br { target: usize },
    /// Jumps to `then_block` when `cond` is true, else to `else_block`.
    CondBr { cond: Operand, then_block: usize, else_block: usize },
    /// An `i32` phi of two incoming values; named `name`.
    Phi { name: String, first: Operand, first_block: usize, second: Operand, second_block: usize },
    /// Calls the function named `callee`.
    Call { callee: String, args: Vec<Operand> },
    /// Returns `value`.
    Ret { value: Operand },
}

pub enum InstrView {
    NewBlock(BlockKind),
    Position(nat),
    Alloca { ty: Type, name: Seq<char> },
    Param { index: nat },
    Store { value: Operand, ptr: Operand },
    StoreZero { ty: Type, ptr: Operand },
    Load { ptr: Operand, name: Seq<char> },
    Neg { value: Operand },
    Arith { op: ArithOp, lhs: Operand, rhs: Operand },
    Compare { relation: Comparison, lhs: Operand, rhs: Operand, name: Seq<char> },
    ZExt { value: Operand, name: Seq<char> },
    Br { target: nat },
    CondBr { cond: Operand, then_block: nat, else_block: nat },
    Phi { name: Seq<char>, first: Operand, first_block: nat, second: Operand, second_block: nat },
    Call { callee: Seq<char>, args: Seq<Operand> },
    Ret { value: Operand },
}

impl View for Instr {
    type V = InstrView;

    open spec fn view(&self) -> InstrView {
        match self {
            Instr::NewBlock(k) => InstrView::NewBlock(*k),
            Instr::Position(b) => InstrView::Position(*b as nat),
            Instr::Alloca { ty, name } => InstrView::Alloca { ty: *ty, name: name@ },
            Instr::Param { index } => InstrView::Param { index: *index as nat },
            Instr::Store { value, ptr } => InstrView::Store { value: *value, ptr: *ptr },
            Instr::StoreZero { ty, ptr } => InstrView::StoreZero { ty: *ty, ptr: *ptr },
            Instr::Load { ptr, name } => InstrView::Load { ptr: *ptr, name: name@ },
            Instr::Neg { value } => InstrView::Neg { value: *value },
            Instr::Arith { op, lhs, rhs } => InstrView::Arith { op: *op, lhs: *lhs, rhs: *rhs },
            Instr::Compare { relation, lhs, rhs, name } => InstrView::Compare {
                relation: *relation,
                lhs: *lhs,
                rhs: *rhs,
                name: name@,
            },
            Instr::ZExt { value, name } => InstrView::ZExt { value: *value, name: name@ },
            Instr::Br { target } => InstrView::Br { target: *target as nat },
            Instr::CondBr { cond, then_block, else_block } => InstrView::CondBr {
                cond: *cond,
                then_block: *then_block as nat,
                else_block: *else_block as nat,
            },
            Instr::Phi { name, first, first_block, second, second_block } => InstrView::Phi {
                name: name@,
                first: *first,
                first_block: *first_block as nat,
                second: *second,
                second_block: *second_block as nat,
            },
            Instr::Call { callee, args } => InstrView::Call { callee: callee@, args: args@ },
            Instr::Ret { value } => InstrView::Ret { value: *value },
        }
    }
}

/// The code of one function.
pub struct IrFunction {
    pub name: String,
    pub return_type: Type,
    pub params: Vec<Type>,
    pub code: Vec<Instr>,
}

pub struct IrFunctionView {
    pub name: Seq<char>,
    pub return_type: Type,
    pub params: Seq<Type>,
    pub code: Seq<InstrView>,
}

pub open spec fn instrs_view(code: Seq<Instr>) -> Seq<InstrView> {
    code.map_values(|i: Instr| i@)
}

impl View for IrFunction {
    type V = IrFunctionView;

    open spec fn view(&self) -> IrFunctionView {
        IrFunctionView {
            name: self.name@,
            return_type: self.return_type,
            params: self.params@,
            code: instrs_view(self.code@),
        }
    }
}

/// A module: its functions in source order.
pub struct IrModule {
    pub functions: Vec<IrFunction>,
}

impl View for IrModule {
    type V = Seq<IrFunctionView>;

    open spec fn view(&self) -> Seq<IrFunctionView> {
        self.functions@.map_values(|f: IrFunction| f@)
    }
}

// ---------------------------------------------------------------------------
// What the arithmetic steps compute
// ---------------------------------------------------------------------------

/// `x` as an `i32` holds it: reduced modulo 2^32 into `[-2^31, 2^31)`.
pub open spec fn wrap(x: int) -> int {
    (x + 0x8000_0000) % 0x1_0000_0000 - 0x8000_0000
}

pub open spec fn magnitude(x: int) -> int {
    if x < 0 {
        -x
    } else {
        x
    }
}

/// Division truncating toward zero.
pub open spec fn truncated_quotient(a: int, b: int) -> int {
    if (a >= 0) == (b >= 0) {
        magnitude(a) / magnitude(b)
    } else {
        -(magnitude(a) / magnitude(b))
    }
}

/// What an arithmetic step yields on `i32` values `a` and `b`: `+ - *` wrap,
/// and signed division and remainder yield nothing (undefined behaviour)
/// for a zero divisor or for `-2^31` divided by `-1`.
pub open spec fn arith_value(op: ArithOp, a: int, b: int) -> Option<int> {
    match op {
        ArithOp::Add => Some(wrap(a + b)),
        ArithOp::Sub => Some(wrap(a - b)),
        ArithOp::Mul => Some(wrap(a * b)),
        _ => if b == 0 || (a == -0x8000_0000 && b == -1) {
            None
        } else if op == ArithOp::SignedDiv {
            Some(truncated_quotient(a, b))
        } else {
            Some(a - b * truncated_quotient(a, b))
        },
    }
}

/// Whether `a relation b` holds.
pub open spec fn holds(relation: Comparison, a: int, b: int) -> bool {
    match relation {
        Comparison::Equal => a == b,
        Comparison::NotEqual => a != b,
        Comparison::Less => a < b,
        Comparison::LessOrEqual => a <= b,
        Comparison::Greater => a > b,
        Comparison::GreaterOrEqual => a >= b,
    }
}

/// The value of an operand in `code`, read before step `below`: a constant,
/// or the value of an earlier step.
pub open spec fn operand_value(code: Seq<InstrView>, o: Operand, below: nat) -> Option<int>
    decreases below, 0nat,
{
    match o {
        Operand::Int(v) => Some(v as int),
        Operand::True => Some(1),
        Operand::Reg(j) => if j < below {
            step_value(code, j as nat)
        } else {
            None
        },
    }
}

/// The value that step `k` of `code` yields when it computes from its
/// operands alone: arithmetic, negation, comparison (1 or 0) and zero
/// extension. Other steps (memory, calls, phis) give none here.
pub open spec fn step_value(code: Seq<InstrView>, k: nat) -> Option<int>
    decreases k, 1nat,
{
    if k >= code.len() {
        None
    } else {
        match code[k as int] {
            InstrView::Arith { op, lhs, rhs } => match (
                operand_value(code, lhs, k),
                operand_value(code, rhs, k),
            ) {
                (Some(a), Some(b)) => arith_value(op, a, b),
                _ => None,
            },
            InstrView::Neg { value } => match operand_value(code, value, k) {
                Some(v) => Some(wrap(-v)),
                None => None,
            },
            InstrView::Compare { relation, lhs, rhs, .. } => match (
                operand_value(code, lhs, k),
                operand_value(code, rhs, k),
            ) {
                (Some(a), Some(b)) => Some(if holds(relation, a, b) { 1int } else { 0int }),
                _ => None,
            },
            InstrView::ZExt { value, .. } => operand_value(code, value, k),
            _ => None,
        }
    }
}

/// Steps added after a step do not change its value.
pub proof fn lemma_step_value_frame(c1: Seq<InstrView>, c2: Seq<InstrView>, k: nat)
    requires
        k < c1.len(),
    ensures
        step_value(c1 + c2, k) == step_value(c1, k),
    decreases k, 1nat,
{
    assert((c1 + c2)[k as int] == c1[k as int]);
    match c1[k as int] {
        InstrView::Arith { lhs, rhs, .. } => {
            lemma_operand_value_frame(c1, c2, lhs, k);
            lemma_operand_value_frame(c1, c2, rhs, k);
        },
        InstrView::Neg { value } => {
            lemma_operand_value_frame(c1, c2, value, k);
        },
        InstrView::Compare { lhs, rhs, .. } => {
            lemma_operand_value_frame(c1, c2, lhs, k);
            lemma_operand_value_frame(c1, c2, rhs, k);
        },
        InstrView::ZExt { value, .. } => {
            lemma_operand_value_frame(c1, c2, value, k);
        },
        _ => {},
    }
}

pub proof fn lemma_operand_value_frame(c1: Seq<InstrView>, c2: Seq<InstrView>, o: Operand, below: nat)
    requires
        below <= c1.len(),
    ensures
        operand_value(c1 + c2, o, below) == operand_value(c1, o, below),
    decreases below, 0nat,
{
    if let Operand::Reg(j) = o {
        if j < below {
            lemma_step_value_frame(c1, c2, j as nat);
        }
    }
}

} // verus!

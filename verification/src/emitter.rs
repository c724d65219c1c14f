//! The LLVM module that code is handed to, one step at a time.
//!
//! An [`Emitter`] holds an `inkwell` module and builder, the blocks of the
//! function being built, and the LLVM value that each of its steps yielded
//! (a placeholder for a step that yields none), so that the `k`-th value is
//! the one of step `k`. `handed` names the steps handed over so far, one
//! sequence per function begun. Each step function below makes the one
//! `inkwell` call of its step, on the LLVM values that its operands name,
//! and is trusted to record that step in `handed`.
use vstd::prelude::*;
use crate::ast::Type;
use crate::ir::{ArithOp, BlockKind, Comparison, InstrView, Operand};
use inkwell::basic_block::BasicBlock;
use inkwell::builder::Builder;
use inkwell::context::Context;
use inkwell::module::Module;
use inkwell::types::{BasicMetadataTypeEnum, BasicType, BasicTypeEnum};
use inkwell::values::{BasicMetadataValueEnum, BasicValueEnum, FunctionValue, IntValue, PointerValue};
use inkwell::{AddressSpace, IntPredicate};

verus! {

/// An LLVM module under construction, with its builder.
#[verifier::external_body]
pub struct Emitter<'ctx> {
    context: &'ctx Context,
    module: Module<'ctx>,
    builder: Builder<'ctx>,
    function: Option<FunctionValue<'ctx>>,
    blocks: Vec<BasicBlock<'ctx>>,
    values: Vec<BasicValueEnum<'ctx>>,
}

/// The steps handed to LLVM: for each function begun, its steps in order.
pub uninterp spec fn handed(e: Emitter) -> Seq<Seq<InstrView>>;

/// The steps handed after `s` is added to the function being built.
pub open spec fn record(h: Seq<Seq<InstrView>>, s: InstrView) -> Seq<Seq<InstrView>> {
    h.drop_last().push(h.last().push(s))
}

/// The number of blocks that steps create.
pub open spec fn blocks_created(steps: Seq<InstrView>) -> nat
    decreases steps.len(),
{
    if steps.len() == 0 {
        0
    } else {
        blocks_created(steps.drop_last()) + if steps.last() is NewBlock {
            1nat
        } else {
            0nat
        }
    }
}

/// A function has been begun.
pub open spec fn building(h: Seq<Seq<InstrView>>) -> bool {
    h.len() > 0
}

/// An operand names a constant or an earlier step of the function being built.
pub open spec fn operand_in(h: Seq<Seq<InstrView>>, o: Operand) -> bool {
    building(h) && match o {
        Operand::Reg(k) => k < h.last().len(),
        _ => true,
    }
}

/// A block of the function being built.
pub open spec fn block_in(h: Seq<Seq<InstrView>>, b: nat) -> bool {
    building(h) && b < blocks_created(h.last())
}

impl<'ctx> Emitter<'ctx> {
    /// The LLVM integer that an operand names: a constant, or the value of
    /// an earlier step when that value is an integer.
    #[verifier::external_body]
    fn int_at(&self, o: Operand) -> Option<IntValue<'ctx>> {
        match o {
            Operand::Reg(k) => match self.values[k] {
                BasicValueEnum::IntValue(v) => Some(v),
                _ => None,
            },
            Operand::Int(v) => Some(self.context.i32_type().const_int(v as u64, true)),
            Operand::True => Some(self.context.bool_type().const_int(1, false)),
        }
    }

    /// The LLVM pointer that an operand names, when it names one.
    #[verifier::external_body]
    fn pointer_at(&self, o: Operand) -> Option<PointerValue<'ctx>> {
        match o {
            Operand::Reg(k) => match self.values[k] {
                BasicValueEnum::PointerValue(v) => Some(v),
                _ => None,
            },
            _ => None,
        }
    }

    /// The LLVM value that an operand names.
    #[verifier::external_body]
    fn value_at(&self, o: Operand) -> BasicValueEnum<'ctx> {
        match o {
            Operand::Reg(k) => self.values[k],
            _ => BasicValueEnum::IntValue(self.int_at(o).unwrap()),
        }
    }

    /// The LLVM type of a type: `i32` under as many pointer levels.
    #[verifier::external_body]
    fn llvm_type(&self, ty: &Type) -> BasicTypeEnum<'ctx> {
        let mut lt = BasicTypeEnum::IntType(self.context.i32_type());
        let mut t = ty;
        while let Type::Pointer(inner) = t {
            lt = BasicTypeEnum::PointerType(lt.ptr_type(AddressSpace::default()));
            t = inner;
        }
        lt
    }

    /// Records the value of the step just handed over.
    #[verifier::external_body]
    fn yielded(&mut self, v: Option<BasicValueEnum<'ctx>>) {
        let placeholder = BasicValueEnum::IntValue(self.context.i32_type().const_zero());
        self.values.push(v.unwrap_or(placeholder));
    }
}

/// An emitter for a module and its builder; nothing handed over yet.
#[verifier::external_body]
pub(crate) fn new_emitter<'ctx>(context: &'ctx Context, module: Module<'ctx>, builder: Builder<'ctx>) -> (r:
    Emitter<'ctx>)
    ensures
        handed(r) == Seq::<Seq<InstrView>>::empty(),
{
    Emitter { context, module, builder, function: None, blocks: Vec::new(), values: Vec::new() }
}

/// `Module::add_function` for a function returning `ret` and taking `params`
/// (`BasicType::fn_type`, not variadic). Hands over no step.
#[verifier::external_body]
pub(crate) fn declare_function<'ctx>(e: &mut Emitter<'ctx>, name: &str, ret: &Type, params: &Vec<Type>)
    ensures
        handed(*final(e)) == handed(*old(e)),
{
    let params: Vec<BasicMetadataTypeEnum<'ctx>> = params.iter().map(|t| e.llvm_type(t).into()).collect();
    let fn_type = e.llvm_type(ret).fn_type(&params, false);
    e.module.add_function(name, fn_type, None);
}

/// Begins the function named `name` (`Module::get_function`): from here on,
/// steps go to it. Fails when the module has no such function.
#[verifier::external_body]
pub(crate) fn begin_function<'ctx>(e: &mut Emitter<'ctx>, name: &str) -> (r: bool)
    ensures
        r ==> handed(*final(e)) == handed(*old(e)).push(Seq::empty()),
{
    e.function = e.module.get_function(name);
    e.blocks = Vec::new();
    e.values = Vec::new();
    e.function.is_some()
}

/// `FunctionValue::verify` of the function being built, printing LLVM's findings.
#[verifier::external_body]
pub(crate) fn verify_current_function<'ctx>(e: &Emitter<'ctx>) -> bool {
    e.function.map_or(false, |f| f.verify(true))
}

/// `Module::verify`; LLVM's message on failure.
#[verifier::external_body]
pub(crate) fn verify_emitted_module<'ctx>(e: &Emitter<'ctx>) -> Result<(), String> {
    e.module.verify().map_err(|err| err.to_string())
}

/// The text that LLVM prints for the module of an emitter.
pub uninterp spec fn printed(e: Emitter) -> Seq<char>;

/// Some emitter was handed exactly `steps` and prints as `text`.
pub open spec fn emitted(steps: Seq<Seq<InstrView>>, text: Seq<char>) -> bool {
    exists|e: Emitter| handed(e) == steps && #[trigger] printed(e) == text
}

/// `Module::print_to_string`, as a `String`. Claimed: the text is
/// `printed` of the emitter.
#[verifier::external_body]
pub(crate) fn print_emitted_module<'ctx>(e: &Emitter<'ctx>) -> (r: String)
    ensures
        r@ == printed(*e),
{
    e.module.print_to_string().to_string()
}

/// `Context::append_basic_block` to the function being built, named `name`.
/// Claimed: when it succeeds, the step is recorded in `handed`, as given.
#[verifier::external_body]
pub(crate) fn step_new_block<'ctx>(e: &mut Emitter<'ctx>, kind: BlockKind, name: &str) -> (r: Result<(), String>)
    requires
        building(handed(*old(e))),
    ensures
        r is Ok ==> handed(*final(e)) == record(handed(*old(e)), InstrView::NewBlock(kind)),
{
    let f = e.function.ok_or_else(|| "no function is being built".to_string())?;
    let block = e.context.append_basic_block(f, name);
    e.blocks.push(block);
    e.yielded(None);
    Ok(())
}

/// `Builder::position_at_end` of block `b`.
/// Claimed: when it succeeds, the step is recorded in `handed`, as given.
#[verifier::external_body]
pub(crate) fn step_position<'ctx>(e: &mut Emitter<'ctx>, b: usize) -> (r: Result<(), String>)
    requires
        block_in(handed(*old(e)), b as nat),
    ensures
        r is Ok ==> handed(*final(e)) == record(handed(*old(e)), InstrView::Position(b as nat)),
{
    e.builder.position_at_end(e.blocks[b]);
    e.yielded(None);
    Ok(())
}

/// `Builder::build_alloca` of the LLVM type of `ty`.
/// Claimed: when it succeeds, the step is recorded in `handed`, as given.
#[verifier::external_body]
pub(crate) fn step_alloca<'ctx>(e: &mut Emitter<'ctx>, ty: &Type, name: &String) -> (r: Result<(), String>)
    requires
        building(handed(*old(e))),
    ensures
        r is Ok ==> handed(*final(e)) == record(
            handed(*old(e)),
            InstrView::Alloca { ty: *ty, name: name@ },
        ),
{
    let lt = e.llvm_type(ty);
    let p = e.builder.build_alloca(lt, name).map_err(|err| format!("failed to build alloca: {err}"))?;
    e.yielded(Some(BasicValueEnum::PointerValue(p)));
    Ok(())
}

/// `FunctionValue::get_nth_param` of the function being built.
/// Claimed: when it succeeds, the step is recorded in `handed`, as given.
#[verifier::external_body]
pub(crate) fn step_param<'ctx>(e: &mut Emitter<'ctx>, index: usize) -> (r: Result<(), String>)
    requires
        building(handed(*old(e))),
    ensures
        r is Ok ==> handed(*final(e)) == record(handed(*old(e)), InstrView::Param { index: index as nat }),
{
    let n = u32::try_from(index).ok().filter(|n| *n < u32::MAX);
    let v = e.function.zip(n).and_then(|(f, n)| f.get_nth_param(n));
    let v = v.ok_or_else(|| "parameter not found in LLVM function".to_string())?;
    e.yielded(Some(v));
    Ok(())
}

/// `Builder::build_store` of `value` at the address `ptr`.
/// Claimed: when it succeeds, the step is recorded in `handed`, as given.
#[verifier::external_body]
pub(crate) fn step_store<'ctx>(e: &mut Emitter<'ctx>, value: Operand, ptr: Operand) -> (r: Result<(), String>)
    requires
        operand_in(handed(*old(e)), value),
        operand_in(handed(*old(e)), ptr),
    ensures
        r is Ok ==> handed(*final(e)) == record(handed(*old(e)), InstrView::Store { value, ptr }),
{
    let p = e.pointer_at(ptr).ok_or_else(|| "expected a pointer operand".to_string())?;
    let v = e.value_at(value);
    e.builder.build_store(p, v).map_err(|err| format!("failed to build store: {err}"))?;
    e.yielded(None);
    Ok(())
}

/// `Builder::build_store` of the zero value of the LLVM type of `ty`.
/// Claimed: when it succeeds, the step is recorded in `handed`, as given.
#[verifier::external_body]
pub(crate) fn step_store_zero<'ctx>(e: &mut Emitter<'ctx>, ty: &Type, ptr: Operand) -> (r: Result<(), String>)
    requires
        operand_in(handed(*old(e)), ptr),
    ensures
        r is Ok ==> handed(*final(e)) == record(handed(*old(e)), InstrView::StoreZero { ty: *ty, ptr }),
{
    let p = e.pointer_at(ptr).ok_or_else(|| "expected a pointer operand".to_string())?;
    let zero = e.llvm_type(ty).const_zero();
    e.builder.build_store(p, zero).map_err(|err| format!("failed to store initial retval: {err}"))?;
    e.yielded(None);
    Ok(())
}

/// `Builder::build_load` from the address `ptr`.
/// Claimed: when it succeeds, the step is recorded in `handed`, as given.
#[verifier::external_body]
pub(crate) fn step_load<'ctx>(e: &mut Emitter<'ctx>, ptr: Operand, name: &String) -> (r: Result<(), String>)
    requires
        operand_in(handed(*old(e)), ptr),
    ensures
        r is Ok ==> handed(*final(e)) == record(handed(*old(e)), InstrView::Load { ptr, name: name@ }),
{
    let p = e.pointer_at(ptr).ok_or_else(|| "expected a pointer operand".to_string())?;
    let v = e.builder.build_load(p, name).map_err(|err| format!("failed to build load instruction: {err}"))?;
    e.yielded(Some(v));
    Ok(())
}

/// `Builder::build_int_neg`.
/// Claimed: when it succeeds, the step is recorded in `handed`, as given.
#[verifier::external_body]
pub(crate) fn step_neg<'ctx>(e: &mut Emitter<'ctx>, value: Operand) -> (r: Result<(), String>)
    requires
        operand_in(handed(*old(e)), value),
    ensures
        r is Ok ==> handed(*final(e)) == record(handed(*old(e)), InstrView::Neg { value }),
{
    let v = e.int_at(value).ok_or_else(|| "expected an integer operand".to_string())?;
    let r = e.builder.build_int_neg(v, "negtmp").map_err(|err| format!("failed to emit neg instruction: {err}"))?;
    e.yielded(Some(BasicValueEnum::IntValue(r)));
    Ok(())
}

/// `Builder::build_int_add`.
/// Claimed: when it succeeds, the step is recorded in `handed`, as given.
#[verifier::external_body]
pub(crate) fn step_add<'ctx>(e: &mut Emitter<'ctx>, lhs: Operand, rhs: Operand) -> (r: Result<(), String>)
    requires
        operand_in(handed(*old(e)), lhs),
        operand_in(handed(*old(e)), rhs),
    ensures
        r is Ok ==> handed(*final(e)) == record(handed(*old(e)), InstrView::Arith { op: ArithOp::Add, lhs, rhs }),
{
    let l = e.int_at(lhs).ok_or_else(|| "expected an integer operand".to_string())?;
    let r = e.int_at(rhs).ok_or_else(|| "expected an integer operand".to_string())?;
    let v = e.builder.build_int_add(l, r, "addtmp").map_err(|err| format!("failed to emit add instruction: {err}"))?;
    e.yielded(Some(BasicValueEnum::IntValue(v)));
    Ok(())
}

/// `Builder::build_int_sub`.
/// Claimed: when it succeeds, the step is recorded in `handed`, as given.
#[verifier::external_body]
pub(crate) fn step_sub<'ctx>(e: &mut Emitter<'ctx>, lhs: Operand, rhs: Operand) -> (r: Result<(), String>)
    requires
        operand_in(handed(*old(e)), lhs),
        operand_in(handed(*old(e)), rhs),
    ensures
        r is Ok ==> handed(*final(e)) == record(handed(*old(e)), InstrView::Arith { op: ArithOp::Sub, lhs, rhs }),
{
    let l = e.int_at(lhs).ok_or_else(|| "expected an integer operand".to_string())?;
    let r = e.int_at(rhs).ok_or_else(|| "expected an integer operand".to_string())?;
    let v = e.builder.build_int_sub(l, r, "subtmp").map_err(|err| format!("failed to emit sub instruction: {err}"))?;
    e.yielded(Some(BasicValueEnum::IntValue(v)));
    Ok(())
}

/// `Builder::build_int_mul`.
/// Claimed: when it succeeds, the step is recorded in `handed`, as given.
#[verifier::external_body]
pub(crate) fn step_mul<'ctx>(e: &mut Emitter<'ctx>, lhs: Operand, rhs: Operand) -> (r: Result<(), String>)
    requires
        operand_in(handed(*old(e)), lhs),
        operand_in(handed(*old(e)), rhs),
    ensures
        r is Ok ==> handed(*final(e)) == record(handed(*old(e)), InstrView::Arith { op: ArithOp::Mul, lhs, rhs }),
{
    let l = e.int_at(lhs).ok_or_else(|| "expected an integer operand".to_string())?;
    let r = e.int_at(rhs).ok_or_else(|| "expected an integer operand".to_string())?;
    let v = e.builder.build_int_mul(l, r, "multmp").map_err(|err| format!("failed to emit mul instruction: {err}"))?;
    e.yielded(Some(BasicValueEnum::IntValue(v)));
    Ok(())
}

/// `Builder::build_int_signed_div`.
/// Claimed: when it succeeds, the step is recorded in `handed`, as given.
#[verifier::external_body]
pub(crate) fn step_signed_div<'ctx>(e: &mut Emitter<'ctx>, lhs: Operand, rhs: Operand) -> (r: Result<(), String>)
    requires
        operand_in(handed(*old(e)), lhs),
        operand_in(handed(*old(e)), rhs),
    ensures
        r is Ok ==> handed(*final(e)) == record(handed(*old(e)), InstrView::Arith { op: ArithOp::SignedDiv, lhs, rhs }),
{
    let l = e.int_at(lhs).ok_or_else(|| "expected an integer operand".to_string())?;
    let r = e.int_at(rhs).ok_or_else(|| "expected an integer operand".to_string())?;
    let v = e.builder.build_int_signed_div(l, r, "divtmp").map_err(|err| format!("failed to emit div instruction: {err}"))?;
    e.yielded(Some(BasicValueEnum::IntValue(v)));
    Ok(())
}

/// `Builder::build_int_signed_rem`.
/// Claimed: when it succeeds, the step is recorded in `handed`, as given.
#[verifier::external_body]
pub(crate) fn step_signed_rem<'ctx>(e: &mut Emitter<'ctx>, lhs: Operand, rhs: Operand) -> (r: Result<(), String>)
    requires
        operand_in(handed(*old(e)), lhs),
        operand_in(handed(*old(e)), rhs),
    ensures
        r is Ok ==> handed(*final(e)) == record(handed(*old(e)), InstrView::Arith { op: ArithOp::SignedRem, lhs, rhs }),
{
    let l = e.int_at(lhs).ok_or_else(|| "expected an integer operand".to_string())?;
    let r = e.int_at(rhs).ok_or_else(|| "expected an integer operand".to_string())?;
    let v = e.builder.build_int_signed_rem(l, r, "remtmp").map_err(|err| format!("failed to emit rem instruction: {err}"))?;
    e.yielded(Some(BasicValueEnum::IntValue(v)));
    Ok(())
}

/// `Builder::build_int_compare` with the signed predicate of `relation`.
/// Claimed: when it succeeds, the step is recorded in `handed`, as given.
#[verifier::external_body]
pub(crate) fn step_compare<'ctx>(e: &mut Emitter<'ctx>, relation: Comparison, lhs: Operand, rhs: Operand, name: &String) -> (r: Result<(), String>)
    requires
        operand_in(handed(*old(e)), lhs),
        operand_in(handed(*old(e)), rhs),
    ensures
        r is Ok ==> handed(*final(e)) == record(handed(*old(e)), InstrView::Compare { relation, lhs, rhs, name: name@ }),
{
    let l = e.int_at(lhs).ok_or_else(|| "expected an integer operand".to_string())?;
    let r = e.int_at(rhs).ok_or_else(|| "expected an integer operand".to_string())?;
    let predicate = match relation {
        Comparison::Equal => IntPredicate::EQ,
        Comparison::NotEqual => IntPredicate::NE,
        Comparison::Less => IntPredicate::SLT,
        Comparison::LessOrEqual => IntPredicate::SLE,
        Comparison::Greater => IntPredicate::SGT,
        Comparison::GreaterOrEqual => IntPredicate::SGE,
    };
    let v = e.builder.build_int_compare(predicate, l, r, name).map_err(|err| format!("failed to emit cmp instruction: {err}"))?;
    e.yielded(Some(BasicValueEnum::IntValue(v)));
    Ok(())
}

/// `Builder::build_int_z_extend` to `i32`.
/// Claimed: when it succeeds, the step is recorded in `handed`, as given.
#[verifier::external_body]
pub(crate) fn step_zext<'ctx>(e: &mut Emitter<'ctx>, value: Operand, name: &String) -> (r: Result<(), String>)
    requires
        operand_in(handed(*old(e)), value),
    ensures
        r is Ok ==> handed(*final(e)) == record(handed(*old(e)), InstrView::ZExt { value, name: name@ }),
{
    let v = e.int_at(value).ok_or_else(|| "expected an integer operand".to_string())?;
    let i32_type = e.context.i32_type();
    let r = e.builder.build_int_z_extend(v, i32_type, name).map_err(|err| format!("failed to emit zext instruction: {err}"))?;
    e.yielded(Some(BasicValueEnum::IntValue(r)));
    Ok(())
}

/// `Builder::build_unconditional_branch` to block `target`.
/// Claimed: when it succeeds, the step is recorded in `handed`, as given.
#[verifier::external_body]
pub(crate) fn step_br<'ctx>(e: &mut Emitter<'ctx>, target: usize) -> (r: Result<(), String>)
    requires
        block_in(handed(*old(e)), target as nat),
    ensures
        r is Ok ==> handed(*final(e)) == record(handed(*old(e)), InstrView::Br { target: target as nat }),
{
    e.builder.build_unconditional_branch(e.blocks[target]).map_err(|err| err.to_string())?;
    e.yielded(None);
    Ok(())
}

/// `Builder::build_conditional_branch` on `cond` to blocks `then_block` and `else_block`.
/// Claimed: when it succeeds, the step is recorded in `handed`, as given.
#[verifier::external_body]
pub(crate) fn step_cond_br<'ctx>(e: &mut Emitter<'ctx>, cond: Operand, then_block: usize, else_block: usize) -> (r: Result<(), String>)
    requires
        operand_in(handed(*old(e)), cond),
        block_in(handed(*old(e)), then_block as nat),
        block_in(handed(*old(e)), else_block as nat),
    ensures
        r is Ok ==> handed(*final(e)) == record(
            handed(*old(e)),
            InstrView::CondBr { cond, then_block: then_block as nat, else_block: else_block as nat },
        ),
{
    let c = e.int_at(cond).ok_or_else(|| "expected an integer operand".to_string())?;
    let (t, f) = (e.blocks[then_block], e.blocks[else_block]);
    e.builder.build_conditional_branch(c, t, f).map_err(|err| err.to_string())?;
    e.yielded(None);
    Ok(())
}

/// `Builder::build_phi` of `i32` with its two incoming values
/// (`PhiValue::add_incoming`).
/// Claimed: when it succeeds, the step is recorded in `handed`, as given.
#[verifier::external_body]
pub(crate) fn step_phi<'ctx>(e: &mut Emitter<'ctx>, name: &String, first: Operand, first_block: usize, second: Operand, second_block: usize) -> (r: Result<(), String>)
    requires
        operand_in(handed(*old(e)), first),
        block_in(handed(*old(e)), first_block as nat),
        operand_in(handed(*old(e)), second),
        block_in(handed(*old(e)), second_block as nat),
    ensures
        r is Ok ==> handed(*final(e)) == record(
            handed(*old(e)),
            InstrView::Phi { name: name@, first, first_block: first_block as nat, second, second_block: second_block as nat },
        ),
{
    let a = e.int_at(first).ok_or_else(|| "expected an integer operand".to_string())?;
    let c = e.int_at(second).ok_or_else(|| "expected an integer operand".to_string())?;
    let phi = e.builder.build_phi(e.context.i32_type(), name).map_err(|err| err.to_string())?;
    phi.add_incoming(&[(&a, e.blocks[first_block]), (&c, e.blocks[second_block])]);
    e.yielded(Some(phi.as_basic_value()));
    Ok(())
}

/// `Builder::build_call` of the module's function named `callee`
/// (`Module::get_function`), yielding its value (`try_as_basic_value`).
/// Claimed: when it succeeds, the step is recorded in `handed`, as given.
#[verifier::external_body]
pub(crate) fn step_call<'ctx>(e: &mut Emitter<'ctx>, callee: &String, args: &Vec<Operand>) -> (r: Result<(), String>)
    requires
        forall|i: int| 0 <= i < args.len() ==> operand_in(handed(*old(e)), #[trigger] args@[i]),
        building(handed(*old(e))),
    ensures
        r is Ok ==> handed(*final(e)) == record(handed(*old(e)), InstrView::Call { callee: callee@, args: args@ }),
{
    let f = e.module.get_function(callee).ok_or_else(|| format!("undefined function '{callee}'"))?;
    let values: Vec<BasicMetadataValueEnum<'ctx>> = args.iter().map(|a| e.value_at(*a).into()).collect();
    let site = e.builder.build_call(f, &values, callee).map_err(|err| format!("failed to build call to '{callee}': {err}"))?;
    let v = site.try_as_basic_value().left().ok_or_else(|| format!("function '{callee}' did not return a value"))?;
    e.yielded(Some(v));
    Ok(())
}

/// `Builder::build_return` of `value`.
/// Claimed: when it succeeds, the step is recorded in `handed`, as given.
#[verifier::external_body]
pub(crate) fn step_ret<'ctx>(e: &mut Emitter<'ctx>, value: Operand) -> (r: Result<(), String>)
    requires
        operand_in(handed(*old(e)), value),
    ensures
        r is Ok ==> handed(*final(e)) == record(handed(*old(e)), InstrView::Ret { value }),
{
    let v = e.value_at(value);
    e.builder.build_return(Some(&v)).map_err(|err| format!("failed to build return instruction: {err}"))?;
    e.yielded(None);
    Ok(())
}

} // verus!

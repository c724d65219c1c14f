//! The parts of `inkwell` (LLVM) that set up a module for the host target.
//!
//! LLVM's objects are opaque here: each function below makes one call into
//! `inkwell` and is trusted to do what that call does; nothing is claimed of
//! the value it returns beyond its type. The steps of the code itself are
//! handed over in [`crate::emitter`].
use vstd::prelude::*;
use inkwell::builder::Builder;
use inkwell::context::Context;
use inkwell::module::Module;
use inkwell::targets::{
    CodeModel, InitializationConfig, RelocMode, Target, TargetData, TargetMachine, TargetTriple,
};
use inkwell::types::BasicTypeEnum;
use inkwell::values::{BasicValueEnum, IntValue, PointerValue};
use inkwell::data_layout::DataLayout;
use inkwell::OptimizationLevel;

verus! {
#[verifier::external_type_specification]
#[verifier::external_body]
pub struct ExContext(Context);

#[verifier::external_type_specification]
#[verifier::external_body]
pub struct ExModule<'ctx>(Module<'ctx>);

#[verifier::external_type_specification]
#[verifier::external_body]
pub struct ExBuilder<'ctx>(Builder<'ctx>);

#[verifier::external_type_specification]
#[verifier::external_body]
pub struct ExBasicTypeEnum<'ctx>(BasicTypeEnum<'ctx>);

#[verifier::external_type_specification]
#[verifier::external_body]
pub struct ExIntValue<'ctx>(IntValue<'ctx>);

#[verifier::external_type_specification]
#[verifier::external_body]
pub struct ExPointerValue<'ctx>(PointerValue<'ctx>);

#[verifier::external_type_specification]
#[verifier::external_body]
pub struct ExBasicValueEnum<'ctx>(BasicValueEnum<'ctx>);

#[verifier::external_type_specification]
#[verifier::external_body]
pub struct ExTargetTriple(TargetTriple);

#[verifier::external_type_specification]
#[verifier::external_body]
pub struct ExTarget(Target);

#[verifier::external_type_specification]
#[verifier::external_body]
pub struct ExTargetMachine(TargetMachine);

#[verifier::external_type_specification]
#[verifier::external_body]
pub struct ExTargetData(TargetData);

#[verifier::external_type_specification]
#[verifier::external_body]
pub struct ExDataLayout(DataLayout);


// ---------------------------------------------------------------------------
// Targets and modules
// ---------------------------------------------------------------------------

/// `Target::initialize_native` with the default configuration; LLVM's message on failure.
#[verifier::external_body]
pub(crate) fn initialize_native_target() -> Result<(), String> {
    Target::initialize_native(&InitializationConfig::default())
}

/// `Context::create`.
#[verifier::external_body]
pub(crate) fn create_context() -> Context {
    Context::create()
}

/// `Context::create_module`.
#[verifier::external_body]
pub(crate) fn create_module<'ctx>(context: &'ctx Context, name: &str) -> Module<'ctx> {
    context.create_module(name)
}

/// `Context::create_builder`.
#[verifier::external_body]
pub(crate) fn create_builder<'ctx>(context: &'ctx Context) -> Builder<'ctx> {
    context.create_builder()
}

/// `TargetMachine::get_default_triple`.
#[verifier::external_body]
pub(crate) fn default_triple() -> TargetTriple {
    TargetMachine::get_default_triple()
}

/// `Module::set_triple`.
#[verifier::external_body]
pub(crate) fn set_triple<'ctx>(module: &Module<'ctx>, triple: &TargetTriple) {
    module.set_triple(triple)
}

/// `Target::from_triple`; LLVM's message on failure.
#[verifier::external_body]
pub(crate) fn target_from_triple(triple: &TargetTriple) -> Result<Target, String> {
    Target::from_triple(triple).map_err(|err| err.to_string())
}

/// `Target::create_target_machine` for the given CPU and features, without
/// optimisation and with the default relocation and code models.
#[verifier::external_body]
pub(crate) fn create_target_machine(
    target: &Target,
    triple: &TargetTriple,
    cpu: &str,
    features: &str,
) -> Option<TargetMachine> {
    target.create_target_machine(
        triple,
        cpu,
        features,
        OptimizationLevel::None,
        RelocMode::Default,
        CodeModel::Default,
    )
}

/// `TargetMachine::get_target_data`.
#[verifier::external_body]
pub(crate) fn target_data(machine: &TargetMachine) -> TargetData {
    machine.get_target_data()
}

/// `TargetData::get_data_layout`.
#[verifier::external_body]
pub(crate) fn data_layout(data: &TargetData) -> DataLayout {
    data.get_data_layout()
}

/// `Module::set_data_layout`.
#[verifier::external_body]
pub(crate) fn set_data_layout<'ctx>(module: &Module<'ctx>, layout: &DataLayout) {
    module.set_data_layout(layout)
}

} // verus!

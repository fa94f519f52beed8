//! Lowering of a backend module to an LLVM module, through `inkwell`.
//!
//! The functions of the module are declared first, in order, then the
//! primitive that ends the process if any body needs it, and then the bodies
//! are built instruction by instruction.
//!
//! The values of `inkwell` are opaque, so what the LLVM module holds has a
//! name here: its functions in the order of their declaration, each with its
//! name, its type, its block and the instructions that were built in it. The
//! contracts of the calls into `inkwell` say what each call adds to that, and
//! the lowering is proved against them.

use inkwell::basic_block::BasicBlock;
use inkwell::builder::{Builder, BuilderError};
use inkwell::context::Context;
use inkwell::module::{Linkage, Module};
use inkwell::types::{BasicMetadataTypeEnum, FunctionType, IntType, VoidType};
use inkwell::values::{BasicMetadataValueEnum, BasicValue, FunctionValue, IntValue};
use vstd::prelude::*;

use vstd::std_specs::iter::IteratorSpec;
use vstd::string::*;

use crate::compiler::codegen::types::Type;
use crate::compiler::codegen::{
    calls_in_range, module_valid, BackendFunctionView, BackendModule, Instruction,
};
use crate::compiler::lexer::token::str_eq;
use crate::compiler::lexer::{identifier_word, is_identifier_part};
use crate::compiler::parser::ast;

verus! {

/// `Context` of `inkwell`: the owner of everything that is built in LLVM,
/// carried as an opaque value.
#[verifier::external_type_specification]
#[verifier::external_body]
pub struct ExContext(Context);

/// `Module` of `inkwell`: an LLVM module, carried as an opaque value.
#[verifier::external_type_specification]
#[verifier::external_body]
pub struct ExModule<'ctx>(Module<'ctx>);

/// `Builder` of `inkwell`: an LLVM instruction builder, carried as an opaque
/// value.
#[verifier::external_type_specification]
#[verifier::external_body]
pub struct ExBuilder<'ctx>(Builder<'ctx>);

/// `BuilderError` of `inkwell`: why the builder refused an instruction,
/// carried as an opaque value.
#[verifier::external_type_specification]
#[verifier::external_body]
pub struct ExBuilderError(BuilderError);

/// `BasicBlock` of `inkwell`: a block of an LLVM function, carried as an
/// opaque value.
#[verifier::external_type_specification]
#[verifier::external_body]
pub struct ExBasicBlock<'ctx>(BasicBlock<'ctx>);

/// `FunctionType` of `inkwell`: the LLVM type of a function, carried as an
/// opaque value.
#[verifier::external_type_specification]
#[verifier::external_body]
pub struct ExFunctionType<'ctx>(FunctionType<'ctx>);

/// `IntType` of `inkwell`: an LLVM integer type, carried as an opaque value.
#[verifier::external_type_specification]
#[verifier::external_body]
pub struct ExIntType<'ctx>(IntType<'ctx>);

/// `VoidType` of `inkwell`: LLVM's type `void`, carried as an opaque value.
#[verifier::external_type_specification]
#[verifier::external_body]
pub struct ExVoidType<'ctx>(VoidType<'ctx>);

/// `FunctionValue` of `inkwell`: a function of an LLVM module, carried as an
/// opaque value.
#[verifier::external_type_specification]
#[verifier::external_body]
pub struct ExFunctionValue<'ctx>(FunctionValue<'ctx>);

/// `IntValue` of `inkwell`: an LLVM integer value, carried as an opaque
/// value.
#[verifier::external_type_specification]
#[verifier::external_body]
pub struct ExIntValue<'ctx>(IntValue<'ctx>);

/// `Linkage` of `inkwell`: how a function is visible to the linker, carried
/// as an opaque value.
#[verifier::external_type_specification]
#[verifier::external_body]
pub struct ExLinkage(Linkage);

/// A function of an LLVM module: the handle that `inkwell` gives for it, its
/// name and type, its block once one was appended, and the instructions that
/// were built at the end of that block, in order.
pub ghost struct LlvmFunction<'ctx> {
    pub value: FunctionValue<'ctx>,
    pub name: Seq<char>,
    pub ty: FunctionType<'ctx>,
    pub block: Option<BasicBlock<'ctx>>,
    pub code: Seq<LlvmInstruction<'ctx>>,
}

/// An instruction as the builder was asked to build it.
pub ghost enum LlvmInstruction<'ctx> {
    /// A call of `callee` with the arguments `args`.
    Call { callee: FunctionValue<'ctx>, args: Seq<IntValue<'ctx>> },
    /// A return of `value`, or of nothing.
    Return { value: Option<IntValue<'ctx>> },
}

/// What a module holds: its functions, in the order in which they were
/// added. `Module::get_first_function` of `inkwell` and
/// `FunctionValue::get_next_function` walk them in this order.
pub uninterp spec fn module_functions(module: Module<'_>) -> Seq<LlvmFunction<'_>>;

/// The block at whose end a builder stands since it was last positioned
/// there; `None` for a builder that has not been positioned.
pub uninterp spec fn builder_block(builder: Builder<'_>) -> Option<BasicBlock<'_>>;

/// What `IntType::get_bit_width` of `inkwell` gives for an integer type.
pub uninterp spec fn int_type_bits(ty: IntType<'_>) -> nat;

/// What `IntValue::get_type` of `inkwell` gives for an integer value.
pub uninterp spec fn int_value_type(value: IntValue<'_>) -> IntType<'_>;

/// What `IntValue::get_zero_extended_constant` of `inkwell` gives for an
/// integer value: the number that a constant stands for.
pub uninterp spec fn int_value_constant(value: IntValue<'_>) -> Option<u64>;

/// What `FunctionType::get_return_type` of `inkwell` gives for a function
/// type that returns an integer or nothing: the integer type, or `None`.
pub uninterp spec fn function_type_return(ty: FunctionType<'_>) -> Option<IntType<'_>>;

/// What `FunctionType::get_param_types` of `inkwell` gives for a function
/// type whose parameters are integers: their types, in order.
pub uninterp spec fn function_type_params(ty: FunctionType<'_>) -> Seq<IntType<'_>>;

/// What `FunctionType::is_var_arg` of `inkwell` gives for a function type:
/// whether its functions take further arguments behind their parameters.
pub uninterp spec fn function_type_var_args(ty: FunctionType<'_>) -> bool;

/// A function as it is when it has just been added to a module: without a
/// block.
pub open spec fn new_function<'ctx>(
    value: FunctionValue<'ctx>,
    name: Seq<char>,
    ty: FunctionType<'ctx>,
) -> LlvmFunction<'ctx> {
    LlvmFunction { value, name, ty, block: None, code: Seq::empty() }
}

/// Whether one of the functions has the name `name`.
pub open spec fn has_name<'ctx>(fs: Seq<LlvmFunction<'ctx>>, name: Seq<char>) -> bool {
    exists|i: int| 0 <= i < fs.len() && (#[trigger] fs[i]).name == name
}

/// Whether `function` is one of the functions.
pub open spec fn has_function<'ctx>(fs: Seq<LlvmFunction<'ctx>>, function: FunctionValue<'ctx>) -> bool {
    exists|i: int| 0 <= i < fs.len() && (#[trigger] fs[i]).value == function
}

/// Whether `function` is one of the functions and has no block.
pub open spec fn lacks_block<'ctx>(fs: Seq<LlvmFunction<'ctx>>, function: FunctionValue<'ctx>) -> bool {
    exists|i: int| 0 <= i < fs.len() && (#[trigger] fs[i]).value == function && fs[i].block is None
}

/// Whether `block` is the block of one of the functions.
pub open spec fn has_block<'ctx>(fs: Seq<LlvmFunction<'ctx>>, block: BasicBlock<'ctx>) -> bool {
    exists|i: int| 0 <= i < fs.len() && (#[trigger] fs[i]).block == Some(block)
}

/// The types of the values `args`, in order.
pub open spec fn arg_types<'ctx>(args: Seq<IntValue<'ctx>>) -> Seq<IntType<'ctx>> {
    Seq::new(args.len(), |i: int| int_value_type(args[i]))
}

/// Whether `function` is one of the functions and takes exactly arguments of
/// the types of `args`.
pub open spec fn call_fits<'ctx>(
    fs: Seq<LlvmFunction<'ctx>>,
    function: FunctionValue<'ctx>,
    args: Seq<IntValue<'ctx>>,
) -> bool {
    exists|i: int|
        0 <= i < fs.len() && (#[trigger] fs[i]).value == function && !function_type_var_args(
            fs[i].ty,
        ) && function_type_params(fs[i].ty) == arg_types(args)
}

/// The functions after `block` has been appended to `function`.
pub open spec fn with_block<'ctx>(
    fs: Seq<LlvmFunction<'ctx>>,
    function: FunctionValue<'ctx>,
    block: BasicBlock<'ctx>,
) -> Seq<LlvmFunction<'ctx>> {
    Seq::new(
        fs.len(),
        |i: int|
            if fs[i].value == function {
                LlvmFunction { block: Some(block), ..fs[i] }
            } else {
                fs[i]
            },
    )
}

/// The functions after `built` has been built at the end of `block`.
pub open spec fn with_instruction<'ctx>(
    fs: Seq<LlvmFunction<'ctx>>,
    block: BasicBlock<'ctx>,
    built: LlvmInstruction<'ctx>,
) -> Seq<LlvmFunction<'ctx>> {
    Seq::new(
        fs.len(),
        |i: int|
            if fs[i].block == Some(block) {
                LlvmFunction { code: fs[i].code.push(built), ..fs[i] }
            } else {
                fs[i]
            },
    )
}

/// An LLVM module under construction: the context that owns it, the module,
/// and the builder that adds instructions to the blocks of its functions.
pub(crate) struct Lowering<'ctx> {
    pub(crate) context: &'ctx Context,
    pub(crate) module: Module<'ctx>,
    pub(crate) builder: Builder<'ctx>,
}

/// `Context::create_module` of `inkwell` makes a new LLVM module of the given
/// name. It has no functions.
#[verifier::external_body]
pub(crate) fn create_module<'ctx>(context: &'ctx Context, name: &str) -> (module: Module<'ctx>)
    ensures
        module_functions(module).len() == 0,
{
    context.create_module(name)
}

/// `Context::create_builder` of `inkwell` makes a new instruction builder.
/// Nothing is claimed of it.
#[verifier::external_body]
pub(crate) fn create_builder<'ctx>(context: &'ctx Context) -> Builder<'ctx> {
    context.create_builder()
}

/// `Context::void_type` of `inkwell` hands out LLVM's type `void`. Nothing is
/// claimed of it.
#[verifier::external_body]
pub(crate) fn void_type<'ctx>(context: &'ctx Context) -> VoidType<'ctx> {
    context.void_type()
}

/// `Context::i32_type` of `inkwell` hands out the integer type of 32 bits.
#[verifier::external_body]
pub(crate) fn i32_type<'ctx>(context: &'ctx Context) -> (ty: IntType<'ctx>)
    ensures
        int_type_bits(ty) == 32,
{
    context.i32_type()
}

/// `VoidType::fn_type` of `inkwell` makes the function type with this type
/// for its return type, which is to say that its functions return nothing,
/// with parameters of the given types, and variadic if so asked.
#[verifier::external_body]
pub(crate) fn void_fn_type<'ctx>(
    return_ty: VoidType<'ctx>,
    param_types: &Vec<IntType<'ctx>>,
    is_var_args: bool,
) -> (r: FunctionType<'ctx>)
    ensures
        function_type_return(r) is None,
        function_type_params(r) == param_types@,
        function_type_var_args(r) == is_var_args,
{
    let param_types: Vec<BasicMetadataTypeEnum<'ctx>> = param_types.iter().map(
        |ty| (*ty).into(),
    ).collect();
    return_ty.fn_type(&param_types, is_var_args)
}

/// `IntType::fn_type` of `inkwell` makes the function type with this integer
/// type for its return type, with parameters of the given types, and variadic
/// if so asked.
#[verifier::external_body]
pub(crate) fn int_fn_type<'ctx>(
    return_ty: IntType<'ctx>,
    param_types: &Vec<IntType<'ctx>>,
    is_var_args: bool,
) -> (r: FunctionType<'ctx>)
    ensures
        function_type_return(r) == Some(return_ty),
        function_type_params(r) == param_types@,
        function_type_var_args(r) == is_var_args,
{
    let param_types: Vec<BasicMetadataTypeEnum<'ctx>> = param_types.iter().map(
        |ty| (*ty).into(),
    ).collect();
    return_ty.fn_type(&param_types, is_var_args)
}

/// `Module::add_function` of `inkwell` creates a function of the given name
/// and type, adds it to the module behind the functions that are there, and
/// returns it; without a linkage it gets the default one, which is external.
/// The function is new and has no block. A name that the module has already,
/// or that holds a null character, is left out: LLVM would store another
/// name.
#[verifier::external_body]
pub(crate) fn add_function<'ctx>(
    lowering: &mut Lowering<'ctx>,
    name: &str,
    ty: FunctionType<'ctx>,
    linkage: Option<Linkage>,
) -> (function: FunctionValue<'ctx>)
    requires
        !name@.contains('\0'),
        !has_name(module_functions(old(lowering).module), name@),
    ensures
        module_functions(final(lowering).module) == module_functions(old(lowering).module).push(
            new_function(function, name@, ty),
        ),
        !has_function(module_functions(old(lowering).module), function),
        builder_block(final(lowering).builder) == builder_block(old(lowering).builder),
{
    lowering.module.add_function(name, ty, linkage)
}

/// `Context::append_basic_block` of `inkwell` appends a new block of the
/// given name to the function and returns it. Here the function has no block
/// before, so that the block is its only one.
#[verifier::external_body]
pub(crate) fn append_basic_block<'ctx>(
    lowering: &mut Lowering<'ctx>,
    function: FunctionValue<'ctx>,
    name: &str,
) -> (block: BasicBlock<'ctx>)
    requires
        lacks_block(module_functions(old(lowering).module), function),
    ensures
        module_functions(final(lowering).module) == with_block(
            module_functions(old(lowering).module),
            function,
            block,
        ),
        !has_block(module_functions(old(lowering).module), block),
        builder_block(final(lowering).builder) == builder_block(old(lowering).builder),
{
    lowering.context.append_basic_block(function, name)
}

/// `Builder::position_at_end` of `inkwell` lets the builder go on at the end
/// of the block, and records that the builder is positioned. The module
/// stays as it is.
#[verifier::external_body]
pub(crate) fn position_at_end<'ctx>(lowering: &mut Lowering<'ctx>, block: BasicBlock<'ctx>)
    ensures
        builder_block(final(lowering).builder) == Some(block),
        module_functions(final(lowering).module) == module_functions(old(lowering).module),
{
    lowering.builder.position_at_end(block)
}

/// `Builder::clear_insertion_position` of `inkwell` takes the builder off the
/// block that it was positioned at. Nothing is claimed of the builder
/// afterwards; the module stays as it is.
#[verifier::external_body]
pub(crate) fn clear_insertion_position<'ctx>(lowering: &mut Lowering<'ctx>)
    ensures
        module_functions(final(lowering).module) == module_functions(old(lowering).module),
{
    lowering.builder.clear_insertion_position()
}

/// `IntType::const_int` of `inkwell` makes a constant of this type. For a
/// type of 32 bits and a value that fits in them, the constant stands for
/// that value.
#[verifier::external_body]
pub(crate) fn const_int<'ctx>(ty: IntType<'ctx>, value: u64, sign_extend: bool) -> (r: IntValue<
    'ctx,
>)
    ensures
        int_value_type(r) == ty,
        int_type_bits(ty) == 32 && value <= 0xffff_ffff ==> int_value_constant(r) == Some(value),
{
    ty.const_int(value, sign_extend)
}

/// `Builder::build_return` of `inkwell` builds a return of the given value,
/// or of nothing, where the builder stands: here at the end of a block of
/// the module. It fails only if the builder has not been positioned, which is
/// left out, and leaves the builder where it stands.
#[verifier::external_body]
pub(crate) fn build_return<'ctx>(lowering: &mut Lowering<'ctx>, value: Option<IntValue<'ctx>>) -> (r:
    Result<(), BuilderError>)
    requires
        builder_block(old(lowering).builder) is Some,
        has_block(
            module_functions(old(lowering).module),
            builder_block(old(lowering).builder)->Some_0,
        ),
    ensures
        r is Ok,
        module_functions(final(lowering).module) == with_instruction(
            module_functions(old(lowering).module),
            builder_block(old(lowering).builder)->Some_0,
            (LlvmInstruction::Return { value }),
        ),
        builder_block(final(lowering).builder) == builder_block(old(lowering).builder),
{
    let value = value.as_ref().map(|v| v as &dyn BasicValue<'ctx>);
    lowering.builder.build_return(value).map(|_| ())
}

/// `Builder::build_call` of `inkwell` builds a call of the function with the
/// given arguments where the builder stands: here at the end of a block of
/// the module. The name is that of the call's result. The function is one of
/// the module and takes exactly such arguments. The call fails only if the
/// builder has not been positioned, which is left out, and leaves the builder
/// where it stands.
#[verifier::external_body]
pub(crate) fn build_call<'ctx>(
    lowering: &mut Lowering<'ctx>,
    function: FunctionValue<'ctx>,
    args: &Vec<IntValue<'ctx>>,
    name: &str,
) -> (r: Result<(), BuilderError>)
    requires
        builder_block(old(lowering).builder) is Some,
        has_block(
            module_functions(old(lowering).module),
            builder_block(old(lowering).builder)->Some_0,
        ),
        call_fits(module_functions(old(lowering).module), function, args@),
    ensures
        r is Ok,
        module_functions(final(lowering).module) == with_instruction(
            module_functions(old(lowering).module),
            builder_block(old(lowering).builder)->Some_0,
            (LlvmInstruction::Call { callee: function, args: args@ }),
        ),
        builder_block(final(lowering).builder) == builder_block(old(lowering).builder),
{
    let args: Vec<BasicMetadataValueEnum<'ctx>> = args.iter().map(|arg| (*arg).into()).collect();
    lowering.builder.build_call(function, &args, name).map(|_| ())
}

/// The text that `inkwell` gives for an error of its builder.
#[verifier::external_body]
pub(crate) fn builder_error_message(error: &BuilderError) -> String {
    error.to_string()
}

/// Why a module could not be lowered.
#[derive(Debug, PartialEq, Eq)]
pub enum EmitError {
    /// The module cannot be lowered: a call names no function of the module,
    /// two functions have one name, or a name holds a null character or is
    /// that of the primitive that ends the process.
    InvalidModule,
    /// The builder of the backend refused an instruction; the text says why.
    /// This does not happen as long as the builder is positioned at a block
    /// before it is asked to build.
    Builder(String),
}

/// The name under which the primitive that ends the process is declared.
pub open spec fn exit_name() -> Seq<char> {
    "ExitProcess@4"@
}

/// Whether a module can be lowered: every call names a function of the
/// module, the names of the functions are pairwise different, and none of
/// them holds a null character or is the name of the exit primitive.
pub open spec fn lowerable(module: Seq<BackendFunctionView>) -> bool {
    &&& module_valid(module)
    &&& forall|i: int|
        0 <= i < module.len() ==> !(#[trigger] module[i]).name.contains('\0') && module[i].name
            != exit_name()
    &&& forall|i: int, j: int|
        0 <= i < j < module.len() ==> (#[trigger] module[i]).name != (#[trigger] module[j]).name
}

/// Whether the `i`-th body holds an `exit`.
pub open spec fn body_exits(module: Seq<BackendFunctionView>, i: int) -> bool {
    exists|k: int| 0 <= k < module[i].body.len() && #[trigger] module[i].body[k] is Exit
}

/// Whether some body of the module holds an `exit`.
pub open spec fn uses_exit(module: Seq<BackendFunctionView>) -> bool {
    exists|i: int| 0 <= i < module.len() && #[trigger] body_exits(module, i)
}

/// Whether `value` is the constant `n` of 32 bits.
pub open spec fn is_i32_constant<'ctx>(value: IntValue<'ctx>, n: u32) -> bool {
    int_type_bits(int_value_type(value)) == 32 && int_value_constant(value) == Some(n as u64)
}

/// Whether the LLVM function `f` is declared as the backend function `b`
/// asks: under its name, without parameters, and returning an integer of 32
/// bits or nothing.
pub open spec fn signature_lowered<'ctx>(f: LlvmFunction<'ctx>, b: BackendFunctionView) -> bool {
    &&& f.name == b.name
    &&& function_type_params(f.ty).len() == 0
    &&& !function_type_var_args(f.ty)
    &&& match b.return_ty {
        ast::Type::Unit => function_type_return(f.ty) is None,
        ast::Type::Int => function_type_return(f.ty) is Some && int_type_bits(
            function_type_return(f.ty)->Some_0,
        ) == 32,
    }
}

/// Whether the LLVM function `f` is the declaration of the exit primitive: an
/// external function of that name that takes one integer of 32 bits and
/// returns nothing.
pub open spec fn exit_declared<'ctx>(f: LlvmFunction<'ctx>) -> bool {
    &&& f.name == exit_name()
    &&& function_type_return(f.ty) is None
    &&& function_type_params(f.ty).len() == 1
    &&& int_type_bits(function_type_params(f.ty)[0]) == 32
    &&& !function_type_var_args(f.ty)
    &&& f.block is None
    &&& f.code.len() == 0
}

/// Whether `built` is what the instruction `ins` is lowered to, where
/// `values` are the functions of the LLVM module in order and the first `n`
/// of them are those of the backend module: an `exit` is a call of the
/// function behind them with the status as a constant of 32 bits, a call is
/// a call without arguments of the function of its handle, and a return
/// returns its number as a constant of 32 bits, or nothing.
pub open spec fn instruction_lowered<'ctx>(
    ins: Instruction,
    built: LlvmInstruction<'ctx>,
    values: Seq<FunctionValue<'ctx>>,
    n: int,
) -> bool {
    match ins {
        Instruction::Exit(code) => {
            &&& built is Call
            &&& n < values.len()
            &&& built->callee == values[n]
            &&& built->args.len() == 1
            &&& is_i32_constant(built->args[0], code)
        },
        Instruction::Call(handle) => {
            &&& built is Call
            &&& handle.index < n <= values.len()
            &&& built->callee == values[handle.index as int]
            &&& built->args.len() == 0
        },
        Instruction::Return(number) => {
            &&& built is Return
            &&& built->value is Some
            &&& is_i32_constant(built->value->Some_0, number)
        },
        Instruction::ReturnVoid => built is Return && built->value is None,
    }
}

/// Whether `code` is what the instructions `body` are lowered to, one for
/// one and in order.
pub open spec fn body_lowered<'ctx>(
    body: Seq<Instruction>,
    code: Seq<LlvmInstruction<'ctx>>,
    values: Seq<FunctionValue<'ctx>>,
    n: int,
) -> bool {
    &&& code.len() == body.len()
    &&& forall|k: int|
        0 <= k < body.len() ==> instruction_lowered(#[trigger] body[k], code[k], values, n)
}

/// The handles of the functions `fs`, in order.
pub open spec fn function_values<'ctx>(fs: Seq<LlvmFunction<'ctx>>) -> Seq<FunctionValue<'ctx>> {
    Seq::new(fs.len(), |i: int| fs[i].value)
}

/// Whether the LLVM functions `fs` are what the backend module `module` is
/// lowered to.
///
/// The functions of the module stand first, in order: each declared under its
/// name with its signature, and with one block that holds what its
/// instructions are lowered to. If some body holds an `exit`, the declaration
/// of the exit primitive stands behind them; otherwise nothing does. The
/// functions are pairwise different.
pub open spec fn module_lowered<'ctx>(
    module: Seq<BackendFunctionView>,
    fs: Seq<LlvmFunction<'ctx>>,
) -> bool {
    let n = module.len() as int;
    &&& fs.len() == n + (if uses_exit(module) {
        1int
    } else {
        0int
    })
    &&& forall|i: int|
        0 <= i < n ==> {
            &&& signature_lowered(#[trigger] fs[i], module[i])
            &&& fs[i].block is Some
            &&& body_lowered(module[i].body, fs[i].code, function_values(fs), n)
        }
    &&& uses_exit(module) ==> exit_declared(fs[n])
    &&& forall|i: int, j: int|
        0 <= i < j < fs.len() ==> (#[trigger] fs[i]).value != (#[trigger] fs[j]).value
}

/// A word of an identifier holds no null character and is not the name of
/// the exit primitive, which holds an `@`.
pub proof fn lemma_word_is_free(w: Seq<char>)
    requires
        identifier_word(w),
    ensures
        !w.contains('\0'),
        w != exit_name(),
{
    reveal_strlit("ExitProcess@4");
    if w.contains('\0') {
        let k = choose|k: int| 0 <= k < w.len() && w[k] == '\0';
        assert(is_identifier_part(w[k]));
    }
    if w == exit_name() {
        assert(w[11] == '@');
        assert(is_identifier_part(w[11]));
    }
}

/// Whether the text holds a null character.
pub fn has_nul(s: &str) -> (r: bool)
    ensures
        r == s@.contains('\0'),
{
    let ghost mut seen: Seq<char> = Seq::empty();
    let mut it = s.chars();
    assert(seen + it.remaining() =~= s@);
    loop
        invariant
            seen + it.remaining() == s@,
            forall|i: int| 0 <= i < seen.len() ==> seen[i] != '\0',
            it.decrease() is Some,
        decreases it.decrease()->0,
    {
        broadcast use vstd::string::next_postcondition;

        let ghost rest = it.remaining();
        match it.next() {
            Some(c) => {
                if c == '\0' {
                    assert(s@[seen.len() as int] == rest[0]);
                    return true;
                }
                proof {
                    assert(seen.push(c) + it.remaining() =~= seen + rest);
                    seen = seen.push(c);
                }
            },
            None => {
                assert(seen =~= s@);
                return false;
            },
        }
    }
}

/// Whether the `i`-th body of the module holds an `exit`.
fn exits_in_body(module: &BackendModule, i: usize) -> (r: bool)
    requires
        i < module.functions.len(),
    ensures
        r == body_exits(module@, i as int),
{
    let body = &module.functions[i].body;
    assert(module@[i as int].body == body@);
    let m: usize = body.len();
    let mut k: usize = 0;
    while k < m
        invariant
            m == body.len(),
            k <= m,
            module@[i as int].body == body@,
            forall|q: int| 0 <= q < k ==> !(#[trigger] body@[q] is Exit),
        decreases m - k,
    {
        match body[k] {
            Instruction::Exit(_) => {
                assert(module@[i as int].body[k as int] is Exit);
                return true;
            },
            _ => {},
        }
        k += 1;
    }
    false
}

/// Whether some body of the module holds an `exit`.
pub fn module_uses_exit(module: &BackendModule) -> (r: bool)
    ensures
        r == uses_exit(module@),
{
    let n: usize = module.functions.len();
    let mut i: usize = 0;
    while i < n
        invariant
            n == module.functions.len(),
            i <= n,
            forall|t: int| 0 <= t < i ==> !(#[trigger] body_exits(module@, t)),
        decreases n - i,
    {
        if exits_in_body(module, i) {
            return true;
        }
        i += 1;
    }
    false
}

/// Whether the module can be lowered.
pub fn is_lowerable(module: &BackendModule) -> (r: bool)
    ensures
        r == lowerable(module@),
{
    if !module.is_valid() {
        return false;
    }
    let n: usize = module.functions.len();
    let mut i: usize = 0;
    while i < n
        invariant
            n == module.functions.len(),
            i <= n,
            forall|t: int|
                0 <= t < i ==> !(#[trigger] module@[t]).name.contains('\0') && module@[t].name
                    != exit_name(),
            forall|a: int, b: int|
                0 <= a < b < i ==> (#[trigger] module@[a]).name != (#[trigger] module@[b]).name,
        decreases n - i,
    {
        let name = module.functions[i].name.as_str();
        assert(module@[i as int].name == name@);
        if has_nul(name) || str_eq(name, "ExitProcess@4") {
            return false;
        }
        let mut k: usize = 0;
        while k < i
            invariant
                n == module.functions.len(),
                i < n,
                k <= i,
                module@[i as int].name == name@,
                forall|a: int| 0 <= a < k ==> (#[trigger] module@[a]).name != name@,
            decreases i - k,
        {
            if str_eq(module.functions[k].name.as_str(), name) {
                assert(module@[k as int].name == module@[i as int].name);
                return false;
            }
            k += 1;
        }
        i += 1;
    }
    true
}

/// The state of the lowering while the functions are declared: the first `i`
/// functions of the module are declared in `fs`, with the handles `values`,
/// and none has a block yet.
spec fn declaring<'ctx>(
    module: Seq<BackendFunctionView>,
    fs: Seq<LlvmFunction<'ctx>>,
    values: Seq<FunctionValue<'ctx>>,
    i: int,
) -> bool {
    &&& fs.len() == i
    &&& values == function_values(fs)
    &&& forall|k: int|
        0 <= k < i ==> {
            &&& signature_lowered(#[trigger] fs[k], module[k])
            &&& fs[k].block is None
            &&& fs[k].code.len() == 0
        }
    &&& forall|a: int, b: int|
        0 <= a < b < i ==> (#[trigger] fs[a]).value != (#[trigger] fs[b]).value
}

/// The state of the lowering when all declarations are made: `base` holds
/// the functions of the module and, if it is needed, the exit primitive,
/// which takes one argument of the type `i32_ty`.
spec fn declarations<'ctx>(
    module: Seq<BackendFunctionView>,
    base: Seq<LlvmFunction<'ctx>>,
    values: Seq<FunctionValue<'ctx>>,
    i32_ty: IntType<'ctx>,
) -> bool {
    let n = module.len() as int;
    &&& base.len() == n + (if uses_exit(module) {
        1int
    } else {
        0int
    })
    &&& values == function_values(base)
    &&& forall|k: int| 0 <= k < n ==> signature_lowered(#[trigger] base[k], module[k])
    &&& uses_exit(module) ==> exit_declared(base[n]) && function_type_params(base[n].ty)
        == seq![i32_ty]
    &&& forall|a: int, b: int|
        0 <= a < b < base.len() ==> (#[trigger] base[a]).value != (#[trigger] base[b]).value
}

/// Whether the functions `fs` are those of `base` but for their blocks and
/// instructions.
spec fn same_declarations<'ctx>(base: Seq<LlvmFunction<'ctx>>, fs: Seq<LlvmFunction<'ctx>>) -> bool {
    &&& fs.len() == base.len()
    &&& forall|t: int|
        0 <= t < fs.len() ==> {
            &&& (#[trigger] fs[t]).value == base[t].value
            &&& fs[t].name == base[t].name
            &&& fs[t].ty == base[t].ty
        }
}

/// The state of the lowering between two bodies: the first `j` bodies are
/// built, and the functions behind them have no block.
spec fn building<'ctx>(
    module: Seq<BackendFunctionView>,
    base: Seq<LlvmFunction<'ctx>>,
    fs: Seq<LlvmFunction<'ctx>>,
    j: int,
) -> bool {
    &&& same_declarations(base, fs)
    &&& forall|t: int|
        0 <= t < j ==> (#[trigger] fs[t]).block is Some && body_lowered(
            module[t].body,
            fs[t].code,
            function_values(base),
            module.len() as int,
        )
    &&& forall|t: int|
        j <= t < fs.len() ==> (#[trigger] fs[t]).block is None && fs[t].code.len() == 0
}

/// The state of the lowering inside the `j`-th body, whose block is `block`:
/// its first `k` instructions are built.
spec fn building_body<'ctx>(
    module: Seq<BackendFunctionView>,
    base: Seq<LlvmFunction<'ctx>>,
    fs: Seq<LlvmFunction<'ctx>>,
    j: int,
    block: BasicBlock<'ctx>,
    k: int,
) -> bool {
    &&& same_declarations(base, fs)
    &&& forall|t: int|
        0 <= t < j ==> (#[trigger] fs[t]).block is Some && fs[t].block != Some(block)
            && body_lowered(
            module[t].body,
            fs[t].code,
            function_values(base),
            module.len() as int,
        )
    &&& fs[j].block == Some(block)
    &&& fs[j].code.len() == k
    &&& forall|q: int|
        0 <= q < k ==> instruction_lowered(
            #[trigger] module[j].body[q],
            fs[j].code[q],
            function_values(base),
            module.len() as int,
        )
    &&& forall|t: int|
        j < t < fs.len() ==> (#[trigger] fs[t]).block is None && fs[t].code.len() == 0
}

/// Appending a block to the `j`-th function opens its body.
proof fn lemma_block_appended<'ctx>(
    module: Seq<BackendFunctionView>,
    base: Seq<LlvmFunction<'ctx>>,
    fs: Seq<LlvmFunction<'ctx>>,
    values: Seq<FunctionValue<'ctx>>,
    i32_ty: IntType<'ctx>,
    j: int,
    block: BasicBlock<'ctx>,
)
    requires
        declarations(module, base, values, i32_ty),
        building(module, base, fs, j),
        0 <= j < module.len(),
        !has_block(fs, block),
    ensures
        building_body(module, base, with_block(fs, values[j], block), j, block, 0),
{
    let after = with_block(fs, values[j], block);
    assert forall|t: int| 0 <= t < fs.len() implies (#[trigger] after[t]) == (if t == j {
        LlvmFunction { block: Some(block), ..fs[t] }
    } else {
        fs[t]
    }) by {
        assert(fs[t].value == base[t].value);
        assert(base[j].value == values[j]);
        if t < j {
            assert(base[t].value != base[j].value);
        }
        if j < t {
            assert(base[j].value != base[t].value);
        }
    }
    assert forall|t: int| 0 <= t < j implies (#[trigger] after[t]).block is Some && after[t].block
        != Some(block) && body_lowered(
        module[t].body,
        after[t].code,
        function_values(base),
        module.len() as int,
    ) by {
        assert(fs[t].block != Some(block));
    }
}

/// Building the `k`-th instruction of the `j`-th body, as it is lowered,
/// extends what is built of that body by one.
proof fn lemma_instruction_built<'ctx>(
    module: Seq<BackendFunctionView>,
    base: Seq<LlvmFunction<'ctx>>,
    fs: Seq<LlvmFunction<'ctx>>,
    j: int,
    block: BasicBlock<'ctx>,
    k: int,
    built: LlvmInstruction<'ctx>,
)
    requires
        building_body(module, base, fs, j, block, k),
        0 <= j < module.len(),
        j < fs.len(),
        0 <= k < module[j].body.len(),
        instruction_lowered(module[j].body[k], built, function_values(base), module.len() as int),
    ensures
        building_body(module, base, with_instruction(fs, block, built), j, block, k + 1),
{
    let after = with_instruction(fs, block, built);
    assert forall|t: int| 0 <= t < fs.len() implies (#[trigger] after[t]) == (if t == j {
        LlvmFunction { code: fs[t].code.push(built), ..fs[t] }
    } else {
        fs[t]
    }) by {
        if t < j {
            assert(fs[t].block != Some(block));
        }
        if j < t {
            assert(fs[t].block is None);
        }
    }
    assert forall|q: int| 0 <= q < k + 1 implies instruction_lowered(
        #[trigger] module[j].body[q],
        after[j].code[q],
        function_values(base),
        module.len() as int,
    ) by {
        if q < k {
            assert(after[j].code[q] == fs[j].code[q]);
        }
    }
}

/// When the last body is built, the module is lowered.
proof fn lemma_all_built<'ctx>(
    module: Seq<BackendFunctionView>,
    base: Seq<LlvmFunction<'ctx>>,
    fs: Seq<LlvmFunction<'ctx>>,
    values: Seq<FunctionValue<'ctx>>,
    i32_ty: IntType<'ctx>,
)
    requires
        declarations(module, base, values, i32_ty),
        building(module, base, fs, module.len() as int),
        forall|t: int| 0 <= t < base.len() ==> (#[trigger] base[t]).block is None && base[t].code.len() == 0,
    ensures
        module_lowered(module, fs),
{
    let n = module.len() as int;
    assert(function_values(fs) =~= function_values(base));
    assert forall|i: int| 0 <= i < n implies {
        &&& signature_lowered(#[trigger] fs[i], module[i])
        &&& fs[i].block is Some
        &&& body_lowered(module[i].body, fs[i].code, function_values(fs), n)
    } by {
        assert(signature_lowered(base[i], module[i]));
    }
    assert forall|a: int, b: int| 0 <= a < b < fs.len() implies (#[trigger] fs[a]).value != (
    #[trigger] fs[b]).value by {
        assert(base[a].value != base[b].value);
    }
    if uses_exit(module) {
        assert(exit_declared(base[n]));
        assert(fs[n].name == base[n].name);
    }
}

/// Lowers a backend module to an LLVM module of the context `context`.
///
/// A module that cannot be lowered is refused before anything is built.
/// Every other module is lowered, and the LLVM module then holds what
/// [`module_lowered`] says: the functions of the module in order, each
/// declared under its name with its return type and with one block that
/// holds the function's instructions in order; and behind them the
/// declaration of the primitive that ends the process, as an external
/// function of one 32-bit integer that returns nothing, if some body holds an
/// `exit`, and nothing otherwise.
pub fn emit<'ctx>(context: &'ctx Context, module: &BackendModule) -> (r: Result<
    Module<'ctx>,
    EmitError,
>)
    ensures
        lowerable(module@) ==> r is Ok && module_lowered(module@, module_functions(r->Ok_0)),
        !lowerable(module@) ==> r matches Err(EmitError::InvalidModule),
{
    if !is_lowerable(module) {
        return Err(EmitError::InvalidModule);
    }
    let mut lowering = Lowering {
        context,
        module: create_module(context, "main_module"),
        builder: create_builder(context),
    };
    let void_ty = void_type(context);
    let i32_ty = i32_type(context);
    let no_params: Vec<IntType<'ctx>> = Vec::new();
    let n: usize = module.functions.len();
    let mut values: Vec<FunctionValue<'ctx>> = Vec::new();
    let mut i: usize = 0;
    assert(values@ =~= function_values(module_functions(lowering.module)));
    while i < n
        invariant
            lowerable(module@),
            n == module.functions.len(),
            i <= n,
            no_params@.len() == 0,
            declaring(module@, module_functions(lowering.module), values@, i as int),
        decreases n - i,
    {
        let ghost fs = module_functions(lowering.module);
        let function = &module.functions[i];
        assert(module@[i as int] == function@);
        let return_ty = Type::from_ast_type(&function.return_ty, context);
        let ty = return_ty.fn_type(&no_params, false);
        proof {
            assert forall|k: int| 0 <= k < fs.len() implies (#[trigger] fs[k]).name
                != function.name@ by {
                assert(signature_lowered(fs[k], module@[k]));
                assert(module@[k].name != module@[i as int].name);
            }
        }
        let value = add_function(&mut lowering, function.name.as_str(), ty, None);
        values.push(value);
        proof {
            let after = module_functions(lowering.module);
            assert(values@ =~= function_values(after));
            assert forall|k: int| 0 <= k < i + 1 implies {
                &&& signature_lowered(#[trigger] after[k], module@[k])
                &&& after[k].block is None
                &&& after[k].code.len() == 0
            } by {
                if k < i {
                    assert(after[k] == fs[k]);
                }
            }
            assert forall|a: int, b: int| 0 <= a < b < i + 1 implies (#[trigger] after[a]).value
                != (#[trigger] after[b]).value by {
                assert(after[a] == fs[a]);
                if b < i {
                    assert(after[b] == fs[b]);
                }
            }
        }
        i += 1;
    }
    let exit_used = module_uses_exit(module);
    if exit_used {
        let ghost fs = module_functions(lowering.module);
        let mut params: Vec<IntType<'ctx>> = Vec::new();
        params.push(i32_ty);
        let ty = void_fn_type(void_ty, &params, false);
        proof {
            reveal_strlit("ExitProcess@4");
            assert forall|k: int| 0 <= k < fs.len() implies (#[trigger] fs[k]).name
                != "ExitProcess@4"@ by {
                assert(signature_lowered(fs[k], module@[k]));
            }
        }
        let value = add_function(&mut lowering, "ExitProcess@4", ty, None);
        values.push(value);
        proof {
            let after = module_functions(lowering.module);
            assert(values@ =~= function_values(after));
            assert(function_type_params(ty) =~= seq![i32_ty]);
            assert forall|k: int| 0 <= k < n implies signature_lowered(
                #[trigger] after[k],
                module@[k],
            ) by {
                assert(after[k] == fs[k]);
            }
            assert forall|a: int, b: int| 0 <= a < b < after.len() implies (#[trigger] after[a]).value
                != (#[trigger] after[b]).value by {
                assert(after[a] == fs[a]);
                if b < n {
                    assert(after[b] == fs[b]);
                }
            }
            assert forall|t: int| 0 <= t < after.len() implies (#[trigger] after[t]).block is None
                && after[t].code.len() == 0 by {
                if t < n {
                    assert(after[t] == fs[t]);
                }
            }
        }
    }
    let ghost base = module_functions(lowering.module);
    let no_args: Vec<IntValue<'ctx>> = Vec::new();
    let mut j: usize = 0;
    while j < n
        invariant
            lowerable(module@),
            n == module.functions.len(),
            j <= n,
            int_type_bits(i32_ty) == 32,
            no_args@.len() == 0,
            exit_used == uses_exit(module@),
            declarations(module@, base, values@, i32_ty),
            forall|t: int|
                0 <= t < base.len() ==> (#[trigger] base[t]).block is None && base[t].code.len()
                    == 0,
            building(module@, base, module_functions(lowering.module), j as int),
        decreases n - j,
    {
        let ghost fs = module_functions(lowering.module);
        assert(fs[j as int].value == values@[j as int]);
        let block = append_basic_block(&mut lowering, values[j], "");
        proof {
            lemma_block_appended(module@, base, fs, values@, i32_ty, j as int, block);
        }
        position_at_end(&mut lowering, block);
        let body = &module.functions[j].body;
        assert(module@[j as int].body == body@);
        assert(calls_in_range(body@, n as int));
        let m: usize = body.len();
        let mut k: usize = 0;
        while k < m
            invariant
                n == module.functions.len(),
                j < n,
                m == body.len(),
                k <= m,
                module@[j as int].body == body@,
                calls_in_range(body@, n as int),
                int_type_bits(i32_ty) == 32,
                no_args@.len() == 0,
                exit_used == uses_exit(module@),
                declarations(module@, base, values@, i32_ty),
                builder_block(lowering.builder) == Some(block),
                building_body(
                    module@,
                    base,
                    module_functions(lowering.module),
                    j as int,
                    block,
                    k as int,
                ),
            decreases m - k,
        {
            let ghost at = module_functions(lowering.module);
            assert(at[j as int].block == Some(block));
            let built = match body[k] {
                Instruction::Exit(code) => {
                    proof {
                        assert(module@[j as int].body[k as int] is Exit);
                        assert(body_exits(module@, j as int));
                        assert(uses_exit(module@));
                        assert(at[n as int].value == values@[n as int]);
                        assert(at[n as int].ty == base[n as int].ty);
                    }
                    let mut args: Vec<IntValue<'ctx>> = Vec::new();
                    let status = const_int(i32_ty, code as u64, false);
                    args.push(status);
                    proof {
                        assert(arg_types(args@) =~= seq![i32_ty]);
                    }
                    let built = build_call(&mut lowering, values[n], &args, "tmpexitprocess");
                    proof {
                        lemma_instruction_built(
                            module@,
                            base,
                            at,
                            j as int,
                            block,
                            k as int,
                            LlvmInstruction::Call { callee: values@[n as int], args: args@ },
                        );
                    }
                    built
                },
                Instruction::Call(callee) => {
                    proof {
                        assert(body@[k as int] == Instruction::Call(callee));
                        assert(at[callee.index as int].value == values@[callee.index as int]);
                        assert(at[callee.index as int].ty == base[callee.index as int].ty);
                        assert(signature_lowered(
                            base[callee.index as int],
                            module@[callee.index as int],
                        ));
                        assert(function_type_params(at[callee.index as int].ty) =~= arg_types(
                            no_args@,
                        ));
                    }
                    let built = build_call(&mut lowering, values[callee.index], &no_args, "call_fn");
                    proof {
                        lemma_instruction_built(
                            module@,
                            base,
                            at,
                            j as int,
                            block,
                            k as int,
                            LlvmInstruction::Call {
                                callee: values@[callee.index as int],
                                args: no_args@,
                            },
                        );
                    }
                    built
                },
                Instruction::Return(number) => {
                    let value = const_int(i32_ty, number as u64, false);
                    let built = build_return(&mut lowering, Some(value));
                    proof {
                        lemma_instruction_built(
                            module@,
                            base,
                            at,
                            j as int,
                            block,
                            k as int,
                            LlvmInstruction::Return { value: Some(value) },
                        );
                    }
                    built
                },
                Instruction::ReturnVoid => {
                    let built = build_return(&mut lowering, None);
                    proof {
                        lemma_instruction_built(
                            module@,
                            base,
                            at,
                            j as int,
                            block,
                            k as int,
                            LlvmInstruction::Return { value: None },
                        );
                    }
                    built
                },
            };
            match built {
                Err(e) => {
                    return Err(EmitError::Builder(builder_error_message(&e)));
                },
                Ok(_) => {},
            }
            k += 1;
        }
        clear_insertion_position(&mut lowering);
        j += 1;
    }
    proof {
        lemma_all_built(module@, base, module_functions(lowering.module), values@, i32_ty);
    }
    Ok(lowering.module)
}

} // verus!

//! The types that the code generator works with: the LLVM type of what a
//! function returns, and the type that a block of statements returns.

use inkwell::context::Context;
use inkwell::types::{FunctionType, IntType, VoidType};
use vstd::prelude::*;

use crate::compiler::codegen::llvm;
use crate::compiler::parser::ast;

verus! {

/// The LLVM type of what a function returns: a value of a basic type, which
/// in this language is a 32-bit integer, or nothing.
#[derive(Debug, Copy, Clone, PartialEq, Eq)]
pub enum Type<'ctx> {
    BasicType(IntType<'ctx>),
    Void(VoidType<'ctx>),
}

impl<'ctx> Type<'ctx> {
    /// The type of the functions, variadic if so asked, that take parameters
    /// of the given types and return a value of this type, if it is one.
    pub fn fn_type(&self, param_types: &Vec<IntType<'ctx>>, is_var_args: bool) -> (r: FunctionType<
        'ctx,
    >)
        ensures
            llvm::function_type_return(r) == (match *self {
                Type::BasicType(ty) => Some(ty),
                Type::Void(_) => None::<IntType<'ctx>>,
            }),
            llvm::function_type_params(r) == param_types@,
            llvm::function_type_var_args(r) == is_var_args,
    {
        match self {
            Type::Void(ty) => llvm::void_fn_type(*ty, param_types, is_var_args),
            Type::BasicType(ty) => llvm::int_fn_type(*ty, param_types, is_var_args),
        }
    }

    /// The basic type, if this is one.
    pub fn to_basic_type_enum(&self) -> (r: Option<IntType<'ctx>>)
        ensures
            r == (match *self {
                Type::BasicType(ty) => Some(ty),
                Type::Void(_) => None::<IntType<'ctx>>,
            }),
    {
        match self {
            Type::BasicType(ty) => Some(*ty),
            Type::Void(_) => None,
        }
    }

    /// The LLVM type for a type of the language: nothing for the unit, a
    /// basic type for an integer.
    pub fn from_ast_type(ast_ty: &ast::Type, context: &'ctx Context) -> (r: Type<'ctx>)
        ensures
            r is Void <==> *ast_ty == ast::Type::Unit,
            r matches Type::BasicType(ty) ==> llvm::int_type_bits(ty) == 32,
    {
        match ast_ty {
            ast::Type::Unit => Type::Void(llvm::void_type(context)),
            ast::Type::Int => Type::BasicType(llvm::i32_type(context)),
        }
    }
}

impl ast::Type {
    /// The basic LLVM type of the values of this type; the unit has none.
    pub fn as_llvm_type<'ctx>(&self, context: &'ctx Context) -> (r: Option<IntType<'ctx>>)
        ensures
            r is Some <==> *self == ast::Type::Int,
            r matches Some(ty) ==> llvm::int_type_bits(ty) == 32,
    {
        match self {
            ast::Type::Int => Some(llvm::i32_type(context)),
            ast::Type::Unit => None,
        }
    }
}

/// How the generation of a block ended: at an explicit `return` of a value of
/// the given type, or at the end of the block, where a unit return is
/// implied.
#[derive(Debug, Copy, Clone, PartialEq, Eq, Structural)]
pub enum CompoundReturnType {
    Explicit(ast::Type),
    ImplicitUnit,
}

impl CompoundReturnType {
    /// The type of what the block returns.
    pub open spec fn ty(self) -> ast::Type {
        match self {
            CompoundReturnType::Explicit(ty) => ty,
            CompoundReturnType::ImplicitUnit => ast::Type::Unit,
        }
    }

    /// The type of what the block returns.
    pub fn into_type(self) -> (ty: ast::Type)
        ensures
            ty == self.ty(),
    {
        match self {
            CompoundReturnType::Explicit(ty) => ty,
            CompoundReturnType::ImplicitUnit => ast::Type::Unit,
        }
    }
}

} // verus!

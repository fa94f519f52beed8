//! What the code generator guarantees: calls resolve wherever the callee is
//! defined, a call of an unknown function fails, a body returns an integer
//! exactly if it holds a `return`, and nothing is generated behind an
//! explicit return.

use vstd::prelude::*;

use crate::compiler::codegen::types::CompoundReturnType;
use crate::compiler::codegen::{
    calls_in_range, compound_code, declaration_fails, define_functions, first_failed_declaration,
    function_code,
    generate_spec, lemma_prepend_code, lemma_prepend_empty, module_valid, prepend_code, resolve,
    signature_names, BackendFunctionView, CodegenErrorView, CompoundCode, Instruction,
};
use crate::compiler::parser::ast::{ExprView, Type};
use crate::compiler::symbol_table::FunctionView;

verus! {

/// Whether the statements from the `i`-th on hold a `return`, at any depth.
pub open spec fn has_return(stmts: Seq<ExprView>, i: int) -> bool
    decreases stmts, stmts.len() - i,
{
    if i < 0 || i >= stmts.len() {
        false
    } else {
        (match stmts[i] {
            ExprView::Return(_) => true,
            ExprView::Compound(inner) => has_return(inner, 0),
            _ => false,
        }) || has_return(stmts, i + 1)
    }
}

/// Whether every call in the statements from the `i`-th on, at any depth,
/// names one of `names`.
pub open spec fn calls_declared(stmts: Seq<ExprView>, names: Seq<Seq<char>>, i: int) -> bool
    decreases stmts, stmts.len() - i,
{
    if i < 0 || i >= stmts.len() {
        true
    } else {
        (match stmts[i] {
            ExprView::FnCall(name) => names.contains(name),
            ExprView::Compound(inner) => calls_declared(inner, names, 0),
            _ => true,
        }) && calls_declared(stmts, names, i + 1)
    }
}

/// Whether the statements from the `i`-th on call `name`, at any depth.
pub open spec fn calls(stmts: Seq<ExprView>, name: Seq<char>, i: int) -> bool
    decreases stmts, stmts.len() - i,
{
    if i < 0 || i >= stmts.len() {
        false
    } else {
        (match stmts[i] {
            ExprView::FnCall(callee) => callee == name,
            ExprView::Compound(inner) => calls(inner, name, 0),
            _ => false,
        }) || calls(stmts, name, i + 1)
    }
}

/// A block whose code is generated returns an integer exactly if it holds a
/// `return`, be it in a nested block or behind another `return`; else it
/// ends with the implied unit return.
pub proof fn lemma_return_type(stmts: Seq<ExprView>, names: Seq<Seq<char>>, i: int)
    requires
        compound_code(stmts, names, i) is Ok,
    ensures
        compound_code(stmts, names, i)->Ok_0.1 == (if has_return(stmts, i) {
            CompoundReturnType::Explicit(Type::Int)
        } else {
            CompoundReturnType::ImplicitUnit
        }),
    decreases stmts, stmts.len() - i,
{
    if 0 <= i < stmts.len() {
        match stmts[i] {
            ExprView::Return(_) => {},
            ExprView::Compound(inner) => {
                lemma_return_type(inner, names, 0);
                match compound_code(inner, names, 0) {
                    Ok((_, CompoundReturnType::ImplicitUnit)) => {
                        lemma_return_type(stmts, names, i + 1);
                    },
                    _ => {},
                }
            },
            _ => {
                lemma_return_type(stmts, names, i + 1);
            },
        }
    }
}

/// A block in which every call names a declared function is generated
/// without error.
pub proof fn lemma_declared_calls_generate(stmts: Seq<ExprView>, names: Seq<Seq<char>>, i: int)
    requires
        calls_declared(stmts, names, i),
    ensures
        compound_code(stmts, names, i) is Ok,
    decreases stmts, stmts.len() - i,
{
    if 0 <= i < stmts.len() {
        match stmts[i] {
            ExprView::Return(_) => {},
            ExprView::Compound(inner) => {
                lemma_declared_calls_generate(inner, names, 0);
                lemma_declared_calls_generate(stmts, names, i + 1);
            },
            _ => {
                lemma_declared_calls_generate(stmts, names, i + 1);
            },
        }
    }
}

/// The only error of a block is a call of a function that is not declared:
/// the name that the error holds is called in the block and is none of the
/// declared names.
pub proof fn lemma_error_is_undefined_call(stmts: Seq<ExprView>, names: Seq<Seq<char>>, i: int)
    requires
        compound_code(stmts, names, i) is Err,
    ensures
        compound_code(stmts, names, i)->Err_0 is UndefinedFunction,
        !names.contains(compound_code(stmts, names, i)->Err_0->UndefinedFunction_0),
        calls(stmts, compound_code(stmts, names, i)->Err_0->UndefinedFunction_0, i),
    decreases stmts, stmts.len() - i,
{
    if 0 <= i < stmts.len() {
        match stmts[i] {
            ExprView::Return(_) => {},
            ExprView::Compound(inner) => {
                match compound_code(inner, names, 0) {
                    Err(_) => {
                        lemma_error_is_undefined_call(inner, names, 0);
                    },
                    Ok((_, CompoundReturnType::ImplicitUnit)) => {
                        lemma_error_is_undefined_call(stmts, names, i + 1);
                    },
                    _ => {},
                }
            },
            ExprView::FnCall(name) => {
                if names.contains(name) {
                    lemma_error_is_undefined_call(stmts, names, i + 1);
                }
            },
            ExprView::Exit(_) => {
                lemma_error_is_undefined_call(stmts, names, i + 1);
            },
        }
    }
}

/// The code of a block, read off the code of its first `k` statements.
///
/// If the first `k` statements fail or end at an explicit return, the block
/// does the same, whatever follows them. Otherwise the block goes on behind
/// them: its code is theirs without the closing unit return, followed by the
/// code of the statements from the `k`-th on.
pub proof fn lemma_prefix(stmts: Seq<ExprView>, names: Seq<Seq<char>>, i: int, k: int)
    requires
        0 <= i <= k <= stmts.len(),
    ensures
        match compound_code(stmts.take(k), names, i) {
            Err(e) => compound_code(stmts, names, i) == Err::<
                (Seq<Instruction>, CompoundReturnType),
                CodegenErrorView,
            >(e),
            Ok((code, CompoundReturnType::Explicit(ty))) => compound_code(stmts, names, i) == Ok::<
                (Seq<Instruction>, CompoundReturnType),
                CodegenErrorView,
            >((code, CompoundReturnType::Explicit(ty))),
            Ok((code, CompoundReturnType::ImplicitUnit)) => code.len() > 0 && compound_code(
                stmts,
                names,
                i,
            ) == prepend_code(code.drop_last(), compound_code(stmts, names, k)),
        },
    decreases k - i,
{
    let prefix = stmts.take(k);
    if i == k {
        assert(seq![Instruction::ReturnVoid].drop_last() =~= Seq::<Instruction>::empty());
        lemma_prepend_empty(compound_code(stmts, names, k));
    } else {
        assert(prefix[i] == stmts[i]);
        lemma_prefix(stmts, names, i + 1, k);
        let rest = compound_code(stmts, names, k);
        match stmts[i] {
            ExprView::Return(_) => {},
            ExprView::Compound(inner) => {
                match compound_code(inner, names, 0) {
                    Ok((first, CompoundReturnType::ImplicitUnit)) => {
                        lemma_prefix_step(first, compound_code(prefix, names, i + 1), rest);
                    },
                    _ => {},
                }
            },
            ExprView::Exit(code) => {
                lemma_prefix_step(
                    seq![Instruction::Exit(code)],
                    compound_code(prefix, names, i + 1),
                    rest,
                );
            },
            ExprView::FnCall(name) => {
                match resolve(names, name) {
                    Some(callee) => {
                        lemma_prefix_step(
                            seq![Instruction::Call(callee)],
                            compound_code(prefix, names, i + 1),
                            rest,
                        );
                    },
                    None => {},
                }
            },
        }
    }
}

/// One step of [`lemma_prefix`]: instructions in front of a code that ends
/// with the unit return.
pub proof fn lemma_prefix_step(first: Seq<Instruction>, middle: CompoundCode, rest: CompoundCode)
    ensures
        match middle {
            Ok((code, CompoundReturnType::ImplicitUnit)) => code.len() > 0 ==> {
                &&& prepend_code(first, middle)->Ok_0.0.drop_last() == first + code.drop_last()
                &&& prepend_code(first, prepend_code(code.drop_last(), rest)) == prepend_code(
                    first + code.drop_last(),
                    rest,
                )
            },
            _ => true,
        },
{
    match middle {
        Ok((code, CompoundReturnType::ImplicitUnit)) => {
            if code.len() > 0 {
                assert((first + code).drop_last() =~= first + code.drop_last());
                lemma_prepend_code(first, code.drop_last(), rest);
            }
        },
        _ => {},
    }
}

/// Nothing is generated behind an explicit return: a block that ends at an
/// explicit return, its own or that of a nested block, has the same code and
/// the same return type whatever statements are added behind it.
pub proof fn lemma_explicit_return_ends_block(
    stmts: Seq<ExprView>,
    tail: Seq<ExprView>,
    names: Seq<Seq<char>>,
)
    requires
        compound_code(stmts, names, 0) is Ok,
        compound_code(stmts, names, 0)->Ok_0.1 is Explicit,
    ensures
        compound_code(stmts + tail, names, 0) == compound_code(stmts, names, 0),
{
    let all = stmts + tail;
    assert(all.take(stmts.len() as int) =~= stmts);
    lemma_prefix(all, names, 0, stmts.len() as int);
}

/// A nested block that ends at an explicit return ends the enclosing block
/// with it. When the statements `before` are generated without error and
/// without an explicit return, and the nested block `inner` ends at an
/// explicit return, then the block of `before`, `inner` and `after` has the
/// code of `before` without its closing unit return, followed by the code of
/// `inner`; it returns what `inner` returns; and `after` adds nothing to it.
pub proof fn lemma_nested_return_ends_block(
    before: Seq<ExprView>,
    inner: Seq<ExprView>,
    after: Seq<ExprView>,
    names: Seq<Seq<char>>,
)
    requires
        compound_code(before, names, 0) is Ok,
        compound_code(before, names, 0)->Ok_0.1 is ImplicitUnit,
        compound_code(inner, names, 0) is Ok,
        compound_code(inner, names, 0)->Ok_0.1 is Explicit,
    ensures
        compound_code(before.push(ExprView::Compound(inner)) + after, names, 0) == Ok::<
            (Seq<Instruction>, CompoundReturnType),
            CodegenErrorView,
        >(
            (
                compound_code(before, names, 0)->Ok_0.0.drop_last() + compound_code(
                    inner,
                    names,
                    0,
                )->Ok_0.0,
                compound_code(inner, names, 0)->Ok_0.1,
            ),
        ),
{
    let all = before.push(ExprView::Compound(inner)) + after;
    let k = before.len() as int;
    assert(all.take(k) =~= before);
    assert(all[k] == ExprView::Compound(inner));
    lemma_prefix(all, names, 0, k);
}

/// An error ends the generation of a block: what stands behind the failing
/// statement does not matter.
pub proof fn lemma_error_ends_block(stmts: Seq<ExprView>, tail: Seq<ExprView>, names: Seq<Seq<char>>)
    requires
        compound_code(stmts, names, 0) is Err,
    ensures
        compound_code(stmts + tail, names, 0) == compound_code(stmts, names, 0),
{
    let all = stmts + tail;
    assert(all.take(stmts.len() as int) =~= stmts);
    lemma_prefix(all, names, 0, stmts.len() as int);
}

/// A call of a function that is not declared fails the block with
/// `UndefinedFunction` of its name, provided that generation gets to the
/// call: the statements before it are generated without error and without
/// an explicit return.
pub proof fn lemma_undefined_call_fails(stmts: Seq<ExprView>, names: Seq<Seq<char>>, k: int)
    requires
        0 <= k < stmts.len(),
        stmts[k] is FnCall,
        !names.contains(stmts[k]->FnCall_0),
        compound_code(stmts.take(k), names, 0) is Ok,
        compound_code(stmts.take(k), names, 0)->Ok_0.1 is ImplicitUnit,
    ensures
        compound_code(stmts, names, 0) == Err::<
            (Seq<Instruction>, CompoundReturnType),
            CodegenErrorView,
        >(CodegenErrorView::UndefinedFunction(stmts[k]->FnCall_0)),
{
    lemma_prefix(stmts, names, 0, k);
}

/// A body conforms to its header exactly if it is generated without error
/// and holds a `return` exactly if the header declares `int`.
pub proof fn lemma_conformance(
    stmts: Seq<ExprView>,
    name: Seq<char>,
    declared: Type,
    names: Seq<Seq<char>>,
)
    ensures
        function_code(stmts, name, declared, names) is Ok <==> compound_code(stmts, names, 0) is Ok
            && (declared == Type::Int <==> has_return(stmts, 0)),
{
    if compound_code(stmts, names, 0) is Ok {
        lemma_return_type(stmts, names, 0);
    }
}

/// A function that declares `int` and whose body holds no `return` is
/// refused: it would return the unit.
pub proof fn lemma_missing_return(stmts: Seq<ExprView>, name: Seq<char>, names: Seq<Seq<char>>)
    requires
        compound_code(stmts, names, 0) is Ok,
        !has_return(stmts, 0),
    ensures
        function_code(stmts, name, Type::Int, names) == Err::<Seq<Instruction>, CodegenErrorView>(
            CodegenErrorView::ReturnTypeMismatch {
                function: name,
                declared: Type::Int,
                actual: Type::Unit,
            },
        ),
{
    lemma_return_type(stmts, names, 0);
}

/// A function that declares no return type and whose body holds a `return`
/// is refused: it would return an integer.
pub proof fn lemma_unexpected_return(stmts: Seq<ExprView>, name: Seq<char>, names: Seq<Seq<char>>)
    requires
        compound_code(stmts, names, 0) is Ok,
        has_return(stmts, 0),
    ensures
        function_code(stmts, name, Type::Unit, names) == Err::<Seq<Instruction>, CodegenErrorView>(
            CodegenErrorView::ReturnTypeMismatch {
                function: name,
                declared: Type::Unit,
                actual: Type::Int,
            },
        ),
{
    lemma_return_type(stmts, names, 0);
}

/// Whether every body calls declared functions only and returns what its
/// header declares.
pub open spec fn bodies_conform(sigs: Seq<FunctionView>, stmts: Seq<Seq<ExprView>>) -> bool {
    forall|i: int|
        0 <= i < sigs.len() ==> {
            &&& calls_declared(#[trigger] stmts[i], signature_names(sigs), 0)
            &&& sigs[i].return_ty == Type::Int <==> has_return(stmts[i], 0)
        }
}

/// When every body conforms, the bodies from the `i`-th on are generated.
pub proof fn lemma_conforming_bodies_generate(
    sigs: Seq<FunctionView>,
    stmts: Seq<Seq<ExprView>>,
    i: int,
)
    requires
        bodies_conform(sigs, stmts),
    ensures
        define_functions(sigs, stmts, i) is Ok,
    decreases sigs.len() - i,
{
    if 0 <= i < sigs.len() {
        let names = signature_names(sigs);
        assert(calls_declared(stmts[i], names, 0));
        lemma_declared_calls_generate(stmts[i], names, 0);
        lemma_conformance(stmts[i], sigs[i].name, sigs[i].return_ty, names);
        lemma_conforming_bodies_generate(sigs, stmts, i + 1);
    }
}

/// Calls resolve wherever the callee stands. When the functions can all be
/// declared, every call names one of them, be it defined before or after the
/// caller, and every body returns what its header declares, then the module
/// is generated.
pub proof fn lemma_generation_succeeds(sigs: Seq<FunctionView>, stmts: Seq<Seq<ExprView>>)
    requires
        first_failed_declaration(sigs, 0) is None,
        bodies_conform(sigs, stmts),
    ensures
        generate_spec(sigs, stmts) is Ok,
{
    lemma_conforming_bodies_generate(sigs, stmts, 0);
}

/// Every call in the code of a block names a declared function.
pub proof fn lemma_code_calls_in_range(stmts: Seq<ExprView>, names: Seq<Seq<char>>, i: int)
    requires
        compound_code(stmts, names, i) is Ok,
    ensures
        calls_in_range(compound_code(stmts, names, i)->Ok_0.0, names.len() as int),
    decreases stmts, stmts.len() - i,
{
    if 0 <= i < stmts.len() {
        match stmts[i] {
            ExprView::Return(_) => {},
            ExprView::Compound(inner) => {
                lemma_code_calls_in_range(inner, names, 0);
                match compound_code(inner, names, 0) {
                    Ok((_, CompoundReturnType::ImplicitUnit)) => {
                        lemma_code_calls_in_range(stmts, names, i + 1);
                    },
                    _ => {},
                }
            },
            ExprView::Exit(_) => {
                lemma_code_calls_in_range(stmts, names, i + 1);
            },
            ExprView::FnCall(name) => {
                lemma_code_calls_in_range(stmts, names, i + 1);
            },
        }
    }
}

/// Every call in the bodies from the `i`-th on names one of the functions.
pub proof fn lemma_bodies_calls_in_range(
    sigs: Seq<FunctionView>,
    stmts: Seq<Seq<ExprView>>,
    i: int,
)
    requires
        0 <= i <= sigs.len(),
        define_functions(sigs, stmts, i) is Ok,
    ensures
        define_functions(sigs, stmts, i)->Ok_0.len() == sigs.len() - i,
        forall|k: int|
            0 <= k < sigs.len() - i ==> calls_in_range(
                #[trigger] define_functions(sigs, stmts, i)->Ok_0[k],
                sigs.len() as int,
            ),
    decreases sigs.len() - i,
{
    if i < sigs.len() {
        lemma_code_calls_in_range(stmts[i], signature_names(sigs), 0);
        lemma_bodies_calls_in_range(sigs, stmts, i + 1);
    }
}

/// Declaration comes before use: in a generated module, every call names a
/// function of the module.
pub proof fn lemma_generated_module_valid(sigs: Seq<FunctionView>, stmts: Seq<Seq<ExprView>>)
    requires
        generate_spec(sigs, stmts) is Ok,
    ensures
        generate_spec(sigs, stmts)->Ok_0.len() == sigs.len(),
        module_valid(generate_spec(sigs, stmts)->Ok_0),
{
    lemma_bodies_calls_in_range(sigs, stmts, 0);
}

/// Functions that carry no handle and whose names are pairwise different can
/// all be declared.
pub proof fn lemma_no_failed_declaration(sigs: Seq<FunctionView>, from: int)
    requires
        forall|i: int| 0 <= i < sigs.len() ==> (#[trigger] sigs[i]).codegen_data_ref is None,
        forall|i: int, j: int| 0 <= i < j < sigs.len() ==> sigs[i].name != sigs[j].name,
    ensures
        first_failed_declaration(sigs, from) is None,
    decreases sigs.len() - from,
{
    if 0 <= from < sigs.len() {
        assert(!declaration_fails(sigs, from));
        lemma_no_failed_declaration(sigs, from + 1);
    }
}

/// The first function whose body cannot be generated decides how generation
/// ends: when the bodies from the `i`-th up to the `f`-th are generated and
/// that of the `f`-th is not, the error is that of the `f`-th.
pub proof fn lemma_first_failing_function(
    sigs: Seq<FunctionView>,
    stmts: Seq<Seq<ExprView>>,
    f: int,
    i: int,
)
    requires
        0 <= i <= f < sigs.len(),
        forall|g: int|
            i <= g < f ==> function_code(
                #[trigger] stmts[g],
                sigs[g].name,
                sigs[g].return_ty,
                signature_names(sigs),
            ) is Ok,
        function_code(stmts[f], sigs[f].name, sigs[f].return_ty, signature_names(sigs)) is Err,
    ensures
        define_functions(sigs, stmts, i) == Err::<Seq<Seq<Instruction>>, CodegenErrorView>(
            function_code(stmts[f], sigs[f].name, sigs[f].return_ty, signature_names(sigs))->Err_0,
        ),
    decreases f - i,
{
    if i < f {
        assert(function_code(stmts[i], sigs[i].name, sigs[i].return_ty, signature_names(sigs))
            is Ok);
        lemma_first_failing_function(sigs, stmts, f, i + 1);
    }
}

/// A call of a function that is not declared fails the generation of the
/// module with `UndefinedFunction` of its name, provided that generation gets
/// to the call: the functions can all be declared, the bodies of the
/// functions before the caller are generated, and in the caller's body the
/// statements before the call are generated without error and without an
/// explicit return.
pub proof fn lemma_undefined_call_fails_generation(
    sigs: Seq<FunctionView>,
    stmts: Seq<Seq<ExprView>>,
    f: int,
    k: int,
)
    requires
        first_failed_declaration(sigs, 0) is None,
        0 <= f < sigs.len(),
        forall|g: int|
            0 <= g < f ==> function_code(
                #[trigger] stmts[g],
                sigs[g].name,
                sigs[g].return_ty,
                signature_names(sigs),
            ) is Ok,
        0 <= k < stmts[f].len(),
        stmts[f][k] is FnCall,
        !signature_names(sigs).contains(stmts[f][k]->FnCall_0),
        compound_code(stmts[f].take(k), signature_names(sigs), 0) is Ok,
        compound_code(stmts[f].take(k), signature_names(sigs), 0)->Ok_0.1 is ImplicitUnit,
    ensures
        generate_spec(sigs, stmts) == Err::<Seq<BackendFunctionView>, CodegenErrorView>(
            CodegenErrorView::UndefinedFunction(stmts[f][k]->FnCall_0),
        ),
{
    lemma_undefined_call_fails(stmts[f], signature_names(sigs), k);
    lemma_first_failing_function(sigs, stmts, f, 0);
}

/// A function whose body does not return what its header declares fails the
/// generation of the module with `ReturnTypeMismatch`, provided that
/// generation gets to the check: the functions can all be declared, the
/// bodies of the functions before it are generated, and its own statements
/// are generated without error. The body returns an integer if it holds a
/// `return`, and the unit if it holds none.
pub proof fn lemma_mismatch_fails_generation(
    sigs: Seq<FunctionView>,
    stmts: Seq<Seq<ExprView>>,
    f: int,
)
    requires
        first_failed_declaration(sigs, 0) is None,
        0 <= f < sigs.len(),
        forall|g: int|
            0 <= g < f ==> function_code(
                #[trigger] stmts[g],
                sigs[g].name,
                sigs[g].return_ty,
                signature_names(sigs),
            ) is Ok,
        compound_code(stmts[f], signature_names(sigs), 0) is Ok,
        (sigs[f].return_ty == Type::Int) != has_return(stmts[f], 0),
    ensures
        generate_spec(sigs, stmts) == Err::<Seq<BackendFunctionView>, CodegenErrorView>(
            CodegenErrorView::ReturnTypeMismatch {
                function: sigs[f].name,
                declared: sigs[f].return_ty,
                actual: if has_return(stmts[f], 0) {
                    Type::Int
                } else {
                    Type::Unit
                },
            },
        ),
{
    lemma_return_type(stmts[f], signature_names(sigs), 0);
    lemma_first_failing_function(sigs, stmts, f, 0);
}

/// Where every function can be declared, none fails from the `from`-th on.
pub proof fn lemma_no_declaration_fails(sigs: Seq<FunctionView>, from: int)
    requires
        0 <= from,
        first_failed_declaration(sigs, from) is None,
    ensures
        forall|j: int| from <= j < sigs.len() ==> !declaration_fails(sigs, j),
    decreases sigs.len() - from,
{
    if from < sigs.len() {
        lemma_no_declaration_fails(sigs, from + 1);
    }
}

/// The functions of a generated module have pairwise different names.
pub proof fn lemma_generated_names_distinct(sigs: Seq<FunctionView>, stmts: Seq<Seq<ExprView>>)
    requires
        generate_spec(sigs, stmts) is Ok,
    ensures
        forall|i: int, j: int|
            0 <= i < j < sigs.len() ==> (#[trigger] sigs[i]).name != (#[trigger] sigs[j]).name,
{
    lemma_no_declaration_fails(sigs, 0);
    assert forall|i: int, j: int| 0 <= i < j < sigs.len() implies (#[trigger] sigs[i]).name != (
    #[trigger] sigs[j]).name by {
        assert(!declaration_fails(sigs, j));
    }
}

} // verus!

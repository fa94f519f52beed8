//! The code generator: a syntax tree and its symbol table to a backend module.
//!
//! Generation runs in two passes over the function definitions. The first
//! declares every function in the module and attaches the handle of the
//! declaration to the function's entry in the symbol table. The second
//! generates the bodies. Because every function is declared before any body
//! is generated, a call may name a function that is defined further down.

use vstd::hash_map::StringHashMap;
use vstd::prelude::*;

use crate::compiler::codegen::proofs::lemma_generated_module_valid;
use crate::compiler::codegen::types::CompoundReturnType;
use crate::compiler::parser::ast::{
    expr_view, lemma_exprs_view, CompoundExpr, Expr, ExprView, FunctionDefinition,
    FunctionDefinitionView, Root, Type,
};
use crate::compiler::semantic_analysis::AnalyzedAST;
use crate::compiler::symbol_table::{FunctionRef, FunctionView, Sym};

pub mod llvm;
pub mod proofs;
pub mod types;

verus! {

/// The handle of a function that was declared in a backend module: its
/// position among the module's functions.
#[derive(Debug, Copy, Clone, PartialEq, Eq, Structural)]
pub struct CodegenFunctionDataRef {
    pub index: usize,
}

/// One instruction of a function body.
#[derive(Debug, Copy, Clone, PartialEq, Eq, Structural)]
pub enum Instruction {
    /// A call of the external primitive that ends the process, with the
    /// status as its one argument.
    Exit(u32),
    /// A call, without arguments, of a function declared in the module.
    Call(CodegenFunctionDataRef),
    /// A return of the given integer constant.
    Return(u32),
    /// A return without a value.
    ReturnVoid,
}

/// A function of a backend module: its declaration, and the instructions of
/// its body once it has been defined.
#[derive(Debug, PartialEq, Eq)]
pub struct BackendFunction {
    pub name: String,
    pub return_ty: Type,
    pub body: Vec<Instruction>,
}

/// The mathematical value of a [`BackendFunction`].
pub ghost struct BackendFunctionView {
    pub name: Seq<char>,
    pub return_ty: Type,
    pub body: Seq<Instruction>,
}

impl View for BackendFunction {
    type V = BackendFunctionView;

    open spec fn view(&self) -> BackendFunctionView {
        BackendFunctionView { name: self.name@, return_ty: self.return_ty, body: self.body@ }
    }
}

/// What the code generator produces: the declared functions in the order of
/// their declaration.
#[derive(Debug, PartialEq, Eq)]
pub struct BackendModule {
    pub functions: Vec<BackendFunction>,
}

impl View for BackendModule {
    type V = Seq<BackendFunctionView>;

    open spec fn view(&self) -> Seq<BackendFunctionView> {
        Seq::new(self.functions.len() as nat, |i: int| self.functions[i]@)
    }
}

impl BackendModule {
    /// Whether every call in the module names a function of the module.
    pub fn is_valid(&self) -> (r: bool)
        ensures
            r == module_valid(self@),
    {
        let n: usize = self.functions.len();
        let mut i: usize = 0;
        while i < n
            invariant
                n == self.functions.len(),
                i <= n,
                forall|f: int| 0 <= f < i ==> calls_in_range((#[trigger] self@[f]).body, n as int),
            decreases n - i,
        {
            let body = &self.functions[i].body;
            assert(self@[i as int].body == body@);
            let m: usize = body.len();
            let mut k: usize = 0;
            while k < m
                invariant
                    n == self.functions.len(),
                    i < n,
                    self@[i as int].body == body@,
                    m == body.len(),
                    k <= m,
                    forall|j: int|
                        0 <= j < k ==> ((#[trigger] body@[j]) matches Instruction::Call(callee)
                            ==> callee.index < n),
                decreases m - k,
            {
                match body[k] {
                    Instruction::Call(callee) => {
                        if callee.index >= n {
                            assert(body@[k as int] == Instruction::Call(callee));
                            assert(!calls_in_range(self@[i as int].body, n as int));
                            return false;
                        }
                    },
                    _ => {},
                }
                k += 1;
            }
            i += 1;
        }
        true
    }
}

/// Why code generation failed.
#[derive(Debug, PartialEq, Eq)]
pub enum CodegenError {
    /// A call names a function that the module does not declare.
    UndefinedFunction(String),
    /// The body of `function` returns a value of another type than its
    /// header declares.
    ReturnTypeMismatch { function: String, declared: Type, actual: Type },
    /// The function of this name was declared before: either in this module,
    /// or its entry in the symbol table carries a handle already.
    AlreadyAttached(String),
}

/// The mathematical value of a [`CodegenError`].
pub ghost enum CodegenErrorView {
    UndefinedFunction(Seq<char>),
    ReturnTypeMismatch { function: Seq<char>, declared: Type, actual: Type },
    AlreadyAttached(Seq<char>),
}

impl View for CodegenError {
    type V = CodegenErrorView;

    open spec fn view(&self) -> CodegenErrorView {
        match *self {
            CodegenError::UndefinedFunction(name) => CodegenErrorView::UndefinedFunction(name@),
            CodegenError::ReturnTypeMismatch {
                function,
                declared,
                actual,
            } => CodegenErrorView::ReturnTypeMismatch { function: function@, declared, actual },
            CodegenError::AlreadyAttached(name) => CodegenErrorView::AlreadyAttached(name@),
        }
    }
}

/// Whether every call among the instructions `code` names one of the first
/// `n` functions of a module.
pub open spec fn calls_in_range(code: Seq<Instruction>, n: int) -> bool {
    forall|k: int|
        0 <= k < code.len() ==> ((#[trigger] code[k]) matches Instruction::Call(callee)
            ==> callee.index < n)
}

/// Whether every call in the module names a function of the module.
pub open spec fn module_valid(module: Seq<BackendFunctionView>) -> bool {
    forall|i: int|
        0 <= i < module.len() ==> calls_in_range((#[trigger] module[i]).body, module.len() as int)
}

/// The outcome of generating a block: its instructions and how it ended.
pub type CompoundCode = Result<(Seq<Instruction>, CompoundReturnType), CodegenErrorView>;

/// The names of the functions of a module, in order.
pub open spec fn module_names(module: Seq<BackendFunctionView>) -> Seq<Seq<char>> {
    Seq::new(module.len(), |i: int| module[i].name)
}

/// The handle of the declared function with the name `name`, given the names
/// of the declared functions in the order of their declaration.
pub open spec fn resolve(names: Seq<Seq<char>>, name: Seq<char>) -> Option<CodegenFunctionDataRef> {
    if names.contains(name) {
        Some(
            CodegenFunctionDataRef {
                index: (choose|i: int| 0 <= i < names.len() && names[i] == name) as usize,
            },
        )
    } else {
        None
    }
}

/// The instructions `code`, followed by the outcome of generating what comes
/// after them.
pub open spec fn prepend_code(code: Seq<Instruction>, rest: CompoundCode) -> CompoundCode {
    match rest {
        Ok((more, ret)) => Ok((code + more, ret)),
        Err(e) => Err(e),
    }
}

/// The code of the statements of a block from the `i`-th on, where `names`
/// are the declared functions.
///
/// An `exit` and a call each become one instruction, and generation goes on.
/// A `return` becomes one instruction and ends the block: what follows it is
/// not generated. A nested block is generated in place; if it ends at an
/// explicit return, so does the enclosing block, there and then. A block that
/// reaches its end closes with a return without a value.
pub open spec fn compound_code(stmts: Seq<ExprView>, names: Seq<Seq<char>>, i: int) -> CompoundCode
    decreases stmts, stmts.len() - i,
{
    if i < 0 || i >= stmts.len() {
        Ok((seq![Instruction::ReturnVoid], CompoundReturnType::ImplicitUnit))
    } else {
        match stmts[i] {
            ExprView::Return(value) => Ok(
                (seq![Instruction::Return(value)], CompoundReturnType::Explicit(Type::Int)),
            ),
            ExprView::Compound(inner) => match compound_code(inner, names, 0) {
                Err(e) => Err(e),
                Ok((code, CompoundReturnType::Explicit(ty))) => Ok(
                    (code, CompoundReturnType::Explicit(ty)),
                ),
                Ok((code, CompoundReturnType::ImplicitUnit)) => prepend_code(
                    code,
                    compound_code(stmts, names, i + 1),
                ),
            },
            ExprView::Exit(code) => prepend_code(
                seq![Instruction::Exit(code)],
                compound_code(stmts, names, i + 1),
            ),
            ExprView::FnCall(name) => match resolve(names, name) {
                Some(callee) => prepend_code(
                    seq![Instruction::Call(callee)],
                    compound_code(stmts, names, i + 1),
                ),
                None => Err(CodegenErrorView::UndefinedFunction(name)),
            },
        }
    }
}

/// The body of the function `name` with the declared return type `declared`
/// and the statements `stmts`: the code of the statements, provided that
/// they return what the header declares.
pub open spec fn function_code(
    stmts: Seq<ExprView>,
    name: Seq<char>,
    declared: Type,
    names: Seq<Seq<char>>,
) -> Result<Seq<Instruction>, CodegenErrorView> {
    match compound_code(stmts, names, 0) {
        Err(e) => Err(e),
        Ok((code, ret)) => if ret.ty() == declared {
            Ok(code)
        } else {
            Err(
                CodegenErrorView::ReturnTypeMismatch {
                    function: name,
                    declared,
                    actual: ret.ty(),
                },
            )
        },
    }
}

/// The signatures of the definitions `defs`, as the table holds them.
pub open spec fn signatures(
    defs: Seq<FunctionDefinitionView>,
    table: Map<FunctionRef, FunctionView>,
) -> Seq<FunctionView> {
    Seq::new(defs.len(), |i: int| table[defs[i].sym])
}

/// The bodies of the definitions `defs`.
pub open spec fn bodies(defs: Seq<FunctionDefinitionView>) -> Seq<Seq<ExprView>> {
    Seq::new(defs.len(), |i: int| defs[i].compound)
}

/// The names of the signatures `sigs`, in order.
pub open spec fn signature_names(sigs: Seq<FunctionView>) -> Seq<Seq<char>> {
    Seq::new(sigs.len(), |i: int| sigs[i].name)
}

/// Whether every definition holds a handle of the table.
pub open spec fn handles_valid(
    defs: Seq<FunctionDefinitionView>,
    table: Map<FunctionRef, FunctionView>,
) -> bool {
    forall|i: int| 0 <= i < defs.len() ==> table.contains_key((#[trigger] defs[i]).sym)
}

/// Whether the `i`-th function cannot be declared: it carries a handle
/// already, or a function before it has its name.
pub open spec fn declaration_fails(sigs: Seq<FunctionView>, i: int) -> bool {
    sigs[i].codegen_data_ref is Some || exists|j: int|
        0 <= j < i && (#[trigger] sigs[j]).name == sigs[i].name
}

/// The first function from the `from`-th on that cannot be declared.
pub open spec fn first_failed_declaration(sigs: Seq<FunctionView>, from: int) -> Option<int>
    decreases sigs.len() - from,
{
    if from < 0 || from >= sigs.len() {
        None
    } else if declaration_fails(sigs, from) {
        Some(from)
    } else {
        first_failed_declaration(sigs, from + 1)
    }
}

/// How many functions the first pass declares: all of them, or those before
/// the first that cannot be declared.
pub open spec fn declared_count(sigs: Seq<FunctionView>) -> int {
    match first_failed_declaration(sigs, 0) {
        Some(i) => i,
        None => sigs.len() as int,
    }
}

/// The module after the first `n` functions have been declared: each is
/// there with its name and return type, and without a body.
pub open spec fn declared_module(sigs: Seq<FunctionView>, n: int) -> Seq<BackendFunctionView> {
    Seq::new(
        n as nat,
        |i: int|
            BackendFunctionView {
                name: sigs[i].name,
                return_ty: sigs[i].return_ty,
                body: Seq::empty(),
            },
    )
}

/// The function bodies `done`, followed by the outcome of generating the
/// bodies after them.
pub open spec fn prepend_bodies(
    done: Seq<Seq<Instruction>>,
    rest: Result<Seq<Seq<Instruction>>, CodegenErrorView>,
) -> Result<Seq<Seq<Instruction>>, CodegenErrorView> {
    match rest {
        Ok(more) => Ok(done + more),
        Err(e) => Err(e),
    }
}

/// The bodies of the functions from the `i`-th on, or the first error.
pub open spec fn define_functions(
    sigs: Seq<FunctionView>,
    stmts: Seq<Seq<ExprView>>,
    i: int,
) -> Result<Seq<Seq<Instruction>>, CodegenErrorView>
    decreases sigs.len() - i,
{
    if i < 0 || i >= sigs.len() {
        Ok(Seq::empty())
    } else {
        match function_code(stmts[i], sigs[i].name, sigs[i].return_ty, signature_names(sigs)) {
            Err(e) => Err(e),
            Ok(code) => prepend_bodies(seq![code], define_functions(sigs, stmts, i + 1)),
        }
    }
}

/// The module with the signatures `sigs` and the bodies `code`.
pub open spec fn defined_module(sigs: Seq<FunctionView>, code: Seq<Seq<Instruction>>) -> Seq<
    BackendFunctionView,
> {
    Seq::new(
        sigs.len(),
        |i: int|
            BackendFunctionView { name: sigs[i].name, return_ty: sigs[i].return_ty, body: code[i] },
    )
}

/// The module that is generated for functions with the signatures `sigs` and
/// the statements `stmts`, or the first error.
///
/// The declarations come first: the first function that cannot be declared
/// fails the generation before any body is looked at. Then the bodies are
/// generated in order; a call in any of them may name any of the functions.
pub open spec fn generate_spec(sigs: Seq<FunctionView>, stmts: Seq<Seq<ExprView>>) -> Result<
    Seq<BackendFunctionView>,
    CodegenErrorView,
> {
    match first_failed_declaration(sigs, 0) {
        Some(i) => Err(CodegenErrorView::AlreadyAttached(sigs[i].name)),
        None => match define_functions(sigs, stmts, 0) {
            Err(e) => Err(e),
            Ok(code) => Ok(defined_module(sigs, code)),
        },
    }
}

/// What declaring the first `n` of the definitions `defs` did to the symbol
/// table: `before` is the table at the start, `after` the table at the end.
/// The entry of the `k`-th definition carries the handle `k`, and nothing
/// else has changed.
pub open spec fn attached(
    before: Map<FunctionRef, FunctionView>,
    after: Map<FunctionRef, FunctionView>,
    defs: Seq<FunctionDefinitionView>,
    n: int,
) -> bool {
    &&& after.dom() == before.dom()
    &&& forall|k: int|
        0 <= k < n ==> after[(#[trigger] defs[k]).sym] == FunctionView {
            codegen_data_ref: Some(CodegenFunctionDataRef { index: k as usize }),
            ..before[defs[k].sym]
        }
    &&& forall|r: FunctionRef|
        before.contains_key(r) && (forall|k: int| 0 <= k < n ==> (#[trigger] defs[k]).sym != r)
            ==> #[trigger] after[r] == before[r]
}

/// Putting instructions in front of an outcome twice is putting them in
/// front of it together.
pub proof fn lemma_prepend_code(a: Seq<Instruction>, b: Seq<Instruction>, rest: CompoundCode)
    ensures
        prepend_code(a, prepend_code(b, rest)) == prepend_code(a + b, rest),
{
    match rest {
        Ok((more, _)) => {
            assert(a + (b + more) =~= (a + b) + more);
        },
        Err(_) => {},
    }
}

/// When no function before the `i`-th fails to be declared, the first
/// failure from the start on is the first failure from the `i`-th on.
pub proof fn lemma_first_failed_declaration(sigs: Seq<FunctionView>, from: int, i: int)
    requires
        0 <= from <= i <= sigs.len(),
        forall|k: int| from <= k < i ==> !declaration_fails(sigs, k),
    ensures
        first_failed_declaration(sigs, from) == first_failed_declaration(sigs, i),
    decreases i - from,
{
    if from < i {
        lemma_first_failed_declaration(sigs, from + 1, i);
    }
}

/// The state of a code generator: the module under construction, and an
/// index of its functions by name.
pub struct CodegenContext {
    module: BackendModule,
    functions: StringHashMap<CodegenFunctionDataRef>,
}

impl View for CodegenContext {
    type V = Seq<BackendFunctionView>;

    /// The module under construction.
    closed spec fn view(&self) -> Seq<BackendFunctionView> {
        self.module@
    }
}

impl CodegenContext {
    /// The index finds every function of the module under its name, and
    /// nothing else. In particular no two functions share a name.
    pub closed spec fn wf(&self) -> bool {
        &&& forall|name: Seq<char>| #[trigger]
            self.functions@.contains_key(name) ==> {
                let i = self.functions@[name].index;
                i < self.module.functions.len() && self.module.functions@[i as int].name@ == name
            }
        &&& forall|i: int|
            0 <= i < self.module.functions.len() ==> {
                let name = (#[trigger] self.module.functions@[i]).name@;
                self.functions@.contains_key(name) && self.functions@[name].index == i
            }
    }

    /// The names of the declared functions, in the order of declaration.
    pub open spec fn names(&self) -> Seq<Seq<char>> {
        module_names(self@)
    }

    /// The names of the declared functions are pairwise different.
    pub proof fn lemma_names_distinct(&self, i: int, j: int)
        requires
            self.wf(),
            0 <= i < self.names().len(),
            0 <= j < self.names().len(),
            self.names()[i] == self.names()[j],
        ensures
            i == j,
    {
        assert(self.module.functions@[i].name@ == self.names()[i]);
        assert(self.module.functions@[j].name@ == self.names()[j]);
    }

    /// A generator with an empty module.
    pub fn new() -> (ctx: CodegenContext)
        ensures
            ctx.wf(),
            ctx@.len() == 0,
    {
        CodegenContext {
            module: BackendModule { functions: Vec::new() },
            functions: StringHashMap::new(),
        }
    }

    /// The module that was built.
    pub fn into_module(self) -> (module: BackendModule)
        ensures
            module@ == self@,
    {
        self.module
    }

    /// The handle of the declared function with the given name.
    pub fn get_function(&self, name: &str) -> (r: Option<CodegenFunctionDataRef>)
        requires
            self.wf(),
        ensures
            r == resolve(self.names(), name@),
    {
        let names = Ghost(self.names());
        match self.functions.get(name) {
            Some(handle) => {
                proof {
                    let i = handle.index as int;
                    assert(self.module.functions@[i].name@ == name@);
                    assert(names@[i] == name@);
                    let c = choose|c: int| 0 <= c < names@.len() && names@[c] == name@;
                    self.lemma_names_distinct(c, i);
                }
                Some(*handle)
            },
            None => {
                proof {
                    if names@.contains(name@) {
                        let c = choose|c: int| 0 <= c < names@.len() && names@[c] == name@;
                        assert(self.module.functions@[c].name@ == name@);
                    }
                }
                None
            },
        }
    }

    /// Declares the function of `fn_ref` in the module, with the name and
    /// return type that the symbol table holds for it, and attaches the
    /// handle of the declaration to its entry in the table.
    ///
    /// A function is declared once: if the module has a function of that name
    /// or the entry carries a handle, nothing changes.
    pub fn generate_function_value(&mut self, sym: &mut Sym, fn_ref: FunctionRef) -> (r: Result<
        CodegenFunctionDataRef,
        CodegenError,
    >)
        requires
            old(self).wf(),
            old(sym).wf(),
            old(sym)@.contains_key(fn_ref),
        ensures
            final(self).wf(),
            final(sym).wf(),
            ({
                let entry = old(sym)@[fn_ref];
                match r {
                    Ok(handle) => {
                        &&& !old(self).names().contains(entry.name)
                        &&& entry.codegen_data_ref is None
                        &&& handle.index == old(self)@.len()
                        &&& final(self)@ == old(self)@.push(
                            BackendFunctionView {
                                name: entry.name,
                                return_ty: entry.return_ty,
                                body: Seq::empty(),
                            },
                        )
                        &&& final(sym)@ == old(sym)@.insert(
                            fn_ref,
                            FunctionView { codegen_data_ref: Some(handle), ..entry },
                        )
                    },
                    Err(e) => {
                        &&& old(self).names().contains(entry.name) || entry.codegen_data_ref is Some
                        &&& e@ == CodegenErrorView::AlreadyAttached(entry.name)
                        &&& final(self)@ == old(self)@
                        &&& final(sym)@ == old(sym)@
                    },
                }
            }),
    {
        let entry = sym.get_function(fn_ref);
        let name = entry.name.clone();
        let return_ty = entry.return_ty;
        if self.get_function(name.as_str()).is_some() {
            return Err(CodegenError::AlreadyAttached(name));
        }
        let handle = CodegenFunctionDataRef { index: self.module.functions.len() };
        match sym.attach_codegen_data(fn_ref, handle) {
            Err(e) => {
                return Err(CodegenError::AlreadyAttached(e.name));
            },
            Ok(_) => {},
        }
        proof {
            if self.functions@.contains_key(name@) {
                let i = self.functions@[name@].index as int;
                assert(self.names()[i] == name@);
            }
        }
        self.functions.insert(name.clone(), handle);
        self.module.functions.push(BackendFunction { name, return_ty, body: Vec::new() });
        proof {
            assert(self@ =~= old(self)@.push(
                BackendFunctionView {
                    name: old(sym)@[fn_ref].name,
                    return_ty: old(sym)@[fn_ref].return_ty,
                    body: Seq::empty(),
                },
            ));
        }
        Ok(handle)
    }

    /// The return type that the function of `handle` was declared with.
    pub fn declared_return_type(&self, handle: CodegenFunctionDataRef) -> (ty: Type)
        requires
            handle.index < self@.len(),
        ensures
            ty == self@[handle.index as int].return_ty,
    {
        self.module.functions[handle.index].return_ty
    }

    /// Gives the declared function of `handle` its body.
    pub fn define_function(&mut self, handle: CodegenFunctionDataRef, body: Vec<Instruction>)
        requires
            old(self).wf(),
            handle.index < old(self)@.len(),
        ensures
            final(self).wf(),
            final(self)@ == old(self)@.update(
                handle.index as int,
                BackendFunctionView { body: body@, ..old(self)@[handle.index as int] },
            ),
    {
        self.module.functions[handle.index].body = body;
        proof {
            assert(self@ =~= old(self)@.update(
                handle.index as int,
                BackendFunctionView { body: body@, ..old(self)@[handle.index as int] },
            ));
        }
    }
}

/// The instruction for a `return` of `value`, and the type of what it
/// returns.
pub fn generate_explicit_return(value: u32) -> (r: (Instruction, Type))
    ensures
        r == (Instruction::Return(value), Type::Int),
{
    (Instruction::Return(value), Type::Int)
}

impl Expr {
    /// The instruction for an `exit` or a call. A call is resolved among the
    /// declared functions.
    pub fn codegen(&self, ctx: &CodegenContext) -> (r: Result<Instruction, CodegenError>)
        requires
            ctx.wf(),
            self is Exit || self is FnCall,
        ensures
            match self@ {
                ExprView::Exit(code) => r == Ok::<Instruction, CodegenError>(Instruction::Exit(code)),
                ExprView::FnCall(name) => match resolve(ctx.names(), name) {
                    Some(callee) => r == Ok::<Instruction, CodegenError>(Instruction::Call(callee)),
                    None => r is Err && r->Err_0@ == CodegenErrorView::UndefinedFunction(name),
                },
                _ => true,
            },
    {
        match self {
            Expr::Exit(exit_code) => Ok(Instruction::Exit(*exit_code)),
            Expr::FnCall(name) => {
                match ctx.get_function(name.as_str()) {
                    Some(callee) => Ok(Instruction::Call(callee)),
                    None => Err(CodegenError::UndefinedFunction(name.clone())),
                }
            },
            _ => Ok(Instruction::ReturnVoid),
        }
    }
}

impl CompoundExpr {
    /// The instructions of this block, and how it ends.
    pub fn codegen(&self, ctx: &CodegenContext) -> (r: Result<
        (Vec<Instruction>, CompoundReturnType),
        CodegenError,
    >)
        requires
            ctx.wf(),
        ensures
            match r {
                Ok((code, ret)) => compound_code(self@, ctx.names(), 0) == Ok::<
                    (Seq<Instruction>, CompoundReturnType),
                    CodegenErrorView,
                >((code@, ret)),
                Err(e) => compound_code(self@, ctx.names(), 0) == Err::<
                    (Seq<Instruction>, CompoundReturnType),
                    CodegenErrorView,
                >(e@),
            },
        decreases self,
    {
        let ghost names = ctx.names();
        let ghost stmts = self@;
        let mut code: Vec<Instruction> = Vec::new();
        let n: usize = self.expressions.len();
        let mut i: usize = 0;
        proof {
            lemma_exprs_view(self.expressions@);
            lemma_prepend_empty(compound_code(stmts, names, 0));
        }
        while i < n
            invariant
                ctx.wf(),
                names == ctx.names(),
                stmts == self@,
                n == self.expressions.len(),
                i <= n,
                stmts.len() == n,
                forall|k: int| 0 <= k < n ==> stmts[k] == expr_view(#[trigger] self.expressions@[k]),
                compound_code(stmts, names, 0) == prepend_code(
                    code@,
                    compound_code(stmts, names, i as int),
                ),
            decreases n - i,
        {
            let ghost done = code@;
            let ghost rest = compound_code(stmts, names, i + 1);
            assert(stmts[i as int] == expr_view(self.expressions@[i as int]));
            match &self.expressions[i] {
                Expr::Return(value) => {
                    let (instruction, ty) = generate_explicit_return(*value);
                    code.push(instruction);
                    assert(code@ =~= done + seq![instruction]);
                    return Ok((code, CompoundReturnType::Explicit(ty)));
                },
                Expr::Compound(inner) => {
                    match inner.codegen(ctx) {
                        Err(e) => {
                            return Err(e);
                        },
                        Ok((inner_code, ret)) => {
                            let ghost added = inner_code@;
                            let mut inner_code = inner_code;
                            code.append(&mut inner_code);
                            match ret {
                                CompoundReturnType::Explicit(ty) => {
                                    return Ok((code, CompoundReturnType::Explicit(ty)));
                                },
                                CompoundReturnType::ImplicitUnit => {
                                    proof {
                                        lemma_prepend_code(done, added, rest);
                                    }
                                },
                            }
                        },
                    }
                },
                other => {
                    match other.codegen(ctx) {
                        Err(e) => {
                            return Err(e);
                        },
                        Ok(instruction) => {
                            code.push(instruction);
                            proof {
                                assert(code@ =~= done + seq![instruction]);
                                lemma_prepend_code(done, seq![instruction], rest);
                            }
                        },
                    }
                },
            }
            i += 1;
        }
        let ghost done = code@;
        code.push(Instruction::ReturnVoid);
        assert(code@ =~= done + seq![Instruction::ReturnVoid]);
        Ok((code, CompoundReturnType::ImplicitUnit))
    }
}

/// Putting no instructions in front of an outcome leaves it as it is.
pub proof fn lemma_prepend_empty(rest: CompoundCode)
    ensures
        prepend_code(Seq::empty(), rest) == rest,
{
    match rest {
        Ok((more, _)) => {
            assert(Seq::<Instruction>::empty() + more =~= more);
        },
        Err(_) => {},
    }
}

impl FunctionDefinition {
    /// Generates the body of this function, which has been declared, and
    /// checks that it returns what the declaration says.
    pub fn codegen(&self, ctx: &mut CodegenContext, sym: &Sym) -> (r: Result<(), CodegenError>)
        requires
            old(ctx).wf(),
            sym@.contains_key(self.sym),
            old(ctx).names().contains(sym@[self.sym].name),
        ensures
            final(ctx).wf(),
            ({
                let names = old(ctx).names();
                let at = resolve(names, sym@[self.sym].name)->Some_0.index as int;
                let declared = old(ctx)@[at];
                let code = function_code(self@.compound, declared.name, declared.return_ty, names);
                match r {
                    Ok(_) => code is Ok && final(ctx)@ == old(ctx)@.update(
                        at,
                        BackendFunctionView { body: code->Ok_0, ..declared },
                    ),
                    Err(e) => code == Err::<Seq<Instruction>, CodegenErrorView>(e@) && final(ctx)@
                        == old(ctx)@,
                }
            }),
    {
        let fn_sym = sym.get_function(self.sym);
        let handle = match ctx.get_function(fn_sym.name.as_str()) {
            Some(handle) => handle,
            None => {
                proof {
                    assert(false);
                }
                vstd::pervasive::unreached()
            },
        };
        proof {
            let names = ctx.names();
            let c = choose|c: int| 0 <= c < names.len() && names[c] == sym@[self.sym].name;
            assert(handle.index == c);
        }
        let declared_ty = ctx.declared_return_type(handle);
        let (code, ret) = match self.compound.codegen(ctx) {
            Err(e) => {
                return Err(e);
            },
            Ok(generated) => generated,
        };
        let actual_ty = ret.into_type();
        if !same_type(actual_ty, declared_ty) {
            return Err(
                CodegenError::ReturnTypeMismatch {
                    function: fn_sym.name.clone(),
                    declared: declared_ty,
                    actual: actual_ty,
                },
            );
        }
        ctx.define_function(handle, code);
        Ok(())
    }
}

/// Whether two types are the same.
pub fn same_type(a: Type, b: Type) -> (r: bool)
    ensures
        r == (a == b),
{
    match (a, b) {
        (Type::Unit, Type::Unit) => true,
        (Type::Int, Type::Int) => true,
        _ => false,
    }
}

impl Root {
    /// Whether every definition of this program holds a handle of `sym`.
    pub fn has_valid_handles(&self, sym: &Sym) -> (r: bool)
        ensures
            r == handles_valid(self@, sym@),
    {
        let n: usize = self.functions.len();
        let mut i: usize = 0;
        while i < n
            invariant
                n == self.functions.len(),
                i <= n,
                forall|k: int| 0 <= k < i ==> sym@.contains_key((#[trigger] self@[k]).sym),
            decreases n - i,
        {
            assert(self@[i as int].sym == self.functions[i as int].sym);
            if !sym.contains(self.functions[i].sym) {
                return false;
            }
            i += 1;
        }
        true
    }

    /// Generates the module of this program into `ctx`, which must be new:
    /// first the declarations of all functions, then their bodies.
    pub fn codegen(&self, ctx: &mut CodegenContext, sym: &mut Sym) -> (r: Result<(), CodegenError>)
        requires
            old(ctx).wf(),
            old(ctx)@.len() == 0,
            old(sym).wf(),
            handles_valid(self@, old(sym)@),
        ensures
            final(ctx).wf(),
            final(sym).wf(),
            attached(
                old(sym)@,
                final(sym)@,
                self@,
                declared_count(signatures(self@, old(sym)@)),
            ),
            match r {
                Ok(_) => generate_spec(signatures(self@, old(sym)@), bodies(self@)) == Ok::<
                    Seq<BackendFunctionView>,
                    CodegenErrorView,
                >(final(ctx)@),
                Err(e) => generate_spec(signatures(self@, old(sym)@), bodies(self@)) == Err::<
                    Seq<BackendFunctionView>,
                    CodegenErrorView,
                >(e@),
            },
    {
        let ghost defs = self@;
        let ghost table = sym@;
        let ghost sigs = signatures(defs, table);
        let ghost stmts = bodies(defs);
        let n: usize = self.functions.len();
        let mut i: usize = 0;
        assert(ctx@ =~= declared_module(sigs, 0));
        while i < n
            invariant
                defs == self@,
                table == old(sym)@,
                sigs == signatures(defs, table),
                n == self.functions.len(),
                n == defs.len(),
                i <= n,
                ctx.wf(),
                sym.wf(),
                handles_valid(defs, table),
                ctx@ == declared_module(sigs, i as int),
                attached(table, sym@, defs, i as int),
                forall|k: int| 0 <= k < i ==> !declaration_fails(sigs, k),
            decreases n - i,
        {
            let ghost before = sym@;
            let fn_ref = self.functions[i].sym;
            assert(fn_ref == defs[i as int].sym);
            assert(table.contains_key(fn_ref));
            assert(before.dom().contains(fn_ref));
            proof {
                lemma_attached_entry(table, before, defs, i as int, fn_ref);
                assert(ctx.names() =~= signature_names(sigs).take(i as int));
                lemma_name_declared(sigs, i as int);
            }
            match ctx.generate_function_value(sym, fn_ref) {
                Err(e) => {
                    proof {
                        lemma_entry_carries_handle(table, before, defs, sigs, i as int);
                        assert(declaration_fails(sigs, i as int));
                        lemma_first_failed_declaration(sigs, 0, i as int);
                    }
                    return Err(e);
                },
                Ok(handle) => {
                    proof {
                        lemma_entry_carries_handle(table, before, defs, sigs, i as int);
                        assert(!declaration_fails(sigs, i as int));
                        lemma_attach_next(table, before, sym@, defs, sigs, i as int);
                        assert(ctx@ =~= declared_module(sigs, i + 1));
                    }
                },
            }
            i += 1;
        }
        proof {
            lemma_first_failed_declaration(sigs, 0, n as int);
            assert(ctx@ =~= defined_module(sigs, Seq::new(n as nat, |k: int| Seq::empty())));
            assert(ctx.names() =~= signature_names(sigs));
            match define_functions(sigs, stmts, 0) {
                Ok(more) => {
                    assert(Seq::<Seq<Instruction>>::empty() + more =~= more);
                },
                Err(_) => {},
            }
        }
        let ghost mut done: Seq<Seq<Instruction>> = Seq::empty();
        let mut j: usize = 0;
        while j < n
            invariant
                defs == self@,
                table == old(sym)@,
                sigs == signatures(defs, table),
                stmts == bodies(defs),
                n == self.functions.len(),
                n == defs.len(),
                j <= n,
                ctx.wf(),
                sym.wf(),
                handles_valid(defs, table),
                attached(table, sym@, defs, n as int),
                first_failed_declaration(sigs, 0) is None,
                forall|k: int| 0 <= k < n ==> !declaration_fails(sigs, k),
                done.len() == j,
                ctx@.len() == n,
                ctx.names() == signature_names(sigs),
                forall|k: int|
                    0 <= k < n ==> (#[trigger] ctx@[k]) == (BackendFunctionView {
                        name: sigs[k].name,
                        return_ty: sigs[k].return_ty,
                        body: if k < j {
                            done[k]
                        } else {
                            Seq::empty()
                        },
                    }),
                define_functions(sigs, stmts, 0) == prepend_bodies(
                    done,
                    define_functions(sigs, stmts, j as int),
                ),
            decreases n - j,
        {
            let ghost module = ctx@;
            let ghost names = ctx.names();
            let def = &self.functions[j];
            proof {
                assert(def@ == defs[j as int]);
                assert(table.contains_key(defs[j as int].sym));
                assert(sym@.dom().contains(def.sym));
                assert(sym@[def.sym].name == sigs[j as int].name);
                assert(names[j as int] == sigs[j as int].name);
                let c = choose|c: int| 0 <= c < names.len() && names[c] == sigs[j as int].name;
                ctx.lemma_names_distinct(c, j as int);
                assert(module[j as int].name == sigs[j as int].name);
            }
            match def.codegen(ctx, sym) {
                Err(e) => {
                    return Err(e);
                },
                Ok(_) => {
                    proof {
                        let code = function_code(
                            stmts[j as int],
                            sigs[j as int].name,
                            sigs[j as int].return_ty,
                            names,
                        )->Ok_0;
                        match define_functions(sigs, stmts, j + 1) {
                            Ok(more) => {
                                assert(done + (seq![code] + more) =~= done.push(code) + more);
                            },
                            Err(_) => {},
                        }
                        done = done.push(code);
                        assert(ctx.names() =~= names);
                    }
                },
            }
            j += 1;
        }
        proof {
            assert(done + Seq::<Seq<Instruction>>::empty() =~= done);
            assert(ctx@ =~= defined_module(sigs, done));
        }
        Ok(())
    }
}

/// Generates the backend module of an analysed program.
///
/// `sym` is the table that the program was parsed with. On success the module
/// has one function for each definition, in source order, with the name and
/// return type of its signature and the code of its body. Otherwise the error
/// is the first one that the two passes meet; no module is produced then.
/// Either way the entries of the functions that were declared carry their
/// handles afterwards.
pub fn generate(ast_root: AnalyzedAST, sym: &mut Sym) -> (r: Result<BackendModule, CodegenError>)
    requires
        old(sym).wf(),
        handles_valid(ast_root.ast@, old(sym)@),
    ensures
        final(sym).wf(),
        attached(
            old(sym)@,
            final(sym)@,
            ast_root.ast@,
            declared_count(signatures(ast_root.ast@, old(sym)@)),
        ),
        match r {
            Ok(module) => generate_spec(signatures(ast_root.ast@, old(sym)@), bodies(ast_root.ast@))
                == Ok::<Seq<BackendFunctionView>, CodegenErrorView>(module@) && module_valid(
                module@,
            ),
            Err(e) => generate_spec(signatures(ast_root.ast@, old(sym)@), bodies(ast_root.ast@))
                == Err::<Seq<BackendFunctionView>, CodegenErrorView>(e@),
        },
{
    let mut codegen = CodegenContext::new();
    match ast_root.ast.codegen(&mut codegen, sym) {
        Err(e) => Err(e),
        Ok(_) => {
            proof {
                lemma_generated_module_valid(
                    signatures(ast_root.ast@, old(sym)@),
                    bodies(ast_root.ast@),
                );
            }
            Ok(codegen.into_module())
        },
    }
}

/// While the first `i` definitions have been declared without failure, the
/// entry of a handle in the current table differs from its entry at the
/// start at most in the handle that it carries.
pub proof fn lemma_attached_entry(
    before: Map<FunctionRef, FunctionView>,
    now: Map<FunctionRef, FunctionView>,
    defs: Seq<FunctionDefinitionView>,
    i: int,
    r: FunctionRef,
)
    requires
        0 <= i <= defs.len(),
        attached(before, now, defs, i),
        before.contains_key(r),
    ensures
        now[r].name == before[r].name,
        now[r].return_ty == before[r].return_ty,
{
    if forall|k: int| 0 <= k < i ==> (#[trigger] defs[k]).sym != r {
        assert(now[r] == before[r]);
    } else {
        let k = choose|k: int| 0 <= k < i && (#[trigger] defs[k]).sym == r;
        assert(now[defs[k].sym].name == before[defs[k].sym].name);
    }
}

/// The names of the first `i` signatures hold the name of the `i`-th exactly
/// if a function before the `i`-th has that name.
pub proof fn lemma_name_declared(sigs: Seq<FunctionView>, i: int)
    requires
        0 <= i < sigs.len(),
    ensures
        signature_names(sigs).take(i).contains(sigs[i].name) <==> exists|j: int|
            0 <= j < i && (#[trigger] sigs[j]).name == sigs[i].name,
{
    let names = signature_names(sigs).take(i);
    if names.contains(sigs[i].name) {
        let j = choose|j: int| 0 <= j < names.len() && names[j] == sigs[i].name;
        assert(sigs[j].name == sigs[i].name);
    }
    if exists|j: int| 0 <= j < i && (#[trigger] sigs[j]).name == sigs[i].name {
        let j = choose|j: int| 0 <= j < i && (#[trigger] sigs[j]).name == sigs[i].name;
        assert(names[j] == sigs[i].name);
    }
}

/// While the first `i` definitions have been declared without failure: if no
/// function before the `i`-th has its name, the entry of the `i`-th is still
/// what it was at the start.
pub proof fn lemma_entry_carries_handle(
    before: Map<FunctionRef, FunctionView>,
    now: Map<FunctionRef, FunctionView>,
    defs: Seq<FunctionDefinitionView>,
    sigs: Seq<FunctionView>,
    i: int,
)
    requires
        0 <= i < defs.len(),
        sigs == signatures(defs, before),
        handles_valid(defs, before),
        attached(before, now, defs, i),
    ensures
        (exists|j: int| 0 <= j < i && (#[trigger] sigs[j]).name == sigs[i].name) || now[defs[i].sym]
            == sigs[i],
{
    let r = defs[i].sym;
    if !(forall|k: int| 0 <= k < i ==> (#[trigger] defs[k]).sym != r) {
        let k = choose|k: int| 0 <= k < i && (#[trigger] defs[k]).sym == r;
        assert(sigs[k].name == sigs[i].name);
    } else {
        assert(before.contains_key(r));
        assert(now[r] == before[r]);
    }
}

/// Declaring the `i`-th definition, after the first `i`, extends what the
/// table holds of the declared definitions by one.
pub proof fn lemma_attach_next(
    before: Map<FunctionRef, FunctionView>,
    now: Map<FunctionRef, FunctionView>,
    next: Map<FunctionRef, FunctionView>,
    defs: Seq<FunctionDefinitionView>,
    sigs: Seq<FunctionView>,
    i: int,
)
    requires
        0 <= i < defs.len(),
        i <= usize::MAX,
        sigs == signatures(defs, before),
        handles_valid(defs, before),
        attached(before, now, defs, i),
        !declaration_fails(sigs, i),
        next == now.insert(
            defs[i].sym,
            FunctionView {
                codegen_data_ref: Some(CodegenFunctionDataRef { index: i as usize }),
                ..now[defs[i].sym]
            },
        ),
    ensures
        attached(before, next, defs, i + 1),
{
    let r = defs[i].sym;
    assert(before.contains_key(r));
    assert(next.dom() =~= before.dom());
    lemma_entry_carries_handle(before, now, defs, sigs, i);
    assert(now[r] == before[r]);
    assert forall|k: int| 0 <= k < i + 1 implies next[(#[trigger] defs[k]).sym] == (FunctionView {
        codegen_data_ref: Some(CodegenFunctionDataRef { index: k as usize }),
        ..before[defs[k].sym]
    }) by {
        if k < i {
            if defs[k].sym == r {
                assert(sigs[k].name == sigs[i].name);
            }
        }
    }
    assert forall|x: FunctionRef|
        before.contains_key(x) && (forall|k: int| 0 <= k < i + 1 ==> (#[trigger] defs[k]).sym != x)
        implies #[trigger] next[x] == before[x] by {
        assert(defs[i].sym != x);
        assert forall|k: int| 0 <= k < i implies (#[trigger] defs[k]).sym != x by {}
    }
}

} // verus!

//! The syntax tree that the parser builds and the code generator consumes.

use vstd::prelude::*;

use crate::compiler::symbol_table::FunctionRef;

verus! {

broadcast use vstd::std_specs::vec::group_vec_axioms;

/// The whole program: its function definitions in source order.
#[derive(Debug, PartialEq, Eq)]
pub struct Root {
    pub functions: Vec<FunctionDefinition>,
}

/// A block: statements between braces, in source order.
#[derive(Debug, PartialEq, Eq)]
pub struct CompoundExpr {
    pub expressions: Vec<Expr>,
}

/// A statement.
#[derive(Debug, PartialEq, Eq)]
pub enum Expr {
    /// A nested block.
    Compound(Box<CompoundExpr>),
    /// Ends the process with the given status.
    Exit(u32),
    /// Calls the function of that name, which may be defined later on.
    FnCall(String),
    /// Returns the given integer from the enclosing function.
    Return(u32),
}

/// A function: the handle of its signature in the symbol table, and its body.
#[derive(Debug, PartialEq, Eq)]
pub struct FunctionDefinition {
    pub sym: FunctionRef,
    pub compound: CompoundExpr,
}

/// The types of the language.
#[derive(Debug, Copy, Clone, PartialEq, Eq, Structural)]
pub enum Type {
    Unit,
    Int,
}

/// The mathematical value of a statement. A block is the sequence of its
/// statements, a call holds the characters of the callee's name.
pub ghost enum ExprView {
    Compound(Seq<ExprView>),
    Exit(u32),
    FnCall(Seq<char>),
    Return(u32),
}

/// The mathematical value of a function definition.
pub ghost struct FunctionDefinitionView {
    pub sym: FunctionRef,
    pub compound: Seq<ExprView>,
}

/// The value of one statement.
pub open spec fn expr_view(e: Expr) -> ExprView
    decreases e,
{
    match e {
        Expr::Compound(inner) => ExprView::Compound(exprs_view(inner.expressions@)),
        Expr::Exit(code) => ExprView::Exit(code),
        Expr::FnCall(name) => ExprView::FnCall(name@),
        Expr::Return(value) => ExprView::Return(value),
    }
}

/// The values of a sequence of statements, in order.
pub open spec fn exprs_view(es: Seq<Expr>) -> Seq<ExprView>
    decreases es,
{
    if es.len() == 0 {
        Seq::empty()
    } else {
        exprs_view(es.drop_last()).push(expr_view(es.last()))
    }
}

/// The values of a sequence of function definitions, in order.
pub open spec fn definitions_view(fs: Seq<FunctionDefinition>) -> Seq<FunctionDefinitionView> {
    Seq::new(fs.len(), |i: int| fs[i]@)
}

impl View for Expr {
    type V = ExprView;

    open spec fn view(&self) -> ExprView {
        expr_view(*self)
    }
}

impl View for CompoundExpr {
    type V = Seq<ExprView>;

    open spec fn view(&self) -> Seq<ExprView> {
        exprs_view(self.expressions@)
    }
}

impl View for FunctionDefinition {
    type V = FunctionDefinitionView;

    open spec fn view(&self) -> FunctionDefinitionView {
        FunctionDefinitionView { sym: self.sym, compound: self.compound@ }
    }
}

impl View for Root {
    type V = Seq<FunctionDefinitionView>;

    open spec fn view(&self) -> Seq<FunctionDefinitionView> {
        definitions_view(self.functions@)
    }
}

/// The value of a sequence of statements has one element for each statement:
/// the value of that statement.
pub proof fn lemma_exprs_view(es: Seq<Expr>)
    ensures
        exprs_view(es).len() == es.len(),
        forall|i: int| 0 <= i < es.len() ==> (#[trigger] exprs_view(es)[i]) == expr_view(es[i]),
    decreases es.len(),
{
    if es.len() > 0 {
        lemma_exprs_view(es.drop_last());
    }
}

/// Appending a statement appends its value.
pub proof fn lemma_exprs_view_push(es: Seq<Expr>, e: Expr)
    ensures
        exprs_view(es.push(e)) == exprs_view(es).push(expr_view(e)),
{
    assert(es.push(e).drop_last() =~= es);
}

} // verus!

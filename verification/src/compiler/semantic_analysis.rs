//! Semantic analysis: the checks between parsing and code generation.

use vstd::prelude::*;

use crate::compiler::parser::ast::Root;
use crate::compiler::symbol_table::Sym;

verus! {

/// A syntax tree that has passed semantic analysis.
#[derive(Debug, PartialEq, Eq)]
pub struct AnalyzedAST {
    pub ast: Root,
}

/// What semantic analysis can object to. No rule is checked at this stage
/// yet: the return type of a body is checked during code generation.
#[derive(Debug, PartialEq, Eq)]
pub struct SemanticError {}

/// Analyses a syntax tree. Every tree passes, unchanged.
pub fn analyse(ast: Root, sym: &Sym) -> (r: Result<AnalyzedAST, SemanticError>)
    ensures
        r is Ok,
        r->Ok_0.ast == ast,
{
    Ok(AnalyzedAST { ast })
}

} // verus!

//! A table of the top-level functions by name.

use vstd::hash_map::StringHashMap;
use vstd::prelude::*;

use crate::compiler::parser::ast;
use crate::compiler::symbol_table::DuplicateDefinition;

verus! {

/// What the table holds of a function.
#[derive(Debug, Copy, Clone, PartialEq, Eq, Structural)]
pub struct Function {
    pub return_ty: ast::Type,
}

impl Function {
    /// A function that returns `return_ty`.
    pub fn new(return_ty: ast::Type) -> (f: Function)
        ensures
            f.return_ty == return_ty,
    {
        Function { return_ty }
    }
}

/// The top-level functions of a program, by name.
pub struct SymbolTable {
    top_level_functions: StringHashMap<Function>,
}

impl View for SymbolTable {
    type V = Map<Seq<char>, Function>;

    /// The functions of the table, by name.
    closed spec fn view(&self) -> Map<Seq<char>, Function> {
        self.top_level_functions@
    }
}

impl SymbolTable {
    /// An empty table.
    pub fn new() -> (table: SymbolTable)
        ensures
            table@ == Map::<Seq<char>, Function>::empty(),
    {
        SymbolTable { top_level_functions: StringHashMap::new() }
    }

    /// Adds a function under `name`. A name that is taken is refused, and
    /// the table stays as it is.
    pub fn add_function(&mut self, name: String, f: Function) -> (r: Result<(), DuplicateDefinition>)
        ensures
            match r {
                Ok(_) => !old(self)@.contains_key(name@) && final(self)@ == old(self)@.insert(
                    name@,
                    f,
                ),
                Err(e) => old(self)@.contains_key(name@) && final(self)@ == old(self)@ && e.name@
                    == name@,
            },
    {
        if self.top_level_functions.contains_key(name.as_str()) {
            return Err(DuplicateDefinition { name });
        }
        self.top_level_functions.insert(name, f);
        Ok(())
    }

    /// The function of the given name, if the table has one.
    pub fn get_function(&self, name: &str) -> (r: Option<&Function>)
        ensures
            match r {
                Some(f) => self@.contains_key(name@) && *f == self@[name@],
                None => !self@.contains_key(name@),
            },
    {
        self.top_level_functions.get(name)
    }
}

} // verus!

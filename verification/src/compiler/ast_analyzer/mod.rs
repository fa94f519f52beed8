//! An analysis of the syntax tree that collects its functions by name.

use vstd::prelude::*;

use crate::compiler::ast_analyzer::symbol_table::{Function, SymbolTable};
use crate::compiler::codegen::{handles_valid, signature_names, signatures};
use crate::compiler::parser::ast::Root;
use crate::compiler::parser::proofs::first_duplicate;
use crate::compiler::symbol_table::{DuplicateDefinition, FunctionView, Sym};

pub mod symbol_table;

verus! {

/// A syntax tree with the table of its functions.
pub struct AnalyzedAST {
    pub ast: Root,
    pub table: SymbolTable,
}

/// The table of the first `n` of the signatures `sigs`: each name with its
/// return type.
pub open spec fn table_of(sigs: Seq<FunctionView>, n: int) -> Map<Seq<char>, Function>
    decreases n,
{
    if n <= 0 {
        Map::empty()
    } else {
        table_of(sigs, n - 1).insert(sigs[n - 1].name, Function { return_ty: sigs[n - 1].return_ty })
    }
}

/// The first name among `names` from the `i`-th on that is in `taken` when
/// its turn comes.
pub proof fn lemma_first_duplicate_from(names: Seq<Seq<char>>, taken: Set<Seq<char>>, i: int)
    requires
        0 <= i <= names.len(),
        forall|name: Seq<char>|
            taken.contains(name) <==> exists|j: int| 0 <= j < i && names[j] == name,
        forall|j: int, k: int| 0 <= j < k < i ==> names[j] != names[k],
    ensures
        first_duplicate(names, Set::empty()) == first_duplicate(names.skip(i), taken),
    decreases i,
{
    if i == 0 {
        assert(names.skip(0) =~= names);
        assert(taken =~= Set::<Seq<char>>::empty());
    } else {
        let before = Set::new(|name: Seq<char>| exists|j: int| 0 <= j < i - 1 && names[j] == name);
        lemma_first_duplicate_from(names, before, i - 1);
        let rest = names.skip(i - 1);
        assert(rest[0] == names[i - 1]);
        assert(!before.contains(names[i - 1]));
        assert(rest.drop_first() =~= names.skip(i));
        assert(before.insert(names[i - 1]) =~= taken);
    }
}

/// Collects the functions of a tree in a table by name, with the names and
/// return types that `sym` holds for them.
///
/// The tree is handed back with the table. If two definitions have one name,
/// the second of the first such pair is reported, and nothing is handed back.
pub fn analyze_ast(ast: Root, sym: &Sym) -> (r: Result<AnalyzedAST, DuplicateDefinition>)
    requires
        handles_valid(ast@, sym@),
    ensures
        match r {
            Ok(analyzed) => {
                &&& analyzed.ast == ast
                &&& first_duplicate(signature_names(signatures(ast@, sym@)), Set::empty()) is None
                &&& analyzed.table@ == table_of(signatures(ast@, sym@), ast@.len() as int)
            },
            Err(e) => first_duplicate(signature_names(signatures(ast@, sym@)), Set::empty())
                == Some(e.name@),
        },
{
    let ghost sigs = signatures(ast@, sym@);
    let ghost names = signature_names(sigs);
    let mut table = SymbolTable::new();
    let n: usize = ast.functions.len();
    let mut i: usize = 0;
    while i < n
        invariant
            sigs == signatures(ast@, sym@),
            names == signature_names(sigs),
            handles_valid(ast@, sym@),
            n == ast.functions.len(),
            n == sigs.len(),
            i <= n,
            table@ == table_of(sigs, i as int),
            forall|name: Seq<char>|
                table@.contains_key(name) <==> exists|j: int| 0 <= j < i && names[j] == name,
            forall|j: int, k: int| 0 <= j < k < i ==> names[j] != names[k],
        decreases n - i,
    {
        let fn_ref = ast.functions[i].sym;
        assert(fn_ref == ast@[i as int].sym);
        let f = sym.get_function(fn_ref);
        assert(f@ == sigs[i as int]);
        assert(names[i as int] == f.name@);
        let ghost taken = table@.dom();
        proof {
            lemma_first_duplicate_from(names, taken, i as int);
            assert(names.skip(i as int)[0] == names[i as int]);
        }
        match table.add_function(f.name.clone(), Function::new(f.return_ty)) {
            Err(e) => {
                return Err(e);
            },
            Ok(_) => {},
        }
        proof {
            assert forall|name: Seq<char>| table@.contains_key(name) <==> exists|j: int|
                0 <= j < i + 1 && names[j] == name by {
                if name != names[i as int] && table@.contains_key(name) {
                    let j = choose|j: int| 0 <= j < i && names[j] == name;
                    assert(0 <= j < i + 1 && names[j] == name);
                }
            }
        }
        i += 1;
    }
    proof {
        lemma_first_duplicate_from(names, table@.dom(), n as int);
        assert(names.skip(n as int) =~= Seq::empty());
    }
    Ok(AnalyzedAST { ast, table })
}

} // verus!

use yyn::compiler::ast_analyzer::analyze_ast;
use yyn::compiler::ast_analyzer::symbol_table::{Function, SymbolTable};
use yyn::compiler::lexer::tokenize;
use yyn::compiler::parser::ast::{CompoundExpr, FunctionDefinition, Root, Type};
use yyn::compiler::parser::parse;
use yyn::compiler::semantic_analysis::analyse;
use yyn::compiler::symbol_table::{self, DuplicateDefinition, Sym};

#[test]
fn table_by_name() {
    let mut table = SymbolTable::new();

    assert_eq!(table.get_function("a"), None);
    assert_eq!(table.add_function("a".to_owned(), Function::new(Type::Int)), Ok(()));
    assert_eq!(table.add_function("b".to_owned(), Function::new(Type::Unit)), Ok(()));
    assert_eq!(table.get_function("a"), Some(&Function { return_ty: Type::Int }));
    assert_eq!(table.get_function("b"), Some(&Function { return_ty: Type::Unit }));
    assert_eq!(
        table.add_function("a".to_owned(), Function::new(Type::Unit)),
        Err(DuplicateDefinition { name: "a".to_owned() })
    );
    assert_eq!(table.get_function("a"), Some(&Function { return_ty: Type::Int }));
}

#[test]
fn functions_of_a_tree() {
    let mut sym = Sym::new();
    let src = "function a() -> int { return 1 }\nfunction b() { }";
    let root = parse(tokenize(src).unwrap(), &mut sym).unwrap();
    let analyzed = match analyze_ast(root, &sym) {
        Ok(analyzed) => analyzed,
        Err(e) => panic!("{:?}", e),
    };

    assert_eq!(analyzed.ast.functions.len(), 2);
    assert_eq!(analyzed.table.get_function("a"), Some(&Function::new(Type::Int)));
    assert_eq!(analyzed.table.get_function("b"), Some(&Function::new(Type::Unit)));
    assert_eq!(analyzed.table.get_function("c"), None);
}

#[test]
fn one_function_twice_in_a_tree() {
    let mut sym = Sym::new();
    let a = sym.add_function(symbol_table::Function::new("a".to_owned(), Type::Unit)).unwrap();
    let b = sym.add_function(symbol_table::Function::new("b".to_owned(), Type::Unit)).unwrap();
    let root = Root {
        functions: vec![
            FunctionDefinition { sym: b, compound: CompoundExpr { expressions: vec![] } },
            FunctionDefinition { sym: a, compound: CompoundExpr { expressions: vec![] } },
            FunctionDefinition { sym: a, compound: CompoundExpr { expressions: vec![] } },
            FunctionDefinition { sym: b, compound: CompoundExpr { expressions: vec![] } },
        ],
    };

    assert_eq!(
        analyze_ast(root, &sym).err(),
        Some(DuplicateDefinition { name: "a".to_owned() })
    );
}

#[test]
fn semantic_analysis_passes_every_tree() {
    let mut sym = Sym::new();
    let src = "function a() -> int { }\nfunction b() { c() return 1 }";
    let root = parse(tokenize(src).unwrap(), &mut sym).unwrap();
    let expected = parse(tokenize(src).unwrap(), &mut Sym::new()).unwrap();
    let analyzed = analyse(root, &sym).unwrap();

    assert_eq!(analyzed.ast, expected);
}

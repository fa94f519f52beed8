use yyn::compiler::codegen::CodegenFunctionDataRef;
use yyn::compiler::parser::ast::Type;
use yyn::compiler::symbol_table::{AlreadyAttached, DuplicateDefinition, Function, Sym};

#[test]
fn new_function_has_nothing_attached() {
    let f = Function::new("main".to_owned(), Type::Int);

    assert_eq!(f.name, "main");
    assert_eq!(f.return_ty, Type::Int);
    assert_eq!(f.codegen_data_ref, None);
}

#[test]
fn attach_once() {
    let mut f = Function::new("main".to_owned(), Type::Unit);

    assert_eq!(f.attach_codegen_data(CodegenFunctionDataRef { index: 3 }), Ok(()));
    assert_eq!(f.codegen_data_ref, Some(CodegenFunctionDataRef { index: 3 }));
    assert_eq!(
        f.attach_codegen_data(CodegenFunctionDataRef { index: 4 }),
        Err(AlreadyAttached { name: "main".to_owned() })
    );
    assert_eq!(f.codegen_data_ref, Some(CodegenFunctionDataRef { index: 3 }));
}

#[test]
fn empty_table_finds_nothing() {
    let sym = Sym::new();

    assert!(sym.get_function_by_name("main").is_none());
    assert_eq!(sym.find_function("main"), None);
}

#[test]
fn added_functions_are_found() {
    let mut sym = Sym::new();
    let a = sym.add_function(Function::new("a".to_owned(), Type::Unit)).unwrap();
    let b = sym.add_function(Function::new("b".to_owned(), Type::Int)).unwrap();

    assert_ne!(a, b);
    assert!(sym.contains(a));
    assert!(sym.contains(b));
    assert_eq!(sym.get_function(a), &Function::new("a".to_owned(), Type::Unit));
    assert_eq!(sym.get_function(b), &Function::new("b".to_owned(), Type::Int));
    assert_eq!(sym.find_function("a"), Some(a));
    assert_eq!(sym.find_function("b"), Some(b));
    assert_eq!(sym.get_function_by_name("b").unwrap().return_ty, Type::Int);
    assert!(sym.get_function_by_name("c").is_none());
}

#[test]
fn duplicate_name_is_refused() {
    let mut sym = Sym::new();
    let a = sym.add_function(Function::new("a".to_owned(), Type::Unit)).unwrap();

    assert_eq!(
        sym.add_function(Function::new("a".to_owned(), Type::Int)),
        Err(DuplicateDefinition { name: "a".to_owned() })
    );
    assert_eq!(sym.get_function(a).return_ty, Type::Unit);
    assert_eq!(sym.find_function("a"), Some(a));
}

#[test]
fn handles_of_another_table_are_unknown() {
    let mut one = Sym::new();
    let other = Sym::new();
    let a = one.add_function(Function::new("a".to_owned(), Type::Unit)).unwrap();

    assert!(one.contains(a));
    assert!(!other.contains(a));
}

#[test]
fn table_attaches_once() {
    let mut sym = Sym::new();
    let a = sym.add_function(Function::new("a".to_owned(), Type::Unit)).unwrap();
    let b = sym.add_function(Function::new("b".to_owned(), Type::Unit)).unwrap();

    assert_eq!(sym.attach_codegen_data(a, CodegenFunctionDataRef { index: 0 }), Ok(()));
    assert_eq!(
        sym.attach_codegen_data(a, CodegenFunctionDataRef { index: 1 }),
        Err(AlreadyAttached { name: "a".to_owned() })
    );
    assert_eq!(sym.get_function(a).codegen_data_ref, Some(CodegenFunctionDataRef { index: 0 }));
    assert_eq!(sym.get_function(b).codegen_data_ref, None);
    assert_eq!(sym.get_function(a).name, "a");
}

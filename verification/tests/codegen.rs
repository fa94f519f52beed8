use yyn::compiler::codegen::types::CompoundReturnType;
use yyn::compiler::codegen::{
    generate, generate_explicit_return, same_type, BackendFunction, BackendModule,
    CodegenContext, CodegenError, CodegenFunctionDataRef, Instruction,
};
use yyn::compiler::lexer::tokenize;
use yyn::compiler::parser::ast::{CompoundExpr, Expr, FunctionDefinition, Root, Type};
use yyn::compiler::parser::parse;
use yyn::compiler::semantic_analysis::{analyse, AnalyzedAST};
use yyn::compiler::symbol_table::{Function, Sym};
use yyn::compiler::{compile, CompileError};

fn function(name: &str, return_ty: Type, body: Vec<Instruction>) -> BackendFunction {
    BackendFunction { name: name.to_owned(), return_ty, body }
}

fn codegen_error(src: &str) -> CodegenError {
    match compile(src) {
        Err(CompileError::Codegen(e)) => e,
        other => panic!("expected a code generation error, got {:?}", other),
    }
}

#[test]
fn empty_program() {
    assert_eq!(compile(""), Ok(BackendModule { functions: vec![] }));
}

#[test]
fn round_trip() {
    let src = "function helper() { exit 1 }\nfunction main() -> int { helper() return 0 }";
    let module = compile(src).unwrap();

    assert_eq!(
        module.functions,
        vec![
            function("helper", Type::Unit, vec![Instruction::Exit(1), Instruction::ReturnVoid]),
            function(
                "main",
                Type::Int,
                vec![
                    Instruction::Call(CodegenFunctionDataRef { index: 0 }),
                    Instruction::Return(0),
                ]
            ),
        ]
    );
}

#[test]
fn forward_reference() {
    let src = "function a() { b() }\nfunction b() { }";
    let module = compile(src).unwrap();

    assert_eq!(
        module.functions,
        vec![
            function(
                "a",
                Type::Unit,
                vec![
                    Instruction::Call(CodegenFunctionDataRef { index: 1 }),
                    Instruction::ReturnVoid,
                ]
            ),
            function("b", Type::Unit, vec![Instruction::ReturnVoid]),
        ]
    );
}

#[test]
fn recursion_and_backward_reference() {
    let src = "function a() { a() }\nfunction b() { a() b() }";
    let module = compile(src).unwrap();

    assert_eq!(
        module.functions[1].body,
        vec![
            Instruction::Call(CodegenFunctionDataRef { index: 0 }),
            Instruction::Call(CodegenFunctionDataRef { index: 1 }),
            Instruction::ReturnVoid,
        ]
    );
}

#[test]
fn undefined_call() {
    assert_eq!(
        codegen_error("function a() { c() }"),
        CodegenError::UndefinedFunction("c".to_owned())
    );
    assert_eq!(
        codegen_error("function a() { }\nfunction b() { a() { exit 1 missing() } }"),
        CodegenError::UndefinedFunction("missing".to_owned())
    );
}

#[test]
fn undefined_call_behind_a_return_is_not_generated() {
    let module = compile("function a() -> int { return 1\n c() }").unwrap();

    assert_eq!(module.functions[0].body, vec![Instruction::Return(1)]);
}

#[test]
fn int_function_without_return() {
    assert_eq!(
        codegen_error("function f() -> int { }"),
        CodegenError::ReturnTypeMismatch {
            function: "f".to_owned(),
            declared: Type::Int,
            actual: Type::Unit,
        }
    );
}

#[test]
fn int_function_that_only_exits() {
    assert_eq!(
        codegen_error("function f() -> int { exit 1 }"),
        CodegenError::ReturnTypeMismatch {
            function: "f".to_owned(),
            declared: Type::Int,
            actual: Type::Unit,
        }
    );
}

#[test]
fn unit_function_with_return() {
    assert_eq!(
        codegen_error("function f() { return 5 }"),
        CodegenError::ReturnTypeMismatch {
            function: "f".to_owned(),
            declared: Type::Unit,
            actual: Type::Int,
        }
    );
    assert_eq!(
        codegen_error("function f() -> () { { return 5 } }"),
        CodegenError::ReturnTypeMismatch {
            function: "f".to_owned(),
            declared: Type::Unit,
            actual: Type::Int,
        }
    );
}

#[test]
fn int_function_with_return() {
    let module = compile("function f() -> int { return 7 }").unwrap();

    assert_eq!(module.functions, vec![function("f", Type::Int, vec![Instruction::Return(7)])]);
}

#[test]
fn undefined_call_comes_before_the_return_type() {
    assert_eq!(
        codegen_error("function f() -> int { g() }"),
        CodegenError::UndefinedFunction("g".to_owned())
    );
}

#[test]
fn first_failing_function_is_reported() {
    assert_eq!(
        codegen_error("function f() -> int { }\nfunction g() { h() }"),
        CodegenError::ReturnTypeMismatch {
            function: "f".to_owned(),
            declared: Type::Int,
            actual: Type::Unit,
        }
    );
}

#[test]
fn nested_return_ends_the_outer_block() {
    let module = compile("function f() -> int { exit 3 { return 1 exit 9 } exit 2 }").unwrap();

    assert_eq!(module.functions[0].return_ty, Type::Int);
    assert_eq!(module.functions[0].body, vec![Instruction::Exit(3), Instruction::Return(1)]);
}

#[test]
fn nested_block_without_return_goes_on() {
    let module = compile("function f() { { exit 1 } exit 2 }").unwrap();

    assert_eq!(
        module.functions[0].body,
        vec![
            Instruction::Exit(1),
            Instruction::ReturnVoid,
            Instruction::Exit(2),
            Instruction::ReturnVoid,
        ]
    );
}

#[test]
fn exit_does_not_end_generation() {
    let module = compile("function f() -> int { exit 1 return 2 }").unwrap();

    assert_eq!(module.functions[0].body, vec![Instruction::Exit(1), Instruction::Return(2)]);
}

#[test]
fn duplicate_definition_produces_no_module() {
    assert_eq!(
        compile("function a() { }\nfunction a() { }"),
        Err(CompileError::Parse(yyn::compiler::parser::ParseError::DuplicateDefinition(
            "a".to_owned()
        )))
    );
}

#[test]
fn lex_error_comes_first() {
    assert_eq!(
        compile("function a() { }\nfunction a() { } $"),
        Err(CompileError::Lex(yyn::compiler::lexer::LexError::InvalidCharacter('$')))
    );
}

#[test]
fn handles_are_attached() {
    let mut sym = Sym::new();
    let root = parse(tokenize("function a() { }\nfunction b() { }").unwrap(), &mut sym).unwrap();
    let a = root.functions[0].sym;
    let b = root.functions[1].sym;
    let analyzed = analyse(root, &sym).unwrap();

    assert!(generate(analyzed, &mut sym).is_ok());
    assert_eq!(sym.get_function(a).codegen_data_ref, Some(CodegenFunctionDataRef { index: 0 }));
    assert_eq!(sym.get_function(b).codegen_data_ref, Some(CodegenFunctionDataRef { index: 1 }));
}

#[test]
fn second_generation_is_refused() {
    let mut sym = Sym::new();
    let root = parse(tokenize("function a() { }\nfunction b() { }").unwrap(), &mut sym).unwrap();
    let again = Root {
        functions: vec![
            FunctionDefinition {
                sym: root.functions[1].sym,
                compound: CompoundExpr { expressions: vec![] },
            },
            FunctionDefinition {
                sym: root.functions[0].sym,
                compound: CompoundExpr { expressions: vec![] },
            },
        ],
    };

    assert!(generate(AnalyzedAST { ast: root }, &mut sym).is_ok());
    assert_eq!(
        generate(AnalyzedAST { ast: again }, &mut sym),
        Err(CodegenError::AlreadyAttached("b".to_owned()))
    );
}

#[test]
fn one_handle_twice_in_a_tree() {
    let mut sym = Sym::new();
    let a = sym.add_function(Function::new("a".to_owned(), Type::Unit)).unwrap();
    let root = Root {
        functions: vec![
            FunctionDefinition { sym: a, compound: CompoundExpr { expressions: vec![] } },
            FunctionDefinition { sym: a, compound: CompoundExpr { expressions: vec![] } },
        ],
    };

    assert_eq!(
        generate(AnalyzedAST { ast: root }, &mut sym),
        Err(CodegenError::AlreadyAttached("a".to_owned()))
    );
    assert_eq!(sym.get_function(a).codegen_data_ref, Some(CodegenFunctionDataRef { index: 0 }));
}

#[test]
fn function_of_the_table_that_the_tree_lacks() {
    let mut sym = Sym::new();
    sym.add_function(Function::new("elsewhere".to_owned(), Type::Unit)).unwrap();
    let a = sym.add_function(Function::new("a".to_owned(), Type::Unit)).unwrap();
    let root = Root {
        functions: vec![FunctionDefinition {
            sym: a,
            compound: CompoundExpr { expressions: vec![Expr::FnCall("elsewhere".to_owned())] },
        }],
    };

    assert_eq!(
        generate(AnalyzedAST { ast: root }, &mut sym),
        Err(CodegenError::UndefinedFunction("elsewhere".to_owned()))
    );
}

#[test]
fn context_declares_and_defines() {
    let mut sym = Sym::new();
    let a = sym.add_function(Function::new("a".to_owned(), Type::Int)).unwrap();
    let mut ctx = CodegenContext::new();

    assert_eq!(ctx.get_function("a"), None);
    assert_eq!(ctx.generate_function_value(&mut sym, a), Ok(CodegenFunctionDataRef { index: 0 }));
    assert_eq!(ctx.get_function("a"), Some(CodegenFunctionDataRef { index: 0 }));
    assert_eq!(ctx.declared_return_type(CodegenFunctionDataRef { index: 0 }), Type::Int);
    assert_eq!(
        ctx.generate_function_value(&mut sym, a),
        Err(CodegenError::AlreadyAttached("a".to_owned()))
    );
    ctx.define_function(CodegenFunctionDataRef { index: 0 }, vec![Instruction::Return(4)]);
    assert_eq!(
        ctx.into_module().functions,
        vec![function("a", Type::Int, vec![Instruction::Return(4)])]
    );
}

#[test]
fn statements_and_blocks() {
    let mut sym = Sym::new();
    let a = sym.add_function(Function::new("a".to_owned(), Type::Unit)).unwrap();
    let mut ctx = CodegenContext::new();
    ctx.generate_function_value(&mut sym, a).unwrap();

    assert_eq!(Expr::Exit(3).codegen(&ctx), Ok(Instruction::Exit(3)));
    assert_eq!(
        Expr::FnCall("a".to_owned()).codegen(&ctx),
        Ok(Instruction::Call(CodegenFunctionDataRef { index: 0 }))
    );
    assert_eq!(
        Expr::FnCall("b".to_owned()).codegen(&ctx),
        Err(CodegenError::UndefinedFunction("b".to_owned()))
    );
    assert_eq!(generate_explicit_return(9), (Instruction::Return(9), Type::Int));

    let block = CompoundExpr { expressions: vec![Expr::Exit(1), Expr::Return(2), Expr::Exit(3)] };
    assert_eq!(
        block.codegen(&ctx),
        Ok((
            vec![Instruction::Exit(1), Instruction::Return(2)],
            CompoundReturnType::Explicit(Type::Int)
        ))
    );
    let block = CompoundExpr { expressions: vec![] };
    assert_eq!(
        block.codegen(&ctx),
        Ok((vec![Instruction::ReturnVoid], CompoundReturnType::ImplicitUnit))
    );
}

#[test]
fn return_type_of_a_block() {
    assert_eq!(CompoundReturnType::ImplicitUnit.into_type(), Type::Unit);
    assert_eq!(CompoundReturnType::Explicit(Type::Int).into_type(), Type::Int);
    assert_eq!(CompoundReturnType::Explicit(Type::Unit).into_type(), Type::Unit);
    assert!(same_type(Type::Int, Type::Int));
    assert!(!same_type(Type::Int, Type::Unit));
}

#[test]
fn handles_of_another_table_are_not_valid() {
    let mut sym = Sym::new();
    let other = Sym::new();
    let root = parse(tokenize("function a() { }").unwrap(), &mut sym).unwrap();

    assert!(root.has_valid_handles(&sym));
    assert!(!root.has_valid_handles(&other));
    assert!(Root { functions: vec![] }.has_valid_handles(&other));
}

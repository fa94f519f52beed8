use yyn::compiler::lexer::token::{Keyword, Token};
use yyn::compiler::lexer::tokenize;
use yyn::compiler::parser::ast::{CompoundExpr, Expr, Type};
use yyn::compiler::parser::{parse, ParseError, SyntaxError};
use yyn::compiler::symbol_table::{Function, Sym};

fn syntax_error(src: &str) -> SyntaxError {
    let mut sym = Sym::new();
    match parse(tokenize(src).unwrap(), &mut sym) {
        Err(ParseError::Syntax(e)) => e,
        other => panic!("expected a syntax error, got {:?}", other),
    }
}

#[test]
fn no_tokens_no_functions() {
    let mut sym = Sym::new();
    let root = parse(Vec::new(), &mut sym).unwrap();

    assert!(root.functions.is_empty());
}

#[test]
fn only_line_breaks() {
    let mut sym = Sym::new();
    let root = parse(tokenize("\n;\n\n").unwrap(), &mut sym).unwrap();

    assert!(root.functions.is_empty());
}

#[test]
fn one_function() {
    let mut sym = Sym::new();
    let root = parse(tokenize("function foo() { exit 42 }").unwrap(), &mut sym).unwrap();

    assert_eq!(root.functions.len(), 1);
    assert_eq!(root.functions[0].compound, CompoundExpr { expressions: vec![Expr::Exit(42)] });
    assert_eq!(
        sym.get_function(root.functions[0].sym),
        &Function::new("foo".to_owned(), Type::Unit)
    );
    assert_eq!(sym.find_function("foo"), Some(root.functions[0].sym));
}

#[test]
fn return_types() {
    let mut sym = Sym::new();
    let src = "function a() -> int { return 1 }\nfunction b() -> () { }\nfunction c() { }";
    let root = parse(tokenize(src).unwrap(), &mut sym).unwrap();

    assert_eq!(root.functions.len(), 3);
    assert_eq!(sym.get_function(root.functions[0].sym).return_ty, Type::Int);
    assert_eq!(sym.get_function(root.functions[1].sym).return_ty, Type::Unit);
    assert_eq!(sym.get_function(root.functions[2].sym).return_ty, Type::Unit);
    assert_eq!(sym.get_function(root.functions[0].sym).name, "a");
    assert_eq!(sym.get_function(root.functions[1].sym).name, "b");
    assert_eq!(sym.get_function(root.functions[2].sym).name, "c");
    assert_eq!(root.functions[0].compound.expressions, vec![Expr::Return(1)]);
    assert!(root.functions[1].compound.expressions.is_empty());
}

#[test]
fn statements_of_every_kind() {
    let mut sym = Sym::new();
    let src = "function f() {\n exit 1; g()\n { return 2 } { } {{ h() }}\n return 3 }";
    let root = parse(tokenize(src).unwrap(), &mut sym).unwrap();

    assert_eq!(
        root.functions[0].compound.expressions,
        vec![
            Expr::Exit(1),
            Expr::FnCall("g".to_owned()),
            Expr::Compound(Box::new(CompoundExpr { expressions: vec![Expr::Return(2)] })),
            Expr::Compound(Box::new(CompoundExpr { expressions: vec![] })),
            Expr::Compound(Box::new(CompoundExpr {
                expressions: vec![Expr::Compound(Box::new(CompoundExpr {
                    expressions: vec![Expr::FnCall("h".to_owned())],
                }))],
            })),
            Expr::Return(3),
        ]
    );
}

#[test]
fn line_breaks_between_functions() {
    let mut sym = Sym::new();
    let src = "\n\nfunction a() { }\n\n\nfunction b() { };\n";
    let root = parse(tokenize(src).unwrap(), &mut sym).unwrap();

    assert_eq!(root.functions.len(), 2);
}

#[test]
fn missing_keyword() {
    assert_eq!(
        syntax_error("foo() { }"),
        SyntaxError::Expected {
            expected: Token::Keyword(Keyword::Fun),
            found: Some(Token::Identifier("foo".to_owned())),
        }
    );
}

#[test]
fn missing_function_name() {
    assert_eq!(
        syntax_error("function () { }"),
        SyntaxError::ExpectedFunctionName { found: Some(Token::LeftParentheses) }
    );
    assert_eq!(syntax_error("function"), SyntaxError::ExpectedFunctionName { found: None });
}

#[test]
fn missing_parameter_list() {
    assert_eq!(
        syntax_error("function f { }"),
        SyntaxError::Expected { expected: Token::LeftParentheses, found: Some(Token::LeftBrace) }
    );
    assert_eq!(
        syntax_error("function f("),
        SyntaxError::Expected { expected: Token::RightParentheses, found: None }
    );
}

#[test]
fn missing_return_type() {
    assert_eq!(
        syntax_error("function f() int { }"),
        SyntaxError::ExpectedReturnType { found: Some(Token::Keyword(Keyword::Int)) }
    );
    assert_eq!(syntax_error("function f()"), SyntaxError::ExpectedReturnType { found: None });
}

#[test]
fn missing_type() {
    assert_eq!(
        syntax_error("function f() -> { }"),
        SyntaxError::ExpectedType { found: Some(Token::LeftBrace) }
    );
    assert_eq!(syntax_error("function f() ->"), SyntaxError::ExpectedType { found: None });
    assert_eq!(
        syntax_error("function f() -> ( { }"),
        SyntaxError::Expected { expected: Token::RightParentheses, found: Some(Token::LeftBrace) }
    );
}

#[test]
fn missing_body() {
    assert_eq!(
        syntax_error("function f() -> int"),
        SyntaxError::Expected { expected: Token::LeftBrace, found: None }
    );
}

#[test]
fn exit_without_code() {
    assert_eq!(
        syntax_error("function f() { exit }"),
        SyntaxError::ExpectedExitCode { found: Some(Token::RightBrace) }
    );
    assert_eq!(syntax_error("function f() { exit"), SyntaxError::ExpectedExitCode { found: None });
}

#[test]
fn return_without_value() {
    assert_eq!(
        syntax_error("function f() { return g }"),
        SyntaxError::ExpectedReturnValue { found: Some(Token::Identifier("g".to_owned())) }
    );
}

#[test]
fn call_without_parentheses() {
    assert_eq!(
        syntax_error("function f() { g }"),
        SyntaxError::Expected { expected: Token::LeftParentheses, found: Some(Token::RightBrace) }
    );
}

#[test]
fn invalid_statement() {
    assert_eq!(
        syntax_error("function f() { 12 }"),
        SyntaxError::InvalidStatement { token: Token::Number(12) }
    );
    assert_eq!(
        syntax_error("function f() { function g() { } }"),
        SyntaxError::InvalidStatement { token: Token::Keyword(Keyword::Fun) }
    );
}

#[test]
fn unterminated_compound() {
    assert_eq!(syntax_error("function f() { exit 1"), SyntaxError::UnterminatedCompound);
    assert_eq!(syntax_error("function f() { { }"), SyntaxError::UnterminatedCompound);
}

#[test]
fn duplicate_definition() {
    let mut sym = Sym::new();
    let src = "function a() { }\nfunction b() { }\nfunction a() -> int { return 1 }";

    assert_eq!(
        parse(tokenize(src).unwrap(), &mut sym),
        Err(ParseError::DuplicateDefinition("a".to_owned()))
    );
    assert_eq!(sym.get_function_by_name("a").unwrap().return_ty, Type::Unit);
    assert!(sym.get_function_by_name("b").is_some());
}

#[test]
fn duplicate_is_reported_before_the_body_is_read() {
    let mut sym = Sym::new();
    let src = "function a() { }\nfunction a() { ) }";

    assert_eq!(
        parse(tokenize(src).unwrap(), &mut sym),
        Err(ParseError::DuplicateDefinition("a".to_owned()))
    );
}

#[test]
fn syntax_error_before_the_duplicate() {
    let mut sym = Sym::new();
    let src = "function a() { ) }\nfunction a() { }";

    assert_eq!(
        parse(tokenize(src).unwrap(), &mut sym),
        Err(ParseError::Syntax(SyntaxError::InvalidStatement { token: Token::RightParentheses }))
    );
}

#[test]
fn name_taken_in_the_table() {
    let mut sym = Sym::new();
    sym.add_function(Function::new("main".to_owned(), Type::Int)).unwrap();

    assert_eq!(
        parse(tokenize("function main() { }").unwrap(), &mut sym),
        Err(ParseError::DuplicateDefinition("main".to_owned()))
    );
}

#[test]
fn function_is_registered_while_its_body_fails() {
    let mut sym = Sym::new();
    let src = "function a() { exit }";

    assert!(parse(tokenize(src).unwrap(), &mut sym).is_err());
    assert!(sym.get_function_by_name("a").is_some());
}

use yyn::compiler::cg::nasm::{push_decimal, NasmCodegen, NasmError};
use yyn::compiler::lexer::tokenize;
use yyn::compiler::parser::ast::Root;
use yyn::compiler::parser::parse;
use yyn::compiler::symbol_table::Sym;

fn assembly(src: &str) -> Result<String, NasmError> {
    let mut sym = Sym::new();
    let root = parse(tokenize(src).unwrap(), &mut sym).unwrap();
    NasmCodegen::new(root, &sym).generate()
}

const HEADER: &str = "section .text\nglobal _main\nextern  _ExitProcess@4\n";

#[test]
fn empty_program_is_the_header() {
    assert_eq!(assembly(""), Ok(HEADER.to_owned()));
}

#[test]
fn main_has_its_own_label() {
    assert_eq!(assembly("function main() { }"), Ok(format!("{HEADER}_main:\n\tret\t\n")));
    assert_eq!(assembly("function mainly() { }"), Ok(format!("{HEADER}mainly:\n\tret\t\n")));
}

#[test]
fn exit_and_calls() {
    let src = "function main() { exit 3 helper() }\nfunction helper() { exit 4294967295 }";

    assert_eq!(
        assembly(src),
        Ok(format!(
            "{HEADER}_main:\n\tpush\t3\n\tcall\t_ExitProcess@4\n\tcall\thelper\n\tret\t\n\
             helper:\n\tpush\t4294967295\n\tcall\t_ExitProcess@4\n\tret\t\n"
        ))
    );
}

#[test]
fn call_of_a_missing_function() {
    assert_eq!(
        assembly("function main() { helper() }"),
        Err(NasmError::UndefinedFunction("helper".to_owned()))
    );
}

#[test]
fn other_statements_are_not_supported() {
    assert_eq!(assembly("function main() { { } }"), Err(NasmError::Unsupported));
    assert_eq!(assembly("function main() -> int { return 1 }"), Err(NasmError::Unsupported));
    assert_eq!(
        assembly("function main() { exit 1 { } missing() }"),
        Err(NasmError::Unsupported)
    );
}

#[test]
fn arguments_are_separated_by_commas() {
    let sym = Sym::new();
    let mut generator = NasmCodegen::new(Root { functions: vec![] }, &sym);
    generator.inst("mov", &vec!["eax".to_owned(), "1".to_owned()]);
    generator.inst("lea", &vec!["a".to_owned(), "b".to_owned(), "c".to_owned()]);
    generator.inst("nop", &vec![]);

    assert_eq!(
        generator.generate(),
        Ok(format!("\tmov\teax, 1\n\tlea\ta, b, c\n\tnop\t\n{HEADER}"))
    );
}

#[test]
fn decimal_numerals() {
    let mut text = String::new();
    push_decimal(&mut text, 0);
    text.push(' ');
    push_decimal(&mut text, 7);
    text.push(' ');
    push_decimal(&mut text, 10);
    text.push(' ');
    push_decimal(&mut text, 1203);
    text.push(' ');
    push_decimal(&mut text, u32::MAX);

    assert_eq!(text, "0 7 10 1203 4294967295");
}

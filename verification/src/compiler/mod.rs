//! The compilation pipeline, stage by stage: source text to tokens, tokens
//! to a syntax tree and a symbol table, and those to a backend module.

use vstd::prelude::*;

use crate::compiler::codegen::llvm::{exit_name, lemma_word_is_free, lowerable};
use crate::compiler::codegen::proofs::{
    bodies_conform, lemma_generated_module_valid, lemma_generated_names_distinct,
    lemma_generation_succeeds, lemma_no_failed_declaration,
};
use crate::compiler::codegen::{
    bodies, generate, generate_spec, module_valid, signatures, BackendFunctionView, BackendModule,
    CodegenError, CodegenErrorView,
};
use crate::compiler::lexer::token::TokenView;
use crate::compiler::lexer::{lemma_lexed_words, lex, tokenize, LexError};
use crate::compiler::parser::ast::ExprView;
use crate::compiler::parser::proofs::{
    function_names, lemma_distinct_names_have_no_duplicate, lemma_duplicates_decide,
    lemma_parsed_names_are_words, lemma_same_name_twice_fails, parse_functions_spec,
};
use crate::compiler::parser::{
    parse, parse_root_spec, registered, FunctionSyntax, ParseError, ParseErrorView,
};
use crate::compiler::semantic_analysis::{analyse, SemanticError};
use crate::compiler::symbol_table::{table_names, FunctionView, Sym};

pub mod ast_analyzer;
pub mod cg;
pub mod codegen;
pub mod lexer;
pub mod parser;
pub mod semantic_analysis;
pub mod symbol_table;

verus! {

/// Why a source text could not be compiled: the stage that failed, with its
/// error.
#[derive(Debug, PartialEq, Eq)]
pub enum CompileError {
    Lex(LexError),
    Parse(ParseError),
    Semantic(SemanticError),
    Codegen(CodegenError),
}

/// The mathematical value of a [`CompileError`].
pub ghost enum CompileErrorView {
    Lex(LexError),
    Parse(ParseErrorView),
    Semantic,
    Codegen(CodegenErrorView),
}

impl View for CompileError {
    type V = CompileErrorView;

    open spec fn view(&self) -> CompileErrorView {
        match *self {
            CompileError::Lex(e) => CompileErrorView::Lex(e),
            CompileError::Parse(e) => CompileErrorView::Parse(e@),
            CompileError::Semantic(_) => CompileErrorView::Semantic,
            CompileError::Codegen(e) => CompileErrorView::Codegen(e@),
        }
    }
}

/// The signatures that the parser registers for the definitions `fs` in a new
/// table: name and return type, with nothing attached.
pub open spec fn syntax_signatures(fs: Seq<FunctionSyntax>) -> Seq<FunctionView> {
    Seq::new(
        fs.len(),
        |i: int|
            FunctionView {
                name: fs[i].name,
                return_ty: fs[i].return_ty,
                codegen_data_ref: None,
            },
    )
}

/// The bodies of the definitions `fs`.
pub open spec fn syntax_bodies(fs: Seq<FunctionSyntax>) -> Seq<Seq<ExprView>> {
    Seq::new(fs.len(), |i: int| fs[i].body)
}

/// The module that the tokens `ts` compile to, or the first error.
pub open spec fn compile_tokens_spec(ts: Seq<TokenView>) -> Result<
    Seq<BackendFunctionView>,
    CompileErrorView,
> {
    match parse_root_spec(ts, Set::empty()) {
        Err(e) => Err(CompileErrorView::Parse(e)),
        Ok(fs) => match generate_spec(syntax_signatures(fs), syntax_bodies(fs)) {
            Err(e) => Err(CompileErrorView::Codegen(e)),
            Ok(module) => Ok(module),
        },
    }
}

/// The module that the source text `src` compiles to, or the first error: of
/// the scan, else of the parse, else of the generation.
pub open spec fn compile_spec(src: Seq<char>) -> Result<Seq<BackendFunctionView>, CompileErrorView> {
    match lex(src) {
        Err(e) => Err(CompileErrorView::Lex(e)),
        Ok(ts) => compile_tokens_spec(ts),
    }
}

/// Compiles a source text to a backend module.
///
/// The stages run one after the other, each to its end, on a symbol table of
/// their own. The first error of any stage ends the compilation, and no
/// module is produced then.
pub fn compile(src_code: &str) -> (r: Result<BackendModule, CompileError>)
    ensures
        match r {
            Ok(module) => compile_spec(src_code@) == Ok::<
                Seq<BackendFunctionView>,
                CompileErrorView,
            >(module@) && module_valid(module@) && lowerable(module@),
            Err(e) => compile_spec(src_code@) == Err::<Seq<BackendFunctionView>, CompileErrorView>(
                e@,
            ),
        },
{
    let tokens = match tokenize(src_code) {
        Err(e) => {
            return Err(CompileError::Lex(e));
        },
        Ok(tokens) => tokens,
    };
    let mut sym = Sym::new();
    let ghost empty = sym@;
    assert(table_names(empty) =~= Set::<Seq<char>>::empty());
    let ast_root = match parse(tokens, &mut sym) {
        Err(e) => {
            return Err(CompileError::Parse(e));
        },
        Ok(ast_root) => ast_root,
    };
    proof {
        let fs = parse_root_spec(lex(src_code@)->Ok_0, Set::empty())->Ok_0;
        assert(registered(empty, sym@, ast_root@, fs));
        assert(signatures(ast_root@, sym@) =~= syntax_signatures(fs));
        assert(bodies(ast_root@) =~= syntax_bodies(fs));
    }
    let analyzed_ast_root = match analyse(ast_root, &sym) {
        Err(e) => {
            return Err(CompileError::Semantic(e));
        },
        Ok(analyzed) => analyzed,
    };
    match generate(analyzed_ast_root, &mut sym) {
        Err(e) => Err(CompileError::Codegen(e)),
        Ok(module) => {
            proof {
                lemma_compiled_module_lowerable(src_code@);
            }
            Ok(module)
        },
    }
}

/// A compiled module can be lowered: every call in it names one of its
/// functions, and the names of its functions are pairwise different
/// identifiers, which hold no null character and differ from the name of the
/// exit primitive.
pub proof fn lemma_compiled_module_lowerable(src: Seq<char>)
    ensures
        compile_spec(src) matches Ok(module) ==> lowerable(module),
{
    if compile_spec(src) is Ok {
        let ts = lex(src)->Ok_0;
        let fs = parse_root_spec(ts, Set::empty())->Ok_0;
        let sigs = syntax_signatures(fs);
        let stmts = syntax_bodies(fs);
        let module = compile_spec(src)->Ok_0;
        lemma_lexed_words(src);
        lemma_parsed_names_are_words(ts, Set::empty());
        lemma_generated_module_valid(sigs, stmts);
        lemma_generated_names_distinct(sigs, stmts);
        assert forall|i: int| 0 <= i < module.len() implies !(#[trigger] module[i]).name.contains(
            '\0',
        ) && module[i].name != exit_name() by {
            assert(module[i].name == fs[i].name);
            lemma_word_is_free(fs[i].name);
        }
        assert forall|i: int, j: int| 0 <= i < j < module.len() implies (#[trigger] module[i]).name
            != (#[trigger] module[j]).name by {
            assert(module[i].name == sigs[i].name);
            assert(module[j].name == sigs[j].name);
        }
    }
}

/// A program that defines two functions of one name does not compile. If the
/// source text can be scanned and its tokens follow the grammar, and two of
/// the definitions that the grammar reads have the same name, then the
/// compilation fails with `DuplicateDefinition`, so that no module is
/// produced.
pub proof fn lemma_duplicate_definition_fails(src: Seq<char>, i: int, j: int)
    requires
        lex(src) is Ok,
        parse_functions_spec(lex(src)->Ok_0) is Ok,
        0 <= i < j < parse_functions_spec(lex(src)->Ok_0)->Ok_0.len(),
        parse_functions_spec(lex(src)->Ok_0)->Ok_0[i].name == parse_functions_spec(
            lex(src)->Ok_0,
        )->Ok_0[j].name,
    ensures
        compile_spec(src) matches Err(
            CompileErrorView::Parse(ParseErrorView::DuplicateDefinition(_)),
        ),
{
    lemma_same_name_twice_fails(lex(src)->Ok_0, Set::empty(), i, j);
}

/// A program compiles if its text can be scanned, its tokens follow the
/// grammar, its functions have different names, every call names one of its
/// functions, and every body returns what its header declares. Where the
/// callee of a call is defined does not matter: it may stand behind the
/// caller as well as before it.
pub proof fn lemma_compilation_succeeds(src: Seq<char>)
    requires
        lex(src) is Ok,
        parse_functions_spec(lex(src)->Ok_0) is Ok,
        ({
            let fs = parse_functions_spec(lex(src)->Ok_0)->Ok_0;
            &&& forall|i: int, j: int| 0 <= i < j < fs.len() ==> fs[i].name != fs[j].name
            &&& bodies_conform(syntax_signatures(fs), syntax_bodies(fs))
        }),
    ensures
        compile_spec(src) is Ok,
{
    let ts = lex(src)->Ok_0;
    let fs = parse_functions_spec(ts)->Ok_0;
    let names = function_names(fs);
    assert forall|i: int, j: int| 0 <= i < j < names.len() implies names[i] != names[j] by {
        assert(fs[i].name != fs[j].name);
    }
    lemma_distinct_names_have_no_duplicate(names, Set::empty());
    lemma_duplicates_decide(ts, Set::empty());
    let sigs = syntax_signatures(fs);
    assert forall|i: int, j: int| 0 <= i < j < sigs.len() implies sigs[i].name != sigs[j].name by {
        assert(fs[i].name != fs[j].name);
    }
    lemma_no_failed_declaration(sigs, 0);
    lemma_generation_succeeds(sigs, syntax_bodies(fs));
}

} // verus!

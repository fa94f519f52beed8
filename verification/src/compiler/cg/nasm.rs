//! A generator of NASM assembly text.
//!
//! Every function becomes a label with its instructions below it, and ends
//! with `ret`. An `exit` pushes its status and calls the primitive that ends
//! the process; a call of a function calls its label. Other statements are
//! not supported by this generator.

use itertools::Itertools;
use vstd::prelude::*;
use vstd::string::*;

use crate::compiler::codegen::{bodies, handles_valid, signature_names, signatures};
use crate::compiler::lexer::token::str_eq;
use crate::compiler::parser::ast::{
    expr_view, lemma_exprs_view, Expr, ExprView, FunctionDefinitionView, Root,
};
use crate::compiler::symbol_table::Sym;

verus! {

/// Why no assembly could be generated.
#[derive(Debug, PartialEq, Eq)]
pub enum NasmError {
    /// A call names a function that the program does not define.
    UndefinedFunction(String),
    /// A statement other than an `exit` or a call.
    Unsupported,
}

/// The mathematical value of a [`NasmError`].
pub ghost enum NasmErrorView {
    UndefinedFunction(Seq<char>),
    Unsupported,
}

impl View for NasmError {
    type V = NasmErrorView;

    open spec fn view(&self) -> NasmErrorView {
        match *self {
            NasmError::UndefinedFunction(name) => NasmErrorView::UndefinedFunction(name@),
            NasmError::Unsupported => NasmErrorView::Unsupported,
        }
    }
}

/// A text, or the error that ended its generation.
pub type Text = Result<Seq<char>, NasmErrorView>;

/// The parts in order, with the separator between each two neighbours.
pub open spec fn joined(parts: Seq<Seq<char>>, separator: Seq<char>) -> Seq<char>
    decreases parts.len(),
{
    if parts.len() == 0 {
        Seq::empty()
    } else if parts.len() == 1 {
        parts[0]
    } else {
        joined(parts.drop_last(), separator) + separator + parts.last()
    }
}

/// The characters of each of the strings.
pub open spec fn strings_view(strings: Seq<String>) -> Seq<Seq<char>> {
    Seq::new(strings.len(), |i: int| strings[i]@)
}

/// `Itertools::intersperse` of `itertools` puts a copy of the separator
/// between each two neighbours of a sequence and leaves the sequence as it is
/// otherwise. Here the sequence is of string slices, and the result is
/// collected into one string.
#[verifier::external_body]
fn intersperse(parts: &Vec<String>, separator: &str) -> (r: String)
    ensures
        r@ == joined(strings_view(parts@), separator@),
{
    Itertools::intersperse(parts.iter().map(|part| part.as_str()), separator).collect()
}

/// The character of the decimal digit `d`.
pub open spec fn digit_char(d: nat) -> char {
    ((48 + d) as u8) as char
}

/// The decimal numeral of `n`, without leading zeros.
pub open spec fn decimal(n: nat) -> Seq<char>
    decreases n,
{
    if n < 10 {
        seq![digit_char(n)]
    } else {
        decimal(n / 10).push(digit_char(n % 10))
    }
}

/// One line of assembly: the instruction and its arguments, which are
/// separated by commas.
pub open spec fn inst_text(instruction: Seq<char>, args: Seq<Seq<char>>) -> Seq<char> {
    seq!['\t'] + instruction + seq!['\t'] + joined(args, ", "@) + seq!['\n']
}

/// The line that defines a label.
pub open spec fn label_text(label: Seq<char>) -> Seq<char> {
    label + seq![':', '\n']
}

/// The label of the function `name`: the entry point `main` has one of its
/// own.
pub open spec fn label_of(name: Seq<char>) -> Seq<char> {
    if name == "main"@ {
        "_main"@
    } else {
        name
    }
}

/// The lines of an `exit` with the status `code`.
pub open spec fn exit_text(code: u32) -> Seq<char> {
    inst_text("push"@, seq![decimal(code as nat)]) + inst_text("call"@, seq!["_ExitProcess@4"@])
}

/// The line of a call of the function `name`.
pub open spec fn call_text(name: Seq<char>) -> Seq<char> {
    inst_text("call"@, seq![name])
}

/// The text `first`, followed by the outcome of generating what comes after
/// it.
pub open spec fn prepend_text(first: Seq<char>, rest: Text) -> Text {
    match rest {
        Ok(more) => Ok(first + more),
        Err(e) => Err(e),
    }
}

/// The lines of the statements from the `i`-th on, where `names` are the
/// functions of the program.
pub open spec fn statements_text(stmts: Seq<ExprView>, names: Seq<Seq<char>>, i: int) -> Text
    decreases stmts.len() - i,
{
    if i < 0 || i >= stmts.len() {
        Ok(Seq::empty())
    } else {
        match stmts[i] {
            ExprView::Exit(code) => prepend_text(exit_text(code), statements_text(stmts, names, i + 1)),
            ExprView::FnCall(name) => if names.contains(name) {
                prepend_text(call_text(name), statements_text(stmts, names, i + 1))
            } else {
                Err(NasmErrorView::UndefinedFunction(name))
            },
            _ => Err(NasmErrorView::Unsupported),
        }
    }
}

/// Whether the statement cannot be generated: it is a call of a function that
/// the program lacks, or neither an `exit` nor a call.
pub open spec fn fails_generation(e: ExprView, names: Seq<Seq<char>>) -> bool {
    match e {
        ExprView::Exit(_) => false,
        ExprView::FnCall(name) => !names.contains(name),
        _ => true,
    }
}

/// The lines that are generated for the statements from the `i`-th on: those
/// of the statements before the first that cannot be generated, or of all of
/// them if there is no such statement.
pub open spec fn generated_lines(stmts: Seq<ExprView>, names: Seq<Seq<char>>, i: int) -> Seq<char>
    decreases stmts.len() - i,
{
    if i < 0 || i >= stmts.len() || fails_generation(stmts[i], names) {
        Seq::empty()
    } else {
        match stmts[i] {
            ExprView::Exit(code) => exit_text(code) + generated_lines(stmts, names, i + 1),
            ExprView::FnCall(name) => call_text(name) + generated_lines(stmts, names, i + 1),
            _ => Seq::empty(),
        }
    }
}

/// The statements from the `i`-th on are generated without error exactly if
/// none of them fails, and their lines are then the generated lines.
pub proof fn lemma_statements_text(stmts: Seq<ExprView>, names: Seq<Seq<char>>, i: int)
    requires
        0 <= i,
    ensures
        statements_text(stmts, names, i) is Err <==> exists|k: int|
            i <= k < stmts.len() && fails_generation(#[trigger] stmts[k], names),
        statements_text(stmts, names, i) matches Ok(lines) ==> lines == generated_lines(
            stmts,
            names,
            i,
        ),
    decreases stmts.len() - i,
{
    if i < stmts.len() {
        lemma_statements_text(stmts, names, i + 1);
        if !fails_generation(stmts[i], names) {
            if exists|k: int| i <= k < stmts.len() && fails_generation(#[trigger] stmts[k], names) {
                let k = choose|k: int|
                    i <= k < stmts.len() && fails_generation(#[trigger] stmts[k], names);
                assert(i + 1 <= k);
            }
        }
    }
}

/// A function is generated without error exactly if none of its statements
/// fails: each is an `exit` or a call of a function of the program.
pub proof fn lemma_function_text_fails(name: Seq<char>, stmts: Seq<ExprView>, names: Seq<Seq<char>>)
    ensures
        function_text(name, stmts, names) is Err <==> exists|k: int|
            0 <= k < stmts.len() && fails_generation(#[trigger] stmts[k], names),
{
    lemma_statements_text(stmts, names, 0);
}

/// The text of the function `name` with the statements `stmts`.
pub open spec fn function_text(name: Seq<char>, stmts: Seq<ExprView>, names: Seq<Seq<char>>) -> Text {
    match statements_text(stmts, names, 0) {
        Ok(lines) => Ok(label_text(label_of(name)) + lines + inst_text("ret"@, Seq::empty())),
        Err(e) => Err(e),
    }
}

/// The text of the functions from the `i`-th on.
pub open spec fn functions_text(names: Seq<Seq<char>>, stmts: Seq<Seq<ExprView>>, i: int) -> Text
    decreases names.len() - i,
{
    if i < 0 || i >= names.len() {
        Ok(Seq::empty())
    } else {
        match function_text(names[i], stmts[i], names) {
            Ok(text) => prepend_text(text, functions_text(names, stmts, i + 1)),
            Err(e) => Err(e),
        }
    }
}

/// The lines that every program starts with.
pub open spec fn header_text() -> Seq<char> {
    "section .text\n"@ + "global _main\n"@ + "extern  _ExitProcess@4\n"@
}

/// The assembly text of the program whose functions have the names `names`
/// and the statements `stmts`, or the first error.
pub open spec fn program_text(names: Seq<Seq<char>>, stmts: Seq<Seq<ExprView>>) -> Text {
    prepend_text(header_text(), functions_text(names, stmts, 0))
}

/// Putting two texts in front of an outcome is putting them in front of it
/// together.
pub proof fn lemma_prepend_text(a: Seq<char>, b: Seq<char>, rest: Text)
    ensures
        prepend_text(a, prepend_text(b, rest)) == prepend_text(a + b, rest),
{
    match rest {
        Ok(more) => {
            assert(a + (b + more) =~= (a + b) + more);
        },
        Err(_) => {},
    }
}

/// The decimal digit `d` as a character.
fn digit(d: u32) -> (c: char)
    requires
        d < 10,
    ensures
        c == digit_char(d as nat),
{
    ((48 + d) as u8) as char
}

/// Appends the decimal numeral of `n` to `text`.
pub fn push_decimal(text: &mut String, n: u32)
    ensures
        final(text)@ == old(text)@ + decimal(n as nat),
    decreases n,
{
    if n >= 10 {
        push_decimal(text, n / 10);
    }
    let ghost before = text@;
    text.push(digit(n % 10));
    proof {
        if n >= 10 {
            assert(text@ =~= old(text)@ + decimal((n / 10) as nat).push(digit_char((n % 10) as nat)));
        } else {
            assert(text@ =~= old(text)@ + seq![digit_char(n as nat)]);
        }
    }
}

/// A generator of assembly text for one program.
pub struct NasmCodegen {
    ast_root: Root,
    function_names: Vec<String>,
    asm_code: String,
}

impl NasmCodegen {
    /// The text that has been generated.
    pub closed spec fn text(&self) -> Seq<char> {
        self.asm_code@
    }

    /// The names of the functions of the program, in order.
    pub closed spec fn names(&self) -> Seq<Seq<char>> {
        strings_view(self.function_names@)
    }

    /// The definitions of the program.
    pub closed spec fn definitions(&self) -> Seq<FunctionDefinitionView> {
        self.ast_root@
    }

    /// Whether this generator holds the same program as `other`.
    pub closed spec fn same_program(&self, other: &NasmCodegen) -> bool {
        self.ast_root == other.ast_root && self.function_names == other.function_names
    }

    /// A generator for the program `ast_root`, whose functions have the names
    /// that `sym` holds for them: one name for each definition. No text has
    /// been generated yet.
    pub fn new(ast_root: Root, sym: &Sym) -> (generator: NasmCodegen)
        requires
            handles_valid(ast_root@, sym@),
        ensures
            generator.text() == Seq::<char>::empty(),
            generator.names() == signature_names(signatures(ast_root@, sym@)),
            generator.definitions() == ast_root@,
    {
        let mut function_names: Vec<String> = Vec::new();
        let n: usize = ast_root.functions.len();
        let mut i: usize = 0;
        while i < n
            invariant
                handles_valid(ast_root@, sym@),
                n == ast_root.functions.len(),
                i <= n,
                function_names.len() == i,
                forall|k: int|
                    0 <= k < i ==> (#[trigger] function_names@[k])@ == sym@[ast_root@[k].sym].name,
            decreases n - i,
        {
            let fn_ref = ast_root.functions[i].sym;
            assert(fn_ref == ast_root@[i as int].sym);
            function_names.push(sym.get_function(fn_ref).name.clone());
            i += 1;
        }
        assert(strings_view(function_names@) =~= signature_names(signatures(ast_root@, sym@)));
        NasmCodegen { ast_root, function_names, asm_code: String::new() }
    }

    fn tab(&mut self)
        ensures
            final(self).text() == old(self).text().push('\t'),
            final(self).same_program(old(self)),
    {
        self.asm_code.push('\t');
    }

    fn newline(&mut self)
        ensures
            final(self).text() == old(self).text().push('\n'),
            final(self).same_program(old(self)),
    {
        self.asm_code.push('\n');
    }

    /// Adds an instruction with its arguments.
    pub fn inst(&mut self, instruction: &str, args: &Vec<String>)
        ensures
            final(self).text() == old(self).text() + inst_text(instruction@, strings_view(args@)),
            final(self).names() == old(self).names(),
            final(self).definitions() == old(self).definitions(),
            final(self).same_program(old(self)),
    {
        self.tab();
        self.asm_code.append(instruction);
        self.tab();
        let combined_args = intersperse(args, ", ");
        self.asm_code.append(combined_args.as_str());
        self.newline();
        assert(self.text() =~= old(self).text() + inst_text(instruction@, strings_view(args@)));
    }

    fn label(&mut self, label: &str)
        ensures
            final(self).text() == old(self).text() + label_text(label@),
            final(self).same_program(old(self)),
    {
        self.asm_code.append(label);
        self.asm_code.push(':');
        self.newline();
        assert(self.text() =~= old(self).text() + label_text(label@));
    }

    fn generate_exit(&mut self, exit_code: u32)
        ensures
            final(self).text() == old(self).text() + exit_text(exit_code),
            final(self).same_program(old(self)),
    {
        let mut code = String::new();
        push_decimal(&mut code, exit_code);
        assert(code@ =~= decimal(exit_code as nat));
        let mut pushed: Vec<String> = Vec::new();
        pushed.push(code);
        assert(strings_view(pushed@) =~= seq![decimal(exit_code as nat)]);
        self.inst("push", &pushed);
        let mut called: Vec<String> = Vec::new();
        called.push("_ExitProcess@4".to_owned());
        assert(strings_view(called@) =~= seq!["_ExitProcess@4"@]);
        self.inst("call", &called);
        assert(self.text() =~= old(self).text() + exit_text(exit_code));
    }

    fn generate_fn_call(&mut self, fn_name: &str)
        ensures
            final(self).text() == old(self).text() + call_text(fn_name@),
            final(self).same_program(old(self)),
    {
        let mut called: Vec<String> = Vec::new();
        called.push(fn_name.to_owned());
        assert(strings_view(called@) =~= seq![fn_name@]);
        self.inst("call", &called);
    }

    /// Whether the program has a function of the given name.
    fn has_function(&self, name: &str) -> (r: bool)
        ensures
            r == self.names().contains(name@),
    {
        let n: usize = self.function_names.len();
        let mut i: usize = 0;
        while i < n
            invariant
                n == self.function_names.len(),
                i <= n,
                forall|k: int| 0 <= k < i ==> self.names()[k] != name@,
            decreases n - i,
        {
            if str_eq(self.function_names[i].as_str(), name) {
                assert(self.names()[i as int] == name@);
                return true;
            }
            i += 1;
        }
        false
    }

    /// Generates the `index`-th function of the program. After an error the
    /// text holds what was generated before it: behind the text that was
    /// there, the label and the lines of the statements before the failing
    /// one, and no `ret`.
    fn generate_fn(&mut self, index: usize) -> (r: Result<(), NasmError>)
        requires
            index < old(self).names().len(),
            old(self).names().len() == old(self).definitions().len(),
        ensures
            final(self).same_program(old(self)),
            ({
                let text = function_text(
                    old(self).names()[index as int],
                    old(self).definitions()[index as int].compound,
                    old(self).names(),
                );
                match r {
                    Ok(_) => text is Ok && final(self).text() == old(self).text() + text->Ok_0,
                    Err(e) => text == Err::<Seq<char>, NasmErrorView>(e@) && final(self).text()
                        == old(self).text() + label_text(
                        label_of(old(self).names()[index as int]),
                    ) + generated_lines(
                        old(self).definitions()[index as int].compound,
                        old(self).names(),
                        0,
                    ),
                }
            }),
    {
        let ghost names = self.names();
        let ghost stmts = self.definitions()[index as int].compound;
        let ghost start = self.text();
        let name = self.function_names[index].clone();
        assert(name@ == names[index as int]);
        if str_eq(name.as_str(), "main") {
            self.label("_main");
        } else {
            self.label(name.as_str());
        }
        let ghost labelled = self.text();
        assert(labelled == start + label_text(label_of(name@)));
        let n: usize = self.ast_root.functions[index].compound.expressions.len();
        let mut i: usize = 0;
        let ghost mut lines: Seq<char> = Seq::empty();
        proof {
            lemma_exprs_view(self.ast_root.functions[index as int].compound.expressions@);
            assert(labelled + lines =~= labelled);
            assert(lines + generated_lines(stmts, names, 0) =~= generated_lines(stmts, names, 0));
            match statements_text(stmts, names, 0) {
                Ok(more) => {
                    assert(lines + more =~= more);
                },
                Err(_) => {},
            }
        }
        while i < n
            invariant
                self.same_program(old(self)),
                names == old(self).names(),
                index < names.len(),
                index < self.ast_root.functions.len(),
                stmts == self.definitions()[index as int].compound,
                n == self.ast_root.functions[index as int].compound.expressions.len(),
                stmts.len() == n,
                forall|k: int|
                    0 <= k < n ==> stmts[k] == expr_view(
                        #[trigger] self.ast_root.functions[index as int].compound.expressions@[k],
                    ),
                i <= n,
                self.text() == labelled + lines,
                labelled == old(self).text() + label_text(label_of(names[index as int])),
                statements_text(stmts, names, 0) == prepend_text(
                    lines,
                    statements_text(stmts, names, i as int),
                ),
                generated_lines(stmts, names, 0) == lines + generated_lines(stmts, names, i as int),
            decreases n - i,
        {
            let ghost rest = statements_text(stmts, names, i + 1);
            assert(stmts[i as int] == expr_view(
                self.ast_root.functions[index as int].compound.expressions@[i as int],
            ));
            match &self.ast_root.functions[index].compound.expressions[i] {
                Expr::Exit(exit_code) => {
                    let exit_code = *exit_code;
                    self.generate_exit(exit_code);
                    proof {
                        lemma_prepend_text(lines, exit_text(exit_code), rest);
                        assert(lines + (exit_text(exit_code) + generated_lines(stmts, names, i + 1))
                            =~= lines + exit_text(exit_code) + generated_lines(
                            stmts,
                            names,
                            i + 1,
                        ));
                        lines = lines + exit_text(exit_code);
                        assert(self.text() =~= labelled + lines);
                    }
                },
                Expr::FnCall(fn_name) => {
                    let fn_name = fn_name.clone();
                    if !self.has_function(fn_name.as_str()) {
                        assert(lines + Seq::<char>::empty() =~= lines);
                        return Err(NasmError::UndefinedFunction(fn_name));
                    }
                    self.generate_fn_call(fn_name.as_str());
                    proof {
                        lemma_prepend_text(lines, call_text(fn_name@), rest);
                        assert(lines + (call_text(fn_name@) + generated_lines(stmts, names, i + 1))
                            =~= lines + call_text(fn_name@) + generated_lines(stmts, names, i + 1));
                        lines = lines + call_text(fn_name@);
                        assert(self.text() =~= labelled + lines);
                    }
                },
                _ => {
                    assert(lines + Seq::<char>::empty() =~= lines);
                    return Err(NasmError::Unsupported);
                },
            }
            i += 1;
        }
        let no_args: Vec<String> = Vec::new();
        assert(strings_view(no_args@) =~= Seq::empty());
        self.inst("ret", &no_args);
        proof {
            assert(lines + Seq::<char>::empty() =~= lines);
            assert(self.text() =~= start + (label_text(label_of(name@)) + lines + inst_text(
                "ret"@,
                Seq::empty(),
            )));
        }
        Ok(())
    }

    /// Generates the assembly text of the program, behind the text that the
    /// generator holds already.
    pub fn generate(self) -> (r: Result<String, NasmError>)
        requires
            self.names().len() == self.definitions().len(),
        ensures
            match r {
                Ok(text) => prepend_text(
                    self.text(),
                    program_text(self.names(), bodies(self.definitions())),
                ) == Ok::<Seq<char>, NasmErrorView>(text@),
                Err(e) => program_text(self.names(), bodies(self.definitions())) == Err::<
                    Seq<char>,
                    NasmErrorView,
                >(e@),
            },
    {
        let ghost names = self.names();
        let ghost stmts = bodies(self.definitions());
        let ghost start = self.text();
        let mut writer = self;
        writer.asm_code.append("section .text\n");
        writer.asm_code.append("global _main\n");
        writer.asm_code.append("extern  _ExitProcess@4\n");
        assert(writer.text() =~= start + header_text());
        let n: usize = writer.function_names.len();
        let mut i: usize = 0;
        let ghost mut done: Seq<char> = Seq::empty();
        proof {
            assert(start + header_text() + done =~= start + header_text());
            match functions_text(names, stmts, 0) {
                Ok(more) => {
                    assert(done + more =~= more);
                },
                Err(_) => {},
            }
        }
        while i < n
            invariant
                names == self.names(),
                stmts == bodies(self.definitions()),
                start == self.text(),
                writer.same_program(&self),
                names.len() == self.definitions().len(),
                n == names.len(),
                i <= n,
                writer.text() == start + header_text() + done,
                functions_text(names, stmts, 0) == prepend_text(
                    done,
                    functions_text(names, stmts, i as int),
                ),
            decreases n - i,
        {
            let ghost rest = functions_text(names, stmts, i + 1);
            assert(stmts[i as int] == writer.definitions()[i as int].compound);
            match writer.generate_fn(i) {
                Err(e) => {
                    return Err(e);
                },
                Ok(_) => {
                    proof {
                        let text = function_text(names[i as int], stmts[i as int], names)->Ok_0;
                        lemma_prepend_text(done, text, rest);
                        done = done + text;
                        assert(writer.text() =~= start + header_text() + done);
                    }
                },
            }
            i += 1;
        }
        proof {
            assert(done + Seq::<char>::empty() =~= done);
            assert(start + header_text() + done =~= start + (header_text() + done));
        }
        Ok(writer.asm_code)
    }
}

} // verus!

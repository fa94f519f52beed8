//! The parser: a token sequence to a syntax tree.
//!
//! The grammar, with `newline` for a line break or a semicolon:
//!
//! ```text
//! Root        := (newline* FunctionDef)* newline*
//! FunctionDef := 'function' Identifier '(' ')' ('->' Type)? Compound
//! Type        := 'int' | '(' ')'
//! Compound    := '{' Statement* '}'
//! Statement   := Compound | 'exit' Number | 'return' Number
//!              | Identifier '(' ')' | newline
//! ```
//!
//! A function is registered in the symbol table as soon as its header has
//! been read, before its body is parsed. A call is kept by the callee's name:
//! the callee may be defined further down.

use std::collections::VecDeque;
use vstd::prelude::*;

use crate::compiler::lexer::token::{token_option_view, tokens_view, Keyword, Token, TokenView};
use crate::compiler::parser::ast::{
    definitions_view, expr_view, exprs_view, lemma_exprs_view_push, CompoundExpr, Expr, ExprView,
    FunctionDefinition, FunctionDefinitionView, Root, Type,
};
use crate::compiler::symbol_table::{
    lemma_names_insert, table_names, Function, FunctionRef, FunctionView, Sym,
};

pub mod ast;
pub mod proofs;

verus! {

/// Why a token sequence is no program.
#[derive(Debug, PartialEq, Eq)]
pub enum SyntaxError {
    /// The token `expected` is due; `found` is what stands there instead,
    /// `None` at the end of the tokens.
    Expected { expected: Token, found: Option<Token> },
    /// `exit` is not followed by a number.
    ExpectedExitCode { found: Option<Token> },
    /// `return` is not followed by a number.
    ExpectedReturnValue { found: Option<Token> },
    /// A token that starts no statement.
    InvalidStatement { token: Token },
    /// The tokens end inside a block.
    UnterminatedCompound,
    /// A type is due after `->`.
    ExpectedType { found: Option<Token> },
    /// A function name is due after `function`.
    ExpectedFunctionName { found: Option<Token> },
    /// After the parameter list, `->` or the body is due.
    ExpectedReturnType { found: Option<Token> },
}

/// The mathematical value of a [`SyntaxError`].
pub ghost enum SyntaxErrorView {
    Expected { expected: TokenView, found: Option<TokenView> },
    ExpectedExitCode { found: Option<TokenView> },
    ExpectedReturnValue { found: Option<TokenView> },
    InvalidStatement { token: TokenView },
    UnterminatedCompound,
    ExpectedType { found: Option<TokenView> },
    ExpectedFunctionName { found: Option<TokenView> },
    ExpectedReturnType { found: Option<TokenView> },
}

impl View for SyntaxError {
    type V = SyntaxErrorView;

    open spec fn view(&self) -> SyntaxErrorView {
        match *self {
            SyntaxError::Expected { expected, found } => SyntaxErrorView::Expected {
                expected: expected@,
                found: token_option_view(found),
            },
            SyntaxError::ExpectedExitCode { found } => SyntaxErrorView::ExpectedExitCode {
                found: token_option_view(found),
            },
            SyntaxError::ExpectedReturnValue { found } => SyntaxErrorView::ExpectedReturnValue {
                found: token_option_view(found),
            },
            SyntaxError::InvalidStatement { token } => SyntaxErrorView::InvalidStatement {
                token: token@,
            },
            SyntaxError::UnterminatedCompound => SyntaxErrorView::UnterminatedCompound,
            SyntaxError::ExpectedType { found } => SyntaxErrorView::ExpectedType {
                found: token_option_view(found),
            },
            SyntaxError::ExpectedFunctionName { found } => SyntaxErrorView::ExpectedFunctionName {
                found: token_option_view(found),
            },
            SyntaxError::ExpectedReturnType { found } => SyntaxErrorView::ExpectedReturnType {
                found: token_option_view(found),
            },
        }
    }
}

/// Why parsing failed.
#[derive(Debug, PartialEq, Eq)]
pub enum ParseError {
    /// The tokens do not follow the grammar.
    Syntax(SyntaxError),
    /// A second function of this name is defined.
    DuplicateDefinition(String),
}

/// The mathematical value of a [`ParseError`].
pub ghost enum ParseErrorView {
    Syntax(SyntaxErrorView),
    DuplicateDefinition(Seq<char>),
}

impl View for ParseError {
    type V = ParseErrorView;

    open spec fn view(&self) -> ParseErrorView {
        match *self {
            ParseError::Syntax(e) => ParseErrorView::Syntax(e@),
            ParseError::DuplicateDefinition(name) => ParseErrorView::DuplicateDefinition(name@),
        }
    }
}

/// What the grammar reads of one function definition.
pub ghost struct FunctionSyntax {
    pub name: Seq<char>,
    pub return_ty: Type,
    pub body: Seq<ExprView>,
}

/// The first of the tokens, if there is one.
pub open spec fn first_token(ts: Seq<TokenView>) -> Option<TokenView> {
    if ts.len() > 0 {
        Some(ts[0])
    } else {
        None
    }
}

/// Consuming one token that has to be `expected`: the tokens that are left.
pub open spec fn expect_token_spec(ts: Seq<TokenView>, expected: TokenView) -> Result<
    Seq<TokenView>,
    SyntaxErrorView,
> {
    if ts.len() > 0 && ts[0] == expected {
        Ok(ts.drop_first())
    } else {
        Err(SyntaxErrorView::Expected { expected, found: first_token(ts) })
    }
}

/// The statement `e`, followed by the outcome of parsing the statements after
/// it.
pub open spec fn prepend_statement(
    e: ExprView,
    r: Result<(Seq<ExprView>, Seq<TokenView>), SyntaxErrorView>,
) -> Result<(Seq<ExprView>, Seq<TokenView>), SyntaxErrorView> {
    match r {
        Ok((es, rest)) => Ok((seq![e] + es, rest)),
        Err(err) => Err(err),
    }
}

/// The statements `done`, followed by the outcome of parsing the statements
/// after them.
pub open spec fn prepend_statements(
    done: Seq<ExprView>,
    r: Result<(Seq<ExprView>, Seq<TokenView>), SyntaxErrorView>,
) -> Result<(Seq<ExprView>, Seq<TokenView>), SyntaxErrorView> {
    match r {
        Ok((es, rest)) => Ok((done + es, rest)),
        Err(err) => Err(err),
    }
}

/// Parsing the inside of a block, from after its opening brace up to and
/// including its closing brace: the statements, and the tokens that are left.
pub open spec fn parse_statements_spec(ts: Seq<TokenView>) -> Result<
    (Seq<ExprView>, Seq<TokenView>),
    SyntaxErrorView,
>
    decreases ts.len(),
{
    if ts.len() == 0 {
        Err(SyntaxErrorView::UnterminatedCompound)
    } else {
        let rest = ts.drop_first();
        match ts[0] {
            TokenView::RightBrace => Ok((Seq::empty(), rest)),
            TokenView::NewLine => parse_statements_spec(rest),
            TokenView::LeftBrace => match parse_statements_spec(rest) {
                Err(e) => Err(e),
                Ok((inner, after)) => if after.len() < ts.len() {
                    prepend_statement(ExprView::Compound(inner), parse_statements_spec(after))
                } else {
                    Err(SyntaxErrorView::UnterminatedCompound)
                },
            },
            TokenView::Keyword(Keyword::Exit) => match first_token(rest) {
                Some(TokenView::Number(code)) => prepend_statement(
                    ExprView::Exit(code),
                    parse_statements_spec(rest.drop_first()),
                ),
                found => Err(SyntaxErrorView::ExpectedExitCode { found }),
            },
            TokenView::Keyword(Keyword::Return) => match first_token(rest) {
                Some(TokenView::Number(value)) => prepend_statement(
                    ExprView::Return(value),
                    parse_statements_spec(rest.drop_first()),
                ),
                found => Err(SyntaxErrorView::ExpectedReturnValue { found }),
            },
            TokenView::Identifier(name) => match expect_token_spec(
                rest,
                TokenView::LeftParentheses,
            ) {
                Err(e) => Err(e),
                Ok(after_open) => match expect_token_spec(
                    after_open,
                    TokenView::RightParentheses,
                ) {
                    Err(e) => Err(e),
                    Ok(after_close) => prepend_statement(
                        ExprView::FnCall(name),
                        parse_statements_spec(after_close),
                    ),
                },
            },
            other => Err(SyntaxErrorView::InvalidStatement { token: other }),
        }
    }
}

/// Parsing a block: the statements between its braces, and the tokens that
/// are left after its closing brace.
pub open spec fn parse_compound_spec(ts: Seq<TokenView>) -> Result<
    (Seq<ExprView>, Seq<TokenView>),
    SyntaxErrorView,
> {
    match expect_token_spec(ts, TokenView::LeftBrace) {
        Err(e) => Err(e),
        Ok(rest) => parse_statements_spec(rest),
    }
}

/// Parsing a type: the type, and the tokens that are left.
pub open spec fn parse_type_spec(ts: Seq<TokenView>) -> Result<(Type, Seq<TokenView>), SyntaxErrorView> {
    match first_token(ts) {
        Some(TokenView::Keyword(Keyword::Int)) => Ok((Type::Int, ts.drop_first())),
        Some(TokenView::LeftParentheses) => match expect_token_spec(
            ts.drop_first(),
            TokenView::RightParentheses,
        ) {
            Err(e) => Err(e),
            Ok(rest) => Ok((Type::Unit, rest)),
        },
        found => Err(SyntaxErrorView::ExpectedType { found }),
    }
}

/// Parsing what follows the parameter list of a function header: the return
/// type, and the tokens that are left. Without an arrow the type is `Unit`,
/// and the opening brace of the body is left in place.
pub open spec fn parse_return_type_spec(ts: Seq<TokenView>) -> Result<
    (Type, Seq<TokenView>),
    SyntaxErrorView,
> {
    match first_token(ts) {
        Some(TokenView::RightArrow) => parse_type_spec(ts.drop_first()),
        Some(TokenView::LeftBrace) => Ok((Type::Unit, ts)),
        found => Err(SyntaxErrorView::ExpectedReturnType { found }),
    }
}

/// Parsing the header of a function definition: its name and return type, and
/// the tokens that are left.
pub open spec fn parse_signature_spec(ts: Seq<TokenView>) -> Result<
    (Seq<char>, Type, Seq<TokenView>),
    SyntaxErrorView,
> {
    match expect_token_spec(ts, TokenView::Keyword(Keyword::Fun)) {
        Err(e) => Err(e),
        Ok(after_keyword) => match first_token(after_keyword) {
            Some(TokenView::Identifier(name)) => match expect_token_spec(
                after_keyword.drop_first(),
                TokenView::LeftParentheses,
            ) {
                Err(e) => Err(e),
                Ok(after_open) => match expect_token_spec(
                    after_open,
                    TokenView::RightParentheses,
                ) {
                    Err(e) => Err(e),
                    Ok(after_close) => match parse_return_type_spec(after_close) {
                        Err(e) => Err(e),
                        Ok((ty, rest)) => Ok((name, ty, rest)),
                    },
                },
            },
            found => Err(SyntaxErrorView::ExpectedFunctionName { found }),
        },
    }
}

/// Parsing one function definition while the names in `taken` are in use:
/// what was read, and the tokens that are left. The name is checked when the
/// header has been read, so a duplicate is reported before any error in the
/// body.
pub open spec fn parse_definition_spec(ts: Seq<TokenView>, taken: Set<Seq<char>>) -> Result<
    (FunctionSyntax, Seq<TokenView>),
    ParseErrorView,
> {
    match parse_signature_spec(ts) {
        Err(e) => Err(ParseErrorView::Syntax(e)),
        Ok((name, return_ty, after_header)) => if taken.contains(name) {
            Err(ParseErrorView::DuplicateDefinition(name))
        } else {
            match parse_compound_spec(after_header) {
                Err(e) => Err(ParseErrorView::Syntax(e)),
                Ok((body, rest)) => Ok((FunctionSyntax { name, return_ty, body }, rest)),
            }
        },
    }
}

/// The number of line breaks at the start of the tokens.
pub open spec fn leading_newlines(ts: Seq<TokenView>) -> nat
    decreases ts.len(),
{
    if ts.len() > 0 && ts[0] == TokenView::NewLine {
        1 + leading_newlines(ts.drop_first())
    } else {
        0
    }
}

/// The tokens without the line breaks at their start.
pub open spec fn skip_newlines_spec(ts: Seq<TokenView>) -> Seq<TokenView> {
    ts.skip(leading_newlines(ts) as int)
}

/// The definitions `done`, followed by the outcome of parsing the definitions
/// after them.
pub open spec fn prepend_definitions(
    done: Seq<FunctionSyntax>,
    r: Result<Seq<FunctionSyntax>, ParseErrorView>,
) -> Result<Seq<FunctionSyntax>, ParseErrorView> {
    match r {
        Ok(fs) => Ok(done + fs),
        Err(e) => Err(e),
    }
}

/// Parsing a whole program while the names in `taken` are in use: its
/// function definitions in order, or the first error.
pub open spec fn parse_root_spec(ts: Seq<TokenView>, taken: Set<Seq<char>>) -> Result<
    Seq<FunctionSyntax>,
    ParseErrorView,
>
    decreases ts.len(),
{
    let start = skip_newlines_spec(ts);
    if start.len() == 0 {
        Ok(Seq::empty())
    } else {
        match parse_definition_spec(start, taken) {
            Err(e) => Err(e),
            Ok((f, rest)) => {
                proof {
                    lemma_leading_newlines_bound(ts);
                    lemma_definition_consumes(start, taken);
                }
                prepend_definitions(seq![f], parse_root_spec(rest, taken.insert(f.name)))
            },
        }
    }
}

/// The signature that parsing one function definition registers while the
/// names in `taken` are in use: that of its header, if the header follows
/// the grammar and the name is free.
pub open spec fn registered_signature(ts: Seq<TokenView>, taken: Set<Seq<char>>) -> Option<
    FunctionView,
> {
    match parse_signature_spec(ts) {
        Ok((name, return_ty, _)) => if taken.contains(name) {
            None
        } else {
            Some(FunctionView { name, return_ty, codegen_data_ref: None })
        },
        Err(_) => None,
    }
}

/// The signatures that parsing a program registers while the names in
/// `taken` are in use, in order: those of all its definitions, or, if the
/// parse fails, of the definitions whose header was accepted before.
pub open spec fn registered_signatures(ts: Seq<TokenView>, taken: Set<Seq<char>>) -> Seq<
    FunctionView,
>
    decreases ts.len(),
{
    let start = skip_newlines_spec(ts);
    if start.len() == 0 {
        Seq::empty()
    } else {
        match registered_signature(start, taken) {
            None => Seq::empty(),
            Some(sig) => match parse_definition_spec(start, taken) {
                Err(_) => seq![sig],
                Ok((_, rest)) => {
                    proof {
                        lemma_leading_newlines_bound(ts);
                        lemma_definition_consumes(start, taken);
                    }
                    seq![sig] + registered_signatures(rest, taken.insert(sig.name))
                },
            },
        }
    }
}

/// How a table grows by registering the signatures `sigs`: `before` is the
/// table at the start, `after` the table at the end. Each signature has a
/// new handle of its own, `refs` in order, and nothing else has changed.
pub open spec fn grown(
    before: Map<FunctionRef, FunctionView>,
    after: Map<FunctionRef, FunctionView>,
    refs: Seq<FunctionRef>,
    sigs: Seq<FunctionView>,
) -> bool {
    &&& refs.len() == sigs.len()
    &&& before.submap_of(after)
    &&& forall|i: int|
        0 <= i < refs.len() ==> {
            &&& !before.contains_key(#[trigger] refs[i])
            &&& after.contains_key(refs[i])
            &&& after[refs[i]] == sigs[i]
        }
    &&& forall|i: int, j: int| 0 <= i < j < refs.len() ==> refs[i] != refs[j]
    &&& forall|r: FunctionRef| #[trigger]
        after.contains_key(r) ==> before.contains_key(r) || exists|i: int|
            0 <= i < refs.len() && #[trigger] refs[i] == r
}

/// Registering one more signature under a handle that the table lacks.
pub proof fn lemma_grown_push(
    before: Map<FunctionRef, FunctionView>,
    now: Map<FunctionRef, FunctionView>,
    refs: Seq<FunctionRef>,
    sigs: Seq<FunctionView>,
    r: FunctionRef,
    sig: FunctionView,
)
    requires
        grown(before, now, refs, sigs),
        !now.contains_key(r),
    ensures
        grown(before, now.insert(r, sig), refs.push(r), sigs.push(sig)),
{
    let after = now.insert(r, sig);
    let refs2 = refs.push(r);
    assert forall|x: FunctionRef| #[trigger] after.contains_key(x) implies before.contains_key(x)
        || exists|i: int| 0 <= i < refs2.len() && #[trigger] refs2[i] == x by {
        if x == r {
            assert(refs2[refs.len() as int] == x);
        } else if !before.contains_key(x) {
            let i = choose|i: int| 0 <= i < refs.len() && #[trigger] refs[i] == x;
            assert(refs2[i] == x);
        }
    }
    assert forall|i: int, j: int| 0 <= i < j < refs2.len() implies refs2[i] != refs2[j] by {
        if j == refs.len() {
            assert(now.contains_key(refs[i]));
        }
    }
}

/// What a successful parse did to the symbol table: `before` is the table at
/// the start, `after` the table at the end, `defs` the definitions of the
/// tree, and `fs` what the grammar read. Each definition has a new handle of
/// its own, whose entry holds the definition's name and return type with
/// nothing attached, and the table gained no other entry.
pub open spec fn registered(
    before: Map<FunctionRef, FunctionView>,
    after: Map<FunctionRef, FunctionView>,
    defs: Seq<FunctionDefinitionView>,
    fs: Seq<FunctionSyntax>,
) -> bool {
    &&& defs.len() == fs.len()
    &&& before.submap_of(after)
    &&& forall|i: int|
        0 <= i < defs.len() ==> {
            &&& !before.contains_key((#[trigger] defs[i]).sym)
            &&& after.contains_key(defs[i].sym)
            &&& after[defs[i].sym] == FunctionView {
                name: fs[i].name,
                return_ty: fs[i].return_ty,
                codegen_data_ref: None,
            }
            &&& defs[i].compound == fs[i].body
        }
    &&& forall|r: FunctionRef| #[trigger]
        after.contains_key(r) ==> before.contains_key(r) || exists|i: int|
            0 <= i < defs.len() && (#[trigger] defs[i]).sym == r
}

/// The count of leading line breaks is at most the number of tokens.
pub proof fn lemma_leading_newlines_bound(ts: Seq<TokenView>)
    ensures
        leading_newlines(ts) <= ts.len(),
    decreases ts.len(),
{
    if ts.len() > 0 && ts[0] == TokenView::NewLine {
        lemma_leading_newlines_bound(ts.drop_first());
    }
}

/// A prefix of `n` line breaks, ended by the end of the tokens or by another
/// token, is the whole run of leading line breaks.
pub proof fn lemma_leading_newlines(ts: Seq<TokenView>, n: nat)
    requires
        n <= ts.len(),
        forall|i: int| 0 <= i < n ==> #[trigger] ts[i] == TokenView::NewLine,
        n == ts.len() || ts[n as int] != TokenView::NewLine,
    ensures
        leading_newlines(ts) == n,
    decreases n,
{
    if n > 0 {
        let t = ts.drop_first();
        assert forall|i: int| 0 <= i < n - 1 implies #[trigger] t[i] == TokenView::NewLine by {
            assert(t[i] == ts[i + 1]);
        }
        lemma_leading_newlines(t, (n - 1) as nat);
    }
}

/// Parsing the inside of a block consumes at least one token.
pub proof fn lemma_statements_consume(ts: Seq<TokenView>)
    ensures
        parse_statements_spec(ts) matches Ok((_, rest)) ==> rest.len() < ts.len(),
    decreases ts.len(),
{
    if ts.len() > 0 {
        let rest = ts.drop_first();
        match ts[0] {
            TokenView::NewLine => {
                lemma_statements_consume(rest);
            },
            TokenView::LeftBrace => {
                lemma_statements_consume(rest);
                match parse_statements_spec(rest) {
                    Ok((_, after)) => {
                        lemma_statements_consume(after);
                    },
                    Err(_) => {},
                }
            },
            TokenView::Keyword(Keyword::Exit) => {
                if rest.len() > 0 {
                    lemma_statements_consume(rest.drop_first());
                }
            },
            TokenView::Keyword(Keyword::Return) => {
                if rest.len() > 0 {
                    lemma_statements_consume(rest.drop_first());
                }
            },
            TokenView::Identifier(_) => {
                if rest.len() >= 2 {
                    lemma_statements_consume(rest.drop_first().drop_first());
                }
            },
            _ => {},
        }
    }
}

/// A function definition consumes at least one token.
pub proof fn lemma_definition_consumes(ts: Seq<TokenView>, taken: Set<Seq<char>>)
    ensures
        parse_definition_spec(ts, taken) matches Ok((_, rest)) ==> rest.len() < ts.len(),
{
    match parse_signature_spec(ts) {
        Ok((_, _, after_header)) => {
            assert(after_header.len() <= ts.len());
            match expect_token_spec(after_header, TokenView::LeftBrace) {
                Ok(inside) => {
                    lemma_statements_consume(inside);
                },
                Err(_) => {},
            }
        },
        Err(_) => {},
    }
}

/// Putting a statement in front of an outcome, after the statements `done`,
/// is putting `done` with that statement in front of it.
pub proof fn lemma_prepend_statement(
    done: Seq<ExprView>,
    e: ExprView,
    r: Result<(Seq<ExprView>, Seq<TokenView>), SyntaxErrorView>,
)
    ensures
        prepend_statements(done, prepend_statement(e, r)) == prepend_statements(done.push(e), r),
{
    match r {
        Ok((es, rest)) => {
            assert(done + (seq![e] + es) =~= done.push(e) + es);
        },
        Err(_) => {},
    }
}

/// A reader of a token sequence, front to back.
pub struct Parser {
    tokens: VecDeque<Token>,
}

impl View for Parser {
    type V = Seq<TokenView>;

    /// The tokens that have not been consumed yet.
    closed spec fn view(&self) -> Seq<TokenView> {
        tokens_view(self.tokens@)
    }
}

impl Parser {
    /// A parser at the start of `tokens`.
    pub fn new(tokens: Vec<Token>) -> (parser: Parser)
        ensures
            parser@ == tokens_view(tokens@),
    {
        let ghost all = tokens@;
        let mut stack = tokens;
        let mut queue: VecDeque<Token> = VecDeque::new();
        while stack.len() > 0
            invariant
                stack@ + queue@ == all,
            decreases stack.len(),
        {
            let ghost before = stack@;
            let ghost behind = queue@;
            match stack.pop() {
                Some(token) => {
                    queue.push_front(token);
                    assert(stack@ + queue@ =~= before + behind);
                },
                None => {},
            }
        }
        assert(queue@ =~= all);
        Parser { tokens: queue }
    }

    fn peek_token(&self) -> (t: Option<&Token>)
        ensures
            match t {
                Some(token) => self@.len() > 0 && token@ == self@[0],
                None => self@.len() == 0,
            },
    {
        if self.tokens.len() > 0 {
            Some(&self.tokens[0])
        } else {
            None
        }
    }

    fn eat_token(&mut self) -> (t: Option<Token>)
        ensures
            token_option_view(t) == first_token(old(self)@),
            old(self)@.len() > 0 ==> final(self)@ == old(self)@.drop_first(),
            old(self)@.len() == 0 ==> final(self)@ == old(self)@,
    {
        let t = self.tokens.pop_front();
        proof {
            if old(self)@.len() > 0 {
                assert(self@ =~= old(self)@.drop_first());
            }
        }
        t
    }

    fn expect_token(&mut self, expected: Token) -> (r: Result<(), SyntaxError>)
        ensures
            match r {
                Ok(_) => expect_token_spec(old(self)@, expected@) == Ok::<
                    Seq<TokenView>,
                    SyntaxErrorView,
                >(final(self)@),
                Err(e) => expect_token_spec(old(self)@, expected@) == Err::<
                    Seq<TokenView>,
                    SyntaxErrorView,
                >(e@),
            },
    {
        match self.eat_token() {
            Some(token) => {
                if token.same(&expected) {
                    Ok(())
                } else {
                    Err(SyntaxError::Expected { expected, found: Some(token) })
                }
            },
            None => Err(SyntaxError::Expected { expected, found: None }),
        }
    }

    fn has_tokens(&self) -> (r: bool)
        ensures
            r == (self@.len() > 0),
    {
        self.peek_token().is_some()
    }

    fn parse_compound(&mut self) -> (r: Result<CompoundExpr, SyntaxError>)
        ensures
            match r {
                Ok(compound) => parse_compound_spec(old(self)@) == Ok::<
                    (Seq<ExprView>, Seq<TokenView>),
                    SyntaxErrorView,
                >((compound@, final(self)@)) && final(self)@.len() < old(self)@.len(),
                Err(e) => parse_compound_spec(old(self)@) == Err::<
                    (Seq<ExprView>, Seq<TokenView>),
                    SyntaxErrorView,
                >(e@),
            },
        decreases old(self)@.len(),
    {
        match self.expect_token(Token::LeftBrace) {
            Err(e) => {
                return Err(e);
            },
            Ok(_) => {},
        }
        let ghost start = self@;
        let mut expressions: Vec<Expr> = Vec::new();
        assert(exprs_view(expressions@) + Seq::<ExprView>::empty() =~= Seq::<ExprView>::empty());
        loop
            invariant
                expect_token_spec(old(self)@, TokenView::LeftBrace) == Ok::<
                    Seq<TokenView>,
                    SyntaxErrorView,
                >(start),
                start.len() < old(self)@.len(),
                self@.len() <= start.len(),
                parse_statements_spec(start) == prepend_statements(
                    exprs_view(expressions@),
                    parse_statements_spec(self@),
                ),
            decreases self@.len(),
        {
            let ghost at = self@;
            let ghost done = exprs_view(expressions@);
            let nested = match self.peek_token() {
                Some(Token::LeftBrace) => true,
                _ => false,
            };
            if nested {
                match self.parse_compound() {
                    Err(e) => {
                        return Err(e);
                    },
                    Ok(inner) => {
                        let ghost e = ExprView::Compound(inner@);
                        let statement = Expr::Compound(Box::new(inner));
                        proof {
                            assert(expr_view(statement) == e);
                            lemma_exprs_view_push(expressions@, statement);
                            lemma_prepend_statement(done, e, parse_statements_spec(self@));
                        }
                        expressions.push(statement);
                    },
                }
            } else {
                match self.eat_token() {
                    None => {
                        return Err(SyntaxError::UnterminatedCompound);
                    },
                    Some(Token::RightBrace) => {
                        assert(done + Seq::<ExprView>::empty() =~= done);
                        return Ok(CompoundExpr { expressions });
                    },
                    Some(Token::NewLine) => {},
                    Some(Token::Keyword(Keyword::Exit)) => {
                        match self.eat_token() {
                            Some(Token::Number(exit_code)) => {
                                let statement = Expr::Exit(exit_code);
                                proof {
                                    lemma_exprs_view_push(expressions@, statement);
                                    lemma_prepend_statement(
                                        done,
                                        ExprView::Exit(exit_code),
                                        parse_statements_spec(self@),
                                    );
                                }
                                expressions.push(statement);
                            },
                            found => {
                                return Err(SyntaxError::ExpectedExitCode { found });
                            },
                        }
                    },
                    Some(Token::Keyword(Keyword::Return)) => {
                        match self.eat_token() {
                            Some(Token::Number(value)) => {
                                let statement = Expr::Return(value);
                                proof {
                                    lemma_exprs_view_push(expressions@, statement);
                                    lemma_prepend_statement(
                                        done,
                                        ExprView::Return(value),
                                        parse_statements_spec(self@),
                                    );
                                }
                                expressions.push(statement);
                            },
                            found => {
                                return Err(SyntaxError::ExpectedReturnValue { found });
                            },
                        }
                    },
                    Some(Token::Identifier(fn_name)) => {
                        match self.expect_token(Token::LeftParentheses) {
                            Err(e) => {
                                return Err(e);
                            },
                            Ok(_) => {},
                        }
                        match self.expect_token(Token::RightParentheses) {
                            Err(e) => {
                                return Err(e);
                            },
                            Ok(_) => {},
                        }
                        let ghost name = fn_name@;
                        let statement = Expr::FnCall(fn_name);
                        proof {
                            lemma_exprs_view_push(expressions@, statement);
                            lemma_prepend_statement(
                                done,
                                ExprView::FnCall(name),
                                parse_statements_spec(self@),
                            );
                        }
                        expressions.push(statement);
                    },
                    Some(other) => {
                        return Err(SyntaxError::InvalidStatement { token: other });
                    },
                }
            }
        }
    }

    fn parse_type(&mut self) -> (r: Result<Type, SyntaxError>)
        ensures
            match r {
                Ok(ty) => parse_type_spec(old(self)@) == Ok::<(Type, Seq<TokenView>), SyntaxErrorView>(
                    (ty, final(self)@),
                ),
                Err(e) => parse_type_spec(old(self)@) == Err::<
                    (Type, Seq<TokenView>),
                    SyntaxErrorView,
                >(e@),
            },
    {
        match self.eat_token() {
            Some(Token::Keyword(Keyword::Int)) => Ok(Type::Int),
            Some(Token::LeftParentheses) => {
                match self.expect_token(Token::RightParentheses) {
                    Err(e) => Err(e),
                    Ok(_) => Ok(Type::Unit),
                }
            },
            found => Err(SyntaxError::ExpectedType { found }),
        }
    }

    fn parse_function_def(&mut self, sym: &mut Sym) -> (r: Result<FunctionDefinition, ParseError>)
        requires
            old(sym).wf(),
        ensures
            final(sym).wf(),
            old(sym)@.submap_of(final(sym)@),
            match registered_signature(old(self)@, table_names(old(sym)@)) {
                None => final(sym)@ == old(sym)@,
                Some(sig) => exists|fn_ref: FunctionRef|
                    !old(sym)@.contains_key(fn_ref) && final(sym)@ == old(sym)@.insert(
                        fn_ref,
                        sig,
                    ),
            },
            match r {
                Ok(def) => {
                    let parsed = parse_definition_spec(old(self)@, table_names(old(sym)@));
                    &&& parsed is Ok
                    &&& parsed->Ok_0.1 == final(self)@
                    &&& parsed->Ok_0.0.body == def@.compound
                    &&& !old(sym)@.contains_key(def.sym)
                    &&& final(sym)@ == old(sym)@.insert(
                        def.sym,
                        FunctionView {
                            name: parsed->Ok_0.0.name,
                            return_ty: parsed->Ok_0.0.return_ty,
                            codegen_data_ref: None,
                        },
                    )
                },
                Err(e) => parse_definition_spec(old(self)@, table_names(old(sym)@)) == Err::<
                    (FunctionSyntax, Seq<TokenView>),
                    ParseErrorView,
                >(e@),
            },
    {
        match self.expect_token(Token::Keyword(Keyword::Fun)) {
            Err(e) => {
                return Err(ParseError::Syntax(e));
            },
            Ok(_) => {},
        }
        let name = match self.eat_token() {
            Some(Token::Identifier(name)) => name,
            found => {
                return Err(ParseError::Syntax(SyntaxError::ExpectedFunctionName { found }));
            },
        };
        match self.expect_token(Token::LeftParentheses) {
            Err(e) => {
                return Err(ParseError::Syntax(e));
            },
            Ok(_) => {},
        }
        match self.expect_token(Token::RightParentheses) {
            Err(e) => {
                return Err(ParseError::Syntax(e));
            },
            Ok(_) => {},
        }
        let arrow = match self.peek_token() {
            Some(Token::RightArrow) => true,
            Some(Token::LeftBrace) => false,
            Some(other) => {
                return Err(
                    ParseError::Syntax(
                        SyntaxError::ExpectedReturnType { found: Some(other.duplicate()) },
                    ),
                );
            },
            None => {
                return Err(ParseError::Syntax(SyntaxError::ExpectedReturnType { found: None }));
            },
        };
        let return_ty = if arrow {
            let _ = self.eat_token();
            match self.parse_type() {
                Err(e) => {
                    return Err(ParseError::Syntax(e));
                },
                Ok(ty) => ty,
            }
        } else {
            Type::Unit
        };
        let sym_ref = match sym.add_function(Function::new(name, return_ty)) {
            Err(e) => {
                return Err(ParseError::DuplicateDefinition(e.name));
            },
            Ok(sym_ref) => sym_ref,
        };
        proof {
            let sig = registered_signature(old(self)@, table_names(old(sym)@))->Some_0;
            assert(!old(sym)@.contains_key(sym_ref) && sym@ == old(sym)@.insert(sym_ref, sig));
        }
        match self.parse_compound() {
            Err(e) => Err(ParseError::Syntax(e)),
            Ok(compound) => Ok(FunctionDefinition { compound, sym: sym_ref }),
        }
    }

    fn skip_newlines(&mut self)
        ensures
            final(self)@ == skip_newlines_spec(old(self)@),
    {
        let ghost all = self@;
        let ghost mut n: nat = 0;
        loop
            invariant
                n <= all.len(),
                self@ == all.skip(n as int),
                forall|i: int| 0 <= i < n ==> #[trigger] all[i] == TokenView::NewLine,
            ensures
                self@ == skip_newlines_spec(all),
            decreases self@.len(),
        {
            let newline = match self.peek_token() {
                Some(Token::NewLine) => true,
                _ => false,
            };
            if !newline {
                proof {
                    lemma_leading_newlines(all, n);
                }
                break ;
            }
            let _ = self.eat_token();
            proof {
                assert(all.skip(n as int).drop_first() =~= all.skip((n + 1) as int));
                n = n + 1;
            }
        }
    }

    fn parse_root(&mut self, sym: &mut Sym) -> (r: Result<Root, ParseError>)
        requires
            old(sym).wf(),
        ensures
            final(sym).wf(),
            exists|refs: Seq<FunctionRef>|
                grown(
                    old(sym)@,
                    final(sym)@,
                    refs,
                    registered_signatures(old(self)@, table_names(old(sym)@)),
                ),
            match r {
                Ok(root) => {
                    let parsed = parse_root_spec(old(self)@, table_names(old(sym)@));
                    parsed is Ok && registered(old(sym)@, final(sym)@, root@, parsed->Ok_0)
                },
                Err(e) => parse_root_spec(old(self)@, table_names(old(sym)@)) == Err::<
                    Seq<FunctionSyntax>,
                    ParseErrorView,
                >(e@),
            },
    {
        let ghost all = self@;
        let ghost mut done: Seq<FunctionSyntax> = Seq::empty();
        let ghost mut refs: Seq<FunctionRef> = Seq::empty();
        let ghost mut sigs: Seq<FunctionView> = Seq::empty();
        let mut functions: Vec<FunctionDefinition> = Vec::new();
        proof {
            assert(sigs + registered_signatures(all, table_names(sym@)) =~= registered_signatures(
                all,
                table_names(sym@),
            ));
            assert(done + Seq::<FunctionSyntax>::empty() =~= done);
            match parse_root_spec(all, table_names(sym@)) {
                Ok(fs) => {
                    assert(done + fs =~= fs);
                },
                Err(_) => {},
            }
            assert(definitions_view(functions@) =~= Seq::empty());
        }
        loop
            invariant
                all == old(self)@,
                sym.wf(),
                grown(old(sym)@, sym@, refs, sigs),
                registered_signatures(all, table_names(old(sym)@)) == sigs + registered_signatures(
                    self@,
                    table_names(sym@),
                ),
                registered(old(sym)@, sym@, definitions_view(functions@), done),
                parse_root_spec(all, table_names(old(sym)@)) == prepend_definitions(
                    done,
                    parse_root_spec(self@, table_names(sym@)),
                ),
            decreases self@.len(),
        {
            let ghost at = self@;
            let ghost table = sym@;
            let ghost defs = definitions_view(functions@);
            proof {
                lemma_leading_newlines_bound(at);
            }
            self.skip_newlines();
            if !self.has_tokens() {
                assert(done + Seq::<FunctionSyntax>::empty() =~= done);
                assert(sigs + Seq::<FunctionView>::empty() =~= sigs);
                return Ok(Root { functions });
            }
            let ghost start = self@;
            proof {
                lemma_definition_consumes(self@, table_names(table));
            }
            match self.parse_function_def(sym) {
                Err(e) => {
                    proof {
                        match registered_signature(start, table_names(table)) {
                            None => {
                                assert(sigs + Seq::<FunctionView>::empty() =~= sigs);
                            },
                            Some(sig) => {
                                let r = choose|r: FunctionRef|
                                    !table.contains_key(r) && sym@ == table.insert(r, sig);
                                lemma_grown_push(old(sym)@, table, refs, sigs, r, sig);
                                assert(sigs + seq![sig] =~= sigs.push(sig));
                                refs = refs.push(r);
                                sigs = sigs.push(sig);
                            },
                        }
                    }
                    return Err(e);
                },
                Ok(def) => {
                    proof {
                        let sig = registered_signature(start, table_names(table))->Some_0;
                        lemma_grown_push(old(sym)@, table, refs, sigs, def.sym, sig);
                        assert(sigs + (seq![sig] + registered_signatures(
                            self@,
                            table_names(table).insert(sig.name),
                        )) =~= sigs.push(sig) + registered_signatures(
                            self@,
                            table_names(table).insert(sig.name),
                        ));
                        refs = refs.push(def.sym);
                        sigs = sigs.push(sig);
                    }
                    proof {
                        let f = parse_definition_spec(skip_newlines_spec(at), table_names(table))->Ok_0.0;
                        let entry = FunctionView {
                            name: f.name,
                            return_ty: f.return_ty,
                            codegen_data_ref: None,
                        };
                        lemma_names_insert(table, def.sym, entry);
                        match parse_root_spec(self@, table_names(sym@)) {
                            Ok(fs) => {
                                assert(done + (seq![f] + fs) =~= done.push(f) + fs);
                            },
                            Err(_) => {},
                        }
                        done = done.push(f);
                        assert(definitions_view(functions@.push(def)) =~= defs.push(def@));
                        let defs2 = defs.push(def@);
                        assert forall|r: FunctionRef| #[trigger] sym@.contains_key(r) implies old(
                            sym,
                        )@.contains_key(r) || exists|i: int|
                            0 <= i < defs2.len() && (#[trigger] defs2[i]).sym == r by {
                            if r == def.sym {
                                assert(defs2[defs2.len() - 1].sym == r);
                            } else if !old(sym)@.contains_key(r) {
                                assert(table.contains_key(r));
                                let i = choose|i: int|
                                    0 <= i < defs.len() && (#[trigger] defs[i]).sym == r;
                                assert(defs2[i].sym == r);
                            }
                        }
                    }
                    functions.push(def);
                },
            }
        }
    }
}

/// Parses a token sequence into a syntax tree, and registers every function
/// that it defines in the symbol table.
///
/// On success the tree has the definitions that the grammar reads from the
/// tokens, in order, each tied to a new entry of the table with its name and
/// return type. Otherwise the error is the first one in reading order: a
/// token that the grammar does not allow, or a function name that is taken.
/// Either way the table has grown by one entry for each function whose
/// header was accepted, and every entry that it had stays as it was.
pub fn parse(tokens: Vec<Token>, sym: &mut Sym) -> (r: Result<Root, ParseError>)
    requires
        old(sym).wf(),
    ensures
        final(sym).wf(),
        exists|refs: Seq<FunctionRef>|
            grown(
                old(sym)@,
                final(sym)@,
                refs,
                registered_signatures(tokens_view(tokens@), table_names(old(sym)@)),
            ),
        match r {
            Ok(root) => {
                let parsed = parse_root_spec(tokens_view(tokens@), table_names(old(sym)@));
                parsed is Ok && registered(old(sym)@, final(sym)@, root@, parsed->Ok_0)
            },
            Err(e) => parse_root_spec(tokens_view(tokens@), table_names(old(sym)@)) == Err::<
                Seq<FunctionSyntax>,
                ParseErrorView,
            >(e@),
        },
{
    let mut parser = Parser::new(tokens);
    parser.parse_root(sym)
}

} // verus!

//! What the parser guarantees about function names: the first definition
//! whose name is taken ends the parse, and a program without such a
//! definition parses to what the grammar reads.

use vstd::prelude::*;

use crate::compiler::lexer::token::{Keyword, TokenView};
use crate::compiler::lexer::{all_words, identifier_word};
use crate::compiler::parser::{
    expect_token_spec, leading_newlines, parse_statements_spec,
    lemma_definition_consumes, lemma_leading_newlines_bound, parse_compound_spec,
    parse_definition_spec, parse_root_spec, parse_signature_spec, prepend_definitions,
    skip_newlines_spec, FunctionSyntax, ParseErrorView, SyntaxErrorView,
};

verus! {

/// What the grammar alone reads of the tokens: the function definitions in
/// order, whatever their names are.
pub open spec fn parse_functions_spec(ts: Seq<TokenView>) -> Result<
    Seq<FunctionSyntax>,
    SyntaxErrorView,
>
    decreases ts.len(),
{
    let start = skip_newlines_spec(ts);
    if start.len() == 0 {
        Ok(Seq::empty())
    } else {
        match parse_signature_spec(start) {
            Err(e) => Err(e),
            Ok((name, return_ty, after_header)) => match parse_compound_spec(after_header) {
                Err(e) => Err(e),
                Ok((body, rest)) => {
                    proof {
                        lemma_leading_newlines_bound(ts);
                        lemma_definition_consumes(start, Set::empty());
                    }
                    match parse_functions_spec(rest) {
                        Ok(fs) => Ok(seq![FunctionSyntax { name, return_ty, body }] + fs),
                        Err(e) => Err(e),
                    }
                },
            },
        }
    }
}

/// The names of the definitions `fs`, in order.
pub open spec fn function_names(fs: Seq<FunctionSyntax>) -> Seq<Seq<char>> {
    Seq::new(fs.len(), |i: int| fs[i].name)
}

/// The first of the names that is taken when its turn comes: it is in
/// `taken`, or it stands earlier among the names.
pub open spec fn first_duplicate(names: Seq<Seq<char>>, taken: Set<Seq<char>>) -> Option<Seq<char>>
    decreases names.len(),
{
    if names.len() == 0 {
        None
    } else if taken.contains(names[0]) {
        Some(names[0])
    } else {
        first_duplicate(names.drop_first(), taken.insert(names[0]))
    }
}

/// For tokens that follow the grammar, the names decide how the parse ends:
/// with the first name that is taken, it fails with `DuplicateDefinition` of
/// that name; without one, it yields what the grammar reads.
pub proof fn lemma_duplicates_decide(ts: Seq<TokenView>, taken: Set<Seq<char>>)
    requires
        parse_functions_spec(ts) is Ok,
    ensures
        parse_root_spec(ts, taken) == (match first_duplicate(
            function_names(parse_functions_spec(ts)->Ok_0),
            taken,
        ) {
            Some(name) => Err::<Seq<FunctionSyntax>, ParseErrorView>(
                ParseErrorView::DuplicateDefinition(name),
            ),
            None => Ok::<Seq<FunctionSyntax>, ParseErrorView>(parse_functions_spec(ts)->Ok_0),
        }),
    decreases ts.len(),
{
    let start = skip_newlines_spec(ts);
    let fs = parse_functions_spec(ts)->Ok_0;
    if start.len() == 0 {
        assert(function_names(fs) =~= Seq::empty());
    } else {
        let (name, return_ty, after_header) = parse_signature_spec(start)->Ok_0;
        let (body, rest) = parse_compound_spec(after_header)->Ok_0;
        let f = FunctionSyntax { name, return_ty, body };
        let more = parse_functions_spec(rest)->Ok_0;
        lemma_leading_newlines_bound(ts);
        lemma_definition_consumes(start, Set::empty());
        assert(fs == seq![f] + more);
        assert(function_names(fs)[0] == name);
        assert(function_names(fs).drop_first() =~= function_names(more));
        if !taken.contains(name) {
            lemma_duplicates_decide(rest, taken.insert(name));
            assert(parse_definition_spec(start, taken) == Ok::<
                (FunctionSyntax, Seq<TokenView>),
                ParseErrorView,
            >((f, rest)));
            assert(parse_root_spec(ts, taken) == prepend_definitions(
                seq![f],
                parse_root_spec(rest, taken.insert(name)),
            ));
        }
    }
}

/// A name that is taken at the start is a duplicate wherever it stands.
pub proof fn lemma_taken_name_is_duplicate(names: Seq<Seq<char>>, taken: Set<Seq<char>>, k: int)
    requires
        0 <= k < names.len(),
        taken.contains(names[k]),
    ensures
        first_duplicate(names, taken) is Some,
    decreases names.len(),
{
    if !taken.contains(names[0]) {
        assert(names.drop_first()[k - 1] == names[k]);
        lemma_taken_name_is_duplicate(names.drop_first(), taken.insert(names[0]), k - 1);
    }
}

/// A name that stands twice among the names is a duplicate.
pub proof fn lemma_repeated_name_is_duplicate(
    names: Seq<Seq<char>>,
    taken: Set<Seq<char>>,
    i: int,
    j: int,
)
    requires
        0 <= i < j < names.len(),
        names[i] == names[j],
    ensures
        first_duplicate(names, taken) is Some,
    decreases names.len(),
{
    if !taken.contains(names[0]) {
        let rest = names.drop_first();
        assert(rest[j - 1] == names[j]);
        if i == 0 {
            lemma_taken_name_is_duplicate(rest, taken.insert(names[0]), j - 1);
        } else {
            assert(rest[i - 1] == names[i]);
            lemma_repeated_name_is_duplicate(rest, taken.insert(names[0]), i - 1, j - 1);
        }
    }
}

/// When no name is taken at the start and the names are pairwise different,
/// there is no duplicate.
pub proof fn lemma_distinct_names_have_no_duplicate(names: Seq<Seq<char>>, taken: Set<Seq<char>>)
    requires
        forall|i: int| 0 <= i < names.len() ==> !taken.contains(#[trigger] names[i]),
        forall|i: int, j: int| 0 <= i < j < names.len() ==> names[i] != names[j],
    ensures
        first_duplicate(names, taken) is None,
    decreases names.len(),
{
    if names.len() > 0 {
        let rest = names.drop_first();
        assert forall|i: int| 0 <= i < rest.len() implies !taken.insert(names[0]).contains(
            #[trigger] rest[i],
        ) by {
            assert(rest[i] == names[i + 1]);
        }
        assert forall|i: int, j: int| 0 <= i < j < rest.len() implies rest[i] != rest[j] by {
            assert(rest[i] == names[i + 1]);
            assert(rest[j] == names[j + 1]);
        }
        lemma_distinct_names_have_no_duplicate(rest, taken.insert(names[0]));
    }
}

/// A program that follows the grammar and defines two functions of one name
/// does not parse: the parse fails with `DuplicateDefinition`.
pub proof fn lemma_same_name_twice_fails(ts: Seq<TokenView>, taken: Set<Seq<char>>, i: int, j: int)
    requires
        parse_functions_spec(ts) is Ok,
        0 <= i < j < parse_functions_spec(ts)->Ok_0.len(),
        parse_functions_spec(ts)->Ok_0[i].name == parse_functions_spec(ts)->Ok_0[j].name,
    ensures
        parse_root_spec(ts, taken) matches Err(ParseErrorView::DuplicateDefinition(_)),
{
    let names = function_names(parse_functions_spec(ts)->Ok_0);
    assert(names[i] == names[j]);
    lemma_repeated_name_is_duplicate(names, taken, i, j);
    lemma_duplicates_decide(ts, taken);
}

/// The tokens behind the first are words where all tokens are.
pub proof fn lemma_drop_first_words(ts: Seq<TokenView>)
    requires
        all_words(ts),
        ts.len() > 0,
    ensures
        all_words(ts.drop_first()),
{
    let rest = ts.drop_first();
    assert forall|i: int| 0 <= i < rest.len() implies ((#[trigger] rest[i]) matches TokenView::Identifier(
        w,
    ) ==> identifier_word(w)) by {
        assert(rest[i] == ts[i + 1]);
    }
}

/// What is left behind a token that was due is made of words where all
/// tokens are.
pub proof fn lemma_expect_words(ts: Seq<TokenView>, expected: TokenView)
    requires
        all_words(ts),
    ensures
        expect_token_spec(ts, expected) matches Ok(rest) ==> all_words(rest),
{
    if ts.len() > 0 {
        lemma_drop_first_words(ts);
    }
}

/// What is left behind the inside of a block is made of words where all
/// tokens are.
pub proof fn lemma_statements_words(ts: Seq<TokenView>)
    requires
        all_words(ts),
    ensures
        parse_statements_spec(ts) matches Ok((_, rest)) ==> all_words(rest),
    decreases ts.len(),
{
    if ts.len() > 0 {
        let rest = ts.drop_first();
        lemma_drop_first_words(ts);
        match ts[0] {
            TokenView::NewLine => {
                lemma_statements_words(rest);
            },
            TokenView::LeftBrace => {
                lemma_statements_words(rest);
                match parse_statements_spec(rest) {
                    Ok((_, after)) => {
                        if after.len() < ts.len() {
                            lemma_statements_words(after);
                        }
                    },
                    Err(_) => {},
                }
            },
            TokenView::Keyword(Keyword::Exit) => {
                if rest.len() > 0 {
                    lemma_drop_first_words(rest);
                    lemma_statements_words(rest.drop_first());
                }
            },
            TokenView::Keyword(Keyword::Return) => {
                if rest.len() > 0 {
                    lemma_drop_first_words(rest);
                    lemma_statements_words(rest.drop_first());
                }
            },
            TokenView::Identifier(_) => {
                if rest.len() >= 2 {
                    lemma_drop_first_words(rest);
                    lemma_drop_first_words(rest.drop_first());
                    lemma_statements_words(rest.drop_first().drop_first());
                }
            },
            _ => {},
        }
    }
}

/// The name that a function header gives is a word, and what is left behind
/// the header is made of words, where all tokens are.
pub proof fn lemma_signature_words(ts: Seq<TokenView>)
    requires
        all_words(ts),
    ensures
        parse_signature_spec(ts) matches Ok((name, _, rest)) ==> identifier_word(name)
            && all_words(rest),
{
    if ts.len() >= 4 {
        let after_keyword = ts.drop_first();
        lemma_drop_first_words(ts);
        assert(after_keyword[0] == ts[1]);
        let after_name = after_keyword.drop_first();
        lemma_drop_first_words(after_keyword);
        let after_open = after_name.drop_first();
        lemma_drop_first_words(after_name);
        let after_close = after_open.drop_first();
        lemma_drop_first_words(after_open);
        if after_close.len() > 0 {
            let after_arrow = after_close.drop_first();
            lemma_drop_first_words(after_close);
            if after_arrow.len() > 0 {
                lemma_drop_first_words(after_arrow);
                lemma_expect_words(after_arrow.drop_first(), TokenView::RightParentheses);
            }
        }
    }
}

/// The names of the functions that a parse yields are words, where all
/// tokens are: every character of a name may stand in an identifier.
pub proof fn lemma_parsed_names_are_words(ts: Seq<TokenView>, taken: Set<Seq<char>>)
    requires
        all_words(ts),
    ensures
        parse_root_spec(ts, taken) matches Ok(fs) ==> forall|i: int|
            0 <= i < fs.len() ==> identifier_word((#[trigger] fs[i]).name),
    decreases ts.len(),
{
    let start = skip_newlines_spec(ts);
    lemma_leading_newlines_bound(ts);
    assert forall|i: int| 0 <= i < start.len() implies ((#[trigger] start[i]) matches TokenView::Identifier(
        w,
    ) ==> identifier_word(w)) by {
        assert(start[i] == ts[i + leading_newlines(ts)]);
    }
    if start.len() > 0 {
        match parse_definition_spec(start, taken) {
            Ok((f, rest)) => {
                lemma_definition_consumes(start, taken);
                lemma_signature_words(start);
                let after_header = parse_signature_spec(start)->Ok_0.2;
                lemma_expect_words(after_header, TokenView::LeftBrace);
                if after_header.len() > 0 {
                    lemma_statements_words(after_header.drop_first());
                }
                lemma_parsed_names_are_words(rest, taken.insert(f.name));
                match parse_root_spec(rest, taken.insert(f.name)) {
                    Ok(more) => {
                        let fs = seq![f] + more;
                        assert forall|i: int| 0 <= i < fs.len() implies identifier_word(
                            (#[trigger] fs[i]).name,
                        ) by {
                            if i > 0 {
                                assert(fs[i] == more[i - 1]);
                            }
                        }
                    },
                    Err(_) => {},
                }
            },
            Err(_) => {},
        }
    }
}

} // verus!

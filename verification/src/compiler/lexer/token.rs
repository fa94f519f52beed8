//! Tokens, the output of the lexer.

use vstd::prelude::*;
use vstd::string::*;

verus! {

/// A reserved word of the language.
#[derive(Debug, Copy, Clone, PartialEq, Eq, Structural)]
pub enum Keyword {
    Fun,
    Exit,
    Int,
    Return,
}

/// The keyword that a word spells, if it spells one.
pub open spec fn keyword_of(word: Seq<char>) -> Option<Keyword> {
    if word == "function"@ {
        Some(Keyword::Fun)
    } else if word == "exit"@ {
        Some(Keyword::Exit)
    } else if word == "int"@ {
        Some(Keyword::Int)
    } else if word == "return"@ {
        Some(Keyword::Return)
    } else {
        None
    }
}

/// Whether two string slices hold the same characters.
pub fn str_eq(a: &str, b: &str) -> (r: bool)
    ensures
        r == (a@ == b@),
{
    let n: usize = a.unicode_len();
    if n != b.unicode_len() {
        return false;
    }
    let mut i: usize = 0;
    while i < n
        invariant
            n == a@.len(),
            n == b@.len(),
            i <= n,
            forall|j: int| 0 <= j < i ==> a@[j] == b@[j],
        decreases n - i,
    {
        if a.get_char(i) != b.get_char(i) {
            return false;
        }
        i += 1;
    }
    assert(a@ =~= b@);
    true
}

impl Keyword {
    /// Recognizes a keyword by its spelling.
    pub fn try_from_str(s: &str) -> (r: Option<Keyword>)
        ensures
            r == keyword_of(s@),
    {
        if str_eq(s, "function") {
            Some(Keyword::Fun)
        } else if str_eq(s, "exit") {
            Some(Keyword::Exit)
        } else if str_eq(s, "int") {
            Some(Keyword::Int)
        } else if str_eq(s, "return") {
            Some(Keyword::Return)
        } else {
            None
        }
    }
}

/// One lexical unit of the source text.
#[derive(Debug, PartialEq, Eq)]
pub enum Token {
    Keyword(Keyword),
    Identifier(String),
    Number(u32),
    LeftBrace,
    RightBrace,
    LeftParentheses,
    RightParentheses,
    LeftSquareBracket,
    RightSquareBracket,
    NewLine,
    RightArrow,
}

/// The mathematical value of a [`Token`]: an identifier is its sequence of
/// characters.
pub ghost enum TokenView {
    Keyword(Keyword),
    Identifier(Seq<char>),
    Number(u32),
    LeftBrace,
    RightBrace,
    LeftParentheses,
    RightParentheses,
    LeftSquareBracket,
    RightSquareBracket,
    NewLine,
    RightArrow,
}

impl View for Token {
    type V = TokenView;

    open spec fn view(&self) -> TokenView {
        match *self {
            Token::Keyword(k) => TokenView::Keyword(k),
            Token::Identifier(name) => TokenView::Identifier(name@),
            Token::Number(n) => TokenView::Number(n),
            Token::LeftBrace => TokenView::LeftBrace,
            Token::RightBrace => TokenView::RightBrace,
            Token::LeftParentheses => TokenView::LeftParentheses,
            Token::RightParentheses => TokenView::RightParentheses,
            Token::LeftSquareBracket => TokenView::LeftSquareBracket,
            Token::RightSquareBracket => TokenView::RightSquareBracket,
            Token::NewLine => TokenView::NewLine,
            Token::RightArrow => TokenView::RightArrow,
        }
    }
}

/// The views of a sequence of tokens, in order.
pub open spec fn tokens_view(tokens: Seq<Token>) -> Seq<TokenView> {
    Seq::new(tokens.len(), |i: int| tokens[i]@)
}

/// The view of a token that may be missing.
pub open spec fn token_option_view(t: Option<Token>) -> Option<TokenView> {
    match t {
        Some(t) => Some(t@),
        None => None,
    }
}

impl Token {
    /// Whether two tokens are the same: of the same kind, and with the same
    /// keyword, name or number.
    pub fn same(&self, other: &Token) -> (r: bool)
        ensures
            r == (self@ == other@),
    {
        match (self, other) {
            (Token::Keyword(a), Token::Keyword(b)) => *a == *b,
            (Token::Identifier(a), Token::Identifier(b)) => str_eq(a.as_str(), b.as_str()),
            (Token::Number(a), Token::Number(b)) => *a == *b,
            (Token::LeftBrace, Token::LeftBrace) => true,
            (Token::RightBrace, Token::RightBrace) => true,
            (Token::LeftParentheses, Token::LeftParentheses) => true,
            (Token::RightParentheses, Token::RightParentheses) => true,
            (Token::LeftSquareBracket, Token::LeftSquareBracket) => true,
            (Token::RightSquareBracket, Token::RightSquareBracket) => true,
            (Token::NewLine, Token::NewLine) => true,
            (Token::RightArrow, Token::RightArrow) => true,
            _ => false,
        }
    }

    /// A copy of this token.
    pub fn duplicate(&self) -> (r: Token)
        ensures
            r@ == self@,
    {
        match self {
            Token::Keyword(k) => Token::Keyword(*k),
            Token::Identifier(name) => Token::Identifier(name.clone()),
            Token::Number(n) => Token::Number(*n),
            Token::LeftBrace => Token::LeftBrace,
            Token::RightBrace => Token::RightBrace,
            Token::LeftParentheses => Token::LeftParentheses,
            Token::RightParentheses => Token::RightParentheses,
            Token::LeftSquareBracket => Token::LeftSquareBracket,
            Token::RightSquareBracket => Token::RightSquareBracket,
            Token::NewLine => Token::NewLine,
            Token::RightArrow => Token::RightArrow,
        }
    }
}

} // verus!

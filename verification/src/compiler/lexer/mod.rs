//! The lexer: source text to a flat sequence of tokens.
//!
//! The scan runs left to right without backtracking. Each step skips
//! insignificant whitespace and then consumes exactly one unit: an identifier
//! run, a number run, or a punctuation mark of one or two characters. Line
//! breaks are tokens of their own, because the grammar uses them to end
//! statements.

use vstd::prelude::*;
use vstd::std_specs::iter::IteratorSpec;
use vstd::string::*;

use crate::compiler::lexer::token::{keyword_of, tokens_view, Keyword, Token, TokenView};

pub mod token;

verus! {

/// A character of the ASCII range.
pub open spec fn is_ascii(c: char) -> bool {
    c <= '\u{7f}'
}

/// A letter of the ASCII range.
pub open spec fn is_ascii_letter(c: char) -> bool {
    ('a' <= c && c <= 'z') || ('A' <= c && c <= 'Z')
}

/// A decimal digit.
pub open spec fn is_digit(c: char) -> bool {
    '0' <= c && c <= '9'
}

/// Whether `c` has the Unicode property `White_Space`: the characters from
/// the tabulator to the carriage return, the space, the next-line character,
/// the no-break space, and the spaces and separators beyond them.
pub open spec fn white_space(c: char) -> bool {
    ||| ('\u{9}' <= c && c <= '\u{d}')
    ||| c == ' '
    ||| c == '\u{85}'
    ||| c == '\u{a0}'
    ||| c == '\u{1680}'
    ||| ('\u{2000}' <= c && c <= '\u{200a}')
    ||| c == '\u{2028}'
    ||| c == '\u{2029}'
    ||| c == '\u{202f}'
    ||| c == '\u{205f}'
    ||| c == '\u{3000}'
}

/// Whether a character beyond the ASCII range has the Unicode property
/// `Alphabetic`.
pub uninterp spec fn unicode_alphabetic(c: char) -> bool;

/// Whether a character beyond the ASCII range is in one of the Unicode
/// number categories: a decimal digit, a letter-like number, or another
/// numeric character. This is what `char::is_numeric` answers there.
pub uninterp spec fn unicode_numeric(c: char) -> bool;

/// Whether `c` has the Unicode property `Alphabetic`. In the ASCII range
/// these are the letters.
pub open spec fn alphabetic(c: char) -> bool {
    if is_ascii(c) {
        is_ascii_letter(c)
    } else {
        unicode_alphabetic(c)
    }
}

/// Whether `c` is in one of the Unicode number categories. In the ASCII
/// range these are the decimal digits.
pub open spec fn numeric(c: char) -> bool {
    if is_ascii(c) {
        is_digit(c)
    } else {
        unicode_numeric(c)
    }
}

/// `char::is_whitespace` of the standard library says whether the character
/// has the Unicode property `White_Space`.
pub assume_specification[ char::is_whitespace ](c: char) -> (r: bool)
    ensures
        r == white_space(c),
;

/// `char::is_alphabetic` of the standard library says whether the character
/// has the Unicode property `Alphabetic`. Beyond the ASCII range the answer
/// is read from the Unicode character tables, which are not restated here:
/// there the contract only gives the answer a name.
pub assume_specification[ char::is_alphabetic ](c: char) -> (r: bool)
    ensures
        r == (if is_ascii(c) {
            is_ascii_letter(c)
        } else {
            unicode_alphabetic(c)
        }),
;

/// `char::is_alphanumeric` of the standard library holds of the characters
/// of which `char::is_alphabetic` or `char::is_numeric` holds. Beyond the
/// ASCII range the answer of the latter is read from the Unicode character
/// tables as well, and has a name there for that reason.
pub assume_specification[ char::is_alphanumeric ](c: char) -> (r: bool)
    ensures
        r == (alphabetic(c) || (if is_ascii(c) {
            is_digit(c)
        } else {
            unicode_numeric(c)
        })),
;

/// `String::push` of the standard library appends one character to the end of
/// the string.
pub assume_specification[ String::push ](s: &mut String, c: char)
    ensures
        final(s)@ == old(s)@.push(c),
;

/// Why a source text could not be tokenized.
#[derive(Debug, Copy, Clone, PartialEq, Eq, Structural)]
pub enum LexError {
    /// A character that starts no token.
    InvalidCharacter(char),
    /// The second character of a two-character unit is wrong: `-` must be
    /// followed by `>`, and a carriage return by a line feed.
    UnexpectedCharacter { expected: char, found: char },
    /// The text ends where the second character of a two-character unit is
    /// due.
    UnexpectedEnd { expected: char },
    /// A run of digits whose value does not fit in 32 bits.
    NumberTooLarge,
}

/// Whitespace that separates tokens without being one: all of it except the
/// two line-break characters.
pub open spec fn is_skippable(c: char) -> bool {
    white_space(c) && c != '\n' && c != '\r'
}

/// A character that may follow the first one of an identifier.
pub open spec fn is_identifier_part(c: char) -> bool {
    alphabetic(c) || numeric(c) || c == '_'
}

/// The length of the longest prefix of `s` whose characters all satisfy `p`.
pub open spec fn run_len(s: Seq<char>, p: spec_fn(char) -> bool) -> nat
    decreases s.len(),
{
    if s.len() > 0 && p(s[0]) {
        1 + run_len(s.drop_first(), p)
    } else {
        0
    }
}

/// The number that a sequence of decimal digits denotes.
pub open spec fn digits_value(s: Seq<char>) -> nat
    decreases s.len(),
{
    if s.len() == 0 {
        0
    } else {
        digits_value(s.drop_last()) * 10 + (s.last() as u32 - '0' as u32) as nat
    }
}

/// `s` without its leading insignificant whitespace.
pub open spec fn skip_whitespace(s: Seq<char>) -> Seq<char> {
    s.skip(run_len(s, |c: char| is_skippable(c)) as int)
}

/// The token that a word spells: a keyword, or else an identifier.
pub open spec fn word_token(word: Seq<char>) -> TokenView {
    match keyword_of(word) {
        Some(k) => TokenView::Keyword(k),
        None => TokenView::Identifier(word),
    }
}

/// Consuming one character that has to be `expected`: the outcome, and the
/// text that is left. A wrong character is consumed all the same.
pub open spec fn expect_spec(s: Seq<char>, expected: char) -> (Result<(), LexError>, Seq<char>) {
    if s.len() == 0 {
        (Err(LexError::UnexpectedEnd { expected }), s)
    } else if s[0] == expected {
        (Ok(()), s.drop_first())
    } else {
        (Err(LexError::UnexpectedCharacter { expected, found: s[0] }), s.drop_first())
    }
}

/// Reading an identifier at the start of `s`, if one starts there: its
/// characters, and the text that is left.
pub open spec fn read_identifier_spec(s: Seq<char>) -> (Option<Seq<char>>, Seq<char>) {
    if s.len() > 0 && alphabetic(s[0]) {
        let n = 1 + run_len(s.drop_first(), |c: char| is_identifier_part(c));
        (Some(s.take(n as int)), s.skip(n as int))
    } else {
        (None, s)
    }
}

/// Reading a number at the start of `s`, if one starts there: its value, and
/// the text that is left. The whole run of digits is consumed even when its
/// value is too large.
pub open spec fn read_number_spec(s: Seq<char>) -> (Result<Option<u32>, LexError>, Seq<char>) {
    if s.len() > 0 && is_digit(s[0]) {
        let n = run_len(s, |c: char| is_digit(c));
        let value = digits_value(s.take(n as int));
        if value <= u32::MAX {
            (Ok(Some(value as u32)), s.skip(n as int))
        } else {
            (Err(LexError::NumberTooLarge), s.skip(n as int))
        }
    } else {
        (Ok(None), s)
    }
}

/// Reading a punctuation token whose first character `c` has been consumed
/// already, with `s` the text after it.
pub open spec fn read_punctuation_spec(c: char, s: Seq<char>) -> (
    Result<Option<TokenView>, LexError>,
    Seq<char>,
) {
    if c == '[' {
        (Ok(Some(TokenView::LeftSquareBracket)), s)
    } else if c == ']' {
        (Ok(Some(TokenView::RightSquareBracket)), s)
    } else if c == '(' {
        (Ok(Some(TokenView::LeftParentheses)), s)
    } else if c == ')' {
        (Ok(Some(TokenView::RightParentheses)), s)
    } else if c == '{' {
        (Ok(Some(TokenView::LeftBrace)), s)
    } else if c == '}' {
        (Ok(Some(TokenView::RightBrace)), s)
    } else if c == ';' || c == '\n' {
        (Ok(Some(TokenView::NewLine)), s)
    } else if c == '-' {
        match expect_spec(s, '>') {
            (Ok(_), rest) => (Ok(Some(TokenView::RightArrow)), rest),
            (Err(e), rest) => (Err(e), rest),
        }
    } else if c == '\r' {
        match expect_spec(s, '\n') {
            (Ok(_), rest) => (Ok(Some(TokenView::NewLine)), rest),
            (Err(e), rest) => (Err(e), rest),
        }
    } else {
        (Err(LexError::InvalidCharacter(c)), s)
    }
}

/// One step of the scan on the text `s`: the next token (`None` at the end of
/// the text) or the error, and the text that is left after the step.
pub open spec fn next_token_spec(s: Seq<char>) -> (Result<Option<TokenView>, LexError>, Seq<char>) {
    let s = skip_whitespace(s);
    match read_identifier_spec(s) {
        (Some(word), rest) => (Ok(Some(word_token(word))), rest),
        (None, _) => match read_number_spec(s) {
            (Ok(Some(n)), rest) => (Ok(Some(TokenView::Number(n))), rest),
            (Err(e), rest) => (Err(e), rest),
            (Ok(None), _) => if s.len() == 0 {
                (Ok(None), s)
            } else {
                read_punctuation_spec(s[0], s.drop_first())
            },
        },
    }
}

/// The tokens of the text `s`, or the first error of the scan.
pub open spec fn lex(s: Seq<char>) -> Result<Seq<TokenView>, LexError>
    decreases s.len(),
{
    match next_token_spec(s) {
        (Err(e), _) => Err(e),
        (Ok(None), _) => Ok(Seq::empty()),
        (Ok(Some(t)), rest) => {
            proof {
                lemma_step_consumes(s);
            }
            match lex(rest) {
                Ok(ts) => Ok(seq![t] + ts),
                Err(e) => Err(e),
            }
        },
    }
}

/// The tokens `done`, followed by the outcome `rest` of scanning what comes
/// after them.
pub open spec fn prepend_tokens(done: Seq<TokenView>, rest: Result<Seq<TokenView>, LexError>) -> Result<
    Seq<TokenView>,
    LexError,
> {
    match rest {
        Ok(ts) => Ok(done + ts),
        Err(e) => Err(e),
    }
}

/// The mathematical value of the outcome of one step of the scan.
pub open spec fn step_view(r: Result<Option<Token>, LexError>) -> Result<Option<TokenView>, LexError> {
    match r {
        Ok(Some(t)) => Ok(Some(t@)),
        Ok(None) => Ok(None),
        Err(e) => Err(e),
    }
}

/// The characters of an identifier that was read, if one was.
pub open spec fn word_view(r: Option<String>) -> Option<Seq<char>> {
    match r {
        Some(w) => Some(w@),
        None => None,
    }
}

/// A prefix of `n` characters that all satisfy `p`, ended by the end of the
/// text or by a character that does not, is the longest such prefix.
pub proof fn lemma_run_len(s: Seq<char>, p: spec_fn(char) -> bool, n: nat)
    requires
        n <= s.len(),
        forall|i: int| 0 <= i < n ==> p(#[trigger] s[i]),
        n == s.len() || !p(s[n as int]),
    ensures
        run_len(s, p) == n,
    decreases n,
{
    if n > 0 {
        let t = s.drop_first();
        assert forall|i: int| 0 <= i < n - 1 implies p(#[trigger] t[i]) by {
            assert(t[i] == s[i + 1]);
        }
        lemma_run_len(t, p, (n - 1) as nat);
    }
}

/// A run is never longer than the text.
pub proof fn lemma_run_len_bound(s: Seq<char>, p: spec_fn(char) -> bool)
    ensures
        run_len(s, p) <= s.len(),
    decreases s.len(),
{
    if s.len() > 0 && p(s[0]) {
        lemma_run_len_bound(s.drop_first(), p);
    }
}

/// A step that yields a token consumes at least one character.
pub proof fn lemma_step_consumes(s: Seq<char>)
    ensures
        next_token_spec(s).0 matches Ok(Some(_)) ==> next_token_spec(s).1.len() < s.len(),
{
    lemma_run_len_bound(s, |c: char| is_skippable(c));
    let t = skip_whitespace(s);
    if t.len() > 0 {
        lemma_run_len_bound(t.drop_first(), |c: char| is_identifier_part(c));
        lemma_run_len_bound(t, |c: char| is_digit(c));
    }
}

/// Whether every character of the word may stand in an identifier.
pub open spec fn identifier_word(w: Seq<char>) -> bool {
    forall|k: int| 0 <= k < w.len() ==> is_identifier_part(#[trigger] w[k])
}

/// Whether every identifier among the tokens is made of characters that may
/// stand in an identifier.
pub open spec fn all_words(ts: Seq<TokenView>) -> bool {
    forall|i: int|
        0 <= i < ts.len() ==> ((#[trigger] ts[i]) matches TokenView::Identifier(w)
            ==> identifier_word(w))
}

/// Every character of a run satisfies the predicate of the run.
pub proof fn lemma_run_holds(s: Seq<char>, p: spec_fn(char) -> bool)
    ensures
        forall|i: int| 0 <= i < run_len(s, p) ==> p(#[trigger] s[i]),
    decreases s.len(),
{
    if s.len() > 0 && p(s[0]) {
        let t = s.drop_first();
        lemma_run_holds(t, p);
        lemma_run_len_bound(t, p);
        assert forall|i: int| 0 <= i < run_len(s, p) implies p(#[trigger] s[i]) by {
            if i > 0 {
                assert(s[i] == t[i - 1]);
            }
        }
    }
}

/// An identifier that a step of the scan yields is made of characters that
/// may stand in an identifier.
pub proof fn lemma_step_yields_word(s: Seq<char>)
    ensures
        next_token_spec(s).0 matches Ok(Some(TokenView::Identifier(w))) ==> identifier_word(w),
{
    let t = skip_whitespace(s);
    if t.len() > 0 && alphabetic(t[0]) {
        let rest = t.drop_first();
        let p = |c: char| is_identifier_part(c);
        lemma_run_holds(rest, p);
        lemma_run_len_bound(rest, p);
        let n = 1 + run_len(rest, p);
        let word = t.take(n as int);
        assert forall|k: int| 0 <= k < word.len() implies is_identifier_part(
            #[trigger] word[k],
        ) by {
            if k > 0 {
                assert(word[k] == rest[k - 1]);
            }
        }
    }
}

/// Every identifier among the tokens of a text is made of characters that
/// may stand in an identifier.
pub proof fn lemma_lexed_words(s: Seq<char>)
    ensures
        lex(s) matches Ok(ts) ==> all_words(ts),
    decreases s.len(),
{
    match next_token_spec(s) {
        (Ok(Some(t)), rest) => {
            lemma_step_consumes(s);
            lemma_step_yields_word(s);
            lemma_lexed_words(rest);
            match lex(rest) {
                Ok(more) => {
                    let ts = seq![t] + more;
                    assert forall|i: int| 0 <= i < ts.len() implies ((#[trigger] ts[i]) matches TokenView::Identifier(
                        w,
                    ) ==> identifier_word(w)) by {
                        if i > 0 {
                            assert(ts[i] == more[i - 1]);
                        }
                    }
                },
                Err(_) => {},
            }
        },
        _ => {},
    }
}

/// A scanner over the characters of a source text.
pub struct Lexer {
    chars: Vec<char>,
    pos: usize,
}

impl View for Lexer {
    type V = Seq<char>;

    /// The text that has not been consumed yet.
    closed spec fn view(&self) -> Seq<char> {
        self.chars@.skip(self.pos as int)
    }
}

impl Lexer {
    #[verifier::type_invariant]
    spec fn in_bounds(self) -> bool {
        self.pos <= self.chars.len()
    }

    /// A scanner at the start of `src`.
    pub fn new(src: &str) -> (lexer: Lexer)
        ensures
            lexer@ == src@,
    {
        let mut chars: Vec<char> = Vec::new();
        let mut it = src.chars();
        loop
            invariant
                chars@ + it.remaining() == src@,
                it.decrease() is Some,
            ensures
                chars@ == src@,
            decreases it.decrease()->0,
        {
            broadcast use vstd::string::next_postcondition;

            match it.next() {
                Some(c) => {
                    chars.push(c);
                },
                None => {
                    assert(chars@ =~= src@);
                    break ;
                },
            }
        }
        Lexer { chars, pos: 0 }
    }

    fn peek_char(&self) -> (c: Option<char>)
        ensures
            c == (if self@.len() > 0 {
                Some(self@[0])
            } else {
                None
            }),
    {
        proof {
            use_type_invariant(self);
        }
        if self.pos < self.chars.len() {
            Some(self.chars[self.pos])
        } else {
            None
        }
    }

    fn eat_char(&mut self) -> (c: Option<char>)
        ensures
            old(self)@.len() > 0 ==> c == Some(old(self)@[0]) && final(self)@ == old(self)@.drop_first(),
            old(self)@.len() == 0 ==> c.is_none() && final(self)@ == old(self)@,
    {
        proof {
            use_type_invariant(&*self);
        }
        if self.pos < self.chars.len() {
            let c = self.chars[self.pos];
            self.pos += 1;
            assert(self@ =~= old(self)@.drop_first());
            Some(c)
        } else {
            None
        }
    }

    fn expect_char(&mut self, expected: char) -> (r: Result<(), LexError>)
        ensures
            (r, final(self)@) == expect_spec(old(self)@, expected),
    {
        match self.eat_char() {
            Some(c) => {
                if c == expected {
                    Ok(())
                } else {
                    Err(LexError::UnexpectedCharacter { expected, found: c })
                }
            },
            None => Err(LexError::UnexpectedEnd { expected }),
        }
    }

    fn skip_whitespaces(&mut self)
        ensures
            final(self)@ == skip_whitespace(old(self)@),
    {
        proof {
            use_type_invariant(&*self);
        }
        let ghost start = self.pos;
        let ghost p = |c: char| is_skippable(c);
        while self.pos < self.chars.len() && self.chars[self.pos].is_whitespace()
            && self.chars[self.pos] != '\n' && self.chars[self.pos] != '\r'
            invariant
                self.chars == old(self).chars,
                start == old(self).pos,
                start <= self.pos <= self.chars.len(),
                forall|i: int| start <= i < self.pos ==> is_skippable(#[trigger] self.chars@[i]),
            decreases self.chars.len() - self.pos,
        {
            self.pos += 1;
        }
        proof {
            let s = old(self)@;
            let n = (self.pos - start) as nat;
            assert forall|i: int| 0 <= i < n implies p(#[trigger] s[i]) by {
                assert(s[i] == self.chars@[start + i]);
            }
            lemma_run_len(s, p, n);
            assert(self@ =~= s.skip(n as int));
        }
    }

    fn try_read_number(&mut self) -> (r: Result<Option<u32>, LexError>)
        ensures
            (r, final(self)@) == read_number_spec(old(self)@),
    {
        proof {
            use_type_invariant(&*self);
        }
        let start: usize = self.pos;
        let ghost s = self@;
        let ghost p = |c: char| is_digit(c);
        let mut value: u32 = 0;
        let mut too_large = false;
        while self.pos < self.chars.len() && '0' <= self.chars[self.pos] && self.chars[self.pos]
            <= '9'
            invariant
                self.chars == old(self).chars,
                start == old(self).pos,
                s == old(self)@,
                start <= self.pos <= self.chars.len(),
                forall|i: int| start <= i < self.pos ==> is_digit(#[trigger] self.chars@[i]),
                !too_large ==> value == digits_value(s.take(self.pos - start)),
                too_large ==> digits_value(s.take(self.pos - start)) > u32::MAX,
            decreases self.chars.len() - self.pos,
        {
            let c = self.chars[self.pos];
            let digit: u32 = c as u32 - '0' as u32;
            proof {
                let before = s.take(self.pos - start);
                let after = s.take(self.pos - start + 1);
                assert(after.drop_last() =~= before);
                assert(after.last() == c);
            }
            if !too_large {
                if value > (u32::MAX - digit) / 10 {
                    too_large = true;
                } else {
                    value = value * 10 + digit;
                }
            }
            self.pos += 1;
        }
        proof {
            let n = (self.pos - start) as nat;
            assert forall|i: int| 0 <= i < n implies p(#[trigger] s[i]) by {
                assert(s[i] == self.chars@[start + i]);
            }
            lemma_run_len(s, p, n);
            assert(self@ =~= s.skip(n as int));
            if n == 0 {
                assert(self@ =~= s);
            }
        }
        if self.pos == start {
            Ok(None)
        } else if too_large {
            Err(LexError::NumberTooLarge)
        } else {
            Ok(Some(value))
        }
    }

    fn try_read_identifier(&mut self) -> (r: Option<String>)
        ensures
            (word_view(r), final(self)@) == read_identifier_spec(old(self)@),
    {
        proof {
            use_type_invariant(&*self);
        }
        let start: usize = self.pos;
        let ghost s = self@;
        let ghost p = |c: char| is_identifier_part(c);
        if self.pos < self.chars.len() && self.chars[self.pos].is_alphabetic() {
            let mut identifier = String::new();
            identifier.push(self.chars[self.pos]);
            self.pos += 1;
            assert(identifier@ =~= s.take(1));
            while self.pos < self.chars.len() && (self.chars[self.pos].is_alphanumeric()
                || self.chars[self.pos] == '_')
                invariant
                    self.chars == old(self).chars,
                    start == old(self).pos,
                    s == old(self)@,
                    start < self.pos <= self.chars.len(),
                    forall|i: int|
                        start < i < self.pos ==> is_identifier_part(#[trigger] self.chars@[i]),
                    identifier@ == s.take(self.pos - start),
                decreases self.chars.len() - self.pos,
            {
                identifier.push(self.chars[self.pos]);
                self.pos += 1;
                assert(identifier@ =~= s.take(self.pos - start));
            }
            proof {
                let t = s.drop_first();
                let n = (self.pos - start - 1) as nat;
                assert forall|i: int| 0 <= i < n implies p(#[trigger] t[i]) by {
                    assert(t[i] == self.chars@[start + 1 + i]);
                }
                if n < t.len() {
                    assert(t[n as int] == self.chars@[self.pos as int]);
                }
                lemma_run_len(t, p, n);
                assert(self@ =~= s.skip((n + 1) as int));
            }
            Some(identifier)
        } else {
            None
        }
    }

    /// Scans the next token. `Ok(None)` says that the text has ended.
    pub fn next_token(&mut self) -> (r: Result<Option<Token>, LexError>)
        ensures
            (step_view(r), final(self)@) == next_token_spec(old(self)@),
    {
        self.skip_whitespaces();
        if let Some(identifier_name) = self.try_read_identifier() {
            let token = match Keyword::try_from_str(identifier_name.as_str()) {
                Some(keyword) => Token::Keyword(keyword),
                None => Token::Identifier(identifier_name),
            };
            return Ok(Some(token));
        }
        match self.try_read_number() {
            Err(e) => {
                return Err(e);
            },
            Ok(Some(number)) => {
                return Ok(Some(Token::Number(number)));
            },
            Ok(None) => {},
        }
        let c = match self.eat_char() {
            Some(c) => c,
            None => {
                return Ok(None);
            },
        };
        if c == '[' {
            Ok(Some(Token::LeftSquareBracket))
        } else if c == ']' {
            Ok(Some(Token::RightSquareBracket))
        } else if c == '(' {
            Ok(Some(Token::LeftParentheses))
        } else if c == ')' {
            Ok(Some(Token::RightParentheses))
        } else if c == '{' {
            Ok(Some(Token::LeftBrace))
        } else if c == '}' {
            Ok(Some(Token::RightBrace))
        } else if c == ';' || c == '\n' {
            Ok(Some(Token::NewLine))
        } else if c == '-' {
            match self.expect_char('>') {
                Ok(_) => Ok(Some(Token::RightArrow)),
                Err(e) => Err(e),
            }
        } else if c == '\r' {
            match self.expect_char('\n') {
                Ok(_) => Ok(Some(Token::NewLine)),
                Err(e) => Err(e),
            }
        } else {
            Err(LexError::InvalidCharacter(c))
        }
    }
}

/// Splits a source text into its tokens.
///
/// The result is the whole token sequence of the text, or the first error
/// that the scan runs into.
pub fn tokenize(src: &str) -> (r: Result<Vec<Token>, LexError>)
    ensures
        match r {
            Ok(tokens) => lex(src@) == Ok::<Seq<TokenView>, LexError>(tokens_view(tokens@)),
            Err(e) => lex(src@) == Err::<Seq<TokenView>, LexError>(e),
        },
{
    let mut lexer = Lexer::new(src);
    let mut tokens: Vec<Token> = Vec::new();
    assert(tokens_view(tokens@) + Seq::<TokenView>::empty() =~= Seq::<TokenView>::empty());
    assert(tokens_view(tokens@) =~= Seq::<TokenView>::empty());
    loop
        invariant
            lex(src@) == prepend_tokens(tokens_view(tokens@), lex(lexer@)),
        decreases lexer@.len(),
    {
        let ghost before = lexer@;
        let ghost done = tokens_view(tokens@);
        proof {
            lemma_step_consumes(before);
        }
        match lexer.next_token() {
            Err(e) => {
                return Err(e);
            },
            Ok(None) => {
                assert(done + Seq::<TokenView>::empty() =~= done);
                return Ok(tokens);
            },
            Ok(Some(token)) => {
                let ghost t = token@;
                tokens.push(token);
                proof {
                    assert(tokens_view(tokens@) =~= done.push(t));
                    match lex(lexer@) {
                        Ok(ts) => {
                            assert(done + (seq![t] + ts) =~= done.push(t) + ts);
                        },
                        Err(_) => {},
                    }
                }
            },
        }
    }
}

} // verus!

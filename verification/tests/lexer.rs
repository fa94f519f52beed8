use yyn::compiler::lexer::token::{Keyword, Token};
use yyn::compiler::lexer::{tokenize, LexError, Lexer};

#[test]
pub fn empty_src() {
    let tokens = tokenize("").unwrap();

    assert_eq!(tokens.as_slice(), &[]);
}

#[test]
pub fn brackets() {
    let tokens = tokenize("([{}])").unwrap();

    assert_eq!(
        tokens.as_slice(),
        &[
            Token::LeftParentheses,
            Token::LeftSquareBracket,
            Token::LeftBrace,
            Token::RightBrace,
            Token::RightSquareBracket,
            Token::RightParentheses,
        ]
    );
}

#[test]
pub fn identifiers() {
    let tokens = tokenize("some identifier123 a_b").unwrap();

    assert_eq!(
        tokens.as_slice(),
        &[
            Token::Identifier("some".to_owned()),
            Token::Identifier("identifier123".to_owned()),
            Token::Identifier("a_b".to_owned()),
        ]
    );
}

#[test]
fn minimal_program() {
    let tokens = tokenize("function foo() { exit 42 }").unwrap();

    assert_eq!(
        tokens,
        vec![
            Token::Keyword(Keyword::Fun),
            Token::Identifier("foo".to_owned()),
            Token::LeftParentheses,
            Token::RightParentheses,
            Token::LeftBrace,
            Token::Keyword(Keyword::Exit),
            Token::Number(42),
            Token::RightBrace,
        ]
    );
}

#[test]
fn keywords_are_whole_words() {
    assert_eq!(Keyword::try_from_str("function"), Some(Keyword::Fun));
    assert_eq!(Keyword::try_from_str("exit"), Some(Keyword::Exit));
    assert_eq!(Keyword::try_from_str("int"), Some(Keyword::Int));
    assert_eq!(Keyword::try_from_str("return"), Some(Keyword::Return));
    assert_eq!(Keyword::try_from_str("fun"), None);
    assert_eq!(Keyword::try_from_str("functions"), None);
    assert_eq!(Keyword::try_from_str(""), None);

    let tokens = tokenize("int integer returned return").unwrap();
    assert_eq!(
        tokens,
        vec![
            Token::Keyword(Keyword::Int),
            Token::Identifier("integer".to_owned()),
            Token::Identifier("returned".to_owned()),
            Token::Keyword(Keyword::Return),
        ]
    );
}

#[test]
fn line_breaks_are_tokens() {
    let tokens = tokenize("a\nb;c\r\nd \t e").unwrap();

    assert_eq!(
        tokens,
        vec![
            Token::Identifier("a".to_owned()),
            Token::NewLine,
            Token::Identifier("b".to_owned()),
            Token::NewLine,
            Token::Identifier("c".to_owned()),
            Token::NewLine,
            Token::Identifier("d".to_owned()),
            Token::Identifier("e".to_owned()),
        ]
    );
}

#[test]
fn arrow_and_types() {
    let tokens = tokenize("() -> int ->()").unwrap();

    assert_eq!(
        tokens,
        vec![
            Token::LeftParentheses,
            Token::RightParentheses,
            Token::RightArrow,
            Token::Keyword(Keyword::Int),
            Token::RightArrow,
            Token::LeftParentheses,
            Token::RightParentheses,
        ]
    );
}

#[test]
fn numbers() {
    assert_eq!(tokenize("0").unwrap(), vec![Token::Number(0)]);
    assert_eq!(tokenize("007").unwrap(), vec![Token::Number(7)]);
    assert_eq!(tokenize("4294967295").unwrap(), vec![Token::Number(u32::MAX)]);
    assert_eq!(
        tokenize("12ab 3").unwrap(),
        vec![Token::Number(12), Token::Identifier("ab".to_owned()), Token::Number(3)]
    );
}

#[test]
fn number_too_large() {
    assert_eq!(tokenize("4294967296"), Err(LexError::NumberTooLarge));
    assert_eq!(tokenize("exit 99999999999999999999"), Err(LexError::NumberTooLarge));
}

#[test]
fn invalid_character() {
    assert_eq!(tokenize("a + b"), Err(LexError::InvalidCharacter('+')));
    assert_eq!(tokenize("_a"), Err(LexError::InvalidCharacter('_')));
    assert_eq!(tokenize("exit 1 >"), Err(LexError::InvalidCharacter('>')));
}

#[test]
fn malformed_arrow() {
    assert_eq!(
        tokenize("() - int"),
        Err(LexError::UnexpectedCharacter { expected: '>', found: ' ' })
    );
    assert_eq!(tokenize("() -"), Err(LexError::UnexpectedEnd { expected: '>' }));
}

#[test]
fn malformed_line_break() {
    assert_eq!(
        tokenize("a\rb"),
        Err(LexError::UnexpectedCharacter { expected: '\n', found: 'b' })
    );
    assert_eq!(tokenize("a\r"), Err(LexError::UnexpectedEnd { expected: '\n' }));
}

#[test]
fn unicode_identifiers() {
    let tokens = tokenize("größe\u{a0}λ2").unwrap();

    assert_eq!(
        tokens,
        vec![Token::Identifier("größe".to_owned()), Token::Identifier("λ2".to_owned())]
    );
}

#[test]
fn one_token_per_step() {
    let mut lexer = Lexer::new("  exit 3 } ");

    assert_eq!(lexer.next_token(), Ok(Some(Token::Keyword(Keyword::Exit))));
    assert_eq!(lexer.next_token(), Ok(Some(Token::Number(3))));
    assert_eq!(lexer.next_token(), Ok(Some(Token::RightBrace)));
    assert_eq!(lexer.next_token(), Ok(None));
    assert_eq!(lexer.next_token(), Ok(None));
}

#[test]
fn scan_goes_on_after_an_error() {
    let mut lexer = Lexer::new("-x }");

    assert_eq!(
        lexer.next_token(),
        Err(LexError::UnexpectedCharacter { expected: '>', found: 'x' })
    );
    assert_eq!(lexer.next_token(), Ok(Some(Token::RightBrace)));
}

#[test]
fn tokens_compare_by_content() {
    assert!(Token::Identifier("a".to_owned()).same(&Token::Identifier("a".to_owned())));
    assert!(!Token::Identifier("a".to_owned()).same(&Token::Identifier("b".to_owned())));
    assert!(!Token::Number(1).same(&Token::Number(2)));
    assert!(!Token::LeftBrace.same(&Token::RightBrace));
    assert!(Token::Keyword(Keyword::Int).same(&Token::Keyword(Keyword::Int)));
    assert_eq!(Token::Identifier("abc".to_owned()).duplicate(), Token::Identifier("abc".to_owned()));
}

#[test]
fn white_space_is_the_unicode_property() {
    let listed = |c: char| {
        ('\u{9}'..='\u{d}').contains(&c)
            || c == ' '
            || c == '\u{85}'
            || c == '\u{a0}'
            || c == '\u{1680}'
            || ('\u{2000}'..='\u{200a}').contains(&c)
            || c == '\u{2028}'
            || c == '\u{2029}'
            || c == '\u{202f}'
            || c == '\u{205f}'
            || c == '\u{3000}'
    };
    for code in 0..=0x10ffff_u32 {
        if let Some(c) = char::from_u32(code) {
            assert_eq!(c.is_whitespace(), listed(c), "U+{:04X}", code);
        }
    }
}

#[test]
fn ascii_letters_and_digits_are_the_alphanumeric_ones() {
    for code in 0..=0x7f_u32 {
        let c = char::from_u32(code).unwrap();
        let letter = ('a'..='z').contains(&c) || ('A'..='Z').contains(&c);
        let digit = ('0'..='9').contains(&c);
        assert_eq!(c.is_alphabetic(), letter, "U+{:04X}", code);
        assert_eq!(c.is_numeric(), digit, "U+{:04X}", code);
        assert_eq!(c.is_alphanumeric(), letter || digit, "U+{:04X}", code);
    }
}

#[test]
fn every_white_space_separates_tokens() {
    for c in ['\t', '\u{b}', '\u{c}', ' ', '\u{85}', '\u{a0}', '\u{1680}', '\u{2003}', '\u{2028}', '\u{3000}'] {
        let src = format!("a{c}b");
        assert_eq!(
            tokenize(&src),
            Ok(vec![Token::Identifier("a".to_owned()), Token::Identifier("b".to_owned())]),
            "U+{:04X}",
            c as u32
        );
    }
    assert_eq!(tokenize("a\u{200b}b"), Err(LexError::InvalidCharacter('\u{200b}')));
}

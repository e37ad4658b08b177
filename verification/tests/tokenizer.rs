use wkt::error::ParseError;
use wkt::tokenizer::{is_numberlike, is_whitespace, Token, Tokens};

/// A token with its number as a float, to compare with.
#[derive(Debug, PartialEq)]
enum Seen {
    Comma,
    Number(f64),
    ParenClose,
    ParenOpen,
    Word(String),
}

fn seen(tokens: Vec<Token>) -> Vec<Seen> {
    let mut out = Vec::new();
    for token in tokens {
        out.push(match token {
            Token::Comma => Seen::Comma,
            Token::Number(n) => Seen::Number(n.as_str().parse::<f64>().unwrap()),
            Token::ParenClose => Seen::ParenClose,
            Token::ParenOpen => Seen::ParenOpen,
            Token::Word(w) => Seen::Word(w),
        });
    }
    out
}

fn literals(tokens: &[Token]) -> Vec<String> {
    let mut out = Vec::new();
    for token in tokens {
        if let Token::Number(n) = token {
            out.push(n.as_str().to_string());
        }
    }
    out
}

#[test]
fn test_tokenizer_empty() {
    let test_str = "";
    let tokens: Vec<Token> = Tokens::from_str(test_str).collect().unwrap();
    assert_eq!(seen(tokens), vec![]);
}

#[test]
fn test_tokenizer_1word() {
    let test_str = "hello";
    let tokens: Vec<Token> = Tokens::from_str(test_str).collect().unwrap();
    assert_eq!(seen(tokens), vec![Seen::Word("hello".to_string())]);
}

#[test]
fn test_tokenizer_2words() {
    let test_str = "hello world";
    let tokens: Vec<Token> = Tokens::from_str(test_str).collect().unwrap();
    assert_eq!(
        seen(tokens),
        vec![
            Seen::Word("hello".to_string()),
            Seen::Word("world".to_string()),
        ]
    );
}

#[test]
fn test_tokenizer_1number() {
    let test_str = "4.2";
    let tokens: Vec<Token> = Tokens::from_str(test_str).collect().unwrap();
    assert_eq!(seen(tokens), vec![Seen::Number(4.2)]);
}

#[test]
fn test_tokenizer_1number_plus() {
    let test_str = "+4.2";
    let tokens: Vec<Token> = Tokens::from_str(test_str).collect().unwrap();
    assert_eq!(literals(&tokens), vec!["4.2".to_string()]);
    assert_eq!(seen(tokens), vec![Seen::Number(4.2)]);
}

#[test]
fn test_tokenizer_2numbers() {
    let test_str = ".4 -2";
    let tokens: Vec<Token> = Tokens::from_str(test_str).collect().unwrap();
    assert_eq!(seen(tokens), vec![Seen::Number(0.4), Seen::Number(-2.0)]);
}

#[test]
fn test_tokenizer_point() {
    let test_str = "POINT (10 -20)";
    let tokens: Vec<Token> = Tokens::from_str(test_str).collect().unwrap();
    assert_eq!(
        seen(tokens),
        vec![
            Seen::Word("POINT".to_string()),
            Seen::ParenOpen,
            Seen::Number(10.0),
            Seen::Number(-20.0),
            Seen::ParenClose,
        ]
    );
}

#[test]
fn tokenizer_keeps_literals_as_written() {
    let tokens = Tokens::from_str("1.50 -0 007 3. .25").collect().unwrap();
    assert_eq!(literals(&tokens), vec!["1.50", "-0", "007", "3.", ".25"]);
}

#[test]
fn tokenizer_strips_every_leading_plus() {
    let tokens = Tokens::from_str("++7 +-3").collect().unwrap();
    assert_eq!(literals(&tokens), vec!["7", "-3"]);
}

#[test]
fn tokenizer_punctuation_needs_no_whitespace() {
    let tokens = Tokens::from_str("a(1,2)b").collect().unwrap();
    assert_eq!(
        seen(tokens),
        vec![
            Seen::Word("a".to_string()),
            Seen::ParenOpen,
            Seen::Number(1.0),
            Seen::Comma,
            Seen::Number(2.0),
            Seen::ParenClose,
            Seen::Word("b".to_string()),
        ]
    );
}

#[test]
fn tokenizer_whitespace_is_never_a_token() {
    let tokens = Tokens::from_str(" \n\t\r").collect().unwrap();
    assert_eq!(tokens.len(), 0);
}

#[test]
fn tokenizer_word_may_hold_digits_and_signs() {
    let tokens = Tokens::from_str("x1-2.y").collect().unwrap();
    assert_eq!(seen(tokens), vec![Seen::Word("x1-2.y".to_string())]);
}

#[test]
fn tokenizer_malformed_number_is_an_error() {
    for text in ["12.3.4", "-", ".", "+", "1e5", "-inf", "1-2", "--1", "1a", "-+4"] {
        assert_eq!(
            Tokens::from_str(text).collect(),
            Err(ParseError::MalformedNumber),
            "{}",
            text
        );
    }
}

#[test]
fn tokenizer_error_comes_when_the_number_is_reached() {
    let mut tokens = Tokens::from_str("a ( 1.2.3 )");
    assert_eq!(tokens.next(), Ok(Some(Token::Word("a".to_string()))));
    assert_eq!(tokens.next(), Ok(Some(Token::ParenOpen)));
    assert_eq!(tokens.next(), Err(ParseError::MalformedNumber));
    assert_eq!(tokens.next(), Ok(Some(Token::ParenClose)));
    assert_eq!(tokens.next(), Ok(None));
    assert_eq!(tokens.next(), Ok(None));
}

#[test]
fn tokenizer_nul_ends_the_text() {
    let tokens = Tokens::from_str("ab\0cd").collect().unwrap();
    assert_eq!(seen(tokens), vec![Seen::Word("ab".to_string())]);
    let mut tokens = Tokens::from_str("\0 x");
    assert_eq!(tokens.next(), Ok(None));
    assert_eq!(tokens.next(), Ok(None));
}

#[test]
fn tokenizer_unicode_number_starts_a_number() {
    // U+00B2 and U+0663 are numbers to Unicode, and no decimal digits here.
    assert_eq!(
        Tokens::from_str("\u{b2}").collect(),
        Err(ParseError::MalformedNumber)
    );
    assert_eq!(
        Tokens::from_str("\u{663}4").collect(),
        Err(ParseError::MalformedNumber)
    );
    // U+00E9 is a letter: it starts a word.
    let tokens = Tokens::from_str("\u{e9}4").collect().unwrap();
    assert_eq!(seen(tokens), vec![Seen::Word("\u{e9}4".to_string())]);
}

#[test]
fn character_classes() {
    for c in ['\n', '\r', '\t', ' '] {
        assert!(is_whitespace(c));
        assert!(!is_numberlike(c));
    }
    assert!(!is_whitespace('\u{a0}'));
    assert!(!is_whitespace('a'));
    for c in ['0', '5', '9', '.', '-', '+', '\u{b2}', '\u{2167}'] {
        assert!(is_numberlike(c), "{}", c);
    }
    for c in ['a', 'Z', 'e', '(', ',', '_', '\u{e9}'] {
        assert!(!is_numberlike(c), "{}", c);
    }
}

#[test]
fn pop_front_reads_one_character() {
    let mut tokens = Tokens::from_str("ab");
    assert_eq!(tokens.pop_front(), Some('a'));
    assert_eq!(tokens.pop_front(), Some('b'));
    assert_eq!(tokens.pop_front(), None);
    assert_eq!(tokens.pop_front(), None);
}

#[test]
fn read_until_whitespace_stops_at_delimiters() {
    let mut tokens = Tokens::from_str("abc def(ghi,jkl)mno\tp");
    assert_eq!(tokens.read_until_whitespace(), "abc");
    assert_eq!(tokens.read_until_whitespace(), "def");
    assert_eq!(tokens.read_until_whitespace(), "");
    assert_eq!(tokens.pop_front(), Some('('));
    assert_eq!(tokens.read_until_whitespace(), "ghi");
    assert_eq!(tokens.pop_front(), Some(','));
    assert_eq!(tokens.read_until_whitespace(), "jkl");
    assert_eq!(tokens.pop_front(), Some(')'));
    assert_eq!(tokens.read_until_whitespace(), "mno");
    assert_eq!(tokens.read_until_whitespace(), "p");
    assert_eq!(tokens.read_until_whitespace(), "");
    assert_eq!(tokens.pop_front(), None);
}

#[test]
fn at_comma_and_at_end_read_only_whitespace() {
    let mut tokens = Tokens::from_str("  , x ");
    assert!(!tokens.at_end());
    assert!(tokens.at_comma());
    assert!(tokens.at_comma());
    assert_eq!(tokens.next(), Ok(Some(Token::Comma)));
    assert!(!tokens.at_comma());
    assert!(!tokens.at_end());
    assert_eq!(tokens.next(), Ok(Some(Token::Word("x".to_string()))));
    assert!(tokens.at_end());
    assert!(!tokens.at_comma());
    let mut tokens = Tokens::from_str(" 1.2.3");
    assert!(!tokens.at_comma());
    assert!(!tokens.at_end());
}

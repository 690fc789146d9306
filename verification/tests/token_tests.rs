use minilang::token::{Keyword, Literal, Symbol, Token};

#[test]
fn keyword_text() {
    assert_eq!(Keyword::Exit.to_string(), "exit");
}

#[test]
fn literal_text() {
    assert_eq!(Literal::Integer(42).to_string(), "42");
    assert_eq!(Literal::Integer(0).to_string(), "0");
    assert_eq!(Literal::Integer(-7).to_string(), "-7");
    assert_eq!(Literal::Integer(i64::MIN).to_string(), "-9223372036854775808");
    assert_eq!(Literal::Integer(i64::MAX).to_string(), "9223372036854775807");
}

#[test]
fn symbol_text() {
    assert_eq!(Symbol::LeftParen.to_string(), "(");
    assert_eq!(Symbol::RightParen.to_string(), ")");
    assert_eq!(Symbol::Equals.to_string(), "=");
    assert_eq!(Symbol::ColonEquals.to_string(), ":=");
}

#[test]
fn token_accessors() {
    let t = Token::Identifier { val: "abc".to_string(), start: 3, end: 6 };
    assert_eq!(t.start(), 3);
    assert_eq!(t.end(), 6);
    assert_eq!(t.type_to_string(), "Identifier");
    assert_eq!(t.to_string(), "abc");
}

#[test]
fn token_kinds_and_texts() {
    let tokens = vec![
        Token::Keyword { val: Keyword::Exit, start: 0, end: 4 },
        Token::Identifier { val: "x".to_string(), start: 5, end: 6 },
        Token::Literal { val: Literal::Integer(12), start: 7, end: 9 },
        Token::Symbol { val: Symbol::ColonEquals, start: 10, end: 12 },
        Token::Newline { start: 12, end: 13 },
        Token::EOF { start: 13, end: 13 },
    ];
    let kinds: Vec<String> = tokens.iter().map(|t| t.type_to_string()).collect();
    assert_eq!(kinds, ["Keyword", "Identifier", "Literal", "Symbol", "Newline", "EOF"]);
    let texts: Vec<String> = tokens.iter().map(|t| t.to_string()).collect();
    assert_eq!(texts, ["exit", "x", "12", ":=", "<NEWLINE>", "<EOF>"]);
    let starts: Vec<usize> = tokens.iter().map(|t| t.start()).collect();
    assert_eq!(starts, [0, 5, 7, 10, 12, 13]);
    let ends: Vec<usize> = tokens.iter().map(|t| t.end()).collect();
    assert_eq!(ends, [4, 6, 9, 12, 13, 13]);
}

#[test]
fn cloned_token_is_equal() {
    let token = Token::Identifier { val: "name".to_string(), start: 1, end: 5 };
    assert_eq!(token.clone(), token);
    let tokens = vec![token, Token::EOF { start: 5, end: 5 }];
    assert_eq!(tokens.clone(), tokens);
}

use minilang::{Error, Keyword, Lexer, LexerError, Literal, Symbol, Token};

fn lex(source: &str) -> Result<Vec<Token>, LexerError> {
    Lexer::new(source).lex()
}

fn ident(name: &str, start: usize, end: usize) -> Token {
    Token::Identifier { val: name.to_string(), start, end }
}

fn number(value: i64, start: usize, end: usize) -> Token {
    Token::Literal { val: Literal::Integer(value), start, end }
}

fn sym(val: Symbol, start: usize, end: usize) -> Token {
    Token::Symbol { val, start, end }
}

#[test]
fn empty_source_is_one_end_of_input() {
    assert_eq!(lex("").unwrap(), vec![Token::EOF { start: 0, end: 0 }]);
}

#[test]
fn exit_statement_tokens() {
    assert_eq!(
        lex("exit(42)").unwrap(),
        vec![
            Token::Keyword { val: Keyword::Exit, start: 0, end: 4 },
            sym(Symbol::LeftParen, 4, 5),
            number(42, 5, 7),
            sym(Symbol::RightParen, 7, 8),
            Token::EOF { start: 8, end: 8 },
        ]
    );
}

#[test]
fn declaration_and_assignment_tokens() {
    assert_eq!(
        lex("x := 5\nx = 9\n").unwrap(),
        vec![
            ident("x", 0, 1),
            sym(Symbol::ColonEquals, 2, 4),
            number(5, 5, 6),
            Token::Newline { start: 6, end: 7 },
            ident("x", 7, 8),
            sym(Symbol::Equals, 9, 10),
            number(9, 11, 12),
            Token::Newline { start: 12, end: 13 },
            Token::EOF { start: 13, end: 13 },
        ]
    );
}

#[test]
fn blanks_are_skipped_and_newlines_kept() {
    assert_eq!(
        lex(" \t\r\x0C\n  \n").unwrap(),
        vec![
            Token::Newline { start: 4, end: 5 },
            Token::Newline { start: 7, end: 8 },
            Token::EOF { start: 8, end: 8 },
        ]
    );
}

#[test]
fn keywords_are_matched_exactly() {
    assert_eq!(
        lex("exit Exit exits _exit exit1").unwrap(),
        vec![
            Token::Keyword { val: Keyword::Exit, start: 0, end: 4 },
            ident("Exit", 5, 9),
            ident("exits", 10, 15),
            ident("_exit", 16, 21),
            ident("exit1", 22, 27),
            Token::EOF { start: 27, end: 27 },
        ]
    );
}

#[test]
fn identifiers_may_hold_digits_and_underscores() {
    assert_eq!(
        lex("_a1_b2").unwrap(),
        vec![ident("_a1_b2", 0, 6), Token::EOF { start: 6, end: 6 }]
    );
}

#[test]
fn number_may_touch_a_symbol() {
    assert_eq!(
        lex("12=3").unwrap(),
        vec![
            number(12, 0, 2),
            sym(Symbol::Equals, 2, 3),
            number(3, 3, 4),
            Token::EOF { start: 4, end: 4 },
        ]
    );
}

#[test]
fn leading_zeros_keep_their_span() {
    assert_eq!(lex("007").unwrap(), vec![number(7, 0, 3), Token::EOF { start: 3, end: 3 }]);
}

#[test]
fn largest_literal_is_accepted() {
    assert_eq!(
        lex("9223372036854775807").unwrap(),
        vec![number(i64::MAX, 0, 19), Token::EOF { start: 19, end: 19 }]
    );
}

#[test]
fn literal_beyond_64_bits_is_rejected_at_its_start() {
    let err = lex("x := 9223372036854775808").unwrap_err();
    assert_eq!(err.pos(), 5);
    assert_eq!(err.msg(), "Integer literal out of range");
    let err = lex("99999999999999999999999999999999").unwrap_err();
    assert_eq!(err.pos(), 0);
    assert_eq!(err.msg(), "Integer literal out of range");
}

#[test]
fn digits_followed_by_letter_are_rejected() {
    let err = lex("12abc").unwrap_err();
    assert_eq!(err.pos(), 2);
    assert_eq!(err.msg(), "Expected whitespace or symbol after number");
}

#[test]
fn digits_followed_by_underscore_are_rejected() {
    let err = lex("exit(1_000)").unwrap_err();
    assert_eq!(err.pos(), 6);
    assert_eq!(err.msg(), "Expected whitespace or symbol after number");
}

#[test]
fn number_adjacency_is_reported_before_range() {
    let err = lex("99999999999999999999x").unwrap_err();
    assert_eq!(err.pos(), 20);
    assert_eq!(err.msg(), "Expected whitespace or symbol after number");
}

#[test]
fn lone_colon_is_rejected() {
    let err = lex("x : 5").unwrap_err();
    assert_eq!(err.pos(), 2);
    assert_eq!(err.msg(), "Expected '=' after ':'");
}

#[test]
fn colon_at_end_of_input_is_rejected() {
    let err = lex("x :").unwrap_err();
    assert_eq!(err.pos(), 2);
    assert_eq!(err.msg(), "Expected '=' after ':'");
}

#[test]
fn unknown_character_is_rejected() {
    let err = lex("x := 5 + 1").unwrap_err();
    assert_eq!(err.pos(), 7);
    assert_eq!(err.msg(), "Unknown character: +");
}

#[test]
fn character_outside_ascii_is_rejected() {
    let err = lex("ab \u{e9}t\u{e9}").unwrap_err();
    assert_eq!(err.pos(), 3);
    assert_eq!(err.msg(), "Unknown character: \u{e9}");
}

#[test]
fn first_lexical_error_wins() {
    let err = lex("1a : $").unwrap_err();
    assert_eq!(err.pos(), 1);
}

#[test]
fn lexer_error_report_line() {
    let err = lex("x : 5").unwrap_err();
    assert_eq!(err.to_string(), "Lexer error at position 2: Expected '=' after ':'");
}

#[test]
fn lexing_twice_gives_the_same_tokens() {
    let mut lexer = Lexer::new("a := 1\nexit(a)");
    let first = lexer.lex().unwrap();
    let second = lexer.lex().unwrap();
    assert_eq!(first, second);
    assert_eq!(first.len(), 9);
}

#[test]
fn lexing_twice_gives_the_same_error() {
    let mut lexer = Lexer::new("a := 1 ?");
    let first = lexer.lex().unwrap_err();
    let second = lexer.lex().unwrap_err();
    assert_eq!(first.pos(), 7);
    assert_eq!(second.pos(), 7);
    assert_eq!(first.msg(), second.msg());
}

#[test]
fn spans_cut_from_the_source_spell_the_tokens() {
    let source = "total := 0012\n  exit ( total )\nx=total";
    let tokens = lex(source).unwrap();
    let mut last_end = 0;
    for token in &tokens {
        let (start, end) = (token.start(), token.end());
        assert!(last_end <= start && start <= end && end <= source.len());
        assert!(source[last_end..start].chars().all(|c| c == ' '));
        let span = &source[start..end];
        match token {
            Token::Keyword { val, .. } => assert_eq!(span, val.to_string()),
            Token::Identifier { val, .. } => assert_eq!(span, val),
            Token::Literal { val: Literal::Integer(i), .. } => {
                assert_eq!(span.parse::<i64>().unwrap(), *i)
            }
            Token::Symbol { val, .. } => assert_eq!(span, val.to_string()),
            Token::Newline { .. } => assert_eq!(span, "\n"),
            Token::EOF { .. } => {
                assert_eq!(span, "");
                assert_eq!(start, source.len());
            }
        }
        last_end = end;
    }
    assert!(matches!(tokens.last(), Some(Token::EOF { .. })));
    assert_eq!(tokens.iter().filter(|t| matches!(t, Token::EOF { .. })).count(), 1);
}

#[test]
fn digits_inside_a_word_belong_to_the_word() {
    assert_eq!(lex("a1b").unwrap(), vec![ident("a1b", 0, 3), Token::EOF { start: 3, end: 3 }]);
    assert_eq!(
        lex("x12 = 3").unwrap(),
        vec![
            ident("x12", 0, 3),
            sym(Symbol::Equals, 4, 5),
            number(3, 6, 7),
            Token::EOF { start: 7, end: 7 },
        ]
    );
}

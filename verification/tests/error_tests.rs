use minilang::{Error, LexerError, ParserError};

#[test]
fn lexer_error_holds_position_and_message() {
    let err = LexerError::new(12, "bad token");
    assert_eq!(err.pos(), 12);
    assert_eq!(err.msg(), "bad token");
    assert_eq!(err.to_string(), "Lexer error at position 12: bad token");
}

#[test]
fn parser_error_holds_position_and_message() {
    let err = ParserError::new(0, "bad statement");
    assert_eq!(err.pos(), 0);
    assert_eq!(err.msg(), "bad statement");
    assert_eq!(err.to_string(), "Parser error at position 0: bad statement");
}

#[test]
fn report_prints_large_positions_in_full() {
    let err = ParserError::new(1234567890, "");
    assert_eq!(err.to_string(), "Parser error at position 1234567890: ");
}

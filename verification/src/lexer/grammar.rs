//! The lexical grammar: what stands at each offset of a source text, and
//! the tokens that the text is read as.

use vstd::prelude::*;
use crate::error::Diagnostic;
use crate::text::{
    decimal_value, spec_is_blank, spec_is_digit, spec_is_word_char, spec_is_word_start,
};
use crate::token::{Keyword, Literal, Symbol, TokenKind, TokenView};

verus! {

/// How many digits stand in `s` from offset `from` on, without a gap.
pub open spec fn digit_run(s: Seq<char>, from: int) -> nat
    decreases s.len() - from,
{
    if 0 <= from < s.len() && spec_is_digit(s[from]) {
        1 + digit_run(s, from + 1)
    } else {
        0
    }
}

/// How many word characters stand in `s` from offset `from` on, without a
/// gap.
pub open spec fn word_run(s: Seq<char>, from: int) -> nat
    decreases s.len() - from,
{
    if 0 <= from < s.len() && spec_is_word_char(s[from]) {
        1 + word_run(s, from + 1)
    } else {
        0
    }
}

/// The message for a number that runs into a word.
pub open spec fn number_then_word_msg() -> Seq<char> {
    "Expected whitespace or symbol after number"@
}

/// The message for a number too large for a 64-bit signed integer.
pub open spec fn literal_range_msg() -> Seq<char> {
    "Integer literal out of range"@
}

/// The message for a colon that no equals sign follows.
pub open spec fn lone_colon_msg() -> Seq<char> {
    "Expected '=' after ':'"@
}

/// The message for a character that begins no token.
pub open spec fn unknown_char_msg(c: char) -> Seq<char> {
    "Unknown character: "@ + seq![c]
}

/// What the lexer finds at one offset of the source.
pub ghost enum Scanned {
    /// A blank: it separates tokens and yields none.
    Blank,
    /// A token of the given kind that ends before offset `end`.
    Token { kind: TokenKind, end: int },
    /// A lexical error.
    Error(Diagnostic),
}

/// A number at `pos`: the whole run of digits. A letter or underscore right
/// behind the run is an error at that character; a value beyond the 64-bit
/// signed range is an error at the number's first digit.
pub open spec fn scan_number(s: Seq<char>, pos: int) -> Scanned {
    let end = pos + digit_run(s, pos);
    let value = decimal_value(s.subrange(pos, end));
    if end < s.len() && spec_is_word_start(s[end]) {
        Scanned::Error(Diagnostic { pos: end, msg: number_then_word_msg() })
    } else if value > i64::MAX {
        Scanned::Error(Diagnostic { pos, msg: literal_range_msg() })
    } else {
        Scanned::Token { kind: TokenKind::Literal(Literal::Integer(value as i64)), end }
    }
}

/// The kind of a word: a keyword where it is spelled exactly like one, else
/// an identifier.
pub open spec fn word_kind(word: Seq<char>) -> TokenKind {
    if word == Keyword::Exit.text() {
        TokenKind::Keyword(Keyword::Exit)
    } else {
        TokenKind::Identifier(word)
    }
}

/// A word at `pos`: the whole run of letters, digits and underscores.
pub open spec fn scan_word(s: Seq<char>, pos: int) -> Scanned {
    let end = pos + word_run(s, pos);
    Scanned::Token { kind: word_kind(s.subrange(pos, end)), end }
}

/// What stands at offset `pos` of `s`, for `pos` inside `s`.
pub open spec fn scan(s: Seq<char>, pos: int) -> Scanned
    recommends
        0 <= pos < s.len(),
{
    let c = s[pos];
    if c == '\n' {
        Scanned::Token { kind: TokenKind::Newline, end: pos + 1 }
    } else if spec_is_blank(c) {
        Scanned::Blank
    } else if spec_is_digit(c) {
        scan_number(s, pos)
    } else if spec_is_word_start(c) {
        scan_word(s, pos)
    } else if c == '(' {
        Scanned::Token { kind: TokenKind::Symbol(Symbol::LeftParen), end: pos + 1 }
    } else if c == ')' {
        Scanned::Token { kind: TokenKind::Symbol(Symbol::RightParen), end: pos + 1 }
    } else if c == ':' {
        if pos + 1 < s.len() && s[pos + 1] == '=' {
            Scanned::Token { kind: TokenKind::Symbol(Symbol::ColonEquals), end: pos + 2 }
        } else {
            Scanned::Error(Diagnostic { pos, msg: lone_colon_msg() })
        }
    } else if c == '=' {
        Scanned::Token { kind: TokenKind::Symbol(Symbol::Equals), end: pos + 1 }
    } else {
        Scanned::Error(Diagnostic { pos, msg: unknown_char_msg(c) })
    }
}

/// The outcome of lexing with the tokens `head` put in front.
pub open spec fn prepend(
    head: Seq<TokenView>,
    rest: Result<Seq<TokenView>, Diagnostic>,
) -> Result<Seq<TokenView>, Diagnostic> {
    match rest {
        Ok(tokens) => Ok(head + tokens),
        Err(d) => Err(d),
    }
}

/// The tokens of `s` from offset `pos` to the end, closed by one
/// end-of-input token; or the first lexical error.
pub open spec fn lex_from(s: Seq<char>, pos: int) -> Result<Seq<TokenView>, Diagnostic>
    decreases
            (if pos < s.len() {
                s.len() - pos
            } else {
                0
            }),
{
    if pos < 0 || pos >= s.len() {
        Ok(seq![TokenView { kind: TokenKind::EOF, start: s.len() as int, end: s.len() as int }])
    } else {
        match scan(s, pos) {
            Scanned::Blank => lex_from(s, pos + 1),
            Scanned::Token { kind, end } => prepend(
                seq![TokenView { kind, start: pos, end }],
                lex_from(s, end),
            ),
            Scanned::Error(d) => Err(d),
        }
    }
}

/// The tokens of the source text `s`, or the first lexical error.
pub open spec fn lex_text(s: Seq<char>) -> Result<Seq<TokenView>, Diagnostic> {
    lex_from(s, 0)
}

} // verus!

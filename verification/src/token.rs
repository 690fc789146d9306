//! The lexical alphabet: keywords, identifiers, literals, symbols, line
//! ends and the end of input, each with the span of source text it came
//! from.

use vstd::prelude::*;
use vstd::string::*;
use crate::text::{append_signed_decimal, int_to_decimal};

verus! {

/// The reserved words of the language.
#[derive(Debug, Clone, Copy, PartialEq, Eq, Structural)]
pub enum Keyword {
    Exit,
}

/// A literal value, tagged by its type.
#[derive(Debug, Clone, Copy, PartialEq, Eq, Structural)]
pub enum Literal {
    Integer(i64),
}

/// The punctuation of the language.
#[derive(Debug, Clone, Copy, PartialEq, Eq, Structural)]
pub enum Symbol {
    LeftParen,
    RightParen,
    Equals,
    ColonEquals,
}

/// A token with its span `[start, end)` in the source text.
#[allow(inconsistent_fields)]
#[derive(Debug, PartialEq)]
pub enum Token {
    Keyword { val: Keyword, start: usize, end: usize },
    Identifier { val: String, start: usize, end: usize },
    Literal { val: Literal, start: usize, end: usize },
    Symbol { val: Symbol, start: usize, end: usize },
    Newline { start: usize, end: usize },
    EOF { start: usize, end: usize },
}

/// What a token is, apart from where it stands.
pub ghost enum TokenKind {
    Keyword(Keyword),
    Identifier(Seq<char>),
    Literal(Literal),
    Symbol(Symbol),
    Newline,
    EOF,
}

/// The mathematical value of a token: its kind and its span.
pub ghost struct TokenView {
    pub kind: TokenKind,
    pub start: int,
    pub end: int,
}

impl Keyword {
    /// The word as it is written in source text.
    pub open spec fn text(self) -> Seq<char> {
        match self {
            Keyword::Exit => "exit"@,
        }
    }

    /// The word as it is written in source text.
    pub fn to_string(&self) -> (s: String)
        ensures
            s@ == self.text(),
    {
        match self {
            Keyword::Exit => String::from_str("exit"),
        }
    }
}

impl Literal {
    /// The literal as a decimal numeral.
    pub open spec fn text(self) -> Seq<char> {
        match self {
            Literal::Integer(val) => int_to_decimal(val as int),
        }
    }

    /// The literal as a decimal numeral.
    pub fn to_string(&self) -> (s: String)
        ensures
            s@ == self.text(),
    {
        match self {
            Literal::Integer(val) => {
                let mut s = String::new();
                append_signed_decimal(&mut s, *val);
                assert(s@ =~= self.text());
                s
            },
        }
    }
}

impl Symbol {
    /// The symbol as it is written in source text.
    pub open spec fn text(self) -> Seq<char> {
        match self {
            Symbol::LeftParen => "("@,
            Symbol::RightParen => ")"@,
            Symbol::Equals => "="@,
            Symbol::ColonEquals => ":="@,
        }
    }

    /// The symbol as it is written in source text.
    pub fn to_string(&self) -> (s: String)
        ensures
            s@ == self.text(),
    {
        match self {
            Symbol::LeftParen => String::from_str("("),
            Symbol::RightParen => String::from_str(")"),
            Symbol::Equals => String::from_str("="),
            Symbol::ColonEquals => String::from_str(":="),
        }
    }
}

impl TokenKind {
    /// The name of the kind, as diagnostics print it.
    pub open spec fn name(self) -> Seq<char> {
        match self {
            TokenKind::Keyword(_) => "Keyword"@,
            TokenKind::Identifier(_) => "Identifier"@,
            TokenKind::Literal(_) => "Literal"@,
            TokenKind::Symbol(_) => "Symbol"@,
            TokenKind::Newline => "Newline"@,
            TokenKind::EOF => "EOF"@,
        }
    }

    /// The token's content as text; line ends and the end of input, which
    /// have no printable content, are shown by a placeholder.
    pub open spec fn text(self) -> Seq<char> {
        match self {
            TokenKind::Keyword(val) => val.text(),
            TokenKind::Identifier(val) => val,
            TokenKind::Literal(val) => val.text(),
            TokenKind::Symbol(val) => val.text(),
            TokenKind::Newline => "<NEWLINE>"@,
            TokenKind::EOF => "<EOF>"@,
        }
    }
}

impl View for Token {
    type V = TokenView;

    open spec fn view(&self) -> TokenView {
        match *self {
            Token::Keyword { val, start, end } => TokenView {
                kind: TokenKind::Keyword(val),
                start: start as int,
                end: end as int,
            },
            Token::Identifier { val, start, end } => TokenView {
                kind: TokenKind::Identifier(val@),
                start: start as int,
                end: end as int,
            },
            Token::Literal { val, start, end } => TokenView {
                kind: TokenKind::Literal(val),
                start: start as int,
                end: end as int,
            },
            Token::Symbol { val, start, end } => TokenView {
                kind: TokenKind::Symbol(val),
                start: start as int,
                end: end as int,
            },
            Token::Newline { start, end } => TokenView {
                kind: TokenKind::Newline,
                start: start as int,
                end: end as int,
            },
            Token::EOF { start, end } => TokenView {
                kind: TokenKind::EOF,
                start: start as int,
                end: end as int,
            },
        }
    }
}

/// The values of a sequence of tokens, one by one.
pub open spec fn tokens_view(tokens: Seq<Token>) -> Seq<TokenView> {
    tokens.map_values(|t: Token| t@)
}

impl Token {
    /// The name of the token's kind.
    pub fn type_to_string(&self) -> (s: String)
        ensures
            s@ == self@.kind.name(),
    {
        match self {
            Token::Keyword { .. } => String::from_str("Keyword"),
            Token::Identifier { .. } => String::from_str("Identifier"),
            Token::Literal { .. } => String::from_str("Literal"),
            Token::Symbol { .. } => String::from_str("Symbol"),
            Token::Newline { .. } => String::from_str("Newline"),
            Token::EOF { .. } => String::from_str("EOF"),
        }
    }

    /// The offset of the token's first character.
    pub fn start(&self) -> (pos: usize)
        ensures
            pos == self@.start,
    {
        match self {
            Token::Keyword { start, .. } => *start,
            Token::Identifier { start, .. } => *start,
            Token::Literal { start, .. } => *start,
            Token::Symbol { start, .. } => *start,
            Token::Newline { start, .. } => *start,
            Token::EOF { start, .. } => *start,
        }
    }

    /// The offset just past the token's last character.
    pub fn end(&self) -> (pos: usize)
        ensures
            pos == self@.end,
    {
        match self {
            Token::Keyword { end, .. } => *end,
            Token::Identifier { end, .. } => *end,
            Token::Literal { end, .. } => *end,
            Token::Symbol { end, .. } => *end,
            Token::Newline { end, .. } => *end,
            Token::EOF { end, .. } => *end,
        }
    }

    /// The token's content as text.
    pub fn to_string(&self) -> (s: String)
        ensures
            s@ == self@.kind.text(),
    {
        match self {
            Token::Keyword { val, .. } => val.to_string(),
            Token::Identifier { val, .. } => val.clone(),
            Token::Literal { val, .. } => val.to_string(),
            Token::Symbol { val, .. } => val.to_string(),
            Token::Newline { .. } => String::from_str("<NEWLINE>"),
            Token::EOF { .. } => String::from_str("<EOF>"),
        }
    }
}

impl Clone for Token {
    fn clone(&self) -> (t: Self)
        ensures
            t == *self,
    {
        match self {
            Token::Keyword { val, start, end } => Token::Keyword {
                val: *val,
                start: *start,
                end: *end,
            },
            Token::Identifier { val, start, end } => Token::Identifier {
                val: val.clone(),
                start: *start,
                end: *end,
            },
            Token::Literal { val, start, end } => Token::Literal {
                val: *val,
                start: *start,
                end: *end,
            },
            Token::Symbol { val, start, end } => Token::Symbol {
                val: *val,
                start: *start,
                end: *end,
            },
            Token::Newline { start, end } => Token::Newline { start: *start, end: *end },
            Token::EOF { start, end } => Token::EOF { start: *start, end: *end },
        }
    }
}

} // verus!

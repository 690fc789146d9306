//! Lexical analysis: one forward pass over the source text that yields the
//! tokens in order, each with its span, or the first lexical error.
//!
//! Offsets count characters of the source. The lexer stops at the first
//! character outside ASCII, so every offset it reports lies in an ASCII
//! prefix of the text and is the byte offset as well
//! (`lemma_scanned_text_is_ascii`).

use vstd::prelude::*;
use vstd::string::*;
use vstd::utf8::is_ascii_chars;
use crate::error::{Diagnostic, Error, LexerError};
use crate::lexer::grammar::{
    digit_run, lex_from, lex_text, prepend, scan, scan_number, scan_word, word_run, Scanned,
};
use crate::lexer::laws::{lemma_lexed_tokens_spell_source, tokenizes};
use crate::text::{
    decimal_value, digit_of, is_blank, is_digit, is_word_char, is_word_start,
    lemma_decimal_value_push, spec_is_blank, spec_is_digit, spec_is_word_start, str_eq, to_chars,
};
use crate::token::{tokens_view, Keyword, Literal, Symbol, Token, TokenView};

pub mod grammar;
pub mod laws;

verus! {

/// The mathematical value of what `Lexer::lex` returns.
pub open spec fn lex_outcome(r: Result<Vec<Token>, LexerError>) -> Result<
    Seq<TokenView>,
    Diagnostic,
> {
    match r {
        Ok(tokens) => Ok(tokens_view(tokens@)),
        Err(e) => Err(e@),
    }
}

/// The character of `s` at offset `i`, if there is one.
pub open spec fn char_at(s: Seq<char>, i: int) -> Option<char> {
    if 0 <= i < s.len() {
        Some(s[i])
    } else {
        None
    }
}

/// Whether a helper that scanned from offset `start` returned what the
/// grammar finds there, and left the cursor behind the token.
spec fn scanned_as(
    expected: Scanned,
    start: int,
    r: Result<Token, LexerError>,
    pos_after: int,
) -> bool {
    match expected {
        Scanned::Token { kind, end } => {
            &&& r matches Ok(t)
            &&& t@ == (TokenView { kind, start, end })
            &&& pos_after == end
        },
        Scanned::Error(d) => r matches Err(e) && e@ == d,
        Scanned::Blank => false,
    }
}

/// Putting tokens in front one after the other is putting them in front
/// together.
proof fn lemma_prepend_push(
    head: Seq<TokenView>,
    t: TokenView,
    rest: Result<Seq<TokenView>, Diagnostic>,
)
    ensures
        prepend(head, prepend(seq![t], rest)) == prepend(head.push(t), rest),
{
    if let Ok(tokens) = rest {
        assert(head + (seq![t] + tokens) =~= head.push(t) + tokens);
    }
}

/// A lexer over one source text.
#[derive(Debug)]
pub struct Lexer {
    /// The source text.
    input: String,
    /// The characters of the source text, for access by offset.
    chars: Vec<char>,
    /// Whether the whole source text is known to be ASCII, so that a span
    /// can be cut out of it by its offsets directly.
    ascii: bool,
    /// The offset of the cursor.
    pos: usize,
}

impl Lexer {
    /// The source text that this lexer reads.
    pub closed spec fn source(&self) -> Seq<char> {
        self.input@
    }

    /// The invariant of the representation, which `new` establishes and
    /// `lex` keeps.
    pub closed spec fn wf(&self) -> bool {
        &&& self.chars@ == self.input@
        &&& self.ascii ==> is_ascii_chars(self.input@)
    }

    /// A lexer for `input`.
    pub fn new(input: &str) -> (lexer: Self)
        ensures
            lexer.wf(),
            lexer.source() == input@,
    {
        Self {
            input: String::from_str(input),
            chars: to_chars(input),
            ascii: input.is_ascii(),
            pos: 0,
        }
    }

    /// The offset of the cursor.
    fn pos(&self) -> (pos: usize)
        ensures
            pos == self.pos,
    {
        self.pos
    }

    /// The character under the cursor.
    fn curr(&self) -> (c: Option<char>)
        ensures
            c == char_at(self.chars@, self.pos as int),
    {
        self.peek_n(0)
    }

    /// Moves the cursor one character on and returns the character there.
    fn next(&mut self) -> (c: Option<char>)
        requires
            old(self).pos < usize::MAX,
        ensures
            final(self).input == old(self).input,
            final(self).chars == old(self).chars,
            final(self).ascii == old(self).ascii,
            final(self).pos == old(self).pos + 1,
            c == char_at(old(self).chars@, old(self).pos + 1),
    {
        self.pos += 1;
        self.curr()
    }

    /// Moves the cursor `n` characters on and returns the character there.
    fn next_n(&mut self, n: usize) -> (c: Option<char>)
        requires
            old(self).pos + n <= usize::MAX,
        ensures
            final(self).input == old(self).input,
            final(self).chars == old(self).chars,
            final(self).ascii == old(self).ascii,
            final(self).pos == old(self).pos + n,
            c == char_at(old(self).chars@, old(self).pos + n),
    {
        self.pos += n;
        self.curr()
    }

    /// The character behind the one under the cursor.
    fn peek(&self) -> (c: Option<char>)
        ensures
            c == char_at(self.chars@, self.pos + 1),
    {
        self.peek_n(1)
    }

    /// The character `n` places behind the one under the cursor.
    fn peek_n(&self, n: usize) -> (c: Option<char>)
        ensures
            c == char_at(self.chars@, self.pos + n),
    {
        let len = self.chars.len();
        if self.pos < len && n < len - self.pos {
            Some(self.chars[self.pos + n])
        } else {
            None
        }
    }

    /// The text of the source from offset `start` up to offset `end`.
    fn span(&self, start: usize, end: usize) -> (text: &str)
        requires
            self.wf(),
            start <= end <= self.chars.len(),
        ensures
            text@ == self.chars@.subrange(start as int, end as int),
    {
        if self.ascii {
            self.input.as_str().substring_ascii(start, end)
        } else {
            self.input.as_str().substring_char(start, end)
        }
    }

    /// Reads the number that begins under the cursor.
    fn lex_number(&mut self) -> (r: Result<Token, LexerError>)
        requires
            old(self).wf(),
            old(self).pos < old(self).chars.len(),
            spec_is_digit(old(self).chars@[old(self).pos as int]),
        ensures
            final(self).input == old(self).input,
            final(self).chars == old(self).chars,
            final(self).ascii == old(self).ascii,
            final(self).pos <= final(self).chars.len(),
            scanned_as(
                scan_number(old(self).chars@, old(self).pos as int),
                old(self).pos as int,
                r,
                final(self).pos as int,
            ),
    {
        let start = self.pos;
        let ghost s = self.chars@;
        let mut value: u64 = 0;
        let mut fits = true;
        assert(s.subrange(start as int, start as int) =~= Seq::<char>::empty());
        while self.pos < self.chars.len() && is_digit(self.chars[self.pos])
            invariant
                self.input == old(self).input,
                self.chars == old(self).chars,
                self.ascii == old(self).ascii,
                self.chars@ == s,
                start <= self.pos <= s.len(),
                digit_run(s, start as int) == (self.pos - start) + digit_run(s, self.pos as int),
                fits ==> value == decimal_value(s.subrange(start as int, self.pos as int)),
                fits ==> value <= i64::MAX,
                !fits ==> decimal_value(s.subrange(start as int, self.pos as int)) > i64::MAX,
            decreases s.len() - self.pos,
        {
            let c = self.chars[self.pos];
            let d = digit_of(c);
            proof {
                let run = s.subrange(start as int, self.pos as int);
                assert(s.subrange(start as int, self.pos + 1) =~= run.push(c));
                lemma_decimal_value_push(run, c);
            }
            if fits && value <= (9223372036854775807u64 - d) / 10 {
                value = value * 10 + d;
            } else {
                fits = false;
            }
            self.pos += 1;
        }
        let end = self.pos;
        if end < self.chars.len() && is_word_start(self.chars[end]) {
            Err(LexerError::new(end, "Expected whitespace or symbol after number"))
        } else if !fits {
            Err(LexerError::new(start, "Integer literal out of range"))
        } else {
            Ok(Token::Literal { val: Literal::Integer(value as i64), start, end })
        }
    }

    /// Reads the word that begins under the cursor.
    fn lex_word(&mut self) -> (r: Result<Token, LexerError>)
        requires
            old(self).wf(),
            old(self).pos < old(self).chars.len(),
            spec_is_word_start(old(self).chars@[old(self).pos as int]),
        ensures
            final(self).input == old(self).input,
            final(self).chars == old(self).chars,
            final(self).ascii == old(self).ascii,
            final(self).pos <= final(self).chars.len(),
            scanned_as(
                scan_word(old(self).chars@, old(self).pos as int),
                old(self).pos as int,
                r,
                final(self).pos as int,
            ),
    {
        let start = self.pos;
        let ghost s = self.chars@;
        while self.pos < self.chars.len() && is_word_char(self.chars[self.pos])
            invariant
                self.input == old(self).input,
                self.chars == old(self).chars,
                self.ascii == old(self).ascii,
                self.chars@ == s,
                start <= self.pos <= s.len(),
                word_run(s, start as int) == (self.pos - start) + word_run(s, self.pos as int),
            decreases s.len() - self.pos,
        {
            self.pos += 1;
        }
        let end = self.pos;
        let word = self.span(start, end);
        if str_eq(word, "exit") {
            Ok(Token::Keyword { val: Keyword::Exit, start, end })
        } else {
            Ok(Token::Identifier { val: String::from_str(word), start, end })
        }
    }

    /// Reads the symbol that begins under the cursor, which is `c`.
    fn lex_symbol(&mut self, c: char) -> (r: Result<Token, LexerError>)
        requires
            old(self).wf(),
            old(self).pos < old(self).chars.len(),
            c == old(self).chars@[old(self).pos as int],
            c != '\n',
            !spec_is_blank(c),
            !spec_is_digit(c),
            !spec_is_word_start(c),
        ensures
            final(self).input == old(self).input,
            final(self).chars == old(self).chars,
            final(self).ascii == old(self).ascii,
            final(self).pos <= final(self).chars.len(),
            scanned_as(
                scan(old(self).chars@, old(self).pos as int),
                old(self).pos as int,
                r,
                final(self).pos as int,
            ),
    {
        let start = self.pos;
        if c == '(' {
            self.next();
            Ok(Token::Symbol { val: Symbol::LeftParen, start, end: self.pos })
        } else if c == ')' {
            self.next();
            Ok(Token::Symbol { val: Symbol::RightParen, start, end: self.pos })
        } else if c == ':' {
            match self.peek() {
                Some('=') => {
                    self.next_n(2);
                    Ok(Token::Symbol { val: Symbol::ColonEquals, start, end: self.pos })
                },
                _ => Err(LexerError::new(self.pos, "Expected '=' after ':'")),
            }
        } else if c == '=' {
            self.next();
            Ok(Token::Symbol { val: Symbol::Equals, start, end: self.pos })
        } else {
            let mut msg = String::from_str("Unknown character: ");
            msg.append(self.span(start, start + 1));
            proof {
                assert(self.input@.subrange(start as int, start + 1) =~= seq![c]);
            }
            Err(LexerError::new(self.pos, msg.as_str()))
        }
    }

    /// Cuts the source text into tokens. The result is that of the grammar
    /// `lex_text` on the source, whatever was lexed before: the tokens in
    /// order, closed by one end-of-input token, or the first lexical error.
    pub fn lex(&mut self) -> (r: Result<Vec<Token>, LexerError>)
        requires
            old(self).wf(),
        ensures
            final(self).wf(),
            final(self).source() == old(self).source(),
            lex_outcome(r) == lex_text(old(self).source()),
            r matches Ok(tokens) ==> tokenizes(old(self).source(), 0, tokens_view(tokens@)),
    {
        let ghost s = self.chars@;
        let mut tokens: Vec<Token> = Vec::new();
        self.pos = 0;
        assert(tokens_view(tokens@) =~= Seq::<TokenView>::empty());
        assert(Seq::<TokenView>::empty() + lex_from(s, 0)->Ok_0 =~= lex_from(s, 0)->Ok_0);
        while self.pos < self.chars.len()
            invariant
                self.wf(),
                self.input == old(self).input,
                self.ascii == old(self).ascii,
                self.chars@ == s,
                self.pos <= s.len(),
                lex_text(s) == prepend(tokens_view(tokens@), lex_from(s, self.pos as int)),
            decreases s.len() - self.pos,
        {
            let c = self.chars[self.pos];
            let ghost before = tokens_view(tokens@);
            let scanned = if is_blank(c) {
                if c == '\n' {
                    let t = Token::Newline { start: self.pos, end: self.pos + 1 };
                    self.next();
                    Ok(t)
                } else {
                    self.next();
                    continue;
                }
            } else if is_digit(c) {
                self.lex_number()
            } else if is_word_start(c) {
                self.lex_word()
            } else {
                self.lex_symbol(c)
            };
            match scanned {
                Ok(t) => {
                    proof {
                        lemma_prepend_push(before, t@, lex_from(s, self.pos as int));
                        assert(tokens_view(tokens@.push(t)) =~= before.push(t@));
                    }
                    tokens.push(t);
                },
                Err(e) => {
                    return Err(e);
                },
            }
        }
        let eof = Token::EOF { start: self.pos(), end: self.pos() };
        proof {
            assert(tokens_view(tokens@.push(eof)) =~= tokens_view(tokens@) + seq![eof@]);
        }
        tokens.push(eof);
        proof {
            lemma_lexed_tokens_spell_source(s);
        }
        Ok(tokens)
    }
}

} // verus!

//! The two kinds of failure: a lexical error and a syntactic error. Both
//! carry the source offset at which compilation stopped and a message.

use vstd::prelude::*;
use vstd::string::*;
use crate::text::{append_decimal, nat_to_decimal};

verus! {

/// The mathematical value of an error: where it was found and what it says.
pub ghost struct Diagnostic {
    pub pos: int,
    pub msg: Seq<char>,
}

/// The line that reports a diagnostic of the stage called `stage`.
pub open spec fn report(stage: Seq<char>, d: Diagnostic) -> Seq<char> {
    stage + " error at position "@ + nat_to_decimal(d.pos as nat) + ": "@ + d.msg
}

/// What every error of the pipeline offers: the offset, the message and a
/// one-line report.
pub trait Error: Sized {
    /// The error's value.
    spec fn diagnostic(&self) -> Diagnostic;

    /// The name of the stage that raises this kind of error.
    spec fn stage() -> Seq<char>;

    /// The error at offset `pos` with the message `msg`.
    fn new(pos: usize, msg: &str) -> (e: Self)
        ensures
            e.diagnostic() == (Diagnostic { pos: pos as int, msg: msg@ }),
    ;

    /// The offset in the source at which the error was found.
    fn pos(&self) -> (pos: usize)
        ensures
            pos == self.diagnostic().pos,
    ;

    /// The message.
    fn msg(&self) -> (msg: String)
        ensures
            msg@ == self.diagnostic().msg,
    ;

    /// The line that reports the error: the stage, the offset and the
    /// message.
    fn to_string(&self) -> (line: String)
        ensures
            line@ == report(Self::stage(), self.diagnostic()),
    ;
}

/// Builds the report line of a diagnostic.
fn render(stage: &str, pos: usize, msg: &str) -> (line: String)
    ensures
        line@ == report(stage@, Diagnostic { pos: pos as int, msg: msg@ }),
{
    let mut line = String::from_str(stage);
    line.append(" error at position ");
    append_decimal(&mut line, pos as u64);
    line.append(": ");
    line.append(msg);
    line
}

/// A malformed token.
#[derive(Debug)]
pub struct LexerError {
    pos: usize,
    msg: String,
}

impl View for LexerError {
    type V = Diagnostic;

    closed spec fn view(&self) -> Diagnostic {
        Diagnostic { pos: self.pos as int, msg: self.msg@ }
    }
}

impl Error for LexerError {
    open spec fn diagnostic(&self) -> Diagnostic {
        self@
    }

    open spec fn stage() -> Seq<char> {
        "Lexer"@
    }

    fn new(pos: usize, msg: &str) -> (e: Self) {
        Self { pos, msg: String::from_str(msg) }
    }

    fn pos(&self) -> (pos: usize) {
        self.pos
    }

    fn msg(&self) -> (msg: String) {
        self.msg.clone()
    }

    fn to_string(&self) -> (line: String) {
        render("Lexer", self.pos, self.msg.as_str())
    }
}

/// A malformed statement, or a name that is declared twice or not at all.
#[derive(Debug)]
pub struct ParserError {
    pos: usize,
    msg: String,
}

impl View for ParserError {
    type V = Diagnostic;

    closed spec fn view(&self) -> Diagnostic {
        Diagnostic { pos: self.pos as int, msg: self.msg@ }
    }
}

impl Error for ParserError {
    open spec fn diagnostic(&self) -> Diagnostic {
        self@
    }

    open spec fn stage() -> Seq<char> {
        "Parser"@
    }

    fn new(pos: usize, msg: &str) -> (e: Self) {
        Self { pos, msg: String::from_str(msg) }
    }

    fn pos(&self) -> (pos: usize) {
        self.pos
    }

    fn msg(&self) -> (msg: String) {
        self.msg.clone()
    }

    fn to_string(&self) -> (line: String) {
        render("Parser", self.pos, self.msg.as_str())
    }
}

} // verus!

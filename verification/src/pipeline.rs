//! The pipeline from source text to assembly text: lexing, then parsing,
//! then code generation. The first error of the first stage that fails ends
//! it; nothing is produced from a text that has an error.

use vstd::prelude::*;
use vstd::string::*;
use crate::ast::{Program, ProgramView};
use crate::codegen::{assembly, Generator};
use crate::error::{Diagnostic, LexerError, ParserError};
use crate::lexer::grammar::lex_text;
use crate::lexer::laws::lemma_lex_from_count;
use crate::lexer::Lexer;
use crate::parser::grammar::{frame_full_msg, parse_tokens};
use crate::parser::laws::{errs_in_form_or_scope, lemma_parsing_has_room, well_scoped};
use crate::parser::Parser;

verus! {

/// Why a source text was not compiled.
#[derive(Debug)]
pub enum CompileError {
    /// A malformed token.
    Lexical(LexerError),
    /// A malformed statement, or a name declared twice or not at all.
    Syntactic(ParserError),
}

/// The mathematical value of a `CompileError`.
pub ghost enum Failure {
    Lexical(Diagnostic),
    Syntactic(Diagnostic),
}

impl View for CompileError {
    type V = Failure;

    open spec fn view(&self) -> Failure {
        match self {
            CompileError::Lexical(e) => Failure::Lexical(e@),
            CompileError::Syntactic(e) => Failure::Syntactic(e@),
        }
    }
}

/// The program that the source text `s` denotes: its tokens, parsed; or the
/// lexical error, or else the syntactic one.
pub open spec fn parse_text(s: Seq<char>) -> Result<ProgramView, Failure> {
    match lex_text(s) {
        Err(d) => Err(Failure::Lexical(d)),
        Ok(tokens) => match parse_tokens(tokens) {
            Err(d) => Err(Failure::Syntactic(d)),
            Ok(program) => Ok(program),
        },
    }
}

/// The assembly text of the source text `s`, or why there is none.
pub open spec fn compile_text(s: Seq<char>) -> Result<Seq<char>, Failure> {
    match parse_text(s) {
        Err(f) => Err(f),
        Ok(program) => Ok(assembly(program)),
    }
}

/// A text with a lexical error is rejected before parsing begins: the
/// pipeline fails with that error, whatever the parser would say of the
/// tokens before it.
pub proof fn lemma_lexical_error_comes_first(s: Seq<char>)
    ensures
        (lex_text(s) matches Err(d) ==> {
            &&& parse_text(s) == Err::<ProgramView, Failure>(Failure::Lexical(d))
            &&& compile_text(s) == Err::<Seq<char>, Failure>(Failure::Lexical(d))
        }),
{
}

/// The symbol table has room for whatever a source text declares, as long
/// as eight bytes for each of its characters, and eight more, stay in the
/// range of the machine's integers: the pipeline then fails only on a
/// malformed token, on form or on scope, never for want of a slot.
pub proof fn lemma_source_has_room(s: Seq<char>)
    requires
        8 * (s.len() + 1) <= usize::MAX,
    ensures
        parse_text(s) matches Err(Failure::Syntactic(d)) ==> errs_in_form_or_scope(d) && d.msg
            != frame_full_msg(),
{
    lemma_lex_from_count(s, 0);
    if let Ok(tokens) = lex_text(s) {
        lemma_parsing_has_room(tokens);
    }
}

/// Lexes and parses `source`. A program that is returned is well scoped and
/// every name in it resolves.
pub fn parse_source(source: &str) -> (r: Result<Program, CompileError>)
    ensures
        (match r {
            Ok(program) => parse_text(source@) == Ok::<ProgramView, Failure>(program@),
            Err(e) => parse_text(source@) == Err::<ProgramView, Failure>(e@),
        }),
        r matches Ok(program) ==> well_scoped(program@) && program@.names_resolve(),
{
    let mut lexer = Lexer::new(source);
    let tokens = match lexer.lex() {
        Ok(tokens) => tokens,
        Err(e) => {
            return Err(CompileError::Lexical(e));
        },
    };
    let mut parser = Parser::new(tokens);
    match parser.parse() {
        Ok(program) => Ok(program),
        Err(e) => Err(CompileError::Syntactic(e)),
    }
}

/// Compiles `source` into assembly text.
pub fn compile(source: &str) -> (r: Result<String, CompileError>)
    ensures
        (match r {
            Ok(text) => compile_text(source@) == Ok::<Seq<char>, Failure>(text@),
            Err(e) => compile_text(source@) == Err::<Seq<char>, Failure>(e@),
        }),
{
    match parse_source(source) {
        Ok(program) => {
            let mut generator = Generator::new(program);
            Ok(generator.generate())
        },
        Err(e) => Err(e),
    }
}

} // verus!

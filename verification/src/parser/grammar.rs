//! The grammar of statements: what a sequence of tokens denotes, one
//! statement after the other, with the symbol table that the declarations
//! build.

use vstd::prelude::*;
use crate::ast::{ExprView, ProgramView, StmtView, Type};
use crate::error::Diagnostic;
use crate::token::{Keyword, Literal, Symbol, TokenKind, TokenView};

verus! {

/// The offset at which the tokens end: the end of the last of them.
pub open spec fn end_offset(tokens: Seq<TokenView>) -> int {
    if tokens.len() == 0 {
        0
    } else {
        tokens.last().end
    }
}

/// The token at index `i`; behind the last token, the end of input.
pub open spec fn token_at(tokens: Seq<TokenView>, i: int) -> TokenView {
    if 0 <= i < tokens.len() {
        tokens[i]
    } else {
        TokenView { kind: TokenKind::EOF, start: end_offset(tokens), end: end_offset(tokens) }
    }
}

/// How many line ends stand in `tokens` from index `from` on, without a
/// gap.
pub open spec fn newline_run(tokens: Seq<TokenView>, from: int) -> nat
    decreases tokens.len() - from,
{
    if 0 <= from < tokens.len() && tokens[from].kind is Newline {
        1 + newline_run(tokens, from + 1)
    } else {
        0
    }
}

/// The index of the first token at or behind `from` that is no line end.
pub open spec fn skip_newlines(tokens: Seq<TokenView>, from: int) -> int {
    from + newline_run(tokens, from)
}

/// `text` between single quotes.
pub open spec fn quoted(text: Seq<char>) -> Seq<char> {
    "'"@ + text + "'"@
}

/// The message for a token of kind `found` where none was expected.
pub open spec fn unexpected_msg(found: TokenKind) -> Seq<char> {
    "Unexpected "@ + found.name()
}

/// The message for a token of kind `found` where `what` was expected.
pub open spec fn expected_msg(found: TokenKind, what: Seq<char>) -> Seq<char> {
    unexpected_msg(found) + ", expected "@ + what
}

/// The message for a name that is used or assigned without a declaration.
pub open spec fn not_declared_msg(name: Seq<char>) -> Seq<char> {
    "Variable "@ + quoted(name) + " not declared"@
}

/// The message for a name that is declared a second time in one scope.
pub open spec fn redeclared_msg(name: Seq<char>) -> Seq<char> {
    "Variable "@ + quoted(name) + " redeclared in this scope"@
}

/// The message for a declaration that finds no slot left in its scope.
pub open spec fn frame_full_msg() -> Seq<char> {
    "Too many variables"@
}

/// How the keyword `kw` is named where it is expected.
pub open spec fn keyword_label(kw: Keyword) -> Seq<char> {
    quoted(kw.text())
}

/// How the symbol `sym` is named where it is expected.
pub open spec fn symbol_label(sym: Symbol) -> Seq<char> {
    "symbol "@ + quoted(sym.text())
}

/// The error of kind "expected `what`" at the token `found`.
pub open spec fn expected_at(found: TokenView, what: Seq<char>) -> Diagnostic {
    Diagnostic { pos: found.start, msg: expected_msg(found.kind, what) }
}

/// Requires a token of kind `want` at index `pos`: the index behind it, or
/// an error at the token found there that names `what` as expected.
pub open spec fn expect_kind(
    tokens: Seq<TokenView>,
    pos: int,
    want: TokenKind,
    what: Seq<char>,
) -> Result<int, Diagnostic> {
    let found = token_at(tokens, pos);
    if found.kind == want {
        Ok(pos + 1)
    } else {
        Err(expected_at(found, what))
    }
}

/// Requires the keyword `kw` at index `pos`.
pub open spec fn expect_keyword_at(tokens: Seq<TokenView>, pos: int, kw: Keyword) -> Result<
    int,
    Diagnostic,
> {
    expect_kind(tokens, pos, TokenKind::Keyword(kw), keyword_label(kw))
}

/// Requires the symbol `sym` at index `pos`.
pub open spec fn expect_symbol_at(tokens: Seq<TokenView>, pos: int, sym: Symbol) -> Result<
    int,
    Diagnostic,
> {
    expect_kind(tokens, pos, TokenKind::Symbol(sym), symbol_label(sym))
}

/// Requires an identifier at index `pos`: its name and the index behind it.
pub open spec fn expect_identifier_at(tokens: Seq<TokenView>, pos: int) -> Result<
    (Seq<char>, int),
    Diagnostic,
> {
    let found = token_at(tokens, pos);
    match found.kind {
        TokenKind::Identifier(name) => Ok((name, pos + 1)),
        _ => Err(expected_at(found, "identifier"@)),
    }
}

/// Requires a literal at index `pos`: its value and the index behind it.
pub open spec fn expect_literal_at(tokens: Seq<TokenView>, pos: int) -> Result<
    (Literal, int),
    Diagnostic,
> {
    let found = token_at(tokens, pos);
    match found.kind {
        TokenKind::Literal(val) => Ok((val, pos + 1)),
        _ => Err(expected_at(found, "literal"@)),
    }
}

/// The expression at index `pos`: one literal, or one identifier that
/// resolves in `program`; with the index behind it. An identifier that does
/// not resolve is an error at the identifier.
pub open spec fn parse_expr_at(tokens: Seq<TokenView>, pos: int, program: ProgramView) -> Result<
    (ExprView, int),
    Diagnostic,
> {
    let found = token_at(tokens, pos);
    match found.kind {
        TokenKind::Literal(val) => Ok((ExprView::Literal(val), pos + 1)),
        TokenKind::Identifier(name) => if program.resolve(name) is Some {
            Ok((ExprView::Identifier(name), pos + 1))
        } else {
            Err(Diagnostic { pos: found.start, msg: not_declared_msg(name) })
        },
        _ => Err(expected_at(found, "expression"@)),
    }
}

/// The type of an expression: that of a literal by its tag, that of a name
/// by its entry.
pub open spec fn type_of_expr(program: ProgramView, expr: ExprView) -> Type {
    match expr {
        ExprView::Literal(Literal::Integer(_)) => Type::Integer,
        ExprView::Identifier(name) => match program.resolve(name) {
            Some(entry) => entry.ty,
            None => Type::Integer,
        },
    }
}

/// What one step of parsing yields: the statement read, if the input did
/// not end; the index at which parsing goes on; and the program with what
/// the statement declared.
pub ghost struct Step {
    pub stmt: Option<StmtView>,
    pub next: int,
    pub program: ProgramView,
}

/// `exit ( expr )`, from the keyword at index `pos`.
pub open spec fn parse_exit_at(tokens: Seq<TokenView>, pos: int, program: ProgramView) -> Result<
    Step,
    Diagnostic,
> {
    match expect_keyword_at(tokens, pos, Keyword::Exit) {
        Err(d) => Err(d),
        Ok(open) => match expect_symbol_at(tokens, open, Symbol::LeftParen) {
            Err(d) => Err(d),
            Ok(inner) => match parse_expr_at(tokens, inner, program) {
                Err(d) => Err(d),
                Ok((expr, close)) => match expect_symbol_at(tokens, close, Symbol::RightParen) {
                    Err(d) => Err(d),
                    Ok(next) => Ok(Step { stmt: Some(StmtView::Exit(expr)), next, program }),
                },
            },
        },
    }
}

/// `:= expr` behind the identifier `name`, which stands at offset `at` of
/// the source; from the symbol at index `pos`. A name that the current
/// scope declares already is an error at the identifier; a name of an
/// enclosing scope may be declared anew. A name for which the scope has no
/// slot left, because its offset would lie beyond the machine's integers,
/// is an error at the identifier too.
pub open spec fn parse_var_decl_at(
    tokens: Seq<TokenView>,
    pos: int,
    program: ProgramView,
    name: Seq<char>,
    at: int,
) -> Result<Step, Diagnostic> {
    match expect_symbol_at(tokens, pos, Symbol::ColonEquals) {
        Err(d) => Err(d),
        Ok(inner) => match parse_expr_at(tokens, inner, program) {
            Err(d) => Err(d),
            Ok((expr, next)) => if program.declares(name) {
                Err(Diagnostic { pos: at, msg: redeclared_msg(name) })
            } else if program.scope().next_offset() > usize::MAX {
                Err(Diagnostic { pos: at, msg: frame_full_msg() })
            } else {
                Ok(
                    Step {
                        stmt: Some(StmtView::VarDecl(name, expr)),
                        next,
                        program: program.declare(name, type_of_expr(program, expr)),
                    },
                )
            },
        },
    }
}

/// `= expr` behind the identifier `name`, which stands at offset `at` of
/// the source; from the symbol at index `pos`. A name that does not resolve
/// is an error at the identifier.
pub open spec fn parse_var_assign_at(
    tokens: Seq<TokenView>,
    pos: int,
    program: ProgramView,
    name: Seq<char>,
    at: int,
) -> Result<Step, Diagnostic> {
    match expect_symbol_at(tokens, pos, Symbol::Equals) {
        Err(d) => Err(d),
        Ok(inner) => match parse_expr_at(tokens, inner, program) {
            Err(d) => Err(d),
            Ok((expr, next)) => if program.resolve(name) is Some {
                Ok(Step { stmt: Some(StmtView::VarAssign(name, expr)), next, program })
            } else {
                Err(Diagnostic { pos: at, msg: not_declared_msg(name) })
            },
        },
    }
}

/// The statement that begins with the token at index `pos`, which is no
/// line end: `exit ( expr )` behind the keyword; behind an identifier, the
/// next token that is no line end decides between a declaration (`:=`) and
/// an assignment (`=`), and any other token there is an error. Any other
/// first token is an error too.
pub open spec fn parse_stmt_body_at(
    tokens: Seq<TokenView>,
    pos: int,
    program: ProgramView,
) -> Result<Step, Diagnostic> {
    let first = token_at(tokens, pos);
    match first.kind {
        TokenKind::Keyword(Keyword::Exit) => parse_exit_at(tokens, pos, program),
        TokenKind::Identifier(name) => {
            let op = skip_newlines(tokens, pos + 1);
            let found = token_at(tokens, op);
            match found.kind {
                TokenKind::Symbol(Symbol::ColonEquals) => parse_var_decl_at(
                    tokens,
                    op,
                    program,
                    name,
                    first.start,
                ),
                TokenKind::Symbol(Symbol::Equals) => parse_var_assign_at(
                    tokens,
                    op,
                    program,
                    name,
                    first.start,
                ),
                TokenKind::Symbol(_) => Err(
                    Diagnostic { pos: found.start, msg: unexpected_msg(found.kind) },
                ),
                _ => Err(expected_at(found, "symbol"@)),
            }
        },
        _ => Err(expected_at(first, "statement"@)),
    }
}

/// What must follow a statement, at index `pos`: a line end, behind which
/// further line ends are passed over, or the end of input.
pub open spec fn end_of_stmt_at(tokens: Seq<TokenView>, pos: int) -> Result<int, Diagnostic> {
    let found = token_at(tokens, pos);
    match found.kind {
        TokenKind::Newline => Ok(skip_newlines(tokens, pos + 1)),
        TokenKind::EOF => Ok(pos),
        _ => Err(expected_at(found, "newline or EOF after statement"@)),
    }
}

/// One step of parsing from index `pos`: line ends are passed over; at the
/// end of input there is no statement; else one statement is read, with
/// what must follow it.
pub open spec fn parse_stmt_at(tokens: Seq<TokenView>, pos: int, program: ProgramView) -> Result<
    Step,
    Diagnostic,
> {
    let start = skip_newlines(tokens, pos);
    if token_at(tokens, start).kind is EOF {
        Ok(Step { stmt: None, next: start, program })
    } else {
        match parse_stmt_body_at(tokens, start, program) {
            Err(d) => Err(d),
            Ok(step) => match end_of_stmt_at(tokens, step.next) {
                Err(d) => Err(d),
                Ok(next) => Ok(Step { next, ..step }),
            },
        }
    }
}

/// The program that parsing from index `pos` completes, having `program` so
/// far; or the first error.
pub open spec fn parse_from(tokens: Seq<TokenView>, pos: int, program: ProgramView) -> Result<
    ProgramView,
    Diagnostic,
>
    decreases
            (if pos < tokens.len() {
                tokens.len() - pos
            } else {
                0
            }),
{
    match parse_stmt_at(tokens, pos, program) {
        Err(d) => Err(d),
        Ok(step) => match step.stmt {
            None => Ok(step.program),
            Some(stmt) => parse_from(tokens, step.next, step.program.push_stmt(stmt)),
        },
    }
}

/// The program that `tokens` denote, or the first error.
pub open spec fn parse_tokens(tokens: Seq<TokenView>) -> Result<ProgramView, Diagnostic> {
    parse_from(tokens, 0, ProgramView::empty())
}

} // verus!

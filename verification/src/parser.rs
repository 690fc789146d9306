//! Parsing: recursive descent over the tokens, one statement per line, that
//! builds the program and the symbol table of its scope and checks every
//! name on the way.
//!
//! The grammar is line based. Line ends separate statements; any number of
//! them may stand before a statement, and between a leading identifier and
//! the `:=` or `=` behind it. Everywhere else inside a statement a line end
//! is an error. A statement ends at a line end or at the end of input. The
//! end of the token sequence is read as the end of input, whether or not an
//! end-of-input token stands there.

use vstd::prelude::*;
use vstd::string::*;
use crate::ast::{Expr, Program, ProgramView, Stmt, StmtView, Type};
use crate::error::{Diagnostic, Error, ParserError};
use crate::parser::grammar::{
    expect_identifier_at, expect_keyword_at, expect_literal_at, expect_symbol_at, expected_at,
    expected_msg, not_declared_msg, parse_exit_at, parse_expr_at, parse_from, parse_stmt_at,
    parse_tokens, parse_var_assign_at, parse_var_decl_at, quoted, redeclared_msg, skip_newlines,
    token_at, type_of_expr,
};
use crate::parser::laws::{
    lemma_parsed_program_is_well_scoped, lemma_parsed_program_resolves,
    lemma_well_scoped_declarations, well_scoped,
};
use crate::token::{tokens_view, Keyword, Literal, Symbol, Token, TokenView};

pub mod grammar;
pub mod laws;

verus! {

/// The text of `expected_msg` for the token `found`.
fn expected_text(found: &Token, what: &str) -> (msg: String)
    ensures
        msg@ == expected_msg(found@.kind, what@),
{
    let mut msg = String::from_str("Unexpected ");
    msg.append(found.type_to_string().as_str());
    msg.append(", expected ");
    msg.append(what);
    msg
}

/// `text` between single quotes.
fn quoted_text(text: &str) -> (q: String)
    ensures
        q@ == quoted(text@),
{
    let mut q = String::from_str("'");
    q.append(text);
    q.append("'");
    q
}

/// The text of `not_declared_msg` for `name`.
fn not_declared_text(name: &str) -> (msg: String)
    ensures
        msg@ == not_declared_msg(name@),
{
    let mut msg = String::from_str("Variable ");
    msg.append(quoted_text(name).as_str());
    msg.append(" not declared");
    msg
}

/// The text of `redeclared_msg` for `name`.
fn redeclared_text(name: &str) -> (msg: String)
    ensures
        msg@ == redeclared_msg(name@),
{
    let mut msg = String::from_str("Variable ");
    msg.append(quoted_text(name).as_str());
    msg.append(" redeclared in this scope");
    msg
}

/// The error "expected `what`" at the token `found`.
fn expected_error(found: &Token, what: &str) -> (e: ParserError)
    ensures
        e@ == expected_at(found@, what@),
{
    ParserError::new(found.start(), expected_text(found, what).as_str())
}

/// A parser over one sequence of tokens.
#[derive(Debug)]
pub struct Parser {
    tokens: Vec<Token>,
    pos: usize,
    program: Program,
    end: Token,
}

impl Parser {
    /// The tokens that this parser reads.
    pub closed spec fn tokens(&self) -> Seq<TokenView> {
        tokens_view(self.tokens@)
    }

    /// The invariant of the representation, which `new` establishes and
    /// `parse` keeps.
    pub closed spec fn wf(&self) -> bool {
        &&& self.pos <= self.tokens.len()
        &&& self.end@ == token_at(self.tokens(), self.tokens.len() as int)
    }

    /// What holds while a parse is under way: the program that is being
    /// built is well formed.
    spec fn ready(&self) -> bool {
        &&& self.wf()
        &&& self.program@.wf()
    }

    /// A parser for `tokens`.
    pub fn new(tokens: Vec<Token>) -> (parser: Self)
        ensures
            parser.wf(),
            parser.tokens() == tokens_view(tokens@),
    {
        let at = if tokens.len() == 0 {
            0
        } else {
            tokens[tokens.len() - 1].end()
        };
        Self { pos: 0, program: Program::new(), end: Token::EOF { start: at, end: at }, tokens }
    }

    /// The token under the cursor.
    fn curr(&self) -> (t: &Token)
        requires
            self.wf(),
        ensures
            t@ == token_at(self.tokens(), self.pos as int),
    {
        self.peek_n(0)
    }

    /// Moves the cursor one token on.
    fn next(&mut self)
        requires
            old(self).pos < old(self).tokens.len(),
        ensures
            final(self).tokens == old(self).tokens,
            final(self).program == old(self).program,
            final(self).end == old(self).end,
            final(self).pos == old(self).pos + 1,
    {
        self.pos += 1;
    }

    /// Moves the cursor `n` tokens on.
    #[allow(dead_code)]
    fn next_n(&mut self, n: usize)
        requires
            old(self).pos + n <= old(self).tokens.len(),
        ensures
            final(self).tokens == old(self).tokens,
            final(self).program == old(self).program,
            final(self).end == old(self).end,
            final(self).pos == old(self).pos + n,
    {
        self.pos += n;
    }

    /// The token behind the one under the cursor.
    #[allow(dead_code)]
    fn peek(&self) -> (t: &Token)
        requires
            self.wf(),
        ensures
            t@ == token_at(self.tokens(), self.pos + 1),
    {
        self.peek_n(1)
    }

    /// The token `n` places behind the one under the cursor.
    fn peek_n(&self, n: usize) -> (t: &Token)
        requires
            self.wf(),
        ensures
            t@ == token_at(self.tokens(), self.pos + n),
    {
        let len = self.tokens.len();
        if self.pos < len && n < len - self.pos {
            &self.tokens[self.pos + n]
        } else {
            &self.end
        }
    }

    /// Passes over the line ends under the cursor.
    fn skip_newlines(&mut self)
        requires
            old(self).wf(),
        ensures
            final(self).wf(),
            final(self).tokens == old(self).tokens,
            final(self).program == old(self).program,
            final(self).end == old(self).end,
            final(self).pos == skip_newlines(old(self).tokens(), old(self).pos as int),
    {
        let ghost tokens = self.tokens();
        let ghost from = self.pos as int;
        while matches!(self.curr(), Token::Newline { .. })
            invariant
                self.wf(),
                self.tokens == old(self).tokens,
                self.program == old(self).program,
                self.end == old(self).end,
                self.tokens() == tokens,
                from <= self.pos,
                skip_newlines(tokens, from) == skip_newlines(tokens, self.pos as int),
            decreases self.tokens.len() - self.pos,
        {
            self.next();
        }
    }

    /// Requires the keyword `kw` under the cursor and passes over it.
    fn expect_keyword(&mut self, kw: Keyword) -> (r: Result<(), ParserError>)
        requires
            old(self).wf(),
        ensures
            final(self).wf(),
            final(self).tokens == old(self).tokens,
            final(self).program == old(self).program,
            final(self).end == old(self).end,
            final(self).pos >= old(self).pos,
            (match expect_keyword_at(old(self).tokens(), old(self).pos as int, kw) {
                Ok(next) => r is Ok && final(self).pos == next,
                Err(d) => r matches Err(e) && e@ == d,
            }),
    {
        let matched = match self.curr() {
            Token::Keyword { val, .. } => *val == kw,
            _ => false,
        };
        if matched {
            self.next();
            Ok(())
        } else {
            Err(expected_error(self.curr(), quoted_text(kw.to_string().as_str()).as_str()))
        }
    }

    /// Requires an identifier under the cursor and passes over it.
    #[allow(dead_code)]
    fn expect_identifier(&mut self) -> (r: Result<String, ParserError>)
        requires
            old(self).wf(),
        ensures
            final(self).wf(),
            final(self).tokens == old(self).tokens,
            final(self).program == old(self).program,
            final(self).end == old(self).end,
            final(self).pos >= old(self).pos,
            (match expect_identifier_at(old(self).tokens(), old(self).pos as int) {
                Ok((name, next)) => r matches Ok(val) && val@ == name && final(self).pos == next,
                Err(d) => r matches Err(e) && e@ == d,
            }),
    {
        let found = match self.curr() {
            Token::Identifier { val, .. } => Some(val.clone()),
            _ => None,
        };
        match found {
            Some(val) => {
                self.next();
                Ok(val)
            },
            None => Err(expected_error(self.curr(), "identifier")),
        }
    }

    /// Requires a literal under the cursor and passes over it.
    fn expect_literal(&mut self) -> (r: Result<Literal, ParserError>)
        requires
            old(self).wf(),
        ensures
            final(self).wf(),
            final(self).tokens == old(self).tokens,
            final(self).program == old(self).program,
            final(self).end == old(self).end,
            final(self).pos >= old(self).pos,
            (match expect_literal_at(old(self).tokens(), old(self).pos as int) {
                Ok((lit, next)) => r == Ok::<Literal, ParserError>(lit) && final(self).pos
                    == next,
                Err(d) => r matches Err(e) && e@ == d,
            }),
    {
        let found = match self.curr() {
            Token::Literal { val, .. } => Some(*val),
            _ => None,
        };
        match found {
            Some(val) => {
                self.next();
                Ok(val)
            },
            None => Err(expected_error(self.curr(), "literal")),
        }
    }

    /// Requires an integer literal under the cursor and passes over it.
    #[allow(dead_code)]
    fn expect_literal_int(&mut self) -> (r: Result<i64, ParserError>)
        requires
            old(self).wf(),
        ensures
            final(self).wf(),
            final(self).tokens == old(self).tokens,
            final(self).program == old(self).program,
            final(self).end == old(self).end,
            final(self).pos >= old(self).pos,
            (match expect_literal_at(old(self).tokens(), old(self).pos as int) {
                Ok((lit, next)) => {
                    &&& r matches Ok(i)
                    &&& Literal::Integer(i) == lit
                    &&& final(self).pos == next
                },
                Err(d) => r matches Err(e) && e@ == d,
            }),
    {
        match self.expect_literal() {
            Ok(Literal::Integer(i)) => Ok(i),
            Err(e) => Err(e),
        }
    }

    /// Requires the symbol `sym` under the cursor and passes over it.
    fn expect_symbol(&mut self, sym: Symbol) -> (r: Result<(), ParserError>)
        requires
            old(self).wf(),
        ensures
            final(self).wf(),
            final(self).tokens == old(self).tokens,
            final(self).program == old(self).program,
            final(self).end == old(self).end,
            final(self).pos >= old(self).pos,
            (match expect_symbol_at(old(self).tokens(), old(self).pos as int, sym) {
                Ok(next) => r is Ok && final(self).pos == next,
                Err(d) => r matches Err(e) && e@ == d,
            }),
    {
        let matched = match self.curr() {
            Token::Symbol { val, .. } => *val == sym,
            _ => false,
        };
        if matched {
            self.next();
            Ok(())
        } else {
            let mut what = String::from_str("symbol ");
            what.append(quoted_text(sym.to_string().as_str()).as_str());
            Err(expected_error(self.curr(), what.as_str()))
        }
    }

    /// The type of an expression whose names resolve.
    fn type_of(&self, expr: &Expr) -> (ty: Type)
        ensures
            ty == type_of_expr(self.program@, expr@),
    {
        match expr {
            Expr::Literal(lit) => match lit {
                Literal::Integer(_) => Type::Integer,
            },
            Expr::Identifier(ident) => match self.program.find_entry(ident.as_str()) {
                Some(entry) => entry.ty,
                None => Type::Integer,
            },
        }
    }

    /// Reads the expression under the cursor.
    fn parse_expr(&mut self) -> (r: Result<Expr, ParserError>)
        requires
            old(self).wf(),
        ensures
            final(self).wf(),
            final(self).tokens == old(self).tokens,
            final(self).program == old(self).program,
            final(self).end == old(self).end,
            final(self).pos >= old(self).pos,
            (match parse_expr_at(old(self).tokens(), old(self).pos as int, old(self).program@) {
                Ok((expr, next)) => r matches Ok(e) && e@ == expr && final(self).pos == next,
                Err(d) => r matches Err(e) && e@ == d,
            }),
    {
        let at = self.curr().start();
        let is_literal = matches!(self.curr(), Token::Literal { .. });
        let is_identifier = matches!(self.curr(), Token::Identifier { .. });
        if is_literal {
            match self.expect_literal() {
                Ok(literal) => Ok(Expr::Literal(literal)),
                Err(e) => Err(e),
            }
        } else if is_identifier {
            match self.expect_identifier() {
                Ok(ident) => {
                    if self.program.find_entry(ident.as_str()).is_none() {
                        Err(ParserError::new(at, not_declared_text(ident.as_str()).as_str()))
                    } else {
                        Ok(Expr::Identifier(ident))
                    }
                },
                Err(e) => Err(e),
            }
        } else {
            Err(expected_error(self.curr(), "expression"))
        }
    }

    /// Reads `exit ( expr )` from the keyword under the cursor.
    fn parse_exit(&mut self) -> (r: Result<Stmt, ParserError>)
        requires
            old(self).wf(),
        ensures
            final(self).wf(),
            final(self).tokens == old(self).tokens,
            final(self).program == old(self).program,
            final(self).end == old(self).end,
            final(self).pos >= old(self).pos,
            (match parse_exit_at(old(self).tokens(), old(self).pos as int, old(self).program@) {
                Ok(step) => r matches Ok(stmt) && Some(stmt@) == step.stmt && final(self).pos
                    == step.next,
                Err(d) => r matches Err(e) && e@ == d,
            }),
    {
        match self.expect_keyword(Keyword::Exit) {
            Ok(()) => {},
            Err(e) => {
                return Err(e);
            },
        }
        match self.expect_symbol(Symbol::LeftParen) {
            Ok(()) => {},
            Err(e) => {
                return Err(e);
            },
        }
        let expr = match self.parse_expr() {
            Ok(expr) => expr,
            Err(e) => {
                return Err(e);
            },
        };
        match self.expect_symbol(Symbol::RightParen) {
            Ok(()) => {},
            Err(e) => {
                return Err(e);
            },
        }
        Ok(Stmt::Exit(expr))
    }

    /// Reads `:= expr` behind the identifier `ident`, which stands at offset
    /// `at`, and checks that the current scope does not hold the name yet
    /// and has a slot left for it. The program is left as it is: the name
    /// takes its entry when the statement is complete.
    fn parse_var_decl(&mut self, ident: String, at: usize) -> (r: Result<Stmt, ParserError>)
        requires
            old(self).ready(),
        ensures
            final(self).wf(),
            final(self).tokens == old(self).tokens,
            final(self).program == old(self).program,
            final(self).end == old(self).end,
            final(self).pos >= old(self).pos,
            (match parse_var_decl_at(
                old(self).tokens(),
                old(self).pos as int,
                old(self).program@,
                ident@,
                at as int,
            ) {
                Ok(step) => r matches Ok(stmt) && Some(stmt@) == step.stmt && final(self).pos
                    == step.next,
                Err(d) => r matches Err(e) && e@ == d,
            }),
    {
        match self.expect_symbol(Symbol::ColonEquals) {
            Ok(()) => {},
            Err(e) => {
                return Err(e);
            },
        }
        let expr = match self.parse_expr() {
            Ok(expr) => expr,
            Err(e) => {
                return Err(e);
            },
        };
        if self.program.find_in_scope(ident.as_str()).is_some() {
            return Err(ParserError::new(at, redeclared_text(ident.as_str()).as_str()));
        }
        if self.program.next_offset().is_none() {
            return Err(ParserError::new(at, "Too many variables"));
        }
        Ok(Stmt::VarDecl(ident, expr))
    }

    /// Reads `= expr` behind the identifier `ident`, which stands at offset
    /// `at`.
    fn parse_var_assign(&mut self, ident: String, at: usize) -> (r: Result<Stmt, ParserError>)
        requires
            old(self).wf(),
        ensures
            final(self).wf(),
            final(self).tokens == old(self).tokens,
            final(self).program == old(self).program,
            final(self).end == old(self).end,
            final(self).pos >= old(self).pos,
            (match parse_var_assign_at(
                old(self).tokens(),
                old(self).pos as int,
                old(self).program@,
                ident@,
                at as int,
            ) {
                Ok(step) => r matches Ok(stmt) && Some(stmt@) == step.stmt && final(self).pos
                    == step.next,
                Err(d) => r matches Err(e) && e@ == d,
            }),
    {
        match self.expect_symbol(Symbol::Equals) {
            Ok(()) => {},
            Err(e) => {
                return Err(e);
            },
        }
        let expr = match self.parse_expr() {
            Ok(expr) => expr,
            Err(e) => {
                return Err(e);
            },
        };
        if self.program.find_entry(ident.as_str()).is_none() {
            return Err(ParserError::new(at, not_declared_text(ident.as_str()).as_str()));
        }
        Ok(Stmt::VarAssign(ident, expr))
    }

    /// Reads the next statement: `None` at the end of input. A declaration
    /// takes its entry in the symbol table when the whole statement, with
    /// the line end or end of input behind it, has been read; where the
    /// statement fails, the program is left as it was.
    fn parse_stmt(&mut self) -> (r: Result<Option<Stmt>, ParserError>)
        requires
            old(self).ready(),
        ensures
            final(self).wf(),
            final(self).tokens == old(self).tokens,
            final(self).end == old(self).end,
            (match parse_stmt_at(old(self).tokens(), old(self).pos as int, old(self).program@) {
                Ok(step) => {
                    &&& r matches Ok(stmt)
                    &&& stmt_view(stmt) == step.stmt
                    &&& final(self).pos == step.next
                    &&& final(self).program@ == step.program
                    &&& final(self).ready()
                    &&& step.stmt is Some ==> step.next > old(self).pos
                },
                Err(d) => {
                    &&& r matches Err(e)
                    &&& e@ == d
                    &&& final(self).program == old(self).program
                },
            }),
    {
        self.skip_newlines();
        let at = self.curr().start();
        let is_end = matches!(self.curr(), Token::EOF { .. });
        let is_exit = matches!(self.curr(), Token::Keyword { val: Keyword::Exit, .. });
        let name = match self.curr() {
            Token::Identifier { val, .. } => Some(val.clone()),
            _ => None,
        };
        let stmt = if is_end {
            return Ok(None);
        } else if is_exit {
            match self.parse_exit() {
                Ok(stmt) => stmt,
                Err(e) => {
                    return Err(e);
                },
            }
        } else if let Some(ident) = name {
            self.next();
            self.skip_newlines();
            let is_decl = matches!(self.curr(), Token::Symbol { val: Symbol::ColonEquals, .. });
            let is_assign = matches!(self.curr(), Token::Symbol { val: Symbol::Equals, .. });
            let is_symbol = matches!(self.curr(), Token::Symbol { .. });
            let parsed = if is_decl {
                self.parse_var_decl(ident, at)
            } else if is_assign {
                self.parse_var_assign(ident, at)
            } else if is_symbol {
                let mut msg = String::from_str("Unexpected ");
                msg.append(self.curr().type_to_string().as_str());
                Err(ParserError::new(self.curr().start(), msg.as_str()))
            } else {
                Err(expected_error(self.curr(), "symbol"))
            };
            match parsed {
                Ok(stmt) => stmt,
                Err(e) => {
                    return Err(e);
                },
            }
        } else {
            return Err(expected_error(self.curr(), "statement"));
        };
        let is_newline = matches!(self.curr(), Token::Newline { .. });
        let is_end = matches!(self.curr(), Token::EOF { .. });
        if is_newline {
            self.next();
            self.skip_newlines();
        } else if !is_end {
            return Err(expected_error(self.curr(), "newline or EOF after statement"));
        }
        if let Stmt::VarDecl(name, expr) = &stmt {
            let ty = self.type_of(expr);
            self.program.push_entry(name.clone(), ty);
        }
        Ok(Some(stmt))
    }

    /// Parses the tokens into a program. The result is that of the grammar
    /// `parse_tokens` on the tokens, whatever was parsed before: the program
    /// with its statements in order and each declared name in the symbol
    /// table of its scope, or the first error. A program that is returned is
    /// well scoped and every name in it resolves; its one symbol table holds
    /// the variable declared `i`-th at offset `8 * i`.
    pub fn parse(&mut self) -> (r: Result<Program, ParserError>)
        requires
            old(self).wf(),
        ensures
            final(self).wf(),
            final(self).tokens() == old(self).tokens(),
            parse_outcome(r) == parse_tokens(old(self).tokens()),
            r matches Ok(program) ==> well_scoped(program@) && program@.names_resolve(),
            r matches Ok(program) ==> forall|i: int|
                0 <= i < program@.tables[0].entries.len() ==> (
                #[trigger] program@.tables[0].entries[i]).offset == 8 * i,
    {
        self.pos = 0;
        self.program = Program::new();
        let ghost tokens = self.tokens();
        loop
            invariant
                self.ready(),
                self.tokens == old(self).tokens,
                self.end == old(self).end,
                self.tokens() == tokens,
                parse_tokens(tokens) == parse_from(tokens, self.pos as int, self.program@),
            decreases self.tokens.len() - self.pos,
        {
            match self.parse_stmt() {
                Ok(Some(stmt)) => {
                    self.program.push_stmt(stmt);
                },
                Ok(None) => {
                    let mut program = Program::new();
                    core::mem::swap(&mut self.program, &mut program);
                    proof {
                        lemma_parsed_program_resolves(tokens);
                        lemma_parsed_program_is_well_scoped(tokens);
                        lemma_well_scoped_declarations(program@);
                    }
                    return Ok(program);
                },
                Err(e) => {
                    return Err(e);
                },
            }
        }
    }
}

/// The value of the statement that a step returned.
pub open spec fn stmt_view(stmt: Option<Stmt>) -> Option<StmtView> {
    match stmt {
        Some(stmt) => Some(stmt@),
        None => None,
    }
}

/// The mathematical value of what `Parser::parse` returns.
pub open spec fn parse_outcome(r: Result<Program, ParserError>) -> Result<
    ProgramView,
    Diagnostic,
> {
    match r {
        Ok(program) => Ok(program@),
        Err(e) => Err(e@),
    }
}

} // verus!

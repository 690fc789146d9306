//! A small compiler, front to back. Source text is cut into tokens
//! (`lexer`), the tokens are parsed into a program with its symbol tables
//! (`parser`, `ast`), and the program is printed as assembly text for
//! x86-64 Linux (`codegen`); `pipeline` runs the three in turn, and
//! `semantics` says what a program means and proves that its code computes
//! it.
//!
//! The language has one statement per line: `name := expr` declares a
//! variable, `name = expr` assigns to one, and `exit(expr)` leaves the
//! program with the value of `expr` as its status. An expression is an
//! integer literal or the name of a declared variable.
//!
//! Every stage is a function of its input alone and stops at the first
//! error. Each is specified by a grammar over mathematical values
//! (`Seq<char>`, `Seq<TokenView>`, `ProgramView`), the executable code is
//! proved to compute it, and the modules named `laws` prove what follows
//! from the grammars for every input.

pub mod ast;
pub mod codegen;
pub mod error;
pub mod lexer;
pub mod parser;
pub mod pipeline;
pub mod semantics;
pub mod text;
pub mod token;

pub use crate::ast::{Expr, Program, Stmt, SymbolTable, SymbolTableEntry, Type};
pub use crate::codegen::Generator;
pub use crate::error::{Error, LexerError, ParserError};
pub use crate::lexer::Lexer;
pub use crate::parser::Parser;
pub use crate::pipeline::{compile, parse_source, CompileError};
pub use crate::token::{Keyword, Literal, Symbol, Token};

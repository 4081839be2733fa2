//! A front end for BP, a minimal declaration language: a lexer, a parser and
//! a generator of C source text, each with a contract over a mathematical
//! model of its input and output.
//!
//! ```text
//! m x = 5;
//! c name = "BP";
//! show "hi";
//! ```
//!
//! [`compile`] runs the three stages in sequence. Malformed input never
//! panics: each stage hands back diagnostics, and the caller chooses whether
//! the first one ends the run ([`Mode::Strict`]) or all are collected while
//! the run goes on ([`Mode::Lenient`]).

pub mod ast;
pub mod codegen;
pub mod diagnostic;
pub mod lexer;
pub mod parser;
pub mod pipeline;
pub mod text;
pub mod token;

pub use crate::ast::{ASTNode, Literal, Program};
pub use crate::codegen::generate;
pub use crate::diagnostic::{Diagnostic, DiagnosticKind, LexError, ParseError};
pub use crate::lexer::{tokenize, tokenize_lenient};
pub use crate::parser::parse;
pub use crate::pipeline::{compile, Diagnostics, GeneratedCode, Mode};
pub use crate::token::Token;

//! A front end for Small-C, a minimal C-like language: a lexer, a parser, a
//! semantic analyzer, and a lowering to a control-flow graph of basic blocks.
//!
//! Every stage is a function with a contract over a mathematical model of its
//! data, and is proved to meet it.

pub mod ast;
pub mod codegen;
pub mod driver;
pub mod error;
pub mod lexer;
pub mod parser;
pub mod semantic;
pub mod utils;

pub use driver::{compile, lower_to_module, try_compile, try_lower_to_module};
pub use error::CompilerError;
pub use lexer::{lex, Token, TokenKind};

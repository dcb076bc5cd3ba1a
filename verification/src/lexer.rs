//! The lexer: from source text to tokens.

pub mod error;
pub mod grammar;
pub mod laws;
pub mod lexer;
pub mod token;

pub use error::{LexError, LexErrorView};
pub use lexer::lex;
pub use token::{Token, TokenKind, TokenView};

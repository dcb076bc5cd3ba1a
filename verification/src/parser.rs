//! The parser: from tokens to a syntax tree, by recursive descent, with
//! precedence climbing for expressions.

pub mod error;
pub mod grammar;
pub mod laws;
pub mod literal;
pub mod parser;

pub use error::{ParseError, ParseErrorView};
pub use literal::literal_value;
pub use parser::Parser;

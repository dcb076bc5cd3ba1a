//! Semantic analysis: name resolution against a stack of lexical scopes, and
//! type checking.

pub mod analyzer;
pub mod error;
pub mod laws;
pub mod rules;
pub mod symbol_table;

pub use analyzer::SemanticAnalyzer;
pub use error::{SemanticError, SemanticErrorView};

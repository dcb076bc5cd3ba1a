//! The syntax tree: programs, declarations, statements and expressions.

pub mod nodes;

pub use nodes::{Decl, DeclView, Expr, ExprView, Program, ProgramView, Stmt, StmtView};

//! Spans and the text of diagnostics.

pub mod span;
pub mod text;

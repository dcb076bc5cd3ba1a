//! The errors of semantic analysis.

use crate::utils::span::Span;
use crate::utils::text::{append_span, debug_quoted, debug_text, span_text};
use vstd::prelude::*;
use vstd::string::StringExecFns;

verus! {

/// Why semantic analysis stopped. Analysis stops at the first error.
#[derive(Debug)]
pub enum SemanticError {
    /// The name is already declared in the scope that is open.
    DuplicateSymbol(String, Span),
    /// No scope that is open declares the name.
    UndefinedVariable(String, Span),
    /// An expression has another type than its place asks for.
    TypeMismatch { expected: String, found: String, span: Span },
}

/// The mathematical value of a [`SemanticError`].
pub enum SemanticErrorView {
    DuplicateSymbol(Seq<char>, Span),
    UndefinedVariable(Seq<char>, Span),
    TypeMismatch { expected: Seq<char>, found: Seq<char>, span: Span },
}

impl View for SemanticError {
    type V = SemanticErrorView;

    open spec fn view(&self) -> SemanticErrorView {
        match self {
            SemanticError::DuplicateSymbol(name, span) => SemanticErrorView::DuplicateSymbol(
                name@,
                *span,
            ),
            SemanticError::UndefinedVariable(name, span) => SemanticErrorView::UndefinedVariable(
                name@,
                *span,
            ),
            SemanticError::TypeMismatch { expected, found, span } => SemanticErrorView::TypeMismatch {
                expected: expected@,
                found: found@,
                span: *span,
            },
        }
    }
}

impl SemanticErrorView {
    /// The message of the error.
    pub open spec fn message(self) -> Seq<char> {
        match self {
            SemanticErrorView::DuplicateSymbol(name, span) => "Duplicate symbol '"@ + name
                + "' at "@ + span_text(span),
            SemanticErrorView::UndefinedVariable(name, span) => "Undefined variable '"@ + name
                + "' at "@ + span_text(span),
            SemanticErrorView::TypeMismatch { expected, found, span } => "Type mismatch: expected "@
                + debug_text(expected) + ", found "@ + debug_text(found) + " at "@ + span_text(
                span,
            ),
        }
    }
}

impl SemanticError {
    /// The message of the error.
    pub fn to_string(&self) -> (message: String)
        ensures
            message@ == self@.message(),
    {
        match self {
            SemanticError::DuplicateSymbol(name, span) => {
                let mut out = String::from_str("Duplicate symbol '");
                out.append(name.as_str());
                out.append("' at ");
                append_span(&mut out, *span);
                assert(out@ =~= self@.message());
                out
            },
            SemanticError::UndefinedVariable(name, span) => {
                let mut out = String::from_str("Undefined variable '");
                out.append(name.as_str());
                out.append("' at ");
                append_span(&mut out, *span);
                assert(out@ =~= self@.message());
                out
            },
            SemanticError::TypeMismatch { expected, found, span } => {
                let mut out = String::from_str("Type mismatch: expected ");
                out.append(debug_quoted(expected.as_str()).as_str());
                out.append(", found ");
                out.append(debug_quoted(found.as_str()).as_str());
                out.append(" at ");
                append_span(&mut out, *span);
                assert(out@ =~= self@.message());
                out
            },
        }
    }
}

} // verus!

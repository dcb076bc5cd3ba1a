//! The errors of the parser.

use crate::lexer::TokenKind;
use crate::utils::span::Span;
use crate::utils::text::{append_span, span_text};
use vstd::prelude::*;
use vstd::string::StringExecFns;

verus! {

/// Why parsing stopped. Parsing stops at the first mismatch.
#[derive(Debug)]
pub enum ParseError {
    /// A specific token was required and another one stood there.
    Expected { expected: String, found: TokenKind, span: Span },
    /// No expression starts with this token.
    Unexpected(TokenKind, Span),
    /// The tokens ran out inside a construct.
    Eof,
}

/// The mathematical value of a [`ParseError`].
pub enum ParseErrorView {
    Expected { expected: Seq<char>, found: TokenKind, span: Span },
    Unexpected(TokenKind, Span),
    Eof,
}

impl View for ParseError {
    type V = ParseErrorView;

    open spec fn view(&self) -> ParseErrorView {
        match self {
            ParseError::Expected { expected, found, span } => ParseErrorView::Expected {
                expected: expected@,
                found: *found,
                span: *span,
            },
            ParseError::Unexpected(found, span) => ParseErrorView::Unexpected(*found, *span),
            ParseError::Eof => ParseErrorView::Eof,
        }
    }
}

impl ParseErrorView {
    /// The message of the error.
    pub open spec fn message(self) -> Seq<char> {
        match self {
            ParseErrorView::Expected { expected, found, span } => "Unexpected token `"@
                + found.spec_name() + "` at "@ + span_text(span) + ", expected "@ + expected,
            ParseErrorView::Unexpected(found, span) => "Unexpected token `"@ + found.spec_name()
                + "` at "@ + span_text(span),
            ParseErrorView::Eof => "Unexpected end of input"@,
        }
    }
}

impl ParseError {
    /// The message of the error.
    pub fn to_string(&self) -> (message: String)
        ensures
            message@ == self@.message(),
    {
        match self {
            ParseError::Expected { expected, found, span } => {
                let mut out = String::from_str("Unexpected token `");
                out.append(found.name().as_str());
                out.append("` at ");
                append_span(&mut out, *span);
                out.append(", expected ");
                out.append(expected.as_str());
                assert(out@ =~= self@.message());
                out
            },
            ParseError::Unexpected(found, span) => {
                let mut out = String::from_str("Unexpected token `");
                out.append(found.name().as_str());
                out.append("` at ");
                append_span(&mut out, *span);
                assert(out@ =~= self@.message());
                out
            },
            ParseError::Eof => String::from_str("Unexpected end of input"),
        }
    }
}

} // verus!

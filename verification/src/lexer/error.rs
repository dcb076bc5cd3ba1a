//! The error of the lexer.

use crate::utils::span::Span;
use crate::utils::text::{append_span, span_text};
use vstd::prelude::*;
use vstd::string::StringExecFns;

verus! {

/// A lexeme that belongs to the language in no way. The lexer itself never
/// fails: it hands such a lexeme on as a token of kind `Error`.
#[derive(Debug)]
pub struct LexError {
    pub token: String,
    pub span: Span,
}

/// The mathematical value of a [`LexError`].
pub struct LexErrorView {
    pub token: Seq<char>,
    pub span: Span,
}

impl View for LexError {
    type V = LexErrorView;

    open spec fn view(&self) -> LexErrorView {
        LexErrorView { token: self.token@, span: self.span }
    }
}

impl LexErrorView {
    /// The message of the error.
    pub open spec fn message(self) -> Seq<char> {
        "Lex error at "@ + span_text(self.span) + ": unexpected token '"@ + self.token + "'"@
    }
}

impl LexError {
    /// The message of the error.
    pub fn to_string(&self) -> (message: String)
        ensures
            message@ == self@.message(),
    {
        let mut out = String::from_str("Lex error at ");
        append_span(&mut out, self.span);
        out.append(": unexpected token '");
        out.append(self.token.as_str());
        out.append("'");
        assert(out@ =~= self@.message());
        out
    }
}

} // verus!

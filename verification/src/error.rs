//! The error of a compilation.

use crate::lexer::error::{LexError, LexErrorView};
use crate::parser::error::{ParseError, ParseErrorView};
use crate::semantic::error::{SemanticError, SemanticErrorView};
use vstd::prelude::*;
use vstd::string::StringExecFns;

verus! {

/// Why a compilation stopped: the error of the stage that failed.
#[derive(Debug)]
pub enum CompilerError {
    Lex(LexError),
    Parse(ParseError),
    Semantic(SemanticError),
    Codegen(String),
}

/// The mathematical value of a [`CompilerError`].
pub enum CompilerErrorView {
    Lex(LexErrorView),
    Parse(ParseErrorView),
    Semantic(SemanticErrorView),
    Codegen(Seq<char>),
}

impl View for CompilerError {
    type V = CompilerErrorView;

    open spec fn view(&self) -> CompilerErrorView {
        match self {
            CompilerError::Lex(e) => CompilerErrorView::Lex(e@),
            CompilerError::Parse(e) => CompilerErrorView::Parse(e@),
            CompilerError::Semantic(e) => CompilerErrorView::Semantic(e@),
            CompilerError::Codegen(what) => CompilerErrorView::Codegen(what@),
        }
    }
}

impl CompilerErrorView {
    /// The message of the error: the stage that failed and the message of its
    /// error.
    pub open spec fn message(self) -> Seq<char> {
        match self {
            CompilerErrorView::Lex(e) => "Lexical error: "@ + e.message(),
            CompilerErrorView::Parse(e) => "Parse error: "@ + e.message(),
            CompilerErrorView::Semantic(e) => "Semantic error: "@ + e.message(),
            CompilerErrorView::Codegen(what) => "Code generation error: "@ + what,
        }
    }
}

impl CompilerError {
    /// The message of the error.
    pub fn to_string(&self) -> (message: String)
        ensures
            message@ == self@.message(),
    {
        match self {
            CompilerError::Lex(e) => {
                let mut out = String::from_str("Lexical error: ");
                out.append(e.to_string().as_str());
                out
            },
            CompilerError::Parse(e) => {
                let mut out = String::from_str("Parse error: ");
                out.append(e.to_string().as_str());
                out
            },
            CompilerError::Semantic(e) => {
                let mut out = String::from_str("Semantic error: ");
                out.append(e.to_string().as_str());
                out
            },
            CompilerError::Codegen(what) => {
                let mut out = String::from_str("Code generation error: ");
                out.append(what.as_str());
                out
            },
        }
    }
}

} // verus!

//! The errors of code generation.

use vstd::prelude::*;
use vstd::string::StringExecFns;

verus! {

/// Why code generation stopped.
#[derive(Debug)]
pub enum CodegenError {
    /// The backend could not be set up.
    LlvmInitError(String),
    /// The program asks for something that no instruction does.
    UnsupportedOp(String),
}

/// The mathematical value of a [`CodegenError`].
pub enum CodegenErrorView {
    LlvmInitError(Seq<char>),
    UnsupportedOp(Seq<char>),
}

impl View for CodegenError {
    type V = CodegenErrorView;

    open spec fn view(&self) -> CodegenErrorView {
        match self {
            CodegenError::LlvmInitError(what) => CodegenErrorView::LlvmInitError(what@),
            CodegenError::UnsupportedOp(what) => CodegenErrorView::UnsupportedOp(what@),
        }
    }
}

impl CodegenErrorView {
    /// The message of the error.
    pub open spec fn message(self) -> Seq<char> {
        match self {
            CodegenErrorView::LlvmInitError(what) => "Failed to initialize LLVM: "@ + what,
            CodegenErrorView::UnsupportedOp(what) => "Unsupported operation: "@ + what,
        }
    }
}

impl CodegenError {
    /// The message of the error.
    pub fn to_string(&self) -> (message: String)
        ensures
            message@ == self@.message(),
    {
        match self {
            CodegenError::LlvmInitError(what) => {
                let mut out = String::from_str("Failed to initialize LLVM: ");
                out.append(what.as_str());
                out
            },
            CodegenError::UnsupportedOp(what) => {
                let mut out = String::from_str("Unsupported operation: ");
                out.append(what.as_str());
                out
            },
        }
    }
}

} // verus!

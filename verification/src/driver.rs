//! The stages in a row: from source text to a checked program or a module.

use crate::ast::nodes::{Program, ProgramView};
use crate::codegen::generator::lower;
use crate::codegen::ir::{Module, ModuleView};
use crate::codegen::lowering::lower_program;
use crate::codegen::shape::module_well_formed;
use crate::codegen::values::module_defined;
use crate::error::{CompilerError, CompilerErrorView};
use crate::lexer::grammar::tokenize;
use crate::lexer::lexer::lex;
use crate::parser::error::ParseError;
use crate::parser::grammar::parse_program;
use crate::parser::parser::program_viewed;
use crate::parser::parser::Parser;
use crate::semantic::analyzer::SemanticAnalyzer;
use crate::semantic::rules::analyze;
use vstd::prelude::*;
use vstd::string::StringSliceAdditionalSpecFns;

verus! {

/// What the front end makes of a source text, given as its UTF-8 bytes: the
/// program that its tokens spell, if that program passes semantic analysis,
/// else the first error; or nothing, where parsing comes to an integer literal
/// whose value no literal can hold.
pub open spec fn compiled(bytes: Seq<u8>) -> Option<Result<ProgramView, CompilerErrorView>> {
    match parse_program(tokenize(bytes)) {
        None => None,
        Some(Err(e)) => Some(Err(CompilerErrorView::Parse(e))),
        Some(Ok(program)) => match analyze(program) {
            Err(e) => Some(Err(CompilerErrorView::Semantic(e))),
            Ok(()) => Some(Ok(program)),
        },
    }
}

/// The value of what the front end returned.
pub open spec fn compile_viewed(r: Result<Program, CompilerError>) -> Result<
    ProgramView,
    CompilerErrorView,
> {
    match r {
        Ok(program) => Ok(program@),
        Err(e) => Err(e@),
    }
}

/// Runs the front end on a source text: lexing, parsing and semantic analysis.
/// Returns the checked program, or the first error.
///
/// Parsing must not come to an integer literal whose value no literal can
/// hold; [`try_compile`] asks nothing.
pub fn compile(source: &str) -> (r: Result<Program, CompilerError>)
    requires
        compiled(source.spec_bytes()) is Some,
    ensures
        Some(compile_viewed(r)) == compiled(source.spec_bytes()),
{
    let mut parser = Parser::new(lex(source));
    analyze_parsed(parser.parse_program())
}

/// Runs the front end on a source text as [`compile`] does, and returns `None`
/// where parsing comes to an integer literal whose value no literal can hold.
pub fn try_compile(source: &str) -> (r: Option<Result<Program, CompilerError>>)
    ensures
        match r {
            Some(done) => Some(compile_viewed(done)),
            None => None,
        } == compiled(source.spec_bytes()),
{
    let mut parser = Parser::new(lex(source));
    match parser.try_parse_program() {
        Some(parsed) => Some(analyze_parsed(parsed)),
        None => None,
    }
}

/// Analyzes what the parser made of a source text.
fn analyze_parsed(parsed: Result<Program, ParseError>) -> (r: Result<Program, CompilerError>)
    ensures
        compile_viewed(r) == match program_viewed(parsed) {
            Err(e) => Err(CompilerErrorView::Parse(e)),
            Ok(program) => match analyze(program) {
                Err(e) => Err(CompilerErrorView::Semantic(e)),
                Ok(()) => Ok(program),
            },
        },
{
    let program = match parsed {
        Ok(program) => program,
        Err(e) => {
            return Err(CompilerError::Parse(e));
        },
    };
    let mut analyzer = SemanticAnalyzer::new();
    match analyzer.analyze(&program) {
        Ok(()) => Ok(program),
        Err(e) => Err(CompilerError::Semantic(e)),
    }
}

/// What the front end and lowering make of a source text, given as its UTF-8
/// bytes: the module of the checked program, else the first error; or
/// nothing, where the front end comes to nothing. An error of lowering is
/// handed on as its message.
pub open spec fn lowered(bytes: Seq<u8>) -> Option<Result<ModuleView, CompilerErrorView>> {
    match compiled(bytes) {
        None => None,
        Some(Err(e)) => Some(Err(e)),
        Some(Ok(program)) => match lower_program(program) {
            Err(e) => Some(Err(CompilerErrorView::Codegen(e.message()))),
            Ok(module) => Some(Ok(module)),
        },
    }
}

/// The value of what lowering a source text returned.
pub open spec fn lower_viewed(r: Result<Module, CompilerError>) -> Result<
    ModuleView,
    CompilerErrorView,
> {
    match r {
        Ok(module) => Ok(module@),
        Err(e) => Err(e@),
    }
}

/// Runs the front end on a source text and lowers the checked program to a
/// module, ready for a backend.
///
/// Parsing must not come to an integer literal whose value no literal can
/// hold; [`try_lower_to_module`] asks nothing.
pub fn lower_to_module(source: &str) -> (r: Result<Module, CompilerError>)
    requires
        compiled(source.spec_bytes()) is Some,
    ensures
        Some(lower_viewed(r)) == lowered(source.spec_bytes()),
        r matches Ok(module) ==> module_well_formed(module@) && module_defined(module@),
{
    lower_compiled(compile(source))
}

/// Lowers a source text as [`lower_to_module`] does, and returns `None` where
/// parsing comes to an integer literal whose value no literal can hold.
pub fn try_lower_to_module(source: &str) -> (r: Option<Result<Module, CompilerError>>)
    ensures
        match r {
            Some(done) => Some(lower_viewed(done)),
            None => None,
        } == lowered(source.spec_bytes()),
        r matches Some(Ok(module)) ==> module_well_formed(module@) && module_defined(module@),
{
    match try_compile(source) {
        Some(program) => Some(lower_compiled(program)),
        None => None,
    }
}

/// Lowers what the front end made of a source text.
fn lower_compiled(program: Result<Program, CompilerError>) -> (r: Result<Module, CompilerError>)
    ensures
        lower_viewed(r) == match compile_viewed(program) {
            Err(e) => Err(e),
            Ok(program) => match lower_program(program) {
                Err(e) => Err(CompilerErrorView::Codegen(e.message())),
                Ok(module) => Ok(module),
            },
        },
        r matches Ok(module) ==> module_well_formed(module@) && module_defined(module@),
{
    let program = program?;
    match lower(&program) {
        Ok(module) => Ok(module),
        Err(e) => Err(CompilerError::Codegen(e.to_string())),
    }
}

} // verus!

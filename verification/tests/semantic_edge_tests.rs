use cmpler_core::ast::Program;
use cmpler_core::codegen::CodegenError;
use cmpler_core::lexer::{lex, LexError};
use cmpler_core::parser::Parser;
use cmpler_core::semantic::symbol_table::{SymbolTable, Type};
use cmpler_core::semantic::{SemanticAnalyzer, SemanticError};
use cmpler_core::utils::span::Span;
use cmpler_core::{compile, CompilerError};

fn program(src: &str) -> Program {
    Parser::new(lex(src)).parse_program().expect("the source parses")
}

fn analyze(src: &str) -> Result<(), SemanticError> {
    SemanticAnalyzer::new().analyze(&program(src))
}

fn undefined(src: &str) -> (String, Span) {
    match analyze(src) {
        Err(SemanticError::UndefinedVariable(name, span)) => (name, span),
        other => panic!("expected an undefined variable, got {:?}", other),
    }
}

fn duplicate(src: &str) -> (String, Span) {
    match analyze(src) {
        Err(SemanticError::DuplicateSymbol(name, span)) => (name, span),
        other => panic!("expected a duplicate symbol, got {:?}", other),
    }
}

#[test]
fn analysis_is_idempotent() {
    let ok = program("int g = 1; int main() { int x = g; return x; }");
    let bad = program("int main() { { int x = 1; } return x; }");
    let mut analyzer = SemanticAnalyzer::new();
    assert!(analyzer.analyze(&ok).is_ok());
    assert!(analyzer.analyze(&ok).is_ok());
    let first = format!("{:?}", analyzer.analyze(&bad));
    let second = format!("{:?}", analyzer.analyze(&bad));
    assert_eq!(first, second);
    assert!(analyzer.analyze(&ok).is_ok());
    assert_eq!(first, format!("{:?}", SemanticAnalyzer::new().analyze(&bad)));
}

#[test]
fn undefined_variable_carries_the_span_of_the_use() {
    assert_eq!(undefined("int main() { return y; }"), ("y".to_string(), Span { start: 20, end: 21 }));
}

#[test]
fn duplicate_symbol_carries_the_span_of_the_second_declaration() {
    assert_eq!(duplicate("int x = 1; int x = 2;"), ("x".to_string(), Span { start: 11, end: 16 }));
    assert_eq!(
        duplicate("int main() { int x = 1; int x = 2; return 0; }"),
        ("x".to_string(), Span { start: 24, end: 33 })
    );
    assert_eq!(duplicate("int f() {} int f = 1;"), ("f".to_string(), Span { start: 11, end: 16 }));
}

#[test]
fn duplicates_are_found_before_bodies_are_checked() {
    assert_eq!(
        duplicate("int main() { return y; } int main() { }"),
        ("main".to_string(), Span { start: 25, end: 33 })
    );
}

#[test]
fn top_level_names_are_visible_everywhere() {
    assert!(analyze("int main() { return late + helper; } int late = 1; int helper() { }").is_ok());
    assert!(analyze("int a = b; int b = a;").is_ok());
}

#[test]
fn a_local_is_visible_only_behind_its_declaration() {
    assert_eq!(undefined("int main() { x = 1; int x = 2; }").0, "x");
    assert_eq!(undefined("int main() { int x = x; }").0, "x");
    assert!(analyze("int main() { int x = 1; int y = x; }").is_ok());
}

#[test]
fn every_block_is_a_scope() {
    assert_eq!(undefined("int main() { if (1) { int a = 1; } return a; }").0, "a");
    assert_eq!(undefined("int main() { if (1) { int a = 1; } else { return a; } }").0, "a");
    assert_eq!(undefined("int main() { while (1) { int a = 1; } return a; }").0, "a");
    assert_eq!(undefined("int main() { for (;;) { int a = 1; } return a; }").0, "a");
    assert_eq!(undefined("int f() { int a = 1; } int g() { return a; }").0, "a");
    assert!(analyze("int main() { int a = 1; if (a) { int a = 2; } else { int a = 3; } }").is_ok());
    assert!(analyze("int main() { int a = 1; while (a) { int a = 2; } }").is_ok());
    assert!(analyze("int main() { int a = 1; for (a; a; a) { int a = 2; } }").is_ok());
    assert!(analyze("int main() { int main = 1; return main; }").is_ok());
}

#[test]
fn the_first_error_is_reported() {
    assert_eq!(undefined("int main() { return a + b; }").0, "a");
    assert_eq!(undefined("int main() { return 1 + (b * c); }").0, "b");
    assert_eq!(undefined("int main() { for (p; q; r) { s; } }").0, "p");
    assert_eq!(undefined("int main() { for (; q; r) { s; } }").0, "q");
    assert_eq!(undefined("int main() { for (;; r) { s; } }").0, "r");
    assert_eq!(undefined("int main() { for (;;) { s; } }").0, "s");
    assert_eq!(undefined("int x = y; int main() { return z; }").0, "y");
}

#[test]
fn symbol_table_resolves_innermost_first() {
    let mut table = SymbolTable::new();
    let outer = Span { start: 1, end: 2 };
    let inner = Span { start: 3, end: 4 };
    assert!(table.lookup("x").is_none());
    assert!(table.insert_symbol("x".to_string(), Type::Int, outer).is_ok());
    assert_eq!(table.lookup("x").map(|s| s.span), Some(outer));
    table.enter_scope();
    assert_eq!(table.lookup("x").map(|s| s.span), Some(outer));
    assert!(table.insert_symbol("x".to_string(), Type::Void, inner).is_ok());
    assert!(table.insert_symbol("y".to_string(), Type::Int, inner).is_ok());
    let found = table.lookup("x").expect("declared");
    assert_eq!((found.name.as_str(), found.ty, found.span), ("x", Type::Void, inner));
    match table.insert_symbol("x".to_string(), Type::Int, outer) {
        Err(SemanticError::DuplicateSymbol(name, span)) => {
            assert_eq!((name.as_str(), span), ("x", outer));
        }
        other => panic!("expected a duplicate symbol, got {:?}", other),
    }
    assert_eq!(table.lookup("x").map(|s| s.span), Some(inner));
    table.exit_scope();
    assert_eq!(table.lookup("x").map(|s| (s.ty, s.span)), Some((Type::Int, outer)));
    assert!(table.lookup("y").is_none());
    table.exit_scope();
    assert!(table.lookup("x").is_none());
    table.exit_scope();
    assert!(table.lookup("x").is_none());
}

#[test]
fn symbol_table_declares_declarations() {
    let program = program("int f() { } int v = 1; int f = 2;");
    let mut table = SymbolTable::new();
    assert!(table.insert(&program.decls[0]).is_ok());
    assert!(table.insert(&program.decls[1]).is_ok());
    let f = table.lookup("f").expect("declared");
    assert_eq!((f.ty, f.span), (Type::Int, Span { start: 0, end: 5 }));
    assert_eq!(table.lookup("v").map(|s| s.span), Some(Span { start: 12, end: 17 }));
    match table.insert(&program.decls[2]) {
        Err(SemanticError::DuplicateSymbol(name, span)) => {
            assert_eq!((name.as_str(), span), ("f", Span { start: 23, end: 28 }));
        }
        other => panic!("expected a duplicate symbol, got {:?}", other),
    }
    table.enter_scope();
    assert!(table.insert(&program.decls[2]).is_ok());
}

#[test]
fn type_names() {
    assert_eq!(Type::Int.name(), "Int");
    assert_eq!(Type::Void.name(), format!("{:?}", Type::Void));
}

#[test]
fn semantic_error_messages() {
    let span = Span { start: 20, end: 21 };
    assert_eq!(
        SemanticError::UndefinedVariable("y".to_string(), span).to_string(),
        "Undefined variable 'y' at Span { start: 20, end: 21 }"
    );
    assert_eq!(
        SemanticError::DuplicateSymbol("x".to_string(), span).to_string(),
        format!("Duplicate symbol 'x' at {:?}", span)
    );
    assert_eq!(
        SemanticError::TypeMismatch {
            expected: "Int".to_string(),
            found: "Void".to_string(),
            span: Span { start: 0, end: 105 },
        }
        .to_string(),
        "Type mismatch: expected \"Int\", found \"Void\" at Span { start: 0, end: 105 }"
    );
    assert_eq!(
        SemanticError::TypeMismatch {
            expected: "a\"b".to_string(),
            found: "new\nline".to_string(),
            span: Span { start: 0, end: 0 },
        }
        .to_string(),
        "Type mismatch: expected \"a\\\"b\", found \"new\\nline\" at Span { start: 0, end: 0 }"
    );
}

#[test]
fn other_error_messages() {
    let lex_error = LexError { token: "$".to_string(), span: Span { start: 4, end: 5 } };
    assert_eq!(
        lex_error.to_string(),
        "Lex error at Span { start: 4, end: 5 }: unexpected token '$'"
    );
    assert_eq!(
        CodegenError::UnsupportedOp("Assign".to_string()).to_string(),
        "Unsupported operation: Assign"
    );
    assert_eq!(
        CodegenError::LlvmInitError("no target".to_string()).to_string(),
        "Failed to initialize LLVM: no target"
    );
    assert_eq!(
        CompilerError::Lex(lex_error).to_string(),
        "Lexical error: Lex error at Span { start: 4, end: 5 }: unexpected token '$'"
    );
    assert_eq!(
        CompilerError::Codegen("out of luck".to_string()).to_string(),
        "Code generation error: out of luck"
    );
    match compile("int main() { return y; }") {
        Err(e) => assert_eq!(
            e.to_string(),
            "Semantic error: Undefined variable 'y' at Span { start: 20, end: 21 }"
        ),
        Ok(p) => panic!("expected an error, got {:?}", p),
    }
    match compile("int main() {") {
        Err(e) => assert_eq!(e.to_string(), "Parse error: Unexpected end of input"),
        Ok(p) => panic!("expected an error, got {:?}", p),
    }
}

#[test]
fn compile_returns_the_program() {
    let src = "int g = 2; int main() { return g; }";
    assert_eq!(compile(src).expect("compiles"), program(src));
    assert!(matches!(compile("int x = ;"), Err(CompilerError::Parse(_))));
    assert!(matches!(compile("int x = y;"), Err(CompilerError::Semantic(_))));
}

#[test]
fn a_literal_that_does_not_fit_is_told_apart() {
    assert!(cmpler_core::try_compile("int x = 9223372036854775807;").expect("fits").is_ok());
    assert!(cmpler_core::try_compile("int x = 9223372036854775808;").is_none());
    assert!(cmpler_core::try_lower_to_module("int main() { return 9223372036854775808; }").is_none());
    let module = cmpler_core::try_lower_to_module("int main() { return 7; }").expect("fits");
    assert_eq!(module.expect("lowers").functions.len(), 1);
    assert!(matches!(
        cmpler_core::try_compile("int x = ;"),
        Some(Err(CompilerError::Parse(_)))
    ));
    // An error in front of the literal comes first.
    assert!(matches!(
        cmpler_core::try_compile("int x = ; int y = 99999999999999999999;"),
        Some(Err(CompilerError::Parse(_)))
    ));
    assert!(matches!(
        compile("int x = ; int y = 99999999999999999999;"),
        Err(CompilerError::Parse(_))
    ));
    assert!(matches!(
        cmpler_core::try_lower_to_module("int main() { return y; } int z = 99999999999999999999;"),
        None
    ));
}

use cmpler_core::ast::{Decl, Expr, Program, Stmt};
use cmpler_core::lexer::{lex, TokenKind};
use cmpler_core::parser::{literal_value, ParseError, Parser};
use cmpler_core::utils::span::Span;

fn parse(src: &str) -> Result<Program, ParseError> {
    Parser::new(lex(src)).parse_program()
}

fn body_of(src: &str) -> Vec<Stmt> {
    let mut program = parse(src).expect("the source parses");
    assert_eq!(program.decls.len(), 1);
    match program.decls.remove(0) {
        Decl::Function { body, .. } => body,
        other => panic!("expected a function, got {:?}", other),
    }
}

fn returned(src: &str) -> Expr {
    let mut body = body_of(src);
    assert_eq!(body.len(), 1);
    match body.remove(0) {
        Stmt::Return(e) => *e,
        other => panic!("expected a return, got {:?}", other),
    }
}

fn lit(value: i64, start: usize, end: usize) -> Expr {
    Expr::IntLiteral { value, span: Span { start, end } }
}

fn var(name: &str, start: usize, end: usize) -> Expr {
    Expr::Var { name: name.to_string(), span: Span { start, end } }
}

fn binary(op: TokenKind, left: Expr, right: Expr) -> Expr {
    let span = Span { start: left.span().start, end: right.span().end };
    Expr::Binary { op, left: Box::new(left), right: Box::new(right), span }
}

#[test]
fn multiplication_binds_tighter_than_addition() {
    assert_eq!(
        returned("int main() { return 1 + 2 * 3; }"),
        binary(
            TokenKind::Plus,
            lit(1, 20, 21),
            binary(TokenKind::Star, lit(2, 24, 25), lit(3, 28, 29))
        )
    );
    assert_eq!(
        returned("int main() { return 1 * 2 + 3; }"),
        binary(
            TokenKind::Plus,
            binary(TokenKind::Star, lit(1, 20, 21), lit(2, 24, 25)),
            lit(3, 28, 29)
        )
    );
}

#[test]
fn assignment_is_right_associative_and_binds_loosest() {
    let mut body = body_of("int main() { x = y = 1; }");
    match body.remove(0) {
        Stmt::Expr(e) => assert_eq!(
            *e,
            binary(
                TokenKind::Assign,
                var("x", 13, 14),
                binary(TokenKind::Assign, var("y", 17, 18), lit(1, 21, 22))
            )
        ),
        other => panic!("expected an expression statement, got {:?}", other),
    }
    let mut body = body_of("int main() { x = 1 + 2 == 3; }");
    match body.remove(0) {
        Stmt::Expr(e) => assert_eq!(
            *e,
            binary(
                TokenKind::Assign,
                var("x", 13, 14),
                binary(
                    TokenKind::Equal,
                    binary(TokenKind::Plus, lit(1, 17, 18), lit(2, 21, 22)),
                    lit(3, 26, 27)
                )
            )
        ),
        other => panic!("expected an expression statement, got {:?}", other),
    }
}

#[test]
fn other_operators_are_left_associative() {
    assert_eq!(
        returned("int main() { return 1 - 2 - 3; }"),
        binary(
            TokenKind::Minus,
            binary(TokenKind::Minus, lit(1, 20, 21), lit(2, 24, 25)),
            lit(3, 28, 29)
        )
    );
    assert_eq!(
        returned("int main() { return 8 / 4 * 2; }"),
        binary(
            TokenKind::Star,
            binary(TokenKind::Slash, lit(8, 20, 21), lit(4, 24, 25)),
            lit(2, 28, 29)
        )
    );
    assert_eq!(
        returned("int main() { return 1 < 2 >= 3; }"),
        binary(
            TokenKind::GreaterEqual,
            binary(TokenKind::Less, lit(1, 20, 21), lit(2, 24, 25)),
            lit(3, 29, 30)
        )
    );
}

#[test]
fn comparison_binds_tighter_than_equality() {
    assert_eq!(
        returned("int main() { return 1 == 2 < 3; }"),
        binary(
            TokenKind::Equal,
            lit(1, 20, 21),
            binary(TokenKind::Less, lit(2, 25, 26), lit(3, 29, 30))
        )
    );
}

#[test]
fn parentheses_group_and_leave_no_node() {
    assert_eq!(
        returned("int main() { return (1 + 2) * 3; }"),
        binary(
            TokenKind::Star,
            binary(TokenKind::Plus, lit(1, 21, 22), lit(2, 25, 26)),
            lit(3, 30, 31)
        )
    );
    assert_eq!(returned("int main() { return ((7)); }"), lit(7, 22, 23));
}

#[test]
fn declarations_span_from_int_to_the_name() {
    let program = parse("int counter = 1; int main() { }").expect("parses");
    assert_eq!(
        program.decls,
        vec![
            Decl::Var {
                name: "counter".to_string(),
                init: Box::new(lit(1, 14, 15)),
                span: Span { start: 0, end: 11 },
            },
            Decl::Function {
                name: "main".to_string(),
                params: vec![],
                body: vec![],
                span: Span { start: 17, end: 25 },
            },
        ]
    );
    assert_eq!(program.decls[0].span(), Span { start: 0, end: 11 });
}

#[test]
fn statement_forms() {
    let body = body_of(
        "int main() { ; { } int x = 1; x; if (x) { } while (x) { ; } for (;;) { } return x; }",
    );
    assert_eq!(
        body,
        vec![
            Stmt::Empty,
            Stmt::Block(vec![]),
            Stmt::LocalVar {
                name: "x".to_string(),
                init: lit(1, 27, 28),
                span: Span { start: 19, end: 28 },
            },
            Stmt::Expr(Box::new(var("x", 30, 31))),
            Stmt::If { cond: Box::new(var("x", 37, 38)), then_block: vec![], else_block: None },
            Stmt::While(Box::new(var("x", 51, 52)), vec![Stmt::Empty]),
            Stmt::For { init: None, cond: None, inc: None, body: vec![] },
            Stmt::Return(Box::new(var("x", 80, 81))),
        ]
    );
}

#[test]
fn for_with_some_parts() {
    let body = body_of("int main() { for (i; ; i + 1) { } for (; i;) { } }");
    assert_eq!(
        body,
        vec![
            Stmt::For {
                init: Some(Box::new(var("i", 18, 19))),
                cond: None,
                inc: Some(Box::new(binary(TokenKind::Plus, var("i", 23, 24), lit(1, 27, 28)))),
                body: vec![],
            },
            Stmt::For {
                init: None,
                cond: Some(Box::new(var("i", 41, 42))),
                inc: None,
                body: vec![]
            },
        ]
    );
}

#[test]
fn empty_input_is_an_empty_program() {
    assert_eq!(parse("").expect("parses"), Program { decls: vec![] });
}

#[test]
fn a_second_run_finds_nothing_left() {
    let mut parser = Parser::new(lex("int x = 1;"));
    assert_eq!(parser.parse_program().expect("parses").decls.len(), 1);
    assert_eq!(parser.parse_program().expect("parses"), Program { decls: vec![] });
}

#[test]
fn the_largest_literal() {
    assert_eq!(
        returned("int main() { return 9223372036854775807; }"),
        lit(9223372036854775807, 20, 39)
    );
    assert_eq!(returned("int main() { return 007; }"), lit(7, 20, 23));
}

#[test]
fn literal_values() {
    assert_eq!(literal_value("0"), Some(0));
    assert_eq!(literal_value("42"), Some(42));
    assert_eq!(literal_value("0000000000000000000000000001"), Some(1));
    assert_eq!(literal_value("9223372036854775807"), Some(i64::MAX));
    assert_eq!(literal_value("9223372036854775808"), None);
    assert_eq!(literal_value("99999999999999999999999999"), None);
    assert_eq!(literal_value(""), None);
    assert_eq!(literal_value("1x"), None);
    assert_eq!(literal_value("+1"), None);
    assert_eq!(literal_value("-1"), None);
    assert_eq!(literal_value(" 1"), None);
    assert_eq!(literal_value("١"), None);
}

#[test]
fn a_literal_that_is_too_large_stops_the_parser() {
    let mut parser = Parser::new(lex("int x = 9223372036854775808; int y = 1;"));
    assert!(parser.try_parse_program().is_none());
    // The parser stands behind the literal.
    assert!(matches!(
        parser.try_parse_program(),
        Some(Err(ParseError::Expected { found: TokenKind::Semicolon, .. }))
    ));
    let mut parser = Parser::new(lex("int x = 9223372036854775807;"));
    assert_eq!(parser.try_parse_program().expect("fits").expect("parses").decls.len(), 1);
    // An error in front of the literal comes first.
    let mut parser = Parser::new(lex("int x = ; int y = 99999999999999999999;"));
    assert!(matches!(
        parser.try_parse_program(),
        Some(Err(ParseError::Unexpected(TokenKind::Semicolon, _)))
    ));
    assert!(matches!(
        Parser::new(lex("int x = ; int y = 99999999999999999999;")).parse_program(),
        Err(ParseError::Unexpected(TokenKind::Semicolon, _))
    ));
    // A literal token with another text than the lexer gives it.
    let mut tokens = lex("int x = 1;");
    tokens[3].text = "one".to_string();
    assert!(Parser::new(tokens).try_parse_program().is_none());
}

fn expect_error(src: &str) -> ParseError {
    match parse(src) {
        Err(e) => e,
        Ok(p) => panic!("expected an error, got {:?}", p),
    }
}

#[test]
fn error_end_of_input() {
    assert!(matches!(expect_error("int main() {"), ParseError::Eof));
    assert!(matches!(expect_error("int main() { return "), ParseError::Eof));
    assert!(matches!(expect_error("int"), ParseError::Eof));
    assert!(matches!(expect_error("int x = (1 +"), ParseError::Eof));
}

#[test]
fn error_unexpected_token() {
    match expect_error("int x = ;") {
        ParseError::Unexpected(found, span) => {
            assert_eq!(found, TokenKind::Semicolon);
            assert_eq!(span, Span { start: 8, end: 9 });
        }
        other => panic!("expected Unexpected, got {:?}", other),
    }
    match expect_error("int main() { return 1 + * 2; }") {
        ParseError::Unexpected(found, span) => {
            assert_eq!(found, TokenKind::Star);
            assert_eq!(span, Span { start: 24, end: 25 });
        }
        other => panic!("expected Unexpected, got {:?}", other),
    }
}

#[test]
fn error_expected_token() {
    match expect_error("int main() { return 1 }") {
        ParseError::Expected { expected, found, span } => {
            assert_eq!(expected, "Semicolon");
            assert_eq!(found, TokenKind::RBrace);
            assert_eq!(span, Span { start: 22, end: 23 });
        }
        other => panic!("expected Expected, got {:?}", other),
    }
    match expect_error("void main() { }") {
        ParseError::Expected { expected, found, span } => {
            assert_eq!(expected, "Int");
            assert_eq!(found, TokenKind::Void);
            assert_eq!(span, Span { start: 0, end: 4 });
        }
        other => panic!("expected Expected, got {:?}", other),
    }
    match expect_error("int main() { if 1 { } }") {
        ParseError::Expected { expected, found, .. } => {
            assert_eq!(expected, "LParen");
            assert_eq!(found, TokenKind::IntegerLiteral);
        }
        other => panic!("expected Expected, got {:?}", other),
    }
    match expect_error("int main() { while (1) return 1; }") {
        ParseError::Expected { expected, found, .. } => {
            assert_eq!(expected, "LBrace");
            assert_eq!(found, TokenKind::Return);
        }
        other => panic!("expected Expected, got {:?}", other),
    }
    match expect_error("int main(int a) { }") {
        ParseError::Expected { expected, found, .. } => {
            assert_eq!(expected, "RParen");
            assert_eq!(found, TokenKind::Int);
        }
        other => panic!("expected Expected, got {:?}", other),
    }
}

#[test]
fn error_expected_at_the_end_of_input() {
    match expect_error("int x = 1") {
        ParseError::Expected { expected, found, span } => {
            assert_eq!(expected, "Semicolon");
            assert_eq!(found, TokenKind::Error);
            assert_eq!(span, Span { start: 0, end: 0 });
        }
        other => panic!("expected Expected, got {:?}", other),
    }
    match expect_error("int x") {
        ParseError::Expected { expected, found, .. } => {
            assert_eq!(expected, "Assign");
            assert_eq!(found, TokenKind::Error);
        }
        other => panic!("expected Expected, got {:?}", other),
    }
}

#[test]
fn error_expected_identifier() {
    match expect_error("int 5 = 1;") {
        ParseError::Expected { expected, found, span } => {
            assert_eq!(expected, "identifier (declaration name)");
            assert_eq!(found, TokenKind::IntegerLiteral);
            assert_eq!(span, Span { start: 4, end: 5 });
        }
        other => panic!("expected Expected, got {:?}", other),
    }
    match expect_error("int main() { int if = 1; }") {
        ParseError::Expected { expected, found, .. } => {
            assert_eq!(expected, "identifier (local variable name)");
            assert_eq!(found, TokenKind::If);
        }
        other => panic!("expected Expected, got {:?}", other),
    }
    assert!(matches!(expect_error("int main() { int"), ParseError::Eof));
}

#[test]
fn logical_operators_have_no_production() {
    match expect_error("int main() { return 1 && 2; }") {
        ParseError::Expected { expected, found, .. } => {
            assert_eq!(expected, "Semicolon");
            assert_eq!(found, TokenKind::LogicalAnd);
        }
        other => panic!("expected Expected, got {:?}", other),
    }
    match expect_error("int main() { return !1; }") {
        ParseError::Unexpected(found, _) => assert_eq!(found, TokenKind::LogicalNot),
        other => panic!("expected Unexpected, got {:?}", other),
    }
    match expect_error("int main() { return 1 || 2; }") {
        ParseError::Expected { found, .. } => assert_eq!(found, TokenKind::LogicalOr),
        other => panic!("expected Expected, got {:?}", other),
    }
}

#[test]
fn an_error_token_fails_the_parse() {
    match expect_error("int $foo = 10;") {
        ParseError::Expected { expected, found, span } => {
            assert_eq!(expected, "identifier (declaration name)");
            assert_eq!(found, TokenKind::Error);
            assert_eq!(span, Span { start: 4, end: 5 });
        }
        other => panic!("expected Expected, got {:?}", other),
    }
}

#[test]
fn parse_error_messages() {
    assert_eq!(
        expect_error("int main() { return 1 }").to_string(),
        "Unexpected token `RBrace` at Span { start: 22, end: 23 }, expected Semicolon"
    );
    assert_eq!(
        expect_error("int x = ;").to_string(),
        "Unexpected token `Semicolon` at Span { start: 8, end: 9 }"
    );
    assert_eq!(expect_error("int").to_string(), "Unexpected end of input");
    let span = Span { start: 1234567890, end: 18446744073709551615 };
    assert_eq!(
        ParseError::Unexpected(TokenKind::Comma, span).to_string(),
        format!("Unexpected token `{:?}` at {:?}", TokenKind::Comma, span)
    );
}

#[test]
fn after_an_error_the_parser_stands_where_it_stopped() {
    let mut parser = Parser::new(lex("int x = ; int y = 1;"));
    assert!(matches!(parser.parse_program(), Err(ParseError::Unexpected(TokenKind::Semicolon, _))));
    let rest = parser.parse_program().expect("the rest parses");
    assert_eq!(rest.decls.len(), 1);
    assert!(matches!(&rest.decls[0], Decl::Var { name, .. } if name == "y"));

    let mut parser = Parser::new(lex("int x 1; int y = 2;"));
    assert!(matches!(parser.parse_program(), Err(ParseError::Expected { .. })));
    match parser.parse_program() {
        Err(ParseError::Expected { expected, found, .. }) => {
            assert_eq!(expected, "Int");
            assert_eq!(found, TokenKind::IntegerLiteral);
        }
        other => panic!("expected Expected, got {:?}", other),
    }
}

#[test]
fn syntax_trees_can_be_copied() {
    let program = parse(
        "int g = 1 + 2; int main() { int x = g; if (x) { x = 1; } else { ; } \
         while (x < 3) { for (x; x; x) { { return x; } } } return (x); }",
    )
    .expect("parses");
    assert_eq!(program.clone(), program);
    let tokens = lex("int x = 1;");
    assert_eq!(tokens.clone(), tokens);
}

use cmpler_core::lexer::{lex, Token, TokenKind};
use cmpler_core::utils::span::Span;

fn kinds(src: &str) -> Vec<TokenKind> {
    lex(src).into_iter().map(|t| t.kind).collect()
}

fn token(kind: TokenKind, start: usize, end: usize, text: &str) -> Token {
    Token { kind, span: Span { start, end }, text: text.to_string() }
}

#[test]
fn empty_source_has_no_tokens() {
    assert_eq!(lex(""), vec![]);
    assert_eq!(lex(" \t\n\r\x0c"), vec![]);
}

#[test]
fn tokens_carry_span_and_text() {
    assert_eq!(
        lex("int   x= 42 ;"),
        vec![
            token(TokenKind::Int, 0, 3, "int"),
            token(TokenKind::Identifier, 6, 7, "x"),
            token(TokenKind::Assign, 7, 8, "="),
            token(TokenKind::IntegerLiteral, 9, 11, "42"),
            token(TokenKind::Semicolon, 12, 13, ";"),
        ]
    );
}

#[test]
fn all_keywords() {
    assert_eq!(
        kinds("if else while for return int void"),
        vec![
            TokenKind::If,
            TokenKind::Else,
            TokenKind::While,
            TokenKind::For,
            TokenKind::Return,
            TokenKind::Int,
            TokenKind::Void,
        ]
    );
}

#[test]
fn a_keyword_is_a_whole_word() {
    assert_eq!(
        kinds("iffy int1 _int returns If voID fo"),
        vec![TokenKind::Identifier; 7]
    );
}

#[test]
fn words_and_numbers_take_the_longest_run() {
    assert_eq!(
        lex("123abc_9 x"),
        vec![
            token(TokenKind::IntegerLiteral, 0, 3, "123"),
            token(TokenKind::Identifier, 3, 8, "abc_9"),
            token(TokenKind::Identifier, 9, 10, "x"),
        ]
    );
}

#[test]
fn two_byte_operators_win() {
    assert_eq!(
        kinds("===!=!<=<>=>&&||"),
        vec![
            TokenKind::Equal,
            TokenKind::Assign,
            TokenKind::NotEqual,
            TokenKind::LogicalNot,
            TokenKind::LessEqual,
            TokenKind::Less,
            TokenKind::GreaterEqual,
            TokenKind::Greater,
            TokenKind::LogicalAnd,
            TokenKind::LogicalOr,
        ]
    );
}

#[test]
fn a_lone_ampersand_or_bar_is_an_error_token() {
    assert_eq!(
        lex("a&b|"),
        vec![
            token(TokenKind::Identifier, 0, 1, "a"),
            token(TokenKind::Error, 1, 2, "&"),
            token(TokenKind::Identifier, 2, 3, "b"),
            token(TokenKind::Error, 3, 4, "|"),
        ]
    );
    assert_eq!(
        kinds("&&&"),
        vec![TokenKind::LogicalAnd, TokenKind::Error]
    );
}

#[test]
fn an_error_token_holds_one_whole_character() {
    assert_eq!(
        lex("x é€😀$"),
        vec![
            token(TokenKind::Identifier, 0, 1, "x"),
            token(TokenKind::Error, 2, 4, "é"),
            token(TokenKind::Error, 4, 7, "€"),
            token(TokenKind::Error, 7, 11, "😀"),
            token(TokenKind::Error, 11, 12, "$"),
        ]
    );
}

#[test]
fn a_vertical_tab_is_no_white_space() {
    assert_eq!(lex("\x0b"), vec![token(TokenKind::Error, 0, 1, "\x0b")]);
}

#[test]
fn every_token_holds_the_text_of_its_span() {
    let src = "int main() {\n\tint x1 = 10;\r\n  if (x1 >= 5 && !x1) { return x1 + 1; } § }";
    let tokens = lex(src);
    let mut last_end = 0;
    for t in &tokens {
        assert!(last_end <= t.span.start);
        assert!(t.span.start < t.span.end);
        assert_eq!(&src[t.span.start..t.span.end], t.text);
        assert!(src[last_end..t.span.start].chars().all(|c| " \t\n\r\x0c".contains(c)));
        last_end = t.span.end;
    }
    assert!(src[last_end..].chars().all(|c| " \t\n\r\x0c".contains(c)));
    assert_eq!(tokens.iter().filter(|t| t.kind == TokenKind::Error).count(), 1);
}

#[test]
fn kind_names() {
    assert_eq!(TokenKind::Semicolon.name(), "Semicolon");
    assert_eq!(TokenKind::IntegerLiteral.name(), "IntegerLiteral");
    assert_eq!(TokenKind::LogicalAnd.name(), format!("{:?}", TokenKind::LogicalAnd));
    assert_eq!(TokenKind::Error.name(), format!("{:?}", TokenKind::Error));
}

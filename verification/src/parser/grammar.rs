//! The grammar, as functions from a position in a sequence of tokens to the
//! syntax that stands there.

use crate::ast::nodes::{DeclView, ExprView, ProgramView, StmtView};
use crate::lexer::token::{TokenKind, TokenView};
use crate::parser::error::ParseErrorView;
use crate::utils::span::Span;
use vstd::prelude::*;

verus! {

/// Why parsing stops: at an error, or at an integer literal whose value no
/// literal can hold.
pub enum Stop {
    Error(ParseErrorView),
    Literal,
}

/// How parsing fails: why it stops, and the position at which the parser
/// stands then.
pub struct Failure {
    pub stop: Stop,
    pub at: int,
}

/// The failure at an error.
pub open spec fn failed(error: ParseErrorView, at: int) -> Failure {
    Failure { stop: Stop::Error(error), at }
}

/// What a production yields at a position: the value and the number of tokens
/// that it covers, or the failure at which parsing stops.
pub type Parsed<T> = Result<(T, nat), Failure>;

/// The number of tokens from `pos` to the end of the input.
pub open spec fn remaining(tokens: Seq<TokenView>, pos: int) -> nat {
    if pos <= tokens.len() {
        (tokens.len() - pos) as nat
    } else {
        0
    }
}

/// A result with `k` more tokens counted in front of it.
pub open spec fn shifted<V>(want: Parsed<V>, k: nat) -> Parsed<V> {
    match want {
        Ok((v, n)) => Ok((v, n + k)),
        Err(e) => Err(e),
    }
}

/// The kind of the token at `pos`, if there is one.
pub open spec fn kind_at(tokens: Seq<TokenView>, pos: int) -> Option<TokenKind> {
    if 0 <= pos < tokens.len() {
        Some(tokens[pos].kind)
    } else {
        None
    }
}

/// Whether a token of kind `kind` stands at `pos`.
pub open spec fn at(tokens: Seq<TokenView>, pos: int, kind: TokenKind) -> bool {
    kind_at(tokens, pos) == Some(kind)
}

/// The error for a required token that is not at `pos`. At the end of the
/// input it reports the kind `Error` and an empty span at offset 0.
pub open spec fn expected_error(tokens: Seq<TokenView>, pos: int, what: Seq<char>) -> ParseErrorView {
    if 0 <= pos < tokens.len() {
        ParseErrorView::Expected { expected: what, found: tokens[pos].kind, span: tokens[pos].span }
    } else {
        ParseErrorView::Expected {
            expected: what,
            found: TokenKind::Error,
            span: Span { start: 0, end: 0 },
        }
    }
}

/// The failure, if any, of requiring a token of kind `kind` at `pos`. The
/// parser stays where it is.
pub open spec fn missing(tokens: Seq<TokenView>, pos: int, kind: TokenKind) -> Option<Failure> {
    if at(tokens, pos, kind) {
        None
    } else {
        Some(failed(expected_error(tokens, pos, kind.spec_name()), pos))
    }
}

/// How a missing identifier is described; `context` says what it would name.
pub open spec fn identifier_label(context: Seq<char>) -> Seq<char> {
    "identifier ("@ + context + ")"@
}

/// The failure, if any, of requiring an identifier at `pos`. The parser stays
/// where it is.
pub open spec fn missing_identifier(tokens: Seq<TokenView>, pos: int, context: Seq<char>) -> Option<
    Failure,
> {
    if !(0 <= pos < tokens.len()) {
        Some(failed(ParseErrorView::Eof, pos))
    } else if tokens[pos].kind == TokenKind::Identifier {
        None
    } else {
        Some(failed(expected_error(tokens, pos, identifier_label(context)), pos))
    }
}

/// The value of a decimal digit.
pub open spec fn digit_value(c: char) -> nat {
    (c as nat - '0' as nat) as nat
}

/// Whether the text is a decimal numeral: one or more ASCII digits.
pub open spec fn is_decimal(text: Seq<char>) -> bool {
    text.len() > 0 && forall|i: int| 0 <= i < text.len() ==> '0' <= #[trigger] text[i] <= '9'
}

/// The number that a decimal numeral denotes.
pub open spec fn decimal_value(text: Seq<char>) -> nat
    decreases text.len(),
{
    if text.len() == 0 {
        0
    } else {
        decimal_value(text.drop_last()) * 10 + digit_value(text.last())
    }
}

/// Whether the text is a decimal numeral whose value a literal can hold.
pub open spec fn literal_fits(text: Seq<char>) -> bool {
    is_decimal(text) && decimal_value(text) <= i64::MAX
}

/// The binary operators: for each its precedence, where a higher number binds
/// tighter, and whether it associates to the right. Other kinds are no binary
/// operators.
pub open spec fn binary_operator(kind: TokenKind) -> Option<(nat, bool)> {
    match kind {
        TokenKind::Assign => Some((0, true)),
        TokenKind::Equal | TokenKind::NotEqual => Some((1, false)),
        TokenKind::Less | TokenKind::LessEqual | TokenKind::Greater | TokenKind::GreaterEqual => Some(
            (2, false),
        ),
        TokenKind::Plus | TokenKind::Minus => Some((3, false)),
        TokenKind::Star | TokenKind::Slash => Some((4, false)),
        _ => None,
    }
}

/// The binary operator at `pos` that binds at least as tight as `min_prec`, if
/// one stands there: its kind and the least precedence of its right operand.
pub open spec fn operator_at(tokens: Seq<TokenView>, pos: int, min_prec: nat) -> Option<
    (TokenKind, nat),
> {
    match kind_at(tokens, pos) {
        Some(kind) => match binary_operator(kind) {
            Some((prec, right_assoc)) => if prec >= min_prec {
                Some(
                    (
                        kind,
                        if right_assoc {
                            prec
                        } else {
                            prec + 1
                        },
                    ),
                )
            } else {
                None
            },
            None => None,
        },
        None => None,
    }
}

/// The binary expression of two operands; its span runs from the start of the
/// left one to the end of the right one.
pub open spec fn binary(op: TokenKind, left: ExprView, right: ExprView) -> ExprView {
    ExprView::Binary {
        op,
        left: Box::new(left),
        right: Box::new(right),
        span: Span { start: left.span().start, end: right.span().end },
    }
}

/// A primary expression at `pos`: an integer literal, an identifier, or an
/// expression in parentheses (which leaves no node of its own). A token that
/// opens none of these is taken all the same, and is the error. An integer
/// literal whose value no literal can hold is taken too, and stops parsing.
pub open spec fn parse_primary(tokens: Seq<TokenView>, pos: int) -> Parsed<ExprView>
    decreases remaining(tokens, pos), 0nat,
{
    if !(0 <= pos < tokens.len()) {
        Err(failed(ParseErrorView::Eof, pos))
    } else {
        let token = tokens[pos];
        match token.kind {
            TokenKind::IntegerLiteral => if literal_fits(token.text) {
                Ok(
                    (
                        ExprView::IntLiteral {
                            value: decimal_value(token.text) as i64,
                            span: token.span,
                        },
                        1,
                    ),
                )
            } else {
                Err(Failure { stop: Stop::Literal, at: pos + 1 })
            },
            TokenKind::Identifier => Ok((ExprView::Var { name: token.text, span: token.span }, 1)),
            TokenKind::LParen => match parse_precedence(tokens, pos + 1, 0) {
                Err(e) => Err(e),
                Ok((inner, n)) => match missing(tokens, pos + 1 + n, TokenKind::RParen) {
                    Some(e) => Err(e),
                    None => Ok((inner, n + 2)),
                },
            },
            other => Err(
                failed(ParseErrorView::Unexpected(other, token.span), pos + 1),
            ),
        }
    }
}

/// Continues an expression whose left operand `left` ends just before `pos`:
/// as long as an operator that binds at least as tight as `min_prec` follows,
/// it takes the operator and its right operand and makes the result the new
/// left operand.
pub open spec fn parse_operators(
    tokens: Seq<TokenView>,
    pos: int,
    left: ExprView,
    min_prec: nat,
) -> Parsed<ExprView>
    decreases remaining(tokens, pos), 1nat,
{
    match operator_at(tokens, pos, min_prec) {
        None => Ok((left, 0)),
        Some((op, next_min)) => match parse_precedence(tokens, pos + 1, next_min) {
            Err(e) => Err(e),
            Ok((right, n)) => match parse_operators(
                tokens,
                pos + 1 + n,
                binary(op, left, right),
                min_prec,
            ) {
                Err(e) => Err(e),
                Ok((whole, m)) => Ok((whole, 1 + n + m)),
            },
        },
    }
}

/// An expression at `pos` all of whose top-level operators bind at least as
/// tight as `min_prec`.
pub open spec fn parse_precedence(tokens: Seq<TokenView>, pos: int, min_prec: nat) -> Parsed<
    ExprView,
>
    decreases remaining(tokens, pos), 2nat,
{
    match parse_primary(tokens, pos) {
        Err(e) => Err(e),
        Ok((left, n)) => match parse_operators(tokens, pos + n, left, min_prec) {
            Err(e) => Err(e),
            Ok((whole, m)) => Ok((whole, n + m)),
        },
    }
}

/// An expression at `pos`.
pub open spec fn parse_expr(tokens: Seq<TokenView>, pos: int) -> Parsed<ExprView> {
    parse_precedence(tokens, pos, 0)
}

/// An expression at `pos`, unless a token of kind `stop` stands there.
pub open spec fn parse_optional_expr(tokens: Seq<TokenView>, pos: int, stop: TokenKind) -> Parsed<
    Option<ExprView>,
> {
    if at(tokens, pos, stop) {
        Ok((None, 0))
    } else {
        match parse_expr(tokens, pos) {
            Err(e) => Err(e),
            Ok((e, n)) => Ok((Some(e), n)),
        }
    }
}

/// An expression at `pos` and behind it a token of kind `closing`; the count
/// includes that token.
pub open spec fn parse_expr_then(tokens: Seq<TokenView>, pos: int, closing: TokenKind) -> Parsed<
    ExprView,
> {
    match parse_expr(tokens, pos) {
        Err(e) => Err(e),
        Ok((e, n)) => match missing(tokens, pos + n, closing) {
            Some(e) => Err(e),
            None => Ok((e, n + 1)),
        },
    }
}

/// A part of the head of a `for` statement: an expression, unless a token of
/// kind `stop` stands at `pos`, and then that token; the count includes it.
pub open spec fn parse_for_part(tokens: Seq<TokenView>, pos: int, stop: TokenKind) -> Parsed<
    Option<ExprView>,
> {
    match parse_optional_expr(tokens, pos, stop) {
        Err(e) => Err(e),
        Ok((part, n)) => match missing(tokens, pos + n, stop) {
            Some(e) => Err(e),
            None => Ok((part, n + 1)),
        },
    }
}

/// The head of a `for` statement from its opening parenthesis at `pos` to its
/// closing one: the three optional expressions.
pub open spec fn parse_for_head(tokens: Seq<TokenView>, pos: int) -> Parsed<
    (Option<ExprView>, Option<ExprView>, Option<ExprView>),
> {
    match missing(tokens, pos, TokenKind::LParen) {
        Some(e) => Err(e),
        None => match parse_for_part(tokens, pos + 1, TokenKind::Semicolon) {
            Err(e) => Err(e),
            Ok((init, a)) => match parse_for_part(tokens, pos + 1 + a, TokenKind::Semicolon) {
                Err(e) => Err(e),
                Ok((cond, b)) => match parse_for_part(tokens, pos + 1 + a + b, TokenKind::RParen) {
                    Err(e) => Err(e),
                    Ok((inc, c)) => Ok(((init, cond, inc), 1 + a + b + c)),
                },
            },
        },
    }
}

/// A condition in parentheses from the opening parenthesis at `pos` to the
/// closing one.
pub open spec fn parse_condition(tokens: Seq<TokenView>, pos: int) -> Parsed<ExprView> {
    match missing(tokens, pos, TokenKind::LParen) {
        Some(e) => Err(e),
        None => match parse_expr_then(tokens, pos + 1, TokenKind::RParen) {
            Err(e) => Err(e),
            Ok((cond, n)) => Ok((cond, 1 + n)),
        },
    }
}

/// The rest of a local variable declaration whose `int` stands at `pos`.
pub open spec fn parse_local(tokens: Seq<TokenView>, pos: int) -> Parsed<StmtView> {
    match missing_identifier(tokens, pos + 1, "local variable name"@) {
        Some(e) => Err(e),
        None => match missing(tokens, pos + 2, TokenKind::Assign) {
            Some(e) => Err(e),
            None => match parse_expr_then(tokens, pos + 3, TokenKind::Semicolon) {
                Err(e) => Err(e),
                Ok((init, n)) => Ok(
                    (
                        StmtView::LocalVar {
                            name: tokens[pos + 1].text,
                            init,
                            span: Span { start: tokens[pos].span.start, end: init.span().end },
                        },
                        3 + n,
                    ),
                ),
            },
        },
    }
}

/// The rest of an `if` statement behind its keyword, from `pos` on: a
/// condition in parentheses, a block, and perhaps `else` and a second block.
pub open spec fn parse_if_tail(tokens: Seq<TokenView>, pos: int) -> Parsed<StmtView>
    decreases remaining(tokens, pos), 1nat,
{
    match parse_condition(tokens, pos) {
        Err(e) => Err(e),
        Ok((cond, n)) => match parse_block(tokens, pos + n) {
            Err(e) => Err(e),
            Ok((then_block, m)) => if at(tokens, pos + n + m, TokenKind::Else) {
                match parse_block(tokens, pos + n + m + 1) {
                    Err(e) => Err(e),
                    Ok((else_block, k)) => Ok(
                        (
                            StmtView::If { cond, then_block, else_block: Some(else_block) },
                            n + m + 1 + k,
                        ),
                    ),
                }
            } else {
                Ok((StmtView::If { cond, then_block, else_block: None }, n + m))
            },
        },
    }
}

/// The rest of a `while` statement behind its keyword, from `pos` on: a
/// condition in parentheses and a block.
pub open spec fn parse_while_tail(tokens: Seq<TokenView>, pos: int) -> Parsed<StmtView>
    decreases remaining(tokens, pos), 1nat,
{
    match parse_condition(tokens, pos) {
        Err(e) => Err(e),
        Ok((cond, n)) => match parse_block(tokens, pos + n) {
            Err(e) => Err(e),
            Ok((body, m)) => Ok((StmtView::While(cond, body), n + m)),
        },
    }
}

/// The rest of a `for` statement behind its keyword, from `pos` on: the head
/// in parentheses and a block.
pub open spec fn parse_for_tail(tokens: Seq<TokenView>, pos: int) -> Parsed<StmtView>
    decreases remaining(tokens, pos), 1nat,
{
    match parse_for_head(tokens, pos) {
        Err(e) => Err(e),
        Ok((head, n)) => match parse_block(tokens, pos + n) {
            Err(e) => Err(e),
            Ok((body, m)) => Ok(
                (StmtView::For { init: head.0, cond: head.1, inc: head.2, body }, n + m),
            ),
        },
    }
}

/// A statement at `pos`. The first token decides the form; a token that opens
/// no other form opens an expression statement.
pub open spec fn parse_stmt(tokens: Seq<TokenView>, pos: int) -> Parsed<StmtView>
    decreases remaining(tokens, pos), 0nat,
{
    match kind_at(tokens, pos) {
        Some(TokenKind::LBrace) => match parse_stmts(tokens, pos + 1) {
            Err(e) => Err(e),
            Ok((stmts, n)) => Ok((StmtView::Block(stmts), 1 + n)),
        },
        Some(TokenKind::Semicolon) => Ok((StmtView::Empty, 1)),
        Some(TokenKind::Int) => parse_local(tokens, pos),
        Some(TokenKind::Return) => match parse_expr_then(tokens, pos + 1, TokenKind::Semicolon) {
            Err(e) => Err(e),
            Ok((value, n)) => Ok((StmtView::Return(value), 1 + n)),
        },
        Some(TokenKind::If) => shifted(parse_if_tail(tokens, pos + 1), 1),
        Some(TokenKind::While) => shifted(parse_while_tail(tokens, pos + 1), 1),
        Some(TokenKind::For) => shifted(parse_for_tail(tokens, pos + 1), 1),
        _ => match parse_expr_then(tokens, pos, TokenKind::Semicolon) {
            Err(e) => Err(e),
            Ok((e, n)) => Ok((StmtView::Expr(e), n)),
        },
    }
}

/// The statements from `pos` up to the brace that closes their block; the
/// count includes that brace.
///
/// A statement covers at least one token (`lemma_stmt_covers_a_token`), so the
/// test for an empty statement never fails.
pub open spec fn parse_stmts(tokens: Seq<TokenView>, pos: int) -> Parsed<Seq<StmtView>>
    decreases remaining(tokens, pos), 1nat,
{
    if !(0 <= pos < tokens.len()) {
        Err(failed(ParseErrorView::Eof, pos))
    } else if at(tokens, pos, TokenKind::RBrace) {
        Ok((Seq::empty(), 1))
    } else {
        match parse_stmt(tokens, pos) {
            Err(e) => Err(e),
            Ok((first, n)) => if n == 0 {
                Err(failed(ParseErrorView::Eof, pos))
            } else {
                match parse_stmts(tokens, pos + n) {
                    Err(e) => Err(e),
                    Ok((rest, m)) => Ok((seq![first] + rest, n + m)),
                }
            },
        }
    }
}

/// A block at `pos`: statements between braces.
pub open spec fn parse_block(tokens: Seq<TokenView>, pos: int) -> Parsed<Seq<StmtView>>
    decreases remaining(tokens, pos), 0nat,
{
    match missing(tokens, pos, TokenKind::LBrace) {
        Some(e) => Err(e),
        None => match parse_stmts(tokens, pos + 1) {
            Err(e) => Err(e),
            Ok((stmts, n)) => Ok((stmts, 1 + n)),
        },
    }
}

/// A statement covers at least one token.
pub proof fn lemma_stmt_covers_a_token(tokens: Seq<TokenView>, pos: int)
    ensures
        parse_stmt(tokens, pos) matches Ok((_, n)) ==> n >= 1,
{
    lemma_expr_covers_a_token(tokens, pos, 0);
}

/// An expression covers at least one token.
pub proof fn lemma_expr_covers_a_token(tokens: Seq<TokenView>, pos: int, min_prec: nat)
    ensures
        parse_precedence(tokens, pos, min_prec) matches Ok((_, n)) ==> n >= 1,
{
}

/// A declaration at `pos`: `int`, a name, and then either `(`, `)` and a block,
/// which makes a function, or `=`, an expression and `;`, which makes a
/// variable. The span of either runs from `int` to the end of the name.
#[verifier::opaque]
pub open spec fn parse_decl(tokens: Seq<TokenView>, pos: int) -> Parsed<DeclView> {
    match missing(tokens, pos, TokenKind::Int) {
        Some(e) => Err(e),
        None => match missing_identifier(tokens, pos + 1, "declaration name"@) {
            Some(e) => Err(e),
            None => {
                let name = tokens[pos + 1].text;
                let span = Span { start: tokens[pos].span.start, end: tokens[pos + 1].span.end };
                if at(tokens, pos + 2, TokenKind::LParen) {
                    match missing(tokens, pos + 3, TokenKind::RParen) {
                        Some(e) => Err(e),
                        None => match parse_block(tokens, pos + 4) {
                            Err(e) => Err(e),
                            Ok((body, n)) => Ok(
                                (DeclView::Function { name, params: Seq::empty(), body, span }, 4 + n),
                            ),
                        },
                    }
                } else {
                    match missing(tokens, pos + 2, TokenKind::Assign) {
                        Some(e) => Err(e),
                        None => match parse_expr_then(tokens, pos + 3, TokenKind::Semicolon) {
                            Err(e) => Err(e),
                            Ok((init, n)) => Ok((DeclView::Var { name, init, span }, 3 + n)),
                        },
                    }
                }
            },
        },
    }
}

/// The declarations from `pos` to the end of the input.
pub open spec fn parse_decls(tokens: Seq<TokenView>, pos: int) -> Result<Seq<DeclView>, Failure>
    decreases remaining(tokens, pos),
{
    if !(0 <= pos < tokens.len()) {
        Ok(Seq::empty())
    } else {
        proof {
            reveal(parse_decl);
        }
        match parse_decl(tokens, pos) {
            Err(e) => Err(e),
            Ok((first, n)) => match parse_decls(tokens, pos + n) {
                Err(e) => Err(e),
                Ok(rest) => Ok(seq![first] + rest),
            },
        }
    }
}

/// What parsing the declarations from `pos` to the end of the input comes to:
/// the program or the first error; or nothing, where parsing stops before
/// at an integer literal whose value no literal can hold.
pub open spec fn program_from(tokens: Seq<TokenView>, pos: int) -> Option<
    Result<ProgramView, ParseErrorView>,
> {
    match parse_decls(tokens, pos) {
        Ok(decls) => Some(Ok(ProgramView { decls })),
        Err(failure) => match failure.stop {
            Stop::Error(e) => Some(Err(e)),
            Stop::Literal => None,
        },
    }
}

/// Where the parser stands after parsing the declarations from `pos` on: at
/// the end of the input, if they parse, else where parsing stops.
pub open spec fn position_after(tokens: Seq<TokenView>, pos: int) -> int {
    match parse_decls(tokens, pos) {
        Ok(_) => if pos <= tokens.len() {
            tokens.len() as int
        } else {
            pos
        },
        Err(failure) => failure.at,
    }
}

/// The program that a sequence of tokens spells or the first error, where
/// parsing comes to one of them.
pub open spec fn parse_program(tokens: Seq<TokenView>) -> Option<Result<ProgramView, ParseErrorView>> {
    program_from(tokens, 0)
}

} // verus!

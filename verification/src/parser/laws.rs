//! What holds of every parse.

use crate::ast::nodes::ExprView;
use crate::lexer::token::{TokenKind, TokenView};
use crate::parser::grammar::{
    at, binary, binary_operator, decimal_value, kind_at, literal_fits, missing, missing_identifier,
    operator_at, parse_block, parse_condition, parse_decl, parse_decls, parse_expr,
    parse_expr_then, parse_for_head, parse_for_part, parse_for_tail, parse_if_tail, parse_local,
    parse_operators, parse_precedence, parse_primary, parse_program, parse_stmt, parse_stmts,
    parse_while_tail, program_from, remaining, Failure, Parsed,
};
use vstd::prelude::*;

verus! {

/// Whether the token is an expression by itself: an identifier, or an integer
/// literal whose value a literal can hold.
pub open spec fn is_atom(token: TokenView) -> bool {
    token.kind == TokenKind::Identifier || (token.kind == TokenKind::IntegerLiteral
        && literal_fits(token.text))
}

/// The expression that an atom is.
pub open spec fn atom(token: TokenView) -> ExprView {
    if token.kind == TokenKind::Identifier {
        ExprView::Var { name: token.text, span: token.span }
    } else {
        ExprView::IntLiteral { value: decimal_value(token.text) as i64, span: token.span }
    }
}

/// Whether no binary operator stands at `pos`.
pub open spec fn no_operator_at(tokens: Seq<TokenView>, pos: int) -> bool {
    match kind_at(tokens, pos) {
        Some(kind) => binary_operator(kind) is None,
        None => true,
    }
}

proof fn lemma_atom_alone(tokens: Seq<TokenView>, pos: int, min_prec: nat)
    requires
        0 <= pos < tokens.len(),
        is_atom(tokens[pos]),
        no_operator_at(tokens, pos + 1),
    ensures
        parse_precedence(tokens, pos, min_prec) == Ok::<(ExprView, nat), Failure>(
            (atom(tokens[pos]), 1),
        ),
{
    assert(parse_primary(tokens, pos) == Ok::<(ExprView, nat), Failure>(
        (atom(tokens[pos]), 1),
    ));
    assert(operator_at(tokens, pos + 1, min_prec) is None);
}

/// How two operators in a row share the operand between them: the one that
/// binds tighter takes it; of two that bind alike the left one takes it, unless
/// they associate to the right. So `1 + 2 * 3` is `1 + (2 * 3)`, `1 - 2 - 3` is
/// `(1 - 2) - 3`, and `x = y = 1` is `x = (y = 1)`.
#[verifier::rlimit(50)]
pub proof fn lemma_two_operators(tokens: Seq<TokenView>, pos: int)
    requires
        0 <= pos,
        pos + 5 <= tokens.len(),
        is_atom(tokens[pos]),
        is_atom(tokens[pos + 2]),
        is_atom(tokens[pos + 4]),
        binary_operator(tokens[pos + 1].kind) is Some,
        binary_operator(tokens[pos + 3].kind) is Some,
        no_operator_at(tokens, pos + 5),
    ensures
        ({
            let a = atom(tokens[pos]);
            let b = atom(tokens[pos + 2]);
            let c = atom(tokens[pos + 4]);
            let first = tokens[pos + 1].kind;
            let second = tokens[pos + 3].kind;
            let (tight1, right1) = binary_operator(first)->0;
            let (tight2, _) = binary_operator(second)->0;
            parse_expr(tokens, pos) == Ok::<(ExprView, nat), Failure>(
                (
                    if tight2 > tight1 || (tight2 == tight1 && right1) {
                        binary(first, a, binary(second, b, c))
                    } else {
                        binary(second, binary(first, a, b), c)
                    },
                    5,
                ),
            )
        }),
{
    let a = atom(tokens[pos]);
    let b = atom(tokens[pos + 2]);
    let c = atom(tokens[pos + 4]);
    let first = tokens[pos + 1].kind;
    let second = tokens[pos + 3].kind;
    let (tight1, right1) = binary_operator(first)->0;
    let (tight2, right2) = binary_operator(second)->0;
    let min1: nat = if right1 {
        tight1
    } else {
        tight1 + 1
    };
    let min2: nat = if right2 {
        tight2
    } else {
        tight2 + 1
    };
    assert(parse_primary(tokens, pos) == Ok::<(ExprView, nat), Failure>((a, 1)));
    assert(parse_primary(tokens, pos + 2) == Ok::<(ExprView, nat), Failure>((b, 1)));
    assert(operator_at(tokens, pos + 1, 0) == Some((first, min1)));
    lemma_atom_alone(tokens, pos + 4, min2);
    if tight2 > tight1 || (tight2 == tight1 && right1) {
        let inner = binary(second, b, c);
        assert(operator_at(tokens, pos + 3, min1) == Some((second, min2)));
        assert(operator_at(tokens, pos + 5, min1) is None);
        assert(parse_operators(tokens, pos + 5, inner, min1) == Ok::<
            (ExprView, nat),
            Failure,
        >((inner, 0)));
        assert(parse_operators(tokens, pos + 3, b, min1) == Ok::<(ExprView, nat), Failure>(
            (inner, 2),
        ));
        assert(parse_precedence(tokens, pos + 2, min1) == Ok::<(ExprView, nat), Failure>(
            (inner, 3),
        ));
        let whole = binary(first, a, inner);
        assert(operator_at(tokens, pos + 5, 0) is None);
        assert(parse_operators(tokens, pos + 5, whole, 0) == Ok::<(ExprView, nat), Failure>(
            (whole, 0),
        ));
        assert(parse_operators(tokens, pos + 1, a, 0) == Ok::<(ExprView, nat), Failure>(
            (whole, 4),
        ));
    } else {
        assert(operator_at(tokens, pos + 3, min1) is None);
        assert(parse_operators(tokens, pos + 3, b, min1) == Ok::<(ExprView, nat), Failure>(
            (b, 0),
        ));
        assert(parse_precedence(tokens, pos + 2, min1) == Ok::<(ExprView, nat), Failure>(
            (b, 1),
        ));
        let left = binary(first, a, b);
        let whole = binary(second, left, c);
        assert(operator_at(tokens, pos + 3, 0) == Some((second, min2)));
        assert(operator_at(tokens, pos + 5, 0) is None);
        assert(parse_operators(tokens, pos + 5, whole, 0) == Ok::<(ExprView, nat), Failure>(
            (whole, 0),
        ));
        assert(parse_operators(tokens, pos + 3, left, 0) == Ok::<(ExprView, nat), Failure>(
            (whole, 2),
        ));
        assert(parse_operators(tokens, pos + 1, a, 0) == Ok::<(ExprView, nat), Failure>(
            (whole, 4),
        ));
    }
}

/// The kinds of tokens that some production of the grammar takes. The logical
/// operators, the comma, `void` and the tokens of kind `Error` are not among
/// them.
pub open spec fn in_grammar(kind: TokenKind) -> bool {
    !(kind == TokenKind::LogicalAnd || kind == TokenKind::LogicalOr || kind
        == TokenKind::LogicalNot || kind == TokenKind::Comma || kind == TokenKind::Void || kind
        == TokenKind::Error)
}

/// Whether the `n` tokens from `pos` on exist and are of kinds that the
/// grammar takes.
#[verifier::opaque]
pub open spec fn taken(tokens: Seq<TokenView>, pos: int, n: nat) -> bool {
    &&& 0 <= pos
    &&& pos + n <= tokens.len()
    &&& forall|i: int| pos <= i < pos + n ==> in_grammar(#[trigger] tokens[i].kind)
}

proof fn lemma_taken_none(tokens: Seq<TokenView>, pos: int)
    requires
        0 <= pos <= tokens.len(),
    ensures
        taken(tokens, pos, 0),
{
    reveal(taken);
}

proof fn lemma_taken_one(tokens: Seq<TokenView>, pos: int, kind: TokenKind)
    requires
        at(tokens, pos, kind),
        in_grammar(kind),
    ensures
        taken(tokens, pos, 1),
{
    reveal(taken);
}

proof fn lemma_taken_join(tokens: Seq<TokenView>, pos: int, a: nat, b: nat)
    requires
        taken(tokens, pos, a),
        taken(tokens, pos + a, b),
    ensures
        taken(tokens, pos, a + b),
{
    reveal(taken);
}

proof fn lemma_taken_bound(tokens: Seq<TokenView>, pos: int, n: nat)
    requires
        taken(tokens, pos, n),
    ensures
        0 <= pos,
        pos + n <= tokens.len(),
{
    reveal(taken);
}

proof fn lemma_primary_taken(tokens: Seq<TokenView>, pos: int)
    ensures
        parse_primary(tokens, pos) matches Ok((_, n)) ==> taken(tokens, pos, n),
    decreases remaining(tokens, pos), 0nat,
{
    if 0 <= pos < tokens.len() {
        let kind = tokens[pos].kind;
        if kind == TokenKind::LParen {
            lemma_precedence_taken(tokens, pos + 1, 0);
            if let Ok((_, n)) = parse_precedence(tokens, pos + 1, 0) {
                if missing(tokens, pos + 1 + n, TokenKind::RParen) is None {
                    lemma_taken_one(tokens, pos, TokenKind::LParen);
                    lemma_taken_one(tokens, pos + 1 + n, TokenKind::RParen);
                    lemma_taken_join(tokens, pos, 1, n);
                    lemma_taken_join(tokens, pos, 1 + n, 1);
                }
            }
        } else if kind == TokenKind::IntegerLiteral || kind == TokenKind::Identifier {
            lemma_taken_one(tokens, pos, kind);
        }
    }
}

proof fn lemma_operators_taken(tokens: Seq<TokenView>, pos: int, left: ExprView, min_prec: nat)
    requires
        0 <= pos <= tokens.len(),
    ensures
        parse_operators(tokens, pos, left, min_prec) matches Ok((_, n)) ==> taken(tokens, pos, n),
    decreases remaining(tokens, pos), 1nat,
{
    match operator_at(tokens, pos, min_prec) {
        Some((op, next_min)) => {
            lemma_precedence_taken(tokens, pos + 1, next_min);
            if let Ok((right, n)) = parse_precedence(tokens, pos + 1, next_min) {
                lemma_taken_bound(tokens, pos + 1, n);
                lemma_operators_taken(tokens, pos + 1 + n, binary(op, left, right), min_prec);
                if let Ok((_, m)) = parse_operators(
                    tokens,
                    pos + 1 + n,
                    binary(op, left, right),
                    min_prec,
                ) {
                    lemma_taken_one(tokens, pos, op);
                    lemma_taken_join(tokens, pos, 1, n);
                    lemma_taken_join(tokens, pos, 1 + n, m);
                }
            }
        },
        None => {
            lemma_taken_none(tokens, pos);
        },
    }
}

proof fn lemma_precedence_taken(tokens: Seq<TokenView>, pos: int, min_prec: nat)
    ensures
        parse_precedence(tokens, pos, min_prec) matches Ok((_, n)) ==> taken(tokens, pos, n) && n
            >= 1,
    decreases remaining(tokens, pos), 2nat,
{
    lemma_primary_taken(tokens, pos);
    if let Ok((left, n)) = parse_primary(tokens, pos) {
        lemma_taken_bound(tokens, pos, n);
        lemma_operators_taken(tokens, pos + n, left, min_prec);
        if let Ok((_, m)) = parse_operators(tokens, pos + n, left, min_prec) {
            lemma_taken_join(tokens, pos, n, m);
        }
    }
}

proof fn lemma_expr_then_taken(tokens: Seq<TokenView>, pos: int, closing: TokenKind)
    requires
        in_grammar(closing),
    ensures
        parse_expr_then(tokens, pos, closing) matches Ok((_, n)) ==> taken(tokens, pos, n) && n
            >= 2,
{
    lemma_precedence_taken(tokens, pos, 0);
    if let Ok((_, n)) = parse_expr(tokens, pos) {
        if missing(tokens, pos + n, closing) is None {
            lemma_taken_one(tokens, pos + n, closing);
            lemma_taken_join(tokens, pos, n, 1);
        }
    }
}

proof fn lemma_for_part_taken(tokens: Seq<TokenView>, pos: int, stop: TokenKind)
    requires
        in_grammar(stop),
    ensures
        parse_for_part(tokens, pos, stop) matches Ok((_, n)) ==> taken(tokens, pos, n),
{
    if at(tokens, pos, stop) {
        lemma_taken_one(tokens, pos, stop);
    } else {
        lemma_precedence_taken(tokens, pos, 0);
        if let Ok((_, n)) = parse_expr(tokens, pos) {
            if missing(tokens, pos + n, stop) is None {
                lemma_taken_one(tokens, pos + n, stop);
                lemma_taken_join(tokens, pos, n, 1);
            }
        }
    }
}

proof fn lemma_for_head_taken(tokens: Seq<TokenView>, pos: int)
    ensures
        parse_for_head(tokens, pos) matches Ok((_, n)) ==> taken(tokens, pos, n),
{
    if missing(tokens, pos, TokenKind::LParen) is None {
        lemma_taken_one(tokens, pos, TokenKind::LParen);
        lemma_for_part_taken(tokens, pos + 1, TokenKind::Semicolon);
        if let Ok((_, a)) = parse_for_part(tokens, pos + 1, TokenKind::Semicolon) {
            lemma_taken_join(tokens, pos, 1, a);
            lemma_for_part_taken(tokens, pos + 1 + a, TokenKind::Semicolon);
            if let Ok((_, b)) = parse_for_part(tokens, pos + 1 + a, TokenKind::Semicolon) {
                lemma_taken_join(tokens, pos, 1 + a, b);
                lemma_for_part_taken(tokens, pos + 1 + a + b, TokenKind::RParen);
                if let Ok((_, c)) = parse_for_part(tokens, pos + 1 + a + b, TokenKind::RParen) {
                    lemma_taken_join(tokens, pos, 1 + a + b, c);
                }
            }
        }
    }
}

proof fn lemma_condition_taken(tokens: Seq<TokenView>, pos: int)
    ensures
        parse_condition(tokens, pos) matches Ok((_, n)) ==> taken(tokens, pos, n),
{
    if missing(tokens, pos, TokenKind::LParen) is None {
        lemma_taken_one(tokens, pos, TokenKind::LParen);
        lemma_expr_then_taken(tokens, pos + 1, TokenKind::RParen);
        if let Ok((_, n)) = parse_expr_then(tokens, pos + 1, TokenKind::RParen) {
            lemma_taken_join(tokens, pos, 1, n);
        }
    }
}

proof fn lemma_local_taken(tokens: Seq<TokenView>, pos: int)
    requires
        at(tokens, pos, TokenKind::Int),
    ensures
        parse_local(tokens, pos) matches Ok((_, n)) ==> taken(tokens, pos, n) && n >= 1,
{
    if missing_identifier(tokens, pos + 1, "local variable name"@) is None && missing(
        tokens,
        pos + 2,
        TokenKind::Assign,
    ) is None {
        lemma_taken_one(tokens, pos, TokenKind::Int);
        lemma_taken_one(tokens, pos + 1, TokenKind::Identifier);
        lemma_taken_one(tokens, pos + 2, TokenKind::Assign);
        lemma_taken_join(tokens, pos, 1, 1);
        lemma_taken_join(tokens, pos, 2, 1);
        lemma_expr_then_taken(tokens, pos + 3, TokenKind::Semicolon);
        if let Ok((_, n)) = parse_expr_then(tokens, pos + 3, TokenKind::Semicolon) {
            lemma_taken_join(tokens, pos, 3, n);
        }
    }
}

proof fn lemma_if_tail_taken(tokens: Seq<TokenView>, pos: int)
    ensures
        parse_if_tail(tokens, pos) matches Ok((_, n)) ==> taken(tokens, pos, n),
    decreases remaining(tokens, pos), 1nat,
{
    lemma_condition_taken(tokens, pos);
    if let Ok((_, n)) = parse_condition(tokens, pos) {
        lemma_block_taken(tokens, pos + n);
        if let Ok((_, m)) = parse_block(tokens, pos + n) {
            lemma_taken_join(tokens, pos, n, m);
            if at(tokens, pos + n + m, TokenKind::Else) {
                lemma_taken_one(tokens, pos + n + m, TokenKind::Else);
                lemma_taken_join(tokens, pos, n + m, 1);
                lemma_block_taken(tokens, pos + n + m + 1);
                if let Ok((_, k)) = parse_block(tokens, pos + n + m + 1) {
                    lemma_taken_join(tokens, pos, n + m + 1, k);
                }
            }
        }
    }
}

proof fn lemma_while_tail_taken(tokens: Seq<TokenView>, pos: int)
    ensures
        parse_while_tail(tokens, pos) matches Ok((_, n)) ==> taken(tokens, pos, n),
    decreases remaining(tokens, pos), 1nat,
{
    lemma_condition_taken(tokens, pos);
    if let Ok((_, n)) = parse_condition(tokens, pos) {
        lemma_block_taken(tokens, pos + n);
        if let Ok((_, m)) = parse_block(tokens, pos + n) {
            lemma_taken_join(tokens, pos, n, m);
        }
    }
}

proof fn lemma_for_tail_taken(tokens: Seq<TokenView>, pos: int)
    ensures
        parse_for_tail(tokens, pos) matches Ok((_, n)) ==> taken(tokens, pos, n),
    decreases remaining(tokens, pos), 1nat,
{
    lemma_for_head_taken(tokens, pos);
    if let Ok((_, n)) = parse_for_head(tokens, pos) {
        lemma_block_taken(tokens, pos + n);
        if let Ok((_, m)) = parse_block(tokens, pos + n) {
            lemma_taken_join(tokens, pos, n, m);
        }
    }
}

/// What `lemma_stmt_taken` shows of a statement that opens with a keyword:
/// the keyword and what follows are taken.
proof fn lemma_after_keyword(tokens: Seq<TokenView>, pos: int, kind: TokenKind, n: nat)
    requires
        at(tokens, pos, kind),
        in_grammar(kind),
        taken(tokens, pos + 1, n),
    ensures
        taken(tokens, pos, 1 + n),
{
    lemma_taken_one(tokens, pos, kind);
    lemma_taken_join(tokens, pos, 1, n);
}

#[verifier::rlimit(50)]
proof fn lemma_stmt_taken(tokens: Seq<TokenView>, pos: int)
    ensures
        parse_stmt(tokens, pos) matches Ok((_, n)) ==> taken(tokens, pos, n) && n >= 1,
    decreases remaining(tokens, pos), 0nat,
{
    let kind = kind_at(tokens, pos);
    if kind == Some(TokenKind::LBrace) {
        lemma_stmts_taken(tokens, pos + 1);
        if let Ok((_, n)) = parse_stmts(tokens, pos + 1) {
            lemma_after_keyword(tokens, pos, TokenKind::LBrace, n);
        }
    } else if kind == Some(TokenKind::Semicolon) {
        lemma_taken_one(tokens, pos, TokenKind::Semicolon);
    } else if kind == Some(TokenKind::Int) {
        lemma_local_taken(tokens, pos);
    } else if kind == Some(TokenKind::Return) {
        lemma_expr_then_taken(tokens, pos + 1, TokenKind::Semicolon);
        if let Ok((_, n)) = parse_expr_then(tokens, pos + 1, TokenKind::Semicolon) {
            lemma_after_keyword(tokens, pos, TokenKind::Return, n);
        }
    } else if kind == Some(TokenKind::If) {
        lemma_if_tail_taken(tokens, pos + 1);
        if let Ok((_, n)) = parse_if_tail(tokens, pos + 1) {
            lemma_after_keyword(tokens, pos, TokenKind::If, n);
        }
    } else if kind == Some(TokenKind::While) {
        lemma_while_tail_taken(tokens, pos + 1);
        if let Ok((_, n)) = parse_while_tail(tokens, pos + 1) {
            lemma_after_keyword(tokens, pos, TokenKind::While, n);
        }
    } else if kind == Some(TokenKind::For) {
        lemma_for_tail_taken(tokens, pos + 1);
        if let Ok((_, n)) = parse_for_tail(tokens, pos + 1) {
            lemma_after_keyword(tokens, pos, TokenKind::For, n);
        }
    } else {
        lemma_expr_then_taken(tokens, pos, TokenKind::Semicolon);
    }
}

proof fn lemma_stmts_taken(tokens: Seq<TokenView>, pos: int)
    ensures
        parse_stmts(tokens, pos) matches Ok((_, n)) ==> taken(tokens, pos, n),
    decreases remaining(tokens, pos), 1nat,
{
    if 0 <= pos < tokens.len() {
        if at(tokens, pos, TokenKind::RBrace) {
            lemma_taken_one(tokens, pos, TokenKind::RBrace);
        } else {
            lemma_stmt_taken(tokens, pos);
            if let Ok((_, n)) = parse_stmt(tokens, pos) {
                lemma_stmts_taken(tokens, pos + n);
                if let Ok((_, m)) = parse_stmts(tokens, pos + n) {
                    lemma_taken_join(tokens, pos, n, m);
                }
            }
        }
    }
}

proof fn lemma_block_taken(tokens: Seq<TokenView>, pos: int)
    ensures
        parse_block(tokens, pos) matches Ok((_, n)) ==> taken(tokens, pos, n),
    decreases remaining(tokens, pos), 0nat,
{
    if missing(tokens, pos, TokenKind::LBrace) is None {
        lemma_stmts_taken(tokens, pos + 1);
        if let Ok((_, n)) = parse_stmts(tokens, pos + 1) {
            lemma_after_keyword(tokens, pos, TokenKind::LBrace, n);
        }
    }
}

#[verifier::rlimit(50)]
proof fn lemma_decl_taken(tokens: Seq<TokenView>, pos: int)
    ensures
        parse_decl(tokens, pos) matches Ok((_, n)) ==> taken(tokens, pos, n) && n >= 1,
{
    reveal(parse_decl);
    if missing(tokens, pos, TokenKind::Int) is None && missing_identifier(
        tokens,
        pos + 1,
        "declaration name"@,
    ) is None {
        lemma_taken_one(tokens, pos, TokenKind::Int);
        lemma_taken_one(tokens, pos + 1, TokenKind::Identifier);
        lemma_taken_join(tokens, pos, 1, 1);
        if at(tokens, pos + 2, TokenKind::LParen) {
            if missing(tokens, pos + 3, TokenKind::RParen) is None {
                lemma_taken_one(tokens, pos + 2, TokenKind::LParen);
                lemma_taken_one(tokens, pos + 3, TokenKind::RParen);
                lemma_taken_join(tokens, pos, 2, 1);
                lemma_taken_join(tokens, pos, 3, 1);
                lemma_block_taken(tokens, pos + 4);
                if let Ok((_, n)) = parse_block(tokens, pos + 4) {
                    lemma_taken_join(tokens, pos, 4, n);
                }
            }
        } else if missing(tokens, pos + 2, TokenKind::Assign) is None {
            lemma_taken_one(tokens, pos + 2, TokenKind::Assign);
            lemma_taken_join(tokens, pos, 2, 1);
            lemma_expr_then_taken(tokens, pos + 3, TokenKind::Semicolon);
            if let Ok((_, n)) = parse_expr_then(tokens, pos + 3, TokenKind::Semicolon) {
                lemma_taken_join(tokens, pos, 3, n);
            }
        }
    }
}

/// A declaration that parses ends inside the tokens.
pub proof fn lemma_decl_ends_inside(tokens: Seq<TokenView>, pos: int)
    ensures
        parse_decl(tokens, pos) matches Ok((_, n)) ==> 0 <= pos && pos + n <= tokens.len(),
{
    lemma_decl_taken(tokens, pos);
    if let Ok((_, n)) = parse_decl(tokens, pos) {
        lemma_taken_bound(tokens, pos, n);
    }
}

proof fn lemma_decls_taken(tokens: Seq<TokenView>, pos: int)
    requires
        0 <= pos,
    ensures
        parse_decls(tokens, pos) is Ok ==> forall|i: int|
            pos <= i < tokens.len() ==> in_grammar(#[trigger] tokens[i].kind),
    decreases remaining(tokens, pos),
{
    if pos < tokens.len() {
        lemma_decl_taken(tokens, pos);
        if let Ok((_, n)) = parse_decl(tokens, pos) {
            lemma_decls_taken(tokens, pos + n);
            reveal(taken);
        }
    }
}

/// A sequence of tokens that parses holds no token of a kind that no
/// production takes. So source text that uses `&&`, `||`, `!`, a comma or
/// `void`, or that holds a character that is no part of the language, never
/// parses: what the lexer let through as a token fails here.
pub proof fn lemma_parsed_tokens_are_in_grammar(tokens: Seq<TokenView>)
    ensures
        parse_program(tokens) matches Some(Ok(_)) ==> forall|i: int|
            0 <= i < tokens.len() ==> in_grammar(#[trigger] tokens[i].kind),
{
    lemma_decls_taken(tokens, 0);
}

/// Whether every integer literal among the tokens is a decimal numeral whose
/// value a literal can hold.
pub open spec fn literals_fit(tokens: Seq<TokenView>) -> bool {
    forall|i: int|
        0 <= i < tokens.len() && (#[trigger] tokens[i]).kind == TokenKind::IntegerLiteral
            ==> literal_fits(tokens[i].text)
}

/// Whether a production does not stop at a literal.
spec fn reads<T>(parsed: Parsed<T>) -> bool {
    !(parsed matches Err(failure) && failure.stop is Literal)
}

proof fn lemma_primary_reads(tokens: Seq<TokenView>, pos: int)
    requires
        literals_fit(tokens),
    ensures
        reads(parse_primary(tokens, pos)),
    decreases remaining(tokens, pos), 0nat,
{
    if 0 <= pos < tokens.len() && tokens[pos].kind == TokenKind::LParen {
        lemma_precedence_reads(tokens, pos + 1, 0);
    }
}

proof fn lemma_operators_reads(tokens: Seq<TokenView>, pos: int, left: ExprView, min_prec: nat)
    requires
        literals_fit(tokens),
    ensures
        reads(parse_operators(tokens, pos, left, min_prec)),
    decreases remaining(tokens, pos), 1nat,
{
    if let Some((op, next_min)) = operator_at(tokens, pos, min_prec) {
        lemma_precedence_reads(tokens, pos + 1, next_min);
        if let Ok((right, n)) = parse_precedence(tokens, pos + 1, next_min) {
            lemma_operators_reads(tokens, pos + 1 + n, binary(op, left, right), min_prec);
        }
    }
}

proof fn lemma_precedence_reads(tokens: Seq<TokenView>, pos: int, min_prec: nat)
    requires
        literals_fit(tokens),
    ensures
        reads(parse_precedence(tokens, pos, min_prec)),
    decreases remaining(tokens, pos), 2nat,
{
    lemma_primary_reads(tokens, pos);
    if let Ok((left, n)) = parse_primary(tokens, pos) {
        lemma_operators_reads(tokens, pos + n, left, min_prec);
    }
}

proof fn lemma_expr_then_reads(tokens: Seq<TokenView>, pos: int, closing: TokenKind)
    requires
        literals_fit(tokens),
    ensures
        reads(parse_expr_then(tokens, pos, closing)),
{
    lemma_precedence_reads(tokens, pos, 0);
}

proof fn lemma_for_part_reads(tokens: Seq<TokenView>, pos: int, stop: TokenKind)
    requires
        literals_fit(tokens),
    ensures
        reads(parse_for_part(tokens, pos, stop)),
{
    lemma_precedence_reads(tokens, pos, 0);
}

proof fn lemma_for_head_reads(tokens: Seq<TokenView>, pos: int)
    requires
        literals_fit(tokens),
    ensures
        reads(parse_for_head(tokens, pos)),
{
    lemma_for_part_reads(tokens, pos + 1, TokenKind::Semicolon);
    if let Ok((_, a)) = parse_for_part(tokens, pos + 1, TokenKind::Semicolon) {
        lemma_for_part_reads(tokens, pos + 1 + a, TokenKind::Semicolon);
        if let Ok((_, b)) = parse_for_part(tokens, pos + 1 + a, TokenKind::Semicolon) {
            lemma_for_part_reads(tokens, pos + 1 + a + b, TokenKind::RParen);
        }
    }
}

proof fn lemma_condition_reads(tokens: Seq<TokenView>, pos: int)
    requires
        literals_fit(tokens),
    ensures
        reads(parse_condition(tokens, pos)),
{
    lemma_expr_then_reads(tokens, pos + 1, TokenKind::RParen);
}

proof fn lemma_local_reads(tokens: Seq<TokenView>, pos: int)
    requires
        literals_fit(tokens),
    ensures
        reads(parse_local(tokens, pos)),
{
    lemma_expr_then_reads(tokens, pos + 3, TokenKind::Semicolon);
}

proof fn lemma_if_tail_reads(tokens: Seq<TokenView>, pos: int)
    requires
        literals_fit(tokens),
    ensures
        reads(parse_if_tail(tokens, pos)),
    decreases remaining(tokens, pos), 1nat,
{
    lemma_condition_reads(tokens, pos);
    if let Ok((_, n)) = parse_condition(tokens, pos) {
        lemma_block_reads(tokens, pos + n);
        if let Ok((_, m)) = parse_block(tokens, pos + n) {
            if at(tokens, pos + n + m, TokenKind::Else) {
                lemma_block_reads(tokens, pos + n + m + 1);
            }
        }
    }
}

proof fn lemma_while_tail_reads(tokens: Seq<TokenView>, pos: int)
    requires
        literals_fit(tokens),
    ensures
        reads(parse_while_tail(tokens, pos)),
    decreases remaining(tokens, pos), 1nat,
{
    lemma_condition_reads(tokens, pos);
    if let Ok((_, n)) = parse_condition(tokens, pos) {
        lemma_block_reads(tokens, pos + n);
    }
}

proof fn lemma_for_tail_reads(tokens: Seq<TokenView>, pos: int)
    requires
        literals_fit(tokens),
    ensures
        reads(parse_for_tail(tokens, pos)),
    decreases remaining(tokens, pos), 1nat,
{
    lemma_for_head_reads(tokens, pos);
    if let Ok((_, n)) = parse_for_head(tokens, pos) {
        lemma_block_reads(tokens, pos + n);
    }
}

#[verifier::rlimit(50)]
proof fn lemma_stmt_reads(tokens: Seq<TokenView>, pos: int)
    requires
        literals_fit(tokens),
    ensures
        reads(parse_stmt(tokens, pos)),
    decreases remaining(tokens, pos), 0nat,
{
    let kind = kind_at(tokens, pos);
    if kind == Some(TokenKind::LBrace) {
        lemma_stmts_reads(tokens, pos + 1);
    } else if kind == Some(TokenKind::Semicolon) {
    } else if kind == Some(TokenKind::Int) {
        lemma_local_reads(tokens, pos);
    } else if kind == Some(TokenKind::Return) {
        lemma_expr_then_reads(tokens, pos + 1, TokenKind::Semicolon);
    } else if kind == Some(TokenKind::If) {
        lemma_if_tail_reads(tokens, pos + 1);
    } else if kind == Some(TokenKind::While) {
        lemma_while_tail_reads(tokens, pos + 1);
    } else if kind == Some(TokenKind::For) {
        lemma_for_tail_reads(tokens, pos + 1);
    } else {
        lemma_expr_then_reads(tokens, pos, TokenKind::Semicolon);
    }
}

proof fn lemma_stmts_reads(tokens: Seq<TokenView>, pos: int)
    requires
        literals_fit(tokens),
    ensures
        reads(parse_stmts(tokens, pos)),
    decreases remaining(tokens, pos), 1nat,
{
    if 0 <= pos < tokens.len() && !at(tokens, pos, TokenKind::RBrace) {
        lemma_stmt_reads(tokens, pos);
        if let Ok((_, n)) = parse_stmt(tokens, pos) {
            if n > 0 {
                lemma_stmts_reads(tokens, pos + n);
            }
        }
    }
}

proof fn lemma_block_reads(tokens: Seq<TokenView>, pos: int)
    requires
        literals_fit(tokens),
    ensures
        reads(parse_block(tokens, pos)),
    decreases remaining(tokens, pos), 0nat,
{
    if missing(tokens, pos, TokenKind::LBrace) is None {
        lemma_stmts_reads(tokens, pos + 1);
    }
}

proof fn lemma_decl_reads(tokens: Seq<TokenView>, pos: int)
    requires
        literals_fit(tokens),
    ensures
        reads(parse_decl(tokens, pos)),
{
    reveal(parse_decl);
    lemma_block_reads(tokens, pos + 4);
    lemma_expr_then_reads(tokens, pos + 3, TokenKind::Semicolon);
}

proof fn lemma_decls_read(tokens: Seq<TokenView>, pos: int)
    requires
        literals_fit(tokens),
    ensures
        !(parse_decls(tokens, pos) matches Err(failure) && failure.stop is Literal),
    decreases remaining(tokens, pos),
{
    if 0 <= pos < tokens.len() {
        lemma_decl_reads(tokens, pos);
        lemma_decl_taken(tokens, pos);
        if let Ok((_, n)) = parse_decl(tokens, pos) {
            lemma_decls_read(tokens, pos + n);
        }
    }
}

/// Where every integer literal among the tokens has a value that a literal
/// can hold, parsing comes to a program or to an error.
pub proof fn lemma_fitting_literals_parse(tokens: Seq<TokenView>, pos: int)
    requires
        literals_fit(tokens),
    ensures
        program_from(tokens, pos) is Some,
{
    lemma_decls_read(tokens, pos);
}

} // verus!

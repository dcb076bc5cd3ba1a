//! The recursive-descent parser.

use crate::ast::nodes::{
    decls_view, opt_expr_view, stmts_view, Decl, DeclView, Expr, ExprView, Program, ProgramView,
    Stmt, StmtView,
};
use crate::lexer::token::{tokens_view, Token, TokenKind, TokenView};
use crate::parser::error::{ParseError, ParseErrorView};
use crate::parser::grammar::{
    at, binary_operator, kind_at, missing, missing_identifier, parse_block, parse_condition,
    parse_decl, parse_decls, parse_expr, parse_expr_then, parse_for_head, parse_for_part,
    parse_for_tail, parse_if_tail, parse_operators, parse_optional_expr, parse_precedence,
    parse_primary, parse_stmt, parse_stmts, parse_while_tail, position_after, program_from,
    remaining, shifted, Failure, Parsed, Stop, lemma_stmt_covers_a_token,
};
use crate::parser::laws::lemma_decl_ends_inside;
use crate::parser::literal::literal_value;
use crate::utils::span::Span;
use vstd::prelude::*;
use vstd::string::StringExecFns;

verus! {

/// A recursive-descent parser over a sequence of tokens.
pub struct Parser {
    tokens: Vec<Token>,
    pos: usize,
}

/// Why the parser stops: at an error, or at an integer literal whose value no
/// literal can hold.
enum Halt {
    Error(ParseError),
    Literal,
}

impl View for Halt {
    type V = Stop;

    closed spec fn view(&self) -> Stop {
        match self {
            Halt::Error(e) => Stop::Error(e@),
            Halt::Literal => Stop::Literal,
        }
    }
}

/// The value of what a parsing function returned.
spec fn viewed<T: View>(r: Result<T, Halt>) -> Result<T::V, Stop> {
    match r {
        Ok(v) => Ok(v@),
        Err(e) => Err(e@),
    }
}

/// The value of a returned sequence of statements.
spec fn viewed_stmts(r: Result<Vec<Stmt>, Halt>) -> Result<Seq<StmtView>, Stop> {
    match r {
        Ok(v) => Ok(stmts_view(v@)),
        Err(e) => Err(e@),
    }
}

/// The value of a returned optional expression.
spec fn viewed_optional(r: Result<Option<Box<Expr>>, Halt>) -> Result<
    Option<ExprView>,
    Stop,
> {
    match r {
        Ok(v) => Ok(opt_expr_view(v)),
        Err(e) => Err(e@),
    }
}

/// The value of a returned head of a `for` statement.
spec fn viewed_head(
    r: Result<(Option<Box<Expr>>, Option<Box<Expr>>, Option<Box<Expr>>), Halt>,
) -> Result<(Option<ExprView>, Option<ExprView>, Option<ExprView>), Stop> {
    match r {
        Ok(head) => Ok((opt_expr_view(head.0), opt_expr_view(head.1), opt_expr_view(head.2))),
        Err(e) => Err(e@),
    }
}

/// The value of what parsing a program returned.
pub open spec fn program_viewed(r: Result<Program, ParseError>) -> Result<
    ProgramView,
    ParseErrorView,
> {
    match r {
        Ok(program) => Ok(program@),
        Err(e) => Err(e@),
    }
}

/// Whether a parsing function that went from position `before` to position
/// `after` and returned `got` did what the grammar asks at `before`: on
/// success the same value and a step over the tokens that it covers, on
/// failure the same error and a stop at the same position.
spec fn follows<V>(got: Result<V, Stop>, before: int, after: int, want: Parsed<V>) -> bool {
    match want {
        Ok((v, n)) => got == Ok::<V, Stop>(v) && after == before + n,
        Err(failure) => got == Err::<V, Stop>(failure.stop) && after == failure.at,
    }
}

/// The precedence of a binary operator and whether it associates to the right.
fn operator_info(kind: TokenKind) -> (info: Option<(u8, bool)>)
    ensures
        match info {
            Some((prec, right)) => binary_operator(kind) == Some((prec as nat, right)),
            None => binary_operator(kind) is None,
        },
{
    match kind {
        TokenKind::Assign => Some((0, true)),
        TokenKind::Equal | TokenKind::NotEqual => Some((1, false)),
        TokenKind::Less | TokenKind::LessEqual | TokenKind::Greater | TokenKind::GreaterEqual => Some(
            (2, false),
        ),
        TokenKind::Plus | TokenKind::Minus => Some((3, false)),
        TokenKind::Star | TokenKind::Slash => Some((4, false)),
        _ => None,
    }
}

impl Parser {
    /// The tokens that the parser reads.
    pub closed spec fn tokens(&self) -> Seq<TokenView> {
        tokens_view(self.tokens@)
    }

    /// The index of the next token to read.
    pub closed spec fn pos(&self) -> int {
        self.pos as int
    }

    /// A parser at the start of `tokens`.
    pub fn new(tokens: Vec<Token>) -> (parser: Self)
        ensures
            parser.tokens() == tokens_view(tokens@),
            parser.pos() == 0,
    {
        Parser { tokens, pos: 0 }
    }

    /// Parses declarations up to the end of the tokens.
    ///
    /// Returns the program that the tokens from the current position on spell,
    /// and stands at their end then; or the first error, with no partial
    /// program, and stands where parsing stopped.
    ///
    /// Parsing must not come to an integer literal whose value no literal can
    /// hold; [`Parser::try_parse_program`] asks nothing.
    pub fn parse_program(&mut self) -> (r: Result<Program, ParseError>)
        requires
            program_from(old(self).tokens(), old(self).pos()) is Some,
        ensures
            final(self).tokens() == old(self).tokens(),
            Some(program_viewed(r)) == program_from(old(self).tokens(), old(self).pos()),
            final(self).pos() == position_after(old(self).tokens(), old(self).pos()),
    {
        match self.parse_decls() {
            Ok(program) => Ok(program),
            Err(Halt::Error(e)) => Err(e),
            Err(Halt::Literal) => vstd::pervasive::unreached(),
        }
    }

    /// Parses as [`Parser::parse_program`] does, and returns `None` where
    /// parsing comes to an integer literal whose value no literal can hold.
    /// The parser then stands behind that literal.
    pub fn try_parse_program(&mut self) -> (r: Option<Result<Program, ParseError>>)
        ensures
            final(self).tokens() == old(self).tokens(),
            match r {
                Some(done) => Some(program_viewed(done)),
                None => None,
            } == program_from(old(self).tokens(), old(self).pos()),
            final(self).pos() == position_after(old(self).tokens(), old(self).pos()),
    {
        match self.parse_decls() {
            Ok(program) => Some(Ok(program)),
            Err(Halt::Error(e)) => Some(Err(e)),
            Err(Halt::Literal) => None,
        }
    }

    /// Parses declarations up to the end of the tokens.
    #[verifier::rlimit(50)]
    fn parse_decls(&mut self) -> (r: Result<Program, Halt>)
        ensures
            final(self).tokens() == old(self).tokens(),
            match parse_decls(old(self).tokens(), old(self).pos()) {
                Ok(decls) => viewed(r) == Ok::<ProgramView, Stop>(ProgramView { decls }),
                Err(failure) => viewed(r) == Err::<ProgramView, Stop>(failure.stop),
            },
            final(self).pos() == position_after(old(self).tokens(), old(self).pos()),
    {
        let ghost tokens = self.tokens();
        let ghost start = self.pos();
        let mut decls: Vec<Decl> = Vec::new();
        assert(decls_view(decls@) =~= Seq::empty());
        while !self.is_eof()
            invariant
                tokens == old(self).tokens(),
                start == old(self).pos(),
                self.tokens() == tokens,
                start <= self.pos(),
                start <= tokens.len() ==> self.pos() <= tokens.len(),
                start > tokens.len() ==> self.pos() == start,
                match parse_decls(tokens, self.pos()) {
                    Ok(rest) => parse_decls(tokens, start) == Ok::<Seq<DeclView>, Failure>(
                        decls_view(decls@) + rest,
                    ),
                    Err(e) => parse_decls(tokens, start) == Err::<Seq<DeclView>, Failure>(e),
                },
            decreases remaining(tokens, self.pos()),
        {
            let ghost before = self.pos();
            let decl = self.parse_decl()?;
            proof {
                lemma_decl_ends_inside(tokens, before);
                assert(decls_view(decls@.push(decl)) =~= decls_view(decls@) + seq![decl@]);
                let rest = parse_decls(tokens, self.pos());
                if rest is Ok {
                    assert((decls_view(decls@) + seq![decl@]) + rest->Ok_0 =~= decls_view(decls@)
                        + (seq![decl@] + rest->Ok_0));
                }
            }
            decls.push(decl);
        }
        assert(decls_view(decls@) + Seq::empty() =~= decls_view(decls@));
        Ok(Program { decls })
    }

    #[verifier::rlimit(50)]
    fn parse_decl(&mut self) -> (r: Result<Decl, Halt>)
        ensures
            final(self).tokens() == old(self).tokens(),
            follows(
                viewed(r),
                old(self).pos(),
                final(self).pos(),
                parse_decl(old(self).tokens(), old(self).pos()),
            ),
            r is Ok ==> final(self).pos() > old(self).pos(),
    {
        proof {
            reveal(parse_decl);
        }
        let int_tok = self.expect(TokenKind::Int)?;
        let name_tok = self.expect_identifier("declaration name")?;
        let span = Span { start: int_tok.span.start, end: name_tok.span.end };
        if self.consume(TokenKind::LParen) {
            self.expect(TokenKind::RParen)?;
            let body = self.parse_block()?;
            let params: Vec<String> = Vec::new();
            assert(crate::ast::nodes::names_view(params@) =~= Seq::empty());
            Ok(Decl::Function { name: name_tok.text, params, body, span })
        } else {
            self.expect(TokenKind::Assign)?;
            let init = self.parse_expr_then(TokenKind::Semicolon)?;
            Ok(Decl::Var { name: name_tok.text, init: Box::new(init), span })
        }
    }

    fn parse_block(&mut self) -> (r: Result<Vec<Stmt>, Halt>)
        ensures
            final(self).tokens() == old(self).tokens(),
            follows(
                viewed_stmts(r),
                old(self).pos(),
                final(self).pos(),
                parse_block(old(self).tokens(), old(self).pos()),
            ),
        decreases remaining(old(self).tokens(), old(self).pos()), 0nat,
    {
        self.expect(TokenKind::LBrace)?;
        self.parse_stmts()
    }

    /// Parses statements up to the brace that closes their block, and takes
    /// that brace.
    #[verifier::rlimit(50)]
    fn parse_stmts(&mut self) -> (r: Result<Vec<Stmt>, Halt>)
        ensures
            final(self).tokens() == old(self).tokens(),
            follows(
                viewed_stmts(r),
                old(self).pos(),
                final(self).pos(),
                parse_stmts(old(self).tokens(), old(self).pos()),
            ),
        decreases remaining(old(self).tokens(), old(self).pos()), 1nat,
    {
        let ghost tokens = self.tokens();
        let ghost start = self.pos();
        let mut stmts: Vec<Stmt> = Vec::new();
        assert(stmts_view(stmts@) =~= Seq::empty());
        loop
            invariant
                tokens == old(self).tokens(),
                start == old(self).pos(),
                self.tokens() == tokens,
                start <= self.pos(),
                remaining(tokens, self.pos()) <= remaining(tokens, start),
                match parse_stmts(tokens, self.pos()) {
                    Ok((rest, n)) => parse_stmts(tokens, start) == Ok::<(Seq<StmtView>, nat), Failure>(
                        (stmts_view(stmts@) + rest, (self.pos() - start + n) as nat),
                    ),
                    Err(e) => parse_stmts(tokens, start) == Err::<(Seq<StmtView>, nat), Failure>(e),
                },
            decreases remaining(tokens, self.pos()),
        {
            if self.consume(TokenKind::RBrace) {
                assert(stmts_view(stmts@) + Seq::empty() =~= stmts_view(stmts@));
                return Ok(stmts);
            }
            let ghost before = self.pos();
            let stmt = self.parse_stmt()?;
            proof {
                lemma_stmt_covers_a_token(tokens, before);
                assert(stmts_view(stmts@.push(stmt)) =~= stmts_view(stmts@) + seq![stmt@]);
                let rest = parse_stmts(tokens, self.pos());
                if rest is Ok {
                    assert((stmts_view(stmts@) + seq![stmt@]) + rest->Ok_0.0 =~= stmts_view(stmts@)
                        + (seq![stmt@] + rest->Ok_0.0));
                }
            }
            stmts.push(stmt);
        }
    }

    #[verifier::rlimit(50)]
    fn parse_stmt(&mut self) -> (r: Result<Stmt, Halt>)
        ensures
            final(self).tokens() == old(self).tokens(),
            follows(
                viewed(r),
                old(self).pos(),
                final(self).pos(),
                parse_stmt(old(self).tokens(), old(self).pos()),
            ),
        decreases remaining(old(self).tokens(), old(self).pos()), 0nat,
    {
        if self.consume(TokenKind::LBrace) {
            let stmts = self.parse_stmts()?;
            return Ok(Stmt::Block(stmts));
        }
        if self.consume(TokenKind::Semicolon) {
            return Ok(Stmt::Empty);
        }
        if self.peek_kind() == Some(TokenKind::Int) {
            let int_tok = self.expect(TokenKind::Int)?;
            let name_tok = self.expect_identifier("local variable name")?;
            self.expect(TokenKind::Assign)?;
            let init = self.parse_expr_then(TokenKind::Semicolon)?;
            let span = Span { start: int_tok.span.start, end: init.span().end };
            return Ok(Stmt::LocalVar { name: name_tok.text, init, span });
        }
        if self.consume(TokenKind::Return) {
            let value = self.parse_expr_then(TokenKind::Semicolon)?;
            return Ok(Stmt::Return(Box::new(value)));
        }
        if self.consume(TokenKind::If) {
            return self.parse_if_tail();
        }
        if self.consume(TokenKind::While) {
            return self.parse_while_tail();
        }
        if self.consume(TokenKind::For) {
            return self.parse_for_tail();
        }
        let expr = self.parse_expr_then(TokenKind::Semicolon)?;
        Ok(Stmt::Expr(Box::new(expr)))
    }

    /// Parses an `if` statement behind its keyword.
    #[verifier::rlimit(50)]
    fn parse_if_tail(&mut self) -> (r: Result<Stmt, Halt>)
        ensures
            final(self).tokens() == old(self).tokens(),
            follows(
                viewed(r),
                old(self).pos(),
                final(self).pos(),
                parse_if_tail(old(self).tokens(), old(self).pos()),
            ),
        decreases remaining(old(self).tokens(), old(self).pos()), 1nat,
    {
        let cond = self.parse_condition()?;
        let then_block = self.parse_block()?;
        let else_block = if self.consume(TokenKind::Else) {
            Some(self.parse_block()?)
        } else {
            None
        };
        Ok(Stmt::If { cond: Box::new(cond), then_block, else_block })
    }

    /// Parses a `while` statement behind its keyword.
    fn parse_while_tail(&mut self) -> (r: Result<Stmt, Halt>)
        ensures
            final(self).tokens() == old(self).tokens(),
            follows(
                viewed(r),
                old(self).pos(),
                final(self).pos(),
                parse_while_tail(old(self).tokens(), old(self).pos()),
            ),
        decreases remaining(old(self).tokens(), old(self).pos()), 1nat,
    {
        let cond = self.parse_condition()?;
        let body = self.parse_block()?;
        Ok(Stmt::While(Box::new(cond), body))
    }

    /// Parses a `for` statement behind its keyword.
    #[verifier::rlimit(50)]
    fn parse_for_tail(&mut self) -> (r: Result<Stmt, Halt>)
        ensures
            final(self).tokens() == old(self).tokens(),
            follows(
                viewed(r),
                old(self).pos(),
                final(self).pos(),
                parse_for_tail(old(self).tokens(), old(self).pos()),
            ),
        decreases remaining(old(self).tokens(), old(self).pos()), 1nat,
    {
        let (init, cond, inc) = self.parse_for_head()?;
        let body = self.parse_block()?;
        Ok(Stmt::For { init, cond, inc, body })
    }

    /// Parses `(`, an expression and `)`.
    fn parse_condition(&mut self) -> (r: Result<Expr, Halt>)
        ensures
            final(self).tokens() == old(self).tokens(),
            follows(
                viewed(r),
                old(self).pos(),
                final(self).pos(),
                parse_condition(old(self).tokens(), old(self).pos()),
            ),
    {
        self.expect(TokenKind::LParen)?;
        self.parse_expr_then(TokenKind::RParen)
    }

    /// Parses an expression and the token of kind `closing` behind it.
    fn parse_expr_then(&mut self, closing: TokenKind) -> (r: Result<Expr, Halt>)
        ensures
            final(self).tokens() == old(self).tokens(),
            follows(
                viewed(r),
                old(self).pos(),
                final(self).pos(),
                parse_expr_then(old(self).tokens(), old(self).pos(), closing),
            ),
    {
        let expr = self.parse_expr()?;
        self.expect(closing)?;
        Ok(expr)
    }

    /// Parses the head of a `for` statement, from `(` to `)`.
    #[verifier::rlimit(50)]
    fn parse_for_head(&mut self) -> (r: Result<
        (Option<Box<Expr>>, Option<Box<Expr>>, Option<Box<Expr>>),
        Halt,
    >)
        ensures
            final(self).tokens() == old(self).tokens(),
            follows(
                viewed_head(r),
                old(self).pos(),
                final(self).pos(),
                parse_for_head(old(self).tokens(), old(self).pos()),
            ),
    {
        self.expect(TokenKind::LParen)?;
        let init = self.parse_for_part(TokenKind::Semicolon)?;
        let cond = self.parse_for_part(TokenKind::Semicolon)?;
        let inc = self.parse_for_part(TokenKind::RParen)?;
        Ok((init, cond, inc))
    }

    /// Parses an expression, unless a token of kind `stop` comes next, and
    /// then that token.
    fn parse_for_part(&mut self, stop: TokenKind) -> (r: Result<Option<Box<Expr>>, Halt>)
        ensures
            final(self).tokens() == old(self).tokens(),
            follows(
                viewed_optional(r),
                old(self).pos(),
                final(self).pos(),
                parse_for_part(old(self).tokens(), old(self).pos(), stop),
            ),
    {
        let part = self.parse_optional_expr(stop)?;
        self.expect(stop)?;
        Ok(part)
    }

    /// Parses an expression unless a token of kind `stop` comes next.
    fn parse_optional_expr(&mut self, stop: TokenKind) -> (r: Result<Option<Box<Expr>>, Halt>)
        ensures
            final(self).tokens() == old(self).tokens(),
            follows(
                viewed_optional(r),
                old(self).pos(),
                final(self).pos(),
                parse_optional_expr(old(self).tokens(), old(self).pos(), stop),
            ),
    {
        if self.peek_kind() != Some(stop) {
            let expr = self.parse_expr()?;
            Ok(Some(Box::new(expr)))
        } else {
            Ok(None)
        }
    }

    fn parse_expr(&mut self) -> (r: Result<Expr, Halt>)
        ensures
            final(self).tokens() == old(self).tokens(),
            follows(
                viewed(r),
                old(self).pos(),
                final(self).pos(),
                parse_expr(old(self).tokens(), old(self).pos()),
            ),
        decreases remaining(old(self).tokens(), old(self).pos()), 3nat,
    {
        self.parse_precedence(0)
    }

    #[verifier::rlimit(50)]
    fn parse_precedence(&mut self, min_prec: u8) -> (r: Result<Expr, Halt>)
        ensures
            final(self).tokens() == old(self).tokens(),
            follows(
                viewed(r),
                old(self).pos(),
                final(self).pos(),
                parse_precedence(old(self).tokens(), old(self).pos(), min_prec as nat),
            ),
        decreases remaining(old(self).tokens(), old(self).pos()), 2nat,
    {
        let ghost tokens = self.tokens();
        let ghost start = self.pos();
        let mut lhs = self.parse_primary()?;
        loop
            invariant
                tokens == old(self).tokens(),
                start == old(self).pos(),
                self.tokens() == tokens,
                start <= self.pos(),
                remaining(tokens, self.pos()) <= remaining(tokens, start),
                parse_precedence(tokens, start, min_prec as nat) == shifted(
                    parse_operators(tokens, self.pos(), lhs@, min_prec as nat),
                    (self.pos() - start) as nat,
                ),
            decreases remaining(tokens, self.pos()),
        {
            let found = match self.peek_kind() {
                Some(kind) => match operator_info(kind) {
                    Some((prec, right_assoc)) => if prec >= min_prec {
                        Some((kind, prec, right_assoc))
                    } else {
                        None
                    },
                    None => None,
                },
                None => None,
            };
            match found {
                Some((op, prec, right_assoc)) => {
                    self.bump();
                    let next_min = if right_assoc {
                        prec
                    } else {
                        prec + 1
                    };
                    let rhs = self.parse_precedence(next_min)?;
                    let span = Span { start: lhs.span().start, end: rhs.span().end };
                    lhs = Expr::Binary { op, left: Box::new(lhs), right: Box::new(rhs), span };
                },
                None => {
                    return Ok(lhs);
                },
            }
        }
    }

    fn parse_primary(&mut self) -> (r: Result<Expr, Halt>)
        ensures
            final(self).tokens() == old(self).tokens(),
            follows(
                viewed(r),
                old(self).pos(),
                final(self).pos(),
                parse_primary(old(self).tokens(), old(self).pos()),
            ),
        decreases remaining(old(self).tokens(), old(self).pos()), 0nat,
    {
        let tok = match self.bump() {
            Some(tok) => tok,
            None => {
                return Err(Halt::Error(ParseError::Eof));
            },
        };
        match tok.kind {
            TokenKind::IntegerLiteral => match literal_value(tok.text.as_str()) {
                Some(value) => Ok(Expr::IntLiteral { value, span: tok.span }),
                None => Err(Halt::Literal),
            },
            TokenKind::Identifier => Ok(Expr::Var { name: tok.text, span: tok.span }),
            TokenKind::LParen => {
                let expr = self.parse_expr()?;
                self.expect(TokenKind::RParen)?;
                Ok(expr)
            },
            other => Err(Halt::Error(ParseError::Unexpected(other, tok.span))),
        }
    }

    fn peek(&self) -> (r: Option<&Token>)
        ensures
            match r {
                Some(token) => 0 <= self.pos() < self.tokens().len() && token@
                    == self.tokens()[self.pos()],
                None => self.pos() >= self.tokens().len(),
            },
    {
        if self.pos < self.tokens.len() {
            Some(&self.tokens[self.pos])
        } else {
            None
        }
    }

    fn peek_kind(&self) -> (r: Option<TokenKind>)
        ensures
            r == kind_at(self.tokens(), self.pos()),
    {
        match self.peek() {
            Some(token) => Some(token.kind),
            None => None,
        }
    }

    fn bump(&mut self) -> (r: Option<Token>)
        ensures
            final(self).tokens() == old(self).tokens(),
            match r {
                Some(token) => 0 <= old(self).pos() < old(self).tokens().len() && token@ == old(self).tokens()[old(self).pos()] && final(self).pos() == old(self).pos() + 1,
                None => old(self).pos() >= old(self).tokens().len() && final(self).pos() == old(self).pos(),
            },
    {
        if self.pos < self.tokens.len() {
            let token = self.tokens[self.pos].clone();
            self.pos = self.pos + 1;
            Some(token)
        } else {
            None
        }
    }

    fn consume(&mut self, kind: TokenKind) -> (r: bool)
        ensures
            final(self).tokens() == old(self).tokens(),
            r == at(old(self).tokens(), old(self).pos(), kind),
            final(self).pos() == old(self).pos() + if r {
                1int
            } else {
                0int
            },
    {
        if self.peek_kind() == Some(kind) {
            self.bump();
            true
        } else {
            false
        }
    }

    fn expect(&mut self, kind: TokenKind) -> (r: Result<Token, Halt>)
        ensures
            final(self).tokens() == old(self).tokens(),
            match missing(old(self).tokens(), old(self).pos(), kind) {
                None => r is Ok && r->Ok_0@ == old(self).tokens()[old(self).pos()] && final(self).pos() == old(self).pos() + 1,
                Some(failure) => r is Err && r->Err_0@ == failure.stop && final(self).pos()
                    == failure.at,
            },
    {
        if self.pos < self.tokens.len() {
            let token = &self.tokens[self.pos];
            if token.kind == kind {
                let token = token.clone();
                self.pos = self.pos + 1;
                Ok(token)
            } else {
                Err(
                    Halt::Error(
                        ParseError::Expected {
                            expected: kind.name(),
                            found: token.kind,
                            span: token.span,
                        },
                    ),
                )
            }
        } else {
            Err(
                Halt::Error(
                    ParseError::Expected {
                        expected: kind.name(),
                        found: TokenKind::Error,
                        span: Span { start: 0, end: 0 },
                    },
                ),
            )
        }
    }

    fn expect_identifier(&mut self, context: &str) -> (r: Result<Token, Halt>)
        ensures
            final(self).tokens() == old(self).tokens(),
            match missing_identifier(old(self).tokens(), old(self).pos(), context@) {
                None => r is Ok && r->Ok_0@ == old(self).tokens()[old(self).pos()] && final(self).pos() == old(self).pos() + 1,
                Some(failure) => r is Err && r->Err_0@ == failure.stop && final(self).pos()
                    == failure.at,
            },
    {
        if self.pos >= self.tokens.len() {
            return Err(Halt::Error(ParseError::Eof));
        }
        let token = self.tokens[self.pos].clone();
        if token.kind == TokenKind::Identifier {
            self.pos = self.pos + 1;
            Ok(token)
        } else {
            let mut expected = String::from_str("identifier (");
            expected.append(context);
            expected.append(")");
            Err(Halt::Error(ParseError::Expected { expected, found: token.kind, span: token.span }))
        }
    }

    fn is_eof(&self) -> (r: bool)
        ensures
            r == (self.pos() >= self.tokens().len()),
    {
        self.peek_kind().is_none()
    }
}

} // verus!

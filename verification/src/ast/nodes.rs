//! The nodes of the syntax tree.

use crate::lexer::TokenKind;
use crate::utils::span::Span;
use vstd::prelude::*;

verus! {

/// A program: its declarations, in source order.
#[derive(Debug, PartialEq)]
pub struct Program {
    pub decls: Vec<Decl>,
}

/// A top-level declaration.
#[derive(Debug, PartialEq)]
pub enum Decl {
    Function { name: String, params: Vec<String>, body: Vec<Stmt>, span: Span },
    Var { name: String, init: Box<Expr>, span: Span },
}

/// A statement.
#[allow(inconsistent_fields)]
#[derive(Debug, PartialEq)]
pub enum Stmt {
    Return(Box<Expr>),
    If { cond: Box<Expr>, then_block: Vec<Stmt>, else_block: Option<Vec<Stmt>> },
    While(Box<Expr>, Vec<Stmt>),
    For {
        init: Option<Box<Expr>>,
        cond: Option<Box<Expr>>,
        inc: Option<Box<Expr>>,
        body: Vec<Stmt>,
    },
    Block(Vec<Stmt>),
    Expr(Box<Expr>),
    LocalVar { name: String, init: Expr, span: Span },
    Empty,
}

/// An expression. Every expression owns its span and its operands.
#[derive(Debug, PartialEq)]
pub enum Expr {
    IntLiteral { value: i64, span: Span },
    Var { name: String, span: Span },
    Binary { op: TokenKind, left: Box<Expr>, right: Box<Expr>, span: Span },
}

/// The mathematical value of an [`Expr`].
pub enum ExprView {
    IntLiteral { value: i64, span: Span },
    Var { name: Seq<char>, span: Span },
    Binary { op: TokenKind, left: Box<ExprView>, right: Box<ExprView>, span: Span },
}

/// The mathematical value of a [`Stmt`].
#[allow(inconsistent_fields)]
pub enum StmtView {
    Return(ExprView),
    If { cond: ExprView, then_block: Seq<StmtView>, else_block: Option<Seq<StmtView>> },
    While(ExprView, Seq<StmtView>),
    For {
        init: Option<ExprView>,
        cond: Option<ExprView>,
        inc: Option<ExprView>,
        body: Seq<StmtView>,
    },
    Block(Seq<StmtView>),
    Expr(ExprView),
    LocalVar { name: Seq<char>, init: ExprView, span: Span },
    Empty,
}

/// The mathematical value of a [`Decl`].
pub enum DeclView {
    Function { name: Seq<char>, params: Seq<Seq<char>>, body: Seq<StmtView>, span: Span },
    Var { name: Seq<char>, init: ExprView, span: Span },
}

/// The mathematical value of a [`Program`].
pub struct ProgramView {
    pub decls: Seq<DeclView>,
}

impl ExprView {
    /// The span of the expression.
    pub open spec fn span(self) -> Span {
        match self {
            ExprView::IntLiteral { span, .. } => span,
            ExprView::Var { span, .. } => span,
            ExprView::Binary { span, .. } => span,
        }
    }
}

impl DeclView {
    /// The span of the declaration.
    pub open spec fn span(self) -> Span {
        match self {
            DeclView::Function { span, .. } => span,
            DeclView::Var { span, .. } => span,
        }
    }

    /// The declared name.
    pub open spec fn name(self) -> Seq<char> {
        match self {
            DeclView::Function { name, .. } => name,
            DeclView::Var { name, .. } => name,
        }
    }
}

impl View for Expr {
    type V = ExprView;

    open spec fn view(&self) -> ExprView
        decreases self,
    {
        match self {
            Expr::IntLiteral { value, span } => ExprView::IntLiteral { value: *value, span: *span },
            Expr::Var { name, span } => ExprView::Var { name: name@, span: *span },
            Expr::Binary { op, left, right, span } => ExprView::Binary {
                op: *op,
                left: Box::new((**left).view()),
                right: Box::new((**right).view()),
                span: *span,
            },
        }
    }
}

/// The value of an optional expression.
pub open spec fn opt_expr_view(e: Option<Box<Expr>>) -> Option<ExprView> {
    match e {
        Some(e) => Some((*e)@),
        None => None,
    }
}

/// The values of a sequence of statements, in order.
pub open spec fn stmts_view(stmts: Seq<Stmt>) -> Seq<StmtView>
    decreases stmts,
{
    Seq::new(
        stmts.len(),
        |i: int|
            if 0 <= i < stmts.len() {
                stmts[i].view()
            } else {
                StmtView::Empty
            },
    )
}

impl View for Stmt {
    type V = StmtView;

    open spec fn view(&self) -> StmtView
        decreases self,
    {
        match self {
            Stmt::Return(e) => StmtView::Return((**e)@),
            Stmt::If { cond, then_block, else_block } => StmtView::If {
                cond: (**cond)@,
                then_block: stmts_view(then_block@),
                else_block: match else_block {
                    Some(b) => Some(stmts_view(b@)),
                    None => None,
                },
            },
            Stmt::While(cond, body) => StmtView::While((**cond)@, stmts_view(body@)),
            Stmt::For { init, cond, inc, body } => StmtView::For {
                init: opt_expr_view(*init),
                cond: opt_expr_view(*cond),
                inc: opt_expr_view(*inc),
                body: stmts_view(body@),
            },
            Stmt::Block(stmts) => StmtView::Block(stmts_view(stmts@)),
            Stmt::Expr(e) => StmtView::Expr((**e)@),
            Stmt::LocalVar { name, init, span } => StmtView::LocalVar {
                name: name@,
                init: init@,
                span: *span,
            },
            Stmt::Empty => StmtView::Empty,
        }
    }
}

/// The values of a sequence of names, in order.
pub open spec fn names_view(names: Seq<String>) -> Seq<Seq<char>> {
    Seq::new(names.len(), |i: int| names[i]@)
}

impl View for Decl {
    type V = DeclView;

    open spec fn view(&self) -> DeclView {
        match self {
            Decl::Function { name, params, body, span } => DeclView::Function {
                name: name@,
                params: names_view(params@),
                body: stmts_view(body@),
                span: *span,
            },
            Decl::Var { name, init, span } => DeclView::Var {
                name: name@,
                init: (**init)@,
                span: *span,
            },
        }
    }
}

/// The values of a sequence of declarations, in order.
pub open spec fn decls_view(decls: Seq<Decl>) -> Seq<DeclView> {
    Seq::new(decls.len(), |i: int| decls[i]@)
}

impl View for Program {
    type V = ProgramView;

    open spec fn view(&self) -> ProgramView {
        ProgramView { decls: decls_view(self.decls@) }
    }
}

impl Clone for Expr {
    fn clone(&self) -> (copy: Self)
        ensures
            copy@ == self@,
        decreases self,
    {
        match self {
            Expr::IntLiteral { value, span } => Expr::IntLiteral { value: *value, span: *span },
            Expr::Var { name, span } => Expr::Var { name: name.clone(), span: *span },
            Expr::Binary { op, left, right, span } => Expr::Binary {
                op: *op,
                left: Box::new((**left).clone()),
                right: Box::new((**right).clone()),
                span: *span,
            },
        }
    }
}

/// A copy of an optional expression.
fn clone_optional(expr: &Option<Box<Expr>>) -> (copy: Option<Box<Expr>>)
    ensures
        opt_expr_view(copy) == opt_expr_view(*expr),
{
    match expr {
        Some(e) => Some(Box::new((**e).clone())),
        None => None,
    }
}

/// A copy of a sequence of statements.
fn clone_stmts(stmts: &Vec<Stmt>) -> (copy: Vec<Stmt>)
    ensures
        stmts_view(copy@) == stmts_view(stmts@),
    decreases stmts, 0nat,
{
    let mut copy: Vec<Stmt> = Vec::new();
    let mut i: usize = 0;
    while i < stmts.len()
        invariant
            i <= stmts@.len(),
            copy@.len() == i,
            forall|j: int| 0 <= j < i ==> (#[trigger] copy@[j])@ == stmts@[j]@,
        decreases stmts@.len() - i,
    {
        copy.push(stmts[i].clone());
        i = i + 1;
    }
    assert(stmts_view(copy@) =~= stmts_view(stmts@));
    copy
}

impl Clone for Stmt {
    fn clone(&self) -> (copy: Self)
        ensures
            copy@ == self@,
        decreases self, 1nat,
    {
        match self {
            Stmt::Return(e) => Stmt::Return(Box::new((**e).clone())),
            Stmt::If { cond, then_block, else_block } => Stmt::If {
                cond: Box::new((**cond).clone()),
                then_block: clone_stmts(then_block),
                else_block: match else_block {
                    Some(stmts) => Some(clone_stmts(stmts)),
                    None => None,
                },
            },
            Stmt::While(cond, body) => Stmt::While(Box::new((**cond).clone()), clone_stmts(body)),
            Stmt::For { init, cond, inc, body } => Stmt::For {
                init: clone_optional(init),
                cond: clone_optional(cond),
                inc: clone_optional(inc),
                body: clone_stmts(body),
            },
            Stmt::Block(stmts) => Stmt::Block(clone_stmts(stmts)),
            Stmt::Expr(e) => Stmt::Expr(Box::new((**e).clone())),
            Stmt::LocalVar { name, init, span } => Stmt::LocalVar {
                name: name.clone(),
                init: init.clone(),
                span: *span,
            },
            Stmt::Empty => Stmt::Empty,
        }
    }
}

impl Clone for Decl {
    fn clone(&self) -> (copy: Self)
        ensures
            copy@ == self@,
    {
        match self {
            Decl::Function { name, params, body, span } => {
                let mut names: Vec<String> = Vec::new();
                let mut i: usize = 0;
                while i < params.len()
                    invariant
                        i <= params@.len(),
                        names@.len() == i,
                        forall|j: int| 0 <= j < i ==> (#[trigger] names@[j])@ == params@[j]@,
                    decreases params@.len() - i,
                {
                    names.push(params[i].clone());
                    i = i + 1;
                }
                assert(names_view(names@) =~= names_view(params@));
                Decl::Function {
                    name: name.clone(),
                    params: names,
                    body: clone_stmts(body),
                    span: *span,
                }
            },
            Decl::Var { name, init, span } => Decl::Var {
                name: name.clone(),
                init: Box::new((**init).clone()),
                span: *span,
            },
        }
    }
}

impl Clone for Program {
    fn clone(&self) -> (copy: Self)
        ensures
            copy@ == self@,
    {
        let mut decls: Vec<Decl> = Vec::new();
        let mut i: usize = 0;
        while i < self.decls.len()
            invariant
                i <= self.decls@.len(),
                decls@.len() == i,
                forall|j: int| 0 <= j < i ==> (#[trigger] decls@[j])@ == self.decls@[j]@,
            decreases self.decls@.len() - i,
        {
            decls.push(self.decls[i].clone());
            i = i + 1;
        }
        assert(decls_view(decls@) =~= decls_view(self.decls@));
        Program { decls }
    }
}

impl Decl {
    /// The span of the declaration.
    pub fn span(&self) -> (span: Span)
        ensures
            span == self@.span(),
    {
        match self {
            Decl::Function { span, .. } => *span,
            Decl::Var { span, .. } => *span,
        }
    }
}

impl Expr {
    /// The span of the expression.
    pub fn span(&self) -> (span: Span)
        ensures
            span == self@.span(),
    {
        match self {
            Expr::IntLiteral { span, .. } => *span,
            Expr::Var { span, .. } => *span,
            Expr::Binary { span, .. } => *span,
        }
    }
}

} // verus!

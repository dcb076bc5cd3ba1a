//! The rules of scoping and typing, as functions on syntax and scopes.

use crate::ast::nodes::{DeclView, ExprView, ProgramView, StmtView};
use crate::semantic::error::SemanticErrorView;
use crate::semantic::symbol_table::{declare, resolve, Scope, Scopes, SymbolView, Type};
use crate::utils::span::Span;
use vstd::prelude::*;

verus! {

/// A scope in which nothing is declared.
pub open spec fn empty_scope() -> Scope {
    Map::empty()
}

/// The error for an expression of type `found` where `Int` is asked for.
pub open spec fn mismatch(found: Type, span: Span) -> SemanticErrorView {
    SemanticErrorView::TypeMismatch { expected: "Int"@, found: found.spec_name(), span }
}

/// The type of an expression in `scopes`, or the first error in it, operands
/// from left to right. A name has the type of the symbol that it resolves to;
/// a binary expression asks `Int` of both operands and has type `Int`.
pub open spec fn type_of(scopes: Scopes, expr: ExprView) -> Result<Type, SemanticErrorView>
    decreases expr,
{
    match expr {
        ExprView::IntLiteral { .. } => Ok(Type::Int),
        ExprView::Var { name, span } => match resolve(scopes, name) {
            Some(symbol) => Ok(symbol.ty),
            None => Err(SemanticErrorView::UndefinedVariable(name, span)),
        },
        ExprView::Binary { left, right, span, .. } => match type_of(scopes, *left) {
            Err(e) => Err(e),
            Ok(lt) => match type_of(scopes, *right) {
                Err(e) => Err(e),
                Ok(rt) => if lt != Type::Int {
                    Err(mismatch(lt, span))
                } else if rt != Type::Int {
                    Err(mismatch(rt, span))
                } else {
                    Ok(Type::Int)
                },
            },
        },
    }
}

/// The error, if any, of asking type `Int` of an expression; a mismatch is
/// reported at `span`.
pub open spec fn int_error(scopes: Scopes, expr: ExprView, span: Span) -> Option<SemanticErrorView> {
    match type_of(scopes, expr) {
        Err(e) => Some(e),
        Ok(ty) => if ty != Type::Int {
            Some(mismatch(ty, span))
        } else {
            None
        },
    }
}

/// The error, if any, in an expression that may be absent and may have any
/// type.
pub open spec fn optional_error(scopes: Scopes, expr: Option<ExprView>) -> Option<
    SemanticErrorView,
> {
    match expr {
        Some(e) => match type_of(scopes, e) {
            Err(e) => Some(e),
            Ok(_) => None,
        },
        None => None,
    }
}

/// The error, if any, in the head of a `for` statement: the initializer, the
/// condition, of which `Int` is asked, and the increment, in this order.
pub open spec fn for_head_error(
    scopes: Scopes,
    init: Option<ExprView>,
    cond: Option<ExprView>,
    inc: Option<ExprView>,
) -> Option<SemanticErrorView> {
    match optional_error(scopes, init) {
        Some(e) => Some(e),
        None => match (
            match cond {
                Some(c) => int_error(scopes, c, c.span()),
                None => None,
            }
        ) {
            Some(e) => Some(e),
            None => optional_error(scopes, inc),
        },
    }
}

/// Checks a statement in `scopes` and gives the scopes behind it, or the first
/// error. Only a local variable declaration changes the scopes: it declares
/// its name in the innermost one. A block, each arm of an `if`, the body of a
/// `while` and a whole `for` statement are checked in a scope of their own,
/// which is closed behind them.
pub open spec fn check_stmt(scopes: Scopes, stmt: StmtView) -> Result<Scopes, SemanticErrorView>
    decreases stmt, 0nat,
{
    match stmt {
        StmtView::Empty => Ok(scopes),
        StmtView::Return(e) => match type_of(scopes, e) {
            Err(e) => Err(e),
            Ok(_) => Ok(scopes),
        },
        StmtView::Expr(e) => match type_of(scopes, e) {
            Err(e) => Err(e),
            Ok(_) => Ok(scopes),
        },
        StmtView::If { cond, then_block, else_block } => match int_error(scopes, cond, cond.span()) {
            Some(e) => Err(e),
            None => match check_stmts(scopes.push(empty_scope()), then_block, 0) {
                Err(e) => Err(e),
                Ok(_) => match else_block {
                    Some(stmts) => match check_stmts(scopes.push(empty_scope()), stmts, 0) {
                        Err(e) => Err(e),
                        Ok(_) => Ok(scopes),
                    },
                    None => Ok(scopes),
                },
            },
        },
        StmtView::While(cond, body) => match int_error(scopes, cond, cond.span()) {
            Some(e) => Err(e),
            None => match check_stmts(scopes.push(empty_scope()), body, 0) {
                Err(e) => Err(e),
                Ok(_) => Ok(scopes),
            },
        },
        StmtView::For { init, cond, inc, body } => match for_head_error(
            scopes.push(empty_scope()),
            init,
            cond,
            inc,
        ) {
            Some(e) => Err(e),
            None => match check_stmts(scopes.push(empty_scope()), body, 0) {
                Err(e) => Err(e),
                Ok(_) => Ok(scopes),
            },
        },
        StmtView::LocalVar { name, init, span } => match int_error(scopes, init, span) {
            Some(e) => Err(e),
            None => declare(scopes, SymbolView { name, ty: Type::Int, span }),
        },
        StmtView::Block(stmts) => match check_stmts(scopes.push(empty_scope()), stmts, 0) {
            Err(e) => Err(e),
            Ok(_) => Ok(scopes),
        },
    }
}

/// Checks the statements from index `from` on, one after the other, each in
/// the scopes that the one before it left.
pub open spec fn check_stmts(scopes: Scopes, stmts: Seq<StmtView>, from: int) -> Result<
    Scopes,
    SemanticErrorView,
>
    decreases stmts, stmts.len() - from,
{
    if 0 <= from < stmts.len() {
        match check_stmt(scopes, stmts[from]) {
            Err(e) => Err(e),
            Ok(next) => check_stmts(next, stmts, from + 1),
        }
    } else {
        Ok(scopes)
    }
}

/// A statement that passes leaves every scope but the innermost as it was.
pub proof fn lemma_stmt_keeps_outer_scopes(scopes: Scopes, stmt: StmtView)
    requires
        scopes.len() > 0,
    ensures
        check_stmt(scopes, stmt) matches Ok(after) ==> after.len() == scopes.len()
            && after.drop_last() == scopes.drop_last(),
{
    if let Ok(after) = check_stmt(scopes, stmt) {
        assert(after.drop_last() =~= scopes.drop_last());
    }
}

/// Statements that pass leave every scope but the innermost as it was.
pub proof fn lemma_stmts_keep_outer_scopes(scopes: Scopes, stmts: Seq<StmtView>, from: int)
    requires
        scopes.len() > 0,
    ensures
        check_stmts(scopes, stmts, from) matches Ok(after) ==> after.len() == scopes.len()
            && after.drop_last() == scopes.drop_last(),
    decreases stmts.len() - from,
{
    if 0 <= from < stmts.len() {
        lemma_stmt_keeps_outer_scopes(scopes, stmts[from]);
        if let Ok(next) = check_stmt(scopes, stmts[from]) {
            lemma_stmts_keep_outer_scopes(next, stmts, from + 1);
        }
    }
}

/// The symbol that a top-level declaration declares.
pub open spec fn symbol_of(decl: DeclView) -> SymbolView {
    SymbolView { name: decl.name(), ty: Type::Int, span: decl.span() }
}

/// Declares the names of the declarations from index `from` on, in order.
pub open spec fn register(scopes: Scopes, decls: Seq<DeclView>, from: int) -> Result<
    Scopes,
    SemanticErrorView,
>
    decreases decls.len() - from,
{
    if 0 <= from < decls.len() {
        match declare(scopes, symbol_of(decls[from])) {
            Err(e) => Err(e),
            Ok(next) => register(next, decls, from + 1),
        }
    } else {
        Ok(scopes)
    }
}

/// The error, if any, in a declaration: in the body of a function, checked in
/// a scope of its own, or in the initializer of a variable, of which `Int` is
/// asked.
pub open spec fn decl_error(scopes: Scopes, decl: DeclView) -> Option<SemanticErrorView> {
    match decl {
        DeclView::Function { body, .. } => match check_stmts(scopes.push(empty_scope()), body, 0) {
            Err(e) => Some(e),
            Ok(_) => None,
        },
        DeclView::Var { init, .. } => int_error(scopes, init, init.span()),
    }
}

/// The first error in the declarations from index `from` on.
pub open spec fn decls_error(scopes: Scopes, decls: Seq<DeclView>, from: int) -> Option<
    SemanticErrorView,
>
    decreases decls.len() - from,
{
    if 0 <= from < decls.len() {
        match decl_error(scopes, decls[from]) {
            Some(e) => Some(e),
            None => decls_error(scopes, decls, from + 1),
        }
    } else {
        None
    }
}

/// What semantic analysis says of a program. First every top-level name is
/// declared in the outermost scope, in source order; then every declaration is
/// checked, in source order. The result is the first error, if there is one.
pub open spec fn analyze(program: ProgramView) -> Result<(), SemanticErrorView> {
    match register(seq![empty_scope()], program.decls, 0) {
        Err(e) => Err(e),
        Ok(scopes) => match decls_error(scopes, program.decls, 0) {
            Some(e) => Err(e),
            None => Ok(()),
        },
    }
}

} // verus!

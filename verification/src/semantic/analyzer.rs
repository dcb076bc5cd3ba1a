//! The analyzer.

use crate::ast::nodes::{decls_view, stmts_view, Decl, Expr, Program, Stmt};
use crate::semantic::error::{SemanticError, SemanticErrorView};
use crate::semantic::rules::{
    analyze, check_stmt, check_stmts, decl_error, decls_error, empty_scope,
    lemma_stmts_keep_outer_scopes, mismatch, register, type_of,
};
use crate::semantic::symbol_table::{unit_viewed, Scopes, SymbolTable, Type};
use crate::utils::span::Span;
use vstd::prelude::*;

verus! {

/// The semantic analyzer: resolves names against a stack of lexical scopes and
/// checks types.
pub struct SemanticAnalyzer {
    symbols: SymbolTable,
}

/// The error for an expression of type `found` where `Int` is asked for.
fn mismatch_error(found: Type, span: Span) -> (e: SemanticError)
    ensures
        e@ == mismatch(found, span),
{
    SemanticError::TypeMismatch { expected: "Int".to_owned(), found: found.name(), span }
}

impl SemanticAnalyzer {
    /// The scopes that are open.
    pub closed spec fn scopes(&self) -> Scopes {
        self.symbols@
    }

    /// An analyzer with the outermost scope and nothing declared.
    pub fn new() -> (analyzer: Self)
        ensures
            analyzer.scopes() == seq![empty_scope()],
    {
        SemanticAnalyzer { symbols: SymbolTable::new() }
    }

    /// Analyzes a program and returns the first error, if there is one.
    ///
    /// Every call works on a table of its own, which starts with the
    /// outermost scope and nothing declared and is dropped at the end. So the
    /// result depends on the program alone: analyzing the same program again
    /// gives the same result.
    pub fn analyze(&mut self, program: &Program) -> (r: Result<(), SemanticError>)
        ensures
            unit_viewed(r) == analyze(program@),
            final(self).scopes() == seq![empty_scope()],
    {
        self.symbols = SymbolTable::new();
        let r = self.check_program(program);
        self.symbols = SymbolTable::new();
        r
    }

    /// Declares the top-level names and checks the declarations.
    #[verifier::rlimit(50)]
    fn check_program(&mut self, program: &Program) -> (r: Result<(), SemanticError>)
        requires
            old(self).scopes() == seq![empty_scope()],
        ensures
            unit_viewed(r) == analyze(program@),
    {
        let ghost decls = program@.decls;
        let mut i: usize = 0;
        while i < program.decls.len()
            invariant
                decls == decls_view(program.decls@),
                i <= program.decls@.len(),
                self.scopes().len() > 0,
                register(seq![empty_scope()], decls, 0) == register(self.scopes(), decls, i as int),
            decreases program.decls@.len() - i,
        {
            self.symbols.insert(&program.decls[i])?;
            i = i + 1;
        }
        let ghost scopes = self.scopes();
        let mut i: usize = 0;
        while i < program.decls.len()
            invariant
                decls == decls_view(program.decls@),
                i <= program.decls@.len(),
                self.scopes() == scopes,
                scopes.len() > 0,
                register(seq![empty_scope()], decls, 0) == Ok::<Scopes, SemanticErrorView>(scopes),
                decls_error(scopes, decls, 0) == decls_error(scopes, decls, i as int),
            decreases program.decls@.len() - i,
        {
            self.check_decl(&program.decls[i])?;
            i = i + 1;
        }
        Ok(())
    }

    fn check_decl(&mut self, decl: &Decl) -> (r: Result<(), SemanticError>)
        requires
            old(self).scopes().len() > 0,
        ensures
            match decl_error(old(self).scopes(), decl@) {
                Some(e) => r is Err && r->Err_0@ == e,
                None => r is Ok && final(self).scopes() == old(self).scopes(),
            },
    {
        match decl {
            Decl::Function { body, .. } => {
                self.check_block(body)
            },
            Decl::Var { init, .. } => {
                let ty = self.check_expr(init)?;
                if ty != Type::Int {
                    return Err(mismatch_error(ty, init.span()));
                }
                Ok(())
            },
        }
    }

    /// Checks statements in a scope of their own and closes it behind them.
    fn check_block(&mut self, stmts: &Vec<Stmt>) -> (r: Result<(), SemanticError>)
        requires
            old(self).scopes().len() > 0,
        ensures
            match check_stmts(old(self).scopes().push(empty_scope()), stmts_view(stmts@), 0) {
                Err(e) => r is Err && r->Err_0@ == e,
                Ok(_) => r is Ok && final(self).scopes() == old(self).scopes(),
            },
        decreases stmts, 1nat,
    {
        self.symbols.enter_scope();
        proof {
            lemma_stmts_keep_outer_scopes(self.scopes(), stmts_view(stmts@), 0);
            assert(self.scopes().drop_last() =~= old(self).scopes());
        }
        self.check_stmts(stmts)?;
        self.symbols.exit_scope();
        Ok(())
    }

    /// Checks statements one after the other in the scope that is open.
    fn check_stmts(&mut self, stmts: &Vec<Stmt>) -> (r: Result<(), SemanticError>)
        requires
            old(self).scopes().len() > 0,
        ensures
            match check_stmts(old(self).scopes(), stmts_view(stmts@), 0) {
                Err(e) => r is Err && r->Err_0@ == e,
                Ok(scopes) => r is Ok && final(self).scopes() == scopes && scopes.len() == old(self).scopes().len(),
            },
        decreases stmts, 0nat,
    {
        let ghost start = self.scopes();
        let ghost all = stmts_view(stmts@);
        let mut i: usize = 0;
        while i < stmts.len()
            invariant
                start == old(self).scopes(),
                all == stmts_view(stmts@),
                i <= stmts@.len(),
                self.scopes().len() == start.len(),
                start.len() > 0,
                check_stmts(start, all, 0) == check_stmts(self.scopes(), all, i as int),
            decreases stmts@.len() - i,
        {
            self.check_stmt(&stmts[i])?;
            i = i + 1;
        }
        Ok(())
    }

    #[verifier::rlimit(50)]
    fn check_stmt(&mut self, stmt: &Stmt) -> (r: Result<(), SemanticError>)
        requires
            old(self).scopes().len() > 0,
        ensures
            match check_stmt(old(self).scopes(), stmt@) {
                Err(e) => r is Err && r->Err_0@ == e,
                Ok(scopes) => r is Ok && final(self).scopes() == scopes && scopes.len() == old(self).scopes().len(),
            },
        decreases stmt,
    {
        match stmt {
            Stmt::Empty => Ok(()),
            Stmt::Return(expr) => {
                self.check_expr(expr)?;
                Ok(())
            },
            Stmt::Expr(expr) => {
                self.check_expr(expr)?;
                Ok(())
            },
            Stmt::If { cond, then_block, else_block } => {
                let cond_ty = self.check_expr(cond)?;
                if cond_ty != Type::Int {
                    return Err(mismatch_error(cond_ty, cond.span()));
                }
                self.check_block(then_block)?;
                match else_block {
                    Some(stmts) => {
                        self.check_block(stmts)?;
                    },
                    None => {},
                }
                Ok(())
            },
            Stmt::While(cond, body) => {
                let ty = self.check_expr(cond)?;
                if ty != Type::Int {
                    return Err(mismatch_error(ty, cond.span()));
                }
                self.check_block(body)
            },
            Stmt::For { init, cond, inc, body } => {
                self.symbols.enter_scope();
                match init {
                    Some(expr) => {
                        self.check_expr(expr)?;
                    },
                    None => {},
                }
                match cond {
                    Some(expr) => {
                        let ty = self.check_expr(expr)?;
                        if ty != Type::Int {
                            return Err(mismatch_error(ty, expr.span()));
                        }
                    },
                    None => {},
                }
                match inc {
                    Some(expr) => {
                        self.check_expr(expr)?;
                    },
                    None => {},
                }
                proof {
                    lemma_stmts_keep_outer_scopes(self.scopes(), stmts_view(body@), 0);
                    assert(self.scopes().drop_last() =~= old(self).scopes());
                }
                self.check_stmts(body)?;
                self.symbols.exit_scope();
                Ok(())
            },
            Stmt::LocalVar { name, init, span } => {
                let ty = self.check_expr(init)?;
                if ty != Type::Int {
                    return Err(mismatch_error(ty, *span));
                }
                self.symbols.insert_symbol(name.clone(), Type::Int, *span)
            },
            Stmt::Block(stmts) => self.check_block(stmts),
        }
    }

    fn check_expr(&mut self, expr: &Expr) -> (r: Result<Type, SemanticError>)
        ensures
            final(self).scopes() == old(self).scopes(),
            match type_of(old(self).scopes(), expr@) {
                Err(e) => r is Err && r->Err_0@ == e,
                Ok(ty) => r == Ok::<Type, SemanticError>(ty),
            },
        decreases expr,
    {
        match expr {
            Expr::IntLiteral { .. } => Ok(Type::Int),
            Expr::Var { name, span } => {
                match self.symbols.lookup(name.as_str()) {
                    Some(symbol) => Ok(symbol.ty),
                    None => Err(SemanticError::UndefinedVariable(name.clone(), *span)),
                }
            },
            Expr::Binary { left, right, span, .. } => {
                let lt = self.check_expr(left)?;
                let rt = self.check_expr(right)?;
                if lt != Type::Int || rt != Type::Int {
                    return Err(
                        mismatch_error(
                            if lt != Type::Int {
                                lt
                            } else {
                                rt
                            },
                            *span,
                        ),
                    );
                }
                Ok(Type::Int)
            },
        }
    }
}

} // verus!

//! What holds of scoping and typing for every program.

use crate::ast::nodes::{DeclView, ExprView, ProgramView, StmtView};
use crate::semantic::error::SemanticErrorView;
use crate::semantic::rules::{
    analyze, check_stmt, check_stmts, decls_error, empty_scope, int_error, register, symbol_of,
    type_of,
};
use crate::semantic::symbol_table::{declare, resolve, Scopes, SymbolView, Type};
use crate::utils::span::Span;
use vstd::prelude::*;

verus! {

/// A name that is declared resolves to its declaration in the innermost scope
/// that declares it: a declaration shadows those of the scopes around it.
pub proof fn lemma_declared_name_resolves(scopes: Scopes, symbol: SymbolView)
    requires
        scopes.len() > 0,
    ensures
        declare(scopes, symbol) matches Ok(after) ==> resolve(after, symbol.name) == Some(symbol),
{
}

/// Shadowing is legal: in a scope that was just opened any name can be
/// declared, whatever the scopes around it declare.
pub proof fn lemma_shadowing_is_legal(scopes: Scopes, symbol: SymbolView)
    ensures
        declare(scopes.push(empty_scope()), symbol) is Ok,
        resolve(declare(scopes.push(empty_scope()), symbol)->Ok_0, symbol.name) == Some(symbol),
{
}

/// Redeclaring a name in the scope that declares it is an error, at the span
/// of the second declaration.
pub proof fn lemma_redeclaration_is_rejected(scopes: Scopes, first: SymbolView, second: SymbolView)
    requires
        scopes.len() > 0,
        first.name == second.name,
    ensures
        declare(scopes, first) matches Ok(after) ==> declare(after, second) == Err::<
            Scopes,
            SemanticErrorView,
        >(SemanticErrorView::DuplicateSymbol(second.name, second.span)),
{
}

/// A block statement that passes leaves the scopes exactly as they were, so a
/// name that the block declared is no longer visible behind it.
pub proof fn lemma_block_leaves_scopes(scopes: Scopes, stmts: Seq<StmtView>)
    ensures
        check_stmt(scopes, StmtView::Block(stmts)) matches Ok(after) ==> after == scopes,
{
}

/// A local variable that a block declares is undefined behind the block,
/// unless a scope around the block declares the name too.
pub proof fn lemma_local_is_invisible_behind_its_block(
    scopes: Scopes,
    name: Seq<char>,
    init: ExprView,
    span: Span,
    use_span: Span,
)
    requires
        resolve(scopes, name) is None,
        int_error(scopes.push(empty_scope()), init, span) is None,
    ensures
        check_stmts(
            scopes,
            seq![
                StmtView::Block(seq![StmtView::LocalVar { name, init, span }]),
                StmtView::Return(ExprView::Var { name, span: use_span }),
            ],
            0,
        ) == Err::<Scopes, SemanticErrorView>(SemanticErrorView::UndefinedVariable(name, use_span)),
{
    let inner = scopes.push(empty_scope());
    let local = StmtView::LocalVar { name, init, span };
    let block = StmtView::Block(seq![local]);
    let ret = StmtView::Return(ExprView::Var { name, span: use_span });
    let all = seq![block, ret];
    assert(!inner.last().contains_key(name));
    let declared = declare(inner, SymbolView { name, ty: Type::Int, span });
    assert(declared is Ok);
    assert(check_stmt(inner, local) == declared);
    reveal_with_fuel(check_stmts, 3);
    assert(check_stmts(inner, seq![local], 0) == declared);
    assert(check_stmt(scopes, block) == Ok::<Scopes, SemanticErrorView>(scopes));
    assert(all[0] == block);
    assert(all[1] == ret);
    assert(check_stmt(scopes, ret) == Err::<Scopes, SemanticErrorView>(
        SemanticErrorView::UndefinedVariable(name, use_span),
    ));
}

/// In a block a local variable may take a name that is visible already, and
/// the name then stands for the local variable to the end of the block.
pub proof fn lemma_local_may_shadow(
    scopes: Scopes,
    name: Seq<char>,
    init: ExprView,
    span: Span,
    use_span: Span,
)
    requires
        int_error(scopes.push(empty_scope()), init, span) is None,
    ensures
        check_stmt(
            scopes,
            StmtView::Block(
                seq![
                    StmtView::LocalVar { name, init, span },
                    StmtView::Return(ExprView::Var { name, span: use_span }),
                ],
            ),
        ) == Ok::<Scopes, SemanticErrorView>(scopes),
{
    let inner = scopes.push(empty_scope());
    let local = StmtView::LocalVar { name, init, span };
    let ret = StmtView::Return(ExprView::Var { name, span: use_span });
    let body = seq![local, ret];
    assert(!inner.last().contains_key(name));
    let symbol = SymbolView { name, ty: Type::Int, span };
    let declared = declare(inner, symbol);
    assert(declared is Ok);
    let after = declared->Ok_0;
    assert(resolve(after, name) == Some(symbol));
    assert(check_stmt(inner, local) == declared);
    assert(check_stmt(after, ret) == Ok::<Scopes, SemanticErrorView>(after));
    reveal_with_fuel(check_stmts, 3);
    assert(body[0] == local);
    assert(body[1] == ret);
    assert(check_stmts(inner, body, 0) == Ok::<Scopes, SemanticErrorView>(after));
}

/// Whether no two of the declarations have the same name.
pub open spec fn distinct_names(decls: Seq<DeclView>) -> bool {
    forall|i: int, j: int|
        0 <= i < j < decls.len() ==> (#[trigger] decls[i]).name() != (#[trigger] decls[j]).name()
}

/// Whether the outermost scope holds the names of the first `n` declarations
/// and no other name.
spec fn holds_first(scopes: Scopes, decls: Seq<DeclView>, n: int) -> bool {
    &&& scopes.len() == 1
    &&& forall|name: Seq<char>|
        scopes[0].contains_key(name) <==> exists|i: int|
            0 <= i < n && (#[trigger] decls[i]).name() == name
}

proof fn lemma_register_distinct(scopes: Scopes, decls: Seq<DeclView>, from: int)
    requires
        0 <= from <= decls.len(),
        holds_first(scopes, decls, from),
        forall|i: int, j: int|
            0 <= i < j < from ==> (#[trigger] decls[i]).name() != (#[trigger] decls[j]).name(),
    ensures
        register(scopes, decls, from) is Ok <==> distinct_names(decls),
    decreases decls.len() - from,
{
    if from < decls.len() {
        let symbol = symbol_of(decls[from]);
        if scopes[0].contains_key(symbol.name) {
            let i = choose|i: int| 0 <= i < from && (#[trigger] decls[i]).name() == symbol.name;
            assert(decls[i].name() == decls[from].name());
        } else {
            let next = declare(scopes, symbol)->Ok_0;
            assert forall|name: Seq<char>| next[0].contains_key(name) implies exists|i: int|
                0 <= i < from + 1 && (#[trigger] decls[i]).name() == name by {
                if name == symbol.name {
                    assert(decls[from].name() == name);
                } else {
                    assert(scopes[0].contains_key(name));
                    let i = choose|i: int| 0 <= i < from && (#[trigger] decls[i]).name() == name;
                    assert(decls[i].name() == name);
                }
            }
            assert forall|name: Seq<char>|
                (exists|i: int|
                    0 <= i < from + 1 && (#[trigger] decls[i]).name()
                        == name) implies next[0].contains_key(name) by {
                let i = choose|i: int| 0 <= i < from + 1 && (#[trigger] decls[i]).name() == name;
                if i < from {
                    assert(decls[i].name() == name);
                    assert(scopes[0].contains_key(name));
                }
            }
            assert forall|i: int, j: int| 0 <= i < j < from + 1 implies (#[trigger] decls[i]).name()
                != (#[trigger] decls[j]).name() by {
                if j == from {
                    if decls[i].name() == decls[j].name() {
                        assert(scopes[0].contains_key(symbol.name));
                    }
                }
            }
            lemma_register_distinct(next, decls, from + 1);
        }
    }
}

/// The top-level names of a program can be declared exactly if no two of its
/// declarations, functions and variables alike, have the same name.
pub proof fn lemma_top_level_names_are_distinct(program: ProgramView)
    ensures
        register(seq![empty_scope()], program.decls, 0) is Ok <==> distinct_names(program.decls),
        analyze(program) is Ok ==> distinct_names(program.decls),
{
    let start = seq![empty_scope()];
    assert(holds_first(start, program.decls, 0));
    lemma_register_distinct(start, program.decls, 0);
}

/// Whether every symbol of the scopes has type `Int`.
pub open spec fn all_int(scopes: Scopes) -> bool {
    forall|i: int, name: Seq<char>|
        0 <= i < scopes.len() && (#[trigger] scopes[i].contains_key(name)) ==> scopes[i][name].ty
            == Type::Int
}

proof fn lemma_resolve_all_int(scopes: Scopes, name: Seq<char>)
    requires
        all_int(scopes),
    ensures
        resolve(scopes, name) matches Some(symbol) ==> symbol.ty == Type::Int,
    decreases scopes.len(),
{
    if scopes.len() > 0 {
        if scopes.last().contains_key(name) {
            assert(scopes[scopes.len() - 1].contains_key(name));
        } else {
            assert forall|i: int, n: Seq<char>|
                0 <= i < scopes.drop_last().len() && (#[trigger] scopes.drop_last()[i].contains_key(
                    n,
                )) implies scopes.drop_last()[i][n].ty == Type::Int by {
                assert(scopes[i].contains_key(n));
            }
            lemma_resolve_all_int(scopes.drop_last(), name);
        }
    }
}

proof fn lemma_type_of_all_int(scopes: Scopes, expr: ExprView)
    requires
        all_int(scopes),
    ensures
        type_of(scopes, expr) matches Ok(ty) ==> ty == Type::Int,
        type_of(scopes, expr) matches Err(e) ==> e is UndefinedVariable,
    decreases expr,
{
    match expr {
        ExprView::IntLiteral { .. } => {},
        ExprView::Var { name, .. } => {
            lemma_resolve_all_int(scopes, name);
        },
        ExprView::Binary { left, right, .. } => {
            lemma_type_of_all_int(scopes, *left);
            lemma_type_of_all_int(scopes, *right);
        },
    }
}

proof fn lemma_push_all_int(scopes: Scopes)
    requires
        all_int(scopes),
    ensures
        all_int(scopes.push(empty_scope())),
{
    let inner = scopes.push(empty_scope());
    assert forall|i: int, name: Seq<char>|
        0 <= i < inner.len() && (#[trigger] inner[i].contains_key(name)) implies inner[i][name].ty
            == Type::Int by {
        if i < scopes.len() {
            assert(scopes[i].contains_key(name));
        }
    }
}

proof fn lemma_declare_all_int(scopes: Scopes, symbol: SymbolView)
    requires
        all_int(scopes),
        scopes.len() > 0,
        symbol.ty == Type::Int,
    ensures
        declare(scopes, symbol) matches Ok(after) ==> all_int(after) && after.len() == scopes.len(),
        declare(scopes, symbol) matches Err(e) ==> e is DuplicateSymbol,
{
    if let Ok(after) = declare(scopes, symbol) {
        assert forall|i: int, name: Seq<char>|
            0 <= i < after.len() && (#[trigger] after[i].contains_key(name)) implies after[i][name].ty
                == Type::Int by {
            if i < scopes.len() - 1 {
                assert(scopes[i].contains_key(name));
            } else if name != symbol.name {
                assert(scopes[i].contains_key(name));
            }
        }
    }
}

proof fn lemma_stmt_all_int(scopes: Scopes, stmt: StmtView)
    requires
        all_int(scopes),
        scopes.len() > 0,
    ensures
        check_stmt(scopes, stmt) matches Ok(after) ==> all_int(after) && after.len() == scopes.len(),
        check_stmt(scopes, stmt) matches Err(e) ==> !(e is TypeMismatch),
    decreases stmt, 0nat,
{
    let inner = scopes.push(empty_scope());
    lemma_push_all_int(scopes);
    match stmt {
        StmtView::Empty => {},
        StmtView::Return(e) => {
            lemma_type_of_all_int(scopes, e);
        },
        StmtView::Expr(e) => {
            lemma_type_of_all_int(scopes, e);
        },
        StmtView::If { cond, then_block, else_block } => {
            lemma_type_of_all_int(scopes, cond);
            lemma_stmts_all_int(inner, then_block, 0);
            if let Some(stmts) = else_block {
                lemma_stmts_all_int(inner, stmts, 0);
            }
        },
        StmtView::While(cond, body) => {
            lemma_type_of_all_int(scopes, cond);
            lemma_stmts_all_int(inner, body, 0);
        },
        StmtView::For { init, cond, inc, body } => {
            if let Some(e) = init {
                lemma_type_of_all_int(inner, e);
            }
            if let Some(e) = cond {
                lemma_type_of_all_int(inner, e);
            }
            if let Some(e) = inc {
                lemma_type_of_all_int(inner, e);
            }
            lemma_stmts_all_int(inner, body, 0);
        },
        StmtView::LocalVar { name, init, span } => {
            lemma_type_of_all_int(scopes, init);
            lemma_declare_all_int(scopes, SymbolView { name, ty: Type::Int, span });
        },
        StmtView::Block(stmts) => {
            lemma_stmts_all_int(inner, stmts, 0);
        },
    }
}

proof fn lemma_stmts_all_int(scopes: Scopes, stmts: Seq<StmtView>, from: int)
    requires
        all_int(scopes),
        scopes.len() > 0,
    ensures
        check_stmts(scopes, stmts, from) matches Ok(after) ==> all_int(after) && after.len()
            == scopes.len(),
        check_stmts(scopes, stmts, from) matches Err(e) ==> !(e is TypeMismatch),
    decreases stmts, stmts.len() - from,
{
    if 0 <= from < stmts.len() {
        lemma_stmt_all_int(scopes, stmts[from]);
        if let Ok(next) = check_stmt(scopes, stmts[from]) {
            lemma_stmts_all_int(next, stmts, from + 1);
        }
    }
}

proof fn lemma_register_all_int(scopes: Scopes, decls: Seq<DeclView>, from: int)
    requires
        all_int(scopes),
        scopes.len() > 0,
    ensures
        register(scopes, decls, from) matches Ok(after) ==> all_int(after) && after.len() > 0,
        register(scopes, decls, from) matches Err(e) ==> e is DuplicateSymbol,
    decreases decls.len() - from,
{
    if 0 <= from < decls.len() {
        lemma_declare_all_int(scopes, symbol_of(decls[from]));
        if let Ok(next) = declare(scopes, symbol_of(decls[from])) {
            lemma_register_all_int(next, decls, from + 1);
        }
    }
}

proof fn lemma_decls_all_int(scopes: Scopes, decls: Seq<DeclView>, from: int)
    requires
        all_int(scopes),
        scopes.len() > 0,
    ensures
        decls_error(scopes, decls, from) matches Some(e) ==> !(e is TypeMismatch),
    decreases decls.len() - from,
{
    if 0 <= from < decls.len() {
        match decls[from] {
            DeclView::Function { body, .. } => {
                lemma_push_all_int(scopes);
                lemma_stmts_all_int(scopes.push(empty_scope()), body, 0);
            },
            DeclView::Var { init, .. } => {
                lemma_type_of_all_int(scopes, init);
            },
        }
        lemma_decls_all_int(scopes, decls, from + 1);
    }
}

/// Analysis never reports a type mismatch: every declaration has type `Int`,
/// so every expression has. The errors of a program are duplicate symbols and
/// undefined variables.
pub proof fn lemma_no_type_mismatch(program: ProgramView)
    ensures
        analyze(program) matches Err(e) ==> e is DuplicateSymbol || e is UndefinedVariable,
{
    let start = seq![empty_scope()];
    assert(all_int(start));
    lemma_register_all_int(start, program.decls, 0);
    if let Ok(scopes) = register(start, program.decls, 0) {
        lemma_decls_all_int(scopes, program.decls, 0);
    }
}

} // verus!

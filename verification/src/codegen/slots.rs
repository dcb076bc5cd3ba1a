//! The stack slots of lowered code: one for each local variable.

use crate::ast::nodes::{ExprView, StmtView};
use crate::codegen::ir::{BlockView, InstView, OperandView, Predicate, ValueType};
use crate::codegen::lowering::{
    entry_state, lower_expr, lower_expr_stmt, lower_for, lower_for_condition, lower_function,
    lower_if, lower_local, lower_optional, lower_stmt, lower_stmts, lower_while, operation,
    BuildState,
};
use crate::codegen::shape::{
    lemma_append_block, lemma_close_with_jump, lemma_emit, lemma_expr, lemma_for_condition,
    lemma_optional, lemma_stmt, lemma_stmts, tidy,
};
use crate::lexer::token::TokenKind;
use vstd::prelude::*;

verus! {

/// The number of local variables that a statement declares, those of the
/// statements inside it included.
pub open spec fn locals_in(stmt: StmtView) -> nat
    decreases stmt, 0nat,
{
    match stmt {
        StmtView::LocalVar { .. } => 1,
        StmtView::If { then_block, else_block, .. } => locals_among(then_block, 0) + match else_block {
            Some(stmts) => locals_among(stmts, 0),
            None => 0,
        },
        StmtView::While(_, body) => locals_among(body, 0),
        StmtView::For { body, .. } => locals_among(body, 0),
        StmtView::Block(stmts) => locals_among(stmts, 0),
        _ => 0,
    }
}

/// The number of local variables that the statements from index `from` on
/// declare.
pub open spec fn locals_among(stmts: Seq<StmtView>, from: int) -> nat
    decreases stmts, stmts.len() - from,
{
    if 0 <= from < stmts.len() {
        locals_in(stmts[from]) + locals_among(stmts, from + 1)
    } else {
        0
    }
}

/// The number of instructions among `insts` that reserve a stack slot.
pub open spec fn slots_in(insts: Seq<InstView>) -> nat
    decreases insts.len(),
{
    if insts.len() == 0 {
        0
    } else {
        slots_in(insts.drop_last()) + if insts.last() is Alloca {
            1nat
        } else {
            0nat
        }
    }
}

/// The number of instructions in the blocks that reserve a stack slot.
pub open spec fn slots_among(blocks: Seq<BlockView>) -> nat
    decreases blocks.len(),
{
    if blocks.len() == 0 {
        0
    } else {
        slots_among(blocks.drop_last()) + slots_in(blocks.last().insts)
    }
}

/// What an instruction adds to the number of slots.
pub open spec fn slot_of(inst: InstView) -> nat {
    if inst is Alloca {
        1
    } else {
        0
    }
}

proof fn lemma_slots_update(blocks: Seq<BlockView>, at: int, block: BlockView)
    requires
        0 <= at < blocks.len(),
    ensures
        slots_among(blocks.update(at, block)) + slots_in(blocks[at].insts) == slots_among(blocks)
            + slots_in(block.insts),
    decreases blocks.len(),
{
    let updated = blocks.update(at, block);
    if at == blocks.len() - 1 {
        assert(updated.drop_last() =~= blocks.drop_last());
    } else {
        assert(updated.drop_last() =~= blocks.drop_last().update(at, block));
        lemma_slots_update(blocks.drop_last(), at, block);
    }
}

proof fn lemma_slots_push(state: BuildState, inst: InstView)
    requires
        state.wf(),
    ensures
        slots_among(state.push(inst).blocks) == slots_among(state.blocks) + slot_of(inst),
{
    let old_block = state.blocks[state.current];
    let new_block = BlockView { label: old_block.label, insts: old_block.insts.push(inst) };
    assert(new_block.insts.drop_last() =~= old_block.insts);
    lemma_slots_update(state.blocks, state.current, new_block);
}

proof fn lemma_slots_emit(state: BuildState, inst: InstView)
    requires
        state.wf(),
    ensures
        state.emit(inst) matches Ok(after) ==> slots_among(after.blocks) == slots_among(
            state.blocks,
        ) + slot_of(inst),
{
    lemma_slots_push(state, inst);
}

proof fn lemma_slots_append(state: BuildState, label: Seq<char>)
    ensures
        slots_among(state.append_block(label).blocks) == slots_among(state.blocks),
{
    let after = state.append_block(label);
    assert(after.blocks.drop_last() =~= state.blocks);
}

proof fn lemma_slots_close_with_jump(state: BuildState, target: int)
    requires
        state.wf(),
    ensures
        slots_among(state.close_with_jump(target).blocks) == slots_among(state.blocks),
{
    lemma_slots_push(state, InstView::Jump { target: target as nat });
}

proof fn lemma_slots_expr(state: BuildState, expr: ExprView)
    requires
        tidy(state),
    ensures
        lower_expr(state, expr) matches Ok(lowered) ==> slots_among(lowered.state.blocks)
            == slots_among(state.blocks),
    decreases expr,
{
    match expr {
        ExprView::IntLiteral { .. } => {},
        ExprView::Var { name, .. } => {
            if state.slots.contains_key(name) {
                lemma_slots_emit(state, InstView::Load { slot: state.slots[name], name });
            }
        },
        ExprView::Binary { op, left, right, .. } => {
            lemma_slots_expr(state, *left);
            lemma_expr(state, *left);
            if let Ok(l) = lower_expr(state, *left) {
                lemma_slots_expr(l.state, *right);
                lemma_expr(l.state, *right);
                if let Ok(r) = lower_expr(l.state, *right) {
                    if let Some((inst, _)) = operation(op, l.value, r.value) {
                        lemma_slots_emit(r.state, inst);
                    }
                }
            }
        },
    }
}

proof fn lemma_slots_optional(state: BuildState, expr: Option<ExprView>)
    requires
        tidy(state),
    ensures
        lower_optional(state, expr) matches Ok(after) ==> slots_among(after.blocks)
            == slots_among(state.blocks),
{
    if let Some(e) = expr {
        lemma_slots_expr(state, e);
    }
}

proof fn lemma_slots_expr_stmt(state: BuildState, expr: ExprView)
    requires
        tidy(state),
    ensures
        lower_expr_stmt(state, expr) matches Ok(after) ==> slots_among(after.blocks)
            == slots_among(state.blocks),
{
    lemma_slots_optional(state, Some(expr));
    if let ExprView::Binary { op, left, right, .. } = expr {
        if op == TokenKind::Assign {
            if let ExprView::Var { name, .. } = *left {
                lemma_slots_expr(state, *right);
                lemma_expr(state, *right);
                if let Ok(v) = lower_expr(state, *right) {
                    if v.state.slots.contains_key(name) {
                        lemma_slots_emit(
                            v.state,
                            InstView::Store { slot: v.state.slots[name], value: v.value },
                        );
                    }
                }
            }
        }
    }
}

proof fn lemma_slots_local(state: BuildState, name: Seq<char>, init: ExprView)
    requires
        tidy(state),
    ensures
        lower_local(state, name, init) matches Ok(after) ==> slots_among(after.blocks)
            == slots_among(state.blocks) + 1,
{
    let alloca = InstView::Alloca { name };
    lemma_slots_emit(state, alloca);
    lemma_emit(state, alloca);
    if let Ok(reserved) = state.emit(alloca) {
        lemma_slots_expr(reserved, init);
        lemma_expr(reserved, init);
        if let Ok(v) = lower_expr(reserved, init) {
            lemma_slots_emit(v.state, InstView::Store { slot: state.next_ref(), value: v.value });
        }
    }
}

proof fn lemma_slots_condition(
    state: BuildState,
    value: OperandView,
    ty: ValueType,
    pred: Predicate,
    name: Seq<char>,
)
    requires
        tidy(state),
    ensures
        state.as_condition(value, ty, pred, name) matches Ok(b) ==> slots_among(b.state.blocks)
            == slots_among(state.blocks) && tidy(b.state),
{
    let compare = InstView::Compare { pred, lhs: value, rhs: OperandView::Const(0), name };
    lemma_slots_emit(state, compare);
    lemma_emit(state, compare);
}

proof fn lemma_slots_for_condition(state: BuildState, cond: Option<ExprView>, cont: int)
    requires
        tidy(state),
        0 <= cont < state.blocks.len(),
        cont != state.current,
    ensures
        lower_for_condition(state, cond, cont) matches Ok(after) ==> slots_among(after.blocks)
            == slots_among(state.blocks),
{
    if let Some(c) = cond {
        lemma_slots_expr(state, c);
        lemma_expr(state, c);
        if let Ok(v) = lower_expr(state, c) {
            let compare = InstView::Compare {
                pred: Predicate::Lt,
                lhs: v.value,
                rhs: OperandView::Const(0),
                name: "forcond"@,
            };
            lemma_slots_emit(v.state, compare);
            lemma_emit(v.state, compare);
            if let Ok(compared) = v.state.emit(compare) {
                let body = compared.blocks.len();
                let added = compared.append_block("body"@);
                lemma_slots_append(compared, "body"@);
                lemma_append_block(compared, "body"@);
                lemma_slots_emit(
                    added,
                    InstView::Branch {
                        cond: OperandView::Value(v.state.next_ref()),
                        then_target: body as nat,
                        else_target: cont as nat,
                    },
                );
            }
        }
    }
}

#[verifier::rlimit(50)]
proof fn lemma_slots_if(state: BuildState, stmt: StmtView)
    requires
        tidy(state),
        stmt is If,
    ensures
        lower_if(state, stmt) matches Ok(after) ==> slots_among(after.blocks) == slots_among(
            state.blocks,
        ) + locals_in(stmt),
    decreases stmt, 0nat,
{
    if let StmtView::If { cond, then_block, else_block } = stmt {
        let n = state.blocks.len() as int;
        let s1 = state.append_block("then"@);
        let s2 = s1.append_block("else"@);
        let start = s2.append_block("cont"@);
        lemma_slots_append(state, "then"@);
        lemma_slots_append(s1, "else"@);
        lemma_slots_append(s2, "cont"@);
        lemma_append_block(state, "then"@);
        lemma_append_block(s1, "else"@);
        lemma_append_block(s2, "cont"@);
        lemma_slots_expr(start, cond);
        lemma_expr(start, cond);
        if let Ok(c) = lower_expr(start, cond) {
            lemma_slots_condition(c.state, c.value, c.ty, Predicate::Ne, "ifcond"@);
            if let Ok(b) = c.state.as_condition(c.value, c.ty, Predicate::Ne, "ifcond"@) {
                let branch = InstView::Branch {
                    cond: b.value,
                    then_target: n as nat,
                    else_target: (n + 1) as nat,
                };
                lemma_slots_emit(b.state, branch);
                lemma_emit(b.state, branch);
                if let Ok(branched) = b.state.emit(branch) {
                    let in_then = branched.position_at(n);
                    assert(tidy(in_then));
                    lemma_slots_stmts(in_then, then_block, 0);
                    lemma_stmts(in_then, then_block, 0);
                    if let Ok(after_then) = lower_stmts(in_then, then_block, 0) {
                        lemma_slots_close_with_jump(after_then, n + 2);
                        lemma_close_with_jump(after_then, n + 2);
                        let in_else = after_then.close_with_jump(n + 2).position_at(n + 1);
                        assert(tidy(in_else));
                        if let Some(stmts) = else_block {
                            lemma_slots_stmts(in_else, stmts, 0);
                            lemma_stmts(in_else, stmts, 0);
                        }
                        let after_else = match else_block {
                            Some(stmts) => lower_stmts(in_else, stmts, 0),
                            None => Ok(in_else),
                        };
                        if let Ok(after_else) = after_else {
                            lemma_slots_close_with_jump(after_else, n + 2);
                        }
                    }
                }
            }
        }
    }
}

#[verifier::rlimit(50)]
proof fn lemma_slots_while(state: BuildState, stmt: StmtView)
    requires
        tidy(state),
        stmt is While,
    ensures
        lower_while(state, stmt) matches Ok(after) ==> slots_among(after.blocks) == slots_among(
            state.blocks,
        ) + locals_in(stmt),
    decreases stmt, 0nat,
{
    if let StmtView::While(cond, body) = stmt {
        let n = state.blocks.len() as int;
        let s1 = state.append_block("loop"@);
        let start = s1.append_block("cont"@);
        lemma_slots_append(state, "loop"@);
        lemma_slots_append(s1, "cont"@);
        lemma_append_block(state, "loop"@);
        lemma_append_block(s1, "cont"@);
        let jump = InstView::Jump { target: n as nat };
        lemma_slots_emit(start, jump);
        lemma_emit(start, jump);
        if let Ok(entered) = start.emit(jump) {
            let in_loop = entered.position_at(n);
            assert(tidy(in_loop));
            lemma_slots_expr(in_loop, cond);
            lemma_expr(in_loop, cond);
            if let Ok(c) = lower_expr(in_loop, cond) {
                lemma_slots_condition(c.state, c.value, c.ty, Predicate::Lt, "whilecond"@);
                if let Ok(b) = c.state.as_condition(c.value, c.ty, Predicate::Lt, "whilecond"@) {
                    let m = b.state.blocks.len() as int;
                    let added = b.state.append_block("body"@);
                    lemma_slots_append(b.state, "body"@);
                    lemma_append_block(b.state, "body"@);
                    let branch = InstView::Branch {
                        cond: b.value,
                        then_target: m as nat,
                        else_target: (n + 1) as nat,
                    };
                    lemma_slots_emit(added, branch);
                    lemma_emit(added, branch);
                    if let Ok(branched) = added.emit(branch) {
                        let in_body = branched.position_at(m);
                        assert(tidy(in_body));
                        lemma_slots_stmts(in_body, body, 0);
                        lemma_stmts(in_body, body, 0);
                        if let Ok(after_body) = lower_stmts(in_body, body, 0) {
                            lemma_slots_close_with_jump(after_body, n);
                        }
                    }
                }
            }
        }
    }
}

#[verifier::rlimit(50)]
proof fn lemma_slots_for(state: BuildState, stmt: StmtView)
    requires
        tidy(state),
        stmt is For,
    ensures
        lower_for(state, stmt) matches Ok(after) ==> slots_among(after.blocks) == slots_among(
            state.blocks,
        ) + locals_in(stmt),
    decreases stmt, 0nat,
{
    if let StmtView::For { init, cond, inc, body } = stmt {
        lemma_slots_optional(state, init);
        lemma_optional(state, init);
        if let Ok(begun) = lower_optional(state, init) {
            let n = begun.blocks.len() as int;
            let s1 = begun.append_block("loop"@);
            let start = s1.append_block("cont"@);
            lemma_slots_append(begun, "loop"@);
            lemma_slots_append(s1, "cont"@);
            lemma_append_block(begun, "loop"@);
            lemma_append_block(s1, "cont"@);
            let jump = InstView::Jump { target: n as nat };
            lemma_slots_emit(start, jump);
            lemma_emit(start, jump);
            if let Ok(entered) = start.emit(jump) {
                let in_loop = entered.position_at(n);
                assert(tidy(in_loop));
                lemma_slots_for_condition(in_loop, cond, n + 1);
                lemma_for_condition(in_loop, cond, n + 1);
                if let Ok(in_body) = lower_for_condition(in_loop, cond, n + 1) {
                    lemma_slots_stmts(in_body, body, 0);
                    lemma_stmts(in_body, body, 0);
                    if let Ok(after_body) = lower_stmts(in_body, body, 0) {
                        lemma_slots_optional(after_body, inc);
                        lemma_optional(after_body, inc);
                        if let Ok(stepped) = lower_optional(after_body, inc) {
                            lemma_slots_close_with_jump(stepped, n);
                        }
                    }
                }
            }
        }
    }
}

proof fn lemma_slots_stmt(state: BuildState, stmt: StmtView)
    requires
        tidy(state),
    ensures
        lower_stmt(state, stmt) matches Ok(after) ==> slots_among(after.blocks) == slots_among(
            state.blocks,
        ) + locals_in(stmt),
    decreases stmt, 1nat,
{
    match stmt {
        StmtView::Empty => {},
        StmtView::LocalVar { name, init, .. } => {
            lemma_slots_local(state, name, init);
        },
        StmtView::Expr(e) => {
            lemma_slots_expr_stmt(state, e);
        },
        StmtView::Return(e) => {
            lemma_slots_expr(state, e);
            lemma_expr(state, e);
            if let Ok(v) = lower_expr(state, e) {
                lemma_slots_emit(v.state, InstView::Return { value: v.value });
            }
        },
        StmtView::If { .. } => {
            lemma_slots_if(state, stmt);
        },
        StmtView::While(..) => {
            lemma_slots_while(state, stmt);
        },
        StmtView::For { .. } => {
            lemma_slots_for(state, stmt);
        },
        StmtView::Block(stmts) => {
            lemma_slots_stmts(state, stmts, 0);
        },
    }
}

proof fn lemma_slots_stmts(state: BuildState, stmts: Seq<StmtView>, from: int)
    requires
        tidy(state),
    ensures
        lower_stmts(state, stmts, from) matches Ok(after) ==> slots_among(after.blocks)
            == slots_among(state.blocks) + locals_among(stmts, from),
    decreases stmts, stmts.len() - from,
{
    if 0 <= from < stmts.len() {
        lemma_slots_stmt(state, stmts[from]);
        lemma_stmt(state, stmts[from]);
        if let Ok(next) = lower_stmt(state, stmts[from]) {
            lemma_slots_stmts(next, stmts, from + 1);
        }
    }
}

/// A function that lowering yields reserves exactly one stack slot for each
/// local variable that its body declares: no slot is shared, and none is left
/// out.
pub proof fn lemma_one_slot_for_each_local(name: Seq<char>, body: Seq<StmtView>)
    ensures
        lower_function(name, body) matches Ok(function) ==> slots_among(function.blocks)
            == locals_among(body, 0),
{
    let entry = entry_state();
    assert(tidy(entry));
    assert(slots_among(entry.blocks) == 0) by {
        assert(entry.blocks.drop_last() =~= Seq::<BlockView>::empty());
        reveal_with_fuel(slots_among, 2);
    }
    lemma_slots_stmts(entry, body, 0);
    lemma_stmts(entry, body, 0);
    if let Ok(state) = lower_stmts(entry, body, 0) {
        lemma_slots_push(state, InstView::Return { value: OperandView::Const(0) });
    }
}

} // verus!

//! The shape of lowered code: every block is a basic block.

use crate::ast::nodes::{DeclView, ExprView, ProgramView, StmtView};
use crate::codegen::ir::{
    BlockView, FunctionView, InstView, ModuleView, OperandView, Predicate,
};
use crate::codegen::lowering::{
    entry_state, lower_decls, lower_expr, lower_expr_stmt, lower_for, lower_for_condition,
    lower_function, lower_if, lower_local, lower_optional, lower_program, lower_stmt, lower_stmts,
    lower_while, operation, BuildState,
};
use crate::lexer::token::TokenKind;
use vstd::prelude::*;

verus! {

/// Whether the blocks that the instruction names are among the first `n`.
pub open spec fn targets_within(inst: InstView, n: nat) -> bool {
    match inst {
        InstView::Jump { target } => target < n,
        InstView::Branch { then_target, else_target, .. } => then_target < n && else_target < n,
        _ => true,
    }
}

/// Whether a block of a function of `n` blocks has no terminator before its
/// last instruction, and names blocks of the function only.
pub open spec fn block_tidy(block: BlockView, n: nat) -> bool {
    &&& forall|j: int|
        0 <= j < block.insts.len() - 1 ==> !(#[trigger] block.insts[j]).is_terminator()
    &&& forall|j: int| 0 <= j < block.insts.len() ==> targets_within(#[trigger] block.insts[j], n)
}

/// A basic block as it should be: a straight line of instructions that ends in
/// exactly one terminator, which names blocks of the function only.
pub open spec fn block_well_formed(block: BlockView, n: nat) -> bool {
    block.is_terminated() && block_tidy(block, n)
}

/// A function as it should be: it is entered at block `entry`, and each of its
/// blocks is a basic block.
pub open spec fn function_well_formed(function: FunctionView) -> bool {
    &&& function.blocks.len() > 0
    &&& function.blocks[0].label == "entry"@
    &&& forall|i: int|
        0 <= i < function.blocks.len() ==> block_well_formed(
            #[trigger] function.blocks[i],
            function.blocks.len(),
        )
}

/// A module as it should be: each of its functions is.
pub open spec fn module_well_formed(module: ModuleView) -> bool {
    forall|i: int|
        0 <= i < module.functions.len() ==> function_well_formed(#[trigger] module.functions[i])
}

/// Whether a function under construction has a valid insertion point and
/// tidy blocks.
pub open spec fn tidy(state: BuildState) -> bool {
    &&& state.wf()
    &&& forall|i: int|
        0 <= i < state.blocks.len() ==> block_tidy(#[trigger] state.blocks[i], state.blocks.len())
}

/// How a state grows out of another by lowering code at its insertion point:
/// blocks are added but none is taken away or renamed; the blocks before, but
/// the one at the insertion point, stay as they are; and the block at the old
/// insertion point and the new blocks end in a terminator, but the one at the
/// new insertion point.
pub open spec fn grows(before: BuildState, after: BuildState) -> bool {
    &&& tidy(after)
    &&& after.blocks.len() >= before.blocks.len()
    &&& (after.current == before.current || after.current >= before.blocks.len())
    &&& forall|i: int|
        0 <= i < before.blocks.len() ==> (#[trigger] after.blocks[i]).label
            == before.blocks[i].label
    &&& forall|i: int|
        0 <= i < before.blocks.len() && i != before.current ==> #[trigger] after.blocks[i]
            == before.blocks[i]
    &&& forall|i: int|
        0 <= i < after.blocks.len() && i != after.current && (i == before.current || i
            >= before.blocks.len()) ==> (#[trigger] after.blocks[i]).is_terminated()
}

/// As [`grows`], where neither a block is added nor the insertion point moved.
pub open spec fn stays(before: BuildState, after: BuildState) -> bool {
    &&& grows(before, after)
    &&& after.current == before.current
    &&& after.blocks.len() == before.blocks.len()
}

proof fn lemma_grows_trans(a: BuildState, b: BuildState, c: BuildState)
    requires
        grows(a, b),
        grows(b, c),
    ensures
        grows(a, c),
{
    assert forall|i: int| 0 <= i < a.blocks.len() implies (#[trigger] c.blocks[i]).label
        == a.blocks[i].label by {
        assert(b.blocks[i].label == a.blocks[i].label);
    }
    assert forall|i: int| 0 <= i < a.blocks.len() && i != a.current implies #[trigger] c.blocks[i]
        == a.blocks[i] by {
        assert(b.blocks[i] == a.blocks[i]);
    }
    assert forall|i: int|
        0 <= i < c.blocks.len() && i != c.current && (i == a.current || i
            >= a.blocks.len()) implies (#[trigger] c.blocks[i]).is_terminated() by {
        if i != b.current && i < b.blocks.len() {
            assert(b.blocks[i].is_terminated());
            assert(c.blocks[i] == b.blocks[i]);
        }
    }
}

proof fn lemma_push(state: BuildState, inst: InstView)
    requires
        tidy(state),
        !state.at_terminator(),
        targets_within(inst, state.blocks.len()),
    ensures
        stays(state, state.push(inst)),
        inst.is_terminator() ==> state.push(inst).at_terminator(),
{
    let after = state.push(inst);
    let old_block = state.blocks[state.current];
    assert(block_tidy(old_block, state.blocks.len()));
    assert forall|i: int| 0 <= i < after.blocks.len() implies block_tidy(
        #[trigger] after.blocks[i],
        after.blocks.len(),
    ) by {
        if i != state.current {
            assert(block_tidy(state.blocks[i], state.blocks.len()));
        } else {
            let block = after.blocks[i];
            assert forall|j: int| 0 <= j < block.insts.len() - 1 implies !(
            #[trigger] block.insts[j]).is_terminator() by {
                assert(block.insts[j] == old_block.insts[j]);
            }
            assert forall|j: int| 0 <= j < block.insts.len() implies targets_within(
                #[trigger] block.insts[j],
                after.blocks.len(),
            ) by {
                if j < old_block.insts.len() {
                    assert(block.insts[j] == old_block.insts[j]);
                }
            }
        }
    }
}

pub(crate) proof fn lemma_emit(state: BuildState, inst: InstView)
    requires
        tidy(state),
        targets_within(inst, state.blocks.len()),
    ensures
        state.emit(inst) matches Ok(after) ==> stays(state, after) && (inst.is_terminator()
            ==> after.at_terminator()),
{
    if !state.at_terminator() {
        lemma_push(state, inst);
    }
}

pub(crate) proof fn lemma_close_with_jump(state: BuildState, target: int)
    requires
        tidy(state),
        0 <= target < state.blocks.len(),
    ensures
        stays(state, state.close_with_jump(target)),
        state.close_with_jump(target).at_terminator(),
{
    if !state.at_terminator() {
        lemma_push(state, InstView::Jump { target: target as nat });
    }
}

pub(crate) proof fn lemma_append_block(state: BuildState, label: Seq<char>)
    requires
        tidy(state),
    ensures
        tidy(state.append_block(label)),
        state.append_block(label).blocks.len() == state.blocks.len() + 1,
        state.append_block(label).current == state.current,
        forall|i: int|
            0 <= i < state.blocks.len() ==> #[trigger] state.append_block(label).blocks[i]
                == state.blocks[i],
        state.append_block(label).blocks[state.blocks.len() as int].insts.len() == 0,
{
    let after = state.append_block(label);
    assert forall|i: int| 0 <= i < after.blocks.len() implies block_tidy(
        #[trigger] after.blocks[i],
        after.blocks.len(),
    ) by {
        if i < state.blocks.len() {
            assert(block_tidy(state.blocks[i], state.blocks.len()));
        }
    }
}

pub(crate) proof fn lemma_expr(state: BuildState, expr: ExprView)
    requires
        tidy(state),
    ensures
        lower_expr(state, expr) matches Ok(lowered) ==> stays(state, lowered.state),
    decreases expr,
{
    match expr {
        ExprView::IntLiteral { .. } => {},
        ExprView::Var { name, .. } => {
            if state.slots.contains_key(name) {
                lemma_emit(state, InstView::Load { slot: state.slots[name], name });
            }
        },
        ExprView::Binary { op, left, right, .. } => {
            lemma_expr(state, *left);
            if let Ok(l) = lower_expr(state, *left) {
                lemma_expr(l.state, *right);
                if let Ok(r) = lower_expr(l.state, *right) {
                    lemma_grows_trans(state, l.state, r.state);
                    if let Some((inst, ty)) = operation(op, l.value, r.value) {
                        lemma_emit(r.state, inst);
                        if let Ok(done) = r.state.emit(inst) {
                            lemma_grows_trans(state, r.state, done);
                        }
                    }
                }
            }
        },
    }
}

pub(crate) proof fn lemma_optional(state: BuildState, expr: Option<ExprView>)
    requires
        tidy(state),
    ensures
        lower_optional(state, expr) matches Ok(after) ==> stays(state, after),
{
    if let Some(e) = expr {
        lemma_expr(state, e);
    }
}

proof fn lemma_expr_stmt(state: BuildState, expr: ExprView)
    requires
        tidy(state),
    ensures
        lower_expr_stmt(state, expr) matches Ok(after) ==> stays(state, after),
{
    lemma_optional(state, Some(expr));
    if let ExprView::Binary { op, left, right, .. } = expr {
        if op == TokenKind::Assign {
            if let ExprView::Var { name, .. } = *left {
                lemma_expr(state, *right);
                if let Ok(v) = lower_expr(state, *right) {
                    if v.state.slots.contains_key(name) {
                        let inst = InstView::Store { slot: v.state.slots[name], value: v.value };
                        lemma_emit(v.state, inst);
                        if let Ok(done) = v.state.emit(inst) {
                            lemma_grows_trans(state, v.state, done);
                        }
                    }
                }
            }
        }
    }
}

proof fn lemma_local(state: BuildState, name: Seq<char>, init: ExprView)
    requires
        tidy(state),
    ensures
        lower_local(state, name, init) matches Ok(after) ==> stays(state, after),
{
    let alloca = InstView::Alloca { name };
    lemma_emit(state, alloca);
    if let Ok(reserved) = state.emit(alloca) {
        lemma_expr(reserved, init);
        if let Ok(v) = lower_expr(reserved, init) {
            lemma_grows_trans(state, reserved, v.state);
            let store = InstView::Store { slot: state.next_ref(), value: v.value };
            lemma_emit(v.state, store);
            if let Ok(stored) = v.state.emit(store) {
                lemma_grows_trans(state, v.state, stored);
                let bound = stored.bind(name, state.next_ref());
                assert(stays(state, bound));
            }
        }
    }
}

/// What lowering the head of a loop leaves: the state grew, and the block of
/// index `cont` is as it was.
#[verifier::rlimit(50)]
pub(crate) proof fn lemma_for_condition(state: BuildState, cond: Option<ExprView>, cont: int)
    requires
        tidy(state),
        0 <= cont < state.blocks.len(),
        cont != state.current,
    ensures
        lower_for_condition(state, cond, cont) matches Ok(after) ==> grows(state, after)
            && after.blocks[cont] == state.blocks[cont],
{
    if let Some(c) = cond {
        lemma_expr(state, c);
        if let Ok(v) = lower_expr(state, c) {
            let compare = InstView::Compare {
                pred: Predicate::Lt,
                lhs: v.value,
                rhs: OperandView::Const(0),
                name: "forcond"@,
            };
            lemma_emit(v.state, compare);
            if let Ok(compared) = v.state.emit(compare) {
                lemma_grows_trans(state, v.state, compared);
                let body = compared.blocks.len();
                let added = compared.append_block("body"@);
                lemma_append_block(compared, "body"@);
                let branch = InstView::Branch {
                    cond: OperandView::Value(v.state.next_ref()),
                    then_target: body as nat,
                    else_target: cont as nat,
                };
                lemma_emit(added, branch);
                if let Ok(branched) = added.emit(branch) {
                    let after = branched.position_at(body as int);
                    assert(after.blocks[body as int] == added.blocks[body as int]);
                    assert(after.blocks[cont] == state.blocks[cont]);
                    assert forall|i: int| 0 <= i < state.blocks.len() implies (
                    #[trigger] after.blocks[i]).label == state.blocks[i].label by {
                        assert(added.blocks[i] == compared.blocks[i]);
                    }
                    assert forall|i: int|
                        0 <= i < state.blocks.len() && i != state.current implies
                        #[trigger] after.blocks[i] == state.blocks[i] by {
                        assert(added.blocks[i] == compared.blocks[i]);
                    }
                    assert(grows(state, after));
                }
            }
        }
    }
}

#[verifier::rlimit(50)]
proof fn lemma_if(state: BuildState, stmt: StmtView)
    requires
        tidy(state),
    ensures
        lower_if(state, stmt) matches Ok(after) ==> grows(state, after),
    decreases stmt, 0nat,
{
    if let StmtView::If { cond, then_block, else_block } = stmt {
        let n = state.blocks.len() as int;
        let s1 = state.append_block("then"@);
        let s2 = s1.append_block("else"@);
        let start = s2.append_block("cont"@);
        lemma_append_block(state, "then"@);
        lemma_append_block(s1, "else"@);
        lemma_append_block(s2, "cont"@);
        lemma_expr(start, cond);
        if let Ok(c) = lower_expr(start, cond) {
            let compare = InstView::Compare {
                pred: Predicate::Ne,
                lhs: c.value,
                rhs: OperandView::Const(0),
                name: "ifcond"@,
            };
            lemma_emit(c.state, compare);
            if let Ok(b) = c.state.as_condition(
                c.value,
                c.ty,
                Predicate::Ne,
                "ifcond"@,
            ) {
                assert(stays(c.state, b.state));
                lemma_grows_trans(start, c.state, b.state);
                let branch = InstView::Branch {
                    cond: b.value,
                    then_target: n as nat,
                    else_target: (n + 1) as nat,
                };
                lemma_emit(b.state, branch);
                if let Ok(branched) = b.state.emit(branch) {
                    lemma_grows_trans(start, b.state, branched);
                    let in_then = branched.position_at(n);
                    assert(tidy(in_then));
                    lemma_stmts(in_then, then_block, 0);
                    if let Ok(after_then) = lower_stmts(in_then, then_block, 0) {
                        lemma_close_with_jump(after_then, n + 2);
                        let closed_then = after_then.close_with_jump(n + 2);
                        let in_else = closed_then.position_at(n + 1);
                        assert(tidy(in_else));
                        let after_else = match else_block {
                            Some(stmts) => lower_stmts(in_else, stmts, 0),
                            None => Ok(in_else),
                        };
                        if let Some(stmts) = else_block {
                            lemma_stmts(in_else, stmts, 0);
                        }
                        if let Ok(after_else) = after_else {
                            assert(grows(in_else, after_else));
                            lemma_close_with_jump(after_else, n + 2);
                            let closed_else = after_else.close_with_jump(n + 2);
                            let after = closed_else.position_at(n + 2);
                            assert forall|i: int| 0 <= i < state.blocks.len() implies (
                            #[trigger] after.blocks[i]).label == state.blocks[i].label by {
                                assert(start.blocks[i] == state.blocks[i]);
                                assert(branched.blocks[i].label == start.blocks[i].label);
                                assert(after_then.blocks[i].label == in_then.blocks[i].label);
                                assert(closed_then.blocks[i].label == after_then.blocks[i].label);
                                assert(after_else.blocks[i].label == in_else.blocks[i].label);
                                assert(closed_else.blocks[i].label == after_else.blocks[i].label);
                            }
                            assert forall|i: int|
                                0 <= i < state.blocks.len() && i != state.current implies
                                #[trigger] after.blocks[i] == state.blocks[i] by {
                                assert(start.blocks[i] == state.blocks[i]);
                                assert(branched.blocks[i] == start.blocks[i]);
                                assert(after_then.blocks[i] == in_then.blocks[i]);
                                assert(closed_then.blocks[i] == after_then.blocks[i]);
                                assert(after_else.blocks[i] == in_else.blocks[i]);
                                assert(closed_else.blocks[i] == after_else.blocks[i]);
                            }
                            assert forall|i: int|
                                0 <= i < after.blocks.len() && i != after.current && (i
                                    == state.current || i >= state.blocks.len()) implies (
                            #[trigger] after.blocks[i]).is_terminated() by {
                                lemma_if_closed(
                                    state,
                                    branched,
                                    after_then,
                                    closed_then,
                                    after_else,
                                    closed_else,
                                    i,
                                );
                            }
                            assert(grows(state, after));
                        }
                    }
                }
            }
        }
    }
}

/// The part of `lemma_if` that shows which blocks end in a terminator.
proof fn lemma_if_closed(
    state: BuildState,
    branched: BuildState,
    after_then: BuildState,
    closed_then: BuildState,
    after_else: BuildState,
    closed_else: BuildState,
    i: int,
)
    requires
        tidy(state),
        branched.blocks.len() == state.blocks.len() + 3,
        branched.current == state.current,
        branched.at_terminator(),
        grows(branched.position_at(state.blocks.len() as int), after_then),
        stays(after_then, closed_then),
        closed_then.at_terminator(),
        grows(closed_then.position_at(state.blocks.len() as int + 1), after_else),
        stays(after_else, closed_else),
        closed_else.at_terminator(),
        0 <= i < closed_else.blocks.len(),
        i != state.blocks.len() + 2,
        i == state.current || i >= state.blocks.len(),
    ensures
        closed_else.blocks[i].is_terminated(),
{
    let n = state.blocks.len() as int;
    let in_then = branched.position_at(n);
    let in_else = closed_then.position_at(n + 1);
    // Behind the first arm every block but `else` and `cont` is closed.
    if i < closed_then.blocks.len() && i != n + 1 {
        assert(closed_then.blocks[i].is_terminated()) by {
            if i == state.current {
                assert(after_then.blocks[i] == in_then.blocks[i]);
                assert(closed_then.blocks[i] == after_then.blocks[i]);
            } else if i == after_then.current {
            } else {
                assert(after_then.blocks[i].is_terminated());
                assert(closed_then.blocks[i] == after_then.blocks[i]);
            }
        }
        if i == after_else.current {
        } else {
            assert(after_else.blocks[i] == in_else.blocks[i]);
            assert(closed_else.blocks[i] == after_else.blocks[i]);
        }
    } else {
        if i == after_else.current {
        } else {
            assert(after_else.blocks[i].is_terminated());
            assert(closed_else.blocks[i] == after_else.blocks[i]);
        }
    }
}

#[verifier::rlimit(50)]
proof fn lemma_while(state: BuildState, stmt: StmtView)
    requires
        tidy(state),
    ensures
        lower_while(state, stmt) matches Ok(after) ==> grows(state, after),
    decreases stmt, 0nat,
{
    if let StmtView::While(cond, body) = stmt {
        let n = state.blocks.len() as int;
        let s1 = state.append_block("loop"@);
        let start = s1.append_block("cont"@);
        lemma_append_block(state, "loop"@);
        lemma_append_block(s1, "cont"@);
        let jump = InstView::Jump { target: n as nat };
        lemma_emit(start, jump);
        if let Ok(entered) = start.emit(jump) {
            let in_loop = entered.position_at(n);
            assert(tidy(in_loop));
            lemma_expr(in_loop, cond);
            if let Ok(c) = lower_expr(in_loop, cond) {
                let compare = InstView::Compare {
                    pred: Predicate::Lt,
                    lhs: c.value,
                    rhs: OperandView::Const(0),
                    name: "whilecond"@,
                };
                lemma_emit(c.state, compare);
                if let Ok(b) = c.state.as_condition(
                    c.value,
                    c.ty,
                    Predicate::Lt,
                    "whilecond"@,
                ) {
                    assert(stays(c.state, b.state));
                    lemma_grows_trans(in_loop, c.state, b.state);
                    let m = b.state.blocks.len() as int;
                    let added = b.state.append_block("body"@);
                    lemma_append_block(b.state, "body"@);
                    let branch = InstView::Branch {
                        cond: b.value,
                        then_target: m as nat,
                        else_target: (n + 1) as nat,
                    };
                    lemma_emit(added, branch);
                    if let Ok(branched) = added.emit(branch) {
                        let in_body = branched.position_at(m);
                        assert(tidy(in_body));
                        lemma_stmts(in_body, body, 0);
                        if let Ok(after_body) = lower_stmts(in_body, body, 0) {
                            lemma_close_with_jump(after_body, n);
                            let closed = after_body.close_with_jump(n);
                            let after = closed.position_at(n + 1);
                            assert forall|i: int| 0 <= i < state.blocks.len() implies (
                            #[trigger] after.blocks[i]).label == state.blocks[i].label by {
                                assert(start.blocks[i] == state.blocks[i]);
                                assert(entered.blocks[i].label == start.blocks[i].label);
                                assert(b.state.blocks[i].label == in_loop.blocks[i].label);
                                assert(added.blocks[i] == b.state.blocks[i]);
                                assert(branched.blocks[i].label == added.blocks[i].label);
                                assert(after_body.blocks[i].label == in_body.blocks[i].label);
                                assert(closed.blocks[i].label == after_body.blocks[i].label);
                            }
                            assert forall|i: int|
                                0 <= i < state.blocks.len() && i != state.current implies
                                #[trigger] after.blocks[i] == state.blocks[i] by {
                                assert(start.blocks[i] == state.blocks[i]);
                                assert(entered.blocks[i] == start.blocks[i]);
                                assert(b.state.blocks[i] == in_loop.blocks[i]);
                                assert(added.blocks[i] == b.state.blocks[i]);
                                assert(branched.blocks[i] == added.blocks[i]);
                                assert(after_body.blocks[i] == in_body.blocks[i]);
                                assert(closed.blocks[i] == after_body.blocks[i]);
                            }
                            assert forall|i: int|
                                0 <= i < after.blocks.len() && i != after.current && (i
                                    == state.current || i >= state.blocks.len()) implies (
                            #[trigger] after.blocks[i]).is_terminated() by {
                                if i == state.current {
                                    assert(entered.blocks[i].is_terminated());
                                    assert(b.state.blocks[i] == in_loop.blocks[i]);
                                    assert(added.blocks[i] == b.state.blocks[i]);
                                    assert(branched.blocks[i] == added.blocks[i]);
                                    assert(after_body.blocks[i] == in_body.blocks[i]);
                                    assert(closed.blocks[i] == after_body.blocks[i]);
                                } else if i == n {
                                    assert(branched.blocks[i].is_terminated());
                                    assert(after_body.blocks[i] == in_body.blocks[i]);
                                    assert(closed.blocks[i] == after_body.blocks[i]);
                                } else if i == after_body.current {
                                } else {
                                    assert(after_body.blocks[i].is_terminated());
                                    assert(closed.blocks[i] == after_body.blocks[i]);
                                }
                            }
                            assert(grows(state, after));
                        }
                    }
                }
            }
        }
    }
}

#[verifier::rlimit(50)]
proof fn lemma_for(state: BuildState, stmt: StmtView)
    requires
        tidy(state),
    ensures
        lower_for(state, stmt) matches Ok(after) ==> grows(state, after),
    decreases stmt, 0nat,
{
    if let StmtView::For { init, cond, inc, body } = stmt {
        lemma_optional(state, init);
        if let Ok(begun) = lower_optional(state, init) {
            let n = begun.blocks.len() as int;
            let s1 = begun.append_block("loop"@);
            let start = s1.append_block("cont"@);
            lemma_append_block(begun, "loop"@);
            lemma_append_block(s1, "cont"@);
            let jump = InstView::Jump { target: n as nat };
            lemma_emit(start, jump);
            if let Ok(entered) = start.emit(jump) {
                let in_loop = entered.position_at(n);
                assert(tidy(in_loop));
                lemma_for_condition(in_loop, cond, n + 1);
                if let Ok(in_body) = lower_for_condition(in_loop, cond, n + 1) {
                    lemma_stmts(in_body, body, 0);
                    if let Ok(after_body) = lower_stmts(in_body, body, 0) {
                        lemma_grows_trans(in_loop, in_body, after_body);
                        lemma_optional(after_body, inc);
                        if let Ok(stepped) = lower_optional(after_body, inc) {
                            lemma_grows_trans(in_loop, after_body, stepped);
                            lemma_close_with_jump(stepped, n);
                            let closed = stepped.close_with_jump(n);
                            lemma_grows_trans(in_loop, stepped, closed);
                            let after = closed.position_at(n + 1);
                            assert forall|i: int| 0 <= i < state.blocks.len() implies (
                            #[trigger] after.blocks[i]).label == state.blocks[i].label by {
                                assert(begun.blocks[i].label == state.blocks[i].label);
                                assert(start.blocks[i] == begun.blocks[i]);
                                assert(entered.blocks[i].label == start.blocks[i].label);
                                assert(closed.blocks[i].label == in_loop.blocks[i].label);
                            }
                            assert forall|i: int|
                                0 <= i < state.blocks.len() && i != state.current implies
                                #[trigger] after.blocks[i] == state.blocks[i] by {
                                assert(begun.blocks[i] == state.blocks[i]);
                                assert(start.blocks[i] == begun.blocks[i]);
                                assert(entered.blocks[i] == start.blocks[i]);
                                assert(closed.blocks[i] == in_loop.blocks[i]);
                            }
                            assert forall|i: int|
                                0 <= i < after.blocks.len() && i != after.current && (i
                                    == state.current || i >= state.blocks.len()) implies (
                            #[trigger] after.blocks[i]).is_terminated() by {
                                if i == state.current {
                                    assert(entered.blocks[i].is_terminated());
                                    assert(closed.blocks[i] == in_loop.blocks[i]);
                                } else if i == closed.current {
                                } else {
                                    assert(closed.blocks[i].is_terminated());
                                }
                            }
                            assert(grows(state, after));
                        }
                    }
                }
            }
        }
    }
}

pub(crate) proof fn lemma_stmt(state: BuildState, stmt: StmtView)
    requires
        tidy(state),
    ensures
        lower_stmt(state, stmt) matches Ok(after) ==> grows(state, after),
    decreases stmt, 1nat,
{
    match stmt {
        StmtView::Empty => {},
        StmtView::LocalVar { name, init, .. } => {
            lemma_local(state, name, init);
        },
        StmtView::Expr(e) => {
            lemma_expr_stmt(state, e);
        },
        StmtView::Return(e) => {
            lemma_expr(state, e);
            if let Ok(v) = lower_expr(state, e) {
                let ret = InstView::Return { value: v.value };
                lemma_emit(v.state, ret);
                if let Ok(done) = v.state.emit(ret) {
                    lemma_grows_trans(state, v.state, done);
                }
            }
        },
        StmtView::If { .. } => {
            lemma_if(state, stmt);
        },
        StmtView::While(..) => {
            lemma_while(state, stmt);
        },
        StmtView::For { .. } => {
            lemma_for(state, stmt);
        },
        StmtView::Block(stmts) => {
            lemma_stmts(state, stmts, 0);
        },
    }
}

pub(crate) proof fn lemma_stmts(state: BuildState, stmts: Seq<StmtView>, from: int)
    requires
        tidy(state),
    ensures
        lower_stmts(state, stmts, from) matches Ok(after) ==> grows(state, after),
    decreases stmts, stmts.len() - from,
{
    if 0 <= from < stmts.len() {
        lemma_stmt(state, stmts[from]);
        if let Ok(next) = lower_stmt(state, stmts[from]) {
            lemma_stmts(next, stmts, from + 1);
            if let Ok(after) = lower_stmts(next, stmts, from + 1) {
                lemma_grows_trans(state, next, after);
            }
        }
    }
}

/// Every function that lowering yields is entered at block `entry`, and each
/// of its blocks is a basic block: it ends in exactly one terminator, and no
/// code stands behind a terminator.
pub proof fn lemma_lowered_function_well_formed(name: Seq<char>, body: Seq<StmtView>)
    ensures
        lower_function(name, body) matches Ok(function) ==> function_well_formed(function),
{
    let entry = entry_state();
    assert(tidy(entry));
    lemma_stmts(entry, body, 0);
    if let Ok(state) = lower_stmts(entry, body, 0) {
        let closed = state.close_with_return();
        if !state.at_terminator() {
            lemma_push(state, InstView::Return { value: OperandView::Const(0) });
        }
        assert(stays(state, closed));
        assert(closed.at_terminator());
        assert forall|i: int| 0 <= i < closed.blocks.len() implies block_well_formed(
            #[trigger] closed.blocks[i],
            closed.blocks.len(),
        ) by {
            if i != closed.current {
                assert(state.blocks[i].is_terminated());
                assert(closed.blocks[i] == state.blocks[i]);
            }
        }
        assert(closed.blocks[0].label == state.blocks[0].label);
        assert(state.blocks[0].label == entry.blocks[0].label);
    }
}

proof fn lemma_lowered_decls_well_formed(decls: Seq<DeclView>, from: int)
    ensures
        lower_decls(decls, from) matches Ok(functions) ==> forall|i: int|
            0 <= i < functions.len() ==> function_well_formed(#[trigger] functions[i]),
    decreases decls.len() - from,
{
    if 0 <= from < decls.len() {
        lemma_lowered_decls_well_formed(decls, from + 1);
        if let DeclView::Function { name, body, .. } = decls[from] {
            lemma_lowered_function_well_formed(name, body);
        }
    }
}

/// The names of the functions among the declarations from index `from` on,
/// in order.
pub open spec fn function_names(decls: Seq<DeclView>, from: int) -> Seq<Seq<char>>
    decreases decls.len() - from,
{
    if 0 <= from < decls.len() {
        match decls[from] {
            DeclView::Function { name, .. } => seq![name] + function_names(decls, from + 1),
            DeclView::Var { .. } => function_names(decls, from + 1),
        }
    } else {
        Seq::empty()
    }
}

/// The names of functions, in order.
pub open spec fn names_of(functions: Seq<FunctionView>) -> Seq<Seq<char>> {
    Seq::new(functions.len(), |i: int| functions[i].name)
}

proof fn lemma_lowered_decls_names(decls: Seq<DeclView>, from: int)
    ensures
        lower_decls(decls, from) matches Ok(functions) ==> names_of(functions) == function_names(
            decls,
            from,
        ),
    decreases decls.len() - from,
{
    if 0 <= from < decls.len() {
        lemma_lowered_decls_names(decls, from + 1);
        if let Ok(functions) = lower_decls(decls, from) {
            assert(names_of(functions) =~= function_names(decls, from));
        }
    } else {
        assert(names_of(Seq::<FunctionView>::empty()) =~= Seq::empty());
    }
}

/// A module that lowering yields holds one function for each function of the
/// program, under its name and in source order, and nothing for a global
/// variable.
pub proof fn lemma_lowered_module_holds_the_functions(program: ProgramView)
    ensures
        lower_program(program) matches Ok(module) ==> names_of(module.functions)
            == function_names(program.decls, 0),
{
    lemma_lowered_decls_names(program.decls, 0);
}

/// Every module that lowering yields is well formed: in each function, each
/// block is a basic block.
pub proof fn lemma_lowered_module_well_formed(program: ProgramView)
    ensures
        lower_program(program) matches Ok(module) ==> module_well_formed(module),
{
    lemma_lowered_decls_well_formed(program.decls, 0);
}

} // verus!

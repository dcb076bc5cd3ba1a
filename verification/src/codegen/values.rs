//! The references of lowered code: every instruction refers to what exists.

use crate::ast::nodes::{DeclView, ExprView, ProgramView, StmtView};
use crate::codegen::ir::{
    BlockView, FunctionView, InstView, ModuleView, OperandView, Place, Predicate, ValueType,
};
use crate::codegen::lowering::{
    entry_state, lower_decls, lower_expr, lower_expr_stmt, lower_for, lower_for_condition,
    lower_function, lower_if, lower_local, lower_optional, lower_program, lower_stmt,
    lower_stmts, lower_while, operation, BuildState,
};
use crate::codegen::shape::{
    lemma_append_block, lemma_close_with_jump, lemma_emit, lemma_expr, lemma_for_condition,
    lemma_optional, lemma_stmts, stays, targets_within, tidy,
};
use crate::lexer::token::TokenKind;
use vstd::prelude::*;

verus! {

/// Whether the instruction yields a value.
pub open spec fn yields_value(inst: InstView) -> bool {
    inst is Load || inst is Binary || inst is Compare
}

/// Whether an operand can be used by the instruction of index `at` in block
/// `block`, whose instructions are `insts`: it is a constant, or the value
/// that an earlier instruction of the same block yields.
pub open spec fn operand_defined(insts: Seq<InstView>, block: int, at: int, operand: OperandView) -> bool {
    match operand {
        OperandView::Const(_) => true,
        OperandView::Value(place) => place.block == block && place.index < at && place.index
            < insts.len() && yields_value(insts[place.index as int]),
    }
}

/// Whether `slot` is the place of an instruction of the function that
/// reserves a stack slot.
pub open spec fn slot_defined(blocks: Seq<BlockView>, slot: Place) -> bool {
    &&& slot.block < blocks.len()
    &&& slot.index < blocks[slot.block as int].insts.len()
    &&& blocks[slot.block as int].insts[slot.index as int] is Alloca
}

/// Whether what an instruction refers to exists: its slot, and the values
/// that it operates on.
pub open spec fn inst_defined(blocks: Seq<BlockView>, block: int, at: int, inst: InstView) -> bool {
    let insts = blocks[block].insts;
    match inst {
        InstView::Alloca { .. } => true,
        InstView::Jump { .. } => true,
        InstView::Store { slot, value } => slot_defined(blocks, slot) && operand_defined(
            insts,
            block,
            at,
            value,
        ),
        InstView::Load { slot, .. } => slot_defined(blocks, slot),
        InstView::Binary { lhs, rhs, .. } => operand_defined(insts, block, at, lhs)
            && operand_defined(insts, block, at, rhs),
        InstView::Compare { lhs, rhs, .. } => operand_defined(insts, block, at, lhs)
            && operand_defined(insts, block, at, rhs),
        InstView::Branch { cond, .. } => operand_defined(insts, block, at, cond),
        InstView::Return { value } => operand_defined(insts, block, at, value),
    }
}

/// Whether every instruction of the blocks refers to what exists.
pub open spec fn blocks_defined(blocks: Seq<BlockView>) -> bool {
    forall|b: int, j: int|
        0 <= b < blocks.len() && 0 <= j < blocks[b].insts.len() ==> inst_defined(
            blocks,
            b,
            j,
            #[trigger] blocks[b].insts[j],
        )
}

/// A function in which every instruction refers to what exists: a load or a
/// store names an instruction that reserves a slot, and an operand is a
/// constant or the value of an earlier instruction of the same block.
pub open spec fn function_defined(function: FunctionView) -> bool {
    blocks_defined(function.blocks)
}

/// A module in which every instruction refers to what exists.
pub open spec fn module_defined(module: ModuleView) -> bool {
    forall|i: int|
        0 <= i < module.functions.len() ==> function_defined(#[trigger] module.functions[i])
}

/// Whether a function under construction refers to what exists only, in its
/// instructions and in the slots of its variables.
pub open spec fn sound(state: BuildState) -> bool {
    &&& tidy(state)
    &&& blocks_defined(state.blocks)
    &&& forall|name: Seq<char>| #[trigger]
        state.slots.contains_key(name) ==> slot_defined(state.blocks, state.slots[name])
}

/// Whether `after` holds every block of `before`, with the same instructions
/// and perhaps more behind them.
pub open spec fn keeps(before: Seq<BlockView>, after: Seq<BlockView>) -> bool {
    &&& before.len() <= after.len()
    &&& forall|b: int|
        0 <= b < before.len() ==> before[b].insts.len() <= (#[trigger] after[b]).insts.len()
    &&& forall|b: int, j: int|
        0 <= b < before.len() && 0 <= j < before[b].insts.len() ==> #[trigger] after[b].insts[j]
            == before[b].insts[j]
}

/// Whether a value can be used by the next instruction at the insertion point.
pub open spec fn usable(state: BuildState, value: OperandView) -> bool {
    operand_defined(
        state.blocks[state.current].insts,
        state.current,
        state.blocks[state.current].insts.len() as int,
        value,
    )
}

proof fn lemma_keeps_trans(a: Seq<BlockView>, b: Seq<BlockView>, c: Seq<BlockView>)
    requires
        keeps(a, b),
        keeps(b, c),
    ensures
        keeps(a, c),
{
    assert forall|i: int| 0 <= i < a.len() implies a[i].insts.len() <= (#[trigger] c[i]).insts.len() by {
        assert(a[i].insts.len() <= b[i].insts.len());
    }
    assert forall|i: int, j: int| 0 <= i < a.len() && 0 <= j < a[i].insts.len() implies
        #[trigger] c[i].insts[j] == a[i].insts[j] by {
        assert(b[i].insts[j] == a[i].insts[j]);
        assert(a[i].insts.len() <= b[i].insts.len());
    }
}

proof fn lemma_keeps_slot(before: Seq<BlockView>, after: Seq<BlockView>, slot: Place)
    requires
        keeps(before, after),
        slot_defined(before, slot),
    ensures
        slot_defined(after, slot),
{
    let b = slot.block as int;
    let j = slot.index as int;
    assert(before[b].insts.len() <= after[b].insts.len());
    assert(after[b].insts[j] == before[b].insts[j]);
}

proof fn lemma_keeps_operand(
    before: Seq<BlockView>,
    after: Seq<BlockView>,
    block: int,
    at: int,
    later: int,
    operand: OperandView,
)
    requires
        keeps(before, after),
        0 <= block < before.len(),
        at <= later,
        operand_defined(before[block].insts, block, at, operand),
    ensures
        operand_defined(after[block].insts, block, later, operand),
{
    if let OperandView::Value(place) = operand {
        assert(before[block].insts.len() <= after[block].insts.len());
        assert(after[block].insts[place.index as int] == before[block].insts[place.index as int]);
    }
}

proof fn lemma_keeps_inst(
    before: Seq<BlockView>,
    after: Seq<BlockView>,
    block: int,
    at: int,
    inst: InstView,
)
    requires
        keeps(before, after),
        0 <= block < before.len(),
        inst_defined(before, block, at, inst),
    ensures
        inst_defined(after, block, at, inst),
{
    match inst {
        InstView::Alloca { .. } => {},
        InstView::Jump { .. } => {},
        InstView::Store { slot, value } => {
            lemma_keeps_slot(before, after, slot);
            lemma_keeps_operand(before, after, block, at, at, value);
        },
        InstView::Load { slot, .. } => {
            lemma_keeps_slot(before, after, slot);
        },
        InstView::Binary { lhs, rhs, .. } => {
            lemma_keeps_operand(before, after, block, at, at, lhs);
            lemma_keeps_operand(before, after, block, at, at, rhs);
        },
        InstView::Compare { lhs, rhs, .. } => {
            lemma_keeps_operand(before, after, block, at, at, lhs);
            lemma_keeps_operand(before, after, block, at, at, rhs);
        },
        InstView::Branch { cond, .. } => {
            lemma_keeps_operand(before, after, block, at, at, cond);
        },
        InstView::Return { value } => {
            lemma_keeps_operand(before, after, block, at, at, value);
        },
    }
}

/// A value that can be used stays so while code is added to its block.
proof fn lemma_keeps_usable(before: BuildState, after: BuildState, value: OperandView)
    requires
        before.wf(),
        keeps(before.blocks, after.blocks),
        after.current == before.current,
        usable(before, value),
    ensures
        usable(after, value),
{
    let b = before.current;
    assert(before.blocks[b].insts.len() <= after.blocks[b].insts.len());
    lemma_keeps_operand(
        before.blocks,
        after.blocks,
        b,
        before.blocks[b].insts.len() as int,
        after.blocks[b].insts.len() as int,
        value,
    );
}

proof fn lemma_keeps_refl(blocks: Seq<BlockView>)
    ensures
        keeps(blocks, blocks),
{
}

/// Whether an instruction can stand at the insertion point: what it refers
/// to exists there.
pub open spec fn fits_next(state: BuildState, inst: InstView) -> bool {
    inst_defined(
        state.blocks,
        state.current,
        state.blocks[state.current].insts.len() as int,
        inst,
    )
}

proof fn lemma_push_sound(state: BuildState, inst: InstView)
    requires
        sound(state),
        tidy(state.push(inst)),
        fits_next(state, inst),
    ensures
        sound(state.push(inst)),
        keeps(state.blocks, state.push(inst).blocks),
        yields_value(inst) ==> usable(state.push(inst), OperandView::Value(state.next_ref())),
{
    let after = state.push(inst);
    let c = state.current;
    let n = state.blocks[c].insts.len() as int;
    assert(keeps(state.blocks, after.blocks)) by {
        assert forall|b: int| 0 <= b < state.blocks.len() implies state.blocks[b].insts.len() <= (
        #[trigger] after.blocks[b]).insts.len() by {
            if b != c {
                assert(after.blocks[b] == state.blocks[b]);
            }
        }
        assert forall|b: int, j: int|
            0 <= b < state.blocks.len() && 0 <= j < state.blocks[b].insts.len() implies
            #[trigger] after.blocks[b].insts[j] == state.blocks[b].insts[j] by {
            if b != c {
                assert(after.blocks[b] == state.blocks[b]);
            }
        }
    }
    assert forall|b: int, j: int|
        0 <= b < after.blocks.len() && 0 <= j < after.blocks[b].insts.len() implies inst_defined(
        after.blocks,
        b,
        j,
        #[trigger] after.blocks[b].insts[j],
    ) by {
        if b == c && j == n {
            lemma_keeps_inst(state.blocks, after.blocks, c, n, inst);
        } else {
            assert(after.blocks[b].insts[j] == state.blocks[b].insts[j]);
            assert(inst_defined(state.blocks, b, j, state.blocks[b].insts[j]));
            lemma_keeps_inst(state.blocks, after.blocks, b, j, state.blocks[b].insts[j]);
        }
    }
    assert forall|name: Seq<char>| #[trigger] after.slots.contains_key(name) implies slot_defined(
        after.blocks,
        after.slots[name],
    ) by {
        lemma_keeps_slot(state.blocks, after.blocks, state.slots[name]);
    }
}

/// What `emit` leaves when the instruction fits: a sound state that keeps the
/// blocks, and the value of the instruction, if it yields one, can be used.
proof fn lemma_emit_sound(state: BuildState, inst: InstView)
    requires
        sound(state),
        fits_next(state, inst),
        targets_within(inst, state.blocks.len()),
    ensures
        state.emit(inst) matches Ok(after) ==> sound(after) && keeps(state.blocks, after.blocks)
            && stays(state, after) && (yields_value(inst) ==> usable(
            after,
            OperandView::Value(state.next_ref()),
        )),
{
    lemma_emit(state, inst);
    if !state.at_terminator() {
        lemma_push_sound(state, inst);
    }
}

proof fn lemma_append_sound(state: BuildState, label: Seq<char>)
    requires
        sound(state),
    ensures
        sound(state.append_block(label)),
        keeps(state.blocks, state.append_block(label).blocks),
{
    let after = state.append_block(label);
    lemma_append_block(state, label);
    assert(keeps(state.blocks, after.blocks)) by {
        assert forall|b: int, j: int|
            0 <= b < state.blocks.len() && 0 <= j < state.blocks[b].insts.len() implies
            #[trigger] after.blocks[b].insts[j] == state.blocks[b].insts[j] by {
            assert(after.blocks[b] == state.blocks[b]);
        }
        assert forall|b: int| 0 <= b < state.blocks.len() implies state.blocks[b].insts.len() <= (
        #[trigger] after.blocks[b]).insts.len() by {
            assert(after.blocks[b] == state.blocks[b]);
        }
    }
    lemma_sound_carries(state, after);
}

/// A state with the blocks of a sound state, and perhaps more code behind
/// them that refers to what exists, is sound if it has the same slots.
proof fn lemma_sound_carries(before: BuildState, after: BuildState)
    requires
        sound(before),
        tidy(after),
        keeps(before.blocks, after.blocks),
        after.slots == before.slots,
        forall|b: int, j: int|
            0 <= b < after.blocks.len() && 0 <= j < after.blocks[b].insts.len() && !(b
                < before.blocks.len() && j < before.blocks[b].insts.len()) ==> inst_defined(
                after.blocks,
                b,
                j,
                #[trigger] after.blocks[b].insts[j],
            ),
    ensures
        sound(after),
{
    assert forall|b: int, j: int|
        0 <= b < after.blocks.len() && 0 <= j < after.blocks[b].insts.len() implies inst_defined(
        after.blocks,
        b,
        j,
        #[trigger] after.blocks[b].insts[j],
    ) by {
        if b < before.blocks.len() && j < before.blocks[b].insts.len() {
            assert(after.blocks[b].insts[j] == before.blocks[b].insts[j]);
            assert(inst_defined(before.blocks, b, j, before.blocks[b].insts[j]));
            lemma_keeps_inst(before.blocks, after.blocks, b, j, before.blocks[b].insts[j]);
        }
    }
    assert forall|name: Seq<char>| #[trigger] after.slots.contains_key(name) implies slot_defined(
        after.blocks,
        after.slots[name],
    ) by {
        lemma_keeps_slot(before.blocks, after.blocks, before.slots[name]);
    }
}

proof fn lemma_position_sound(state: BuildState, block: int)
    requires
        sound(state),
        0 <= block < state.blocks.len(),
    ensures
        sound(state.position_at(block)),
{
    let after = state.position_at(block);
    assert(tidy(after));
    lemma_keeps_refl(state.blocks);
    lemma_sound_carries(state, after);
}

proof fn lemma_close_with_jump_sound(state: BuildState, target: int)
    requires
        sound(state),
        0 <= target < state.blocks.len(),
    ensures
        sound(state.close_with_jump(target)),
        keeps(state.blocks, state.close_with_jump(target).blocks),
{
    lemma_close_with_jump(state, target);
    if !state.at_terminator() {
        lemma_push_sound(state, InstView::Jump { target: target as nat });
    } else {
        lemma_keeps_refl(state.blocks);
    }
}

proof fn lemma_expr_sound(state: BuildState, expr: ExprView)
    requires
        sound(state),
    ensures
        lower_expr(state, expr) matches Ok(lowered) ==> sound(lowered.state) && keeps(
            state.blocks,
            lowered.state.blocks,
        ) && stays(state, lowered.state) && usable(lowered.state, lowered.value),
    decreases expr,
{
    lemma_expr(state, expr);
    match expr {
        ExprView::IntLiteral { .. } => {
            lemma_keeps_refl(state.blocks);
        },
        ExprView::Var { name, .. } => {
            if state.slots.contains_key(name) {
                lemma_emit_sound(state, InstView::Load { slot: state.slots[name], name });
            }
        },
        ExprView::Binary { op, left, right, .. } => {
            lemma_expr_sound(state, *left);
            if let Ok(l) = lower_expr(state, *left) {
                lemma_expr_sound(l.state, *right);
                if let Ok(r) = lower_expr(l.state, *right) {
                    lemma_keeps_trans(state.blocks, l.state.blocks, r.state.blocks);
                    lemma_keeps_usable(l.state, r.state, l.value);
                    if let Some((inst, ty)) = operation(op, l.value, r.value) {
                        lemma_emit_sound(r.state, inst);
                        if let Ok(done) = r.state.emit(inst) {
                            lemma_keeps_trans(state.blocks, r.state.blocks, done.blocks);
                        }
                    }
                }
            }
        },
    }
}

proof fn lemma_optional_sound(state: BuildState, expr: Option<ExprView>)
    requires
        sound(state),
    ensures
        lower_optional(state, expr) matches Ok(after) ==> sound(after) && keeps(
            state.blocks,
            after.blocks,
        ),
{
    match expr {
        Some(e) => {
            lemma_expr_sound(state, e);
        },
        None => {
            lemma_keeps_refl(state.blocks);
        },
    }
}

proof fn lemma_expr_stmt_sound(state: BuildState, expr: ExprView)
    requires
        sound(state),
    ensures
        lower_expr_stmt(state, expr) matches Ok(after) ==> sound(after) && keeps(
            state.blocks,
            after.blocks,
        ),
{
    lemma_optional_sound(state, Some(expr));
    lemma_keeps_refl(state.blocks);
    if let ExprView::Binary { op, left, right, .. } = expr {
        if op == TokenKind::Assign {
            if let ExprView::Var { name, .. } = *left {
                lemma_expr_sound(state, *right);
                if let Ok(v) = lower_expr(state, *right) {
                    if v.state.slots.contains_key(name) {
                        let inst = InstView::Store { slot: v.state.slots[name], value: v.value };
                        lemma_emit_sound(v.state, inst);
                        if let Ok(done) = v.state.emit(inst) {
                            lemma_keeps_trans(state.blocks, v.state.blocks, done.blocks);
                        }
                    }
                }
            }
        }
    }
}

proof fn lemma_local_sound(state: BuildState, name: Seq<char>, init: ExprView)
    requires
        sound(state),
    ensures
        lower_local(state, name, init) matches Ok(after) ==> sound(after) && keeps(
            state.blocks,
            after.blocks,
        ),
{
    let alloca = InstView::Alloca { name };
    let slot = state.next_ref();
    lemma_emit_sound(state, alloca);
    if let Ok(reserved) = state.emit(alloca) {
        assert(slot_defined(reserved.blocks, slot));
        lemma_expr_sound(reserved, init);
        if let Ok(v) = lower_expr(reserved, init) {
            lemma_keeps_trans(state.blocks, reserved.blocks, v.state.blocks);
            lemma_keeps_slot(reserved.blocks, v.state.blocks, slot);
            let store = InstView::Store { slot, value: v.value };
            lemma_emit_sound(v.state, store);
            if let Ok(stored) = v.state.emit(store) {
                lemma_keeps_trans(state.blocks, v.state.blocks, stored.blocks);
                lemma_keeps_slot(v.state.blocks, stored.blocks, slot);
                let bound = stored.bind(name, slot);
                assert(tidy(bound));
                assert forall|n: Seq<char>| #[trigger] bound.slots.contains_key(n) implies slot_defined(
                    bound.blocks,
                    bound.slots[n],
                ) by {
                    if n != name {
                        assert(stored.slots.contains_key(n));
                    }
                }
            }
        }
    }
}

proof fn lemma_condition_sound(
    state: BuildState,
    value: OperandView,
    ty: ValueType,
    pred: Predicate,
    name: Seq<char>,
)
    requires
        sound(state),
        usable(state, value),
    ensures
        state.as_condition(value, ty, pred, name) matches Ok(b) ==> sound(b.state) && keeps(
            state.blocks,
            b.state.blocks,
        ) && stays(state, b.state) && usable(b.state, b.value),
{
    if ty == ValueType::Bool {
        lemma_keeps_refl(state.blocks);
    } else {
        lemma_emit_sound(
            state,
            InstView::Compare { pred, lhs: value, rhs: OperandView::Const(0), name },
        );
    }
}

proof fn lemma_for_condition_sound(state: BuildState, cond: Option<ExprView>, cont: int)
    requires
        sound(state),
        0 <= cont < state.blocks.len(),
        cont != state.current,
    ensures
        lower_for_condition(state, cond, cont) matches Ok(after) ==> sound(after) && keeps(
            state.blocks,
            after.blocks,
        ),
{
    lemma_for_condition(state, cond, cont);
    match cond {
        None => {
            lemma_keeps_refl(state.blocks);
        },
        Some(c) => {
            lemma_expr_sound(state, c);
            if let Ok(v) = lower_expr(state, c) {
                let compare = InstView::Compare {
                    pred: Predicate::Lt,
                    lhs: v.value,
                    rhs: OperandView::Const(0),
                    name: "forcond"@,
                };
                lemma_emit_sound(v.state, compare);
                if let Ok(compared) = v.state.emit(compare) {
                    lemma_keeps_trans(state.blocks, v.state.blocks, compared.blocks);
                    let body = compared.blocks.len();
                    let added = compared.append_block("body"@);
                    lemma_append_sound(compared, "body"@);
                    lemma_keeps_trans(state.blocks, compared.blocks, added.blocks);
                    let flag = OperandView::Value(v.state.next_ref());
                    lemma_keeps_usable(compared, added, flag);
                    let branch = InstView::Branch {
                        cond: flag,
                        then_target: body as nat,
                        else_target: cont as nat,
                    };
                    lemma_emit_sound(added, branch);
                    if let Ok(branched) = added.emit(branch) {
                        lemma_keeps_trans(state.blocks, added.blocks, branched.blocks);
                        lemma_position_sound(branched, body as int);
                    }
                }
            }
        },
    }
}

#[verifier::rlimit(50)]
proof fn lemma_if_sound(state: BuildState, stmt: StmtView)
    requires
        sound(state),
    ensures
        lower_if(state, stmt) matches Ok(after) ==> sound(after) && keeps(
            state.blocks,
            after.blocks,
        ),
    decreases stmt, 0nat,
{
    if let StmtView::If { cond, then_block, else_block } = stmt {
        let n = state.blocks.len() as int;
        let s1 = state.append_block("then"@);
        let s2 = s1.append_block("else"@);
        let start = s2.append_block("cont"@);
        lemma_append_sound(state, "then"@);
        lemma_append_sound(s1, "else"@);
        lemma_append_sound(s2, "cont"@);
        lemma_keeps_trans(state.blocks, s1.blocks, s2.blocks);
        lemma_keeps_trans(state.blocks, s2.blocks, start.blocks);
        lemma_expr_sound(start, cond);
        if let Ok(c) = lower_expr(start, cond) {
            lemma_keeps_trans(state.blocks, start.blocks, c.state.blocks);
            lemma_condition_sound(c.state, c.value, c.ty, Predicate::Ne, "ifcond"@);
            if let Ok(b) = c.state.as_condition(c.value, c.ty, Predicate::Ne, "ifcond"@) {
                lemma_keeps_trans(state.blocks, c.state.blocks, b.state.blocks);
                let branch = InstView::Branch {
                    cond: b.value,
                    then_target: n as nat,
                    else_target: (n + 1) as nat,
                };
                lemma_emit_sound(b.state, branch);
                if let Ok(branched) = b.state.emit(branch) {
                    lemma_keeps_trans(state.blocks, b.state.blocks, branched.blocks);
                    let in_then = branched.position_at(n);
                    lemma_position_sound(branched, n);
                    lemma_stmts_sound(in_then, then_block, 0);
                    lemma_stmts(in_then, then_block, 0);
                    if let Ok(after_then) = lower_stmts(in_then, then_block, 0) {
                        lemma_keeps_trans(state.blocks, in_then.blocks, after_then.blocks);
                        lemma_close_with_jump_sound(after_then, n + 2);
                        let closed_then = after_then.close_with_jump(n + 2);
                        lemma_keeps_trans(state.blocks, after_then.blocks, closed_then.blocks);
                        let in_else = closed_then.position_at(n + 1);
                        lemma_position_sound(closed_then, n + 1);
                        let after_else = match else_block {
                            Some(stmts) => lower_stmts(in_else, stmts, 0),
                            None => Ok(in_else),
                        };
                        match else_block {
                            Some(stmts) => {
                                lemma_stmts_sound(in_else, stmts, 0);
                                lemma_stmts(in_else, stmts, 0);
                            },
                            None => {
                                lemma_keeps_refl(in_else.blocks);
                            },
                        }
                        if let Ok(after_else) = after_else {
                            lemma_keeps_trans(state.blocks, in_else.blocks, after_else.blocks);
                            lemma_close_with_jump_sound(after_else, n + 2);
                            let closed_else = after_else.close_with_jump(n + 2);
                            lemma_keeps_trans(state.blocks, after_else.blocks, closed_else.blocks);
                            lemma_position_sound(closed_else, n + 2);
                        }
                    }
                }
            }
        }
    } else {
        lemma_keeps_refl(state.blocks);
    }
}

#[verifier::rlimit(50)]
proof fn lemma_while_sound(state: BuildState, stmt: StmtView)
    requires
        sound(state),
    ensures
        lower_while(state, stmt) matches Ok(after) ==> sound(after) && keeps(
            state.blocks,
            after.blocks,
        ),
    decreases stmt, 0nat,
{
    if let StmtView::While(cond, body) = stmt {
        let n = state.blocks.len() as int;
        let s1 = state.append_block("loop"@);
        let start = s1.append_block("cont"@);
        lemma_append_sound(state, "loop"@);
        lemma_append_sound(s1, "cont"@);
        lemma_keeps_trans(state.blocks, s1.blocks, start.blocks);
        let jump = InstView::Jump { target: n as nat };
        lemma_emit_sound(start, jump);
        if let Ok(entered) = start.emit(jump) {
            lemma_keeps_trans(state.blocks, start.blocks, entered.blocks);
            let in_loop = entered.position_at(n);
            lemma_position_sound(entered, n);
            lemma_expr_sound(in_loop, cond);
            if let Ok(c) = lower_expr(in_loop, cond) {
                lemma_keeps_trans(state.blocks, in_loop.blocks, c.state.blocks);
                lemma_condition_sound(c.state, c.value, c.ty, Predicate::Lt, "whilecond"@);
                if let Ok(b) = c.state.as_condition(c.value, c.ty, Predicate::Lt, "whilecond"@) {
                    lemma_keeps_trans(state.blocks, c.state.blocks, b.state.blocks);
                    let m = b.state.blocks.len() as int;
                    let added = b.state.append_block("body"@);
                    lemma_append_sound(b.state, "body"@);
                    lemma_keeps_trans(state.blocks, b.state.blocks, added.blocks);
                    lemma_keeps_usable(b.state, added, b.value);
                    let branch = InstView::Branch {
                        cond: b.value,
                        then_target: m as nat,
                        else_target: (n + 1) as nat,
                    };
                    lemma_emit_sound(added, branch);
                    if let Ok(branched) = added.emit(branch) {
                        lemma_keeps_trans(state.blocks, added.blocks, branched.blocks);
                        let in_body = branched.position_at(m);
                        lemma_position_sound(branched, m);
                        lemma_stmts_sound(in_body, body, 0);
                        lemma_stmts(in_body, body, 0);
                        if let Ok(after_body) = lower_stmts(in_body, body, 0) {
                            lemma_keeps_trans(state.blocks, in_body.blocks, after_body.blocks);
                            lemma_close_with_jump_sound(after_body, n);
                            let closed = after_body.close_with_jump(n);
                            lemma_keeps_trans(state.blocks, after_body.blocks, closed.blocks);
                            lemma_position_sound(closed, n + 1);
                        }
                    }
                }
            }
        }
    } else {
        lemma_keeps_refl(state.blocks);
    }
}

#[verifier::rlimit(50)]
proof fn lemma_for_sound(state: BuildState, stmt: StmtView)
    requires
        sound(state),
    ensures
        lower_for(state, stmt) matches Ok(after) ==> sound(after) && keeps(
            state.blocks,
            after.blocks,
        ),
    decreases stmt, 0nat,
{
    if let StmtView::For { init, cond, inc, body } = stmt {
        lemma_optional_sound(state, init);
        lemma_optional(state, init);
        if let Ok(begun) = lower_optional(state, init) {
            let n = begun.blocks.len() as int;
            let s1 = begun.append_block("loop"@);
            let start = s1.append_block("cont"@);
            lemma_append_sound(begun, "loop"@);
            lemma_append_sound(s1, "cont"@);
            lemma_keeps_trans(state.blocks, begun.blocks, s1.blocks);
            lemma_keeps_trans(state.blocks, s1.blocks, start.blocks);
            let jump = InstView::Jump { target: n as nat };
            lemma_emit_sound(start, jump);
            if let Ok(entered) = start.emit(jump) {
                lemma_keeps_trans(state.blocks, start.blocks, entered.blocks);
                let in_loop = entered.position_at(n);
                lemma_position_sound(entered, n);
                lemma_for_condition_sound(in_loop, cond, n + 1);
                lemma_for_condition(in_loop, cond, n + 1);
                if let Ok(in_body) = lower_for_condition(in_loop, cond, n + 1) {
                    lemma_keeps_trans(state.blocks, in_loop.blocks, in_body.blocks);
                    lemma_stmts_sound(in_body, body, 0);
                    lemma_stmts(in_body, body, 0);
                    if let Ok(after_body) = lower_stmts(in_body, body, 0) {
                        lemma_keeps_trans(state.blocks, in_body.blocks, after_body.blocks);
                        lemma_optional_sound(after_body, inc);
                        lemma_optional(after_body, inc);
                        if let Ok(stepped) = lower_optional(after_body, inc) {
                            lemma_keeps_trans(state.blocks, after_body.blocks, stepped.blocks);
                            lemma_close_with_jump_sound(stepped, n);
                            let closed = stepped.close_with_jump(n);
                            lemma_keeps_trans(state.blocks, stepped.blocks, closed.blocks);
                            lemma_position_sound(closed, n + 1);
                        }
                    }
                }
            }
        }
    } else {
        lemma_keeps_refl(state.blocks);
    }
}

proof fn lemma_stmt_sound(state: BuildState, stmt: StmtView)
    requires
        sound(state),
    ensures
        lower_stmt(state, stmt) matches Ok(after) ==> sound(after) && keeps(
            state.blocks,
            after.blocks,
        ),
    decreases stmt, 1nat,
{
    match stmt {
        StmtView::Empty => {
            lemma_keeps_refl(state.blocks);
        },
        StmtView::LocalVar { name, init, .. } => {
            lemma_local_sound(state, name, init);
        },
        StmtView::Expr(e) => {
            lemma_expr_stmt_sound(state, e);
        },
        StmtView::Return(e) => {
            lemma_expr_sound(state, e);
            if let Ok(v) = lower_expr(state, e) {
                let ret = InstView::Return { value: v.value };
                lemma_emit_sound(v.state, ret);
                if let Ok(done) = v.state.emit(ret) {
                    lemma_keeps_trans(state.blocks, v.state.blocks, done.blocks);
                }
            }
        },
        StmtView::If { .. } => {
            lemma_if_sound(state, stmt);
        },
        StmtView::While(..) => {
            lemma_while_sound(state, stmt);
        },
        StmtView::For { .. } => {
            lemma_for_sound(state, stmt);
        },
        StmtView::Block(stmts) => {
            lemma_stmts_sound(state, stmts, 0);
        },
    }
}

proof fn lemma_stmts_sound(state: BuildState, stmts: Seq<StmtView>, from: int)
    requires
        sound(state),
    ensures
        lower_stmts(state, stmts, from) matches Ok(after) ==> sound(after) && keeps(
            state.blocks,
            after.blocks,
        ),
    decreases stmts, stmts.len() - from,
{
    if 0 <= from < stmts.len() {
        lemma_stmt_sound(state, stmts[from]);
        if let Ok(next) = lower_stmt(state, stmts[from]) {
            lemma_stmts_sound(next, stmts, from + 1);
            if let Ok(after) = lower_stmts(next, stmts, from + 1) {
                lemma_keeps_trans(state.blocks, next.blocks, after.blocks);
            }
        }
    } else {
        lemma_keeps_refl(state.blocks);
    }
}

/// In every function that lowering yields, every instruction refers to what
/// exists: a load or a store names an instruction that reserves a slot, and
/// an operand is a constant or the value of an earlier instruction of the
/// same block.
pub proof fn lemma_lowered_function_defined(name: Seq<char>, body: Seq<StmtView>)
    ensures
        lower_function(name, body) matches Ok(function) ==> function_defined(function),
{
    let entry = entry_state();
    assert(tidy(entry));
    assert(sound(entry));
    lemma_stmts_sound(entry, body, 0);
    if let Ok(state) = lower_stmts(entry, body, 0) {
        if !state.at_terminator() {
            let ret = InstView::Return { value: OperandView::Const(0) };
            lemma_emit(state, ret);
            lemma_push_sound(state, ret);
        }
    }
}

proof fn lemma_lowered_decls_defined(decls: Seq<DeclView>, from: int)
    ensures
        lower_decls(decls, from) matches Ok(functions) ==> forall|i: int|
            0 <= i < functions.len() ==> function_defined(#[trigger] functions[i]),
    decreases decls.len() - from,
{
    if 0 <= from < decls.len() {
        lemma_lowered_decls_defined(decls, from + 1);
        if let DeclView::Function { name, body, .. } = decls[from] {
            lemma_lowered_function_defined(name, body);
        }
    }
}

/// In every module that lowering yields, every instruction refers to what
/// exists.
pub proof fn lemma_lowered_module_defined(program: ProgramView)
    ensures
        lower_program(program) matches Ok(module) ==> module_defined(module),
{
    lemma_lowered_decls_defined(program.decls, 0);
}

} // verus!

//! What a program lowers to, as functions on syntax and the state of a
//! function under construction.

use crate::ast::nodes::{DeclView, ExprView, ProgramView, StmtView};
use crate::codegen::error::CodegenErrorView;
use crate::codegen::ir::{
    BinaryOp, BlockView, FunctionView, InstView, ModuleView, OperandView, Place, Predicate,
    ValueType,
};
use crate::lexer::token::TokenKind;
use vstd::prelude::*;

verus! {

/// What lowering yields: a value, or the error at which it stops.
pub type Built<T> = Result<T, CodegenErrorView>;

/// The error for an instruction that would follow a terminator in its block.
pub open spec fn unreachable_code() -> CodegenErrorView {
    CodegenErrorView::UnsupportedOp("unreachable code"@)
}

/// The error for a variable that has no stack slot in its function.
pub open spec fn undefined_variable() -> CodegenErrorView {
    CodegenErrorView::UnsupportedOp("undefined variable"@)
}

/// The error for an operator that no instruction computes.
pub open spec fn unsupported_operator(op: TokenKind) -> CodegenErrorView {
    CodegenErrorView::UnsupportedOp(op.spec_name())
}

/// A function under construction: its blocks so far, the block at whose end
/// instructions are inserted, and for each variable the instruction that
/// reserved its stack slot.
pub struct BuildState {
    pub blocks: Seq<BlockView>,
    pub current: int,
    pub slots: Map<Seq<char>, Place>,
}

/// An expression that has been lowered: the state behind it, and the value and
/// type that it yields.
pub struct Lowered {
    pub state: BuildState,
    pub value: OperandView,
    pub ty: ValueType,
}

impl BuildState {
    /// Whether the insertion point is a block of the function.
    pub open spec fn wf(self) -> bool {
        0 <= self.current < self.blocks.len()
    }

    /// Whether the block at the insertion point ends in a terminator.
    pub open spec fn at_terminator(self) -> bool {
        self.blocks[self.current].is_terminated()
    }

    /// The place that the next instruction will have.
    pub open spec fn next_ref(self) -> Place {
        Place { block: self.current as nat, index: self.blocks[self.current].insts.len() }
    }

    /// The state with `inst` at the end of the current block.
    pub open spec fn push(self, inst: InstView) -> BuildState {
        BuildState {
            blocks: self.blocks.update(
                self.current,
                BlockView {
                    label: self.blocks[self.current].label,
                    insts: self.blocks[self.current].insts.push(inst),
                },
            ),
            ..self
        }
    }

    /// Inserts an instruction. Nothing can follow a terminator.
    pub open spec fn emit(self, inst: InstView) -> Built<BuildState> {
        if self.at_terminator() {
            Err(unreachable_code())
        } else {
            Ok(self.push(inst))
        }
    }

    /// Inserts an instruction that yields a value of type `ty`.
    pub open spec fn emit_value(self, inst: InstView, ty: ValueType) -> Built<Lowered> {
        match self.emit(inst) {
            Err(e) => Err(e),
            Ok(state) => Ok(Lowered { state, value: OperandView::Value(self.next_ref()), ty }),
        }
    }

    /// The state with a new, empty block behind the others. Its index is the
    /// number of blocks before.
    pub open spec fn append_block(self, label: Seq<char>) -> BuildState {
        BuildState { blocks: self.blocks.push(BlockView { label, insts: Seq::empty() }), ..self }
    }

    /// The state with the insertion point at the end of `block`.
    pub open spec fn position_at(self, block: int) -> BuildState {
        BuildState { current: block, ..self }
    }

    /// The state in which `name` has the slot that the instruction at `slot`
    /// reserved.
    pub open spec fn bind(self, name: Seq<char>, slot: Place) -> BuildState {
        BuildState { slots: self.slots.insert(name, slot), ..self }
    }

    /// Ends the current block with a jump to `target`, unless it ends in a
    /// terminator already.
    pub open spec fn close_with_jump(self, target: int) -> BuildState {
        if self.at_terminator() {
            self
        } else {
            self.push(InstView::Jump { target: target as nat })
        }
    }

    /// Ends the current block with a return of the constant 0, unless it ends
    /// in a terminator already.
    pub open spec fn close_with_return(self) -> BuildState {
        if self.at_terminator() {
            self
        } else {
            self.push(InstView::Return { value: OperandView::Const(0) })
        }
    }

    /// Turns a value into a branch condition: a truth value is one as it is;
    /// an integer is compared with 0 by `pred`.
    pub open spec fn as_condition(
        self,
        value: OperandView,
        ty: ValueType,
        pred: Predicate,
        name: Seq<char>,
    ) -> Built<Lowered> {
        if ty == ValueType::Bool {
            Ok(Lowered { state: self, value, ty })
        } else {
            self.emit_value(
                InstView::Compare { pred, lhs: value, rhs: OperandView::Const(0), name },
                ValueType::Bool,
            )
        }
    }
}

/// The instruction that computes a binary operator, and the type of its value.
/// Assignment and the kinds that are no operators have none.
pub open spec fn operation(op: TokenKind, lhs: OperandView, rhs: OperandView) -> Option<
    (InstView, ValueType),
> {
    match op {
        TokenKind::Plus => Some(
            (InstView::Binary { op: BinaryOp::Add, lhs, rhs, name: "addtmp"@ }, ValueType::Int),
        ),
        TokenKind::Minus => Some(
            (InstView::Binary { op: BinaryOp::Sub, lhs, rhs, name: "subtmp"@ }, ValueType::Int),
        ),
        TokenKind::Star => Some(
            (InstView::Binary { op: BinaryOp::Mul, lhs, rhs, name: "multmp"@ }, ValueType::Int),
        ),
        TokenKind::Slash => Some(
            (InstView::Binary { op: BinaryOp::Div, lhs, rhs, name: "divtmp"@ }, ValueType::Int),
        ),
        TokenKind::Less => Some(
            (InstView::Compare { pred: Predicate::Lt, lhs, rhs, name: "lttmp"@ }, ValueType::Bool),
        ),
        TokenKind::LessEqual => Some(
            (InstView::Compare { pred: Predicate::Le, lhs, rhs, name: "letmp"@ }, ValueType::Bool),
        ),
        TokenKind::Greater => Some(
            (InstView::Compare { pred: Predicate::Gt, lhs, rhs, name: "gttmp"@ }, ValueType::Bool),
        ),
        TokenKind::GreaterEqual => Some(
            (InstView::Compare { pred: Predicate::Ge, lhs, rhs, name: "getmp"@ }, ValueType::Bool),
        ),
        TokenKind::Equal => Some(
            (InstView::Compare { pred: Predicate::Eq, lhs, rhs, name: "eqtmp"@ }, ValueType::Bool),
        ),
        TokenKind::NotEqual => Some(
            (InstView::Compare { pred: Predicate::Ne, lhs, rhs, name: "netmp"@ }, ValueType::Bool),
        ),
        _ => None,
    }
}

/// Lowers an expression that is used for its value. A literal is a constant; a
/// variable is loaded from its slot; a binary operator computes its operands,
/// the left one first, and then itself.
pub open spec fn lower_expr(state: BuildState, expr: ExprView) -> Built<Lowered>
    decreases expr,
{
    match expr {
        ExprView::IntLiteral { value, .. } => Ok(
            Lowered { state, value: OperandView::Const(value), ty: ValueType::Int },
        ),
        ExprView::Var { name, .. } => if state.slots.contains_key(name) {
            state.emit_value(InstView::Load { slot: state.slots[name], name }, ValueType::Int)
        } else {
            Err(undefined_variable())
        },
        ExprView::Binary { op, left, right, .. } => match lower_expr(state, *left) {
            Err(e) => Err(e),
            Ok(l) => match lower_expr(l.state, *right) {
                Err(e) => Err(e),
                Ok(r) => match operation(op, l.value, r.value) {
                    Some((inst, ty)) => r.state.emit_value(inst, ty),
                    None => Err(unsupported_operator(op)),
                },
            },
        },
    }
}

/// Lowers an expression that may be absent and whose value is dropped.
pub open spec fn lower_optional(state: BuildState, expr: Option<ExprView>) -> Built<BuildState> {
    match expr {
        Some(e) => match lower_expr(state, e) {
            Err(e) => Err(e),
            Ok(v) => Ok(v.state),
        },
        None => Ok(state),
    }
}

/// Lowers an assignment to the variable `name`: the value is computed and
/// stored in the slot of the variable.
pub open spec fn lower_assignment(state: BuildState, name: Seq<char>, value: ExprView) -> Built<
    BuildState,
> {
    match lower_expr(state, value) {
        Err(e) => Err(e),
        Ok(v) => if v.state.slots.contains_key(name) {
            v.state.emit(InstView::Store { slot: v.state.slots[name], value: v.value })
        } else {
            Err(undefined_variable())
        },
    }
}

/// Lowers an expression statement. An assignment to a variable is a store; an
/// assignment to anything else leaves no code; any other expression is
/// computed and its value dropped.
pub open spec fn lower_expr_stmt(state: BuildState, expr: ExprView) -> Built<BuildState> {
    match expr {
        ExprView::Binary { op, left, right, .. } => if op == TokenKind::Assign {
            match *left {
                ExprView::Var { name, .. } => lower_assignment(state, name, *right),
                _ => Ok(state),
            }
        } else {
            lower_optional(state, Some(expr))
        },
        _ => lower_optional(state, Some(expr)),
    }
}

/// Lowers the declaration of a local variable: a fresh slot is reserved, the
/// initializer is computed and stored in it, and from then on the name stands
/// for that slot, to the end of the function.
pub open spec fn lower_local(state: BuildState, name: Seq<char>, init: ExprView) -> Built<
    BuildState,
> {
    match state.emit(InstView::Alloca { name }) {
        Err(e) => Err(e),
        Ok(reserved) => match lower_expr(reserved, init) {
            Err(e) => Err(e),
            Ok(v) => match v.state.emit(
                InstView::Store { slot: state.next_ref(), value: v.value },
            ) {
                Err(e) => Err(e),
                Ok(stored) => Ok(stored.bind(name, state.next_ref())),
            },
        },
    }
}

/// Lowers the condition of a `for` statement in the loop header, the current
/// block: the loop goes on in a new block `body` while the condition is less
/// than 0, and leaves to block `cont` else. Without a condition the header is
/// the body.
pub open spec fn lower_for_condition(state: BuildState, cond: Option<ExprView>, cont: int) -> Built<
    BuildState,
> {
    match cond {
        None => Ok(state),
        Some(c) => match lower_expr(state, c) {
            Err(e) => Err(e),
            Ok(v) => match v.state.emit_value(
                InstView::Compare {
                    pred: Predicate::Lt,
                    lhs: v.value,
                    rhs: OperandView::Const(0),
                    name: "forcond"@,
                },
                ValueType::Bool,
            ) {
                Err(e) => Err(e),
                Ok(b) => {
                    let body = b.state.blocks.len();
                    match b.state.append_block("body"@).emit(
                        InstView::Branch {
                            cond: b.value,
                            then_target: body as nat,
                            else_target: cont as nat,
                        },
                    ) {
                        Err(e) => Err(e),
                        Ok(branched) => Ok(branched.position_at(body as int)),
                    }
                },
            },
        },
    }
}

/// Lowers an `if` statement. Three blocks are added: `then`, `else` and `cont`.
/// The condition is computed in the current block and holds if it is a truth
/// value that holds or an integer other than 0. Each arm ends with a jump to
/// `cont` unless it ends in a terminator; code behind the statement goes to
/// `cont`.
pub open spec fn lower_if(state: BuildState, stmt: StmtView) -> Built<BuildState>
    decreases stmt, 0nat,
{
    match stmt {
        StmtView::If { cond, then_block, else_block } => {
            let then_id = state.blocks.len() as int;
            let else_id = then_id + 1;
            let cont_id = then_id + 2;
            let start = state.append_block("then"@).append_block("else"@).append_block("cont"@);
            match lower_expr(start, cond) {
                Err(e) => Err(e),
                Ok(c) => match c.state.as_condition(c.value, c.ty, Predicate::Ne, "ifcond"@) {
                    Err(e) => Err(e),
                    Ok(b) => match b.state.emit(
                        InstView::Branch {
                            cond: b.value,
                            then_target: then_id as nat,
                            else_target: else_id as nat,
                        },
                    ) {
                        Err(e) => Err(e),
                        Ok(branched) => match lower_stmts(
                            branched.position_at(then_id),
                            then_block,
                            0,
                        ) {
                            Err(e) => Err(e),
                            Ok(after_then) => {
                                let in_else = after_then.close_with_jump(cont_id).position_at(
                                    else_id,
                                );
                                match (match else_block {
                                    Some(stmts) => lower_stmts(in_else, stmts, 0),
                                    None => Ok(in_else),
                                }) {
                                    Err(e) => Err(e),
                                    Ok(after_else) => Ok(
                                        after_else.close_with_jump(cont_id).position_at(cont_id),
                                    ),
                                }
                            },
                        },
                    },
                },
            }
        },
        _ => Ok(state),
    }
}

/// Lowers a `while` statement. Blocks `loop` and `cont` are added, and the
/// current block jumps to `loop`, the header, where the condition is computed
/// anew for every round. The loop goes on, in a new block `body`, if the
/// condition is a truth value that holds or an integer less than 0, and leaves
/// to `cont` else. The body ends with a jump to the header unless it ends in a
/// terminator.
pub open spec fn lower_while(state: BuildState, stmt: StmtView) -> Built<BuildState>
    decreases stmt, 0nat,
{
    match stmt {
        StmtView::While(cond, body) => {
            let loop_id = state.blocks.len() as int;
            let cont_id = loop_id + 1;
            match state.append_block("loop"@).append_block("cont"@).emit(
                InstView::Jump { target: loop_id as nat },
            ) {
                Err(e) => Err(e),
                Ok(entered) => match lower_expr(entered.position_at(loop_id), cond) {
                    Err(e) => Err(e),
                    Ok(c) => match c.state.as_condition(c.value, c.ty, Predicate::Lt, "whilecond"@) {
                        Err(e) => Err(e),
                        Ok(b) => {
                            let body_id = b.state.blocks.len() as int;
                            match b.state.append_block("body"@).emit(
                                InstView::Branch {
                                    cond: b.value,
                                    then_target: body_id as nat,
                                    else_target: cont_id as nat,
                                },
                            ) {
                                Err(e) => Err(e),
                                Ok(branched) => match lower_stmts(
                                    branched.position_at(body_id),
                                    body,
                                    0,
                                ) {
                                    Err(e) => Err(e),
                                    Ok(after) => Ok(
                                        after.close_with_jump(loop_id).position_at(cont_id),
                                    ),
                                },
                            }
                        },
                    },
                },
            }
        },
        _ => Ok(state),
    }
}

/// Lowers a `for` statement. The initializer is computed in the current block.
/// Blocks `loop` and `cont` are added, and the current block jumps to `loop`,
/// the header, where the condition is computed anew for every round. Behind
/// the body comes the increment, and then a jump to the header unless the block
/// ends in a terminator.
pub open spec fn lower_for(state: BuildState, stmt: StmtView) -> Built<BuildState>
    decreases stmt, 0nat,
{
    match stmt {
        StmtView::For { init, cond, inc, body } => match lower_optional(state, init) {
            Err(e) => Err(e),
            Ok(begun) => {
                let loop_id = begun.blocks.len() as int;
                let cont_id = loop_id + 1;
                match begun.append_block("loop"@).append_block("cont"@).emit(
                    InstView::Jump { target: loop_id as nat },
                ) {
                    Err(e) => Err(e),
                    Ok(entered) => match lower_for_condition(
                        entered.position_at(loop_id),
                        cond,
                        cont_id,
                    ) {
                        Err(e) => Err(e),
                        Ok(in_body) => match lower_stmts(in_body, body, 0) {
                            Err(e) => Err(e),
                            Ok(after) => match lower_optional(after, inc) {
                                Err(e) => Err(e),
                                Ok(stepped) => Ok(
                                    stepped.close_with_jump(loop_id).position_at(cont_id),
                                ),
                            },
                        },
                    },
                }
            },
        },
        _ => Ok(state),
    }
}

/// Lowers a statement at the insertion point. A block statement adds no block
/// of its own: its statements follow in the current one.
pub open spec fn lower_stmt(state: BuildState, stmt: StmtView) -> Built<BuildState>
    decreases stmt, 1nat,
{
    match stmt {
        StmtView::Empty => Ok(state),
        StmtView::LocalVar { name, init, .. } => lower_local(state, name, init),
        StmtView::Expr(e) => lower_expr_stmt(state, e),
        StmtView::Return(e) => match lower_expr(state, e) {
            Err(e) => Err(e),
            Ok(v) => v.state.emit(InstView::Return { value: v.value }),
        },
        StmtView::If { .. } => lower_if(state, stmt),
        StmtView::While(..) => lower_while(state, stmt),
        StmtView::For { .. } => lower_for(state, stmt),
        StmtView::Block(stmts) => lower_stmts(state, stmts, 0),
    }
}

/// Lowers the statements from index `from` on, one after the other.
pub open spec fn lower_stmts(state: BuildState, stmts: Seq<StmtView>, from: int) -> Built<
    BuildState,
>
    decreases stmts, stmts.len() - from,
{
    if 0 <= from < stmts.len() {
        match lower_stmt(state, stmts[from]) {
            Err(e) => Err(e),
            Ok(next) => lower_stmts(next, stmts, from + 1),
        }
    } else {
        Ok(state)
    }
}

/// The state in which the lowering of a function starts: one empty block,
/// `entry`, and no variable.
pub open spec fn entry_state() -> BuildState {
    BuildState {
        blocks: seq![BlockView { label: "entry"@, insts: Seq::empty() }],
        current: 0,
        slots: Map::empty(),
    }
}

/// Lowers a function: its body from block `entry` on, and a return of the
/// constant 0 at the end of the block in which the body ends, unless that
/// block ends in a terminator.
pub open spec fn lower_function(name: Seq<char>, body: Seq<StmtView>) -> Built<FunctionView> {
    match lower_stmts(entry_state(), body, 0) {
        Err(e) => Err(e),
        Ok(state) => Ok(FunctionView { name, blocks: state.close_with_return().blocks }),
    }
}

/// Lowers the functions among the declarations from index `from` on, in
/// order. A global variable leaves no code.
pub open spec fn lower_decls(decls: Seq<DeclView>, from: int) -> Built<Seq<FunctionView>>
    decreases decls.len() - from,
{
    if 0 <= from < decls.len() {
        match decls[from] {
            DeclView::Function { name, body, .. } => match lower_function(name, body) {
                Err(e) => Err(e),
                Ok(function) => match lower_decls(decls, from + 1) {
                    Err(e) => Err(e),
                    Ok(rest) => Ok(seq![function] + rest),
                },
            },
            DeclView::Var { .. } => lower_decls(decls, from + 1),
        }
    } else {
        Ok(Seq::empty())
    }
}

/// The name of every module.
pub open spec fn module_name() -> Seq<char> {
    "cmpler_module"@
}

/// The module that a program lowers to, or the first error.
pub open spec fn lower_program(program: ProgramView) -> Built<ModuleView> {
    match lower_decls(program.decls, 0) {
        Err(e) => Err(e),
        Ok(functions) => Ok(ModuleView { name: module_name(), functions }),
    }
}

} // verus!

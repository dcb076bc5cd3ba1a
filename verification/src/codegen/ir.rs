//! The intermediate representation: modules, functions, basic blocks and
//! instructions.

use vstd::prelude::*;

verus! {

/// The type of a value: an integer, or the truth value that a comparison
/// yields.
#[derive(Debug, Clone, Copy, PartialEq, Eq, Structural)]
pub enum ValueType {
    Int,
    Bool,
}

/// An arithmetic operation on signed integers.
#[derive(Debug, Clone, Copy, PartialEq, Eq, Structural)]
pub enum BinaryOp {
    Add,
    Sub,
    Mul,
    Div,
}

/// A comparison of signed integers.
#[derive(Debug, Clone, Copy, PartialEq, Eq, Structural)]
pub enum Predicate {
    Eq,
    Ne,
    Lt,
    Le,
    Gt,
    Ge,
}

/// The place of an instruction in its function: the index of its block and its
/// index in that block. An instruction that yields a value, or reserves a stack
/// slot, is referred to by its place.
#[derive(Debug, Clone, Copy, PartialEq, Eq, Hash, Structural)]
pub struct InstRef {
    pub block: usize,
    pub index: usize,
}

/// What an instruction operates on: an integer constant, or the value that an
/// earlier instruction of the function yields.
#[derive(Debug, Clone, Copy, PartialEq, Eq, Structural)]
pub enum Operand {
    Const(i64),
    Value(InstRef),
}

/// An instruction. `Jump`, `Branch` and `Return` are the terminators. Blocks
/// are named by their index in the function. A `name` is a hint for whoever
/// prints the code.
#[derive(Debug, Clone, PartialEq)]
pub enum Inst {
    /// Reserves a stack slot for an integer.
    Alloca { name: String },
    /// Writes a value to the slot that the instruction at `slot` reserved.
    Store { slot: InstRef, value: Operand },
    /// Yields the integer in the slot that the instruction at `slot` reserved.
    Load { slot: InstRef, name: String },
    /// Yields the integer result of an arithmetic operation.
    Binary { op: BinaryOp, lhs: Operand, rhs: Operand, name: String },
    /// Yields the truth value of a comparison.
    Compare { pred: Predicate, lhs: Operand, rhs: Operand, name: String },
    /// Goes on in block `target`.
    Jump { target: usize },
    /// Goes on in block `then_target` if `cond` holds, else in `else_target`.
    Branch { cond: Operand, then_target: usize, else_target: usize },
    /// Leaves the function with a value.
    Return { value: Operand },
}

/// A basic block: a label and a straight line of instructions.
#[derive(Debug, Clone, PartialEq)]
pub struct BasicBlock {
    pub label: String,
    pub insts: Vec<Inst>,
}

/// A function: its name and its blocks. Block 0 is where it is entered.
#[derive(Debug, Clone, PartialEq)]
pub struct Function {
    pub name: String,
    pub blocks: Vec<BasicBlock>,
}

/// A module: the functions of a program, in source order.
#[derive(Debug, Clone, PartialEq)]
pub struct Module {
    pub name: String,
    pub functions: Vec<Function>,
}

/// The mathematical value of an [`InstRef`].
pub struct Place {
    pub block: nat,
    pub index: nat,
}

/// The mathematical value of an [`Operand`].
pub enum OperandView {
    Const(i64),
    Value(Place),
}

/// The mathematical value of an [`Inst`].
pub enum InstView {
    Alloca { name: Seq<char> },
    Store { slot: Place, value: OperandView },
    Load { slot: Place, name: Seq<char> },
    Binary { op: BinaryOp, lhs: OperandView, rhs: OperandView, name: Seq<char> },
    Compare { pred: Predicate, lhs: OperandView, rhs: OperandView, name: Seq<char> },
    Jump { target: nat },
    Branch { cond: OperandView, then_target: nat, else_target: nat },
    Return { value: OperandView },
}

/// The mathematical value of a [`BasicBlock`].
pub struct BlockView {
    pub label: Seq<char>,
    pub insts: Seq<InstView>,
}

/// The mathematical value of a [`Function`].
pub struct FunctionView {
    pub name: Seq<char>,
    pub blocks: Seq<BlockView>,
}

/// The mathematical value of a [`Module`].
pub struct ModuleView {
    pub name: Seq<char>,
    pub functions: Seq<FunctionView>,
}

impl View for InstRef {
    type V = Place;

    open spec fn view(&self) -> Place {
        Place { block: self.block as nat, index: self.index as nat }
    }
}

impl View for Operand {
    type V = OperandView;

    open spec fn view(&self) -> OperandView {
        match self {
            Operand::Const(value) => OperandView::Const(*value),
            Operand::Value(place) => OperandView::Value(place@),
        }
    }
}

impl View for Inst {
    type V = InstView;

    open spec fn view(&self) -> InstView {
        match self {
            Inst::Alloca { name } => InstView::Alloca { name: name@ },
            Inst::Store { slot, value } => InstView::Store { slot: slot@, value: value@ },
            Inst::Load { slot, name } => InstView::Load { slot: slot@, name: name@ },
            Inst::Binary { op, lhs, rhs, name } => InstView::Binary {
                op: *op,
                lhs: lhs@,
                rhs: rhs@,
                name: name@,
            },
            Inst::Compare { pred, lhs, rhs, name } => InstView::Compare {
                pred: *pred,
                lhs: lhs@,
                rhs: rhs@,
                name: name@,
            },
            Inst::Jump { target } => InstView::Jump { target: *target as nat },
            Inst::Branch { cond, then_target, else_target } => InstView::Branch {
                cond: cond@,
                then_target: *then_target as nat,
                else_target: *else_target as nat,
            },
            Inst::Return { value } => InstView::Return { value: value@ },
        }
    }
}

/// The values of a sequence of instructions, in order.
pub open spec fn insts_view(insts: Seq<Inst>) -> Seq<InstView> {
    Seq::new(insts.len(), |i: int| insts[i]@)
}

impl View for BasicBlock {
    type V = BlockView;

    open spec fn view(&self) -> BlockView {
        BlockView { label: self.label@, insts: insts_view(self.insts@) }
    }
}

/// The values of a sequence of blocks, in order.
pub open spec fn blocks_view(blocks: Seq<BasicBlock>) -> Seq<BlockView> {
    Seq::new(blocks.len(), |i: int| blocks[i]@)
}

impl View for Function {
    type V = FunctionView;

    open spec fn view(&self) -> FunctionView {
        FunctionView { name: self.name@, blocks: blocks_view(self.blocks@) }
    }
}

/// The values of a sequence of functions, in order.
pub open spec fn functions_view(functions: Seq<Function>) -> Seq<FunctionView> {
    Seq::new(functions.len(), |i: int| functions[i]@)
}

impl View for Module {
    type V = ModuleView;

    open spec fn view(&self) -> ModuleView {
        ModuleView { name: self.name@, functions: functions_view(self.functions@) }
    }
}

impl InstView {
    /// Whether the instruction ends a block.
    pub open spec fn is_terminator(self) -> bool {
        self is Jump || self is Branch || self is Return
    }
}

impl BlockView {
    /// Whether the block ends in a terminator.
    pub open spec fn is_terminated(self) -> bool {
        self.insts.len() > 0 && self.insts.last().is_terminator()
    }
}

} // verus!

//! Lowering of a checked program to a control-flow graph of basic blocks, and
//! what holds of every graph that it yields.

pub mod error;
pub mod generator;
pub mod ir;
pub mod lowering;
pub mod shape;
pub mod slots;
pub mod values;

pub use error::{CodegenError, CodegenErrorView};
pub use generator::lower;
pub use ir::{
    BasicBlock, BinaryOp, BlockView, Function, FunctionView, Inst, InstRef, InstView, Module,
    ModuleView, Operand, Predicate, ValueType,
};

//! The code generator: builds the blocks of each function.

use crate::ast::nodes::{decls_view, opt_expr_view, stmts_view, Decl, Expr, Program, Stmt};
use crate::codegen::error::{CodegenError, CodegenErrorView};
use crate::codegen::ir::{
    blocks_view, functions_view, insts_view, BasicBlock, BinaryOp, Function, FunctionView, Inst,
    InstRef, Module, Operand, Place, Predicate, ValueType,
};
use crate::codegen::lowering::{
    entry_state, lower_assignment, lower_decls, lower_expr, lower_expr_stmt, lower_for,
    lower_for_condition, lower_function, lower_if, lower_local, lower_optional, lower_program,
    lower_stmt, lower_stmts, lower_while, operation, undefined_variable, unreachable_code,
    BuildState, Built, Lowered,
};
use crate::codegen::shape::{lemma_lowered_module_well_formed, module_well_formed};
use crate::codegen::values::{lemma_lowered_module_defined, module_defined};
use crate::lexer::token::TokenKind;
use vstd::hash_map::StringHashMap;
use vstd::prelude::*;

verus! {

/// Builds the blocks of one function.
struct FunctionBuilder {
    blocks: Vec<BasicBlock>,
    current: usize,
    slots: StringHashMap<InstRef>,
}

/// Whether a step that returned `r` and left the builder in state `after` did
/// what lowering asks: on success it left the same state, on failure it
/// returned the same error.
spec fn built(
    r: Result<(), CodegenError>,
    before: BuildState,
    after: BuildState,
    want: Built<BuildState>,
) -> bool {
    match want {
        Ok(state) => r is Ok && after == state && after.wf() && after.blocks.len()
            >= before.blocks.len(),
        Err(e) => r is Err && r->Err_0@ == e,
    }
}

/// As [`built`], for a step that yields a value.
spec fn built_value(
    r: Result<(Operand, ValueType), CodegenError>,
    before: BuildState,
    after: BuildState,
    want: Built<Lowered>,
) -> bool {
    match want {
        Ok(lowered) => r matches Ok(made) && made.0@ == lowered.value && made.1 == lowered.ty
            && after == lowered.state && after.wf() && after.blocks.len() == before.blocks.len(),
        Err(e) => r is Err && r->Err_0@ == e,
    }
}

fn unreachable_code_error() -> (e: CodegenError)
    ensures
        e@ == unreachable_code(),
{
    CodegenError::UnsupportedOp("unreachable code".to_owned())
}

fn undefined_variable_error() -> (e: CodegenError)
    ensures
        e@ == undefined_variable(),
{
    CodegenError::UnsupportedOp("undefined variable".to_owned())
}

/// The instruction that computes a binary operator, and the type of its value.
fn operation_for(op: TokenKind, lhs: Operand, rhs: Operand) -> (r: Option<(Inst, ValueType)>)
    ensures
        match operation(op, lhs@, rhs@) {
            Some((inst, ty)) => r matches Some(made) && made.0@ == inst && made.1 == ty,
            None => r is None,
        },
{
    match op {
        TokenKind::Plus => Some(
            (Inst::Binary { op: BinaryOp::Add, lhs, rhs, name: "addtmp".to_owned() }, ValueType::Int),
        ),
        TokenKind::Minus => Some(
            (Inst::Binary { op: BinaryOp::Sub, lhs, rhs, name: "subtmp".to_owned() }, ValueType::Int),
        ),
        TokenKind::Star => Some(
            (Inst::Binary { op: BinaryOp::Mul, lhs, rhs, name: "multmp".to_owned() }, ValueType::Int),
        ),
        TokenKind::Slash => Some(
            (Inst::Binary { op: BinaryOp::Div, lhs, rhs, name: "divtmp".to_owned() }, ValueType::Int),
        ),
        TokenKind::Less => Some(
            (
                Inst::Compare { pred: Predicate::Lt, lhs, rhs, name: "lttmp".to_owned() },
                ValueType::Bool,
            ),
        ),
        TokenKind::LessEqual => Some(
            (
                Inst::Compare { pred: Predicate::Le, lhs, rhs, name: "letmp".to_owned() },
                ValueType::Bool,
            ),
        ),
        TokenKind::Greater => Some(
            (
                Inst::Compare { pred: Predicate::Gt, lhs, rhs, name: "gttmp".to_owned() },
                ValueType::Bool,
            ),
        ),
        TokenKind::GreaterEqual => Some(
            (
                Inst::Compare { pred: Predicate::Ge, lhs, rhs, name: "getmp".to_owned() },
                ValueType::Bool,
            ),
        ),
        TokenKind::Equal => Some(
            (
                Inst::Compare { pred: Predicate::Eq, lhs, rhs, name: "eqtmp".to_owned() },
                ValueType::Bool,
            ),
        ),
        TokenKind::NotEqual => Some(
            (
                Inst::Compare { pred: Predicate::Ne, lhs, rhs, name: "netmp".to_owned() },
                ValueType::Bool,
            ),
        ),
        _ => None,
    }
}

/// Whether the instruction ends a block.
fn inst_is_terminator(inst: &Inst) -> (r: bool)
    ensures
        r == inst@.is_terminator(),
{
    match inst {
        Inst::Jump { .. } => true,
        Inst::Branch { .. } => true,
        Inst::Return { .. } => true,
        _ => false,
    }
}

/// The slots of the variables, as places.
spec fn slots_view(slots: Map<Seq<char>, InstRef>) -> Map<Seq<char>, Place> {
    slots.map_values(|slot: InstRef| slot@)
}

impl View for FunctionBuilder {
    type V = BuildState;

    closed spec fn view(&self) -> BuildState {
        BuildState {
            blocks: blocks_view(self.blocks@),
            current: self.current as int,
            slots: slots_view(self.slots@),
        }
    }
}

impl FunctionBuilder {
    /// A builder at the end of the empty block `entry`.
    fn new() -> (builder: Self)
        ensures
            builder@ == entry_state(),
            builder@.wf(),
    {
        let mut blocks: Vec<BasicBlock> = Vec::new();
        let insts: Vec<Inst> = Vec::new();
        assert(insts_view(insts@) =~= Seq::empty());
        blocks.push(BasicBlock { label: "entry".to_owned(), insts });
        let builder = FunctionBuilder { blocks, current: 0, slots: StringHashMap::new() };
        assert(builder@.blocks =~= entry_state().blocks);
        assert(builder@.slots =~= entry_state().slots);
        builder
    }

    /// The blocks that were built.
    fn finish(self) -> (blocks: Vec<BasicBlock>)
        ensures
            blocks_view(blocks@) == self@.blocks,
    {
        self.blocks
    }

    /// Whether the current block ends in a terminator.
    fn at_terminator(&self) -> (r: bool)
        requires
            self@.wf(),
        ensures
            r == self@.at_terminator(),
    {
        let block = &self.blocks[self.current];
        let n = block.insts.len();
        n > 0 && inst_is_terminator(&block.insts[n - 1])
    }

    /// Appends an instruction to the current block, whether or not it ends in
    /// a terminator.
    fn push(&mut self, inst: Inst) -> (place: InstRef)
        requires
            old(self)@.wf(),
        ensures
            final(self)@ == old(self)@.push(inst@),
            final(self)@.wf(),
            place@ == old(self)@.next_ref(),
    {
        let place = InstRef { block: self.current, index: self.blocks[self.current].insts.len() };
        let ghost before = self.blocks@[self.current as int];
        self.blocks[self.current].insts.push(inst);
        proof {
            let after = self.blocks@[self.current as int];
            assert(insts_view(after.insts@) =~= insts_view(before.insts@).push(inst@));
            assert(self@.blocks =~= old(self)@.push(inst@).blocks);
        }
        place
    }

    /// Inserts an instruction; nothing can follow a terminator.
    fn emit(&mut self, inst: Inst) -> (r: Result<InstRef, CodegenError>)
        requires
            old(self)@.wf(),
        ensures
            match old(self)@.emit(inst@) {
                Ok(state) => r matches Ok(place) && place@ == old(self)@.next_ref() && final(self)@
                    == state && state.wf(),
                Err(e) => r is Err && r->Err_0@ == e,
            },
    {
        if self.at_terminator() {
            return Err(unreachable_code_error());
        }
        Ok(self.push(inst))
    }

    /// Inserts an instruction that yields a value of type `ty`.
    fn emit_value(&mut self, inst: Inst, ty: ValueType) -> (r: Result<
        (Operand, ValueType),
        CodegenError,
    >)
        requires
            old(self)@.wf(),
        ensures
            built_value(r, old(self)@, final(self)@, old(self)@.emit_value(inst@, ty)),
    {
        let place = self.emit(inst)?;
        Ok((Operand::Value(place), ty))
    }

    /// Adds an empty block behind the others and returns its index.
    fn append_block(&mut self, label: &str) -> (id: usize)
        requires
            old(self)@.wf(),
        ensures
            final(self)@ == old(self)@.append_block(label@),
            final(self)@.wf(),
            id == old(self)@.blocks.len(),
    {
        let id = self.blocks.len();
        let insts: Vec<Inst> = Vec::new();
        assert(insts_view(insts@) =~= Seq::empty());
        self.blocks.push(BasicBlock { label: label.to_owned(), insts });
        assert(self@.blocks =~= old(self)@.append_block(label@).blocks);
        id
    }

    /// Moves the insertion point to the end of `block`.
    fn position_at(&mut self, block: usize)
        requires
            block < old(self)@.blocks.len(),
        ensures
            final(self)@ == old(self)@.position_at(block as int),
            final(self)@.wf(),
    {
        self.current = block;
    }

    /// Ends the current block with a jump to `target`, unless it ends in a
    /// terminator already.
    fn close_with_jump(&mut self, target: usize)
        requires
            old(self)@.wf(),
        ensures
            final(self)@ == old(self)@.close_with_jump(target as int),
            final(self)@.wf(),
    {
        if !self.at_terminator() {
            self.push(Inst::Jump { target });
        }
    }

    /// Ends the current block with a return of the constant 0, unless it ends
    /// in a terminator already.
    fn close_with_return(&mut self)
        requires
            old(self)@.wf(),
        ensures
            final(self)@ == old(self)@.close_with_return(),
            final(self)@.wf(),
    {
        if !self.at_terminator() {
            self.push(Inst::Return { value: Operand::Const(0) });
        }
    }

    /// Turns a value into a branch condition.
    fn as_condition(&mut self, value: Operand, ty: ValueType, pred: Predicate, name: &str) -> (r:
        Result<(Operand, ValueType), CodegenError>)
        requires
            old(self)@.wf(),
        ensures
            built_value(r, old(self)@, final(self)@, old(self)@.as_condition(value@, ty, pred, name@)),
    {
        if ty == ValueType::Bool {
            Ok((value, ty))
        } else {
            self.emit_value(
                Inst::Compare { pred, lhs: value, rhs: Operand::Const(0), name: name.to_owned() },
                ValueType::Bool,
            )
        }
    }

    /// Lowers the statements of a function body or of a block.
    fn gen_stmts(&mut self, stmts: &Vec<Stmt>) -> (r: Result<(), CodegenError>)
        requires
            old(self)@.wf(),
        ensures
            built(r, old(self)@, final(self)@, lower_stmts(old(self)@, stmts_view(stmts@), 0)),
        decreases stmts, 0nat,
    {
        let ghost all = stmts_view(stmts@);
        let ghost start = self@;
        let mut i: usize = 0;
        while i < stmts.len()
            invariant
                start == old(self)@,
                all == stmts_view(stmts@),
                i <= stmts@.len(),
                self@.wf(),
                self@.blocks.len() >= start.blocks.len(),
                lower_stmts(start, all, 0) == lower_stmts(self@, all, i as int),
            decreases stmts@.len() - i,
        {
            self.gen_stmt(&stmts[i])?;
            i = i + 1;
        }
        Ok(())
    }

    fn gen_stmt(&mut self, stmt: &Stmt) -> (r: Result<(), CodegenError>)
        requires
            old(self)@.wf(),
        ensures
            built(r, old(self)@, final(self)@, lower_stmt(old(self)@, stmt@)),
        decreases stmt, 1nat,
    {
        match stmt {
            Stmt::Empty => Ok(()),
            Stmt::LocalVar { name, init, .. } => self.gen_local(name, init),
            Stmt::Expr(expr) => self.gen_expr_stmt(expr),
            Stmt::Return(expr) => {
                let (value, _) = self.gen_expr(expr)?;
                self.emit(Inst::Return { value })?;
                Ok(())
            },
            Stmt::If { .. } => self.gen_if(stmt),
            Stmt::While(..) => self.gen_while(stmt),
            Stmt::For { .. } => self.gen_for(stmt),
            Stmt::Block(stmts) => self.gen_stmts(stmts),
        }
    }

    /// Lowers the declaration of a local variable.
    fn gen_local(&mut self, name: &String, init: &Expr) -> (r: Result<(), CodegenError>)
        requires
            old(self)@.wf(),
        ensures
            built(r, old(self)@, final(self)@, lower_local(old(self)@, name@, init@)),
    {
        let slot = self.emit(Inst::Alloca { name: name.clone() })?;
        let (value, _) = self.gen_expr(init)?;
        self.emit(Inst::Store { slot, value })?;
        let ghost stored = self@;
        self.slots.insert(name.clone(), slot);
        assert(self@.slots =~= stored.slots.insert(name@, slot@));
        Ok(())
    }

    /// Lowers an expression statement.
    fn gen_expr_stmt(&mut self, expr: &Expr) -> (r: Result<(), CodegenError>)
        requires
            old(self)@.wf(),
        ensures
            built(r, old(self)@, final(self)@, lower_expr_stmt(old(self)@, expr@)),
    {
        match expr {
            Expr::Binary { op, left, right, .. } => {
                if *op == TokenKind::Assign {
                    match &**left {
                        Expr::Var { name, .. } => {
                            assert((**left)@ is Var);
                            self.gen_assignment(name, right)
                        },
                        _ => {
                            assert(!((**left)@ is Var));
                            Ok(())
                        },
                    }
                } else {
                    self.gen_expr(expr)?;
                    Ok(())
                }
            },
            _ => {
                self.gen_expr(expr)?;
                Ok(())
            },
        }
    }

    /// Lowers an assignment to a variable.
    fn gen_assignment(&mut self, name: &String, value: &Expr) -> (r: Result<(), CodegenError>)
        requires
            old(self)@.wf(),
        ensures
            built(r, old(self)@, final(self)@, lower_assignment(old(self)@, name@, value@)),
    {
        let (value, _) = self.gen_expr(value)?;
        let slot = match self.slots.get(name.as_str()) {
            Some(slot) => *slot,
            None => {
                return Err(undefined_variable_error());
            },
        };
        self.emit(Inst::Store { slot, value })?;
        Ok(())
    }

    /// Lowers an expression that may be absent and whose value is dropped.
    fn gen_optional(&mut self, expr: &Option<Box<Expr>>) -> (r: Result<(), CodegenError>)
        requires
            old(self)@.wf(),
        ensures
            built(r, old(self)@, final(self)@, lower_optional(old(self)@, opt_expr_view(*expr))),
    {
        match expr {
            Some(e) => {
                self.gen_expr(e)?;
                Ok(())
            },
            None => Ok(()),
        }
    }

    #[verifier::rlimit(50)]
    fn gen_if(&mut self, stmt: &Stmt) -> (r: Result<(), CodegenError>)
        requires
            old(self)@.wf(),
        ensures
            built(r, old(self)@, final(self)@, lower_if(old(self)@, stmt@)),
        decreases stmt, 0nat,
    {
        match stmt {
            Stmt::If { cond, then_block, else_block } => {
                let then_bb = self.append_block("then");
                let else_bb = self.append_block("else");
                let cont_bb = self.append_block("cont");
                let (value, ty) = self.gen_expr(cond)?;
                let (cond_bool, _) = self.as_condition(value, ty, Predicate::Ne, "ifcond")?;
                self.emit(
                    Inst::Branch { cond: cond_bool, then_target: then_bb, else_target: else_bb },
                )?;
                self.position_at(then_bb);
                self.gen_stmts(then_block)?;
                self.close_with_jump(cont_bb);
                self.position_at(else_bb);
                match else_block {
                    Some(stmts) => {
                        self.gen_stmts(stmts)?;
                    },
                    None => {},
                }
                self.close_with_jump(cont_bb);
                self.position_at(cont_bb);
                Ok(())
            },
            _ => Ok(()),
        }
    }

    #[verifier::rlimit(50)]
    fn gen_while(&mut self, stmt: &Stmt) -> (r: Result<(), CodegenError>)
        requires
            old(self)@.wf(),
        ensures
            built(r, old(self)@, final(self)@, lower_while(old(self)@, stmt@)),
        decreases stmt, 0nat,
    {
        match stmt {
            Stmt::While(cond, body) => {
                let loop_bb = self.append_block("loop");
                let cont_bb = self.append_block("cont");
                self.emit(Inst::Jump { target: loop_bb })?;
                self.position_at(loop_bb);
                let (value, ty) = self.gen_expr(cond)?;
                let (cond_bool, _) = self.as_condition(value, ty, Predicate::Lt, "whilecond")?;
                let body_bb = self.append_block("body");
                self.emit(
                    Inst::Branch { cond: cond_bool, then_target: body_bb, else_target: cont_bb },
                )?;
                self.position_at(body_bb);
                self.gen_stmts(body)?;
                self.close_with_jump(loop_bb);
                self.position_at(cont_bb);
                Ok(())
            },
            _ => Ok(()),
        }
    }

    /// Lowers the condition of a `for` statement in the loop header.
    #[verifier::rlimit(50)]
    fn gen_for_condition(&mut self, cond: &Option<Box<Expr>>, cont_bb: usize) -> (r: Result<
        (),
        CodegenError,
    >)
        requires
            old(self)@.wf(),
            cont_bb < old(self)@.blocks.len(),
        ensures
            built(
                r,
                old(self)@,
                final(self)@,
                lower_for_condition(old(self)@, opt_expr_view(*cond), cont_bb as int),
            ),
    {
        match cond {
            Some(c) => {
                let (value, _) = self.gen_expr(c)?;
                let (cond_bool, _) = self.emit_value(
                    Inst::Compare {
                        pred: Predicate::Lt,
                        lhs: value,
                        rhs: Operand::Const(0),
                        name: "forcond".to_owned(),
                    },
                    ValueType::Bool,
                )?;
                let body_bb = self.append_block("body");
                self.emit(
                    Inst::Branch { cond: cond_bool, then_target: body_bb, else_target: cont_bb },
                )?;
                self.position_at(body_bb);
                Ok(())
            },
            None => Ok(()),
        }
    }

    #[verifier::rlimit(50)]
    fn gen_for(&mut self, stmt: &Stmt) -> (r: Result<(), CodegenError>)
        requires
            old(self)@.wf(),
        ensures
            built(r, old(self)@, final(self)@, lower_for(old(self)@, stmt@)),
        decreases stmt, 0nat,
    {
        match stmt {
            Stmt::For { init, cond, inc, body } => {
                self.gen_optional(init)?;
                let loop_bb = self.append_block("loop");
                let cont_bb = self.append_block("cont");
                self.emit(Inst::Jump { target: loop_bb })?;
                self.position_at(loop_bb);
                self.gen_for_condition(cond, cont_bb)?;
                self.gen_stmts(body)?;
                self.gen_optional(inc)?;
                self.close_with_jump(loop_bb);
                self.position_at(cont_bb);
                Ok(())
            },
            _ => Ok(()),
        }
    }

    fn gen_expr(&mut self, expr: &Expr) -> (r: Result<(Operand, ValueType), CodegenError>)
        requires
            old(self)@.wf(),
        ensures
            built_value(r, old(self)@, final(self)@, lower_expr(old(self)@, expr@)),
        decreases expr,
    {
        match expr {
            Expr::IntLiteral { value, .. } => Ok((Operand::Const(*value), ValueType::Int)),
            Expr::Var { name, .. } => {
                let slot = match self.slots.get(name.as_str()) {
                    Some(slot) => *slot,
                    None => {
                        return Err(undefined_variable_error());
                    },
                };
                self.emit_value(Inst::Load { slot, name: name.clone() }, ValueType::Int)
            },
            Expr::Binary { op, left, right, .. } => {
                let (lhs, _) = self.gen_expr(left)?;
                let (rhs, _) = self.gen_expr(right)?;
                match operation_for(*op, lhs, rhs) {
                    Some((inst, ty)) => self.emit_value(inst, ty),
                    None => Err(CodegenError::UnsupportedOp(op.name())),
                }
            },
        }
    }
}

/// Lowers a function.
fn gen_function(name: &String, body: &Vec<Stmt>) -> (r: Result<Function, CodegenError>)
    ensures
        match lower_function(name@, stmts_view(body@)) {
            Ok(function) => r is Ok && r->Ok_0@ == function,
            Err(e) => r is Err && r->Err_0@ == e,
        },
{
    let mut builder = FunctionBuilder::new();
    builder.gen_stmts(body)?;
    builder.close_with_return();
    Ok(Function { name: name.clone(), blocks: builder.finish() })
}

/// Lowers the functions of a program, in source order.
fn gen_program(program: &Program) -> (r: Result<Vec<Function>, CodegenError>)
    ensures
        match lower_decls(program@.decls, 0) {
            Ok(functions) => r is Ok && functions_view(r->Ok_0@) == functions,
            Err(e) => r is Err && r->Err_0@ == e,
        },
{
    let ghost decls = program@.decls;
    let mut functions: Vec<Function> = Vec::new();
    let mut i: usize = 0;
    assert(functions_view(functions@) =~= Seq::empty());
    while i < program.decls.len()
        invariant
            decls == decls_view(program.decls@),
            i <= program.decls@.len(),
            match lower_decls(decls, i as int) {
                Ok(rest) => lower_decls(decls, 0) == Ok::<Seq<FunctionView>, CodegenErrorView>(
                    functions_view(functions@) + rest,
                ),
                Err(e) => lower_decls(decls, 0) == Err::<Seq<FunctionView>, CodegenErrorView>(e),
            },
        decreases program.decls@.len() - i,
    {
        match &program.decls[i] {
            Decl::Function { name, body, .. } => {
                let function = gen_function(name, body)?;
                proof {
                    assert(functions_view(functions@.push(function)) =~= functions_view(functions@)
                        + seq![function@]);
                    let rest = lower_decls(decls, i + 1);
                    if rest is Ok {
                        assert((functions_view(functions@) + seq![function@]) + rest->Ok_0
                            =~= functions_view(functions@) + (seq![function@] + rest->Ok_0));
                    }
                }
                functions.push(function);
            },
            Decl::Var { .. } => {},
        }
        i = i + 1;
    }
    assert(functions_view(functions@) + Seq::empty() =~= functions_view(functions@));
    Ok(functions)
}

/// Lowers a program to a module: a control-flow graph of basic blocks for each
/// of its functions, with nothing optimized. In the module every block ends in
/// exactly one terminator, and every instruction refers to what exists.
///
/// Lowering fails, with `UnsupportedOp`, on a program that uses a variable
/// for which its function has no slot, that uses an operator for its value
/// that no instruction computes, or that asks for an instruction behind a
/// `return` in the same block.
pub fn lower(program: &Program) -> (r: Result<Module, CodegenError>)
    ensures
        match lower_program(program@) {
            Ok(module) => r is Ok && r->Ok_0@ == module && module_well_formed(module)
                && module_defined(module),
            Err(e) => r is Err && r->Err_0@ == e,
        },
{
    proof {
        lemma_lowered_module_well_formed(program@);
        lemma_lowered_module_defined(program@);
    }
    let functions = gen_program(program)?;
    Ok(Module { name: "cmpler_module".to_owned(), functions })
}

} // verus!

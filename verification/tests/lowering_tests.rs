use cmpler_core::codegen::{
    lower, BinaryOp, CodegenError, Function, Inst, InstRef, Module, Operand, Predicate,
};
use cmpler_core::{compile, lower_to_module, CompilerError};

fn module_of(src: &str) -> Module {
    lower_to_module(src).expect("the source lowers")
}

fn only_function(module: &Module) -> &Function {
    assert_eq!(module.functions.len(), 1);
    &module.functions[0]
}

fn all_insts(function: &Function) -> Vec<&Inst> {
    function.blocks.iter().flat_map(|b| b.insts.iter()).collect()
}

fn is_terminator(inst: &Inst) -> bool {
    matches!(inst, Inst::Jump { .. } | Inst::Branch { .. } | Inst::Return { .. })
}

fn assert_basic_blocks(module: &Module) {
    for function in &module.functions {
        assert!(!function.blocks.is_empty());
        assert_eq!(function.blocks[0].label, "entry");
        for block in &function.blocks {
            let n = block.insts.len();
            assert!(n > 0, "block {} is empty", block.label);
            assert!(is_terminator(&block.insts[n - 1]));
            for inst in &block.insts[..n - 1] {
                assert!(!is_terminator(inst));
            }
            for inst in &block.insts {
                match inst {
                    Inst::Jump { target } => assert!(*target < function.blocks.len()),
                    Inst::Branch { then_target, else_target, .. } => {
                        assert!(*then_target < function.blocks.len());
                        assert!(*else_target < function.blocks.len());
                    }
                    _ => {}
                }
            }
        }
        for (b, block) in function.blocks.iter().enumerate() {
            for (j, inst) in block.insts.iter().enumerate() {
                let value_defined = |operand: &Operand| match operand {
                    Operand::Const(_) => true,
                    Operand::Value(place) => {
                        place.block == b
                            && place.index < j
                            && matches!(
                                block.insts[place.index],
                                Inst::Load { .. } | Inst::Binary { .. } | Inst::Compare { .. }
                            )
                    }
                };
                let slot_defined = |slot: &InstRef| {
                    matches!(function.blocks[slot.block].insts[slot.index], Inst::Alloca { .. })
                };
                match inst {
                    Inst::Store { slot, value } => {
                        assert!(slot_defined(slot) && value_defined(value))
                    }
                    Inst::Load { slot, .. } => assert!(slot_defined(slot)),
                    Inst::Binary { lhs, rhs, .. } | Inst::Compare { lhs, rhs, .. } => {
                        assert!(value_defined(lhs) && value_defined(rhs))
                    }
                    Inst::Branch { cond, .. } => assert!(value_defined(cond)),
                    Inst::Return { value } => assert!(value_defined(value)),
                    Inst::Alloca { .. } | Inst::Jump { .. } => {}
                }
            }
        }
    }
}

fn place(block: usize, index: usize) -> Operand {
    Operand::Value(InstRef { block, index })
}

#[test]
fn lower_simple_return() {
    let module = module_of("int main() { return 42; }");
    assert_eq!(module.name, "cmpler_module");
    let main = only_function(&module);
    assert_eq!(main.name, "main");
    assert_eq!(main.blocks.len(), 1);
    assert_eq!(main.blocks[0].label, "entry");
    assert_eq!(main.blocks[0].insts, vec![Inst::Return { value: Operand::Const(42) }]);
}

#[test]
fn lower_default_return() {
    let module = module_of("int foo() {}");
    let foo = only_function(&module);
    assert_eq!(foo.name, "foo");
    assert_eq!(foo.blocks.len(), 1);
    assert_eq!(foo.blocks[0].insts, vec![Inst::Return { value: Operand::Const(0) }]);
}

#[test]
fn lower_if_statement() {
    let module = module_of("int main() { if (1) { return 10; } else { return 20; } }");
    assert_basic_blocks(&module);
    let main = only_function(&module);
    let labels: Vec<&str> = main.blocks.iter().map(|b| b.label.as_str()).collect();
    assert_eq!(labels, vec!["entry", "then", "else", "cont"]);
    assert_eq!(
        main.blocks[0].insts,
        vec![
            Inst::Compare {
                pred: Predicate::Ne,
                lhs: Operand::Const(1),
                rhs: Operand::Const(0),
                name: "ifcond".to_string(),
            },
            Inst::Branch { cond: place(0, 0), then_target: 1, else_target: 2 },
        ]
    );
    assert_eq!(main.blocks[1].insts, vec![Inst::Return { value: Operand::Const(10) }]);
    assert_eq!(main.blocks[2].insts, vec![Inst::Return { value: Operand::Const(20) }]);
    assert_eq!(main.blocks[3].insts, vec![Inst::Return { value: Operand::Const(0) }]);
    let insts = all_insts(main);
    let returns_of = |n: i64| {
        insts.iter().filter(|i| ***i == Inst::Return { value: Operand::Const(n) }).count()
    };
    assert_eq!(returns_of(10), 1);
    assert_eq!(returns_of(20), 1);
}

#[test]
fn lower_if_without_else() {
    let module = module_of("int main() { if (0) { return 1; } return 2; }");
    assert_basic_blocks(&module);
    let main = only_function(&module);
    assert_eq!(main.blocks.len(), 4);
    assert_eq!(main.blocks[1].insts, vec![Inst::Return { value: Operand::Const(1) }]);
    assert_eq!(main.blocks[2].insts, vec![Inst::Jump { target: 3 }]);
    assert_eq!(main.blocks[3].insts, vec![Inst::Return { value: Operand::Const(2) }]);
}

#[test]
fn lower_if_uses_a_comparison_as_it_is() {
    let module = module_of("int main() { if (1 < 2) { return 3; } return 4; }");
    let main = only_function(&module);
    assert_eq!(
        main.blocks[0].insts,
        vec![
            Inst::Compare {
                pred: Predicate::Lt,
                lhs: Operand::Const(1),
                rhs: Operand::Const(2),
                name: "lttmp".to_string(),
            },
            Inst::Branch { cond: place(0, 0), then_target: 1, else_target: 2 },
        ]
    );
}

#[test]
fn lower_local_and_arithmetic() {
    let module = module_of("int main() { int x = 1 + 2; return x; }");
    assert_basic_blocks(&module);
    let main = only_function(&module);
    assert_eq!(
        main.blocks[0].insts,
        vec![
            Inst::Alloca { name: "x".to_string() },
            Inst::Binary {
                op: BinaryOp::Add,
                lhs: Operand::Const(1),
                rhs: Operand::Const(2),
                name: "addtmp".to_string(),
            },
            Inst::Store { slot: InstRef { block: 0, index: 0 }, value: place(0, 1) },
            Inst::Load { slot: InstRef { block: 0, index: 0 }, name: "x".to_string() },
            Inst::Return { value: place(0, 3) },
        ]
    );
}

#[test]
fn lower_precedence() {
    let module = module_of("int main() { return (1 + 2) * 3; }");
    let main = only_function(&module);
    assert_eq!(
        main.blocks[0].insts,
        vec![
            Inst::Binary {
                op: BinaryOp::Add,
                lhs: Operand::Const(1),
                rhs: Operand::Const(2),
                name: "addtmp".to_string(),
            },
            Inst::Binary {
                op: BinaryOp::Mul,
                lhs: place(0, 0),
                rhs: Operand::Const(3),
                name: "multmp".to_string(),
            },
            Inst::Return { value: place(0, 1) },
        ]
    );
}

#[test]
fn lower_while_loop() {
    let module = module_of("int main() { int x = 0; while (x < 3) { x = x + 1; } return x; }");
    assert_basic_blocks(&module);
    let main = only_function(&module);
    let labels: Vec<&str> = main.blocks.iter().map(|b| b.label.as_str()).collect();
    assert_eq!(labels, vec!["entry", "loop", "cont", "body"]);
    let x = InstRef { block: 0, index: 0 };
    assert_eq!(
        main.blocks[0].insts,
        vec![
            Inst::Alloca { name: "x".to_string() },
            Inst::Store { slot: x, value: Operand::Const(0) },
            Inst::Jump { target: 1 },
        ]
    );
    assert_eq!(
        main.blocks[1].insts,
        vec![
            Inst::Load { slot: x, name: "x".to_string() },
            Inst::Compare {
                pred: Predicate::Lt,
                lhs: place(1, 0),
                rhs: Operand::Const(3),
                name: "lttmp".to_string(),
            },
            Inst::Branch { cond: place(1, 1), then_target: 3, else_target: 2 },
        ]
    );
    assert_eq!(
        main.blocks[3].insts,
        vec![
            Inst::Load { slot: x, name: "x".to_string() },
            Inst::Binary {
                op: BinaryOp::Add,
                lhs: place(3, 0),
                rhs: Operand::Const(1),
                name: "addtmp".to_string(),
            },
            Inst::Store { slot: x, value: place(3, 1) },
            Inst::Jump { target: 1 },
        ]
    );
    assert_eq!(
        main.blocks[2].insts,
        vec![Inst::Load { slot: x, name: "x".to_string() }, Inst::Return { value: place(2, 0) }]
    );
}

#[test]
fn lower_while_on_an_integer_tests_for_negative() {
    let module = module_of("int main() { while (1) { } return 0; }");
    let main = only_function(&module);
    assert_eq!(
        main.blocks[1].insts,
        vec![
            Inst::Compare {
                pred: Predicate::Lt,
                lhs: Operand::Const(1),
                rhs: Operand::Const(0),
                name: "whilecond".to_string(),
            },
            Inst::Branch { cond: place(1, 0), then_target: 3, else_target: 2 },
        ]
    );
}

#[test]
fn lower_for_loop() {
    let module = module_of("int main() { int x = 0; for (; x < 10; x + 1) { ; } return x; }");
    assert_basic_blocks(&module);
    let main = only_function(&module);
    let labels: Vec<&str> = main.blocks.iter().map(|b| b.label.as_str()).collect();
    assert_eq!(labels, vec!["entry", "loop", "cont", "body"]);
    let x = InstRef { block: 0, index: 0 };
    assert_eq!(
        main.blocks[1].insts,
        vec![
            Inst::Load { slot: x, name: "x".to_string() },
            Inst::Compare {
                pred: Predicate::Lt,
                lhs: place(1, 0),
                rhs: Operand::Const(10),
                name: "lttmp".to_string(),
            },
            Inst::Compare {
                pred: Predicate::Lt,
                lhs: place(1, 1),
                rhs: Operand::Const(0),
                name: "forcond".to_string(),
            },
            Inst::Branch { cond: place(1, 2), then_target: 3, else_target: 2 },
        ]
    );
    assert_eq!(
        main.blocks[3].insts,
        vec![
            Inst::Load { slot: x, name: "x".to_string() },
            Inst::Binary {
                op: BinaryOp::Add,
                lhs: place(3, 0),
                rhs: Operand::Const(1),
                name: "addtmp".to_string(),
            },
            Inst::Jump { target: 1 },
        ]
    );
}

#[test]
fn lower_for_without_condition_loops_in_the_header() {
    let module = module_of("int main() { for (;;) { } }");
    assert_basic_blocks(&module);
    let main = only_function(&module);
    let labels: Vec<&str> = main.blocks.iter().map(|b| b.label.as_str()).collect();
    assert_eq!(labels, vec!["entry", "loop", "cont"]);
    assert_eq!(main.blocks[1].insts, vec![Inst::Jump { target: 1 }]);
    assert_eq!(main.blocks[2].insts, vec![Inst::Return { value: Operand::Const(0) }]);
}

#[test]
fn lower_block_scope_two_slots() {
    let module = module_of("int main() { int x = 1; { int y = x + 2; return y; } }");
    assert_basic_blocks(&module);
    let main = only_function(&module);
    let allocas = all_insts(main).iter().filter(|i| matches!(i, Inst::Alloca { .. })).count();
    assert_eq!(allocas, 2);
}

#[test]
fn lower_shadowing_resolves_to_the_inner_slot() {
    let module = module_of("int main() { int x = 1; { int x = 2; return x; } }");
    let main = only_function(&module);
    assert_eq!(
        main.blocks[0].insts,
        vec![
            Inst::Alloca { name: "x".to_string() },
            Inst::Store { slot: InstRef { block: 0, index: 0 }, value: Operand::Const(1) },
            Inst::Alloca { name: "x".to_string() },
            Inst::Store { slot: InstRef { block: 0, index: 2 }, value: Operand::Const(2) },
            Inst::Load { slot: InstRef { block: 0, index: 2 }, name: "x".to_string() },
            Inst::Return { value: place(0, 4) },
        ]
    );
}

#[test]
fn lower_comparison_operators() {
    let src = r#"
        int main() {
            if (1 == 2) { return 3; }
            if (2 != 3) { return 4; }
            if (4 < 5) { return 5; }
            if (5 <= 5) { return 6; }
            if (6 > 5) { return 7; }
            if (5 >= 5) { return 8; }
            return 0;
        }
    "#;
    let module = module_of(src);
    assert_basic_blocks(&module);
    let main = only_function(&module);
    let preds: Vec<Predicate> = all_insts(main)
        .iter()
        .filter_map(|i| match i {
            Inst::Compare { pred, .. } => Some(*pred),
            _ => None,
        })
        .collect();
    assert_eq!(
        preds,
        vec![
            Predicate::Eq,
            Predicate::Ne,
            Predicate::Lt,
            Predicate::Le,
            Predicate::Gt,
            Predicate::Ge
        ]
    );
    for n in 3..=8 {
        let count = all_insts(main)
            .iter()
            .filter(|i| ***i == Inst::Return { value: Operand::Const(n) })
            .count();
        assert_eq!(count, 1);
    }
}

#[test]
fn lower_arithmetic_operators() {
    let module = module_of("int main() { return 8 - 6 / 2 * 3 + 1; }");
    let main = only_function(&module);
    let ops: Vec<BinaryOp> = all_insts(main)
        .iter()
        .filter_map(|i| match i {
            Inst::Binary { op, .. } => Some(*op),
            _ => None,
        })
        .collect();
    assert_eq!(ops, vec![BinaryOp::Div, BinaryOp::Mul, BinaryOp::Sub, BinaryOp::Add]);
}

#[test]
fn lower_nested_loops() {
    let src = r#"
        int main() {
            int i = 0;
            while (i < 2) {
                int j = 0;
                while (j < 3) {
                    j = j + 1;
                }
                i = i + 1;
            }
            return i;
        }
    "#;
    let module = module_of(src);
    assert_basic_blocks(&module);
    let main = only_function(&module);
    assert_eq!(main.blocks.len(), 7);
    let compares = all_insts(main)
        .iter()
        .filter(|i| matches!(i, Inst::Compare { pred: Predicate::Lt, .. }))
        .count();
    assert_eq!(compares, 2);
}

#[test]
fn lower_nested_if_else() {
    let src = r#"
        int main() {
            int a = 0;
            if (1) {
                if (0) { a = 5; } else { a = 6; }
            } else {
                a = 7;
            }
            return a;
        }
    "#;
    let module = module_of(src);
    assert_basic_blocks(&module);
    let main = only_function(&module);
    assert_eq!(main.blocks.len(), 7);
    let branches = all_insts(main).iter().filter(|i| matches!(i, Inst::Branch { .. })).count();
    assert_eq!(branches, 2);
    for n in 5..=7 {
        let stores = all_insts(main)
            .iter()
            .filter(|i| matches!(i, Inst::Store { value: Operand::Const(v), .. } if *v == n))
            .count();
        assert_eq!(stores, 1);
    }
}

#[test]
fn lower_multiple_functions_and_globals() {
    let module = module_of("int g = 1; int f() {} int h() { return 1; }");
    assert_basic_blocks(&module);
    let names: Vec<&str> = module.functions.iter().map(|f| f.name.as_str()).collect();
    assert_eq!(names, vec!["f", "h"]);
}

#[test]
fn lower_assignment_to_no_variable_leaves_no_code() {
    let module = module_of("int main() { 1 = 2; return 0; }");
    let main = only_function(&module);
    assert_eq!(main.blocks[0].insts, vec![Inst::Return { value: Operand::Const(0) }]);
}

#[test]
fn lower_rejects_a_global_in_a_function() {
    let program = compile("int g = 1; int main() { return g; }").expect("the front end accepts");
    match lower(&program) {
        Err(CodegenError::UnsupportedOp(what)) => assert_eq!(what, "undefined variable"),
        other => panic!("expected an unsupported operation, got {:?}", other),
    }
}

#[test]
fn lower_rejects_an_assignment_to_a_global() {
    let program = compile("int g = 1; int main() { g = 2; return 0; }").expect("accepted");
    match lower(&program) {
        Err(CodegenError::UnsupportedOp(what)) => assert_eq!(what, "undefined variable"),
        other => panic!("expected an unsupported operation, got {:?}", other),
    }
}

#[test]
fn lower_rejects_an_assignment_used_for_its_value() {
    let program = compile("int main() { int x = 0; return x = 1; }").expect("accepted");
    match lower(&program) {
        Err(CodegenError::UnsupportedOp(what)) => assert_eq!(what, "Assign"),
        other => panic!("expected an unsupported operation, got {:?}", other),
    }
}

#[test]
fn lower_rejects_code_behind_a_return() {
    let program = compile("int main() { return 1; return 2; }").expect("accepted");
    match lower(&program) {
        Err(CodegenError::UnsupportedOp(what)) => assert_eq!(what, "unreachable code"),
        other => panic!("expected an unsupported operation, got {:?}", other),
    }
}

#[test]
fn lower_to_module_hands_on_the_message() {
    match lower_to_module("int main() { return 1; return 2; }") {
        Err(CompilerError::Codegen(what)) => {
            assert_eq!(what, "Unsupported operation: unreachable code");
        }
        other => panic!("expected a code generation error, got {:?}", other),
    }
    assert!(matches!(lower_to_module("int main() { return y; }"), Err(CompilerError::Semantic(_))));
    assert!(matches!(lower_to_module("int main() {"), Err(CompilerError::Parse(_))));
}

#[test]
fn lower_return_inside_loops() {
    let module = module_of(
        "int main() { int i = 0; while (i < 3) { if (i == 2) { return i; } i = i + 1; } \
         for (; i;) { return 7; } return 0; }",
    );
    assert_basic_blocks(&module);
    let main = only_function(&module);
    let labels: Vec<&str> = main.blocks.iter().map(|b| b.label.as_str()).collect();
    assert_eq!(
        labels,
        vec!["entry", "loop", "cont", "body", "then", "else", "cont", "loop", "cont", "body"]
    );
    assert_eq!(main.blocks[9].insts, vec![Inst::Return { value: Operand::Const(7) }]);
    assert_eq!(main.blocks[8].insts, vec![Inst::Return { value: Operand::Const(0) }]);
}

#[test]
fn lower_rejects_code_behind_a_return_in_a_nested_block() {
    for src in [
        "int main() { { return 1; } int x = 2; }",
        "int main() { int x = 0; while (1) { return 1; x; } }",
        "int main() { int x = 0; for (;; x) { return 1; } }",
        "int main() { if (1) { return 1; return 2; } }",
        "int main() { return 1; if (1) { } }",
        "int main() { return 1; while (1) { } }",
    ] {
        let program = compile(src).expect("accepted");
        match lower(&program) {
            Err(CodegenError::UnsupportedOp(what)) => assert_eq!(what, "unreachable code"),
            other => panic!("expected an unsupported operation for {}, got {:?}", src, other),
        }
    }
    // What leaves no instruction can stand behind a return.
    for src in [
        "int main() { return 1; ; { } }",
        "int main() { while (1) { return 1; 2; } }",
        "int main() { for (;; 1) { return 1; } }",
        "int main() { return 1; 1 = 2; }",
    ] {
        let program = compile(src).expect("accepted");
        assert!(lower(&program).is_ok(), "{}", src);
    }
}

#[test]
fn lower_reports_the_first_error() {
    let program = compile("int g = 1; int main() { return (g = 1) + g; }").expect("accepted");
    match lower(&program) {
        Err(CodegenError::UnsupportedOp(what)) => assert_eq!(what, "undefined variable"),
        other => panic!("expected an unsupported operation, got {:?}", other),
    }
    let program = compile("int main() { int x = 0; return (x = 1) + y0; } int y0 = 2;")
        .expect("accepted");
    match lower(&program) {
        Err(CodegenError::UnsupportedOp(what)) => assert_eq!(what, "Assign"),
        other => panic!("expected an unsupported operation, got {:?}", other),
    }
}

use lau_compilers::optimization::{instruction_count, optimize, try_optimize, ConstantFolding, DeadCodeElimination, FloatOp};
use lau_compilers::ssa::{SsaBinOp, SsaFunction, SsaInstruction, SsaUnaryOp, SsaValue};

/// Float arithmetic on decimal texts, as the compiler's driver supplies it.
fn fold_float(op: FloatOp, a: &String, b: &String) -> Option<String> {
    let x: f64 = a.parse().ok()?;
    let y: f64 = b.parse().ok()?;
    let r = match op {
        FloatOp::Add => x + y,
        FloatOp::Sub => x - y,
        FloatOp::Mul => x * y,
        FloatOp::Div => {
            if y != 0.0 {
                x / y
            } else {
                return None;
            }
        }
        FloatOp::Neg => -x,
    };
    Some(format!("{}", r))
}

fn make_test_func() -> SsaFunction {
    let mut func = SsaFunction::new("test".into(), 0);
    func.push_instr(SsaInstruction::Const { dest: 0, value: SsaValue::Int(3) });
    func.push_instr(SsaInstruction::Const { dest: 1, value: SsaValue::Int(4) });
    func.push_instr(SsaInstruction::BinOp { dest: 2, op: SsaBinOp::Add, left: 0, right: 1 });
    func.push_instr(SsaInstruction::Return(Some(2)));
    func
}

#[test]
fn test_constant_folding_add() {
    let mut func = make_test_func();
    let folds = ConstantFolding::optimize(&mut func, &fold_float);
    assert_eq!(folds, 1);
    let binop_replaced = func.blocks[0].instructions.iter().any(|i| {
        if let SsaInstruction::Const { dest: 2, value: SsaValue::Int(7) } = i {
            true
        } else {
            false
        }
    });
    assert!(binop_replaced);
}

#[test]
fn test_constant_folding_mul() {
    let mut func = SsaFunction::new("test".into(), 0);
    func.push_instr(SsaInstruction::Const { dest: 0, value: SsaValue::Int(5) });
    func.push_instr(SsaInstruction::Const { dest: 1, value: SsaValue::Int(6) });
    func.push_instr(SsaInstruction::BinOp { dest: 2, op: SsaBinOp::Mul, left: 0, right: 1 });
    func.push_instr(SsaInstruction::Return(Some(2)));
    let folds = ConstantFolding::optimize(&mut func, &fold_float);
    assert_eq!(folds, 1);
}

#[test]
fn test_constant_folding_comparison() {
    let mut func = SsaFunction::new("test".into(), 0);
    func.push_instr(SsaInstruction::Const { dest: 0, value: SsaValue::Int(3) });
    func.push_instr(SsaInstruction::Const { dest: 1, value: SsaValue::Int(4) });
    func.push_instr(SsaInstruction::BinOp { dest: 2, op: SsaBinOp::Lt, left: 0, right: 1 });
    func.push_instr(SsaInstruction::Return(Some(2)));
    let folds = ConstantFolding::optimize(&mut func, &fold_float);
    assert_eq!(folds, 1);
}

#[test]
fn test_constant_folding_no_fold() {
    let mut func = SsaFunction::new("test".into(), 1);
    func.push_instr(SsaInstruction::Const { dest: 1, value: SsaValue::Int(5) });
    func.push_instr(SsaInstruction::BinOp { dest: 2, op: SsaBinOp::Add, left: 0, right: 1 });
    func.push_instr(SsaInstruction::Return(Some(2)));
    let folds = ConstantFolding::optimize(&mut func, &fold_float);
    assert_eq!(folds, 0);
}

#[test]
fn test_constant_folding_negation() {
    let mut func = SsaFunction::new("test".into(), 0);
    func.push_instr(SsaInstruction::Const { dest: 0, value: SsaValue::Int(42) });
    func.push_instr(SsaInstruction::UnaryOp { dest: 1, op: SsaUnaryOp::Neg, operand: 0 });
    func.push_instr(SsaInstruction::Return(Some(1)));
    let folds = ConstantFolding::optimize(&mut func, &fold_float);
    assert_eq!(folds, 1);
}

#[test]
fn test_dead_code_elimination() {
    let mut func = SsaFunction::new("test".into(), 0);
    func.push_instr(SsaInstruction::Const { dest: 0, value: SsaValue::Int(42) });
    func.push_instr(SsaInstruction::Const { dest: 1, value: SsaValue::Int(99) });
    func.push_instr(SsaInstruction::Return(Some(0)));
    let removed = DeadCodeElimination::optimize(&mut func);
    assert_eq!(removed, 1);
    assert!(!func.blocks[0].instructions.iter().any(|i| matches!(i, SsaInstruction::Const { dest: 1, .. })));
}

#[test]
fn test_dce_keeps_used_chain() {
    let mut func = SsaFunction::new("test".into(), 0);
    func.push_instr(SsaInstruction::Const { dest: 0, value: SsaValue::Int(1) });
    func.push_instr(SsaInstruction::Const { dest: 1, value: SsaValue::Int(2) });
    func.push_instr(SsaInstruction::BinOp { dest: 2, op: SsaBinOp::Add, left: 0, right: 1 });
    func.push_instr(SsaInstruction::Return(Some(2)));
    let removed = DeadCodeElimination::optimize(&mut func);
    assert_eq!(removed, 0);
}

#[test]
fn test_dke_keeps_calls() {
    let mut func = SsaFunction::new("test".into(), 0);
    func.push_instr(SsaInstruction::Call { dest: None, func: "side_effect".into(), args: vec![] });
    func.push_instr(SsaInstruction::Return(None));
    let removed = DeadCodeElimination::optimize(&mut func);
    assert_eq!(removed, 0);
}

#[test]
#[allow(unused_comparisons)]
fn test_combined_optimization() {
    let mut func = make_test_func();
    let result = optimize(&mut func, &fold_float);
    assert_eq!(result.constants_folded, 1);
    assert!(result.instructions_removed >= 0, "removed count should be non-negative");
}

#[test]
fn try_optimize_folds_what_fits() {
    let mut func = make_test_func();
    let r = try_optimize(&mut func, &fold_float).unwrap();
    assert_eq!(r.constants_folded, 1);
    assert_eq!(instruction_count(&func), Some(func.blocks[0].instructions.len()));
}

#[test]
fn try_optimize_leaves_an_overflowing_function_unchanged() {
    let mut func = SsaFunction::new("test".into(), 0);
    func.push_instr(SsaInstruction::Const { dest: 0, value: SsaValue::Int(i64::MAX) });
    func.push_instr(SsaInstruction::Const { dest: 1, value: SsaValue::Int(1) });
    func.push_instr(SsaInstruction::BinOp { dest: 2, op: SsaBinOp::Add, left: 0, right: 1 });
    func.push_instr(SsaInstruction::Return(Some(2)));
    let before = format!("{:?}", func.blocks);
    assert!(try_optimize(&mut func, &fold_float).is_none());
    assert_eq!(format!("{:?}", func.blocks), before);
    assert!(ConstantFolding::try_optimize(&mut func, &fold_float).is_none());
    // The smallest value divided by -1 does not fit either.
    let mut g = SsaFunction::new("g".into(), 0);
    g.push_instr(SsaInstruction::Const { dest: 0, value: SsaValue::Int(i64::MIN) });
    g.push_instr(SsaInstruction::Const { dest: 1, value: SsaValue::Int(-1) });
    g.push_instr(SsaInstruction::BinOp { dest: 2, op: SsaBinOp::Div, left: 0, right: 1 });
    assert!(ConstantFolding::try_optimize(&mut g, &fold_float).is_none());
}

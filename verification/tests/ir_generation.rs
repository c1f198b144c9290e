use lau_compilers::ir::IrGenerator;
use lau_compilers::parser;
use lau_compilers::ssa::SsaInstruction;

#[test]
fn test_simple_ir_generation() {
    let prog = parser::parse("fn add(a, b) { return a + b; }").unwrap();
    let mut gen = IrGenerator::new();
    let funcs = gen.generate(&prog).unwrap();
    assert_eq!(funcs.len(), 1);
    assert_eq!(funcs[0].name, "add");
    assert!(funcs[0]
        .blocks
        .iter()
        .any(|b| b.instructions.iter().any(|i| matches!(i, SsaInstruction::BinOp { .. }))));
}

#[test]
fn test_const_fold_candidate() {
    let prog = parser::parse("fn f() { let x = 3 + 4; return x; }").unwrap();
    let mut gen = IrGenerator::new();
    let funcs = gen.generate(&prog).unwrap();
    let instrs: Vec<&SsaInstruction> = funcs[0].blocks.iter().flat_map(|b| &b.instructions).collect();
    let consts: Vec<&SsaInstruction> =
        instrs.iter().filter(|i| matches!(i, SsaInstruction::Const { .. })).copied().collect();
    assert!(consts.len() >= 2);
}

#[test]
fn test_if_generates_branch() {
    let prog = parser::parse("fn f(x) { if x { return 1; } else { return 0; } }").unwrap();
    let mut gen = IrGenerator::new();
    let funcs = gen.generate(&prog).unwrap();
    let has_branch = funcs[0]
        .blocks
        .iter()
        .any(|b| b.instructions.iter().any(|i| matches!(i, SsaInstruction::Branch { .. })));
    assert!(has_branch);
}

#[test]
fn test_while_generates_loop() {
    let prog = parser::parse("fn f(x) { while x { x = x - 1; } return x; }").unwrap();
    let mut gen = IrGenerator::new();
    let funcs = gen.generate(&prog).unwrap();
    assert!(funcs[0].blocks.len() > 1);
}

#[test]
fn test_call_generation() {
    let prog = parser::parse("fn main() { return add(1, 2); }").unwrap();
    let mut gen = IrGenerator::new();
    let funcs = gen.generate(&prog).unwrap();
    let has_call = funcs[0]
        .blocks
        .iter()
        .any(|b| b.instructions.iter().any(|i| matches!(i, SsaInstruction::Call { .. })));
    assert!(has_call);
}

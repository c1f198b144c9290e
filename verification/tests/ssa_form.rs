use lau_compilers::ssa::{SsaBinOp, SsaFunction, SsaInstruction, SsaValue};
use std::collections::HashSet;

#[test]
fn test_basic_block_creation() {
    let mut func = SsaFunction::new("test".into(), 0);
    let v = func.fresh_value();
    func.push_instr(SsaInstruction::Const { dest: v, value: SsaValue::Int(42) });
    assert_eq!(func.blocks.len(), 1);
    assert_eq!(func.blocks[0].instructions.len(), 1);
}

#[test]
fn test_dominators_simple() {
    let mut func = SsaFunction::new("test".into(), 0);
    let b1 = func.add_block("bb1".into());
    let b2 = func.add_block("bb2".into());
    func.blocks[b1].successors.push(b2);
    func.blocks[b2].predecessors.push(b1);

    let dom = func.compute_dominators();
    assert!(dom[&0].contains(&0));
    assert!(dom[&1].contains(&0));
    assert!(dom[&1].contains(&1));
}

#[test]
fn test_dominators_diamond() {
    let mut func = SsaFunction::new("test".into(), 0);
    let entry = 0;
    let bb1 = func.add_block("bb1".into());
    let bb2 = func.add_block("bb2".into());
    let merge = func.add_block("merge".into());

    func.blocks[entry].successors = vec![bb1, bb2];
    func.blocks[bb1].predecessors.push(entry);
    func.blocks[bb1].successors.push(merge);
    func.blocks[bb2].predecessors.push(entry);
    func.blocks[bb2].successors.push(merge);
    func.blocks[merge].predecessors = vec![bb1, bb2];

    let dom = func.compute_dominators();
    assert!(dom[&merge].contains(&entry));
}

#[test]
fn test_dominance_frontier() {
    let mut func = SsaFunction::new("test".into(), 0);
    let bb1 = func.add_block("bb1".into());
    let bb2 = func.add_block("bb2".into());
    let merge = func.add_block("merge".into());

    func.blocks[0].successors = vec![bb1, bb2];
    func.blocks[bb1].predecessors.push(0);
    func.blocks[bb1].successors.push(merge);
    func.blocks[bb2].predecessors.push(0);
    func.blocks[bb2].successors.push(merge);
    func.blocks[merge].predecessors = vec![bb1, bb2];

    let df = func.compute_dominance_frontier();
    assert!(df[&bb1].contains(&merge));
    assert!(df[&bb2].contains(&merge));
}

#[test]
fn test_dominates() {
    let mut func = SsaFunction::new("test".into(), 0);
    let bb1 = func.add_block("bb1".into());
    func.blocks[0].successors.push(bb1);
    func.blocks[bb1].predecessors.push(0);

    assert!(func.dominates(0, bb1));
    assert!(!func.dominates(bb1, 0));
}

#[test]
fn test_ssa_display() {
    let mut func = SsaFunction::new("add".into(), 2);
    let v = func.fresh_value();
    func.push_instr(SsaInstruction::BinOp { dest: v, op: SsaBinOp::Add, left: 0, right: 1 });
    func.push_instr(SsaInstruction::Return(Some(v)));
    let s = func.to_string();
    assert!(s.contains("Add"));
    assert!(s.contains("return"));
}

#[test]
fn test_phi_insertion() {
    let mut func = SsaFunction::new("test".into(), 0);
    let bb1 = func.add_block("bb1".into());
    let merge = func.add_block("merge".into());
    func.blocks[0].successors = vec![bb1, merge];
    func.blocks[bb1].predecessors.push(0);
    func.blocks[bb1].successors.push(merge);
    func.blocks[merge].predecessors = vec![0, bb1];

    let def_blocks: HashSet<usize> = vec![0, bb1].into_iter().collect();
    func.insert_phi_functions("x", &def_blocks);
    let has_phi = func.blocks[merge].instructions.iter().any(|i| matches!(i, SsaInstruction::Phi(_)));
    assert!(has_phi);
}

#[test]
fn dominators_are_the_blocks_on_every_path() {
    // 0 -> 1 -> 3, 0 -> 2 -> 3, 3 -> 4; block 5 is not reached from the entry.
    let mut func = SsaFunction::new("test".into(), 0);
    for label in ["a", "b", "c", "d", "e"] {
        func.add_block(label.into());
    }
    func.blocks[1].predecessors = vec![0];
    func.blocks[2].predecessors = vec![0];
    func.blocks[3].predecessors = vec![1, 2];
    func.blocks[4].predecessors = vec![3];
    func.blocks[5].predecessors = vec![5];
    let dom = func.compute_dominators();
    let set = |v: &[usize]| v.iter().copied().collect::<HashSet<usize>>();
    assert_eq!(dom[&3], set(&[0, 3]));
    assert_eq!(dom[&4], set(&[0, 3, 4]));
    assert_eq!(dom[&1], set(&[0, 1]));
    assert_eq!(dom[&5], set(&[0, 1, 2, 3, 4, 5]));
}

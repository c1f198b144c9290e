use lau_compilers::agent_dsl::{
    compile_agent, compile_agent_ir, config_get, ActionType, ConfigValue, HandlerType,
};
use lau_compilers::ast::{collect_idents, BinOp, Expr};
use lau_compilers::lexer::Span;
use lau_compilers::optimization::{ConstantFolding, DeadCodeElimination, FloatOp};
use lau_compilers::ssa::{SsaBinOp, SsaFunction, SsaInstruction, SsaValue};
use lau_compilers::symbol_table::{SymbolKind, SymbolTable, Type};
use lau_compilers::type_checker::TypeChecker;
use std::collections::HashSet;

fn fold_float(op: FloatOp, a: &String, b: &String) -> Option<String> {
    let x: f64 = a.parse().ok()?;
    let y: f64 = b.parse().ok()?;
    let r = match op {
        FloatOp::Add => x + y,
        FloatOp::Sub => x - y,
        FloatOp::Mul => x * y,
        FloatOp::Div => {
            if y != 0.0 {
                x / y
            } else {
                return None;
            }
        }
        FloatOp::Neg => -x,
    };
    Some(format!("{}", r))
}

fn diamond() -> SsaFunction {
    let mut func = SsaFunction::new("d".into(), 0);
    let bb1 = func.add_block("bb1".into());
    let bb2 = func.add_block("bb2".into());
    let merge = func.add_block("merge".into());
    func.blocks[0].successors = vec![bb1, bb2];
    func.blocks[bb1].predecessors.push(0);
    func.blocks[bb1].successors.push(merge);
    func.blocks[bb2].predecessors.push(0);
    func.blocks[bb2].successors.push(merge);
    func.blocks[merge].predecessors = vec![bb1, bb2];
    func
}

#[test]
fn later_setting_overrides_earlier() {
    let config = compile_agent("agent A { level: 1 level: 2 mode: \"x\" }").unwrap();
    assert_eq!(config.config.len(), 2);
    assert_eq!(config_get(&config.config, "level"), Some(&ConfigValue::Int(2)));
    assert_eq!(config_get(&config.config, "mode"), Some(&ConfigValue::String("x".into())));
    assert_eq!(config_get(&config.config, "absent"), None);
}

#[test]
fn guard_is_the_debug_text_of_its_expression() {
    let config = compile_agent("agent G { on tick guard true do emit(\"t\") }").unwrap();
    let guard = config.triggers[0].guard.clone().unwrap();
    assert!(guard.starts_with("BoolLiteral(true"));
}

#[test]
fn handler_and_action_forms() {
    let config = compile_agent("agent H { skill a { do run } skill b { do 42 } on x do notify(1) on y do go }").unwrap();
    assert_eq!(config.skills[0].handler_type, HandlerType::Function("run".into()));
    match &config.skills[1].handler_type {
        HandlerType::Inline(text) => assert!(text.starts_with("IntLiteral(42")),
        other => panic!("expected inline text, got {:?}", other),
    }
    assert_eq!(config.triggers[0].action_type, ActionType::Call("notify".into()));
    assert_eq!(config.triggers[1].action_type, ActionType::Call("go".into()));
}

#[test]
fn negative_timeout_wraps_and_retry_truncates() {
    let config = compile_agent("agent T { skill s { do \"x\" timeout: 5 retry: 4294967298 } }").unwrap();
    assert_eq!(config.skills[0].timeout_ms, Some(5));
    assert_eq!(config.skills[0].retry_count, Some(2));
}

#[test]
fn lexer_errors_are_reported_with_their_place() {
    let errs = compile_agent("agent @").unwrap_err();
    assert_eq!(errs.len(), 1);
    assert!(errs[0].starts_with("lexer error: lexer error at 1:7"));
}

#[test]
fn parse_errors_are_reported() {
    let errs = compile_agent("agent { }").unwrap_err();
    assert_eq!(errs.len(), 1);
    assert!(errs[0].starts_with("parse error at"));
}

#[test]
fn ir_errors_are_prefixed() {
    let errs = compile_agent_ir("fn f() { return y; }").unwrap_err();
    assert_eq!(errs, vec!["IR error: undefined variable: y".to_string()]);
    let funcs = compile_agent_ir("fn g(a) { return a; }").unwrap();
    assert_eq!(funcs.len(), 1);
    assert_eq!(funcs[0].name, "g");
}

#[test]
fn config_value_text() {
    let v = ConfigValue::Array(vec![
        ConfigValue::Int(-3),
        ConfigValue::Bool(true),
        ConfigValue::Null,
        ConfigValue::Object(vec![("k".into(), ConfigValue::String("v".into()))]),
    ]);
    assert_eq!(v.to_string(), "[-3, true, null, { k: \"v\" }]");
    let f = ConfigValue::Float("2.5".into());
    assert_eq!(f.to_string(), "2.5");
    assert_eq!(f.to_string_with(&vec![("2.5".into(), "2.500000".into())]), "2.500000");
}

#[test]
fn function_text_is_exact() {
    let mut func = SsaFunction::new("add".into(), 2);
    let v = func.fresh_value();
    func.push_instr(SsaInstruction::BinOp { dest: v, op: SsaBinOp::Add, left: 0, right: 1 });
    func.push_instr(SsaInstruction::Call { dest: None, func: "log".into(), args: vec![0, 1] });
    func.push_instr(SsaInstruction::Const { dest: 5, value: SsaValue::Float("1.5".into()) });
    func.push_instr(SsaInstruction::Return(Some(v)));
    assert_eq!(
        func.to_string(),
        "fn add(2):\n  entry:\n    v2 = v0 Add v1\n    call log(v0, v1)\n    v5 = 1.5\n    return v2\n"
    );
    assert_eq!(func.float_constants(), vec!["1.5".to_string()]);
}

#[test]
fn dominators_of_a_diamond() {
    let func = diamond();
    let dom = func.compute_dominators();
    let expect = |v: Vec<usize>| -> HashSet<usize> { v.into_iter().collect() };
    assert_eq!(dom[&0], expect(vec![0]));
    assert_eq!(dom[&1], expect(vec![0, 1]));
    assert_eq!(dom[&2], expect(vec![0, 2]));
    assert_eq!(dom[&3], expect(vec![0, 3]));
    assert!(!func.dominates(1, 3));
}

#[test]
fn frontier_blocks_are_not_strictly_dominated() {
    let func = diamond();
    let df = func.compute_dominance_frontier();
    let dom = func.compute_dominators();
    for (x, ys) in &df {
        for y in ys {
            assert!(!dom[y].contains(x) || x == y);
        }
    }
    assert!(df[&0].is_empty());
    assert!(df[&3].is_empty());
}

#[test]
fn loop_header_is_in_its_own_frontier() {
    let mut f = SsaFunction::new("test".into(), 0);
    assert_eq!(f.add_block("header".into()), 1);
    assert_eq!(f.add_block("body".into()), 2);
    assert_eq!(f.add_block("exit".into()), 3);
    f.blocks[0].successors = vec![1];
    f.blocks[1].successors = vec![2, 3];
    f.blocks[2].successors = vec![1];
    f.blocks[1].predecessors = vec![0, 2];
    f.blocks[2].predecessors = vec![1];
    f.blocks[3].predecessors = vec![1];
    let df = f.compute_dominance_frontier();
    let set = |v: Vec<usize>| -> HashSet<usize> { v.into_iter().collect() };
    assert_eq!(df[&0], set(vec![]));
    assert_eq!(df[&1], set(vec![1]));
    assert_eq!(df[&2], set(vec![1]));
    assert_eq!(df[&3], set(vec![]));
}

#[test]
fn constant_address_of_a_kept_load_stays() {
    let mut f = SsaFunction::new("test".into(), 0);
    f.push_instr(SsaInstruction::Const { dest: 0, value: SsaValue::Int(8) });
    f.push_instr(SsaInstruction::Load { dest: 1, addr: 0 });
    f.push_instr(SsaInstruction::Return(Some(1)));
    assert_eq!(DeadCodeElimination::optimize(&mut f), 0);
    assert_eq!(f.blocks[0].instructions.len(), 3);
}

#[test]
fn only_struct_and_enum_names_resolve() {
    let mut st = SymbolTable::new();
    st.insert("P", SymbolKind::Struct, Some(Type::Struct("P".into(), vec![])));
    st.insert("E", SymbolKind::Enum, Some(Type::Named("E".into())));
    st.insert("x", SymbolKind::Variable, Some(Type::Int));
    assert_eq!(st.resolve_type("P"), Some(Type::Struct("P".into(), vec![])));
    assert_eq!(st.resolve_type("E"), Some(Type::Named("E".into())));
    assert_eq!(st.resolve_type("x"), None);
    assert_eq!(st.resolve_type("Q"), None);
}

#[test]
fn one_phi_per_frontier_block() {
    let mut func = diamond();
    let before = func.next_value;
    let defs: HashSet<usize> = vec![1, 2].into_iter().collect();
    func.insert_phi_functions("x", &defs);
    assert_eq!(func.next_value, before + 1);
    match &func.blocks[3].instructions[0] {
        SsaInstruction::Phi(phi) => {
            assert_eq!(phi.dest, before);
            assert_eq!(phi.sources, vec![(1, before), (2, before)]);
        }
        other => panic!("expected a phi, got {:?}", other),
    }
    for b in 0..3 {
        assert!(func.blocks[b].instructions.is_empty());
    }
}

#[test]
fn idents_in_walk_order() {
    let expr = Expr::Call {
        callee: Box::new(Expr::Ident("f".into(), Span::zero())),
        args: vec![
            Expr::Ident("a".into(), Span::zero()),
            Expr::Index {
                object: Box::new(Expr::Ident("b".into(), Span::zero())),
                index: Box::new(Expr::Binary {
                    op: BinOp::Add,
                    left: Box::new(Expr::Ident("c".into(), Span::zero())),
                    right: Box::new(Expr::IntLiteral(1, Span::zero())),
                    span: Span::zero(),
                }),
                span: Span::zero(),
            },
        ],
        span: Span::zero(),
    };
    assert_eq!(collect_idents(&expr), vec!["f", "a", "b", "c"]);
}

#[test]
fn unify_binds_a_type_variable() {
    let mut tc = TypeChecker::new();
    let tv = Type::Generic("$x".into());
    let arr = Type::Array(Box::new(Type::Int));
    assert_eq!(tc.unify(&tv, &arr).unwrap(), arr);
    assert_eq!(tc.resolve_type(&tv), Type::Array(Box::new(Type::Int)));
}

#[test]
fn insert_then_lookup_and_replace() {
    let mut st = SymbolTable::new();
    assert!(st.insert("x", SymbolKind::Variable, Some(Type::Int)).is_none());
    let old = st.insert("x", SymbolKind::Variable, Some(Type::Bool)).unwrap();
    assert_eq!(old.ty, Some(Type::Int));
    assert_eq!(st.lookup("x").unwrap().ty, Some(Type::Bool));
    st.enter_scope();
    st.insert("y", SymbolKind::Variable, None);
    assert!(st.exit_scope());
    assert!(st.lookup("y").is_none());
    assert_eq!(st.depth(), 0);
}

#[test]
fn float_constants_fold_through_the_callback() {
    let mut func = SsaFunction::new("f".into(), 0);
    func.push_instr(SsaInstruction::Const { dest: 0, value: SsaValue::Float("1.5".into()) });
    func.push_instr(SsaInstruction::Const { dest: 1, value: SsaValue::Float("2.25".into()) });
    func.push_instr(SsaInstruction::BinOp { dest: 2, op: SsaBinOp::Add, left: 0, right: 1 });
    func.push_instr(SsaInstruction::Return(Some(2)));
    assert_eq!(ConstantFolding::optimize(&mut func, &fold_float), 1);
    assert!(matches!(&func.blocks[0].instructions[2], SsaInstruction::Const { dest: 2, value: SsaValue::Float(t) } if t == "3.75"));
    assert_eq!(DeadCodeElimination::optimize(&mut func), 2);
    assert_eq!(func.blocks[0].instructions.len(), 2);
}

#[test]
fn division_by_zero_is_not_folded() {
    let mut func = SsaFunction::new("f".into(), 0);
    func.push_instr(SsaInstruction::Const { dest: 0, value: SsaValue::Int(7) });
    func.push_instr(SsaInstruction::Const { dest: 1, value: SsaValue::Int(0) });
    func.push_instr(SsaInstruction::BinOp { dest: 2, op: SsaBinOp::Div, left: 0, right: 1 });
    func.push_instr(SsaInstruction::Return(Some(2)));
    assert_eq!(ConstantFolding::optimize(&mut func, &fold_float), 0);
}

#[test]
fn dead_code_elimination_twice_removes_nothing_more() {
    let mut func = SsaFunction::new("f".into(), 0);
    func.push_instr(SsaInstruction::Const { dest: 0, value: SsaValue::Int(1) });
    func.push_instr(SsaInstruction::Const { dest: 1, value: SsaValue::Int(2) });
    func.push_instr(SsaInstruction::BinOp { dest: 2, op: SsaBinOp::Add, left: 0, right: 1 });
    func.push_instr(SsaInstruction::Const { dest: 3, value: SsaValue::Int(9) });
    func.push_instr(SsaInstruction::Return(Some(0)));
    assert_eq!(DeadCodeElimination::optimize(&mut func), 3);
    assert_eq!(DeadCodeElimination::optimize(&mut func), 0);
    assert_eq!(func.blocks[0].instructions.len(), 2);
}

use lau_compilers::symbol_table::{SymbolKind, SymbolTable, Type};

#[test]
fn test_global_scope() {
    let mut st = SymbolTable::new();
    st.insert("x", SymbolKind::Variable, Some(Type::Int));
    assert!(st.lookup("x").is_some());
    assert_eq!(st.lookup("x").unwrap().name, "x");
}

#[test]
fn test_nested_scopes() {
    let mut st = SymbolTable::new();
    st.insert("x", SymbolKind::Variable, Some(Type::Int));
    st.enter_scope();
    st.insert("y", SymbolKind::Variable, Some(Type::Bool));
    assert!(st.lookup("x").is_some());
    assert!(st.lookup("y").is_some());
    st.exit_scope();
    assert!(st.lookup("x").is_some());
    assert!(st.lookup("y").is_none());
}

#[test]
fn test_shadowing() {
    let mut st = SymbolTable::new();
    st.insert("x", SymbolKind::Variable, Some(Type::Int));
    st.enter_scope();
    st.insert("x", SymbolKind::Variable, Some(Type::Float));
    let sym = st.lookup("x").unwrap();
    assert_eq!(sym.ty, Some(Type::Float));
    st.exit_scope();
    let sym = st.lookup("x").unwrap();
    assert_eq!(sym.ty, Some(Type::Int));
}

#[test]
fn test_scope_depth() {
    let mut st = SymbolTable::new();
    assert_eq!(st.depth(), 0);
    st.enter_scope();
    assert_eq!(st.depth(), 1);
    st.enter_scope();
    assert_eq!(st.depth(), 2);
    st.exit_scope();
    assert_eq!(st.depth(), 1);
}

#[test]
fn test_lookup_current() {
    let mut st = SymbolTable::new();
    st.insert("x", SymbolKind::Variable, Some(Type::Int));
    st.enter_scope();
    assert!(st.lookup_current("x").is_none());
    assert!(st.lookup("x").is_some());
}

#[test]
fn test_function_symbol() {
    let mut st = SymbolTable::new();
    st.insert("add", SymbolKind::Function, Some(Type::Function(vec![Type::Int, Type::Int], Box::new(Type::Int))));
    let sym = st.lookup("add").unwrap();
    assert_eq!(sym.kind, SymbolKind::Function);
}

#[test]
fn test_cannot_exit_global() {
    let mut st = SymbolTable::new();
    assert!(!st.exit_scope());
}

use lau_compilers::ast::{Expr, Item};
use lau_compilers::lexer::Span;
use lau_compilers::parser;
use lau_compilers::symbol_table::Type;
use lau_compilers::type_checker::TypeChecker;

fn infer(src: &str) -> Type {
    let prog = parser::parse(src).unwrap();
    let mut tc = TypeChecker::new();
    tc.check_program(&prog).unwrap();
    let mut tc2 = TypeChecker::new();
    if let Some(Item::Expr(e)) = prog.items.last() {
        tc2.infer_expr(e).unwrap()
    } else {
        Type::Void
    }
}

#[test]
fn test_infer_int() {
    assert_eq!(infer("42"), Type::Int);
}

#[test]
fn test_infer_bool() {
    assert_eq!(infer("true"), Type::Bool);
}

#[test]
fn test_infer_arithmetic() {
    assert_eq!(infer("1 + 2"), Type::Int);
}

#[test]
fn test_infer_comparison() {
    assert_eq!(infer("1 < 2"), Type::Bool);
}

#[test]
fn test_infer_equality() {
    assert_eq!(infer("1 == 2"), Type::Bool);
}

#[test]
fn test_infer_string() {
    assert_eq!(infer(r#""hello""#), Type::String);
}

#[test]
fn test_unify_same() {
    let mut tc = TypeChecker::new();
    let result = tc.unify(&Type::Int, &Type::Int).unwrap();
    assert_eq!(result, Type::Int);
}

#[test]
fn test_unify_type_var() {
    let mut tc = TypeChecker::new();
    let tv = Type::Generic("$t0".into());
    let result = tc.unify(&tv, &Type::Int).unwrap();
    assert_eq!(result, Type::Int);
    assert_eq!(tc.resolve_type(&tv), Type::Int);
}

#[test]
fn test_unify_array() {
    let mut tc = TypeChecker::new();
    let a1 = Type::Array(Box::new(Type::Generic("$a".into())));
    let a2 = Type::Array(Box::new(Type::Int));
    let result = tc.unify(&a1, &a2).unwrap();
    assert_eq!(result, Type::Array(Box::new(Type::Int)));
}

#[test]
fn test_unify_mismatch() {
    let mut tc = TypeChecker::new();
    assert!(tc.unify(&Type::Int, &Type::Bool).is_err());
}

#[test]
fn test_type_error_undefined() {
    let mut tc = TypeChecker::new();
    let expr = Expr::Ident("undefined_var".into(), Span::zero());
    assert!(tc.infer_expr(&expr).is_err());
}

#[test]
fn test_float_promotion() {
    assert_eq!(infer("1 + 2.5"), Type::Float);
}

#[test]
fn resolving_twice_gives_the_same_type() {
    let mut tc = TypeChecker::new();
    let t0 = Type::Generic("$t0".into());
    let t1 = Type::Generic("$t1".into());
    tc.unify(&t0, &Type::Array(Box::new(t1.clone()))).unwrap();
    tc.unify(&t1, &Type::Int).unwrap();
    let f = Type::Function(vec![t0.clone(), Type::Generic("$t9".into())], Box::new(t1.clone()));
    let once = tc.resolve_type(&f);
    assert_eq!(
        once,
        Type::Function(
            vec![Type::Array(Box::new(Type::Int)), Type::Generic("$t9".into())],
            Box::new(Type::Int)
        )
    );
    assert_eq!(tc.resolve_type(&once), once);
    // A variable without a binding resolves to itself.
    assert_eq!(tc.resolve_type(&Type::Generic("$t9".into())), Type::Generic("$t9".into()));
}

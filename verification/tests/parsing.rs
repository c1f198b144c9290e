use lau_compilers::ast::{BinOp, Expr, Item, Stmt, UnaryOp};
use lau_compilers::lexer::tokenize;
use lau_compilers::parser::{parse, Parser};
use lau_compilers::symbol_table::Type;

fn parse_expr(src: &str) -> Expr {
    let tokens = tokenize(src).unwrap();
    let mut parser = Parser::new(tokens);
    parser.parse_expression().unwrap()
}

#[test]
fn test_simple_expression() {
    let expr = parse_expr("1 + 2");
    match &expr {
        Expr::Binary { op: BinOp::Add, .. } => {}
        other => panic!("expected binary add, got {:?}", other),
    }
}

#[test]
fn test_precedence_climbing() {
    let expr = parse_expr("1 + 2 * 3");
    match &expr {
        Expr::Binary { op: BinOp::Add, right, .. } => match right.as_ref() {
            Expr::Binary { op: BinOp::Mul, .. } => {}
            other => panic!("expected mul on right, got {:?}", other),
        },
        other => panic!("expected add, got {:?}", other),
    }
}

#[test]
fn test_left_associativity() {
    let expr = parse_expr("1 - 2 - 3");
    match &expr {
        Expr::Binary { op: BinOp::Sub, left, .. } => match left.as_ref() {
            Expr::Binary { op: BinOp::Sub, .. } => {}
            other => panic!("expected sub on left, got {:?}", other),
        },
        other => panic!("expected sub, got {:?}", other),
    }
}

#[test]
fn test_parentheses() {
    let expr = parse_expr("(1 + 2) * 3");
    match &expr {
        Expr::Binary { op: BinOp::Mul, left, .. } => match left.as_ref() {
            Expr::Binary { op: BinOp::Add, .. } => {}
            other => panic!("expected add in parens, got {:?}", other),
        },
        other => panic!("expected mul, got {:?}", other),
    }
}

#[test]
fn test_unary() {
    let expr = parse_expr("-x");
    match &expr {
        Expr::Unary { op: UnaryOp::Neg, .. } => {}
        other => panic!("expected neg, got {:?}", other),
    }
}

#[test]
fn test_function_call() {
    let expr = parse_expr("f(1, 2)");
    match &expr {
        Expr::Call { args, .. } => assert_eq!(args.len(), 2),
        other => panic!("expected call, got {:?}", other),
    }
}

#[test]
fn test_let_stmt() {
    let tokens = tokenize("let x = 42;").unwrap();
    let mut parser = Parser::new(tokens);
    let stmt = parser.parse_stmt().unwrap();
    match &stmt {
        Stmt::Let { name, init: Some(Expr::IntLiteral(42, _)), .. } => {
            assert_eq!(name, "x");
        }
        other => panic!("expected let with init, got {:?}", other),
    }
}

#[test]
fn test_fn_decl() {
    let tokens = tokenize("fn add(a: int, b: int) -> int { return a + b; }").unwrap();
    let mut parser = Parser::new(tokens);
    let item = parser.parse_item().unwrap();
    match &item {
        Item::Function(Stmt::FnDecl { name, params, return_type, .. }) => {
            assert_eq!(name, "add");
            assert_eq!(params.len(), 2);
            assert_eq!(return_type, &Some(Type::Int));
        }
        other => panic!("expected fn decl, got {:?}", other),
    }
}

#[test]
fn test_if_else() {
    let tokens = tokenize("if x > 0 { x } else { 0 }").unwrap();
    let mut parser = Parser::new(tokens);
    let stmt = parser.parse_stmt().unwrap();
    match &stmt {
        Stmt::If { else_branch: Some(_), .. } => {}
        other => panic!("expected if-else, got {:?}", other),
    }
}

#[test]
fn test_parse_program() {
    let prog = parse("fn main() { return 0; }").unwrap();
    assert_eq!(prog.items.len(), 1);
}

use lau_compilers::ast::{collect_idents, walk_expr, walk_stmt, BinOp, Expr, Node, Stmt, UnaryOp};
use lau_compilers::symbol_table::Type;
use lau_compilers::lexer::{Span, TokenKind};

#[test]
fn test_binop_precedence() {
    assert!(BinOp::Mul.precedence() > BinOp::Add.precedence());
    assert!(BinOp::And.precedence() < BinOp::Eq.precedence());
}

#[test]
fn test_expr_span() {
    let span = Span::new(0, 5, 1, 1);
    let expr = Expr::IntLiteral(42, span);
    assert_eq!(expr.span(), &span);
}

#[test]
fn test_collect_idents() {
    let expr = Expr::Binary {
        op: BinOp::Add,
        left: Box::new(Expr::Ident("x".into(), Span::zero())),
        right: Box::new(Expr::Ident("y".into(), Span::zero())),
        span: Span::zero(),
    };
    let idents = collect_idents(&expr);
    assert_eq!(idents, vec!["x", "y"]);
}

#[test]
fn operator_tokens_convert_to_binary_operators() {
    assert_eq!(Option::<BinOp>::from(&TokenKind::Star), Some(BinOp::Mul));
    assert_eq!(Option::<BinOp>::from(&TokenKind::Shr), Some(BinOp::Shr));
    assert_eq!(Option::<BinOp>::from(&TokenKind::Comma), None);
    assert_eq!(BinOp::from_token(&TokenKind::Or), Some(BinOp::Or));
    assert!(!BinOp::Add.is_right_associative());
    assert_eq!(BinOp::Or.precedence(), 1);
    assert_eq!(BinOp::Mod.precedence(), 10);
}

#[test]
fn test_visitor_walks_binary() {
    let expr = Expr::Binary {
        op: BinOp::Mul,
        left: Box::new(Expr::IntLiteral(2, Span::zero())),
        right: Box::new(Expr::Binary {
            op: BinOp::Add,
            left: Box::new(Expr::Ident("x".into(), Span::zero())),
            right: Box::new(Expr::IntLiteral(3, Span::zero())),
            span: Span::zero(),
        }),
        span: Span::zero(),
    };
    let mut count = 0;
    for node in walk_expr(&expr) {
        if let Node::Expr(_) = node {
            count += 1;
        }
    }
    assert_eq!(count, 5); // outer binary, 2, inner binary, x, 3
}

#[test]
fn walk_visits_a_node_before_its_children_left_to_right() {
    let expr = Expr::Binary {
        op: BinOp::Add,
        left: Box::new(Expr::Ident("a".into(), Span::zero())),
        right: Box::new(Expr::Ident("b".into(), Span::zero())),
        span: Span::zero(),
    };
    let stmt = Stmt::ExprStmt(expr, Span::zero());
    let nodes = walk_stmt(&stmt);
    assert_eq!(nodes.len(), 4);
    assert!(matches!(nodes[0], Node::Stmt(_)));
    assert!(matches!(nodes[1], Node::Expr(Expr::Binary { .. })));
    assert!(matches!(nodes[2], Node::Expr(Expr::Ident(n, _)) if n == "a"));
    assert!(matches!(nodes[3], Node::Expr(Expr::Ident(n, _)) if n == "b"));
}

#[test]
fn float_literal_debug_text_prints_the_number() {
    let e = Expr::FloatLiteral("2.50".into(), Span::new(0, 4, 1, 1));
    assert_eq!(e.debug_text(), "FloatLiteral(2.5, Span { start: 0, end: 4, line: 1, col: 1 })");
    let e = Expr::FloatLiteral("007.0".into(), Span::zero());
    assert_eq!(e.debug_text(), "FloatLiteral(7.0, Span { start: 0, end: 0, line: 1, col: 1 })");
}

#[test]
fn debug_text_matches_the_derived_form_without_floats() {
    let s = Span::new(1, 2, 3, 4);
    let e = Expr::Call {
        callee: Box::new(Expr::Member {
            object: Box::new(Expr::Ident("obj".into(), s)),
            field: "run".into(),
            span: s,
        }),
        args: vec![
            Expr::StringLiteral("say \"hi\"\n\\ \t ok".into(), s),
            Expr::Unary { op: UnaryOp::Neg, operand: Box::new(Expr::IntLiteral(-42, s)), span: s },
            Expr::Array(vec![Expr::BoolLiteral(true, s), Expr::NullLiteral(s)], s),
            Expr::Cast {
                expr: Box::new(Expr::Index {
                    object: Box::new(Expr::Ident("xs".into(), s)),
                    index: Box::new(Expr::IntLiteral(0, s)),
                    span: s,
                }),
                ty: Type::Function(vec![Type::Int, Type::Array(Box::new(Type::Bool))], Box::new(Type::Void)),
                span: s,
            },
            Expr::Lambda {
                params: vec![("a".into(), Some(Type::Named("T".into()))), ("b".into(), None)],
                body: Box::new(Expr::Binary {
                    op: BinOp::And,
                    left: Box::new(Expr::Ident("a".into(), s)),
                    right: Box::new(Expr::Ident("b".into(), s)),
                    span: s,
                }),
                span: s,
            },
            Expr::IfExpr {
                condition: Box::new(Expr::BoolLiteral(false, s)),
                then_branch: Box::new(Stmt::Block(
                    vec![Stmt::Return(Some(Expr::IntLiteral(1, s)), s), Stmt::Break(s)],
                    s,
                )),
                else_branch: None,
                span: s,
            },
        ],
        span: s,
    };
    assert_eq!(e.debug_text(), format!("{:?}", e));
}

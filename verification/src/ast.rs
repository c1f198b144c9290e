// AST: typed nodes, their mathematical values, and traversal.
use vstd::prelude::*;
use crate::lexer::{Span, TokenKind, TokenKindView};
use crate::symbol_table::{Type, TypeView, opt_type_view};

verus! {

/// AST node identifier for referencing.
pub type NodeId = usize;

/// Binary operators.
#[derive(Debug, Clone, Copy, PartialEq, Eq, Structural)]
pub enum BinOp {
    Add,
    Sub,
    Mul,
    Div,
    Mod,
    Eq,
    Neq,
    Lt,
    Lte,
    Gt,
    Gte,
    And,
    Or,
    BitAnd,
    BitOr,
    BitXor,
    Shl,
    Shr,
}

/// The binary operator a token stands for, if any.
pub open spec fn binop_of(k: TokenKindView) -> Option<BinOp> {
    match k {
        TokenKindView::Simple(t) => match t {
            TokenKind::Plus => Some(BinOp::Add),
            TokenKind::Minus => Some(BinOp::Sub),
            TokenKind::Star => Some(BinOp::Mul),
            TokenKind::Slash => Some(BinOp::Div),
            TokenKind::Percent => Some(BinOp::Mod),
            TokenKind::EqEq => Some(BinOp::Eq),
            TokenKind::BangEq => Some(BinOp::Neq),
            TokenKind::Lt => Some(BinOp::Lt),
            TokenKind::LtEq => Some(BinOp::Lte),
            TokenKind::Gt => Some(BinOp::Gt),
            TokenKind::GtEq => Some(BinOp::Gte),
            TokenKind::And => Some(BinOp::And),
            TokenKind::Or => Some(BinOp::Or),
            TokenKind::Ampersand => Some(BinOp::BitAnd),
            TokenKind::Pipe => Some(BinOp::BitOr),
            TokenKind::Caret => Some(BinOp::BitXor),
            TokenKind::Shl => Some(BinOp::Shl),
            TokenKind::Shr => Some(BinOp::Shr),
            _ => None,
        },
        _ => None,
    }
}

pub open spec fn precedence_spec(op: BinOp) -> u8 {
    match op {
        BinOp::Or => 1,
        BinOp::And => 2,
        BinOp::BitOr => 3,
        BinOp::BitXor => 4,
        BinOp::BitAnd => 5,
        BinOp::Eq | BinOp::Neq => 6,
        BinOp::Lt | BinOp::Lte | BinOp::Gt | BinOp::Gte => 7,
        BinOp::Shl | BinOp::Shr => 8,
        BinOp::Add | BinOp::Sub => 9,
        BinOp::Mul | BinOp::Div | BinOp::Mod => 10,
    }
}

/// How tightly the operators bind, loosest first: `||`, then `&&`, `|`, `^`, `&`, the
/// equalities, the orderings, the shifts, `+` and `-`, and `*`, `/`, `%` tightest;
/// operators of one class bind alike, and every operator binds more tightly than 0.
pub proof fn lemma_precedence_order()
    ensures
        0 < precedence_spec(BinOp::Or),
        precedence_spec(BinOp::Or) < precedence_spec(BinOp::And),
        precedence_spec(BinOp::And) < precedence_spec(BinOp::BitOr),
        precedence_spec(BinOp::BitOr) < precedence_spec(BinOp::BitXor),
        precedence_spec(BinOp::BitXor) < precedence_spec(BinOp::BitAnd),
        precedence_spec(BinOp::BitAnd) < precedence_spec(BinOp::Eq),
        precedence_spec(BinOp::Eq) == precedence_spec(BinOp::Neq),
        precedence_spec(BinOp::Neq) < precedence_spec(BinOp::Lt),
        precedence_spec(BinOp::Lt) == precedence_spec(BinOp::Lte),
        precedence_spec(BinOp::Lt) == precedence_spec(BinOp::Gt),
        precedence_spec(BinOp::Lt) == precedence_spec(BinOp::Gte),
        precedence_spec(BinOp::Gte) < precedence_spec(BinOp::Shl),
        precedence_spec(BinOp::Shl) == precedence_spec(BinOp::Shr),
        precedence_spec(BinOp::Shr) < precedence_spec(BinOp::Add),
        precedence_spec(BinOp::Add) == precedence_spec(BinOp::Sub),
        precedence_spec(BinOp::Sub) < precedence_spec(BinOp::Mul),
        precedence_spec(BinOp::Mul) == precedence_spec(BinOp::Div),
        precedence_spec(BinOp::Mul) == precedence_spec(BinOp::Mod),
{
}

impl BinOp {
    /// The binary operator a token stands for, if any.
    pub fn from_token(kind: &TokenKind) -> (r: Option<BinOp>)
        ensures
            r == binop_of(kind@),
    {
        match kind {
            TokenKind::Plus => Some(BinOp::Add),
            TokenKind::Minus => Some(BinOp::Sub),
            TokenKind::Star => Some(BinOp::Mul),
            TokenKind::Slash => Some(BinOp::Div),
            TokenKind::Percent => Some(BinOp::Mod),
            TokenKind::EqEq => Some(BinOp::Eq),
            TokenKind::BangEq => Some(BinOp::Neq),
            TokenKind::Lt => Some(BinOp::Lt),
            TokenKind::LtEq => Some(BinOp::Lte),
            TokenKind::Gt => Some(BinOp::Gt),
            TokenKind::GtEq => Some(BinOp::Gte),
            TokenKind::And => Some(BinOp::And),
            TokenKind::Or => Some(BinOp::Or),
            TokenKind::Ampersand => Some(BinOp::BitAnd),
            TokenKind::Pipe => Some(BinOp::BitOr),
            TokenKind::Caret => Some(BinOp::BitXor),
            TokenKind::Shl => Some(BinOp::Shl),
            TokenKind::Shr => Some(BinOp::Shr),
            _ => None,
        }
    }

    /// Binding strength: multiplicative binds tightest, `||` loosest.
    pub fn precedence(&self) -> (r: u8)
        ensures
            r == precedence_spec(*self),
            1 <= r <= 10,
    {
        match self {
            BinOp::Or => 1,
            BinOp::And => 2,
            BinOp::BitOr => 3,
            BinOp::BitXor => 4,
            BinOp::BitAnd => 5,
            BinOp::Eq | BinOp::Neq => 6,
            BinOp::Lt | BinOp::Lte | BinOp::Gt | BinOp::Gte => 7,
            BinOp::Shl | BinOp::Shr => 8,
            BinOp::Add | BinOp::Sub => 9,
            BinOp::Mul | BinOp::Div | BinOp::Mod => 10,
        }
    }

    /// No operator is right associative.
    pub fn is_right_associative(&self) -> (r: bool)
        ensures
            !r,
    {
        false
    }
}

impl<'a> From<&'a TokenKind> for Option<BinOp> {
    /// The binary operator a token stands for, if any.
    fn from(kind: &'a TokenKind) -> (r: Option<BinOp>) {
        BinOp::from_token(kind)
    }
}

impl<'a> vstd::std_specs::convert::FromSpecImpl<&'a TokenKind> for Option<BinOp> {
    open spec fn obeys_from_spec() -> bool {
        true
    }

    open spec fn from_spec(kind: &'a TokenKind) -> Option<BinOp> {
        binop_of(kind@)
    }
}

/// Unary operators.
#[derive(Debug, Clone, Copy, PartialEq, Eq, Structural)]
pub enum UnaryOp {
    Neg,
    Not,
    BitNot,
}

/// Expression AST nodes.  A float literal keeps the text it was written with.
#[derive(Debug)]
pub enum Expr {
    IntLiteral(i64, Span),
    FloatLiteral(String, Span),
    StringLiteral(String, Span),
    BoolLiteral(bool, Span),
    NullLiteral(Span),
    Ident(String, Span),
    Binary { op: BinOp, left: Box<Expr>, right: Box<Expr>, span: Span },
    Unary { op: UnaryOp, operand: Box<Expr>, span: Span },
    Call { callee: Box<Expr>, args: Vec<Expr>, span: Span },
    Index { object: Box<Expr>, index: Box<Expr>, span: Span },
    Member { object: Box<Expr>, field: String, span: Span },
    Array(Vec<Expr>, Span),
    Cast { expr: Box<Expr>, ty: Type, span: Span },
    IfExpr {
        condition: Box<Expr>,
        then_branch: Box<Stmt>,
        else_branch: Option<Box<Stmt>>,
        span: Span,
    },
    Lambda { params: Vec<(String, Option<Type>)>, body: Box<Expr>, span: Span },
    Typed { expr: Box<Expr>, ty: Type, span: Span },
}

/// Statement AST nodes.
#[derive(Debug)]
pub enum Stmt {
    Let { name: String, ty: Option<Type>, init: Option<Expr>, span: Span },
    Assign { target: Expr, value: Expr, span: Span },
    ExprStmt(Expr, Span),
    Block(Vec<Stmt>, Span),
    If { condition: Expr, then_branch: Box<Stmt>, else_branch: Option<Box<Stmt>>, span: Span },
    While { condition: Expr, body: Box<Stmt>, span: Span },
    For { var: String, iterable: Expr, body: Box<Stmt>, span: Span },
    Return(Option<Expr>, Span),
    Break(Span),
    Continue(Span),
    FnDecl {
        name: String,
        params: Vec<(String, Option<Type>)>,
        return_type: Option<Type>,
        body: Box<Stmt>,
        span: Span,
    },
    StructDecl { name: String, fields: Vec<(String, Type)>, span: Span },
}

/// The mathematical value of an expression.
pub enum ExprView {
    IntLiteral(i64, Span),
    FloatLiteral(Seq<char>, Span),
    StringLiteral(Seq<char>, Span),
    BoolLiteral(bool, Span),
    NullLiteral(Span),
    Ident(Seq<char>, Span),
    Binary { op: BinOp, left: Box<ExprView>, right: Box<ExprView>, span: Span },
    Unary { op: UnaryOp, operand: Box<ExprView>, span: Span },
    Call { callee: Box<ExprView>, args: Seq<ExprView>, span: Span },
    Index { object: Box<ExprView>, index: Box<ExprView>, span: Span },
    Member { object: Box<ExprView>, field: Seq<char>, span: Span },
    Array(Seq<ExprView>, Span),
    Cast { expr: Box<ExprView>, ty: TypeView, span: Span },
    IfExpr {
        condition: Box<ExprView>,
        then_branch: Box<StmtView>,
        else_branch: Option<Box<StmtView>>,
        span: Span,
    },
    Lambda { params: Seq<(Seq<char>, Option<TypeView>)>, body: Box<ExprView>, span: Span },
    Typed { expr: Box<ExprView>, ty: TypeView, span: Span },
}

/// The mathematical value of a statement.
pub enum StmtView {
    Let { name: Seq<char>, ty: Option<TypeView>, init: Option<ExprView>, span: Span },
    Assign { target: ExprView, value: ExprView, span: Span },
    ExprStmt(ExprView, Span),
    Block(Seq<StmtView>, Span),
    If {
        condition: ExprView,
        then_branch: Box<StmtView>,
        else_branch: Option<Box<StmtView>>,
        span: Span,
    },
    While { condition: ExprView, body: Box<StmtView>, span: Span },
    For { var: Seq<char>, iterable: ExprView, body: Box<StmtView>, span: Span },
    Return(Option<ExprView>, Span),
    Break(Span),
    Continue(Span),
    FnDecl {
        name: Seq<char>,
        params: Seq<(Seq<char>, Option<TypeView>)>,
        return_type: Option<TypeView>,
        body: Box<StmtView>,
        span: Span,
    },
    StructDecl { name: Seq<char>, fields: Seq<(Seq<char>, TypeView)>, span: Span },
}

pub open spec fn params_view(s: Seq<(String, Option<Type>)>) -> Seq<(Seq<char>, Option<TypeView>)> {
    Seq::new(s.len(), |i: int| (s[i].0@, opt_type_view(s[i].1)))
}

pub open spec fn struct_fields_view(s: Seq<(String, Type)>) -> Seq<(Seq<char>, TypeView)> {
    Seq::new(s.len(), |i: int| (s[i].0@, s[i].1@))
}

pub open spec fn expr_view(e: Expr) -> ExprView
    decreases e,
{
    match e {
        Expr::IntLiteral(v, s) => ExprView::IntLiteral(v, s),
        Expr::FloatLiteral(t, s) => ExprView::FloatLiteral(t@, s),
        Expr::StringLiteral(t, s) => ExprView::StringLiteral(t@, s),
        Expr::BoolLiteral(b, s) => ExprView::BoolLiteral(b, s),
        Expr::NullLiteral(s) => ExprView::NullLiteral(s),
        Expr::Ident(n, s) => ExprView::Ident(n@, s),
        Expr::Binary { op, left, right, span } => ExprView::Binary {
            op,
            left: Box::new(expr_view(*left)),
            right: Box::new(expr_view(*right)),
            span,
        },
        Expr::Unary { op, operand, span } => ExprView::Unary {
            op,
            operand: Box::new(expr_view(*operand)),
            span,
        },
        Expr::Call { callee, args, span } => ExprView::Call {
            callee: Box::new(expr_view(*callee)),
            args: exprs_view(args@),
            span,
        },
        Expr::Index { object, index, span } => ExprView::Index {
            object: Box::new(expr_view(*object)),
            index: Box::new(expr_view(*index)),
            span,
        },
        Expr::Member { object, field, span } => ExprView::Member {
            object: Box::new(expr_view(*object)),
            field: field@,
            span,
        },
        Expr::Array(es, s) => ExprView::Array(exprs_view(es@), s),
        Expr::Cast { expr, ty, span } => ExprView::Cast { expr: Box::new(expr_view(*expr)), ty: ty@, span },
        Expr::IfExpr { condition, then_branch, else_branch, span } => ExprView::IfExpr {
            condition: Box::new(expr_view(*condition)),
            then_branch: Box::new(stmt_view(*then_branch)),
            else_branch: match else_branch {
                Some(b) => Some(Box::new(stmt_view(*b))),
                None => None,
            },
            span,
        },
        Expr::Lambda { params, body, span } => ExprView::Lambda {
            params: params_view(params@),
            body: Box::new(expr_view(*body)),
            span,
        },
        Expr::Typed { expr, ty, span } => ExprView::Typed { expr: Box::new(expr_view(*expr)), ty: ty@, span },
    }
}

pub open spec fn exprs_view(s: Seq<Expr>) -> Seq<ExprView>
    decreases s,
{
    if s.len() == 0 {
        Seq::empty()
    } else {
        seq![expr_view(s[0])] + exprs_view(s.subrange(1, s.len() as int))
    }
}

pub open spec fn stmt_view(st: Stmt) -> StmtView
    decreases st,
{
    match st {
        Stmt::Let { name, ty, init, span } => StmtView::Let {
            name: name@,
            ty: opt_type_view(ty),
            init: match init {
                Some(e) => Some(expr_view(e)),
                None => None,
            },
            span,
        },
        Stmt::Assign { target, value, span } => StmtView::Assign {
            target: expr_view(target),
            value: expr_view(value),
            span,
        },
        Stmt::ExprStmt(e, s) => StmtView::ExprStmt(expr_view(e), s),
        Stmt::Block(ss, s) => StmtView::Block(stmts_view(ss@), s),
        Stmt::If { condition, then_branch, else_branch, span } => StmtView::If {
            condition: expr_view(condition),
            then_branch: Box::new(stmt_view(*then_branch)),
            else_branch: match else_branch {
                Some(b) => Some(Box::new(stmt_view(*b))),
                None => None,
            },
            span,
        },
        Stmt::While { condition, body, span } => StmtView::While {
            condition: expr_view(condition),
            body: Box::new(stmt_view(*body)),
            span,
        },
        Stmt::For { var, iterable, body, span } => StmtView::For {
            var: var@,
            iterable: expr_view(iterable),
            body: Box::new(stmt_view(*body)),
            span,
        },
        Stmt::Return(e, s) => StmtView::Return(
            match e {
                Some(e) => Some(expr_view(e)),
                None => None,
            },
            s,
        ),
        Stmt::Break(s) => StmtView::Break(s),
        Stmt::Continue(s) => StmtView::Continue(s),
        Stmt::FnDecl { name, params, return_type, body, span } => StmtView::FnDecl {
            name: name@,
            params: params_view(params@),
            return_type: opt_type_view(return_type),
            body: Box::new(stmt_view(*body)),
            span,
        },
        Stmt::StructDecl { name, fields, span } => StmtView::StructDecl {
            name: name@,
            fields: struct_fields_view(fields@),
            span,
        },
    }
}

pub open spec fn stmts_view(s: Seq<Stmt>) -> Seq<StmtView>
    decreases s,
{
    if s.len() == 0 {
        Seq::empty()
    } else {
        seq![stmt_view(s[0])] + stmts_view(s.subrange(1, s.len() as int))
    }
}

impl View for Expr {
    type V = ExprView;

    open spec fn view(&self) -> ExprView {
        expr_view(*self)
    }
}

impl View for Stmt {
    type V = StmtView;

    open spec fn view(&self) -> StmtView {
        stmt_view(*self)
    }
}

pub proof fn lemma_exprs_view(s: Seq<Expr>)
    ensures
        exprs_view(s).len() == s.len(),
        forall|i: int| 0 <= i < s.len() ==> #[trigger] exprs_view(s)[i] == expr_view(s[i]),
    decreases s.len(),
{
    if s.len() > 0 {
        lemma_exprs_view(s.subrange(1, s.len() as int));
    }
}

pub proof fn lemma_stmts_view(s: Seq<Stmt>)
    ensures
        stmts_view(s).len() == s.len(),
        forall|i: int| 0 <= i < s.len() ==> #[trigger] stmts_view(s)[i] == stmt_view(s[i]),
    decreases s.len(),
{
    if s.len() > 0 {
        lemma_stmts_view(s.subrange(1, s.len() as int));
    }
}

pub proof fn lemma_exprs_view_push(s: Seq<Expr>, x: Expr)
    ensures
        exprs_view(s.push(x)) == exprs_view(s).push(expr_view(x)),
{
    lemma_exprs_view(s);
    lemma_exprs_view(s.push(x));
    assert(exprs_view(s.push(x)) =~= exprs_view(s).push(expr_view(x)));
}

pub proof fn lemma_stmts_view_push(s: Seq<Stmt>, x: Stmt)
    ensures
        stmts_view(s.push(x)) == stmts_view(s).push(stmt_view(x)),
{
    lemma_stmts_view(s);
    lemma_stmts_view(s.push(x));
    assert(stmts_view(s.push(x)) =~= stmts_view(s).push(stmt_view(x)));
}

/// The number of nodes of an expression (a function declaration also counts its parameters).
pub open spec fn expr_size(e: ExprView) -> nat
    decreases e, 0nat,
{
    1 + match e {
        ExprView::Binary { left, right, .. } => expr_size(*left) + expr_size(*right),
        ExprView::Unary { operand, .. } => expr_size(*operand),
        ExprView::Call { callee, args, .. } => expr_size(*callee) + exprs_size(args),
        ExprView::Index { object, index, .. } => expr_size(*object) + expr_size(*index),
        ExprView::Member { object, .. } => expr_size(*object),
        ExprView::Array(es, _) => exprs_size(es),
        ExprView::Cast { expr, .. } => expr_size(*expr),
        ExprView::IfExpr { condition, then_branch, else_branch, .. } => expr_size(*condition) + stmt_size(*then_branch)
            + match else_branch {
            Some(b) => stmt_size(*b),
            None => 0,
        },
        ExprView::Lambda { body, .. } => expr_size(*body),
        ExprView::Typed { expr, .. } => expr_size(*expr),
        _ => 0,
    }
}

pub open spec fn exprs_size(s: Seq<ExprView>) -> nat
    decreases s, 1nat,
{
    if s.len() == 0 {
        0
    } else {
        expr_size(s[0]) + exprs_size(s.subrange(1, s.len() as int))
    }
}

pub open spec fn stmt_size(st: StmtView) -> nat
    decreases st, 0nat,
{
    1 + match st {
        StmtView::Let { init, .. } => match init {
            Some(e) => expr_size(e),
            None => 0,
        },
        StmtView::Assign { target, value, .. } => expr_size(target) + expr_size(value),
        StmtView::ExprStmt(e, _) => expr_size(e),
        StmtView::Block(ss, _) => stmts_size(ss),
        StmtView::If { condition, then_branch, else_branch, .. } => expr_size(condition) + stmt_size(*then_branch)
            + match else_branch {
            Some(b) => stmt_size(*b),
            None => 0,
        },
        StmtView::While { condition, body, .. } => expr_size(condition) + stmt_size(*body),
        StmtView::For { iterable, body, .. } => expr_size(iterable) + stmt_size(*body),
        StmtView::Return(v, _) => match v {
            Some(e) => expr_size(e),
            None => 0,
        },
        StmtView::FnDecl { params, body, .. } => params.len() + stmt_size(*body),
        _ => 0,
    }
}

pub open spec fn stmts_size(s: Seq<StmtView>) -> nat
    decreases s, 1nat,
{
    if s.len() == 0 {
        0
    } else {
        stmt_size(s[0]) + stmts_size(s.subrange(1, s.len() as int))
    }
}

/// The size of the remaining elements from `i` on is the size of element `i` plus that of
/// the elements after it.
pub proof fn lemma_exprs_size_step(s: Seq<ExprView>, i: int)
    requires
        0 <= i < s.len(),
    ensures
        exprs_size(s.subrange(i, s.len() as int)) == expr_size(s[i]) + exprs_size(
            s.subrange(i + 1, s.len() as int),
        ),
{
    let t = s.subrange(i, s.len() as int);
    assert(t.subrange(1, t.len() as int) =~= s.subrange(i + 1, s.len() as int));
    assert(t[0] == s[i]);
}

pub proof fn lemma_stmts_size_step(s: Seq<StmtView>, i: int)
    requires
        0 <= i < s.len(),
    ensures
        stmts_size(s.subrange(i, s.len() as int)) == stmt_size(s[i]) + stmts_size(
            s.subrange(i + 1, s.len() as int),
        ),
{
    let t = s.subrange(i, s.len() as int);
    assert(t.subrange(1, t.len() as int) =~= s.subrange(i + 1, s.len() as int));
    assert(t[0] == s[i]);
}

/// The span of an expression view.
pub open spec fn expr_span(e: ExprView) -> Span {
    match e {
        ExprView::IntLiteral(_, s) => s,
        ExprView::FloatLiteral(_, s) => s,
        ExprView::StringLiteral(_, s) => s,
        ExprView::BoolLiteral(_, s) => s,
        ExprView::NullLiteral(s) => s,
        ExprView::Ident(_, s) => s,
        ExprView::Binary { span, .. } => span,
        ExprView::Unary { span, .. } => span,
        ExprView::Call { span, .. } => span,
        ExprView::Index { span, .. } => span,
        ExprView::Member { span, .. } => span,
        ExprView::Array(_, s) => s,
        ExprView::Cast { span, .. } => span,
        ExprView::IfExpr { span, .. } => span,
        ExprView::Lambda { span, .. } => span,
        ExprView::Typed { span, .. } => span,
    }
}

/// The span of a statement view.
pub open spec fn stmt_span(st: StmtView) -> Span {
    match st {
        StmtView::Let { span, .. } => span,
        StmtView::Assign { span, .. } => span,
        StmtView::ExprStmt(_, s) => s,
        StmtView::Block(_, s) => s,
        StmtView::If { span, .. } => span,
        StmtView::While { span, .. } => span,
        StmtView::For { span, .. } => span,
        StmtView::Return(_, s) => s,
        StmtView::Break(s) => s,
        StmtView::Continue(s) => s,
        StmtView::FnDecl { span, .. } => span,
        StmtView::StructDecl { span, .. } => span,
    }
}

impl Expr {
    pub fn span(&self) -> (r: &Span)
        ensures
            *r == expr_span(self@),
    {
        match self {
            Expr::IntLiteral(_, s) => s,
            Expr::FloatLiteral(_, s) => s,
            Expr::StringLiteral(_, s) => s,
            Expr::BoolLiteral(_, s) => s,
            Expr::NullLiteral(s) => s,
            Expr::Ident(_, s) => s,
            Expr::Binary { span, .. } => span,
            Expr::Unary { span, .. } => span,
            Expr::Call { span, .. } => span,
            Expr::Index { span, .. } => span,
            Expr::Member { span, .. } => span,
            Expr::Array(_, s) => s,
            Expr::Cast { span, .. } => span,
            Expr::IfExpr { span, .. } => span,
            Expr::Lambda { span, .. } => span,
            Expr::Typed { span, .. } => span,
        }
    }
}

impl Stmt {
    pub fn span(&self) -> (r: &Span)
        ensures
            *r == stmt_span(self@),
    {
        match self {
            Stmt::Let { span, .. } => span,
            Stmt::Assign { span, .. } => span,
            Stmt::ExprStmt(_, s) => s,
            Stmt::Block(_, s) => s,
            Stmt::If { span, .. } => span,
            Stmt::While { span, .. } => span,
            Stmt::For { span, .. } => span,
            Stmt::Return(_, s) => s,
            Stmt::Break(s) => s,
            Stmt::Continue(s) => s,
            Stmt::FnDecl { span, .. } => span,
            Stmt::StructDecl { span, .. } => span,
        }
    }
}


/// Top-level items in a module.
#[derive(Debug)]
pub enum Item {
    Function(Stmt),
    Struct(Stmt),
    Agent(AgentDecl),
    Expr(Expr),
}

/// Agent DSL declaration.
#[derive(Debug)]
pub struct AgentDecl {
    pub name: String,
    pub skills: Vec<SkillDecl>,
    pub triggers: Vec<TriggerDecl>,
    pub config: Vec<(String, Expr)>,
    pub span: Span,
}

/// Agent skill declaration.
#[derive(Debug)]
pub struct SkillDecl {
    pub name: String,
    pub handler: Expr,
    pub config: Vec<(String, Expr)>,
    pub span: Span,
}

/// Agent trigger declaration.
#[derive(Debug)]
pub struct TriggerDecl {
    pub event: String,
    pub guard: Option<Expr>,
    pub action: Expr,
    pub span: Span,
}

/// A full program / module.
#[derive(Debug)]
pub struct Program {
    pub items: Vec<Item>,
}

pub struct SkillDeclView {
    pub name: Seq<char>,
    pub handler: ExprView,
    pub config: Seq<(Seq<char>, ExprView)>,
    pub span: Span,
}

pub struct TriggerDeclView {
    pub event: Seq<char>,
    pub guard: Option<ExprView>,
    pub action: ExprView,
    pub span: Span,
}

pub struct AgentDeclView {
    pub name: Seq<char>,
    pub skills: Seq<SkillDeclView>,
    pub triggers: Seq<TriggerDeclView>,
    pub config: Seq<(Seq<char>, ExprView)>,
    pub span: Span,
}

pub enum ItemView {
    Function(StmtView),
    Struct(StmtView),
    Agent(AgentDeclView),
    Expr(ExprView),
}

pub open spec fn opt_expr_view(e: Option<Expr>) -> Option<ExprView> {
    match e {
        Some(e) => Some(e@),
        None => None,
    }
}

pub open spec fn config_view(s: Seq<(String, Expr)>) -> Seq<(Seq<char>, ExprView)> {
    Seq::new(s.len(), |i: int| (s[i].0@, s[i].1@))
}

impl View for SkillDecl {
    type V = SkillDeclView;

    open spec fn view(&self) -> SkillDeclView {
        SkillDeclView {
            name: self.name@,
            handler: self.handler@,
            config: config_view(self.config@),
            span: self.span,
        }
    }
}

impl View for TriggerDecl {
    type V = TriggerDeclView;

    open spec fn view(&self) -> TriggerDeclView {
        TriggerDeclView {
            event: self.event@,
            guard: opt_expr_view(self.guard),
            action: self.action@,
            span: self.span,
        }
    }
}

impl View for AgentDecl {
    type V = AgentDeclView;

    open spec fn view(&self) -> AgentDeclView {
        AgentDeclView {
            name: self.name@,
            skills: Seq::new(self.skills@.len(), |i: int| self.skills@[i]@),
            triggers: Seq::new(self.triggers@.len(), |i: int| self.triggers@[i]@),
            config: config_view(self.config@),
            span: self.span,
        }
    }
}

impl View for Item {
    type V = ItemView;

    open spec fn view(&self) -> ItemView {
        match self {
            Item::Function(s) => ItemView::Function(s@),
            Item::Struct(s) => ItemView::Struct(s@),
            Item::Agent(a) => ItemView::Agent(a@),
            Item::Expr(e) => ItemView::Expr(e@),
        }
    }
}

impl View for Program {
    type V = Seq<ItemView>;

    open spec fn view(&self) -> Seq<ItemView> {
        Seq::new(self.items@.len(), |i: int| self.items@[i]@)
    }
}

// ---- Identifiers ----

/// The identifiers of an expression, in the order a pre-order walk meets them: operands
/// left to right, the statements of a conditional expression included.
pub open spec fn expr_idents(e: ExprView) -> Seq<Seq<char>>
    decreases e,
{
    match e {
        ExprView::Ident(n, _) => seq![n],
        ExprView::Binary { left, right, .. } => expr_idents(*left) + expr_idents(*right),
        ExprView::Unary { operand, .. } => expr_idents(*operand),
        ExprView::Call { callee, args, .. } => expr_idents(*callee) + exprs_idents(args),
        ExprView::Index { object, index, .. } => expr_idents(*object) + expr_idents(*index),
        ExprView::Member { object, .. } => expr_idents(*object),
        ExprView::Array(es, _) => exprs_idents(es),
        ExprView::Cast { expr, .. } => expr_idents(*expr),
        ExprView::IfExpr { condition, then_branch, else_branch, .. } => expr_idents(*condition) + stmt_idents(
            *then_branch,
        ) + match else_branch {
            Some(b) => stmt_idents(*b),
            None => Seq::empty(),
        },
        ExprView::Lambda { body, .. } => expr_idents(*body),
        ExprView::Typed { expr, .. } => expr_idents(*expr),
        _ => Seq::empty(),
    }
}

pub open spec fn exprs_idents(es: Seq<ExprView>) -> Seq<Seq<char>>
    decreases es,
{
    if es.len() == 0 {
        Seq::empty()
    } else {
        expr_idents(es[0]) + exprs_idents(es.subrange(1, es.len() as int))
    }
}

/// The identifiers of the expressions of a statement, in walk order.
pub open spec fn stmt_idents(st: StmtView) -> Seq<Seq<char>>
    decreases st,
{
    match st {
        StmtView::Let { init, .. } => match init {
            Some(e) => expr_idents(e),
            None => Seq::empty(),
        },
        StmtView::Assign { target, value, .. } => expr_idents(target) + expr_idents(value),
        StmtView::ExprStmt(e, _) => expr_idents(e),
        StmtView::Block(ss, _) => stmts_idents(ss),
        StmtView::If { condition, then_branch, else_branch, .. } => expr_idents(condition) + stmt_idents(*then_branch)
            + match else_branch {
            Some(b) => stmt_idents(*b),
            None => Seq::empty(),
        },
        StmtView::While { condition, body, .. } => expr_idents(condition) + stmt_idents(*body),
        StmtView::For { iterable, body, .. } => expr_idents(iterable) + stmt_idents(*body),
        StmtView::Return(v, _) => match v {
            Some(e) => expr_idents(e),
            None => Seq::empty(),
        },
        StmtView::FnDecl { body, .. } => stmt_idents(*body),
        _ => Seq::empty(),
    }
}

pub open spec fn stmts_idents(ss: Seq<StmtView>) -> Seq<Seq<char>>
    decreases ss,
{
    if ss.len() == 0 {
        Seq::empty()
    } else {
        stmt_idents(ss[0]) + stmts_idents(ss.subrange(1, ss.len() as int))
    }
}

pub open spec fn names_view(s: Seq<String>) -> Seq<Seq<char>> {
    Seq::new(s.len(), |i: int| s[i]@)
}

proof fn lemma_exprs_idents_step(es: Seq<ExprView>, i: int)
    requires
        0 <= i < es.len(),
    ensures
        exprs_idents(es.subrange(i, es.len() as int)) == expr_idents(es[i]) + exprs_idents(
            es.subrange(i + 1, es.len() as int),
        ),
{
    assert(es.subrange(i, es.len() as int).subrange(1, es.len() - i) =~= es.subrange(i + 1, es.len() as int));
}

proof fn lemma_stmts_idents_step(ss: Seq<StmtView>, i: int)
    requires
        0 <= i < ss.len(),
    ensures
        stmts_idents(ss.subrange(i, ss.len() as int)) == stmt_idents(ss[i]) + stmts_idents(
            ss.subrange(i + 1, ss.len() as int),
        ),
{
    assert(ss.subrange(i, ss.len() as int).subrange(1, ss.len() - i) =~= ss.subrange(i + 1, ss.len() as int));
}

fn push_name(out: &mut Vec<String>, n: &String)
    ensures
        names_view(final(out)@) == names_view(old(out)@).push(n@),
{
    out.push(n.clone());
    assert(names_view(out@) =~= names_view(old(out)@).push(n@));
}

fn idents_exprs(es: &Vec<Expr>, out: &mut Vec<String>)
    ensures
        names_view(final(out)@) == names_view(old(out)@) + exprs_idents(exprs_view(es@)),
    decreases es, 1nat,
{
    let ghost ev = exprs_view(es@);
    proof {
        lemma_exprs_view(es@);
        assert(ev.subrange(0, ev.len() as int) =~= ev);
    }
    let ghost base = names_view(out@);
    let mut i: usize = 0;
    while i < es.len()
        invariant
            0 <= i <= es@.len(),
            ev == exprs_view(es@),
            ev.len() == es@.len(),
            forall|k: int| 0 <= k < ev.len() ==> #[trigger] ev[k] == es@[k]@,
            base + exprs_idents(ev) == names_view(out@) + exprs_idents(ev.subrange(i as int, ev.len() as int)),
        decreases es@.len() - i,
    {
        proof {
            lemma_exprs_idents_step(ev, i as int);
        }
        let ghost mid = names_view(out@);
        idents_expr(&es[i], out);
        proof {
            assert(mid + (expr_idents(ev[i as int]) + exprs_idents(ev.subrange(i + 1, ev.len() as int))) =~= (mid
                + expr_idents(ev[i as int])) + exprs_idents(ev.subrange(i + 1, ev.len() as int)));
        }
        i = i + 1;
    }
    assert(ev.subrange(ev.len() as int, ev.len() as int) =~= Seq::<ExprView>::empty());
    assert(names_view(out@) + Seq::<Seq<char>>::empty() =~= names_view(out@));
}

fn idents_stmts(ss: &Vec<Stmt>, out: &mut Vec<String>)
    ensures
        names_view(final(out)@) == names_view(old(out)@) + stmts_idents(stmts_view(ss@)),
    decreases ss, 1nat,
{
    let ghost sv = stmts_view(ss@);
    proof {
        lemma_stmts_view(ss@);
        assert(sv.subrange(0, sv.len() as int) =~= sv);
    }
    let ghost base = names_view(out@);
    let mut i: usize = 0;
    while i < ss.len()
        invariant
            0 <= i <= ss@.len(),
            sv == stmts_view(ss@),
            sv.len() == ss@.len(),
            forall|k: int| 0 <= k < sv.len() ==> #[trigger] sv[k] == ss@[k]@,
            base + stmts_idents(sv) == names_view(out@) + stmts_idents(sv.subrange(i as int, sv.len() as int)),
        decreases ss@.len() - i,
    {
        proof {
            lemma_stmts_idents_step(sv, i as int);
        }
        let ghost mid = names_view(out@);
        idents_stmt(&ss[i], out);
        proof {
            assert(mid + (stmt_idents(sv[i as int]) + stmts_idents(sv.subrange(i + 1, sv.len() as int))) =~= (mid
                + stmt_idents(sv[i as int])) + stmts_idents(sv.subrange(i + 1, sv.len() as int)));
        }
        i = i + 1;
    }
    assert(sv.subrange(sv.len() as int, sv.len() as int) =~= Seq::<StmtView>::empty());
    assert(names_view(out@) + Seq::<Seq<char>>::empty() =~= names_view(out@));
}

fn idents_expr(e: &Expr, out: &mut Vec<String>)
    ensures
        names_view(final(out)@) == names_view(old(out)@) + expr_idents(e@),
    decreases e, 0nat,
{
    let ghost base = names_view(out@);
    match e {
        Expr::Ident(n, _) => {
            push_name(out, n);
        },
        Expr::Binary { left, right, .. } => {
            idents_expr(left, out);
            idents_expr(right, out);
        },
        Expr::Unary { operand, .. } => idents_expr(operand, out),
        Expr::Call { callee, args, .. } => {
            idents_expr(callee, out);
            idents_exprs(args, out);
        },
        Expr::Index { object, index, .. } => {
            idents_expr(object, out);
            idents_expr(index, out);
        },
        Expr::Member { object, .. } => idents_expr(object, out),
        Expr::Array(es, _) => idents_exprs(es, out),
        Expr::Cast { expr, .. } => idents_expr(expr, out),
        Expr::IfExpr { condition, then_branch, else_branch, .. } => {
            idents_expr(condition, out);
            idents_stmt(then_branch, out);
            match else_branch {
                Some(b) => idents_stmt(b, out),
                None => {},
            }
        },
        Expr::Lambda { body, .. } => idents_expr(body, out),
        Expr::Typed { expr, .. } => idents_expr(expr, out),
        _ => {},
    }
    assert(names_view(out@) =~= base + expr_idents(e@));
}

fn idents_stmt(st: &Stmt, out: &mut Vec<String>)
    ensures
        names_view(final(out)@) == names_view(old(out)@) + stmt_idents(st@),
    decreases st, 0nat,
{
    let ghost base = names_view(out@);
    match st {
        Stmt::Let { init, .. } => match init {
            Some(e) => idents_expr(e, out),
            None => {},
        },
        Stmt::Assign { target, value, .. } => {
            idents_expr(target, out);
            idents_expr(value, out);
        },
        Stmt::ExprStmt(e, _) => idents_expr(e, out),
        Stmt::Block(ss, _) => idents_stmts(ss, out),
        Stmt::If { condition, then_branch, else_branch, .. } => {
            idents_expr(condition, out);
            idents_stmt(then_branch, out);
            match else_branch {
                Some(b) => idents_stmt(b, out),
                None => {},
            }
        },
        Stmt::While { condition, body, .. } => {
            idents_expr(condition, out);
            idents_stmt(body, out);
        },
        Stmt::For { iterable, body, .. } => {
            idents_expr(iterable, out);
            idents_stmt(body, out);
        },
        Stmt::Return(v, _) => match v {
            Some(e) => idents_expr(e, out),
            None => {},
        },
        Stmt::FnDecl { body, .. } => idents_stmt(body, out),
        _ => {},
    }
    assert(names_view(out@) =~= base + stmt_idents(st@));
}

/// Collect all identifier names used in expressions, in walk order.
pub fn collect_idents(expr: &Expr) -> (r: Vec<String>)
    ensures
        names_view(r@) == expr_idents(expr@),
{
    let mut idents: Vec<String> = Vec::new();
    assert(names_view(idents@) =~= Seq::<Seq<char>>::empty());
    idents_expr(expr, &mut idents);
    assert(names_view(idents@) =~= expr_idents(expr@));
    idents
}

// ---- The walk ----

/// A node met by the walk over a syntax tree.
pub enum Node<'a> {
    Expr(&'a Expr),
    Stmt(&'a Stmt),
    Item(&'a Item),
}

pub enum NodeView {
    Expr(ExprView),
    Stmt(StmtView),
    Item(ItemView),
}

impl<'a> View for Node<'a> {
    type V = NodeView;

    open spec fn view(&self) -> NodeView {
        match self {
            Node::Expr(e) => NodeView::Expr((**e)@),
            Node::Stmt(s) => NodeView::Stmt((**s)@),
            Node::Item(i) => NodeView::Item((**i)@),
        }
    }
}

pub open spec fn nodes_view<'a>(s: Seq<Node<'a>>) -> Seq<NodeView> {
    Seq::new(s.len(), |i: int| s[i]@)
}

/// The nodes of an expression in walk order: the node itself, then its children left to
/// right (the statements of a conditional expression included).
pub open spec fn expr_walk(e: ExprView) -> Seq<NodeView>
    decreases e,
{
    seq![NodeView::Expr(e)] + match e {
        ExprView::Binary { left, right, .. } => expr_walk(*left) + expr_walk(*right),
        ExprView::Unary { operand, .. } => expr_walk(*operand),
        ExprView::Call { callee, args, .. } => expr_walk(*callee) + exprs_walk(args),
        ExprView::Index { object, index, .. } => expr_walk(*object) + expr_walk(*index),
        ExprView::Member { object, .. } => expr_walk(*object),
        ExprView::Array(es, _) => exprs_walk(es),
        ExprView::Cast { expr, .. } => expr_walk(*expr),
        ExprView::IfExpr { condition, then_branch, else_branch, .. } => expr_walk(*condition) + stmt_walk(*then_branch)
            + match else_branch {
            Some(b) => stmt_walk(*b),
            None => Seq::empty(),
        },
        ExprView::Lambda { body, .. } => expr_walk(*body),
        ExprView::Typed { expr, .. } => expr_walk(*expr),
        _ => Seq::empty(),
    }
}

pub open spec fn exprs_walk(es: Seq<ExprView>) -> Seq<NodeView>
    decreases es,
{
    if es.len() == 0 {
        Seq::empty()
    } else {
        expr_walk(es[0]) + exprs_walk(es.subrange(1, es.len() as int))
    }
}

/// The nodes of a statement in walk order.
pub open spec fn stmt_walk(st: StmtView) -> Seq<NodeView>
    decreases st,
{
    seq![NodeView::Stmt(st)] + match st {
        StmtView::Let { init, .. } => match init {
            Some(e) => expr_walk(e),
            None => Seq::empty(),
        },
        StmtView::Assign { target, value, .. } => expr_walk(target) + expr_walk(value),
        StmtView::ExprStmt(e, _) => expr_walk(e),
        StmtView::Block(ss, _) => stmts_walk(ss),
        StmtView::If { condition, then_branch, else_branch, .. } => expr_walk(condition) + stmt_walk(*then_branch)
            + match else_branch {
            Some(b) => stmt_walk(*b),
            None => Seq::empty(),
        },
        StmtView::While { condition, body, .. } => expr_walk(condition) + stmt_walk(*body),
        StmtView::For { iterable, body, .. } => expr_walk(iterable) + stmt_walk(*body),
        StmtView::Return(v, _) => match v {
            Some(e) => expr_walk(e),
            None => Seq::empty(),
        },
        StmtView::FnDecl { body, .. } => stmt_walk(*body),
        _ => Seq::empty(),
    }
}

pub open spec fn stmts_walk(ss: Seq<StmtView>) -> Seq<NodeView>
    decreases ss,
{
    if ss.len() == 0 {
        Seq::empty()
    } else {
        stmt_walk(ss[0]) + stmts_walk(ss.subrange(1, ss.len() as int))
    }
}

/// The nodes of an item in walk order: the item, then the statement of a function or
/// struct, or the expression of an expression item.
pub open spec fn item_walk(i: ItemView) -> Seq<NodeView> {
    seq![NodeView::Item(i)] + match i {
        ItemView::Function(s) => stmt_walk(s),
        ItemView::Struct(s) => stmt_walk(s),
        ItemView::Expr(e) => expr_walk(e),
        ItemView::Agent(_) => Seq::empty(),
    }
}

proof fn lemma_exprs_walk_step(es: Seq<ExprView>, i: int)
    requires
        0 <= i < es.len(),
    ensures
        exprs_walk(es.subrange(i, es.len() as int)) == expr_walk(es[i]) + exprs_walk(es.subrange(i + 1, es.len() as int)),
{
    assert(es.subrange(i, es.len() as int).subrange(1, es.len() - i) =~= es.subrange(i + 1, es.len() as int));
}

proof fn lemma_stmts_walk_step(ss: Seq<StmtView>, i: int)
    requires
        0 <= i < ss.len(),
    ensures
        stmts_walk(ss.subrange(i, ss.len() as int)) == stmt_walk(ss[i]) + stmts_walk(ss.subrange(i + 1, ss.len() as int)),
{
    assert(ss.subrange(i, ss.len() as int).subrange(1, ss.len() - i) =~= ss.subrange(i + 1, ss.len() as int));
}

fn push_node<'a>(out: &mut Vec<Node<'a>>, n: Node<'a>)
    ensures
        nodes_view(final(out)@) == nodes_view(old(out)@).push(n@),
{
    let ghost nv = n@;
    out.push(n);
    assert(nodes_view(out@) =~= nodes_view(old(out)@).push(nv));
}

fn walk_exprs_into<'a>(es: &'a Vec<Expr>, out: &mut Vec<Node<'a>>)
    ensures
        nodes_view(final(out)@) == nodes_view(old(out)@) + exprs_walk(exprs_view(es@)),
    decreases es, 1nat,
{
    let ghost ev = exprs_view(es@);
    proof {
        lemma_exprs_view(es@);
        assert(ev.subrange(0, ev.len() as int) =~= ev);
    }
    let ghost base = nodes_view(out@);
    let mut i: usize = 0;
    while i < es.len()
        invariant
            0 <= i <= es@.len(),
            ev == exprs_view(es@),
            ev.len() == es@.len(),
            forall|k: int| 0 <= k < ev.len() ==> #[trigger] ev[k] == es@[k]@,
            base + exprs_walk(ev) == nodes_view(out@) + exprs_walk(ev.subrange(i as int, ev.len() as int)),
        decreases es@.len() - i,
    {
        proof {
            lemma_exprs_walk_step(ev, i as int);
        }
        let ghost mid = nodes_view(out@);
        walk_expr_into(&es[i], out);
        proof {
            assert(mid + (expr_walk(ev[i as int]) + exprs_walk(ev.subrange(i + 1, ev.len() as int))) =~= (mid
                + expr_walk(ev[i as int])) + exprs_walk(ev.subrange(i + 1, ev.len() as int)));
        }
        i = i + 1;
    }
    assert(ev.subrange(ev.len() as int, ev.len() as int) =~= Seq::<ExprView>::empty());
    assert(nodes_view(out@) + Seq::<NodeView>::empty() =~= nodes_view(out@));
}

fn walk_stmts_into<'a>(ss: &'a Vec<Stmt>, out: &mut Vec<Node<'a>>)
    ensures
        nodes_view(final(out)@) == nodes_view(old(out)@) + stmts_walk(stmts_view(ss@)),
    decreases ss, 1nat,
{
    let ghost sv = stmts_view(ss@);
    proof {
        lemma_stmts_view(ss@);
        assert(sv.subrange(0, sv.len() as int) =~= sv);
    }
    let ghost base = nodes_view(out@);
    let mut i: usize = 0;
    while i < ss.len()
        invariant
            0 <= i <= ss@.len(),
            sv == stmts_view(ss@),
            sv.len() == ss@.len(),
            forall|k: int| 0 <= k < sv.len() ==> #[trigger] sv[k] == ss@[k]@,
            base + stmts_walk(sv) == nodes_view(out@) + stmts_walk(sv.subrange(i as int, sv.len() as int)),
        decreases ss@.len() - i,
    {
        proof {
            lemma_stmts_walk_step(sv, i as int);
        }
        let ghost mid = nodes_view(out@);
        walk_stmt_into(&ss[i], out);
        proof {
            assert(mid + (stmt_walk(sv[i as int]) + stmts_walk(sv.subrange(i + 1, sv.len() as int))) =~= (mid
                + stmt_walk(sv[i as int])) + stmts_walk(sv.subrange(i + 1, sv.len() as int)));
        }
        i = i + 1;
    }
    assert(sv.subrange(sv.len() as int, sv.len() as int) =~= Seq::<StmtView>::empty());
    assert(nodes_view(out@) + Seq::<NodeView>::empty() =~= nodes_view(out@));
}

fn walk_expr_into<'a>(e: &'a Expr, out: &mut Vec<Node<'a>>)
    ensures
        nodes_view(final(out)@) == nodes_view(old(out)@) + expr_walk(e@),
    decreases e, 0nat,
{
    let ghost base = nodes_view(out@);
    push_node(out, Node::Expr(e));
    match e {
        Expr::Binary { left, right, .. } => {
            walk_expr_into(left, out);
            walk_expr_into(right, out);
        },
        Expr::Unary { operand, .. } => walk_expr_into(operand, out),
        Expr::Call { callee, args, .. } => {
            walk_expr_into(callee, out);
            walk_exprs_into(args, out);
        },
        Expr::Index { object, index, .. } => {
            walk_expr_into(object, out);
            walk_expr_into(index, out);
        },
        Expr::Member { object, .. } => walk_expr_into(object, out),
        Expr::Array(es, _) => walk_exprs_into(es, out),
        Expr::Cast { expr, .. } => walk_expr_into(expr, out),
        Expr::IfExpr { condition, then_branch, else_branch, .. } => {
            walk_expr_into(condition, out);
            walk_stmt_into(then_branch, out);
            match else_branch {
                Some(b) => walk_stmt_into(b, out),
                None => {},
            }
        },
        Expr::Lambda { body, .. } => walk_expr_into(body, out),
        Expr::Typed { expr, .. } => walk_expr_into(expr, out),
        _ => {},
    }
    assert(nodes_view(out@) =~= base + expr_walk(e@));
}

fn walk_stmt_into<'a>(st: &'a Stmt, out: &mut Vec<Node<'a>>)
    ensures
        nodes_view(final(out)@) == nodes_view(old(out)@) + stmt_walk(st@),
    decreases st, 0nat,
{
    let ghost base = nodes_view(out@);
    push_node(out, Node::Stmt(st));
    match st {
        Stmt::Let { init, .. } => match init {
            Some(e) => walk_expr_into(e, out),
            None => {},
        },
        Stmt::Assign { target, value, .. } => {
            walk_expr_into(target, out);
            walk_expr_into(value, out);
        },
        Stmt::ExprStmt(e, _) => walk_expr_into(e, out),
        Stmt::Block(ss, _) => walk_stmts_into(ss, out),
        Stmt::If { condition, then_branch, else_branch, .. } => {
            walk_expr_into(condition, out);
            walk_stmt_into(then_branch, out);
            match else_branch {
                Some(b) => walk_stmt_into(b, out),
                None => {},
            }
        },
        Stmt::While { condition, body, .. } => {
            walk_expr_into(condition, out);
            walk_stmt_into(body, out);
        },
        Stmt::For { iterable, body, .. } => {
            walk_expr_into(iterable, out);
            walk_stmt_into(body, out);
        },
        Stmt::Return(v, _) => match v {
            Some(e) => walk_expr_into(e, out),
            None => {},
        },
        Stmt::FnDecl { body, .. } => walk_stmt_into(body, out),
        _ => {},
    }
    assert(nodes_view(out@) =~= base + stmt_walk(st@));
}

/// The nodes of an expression in walk order: each node before its children, children left
/// to right.
pub fn walk_expr<'a>(e: &'a Expr) -> (r: Vec<Node<'a>>)
    ensures
        nodes_view(r@) == expr_walk(e@),
{
    let mut out: Vec<Node<'a>> = Vec::new();
    assert(nodes_view(out@) =~= Seq::<NodeView>::empty());
    walk_expr_into(e, &mut out);
    assert(nodes_view(out@) =~= expr_walk(e@));
    out
}

/// The nodes of a statement in walk order.
pub fn walk_stmt<'a>(st: &'a Stmt) -> (r: Vec<Node<'a>>)
    ensures
        nodes_view(r@) == stmt_walk(st@),
{
    let mut out: Vec<Node<'a>> = Vec::new();
    assert(nodes_view(out@) =~= Seq::<NodeView>::empty());
    walk_stmt_into(st, &mut out);
    assert(nodes_view(out@) =~= stmt_walk(st@));
    out
}

/// The nodes of an item in walk order.
pub fn walk_item<'a>(item: &'a Item) -> (r: Vec<Node<'a>>)
    ensures
        nodes_view(r@) == item_walk(item@),
{
    let mut out: Vec<Node<'a>> = Vec::new();
    assert(nodes_view(out@) =~= Seq::<NodeView>::empty());
    push_node(&mut out, Node::Item(item));
    match item {
        Item::Function(s) => walk_stmt_into(s, &mut out),
        Item::Struct(s) => walk_stmt_into(s, &mut out),
        Item::Expr(e) => walk_expr_into(e, &mut out),
        Item::Agent(_) => {},
    }
    assert(nodes_view(out@) =~= item_walk(item@));
    out
}


// ---- Sizes, counted up to a bound ----

/// The bound at which sizes stop being counted.
pub open spec fn size_cap() -> nat {
    (usize::MAX / 2) as nat
}

/// A size, or the bound where it is larger.
pub open spec fn capped(n: nat) -> nat {
    if n < size_cap() {
        n
    } else {
        size_cap()
    }
}

pub proof fn lemma_capped_sum(a: nat, b: nat)
    ensures
        capped(a + b) == capped(capped(a) + b),
        capped(a + b) == capped(a + capped(b)),
{
}

/// The sum of two counted sizes, counted.
pub fn add_capped(a: usize, b: usize) -> (r: usize)
    requires
        a <= size_cap(),
        b <= size_cap(),
    ensures
        r == capped(a as nat + b as nat),
{
    let cap = usize::MAX / 2;
    if a + b < cap {
        a + b
    } else {
        cap
    }
}

fn exprs_size_capped(es: &Vec<Expr>) -> (r: usize)
    ensures
        r == capped(exprs_size(exprs_view(es@))),
    decreases es, 1nat,
{
    let ghost ev = exprs_view(es@);
    proof {
        lemma_exprs_view(es@);
        assert(ev.subrange(0, ev.len() as int) =~= ev);
    }
    let mut acc: usize = 0;
    let mut i: usize = 0;
    while i < es.len()
        invariant
            0 <= i <= es@.len(),
            ev == exprs_view(es@),
            ev.len() == es@.len(),
            forall|k: int| 0 <= k < ev.len() ==> #[trigger] ev[k] == es@[k]@,
            acc <= size_cap(),
            capped(exprs_size(ev)) == capped(acc as nat + exprs_size(ev.subrange(i as int, ev.len() as int))),
        decreases es@.len() - i,
    {
        let c = expr_size_capped(&es[i]);
        proof {
            lemma_exprs_size_step(ev, i as int);
            let x = expr_size(ev[i as int]);
            let rest = exprs_size(ev.subrange(i + 1, ev.len() as int));
            lemma_capped_sum(acc as nat + x, rest);
            lemma_capped_sum(acc as nat, x);
            assert(acc + (x + rest) == (acc + x) + rest);
        }
        acc = add_capped(acc, c);
        i = i + 1;
    }
    assert(ev.subrange(ev.len() as int, ev.len() as int) =~= Seq::<ExprView>::empty());
    acc
}

fn stmts_size_capped(ss: &Vec<Stmt>) -> (r: usize)
    ensures
        r == capped(stmts_size(stmts_view(ss@))),
    decreases ss, 1nat,
{
    let ghost sv = stmts_view(ss@);
    proof {
        lemma_stmts_view(ss@);
        assert(sv.subrange(0, sv.len() as int) =~= sv);
    }
    let mut acc: usize = 0;
    let mut i: usize = 0;
    while i < ss.len()
        invariant
            0 <= i <= ss@.len(),
            sv == stmts_view(ss@),
            sv.len() == ss@.len(),
            forall|k: int| 0 <= k < sv.len() ==> #[trigger] sv[k] == ss@[k]@,
            acc <= size_cap(),
            capped(stmts_size(sv)) == capped(acc as nat + stmts_size(sv.subrange(i as int, sv.len() as int))),
        decreases ss@.len() - i,
    {
        let c = stmt_size_capped(&ss[i]);
        proof {
            lemma_stmts_size_step(sv, i as int);
            let x = stmt_size(sv[i as int]);
            let rest = stmts_size(sv.subrange(i + 1, sv.len() as int));
            lemma_capped_sum(acc as nat + x, rest);
            lemma_capped_sum(acc as nat, x);
            assert(acc + (x + rest) == (acc + x) + rest);
        }
        acc = add_capped(acc, c);
        i = i + 1;
    }
    assert(sv.subrange(sv.len() as int, sv.len() as int) =~= Seq::<StmtView>::empty());
    acc
}

/// The sum of three counted sizes, counted.
fn add3_capped(a: usize, b: usize, c: usize) -> (r: usize)
    requires
        a <= size_cap(),
        b <= size_cap(),
        c <= size_cap(),
    ensures
        r == capped(capped(a as nat + b as nat) + c as nat),
{
    add_capped(add_capped(a, b), c)
}

/// An expression's size, counted up to the bound.
pub fn expr_size_capped(e: &Expr) -> (r: usize)
    ensures
        r == capped(expr_size(e@)),
    decreases e, 0nat,
{
    let ghost ev = e@;
    let inner: usize = match e {
        Expr::Binary { left, right, .. } => add_capped(expr_size_capped(left), expr_size_capped(right)),
        Expr::Unary { operand, .. } => expr_size_capped(operand),
        Expr::Call { callee, args, .. } => add_capped(expr_size_capped(callee), exprs_size_capped(args)),
        Expr::Index { object, index, .. } => add_capped(expr_size_capped(object), expr_size_capped(index)),
        Expr::Member { object, .. } => expr_size_capped(object),
        Expr::Array(es, _) => exprs_size_capped(es),
        Expr::Cast { expr, .. } => expr_size_capped(expr),
        Expr::IfExpr { condition, then_branch, else_branch, .. } => {
            let eb = match else_branch {
                Some(b) => stmt_size_capped(b),
                None => 0,
            };
            add3_capped(expr_size_capped(condition), stmt_size_capped(then_branch), eb)
        },
        Expr::Lambda { body, .. } => expr_size_capped(body),
        Expr::Typed { expr, .. } => expr_size_capped(expr),
        _ => 0,
    };
    proof {
        let body_size: nat = (expr_size(ev) - 1) as nat;
        assert(expr_size(ev) == 1 + body_size);
        match ev {
            ExprView::Binary { left, right, .. } => lemma_capped_sum(expr_size(*left), expr_size(*right)),
            ExprView::Call { callee, args, .. } => lemma_capped_sum(expr_size(*callee), exprs_size(args)),
            ExprView::Index { object, index, .. } => lemma_capped_sum(expr_size(*object), expr_size(*index)),
            ExprView::IfExpr { condition, then_branch, else_branch, .. } => {
                let eb: nat = match else_branch {
                    Some(b) => stmt_size(*b),
                    None => 0,
                };
                lemma_capped_sum(expr_size(*condition), stmt_size(*then_branch));
                lemma_capped_sum(expr_size(*condition) + stmt_size(*then_branch), eb);
                lemma_capped_sum(capped(expr_size(*condition)) + capped(stmt_size(*then_branch)), eb);
            },
            _ => {},
        }
        assert(inner == capped(body_size));
        lemma_capped_sum(1, body_size);
    }
    add_capped(1, inner)
}

/// A statement's size, counted up to the bound.
pub fn stmt_size_capped(st: &Stmt) -> (r: usize)
    ensures
        r == capped(stmt_size(st@)),
    decreases st, 0nat,
{
    let ghost sv = st@;
    let inner: usize = match st {
        Stmt::Let { init, .. } => match init {
            Some(e) => expr_size_capped(e),
            None => 0,
        },
        Stmt::Assign { target, value, .. } => add_capped(expr_size_capped(target), expr_size_capped(value)),
        Stmt::ExprStmt(e, _) => expr_size_capped(e),
        Stmt::Block(ss, _) => stmts_size_capped(ss),
        Stmt::If { condition, then_branch, else_branch, .. } => {
            let eb = match else_branch {
                Some(b) => stmt_size_capped(b),
                None => 0,
            };
            add3_capped(expr_size_capped(condition), stmt_size_capped(then_branch), eb)
        },
        Stmt::While { condition, body, .. } => add_capped(expr_size_capped(condition), stmt_size_capped(body)),
        Stmt::For { iterable, body, .. } => add_capped(expr_size_capped(iterable), stmt_size_capped(body)),
        Stmt::Return(v, _) => match v {
            Some(e) => expr_size_capped(e),
            None => 0,
        },
        Stmt::FnDecl { params, body, .. } => {
            let np = if params.len() < usize::MAX / 2 {
                params.len()
            } else {
                usize::MAX / 2
            };
            add_capped(np, stmt_size_capped(body))
        },
        _ => 0,
    };
    proof {
        let body_size: nat = (stmt_size(sv) - 1) as nat;
        assert(stmt_size(sv) == 1 + body_size);
        match sv {
            StmtView::Assign { target, value, .. } => lemma_capped_sum(expr_size(target), expr_size(value)),
            StmtView::If { condition, then_branch, else_branch, .. } => {
                let eb: nat = match else_branch {
                    Some(b) => stmt_size(*b),
                    None => 0,
                };
                lemma_capped_sum(expr_size(condition), stmt_size(*then_branch));
                lemma_capped_sum(expr_size(condition) + stmt_size(*then_branch), eb);
                lemma_capped_sum(capped(expr_size(condition)) + capped(stmt_size(*then_branch)), eb);
            },
            StmtView::While { condition, body, .. } => lemma_capped_sum(expr_size(condition), stmt_size(*body)),
            StmtView::For { iterable, body, .. } => lemma_capped_sum(expr_size(iterable), stmt_size(*body)),
            StmtView::FnDecl { params, body, .. } => lemma_capped_sum(params.len(), stmt_size(*body)),
            _ => {},
        }
        assert(inner == capped(body_size));
        lemma_capped_sum(1, body_size);
    }
    add_capped(1, inner)
}

} // verus!

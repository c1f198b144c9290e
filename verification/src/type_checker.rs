// Type checking: simple type inference and unification.
use vstd::prelude::*;
use crate::ast::{
    BinOp, UnaryOp, Expr, Stmt, Item, Program, ExprView, StmtView, ItemView, expr_span, expr_size,
    exprs_size, stmt_size, stmts_size, exprs_view, stmts_view, lemma_exprs_view, lemma_stmts_view,
    lemma_exprs_size_step, lemma_stmts_size_step, params_view,
};
use crate::lexer::Span;
use crate::symbol_table::{
    SymbolKind, SymbolTable, SymbolTableView, Type, TypeView, type_text, types_view, fields_view,
    opt_type_view, lemma_types_view, lemma_fields_view, type_clone, type_eq,
};
use crate::text::{nat_decimal, u64_text, concat2, concat3, concat4};

verus! {

/// Type checking error.
#[derive(Debug, Clone)]
pub struct TypeError {
    pub message: String,
    pub span: Span,
}

/// The mathematical value of a type error.
pub struct TypeErrorView {
    pub message: Seq<char>,
    pub span: Span,
}

impl View for TypeError {
    type V = TypeErrorView;

    open spec fn view(&self) -> TypeErrorView {
        TypeErrorView { message: self.message@, span: self.span }
    }
}

/// Result of type checking.
pub type TypeResult<T> = Result<T, TypeError>;

pub open spec fn tres_view(r: TypeResult<Type>) -> Result<TypeView, TypeErrorView> {
    match r {
        Ok(t) => Ok(t@),
        Err(e) => Err(e@),
    }
}

pub open spec fn terr(message: Seq<char>, span: Span) -> TypeErrorView {
    TypeErrorView { message, span }
}

/// What checking reads and changes: the symbol table and the counter of fresh type variables.
pub struct CheckState {
    pub symbols: SymbolTableView,
    pub counter: nat,
}

/// The type given to what has no declared type.
pub open spec fn unknown_type() -> TypeView {
    TypeView::Named("unknown"@)
}

pub open spec fn is_numeric_spec(t: TypeView) -> bool {
    t is Int || t is Float
}

/// Type variables are compatible with everything but other, differently named, type
/// variables; other types only with themselves.
pub open spec fn compatible(expected: TypeView, actual: TypeView) -> bool {
    match (expected, actual) {
        (TypeView::Generic(a), TypeView::Generic(b)) => a == b,
        (TypeView::Generic(_), _) => true,
        (_, TypeView::Generic(_)) => true,
        _ => expected == actual,
    }
}

/// The type of a binary operation on operands of the given types.
pub open spec fn binary_type(op: BinOp, lt: TypeView, rt: TypeView, span: Span) -> Result<TypeView, TypeErrorView> {
    let both = type_text(lt) + " and "@ + type_text(rt);
    match op {
        BinOp::Add | BinOp::Sub | BinOp::Mul | BinOp::Div | BinOp::Mod => if !is_numeric_spec(lt)
            || !is_numeric_spec(rt) {
            Err(terr("arithmetic on non-numeric types: "@ + both, span))
        } else if lt == TypeView::Float || rt == TypeView::Float {
            Ok(TypeView::Float)
        } else {
            Ok(TypeView::Int)
        },
        BinOp::Eq | BinOp::Neq => if !compatible(lt, rt) {
            Err(terr("comparison of incompatible types: "@ + both, span))
        } else {
            Ok(TypeView::Bool)
        },
        BinOp::Lt | BinOp::Lte | BinOp::Gt | BinOp::Gte => if !is_numeric_spec(lt) || !is_numeric_spec(rt) {
            Err(terr("comparison on non-numeric types: "@ + both, span))
        } else {
            Ok(TypeView::Bool)
        },
        BinOp::And | BinOp::Or => if lt != TypeView::Bool || rt != TypeView::Bool {
            Err(terr("logical op requires bool, got "@ + both, span))
        } else {
            Ok(TypeView::Bool)
        },
        _ => Ok(TypeView::Int),
    }
}

/// Arithmetic on two numbers is typed the same whichever side each operand is on: float
/// where either operand is a float, integer where both are integers.  Comparisons of
/// numbers are booleans.
pub proof fn lemma_arithmetic_types(op: BinOp, lt: TypeView, rt: TypeView, span: Span)
    requires
        lt == TypeView::Int || lt == TypeView::Float,
        rt == TypeView::Int || rt == TypeView::Float,
    ensures
        op == BinOp::Add || op == BinOp::Sub || op == BinOp::Mul || op == BinOp::Div || op == BinOp::Mod ==> {
            &&& binary_type(op, lt, rt, span) is Ok
            &&& (binary_type(op, lt, rt, span)->Ok_0 == TypeView::Float <==> (lt == TypeView::Float
                || rt == TypeView::Float))
            &&& (binary_type(op, lt, rt, span)->Ok_0 == TypeView::Int <==> (lt == TypeView::Int && rt
                == TypeView::Int))
            &&& binary_type(op, lt, rt, span) == binary_type(op, rt, lt, span)
        },
        op == BinOp::Lt || op == BinOp::Lte || op == BinOp::Gt || op == BinOp::Gte ==> binary_type(op, lt, rt, span)
            == Ok::<TypeView, TypeErrorView>(TypeView::Bool),
{
}

/// Which operand types each operator accepts: arithmetic and orderings only numbers,
/// `&&` and `||` only booleans (and give a boolean), `==` and `!=` any two types of which
/// one could stand for the other (and give a boolean).  Negation keeps a number's type and
/// `!` turns a boolean into a boolean; both refuse other operand types.
pub proof fn lemma_operand_types(op: BinOp, lt: TypeView, rt: TypeView, span: Span, u: UnaryOp, t: TypeView)
    ensures
        op == BinOp::Add || op == BinOp::Sub || op == BinOp::Mul || op == BinOp::Div || op == BinOp::Mod
            || op == BinOp::Lt || op == BinOp::Lte || op == BinOp::Gt || op == BinOp::Gte ==> (binary_type(
            op,
            lt,
            rt,
            span,
        ) is Ok <==> (lt is Int || lt is Float) && (rt is Int || rt is Float)),
        op == BinOp::And || op == BinOp::Or ==> (binary_type(op, lt, rt, span) is Ok <==> lt == TypeView::Bool
            && rt == TypeView::Bool),
        op == BinOp::And || op == BinOp::Or ==> (binary_type(op, lt, rt, span) is Ok ==> binary_type(
            op,
            lt,
            rt,
            span,
        )->Ok_0 == TypeView::Bool),
        op == BinOp::Eq || op == BinOp::Neq ==> (binary_type(op, lt, rt, span) is Ok <==> (lt == rt || lt is Generic
            || rt is Generic) && !(lt is Generic && rt is Generic && lt != rt)),
        op == BinOp::Eq || op == BinOp::Neq ==> (binary_type(op, lt, rt, span) is Ok ==> binary_type(
            op,
            lt,
            rt,
            span,
        )->Ok_0 == TypeView::Bool),
        u == UnaryOp::Neg ==> (unary_type(u, t, span) is Ok <==> (t is Int || t is Float)),
        u == UnaryOp::Neg && unary_type(u, t, span) is Ok ==> unary_type(u, t, span)->Ok_0 == t,
        u == UnaryOp::Not ==> (unary_type(u, t, span) is Ok <==> t == TypeView::Bool),
        u == UnaryOp::Not && unary_type(u, t, span) is Ok ==> unary_type(u, t, span)->Ok_0 == TypeView::Bool,
{
}

/// Inferring arithmetic on two operands of number type: float where either operand's
/// type is float, integer otherwise.
pub proof fn lemma_infer_arithmetic(st: CheckState, op: BinOp, l: ExprView, r: ExprView, span: Span)
    requires
        op == BinOp::Add || op == BinOp::Sub || op == BinOp::Mul || op == BinOp::Div || op == BinOp::Mod,
        infer_spec(st, l).0 is Ok,
        infer_spec(infer_spec(st, l).1, r).0 is Ok,
        infer_spec(st, l).0->Ok_0 == TypeView::Int || infer_spec(st, l).0->Ok_0 == TypeView::Float,
        infer_spec(infer_spec(st, l).1, r).0->Ok_0 == TypeView::Int || infer_spec(infer_spec(st, l).1, r).0->Ok_0
            == TypeView::Float,
    ensures
        infer_spec(st, ExprView::Binary { op, left: Box::new(l), right: Box::new(r), span }).0 == Ok::<
            TypeView,
            TypeErrorView,
        >(
            if infer_spec(st, l).0->Ok_0 == TypeView::Float || infer_spec(infer_spec(st, l).1, r).0->Ok_0
                == TypeView::Float {
                TypeView::Float
            } else {
                TypeView::Int
            },
        ),
{
    let lt = infer_spec(st, l).0->Ok_0;
    let rt = infer_spec(infer_spec(st, l).1, r).0->Ok_0;
    lemma_arithmetic_types(op, lt, rt, span);
}

/// Arithmetic on a float literal and an integer literal, either way round, is a float;
/// on two integer literals an integer.
pub proof fn lemma_literal_arithmetic(st: CheckState, op: BinOp, l: ExprView, r: ExprView, span: Span)
    requires
        op == BinOp::Add || op == BinOp::Sub || op == BinOp::Mul || op == BinOp::Div || op == BinOp::Mod,
        l is IntLiteral || l is FloatLiteral,
        r is IntLiteral || r is FloatLiteral,
    ensures
        infer_spec(st, ExprView::Binary { op, left: Box::new(l), right: Box::new(r), span }).0 == Ok::<
            TypeView,
            TypeErrorView,
        >(if l is FloatLiteral || r is FloatLiteral { TypeView::Float } else { TypeView::Int }),
{
    lemma_infer_arithmetic(st, op, l, r, span);
}

/// The type of a unary operation on an operand of the given type.
pub open spec fn unary_type(op: UnaryOp, t: TypeView, span: Span) -> Result<TypeView, TypeErrorView> {
    match op {
        UnaryOp::Neg => if !is_numeric_spec(t) {
            Err(terr("negation of non-numeric type: "@ + type_text(t), span))
        } else {
            Ok(t)
        },
        UnaryOp::Not => if t != TypeView::Bool {
            Err(terr("not on non-bool type: "@ + type_text(t), span))
        } else {
            Ok(TypeView::Bool)
        },
        UnaryOp::BitNot => Ok(TypeView::Int),
    }
}

/// The declared parameter types, `unknown` where none is declared.
pub open spec fn param_types(params: Seq<(Seq<char>, Option<TypeView>)>) -> Seq<TypeView> {
    Seq::new(
        params.len(),
        |i: int|
            match params[i].1 {
                Some(t) => t,
                None => unknown_type(),
            },
    )
}

/// The type of the first field with the given name.
pub open spec fn find_field(fields: Seq<(Seq<char>, TypeView)>, name: Seq<char>) -> Option<TypeView>
    decreases fields.len(),
{
    if fields.len() == 0 {
        None
    } else if fields[0].0 == name {
        Some(fields[0].1)
    } else {
        find_field(fields.subrange(1, fields.len() as int), name)
    }
}

/// The symbol table after parameters `i..` are inserted in order.
pub open spec fn insert_params(t: SymbolTableView, params: Seq<(Seq<char>, Option<TypeView>)>, i: int) -> SymbolTableView
    decreases params.len() - i,
{
    if 0 <= i < params.len() {
        insert_params(t.insert(params[i].0, SymbolKind::Parameter, Some(param_types(params)[i])), params, i + 1)
    } else {
        t
    }
}

pub open spec fn with_symbols(st: CheckState, t: SymbolTableView) -> CheckState {
    CheckState { symbols: t, counter: st.counter }
}

/// The name of the type variable made from counter value `n`.
pub open spec fn type_var_name(n: nat) -> Seq<char> {
    "$t"@ + nat_decimal(n)
}

/// Inference of the type of an expression, and its effect on the state.
pub open spec fn infer_spec(st: CheckState, e: ExprView) -> (Result<TypeView, TypeErrorView>, CheckState)
    decreases e, 0nat,
{
    match e {
        ExprView::IntLiteral(..) => (Ok(TypeView::Int), st),
        ExprView::FloatLiteral(..) => (Ok(TypeView::Float), st),
        ExprView::StringLiteral(..) => (Ok(TypeView::String), st),
        ExprView::BoolLiteral(..) => (Ok(TypeView::Bool), st),
        ExprView::NullLiteral(..) => (Ok(TypeView::Null), st),
        ExprView::Ident(name, span) => match st.symbols.lookup(name) {
            Some(s) => (
                Ok(
                    match s.ty {
                        Some(t) => t,
                        None => unknown_type(),
                    },
                ),
                st,
            ),
            None => (Err(terr("undefined variable: "@ + name, span)), st),
        },
        ExprView::Binary { op, left, right, span } => {
            let (rl, s1) = infer_spec(st, *left);
            match rl {
                Err(err) => (Err(err), s1),
                Ok(lt) => {
                    let (rr, s2) = infer_spec(s1, *right);
                    match rr {
                        Err(err) => (Err(err), s2),
                        Ok(rt) => (binary_type(op, lt, rt, span), s2),
                    }
                },
            }
        },
        ExprView::Unary { op, operand, span } => {
            let (r, s1) = infer_spec(st, *operand);
            match r {
                Err(err) => (Err(err), s1),
                Ok(t) => (unary_type(op, t, span), s1),
            }
        },
        ExprView::Call { callee, args, span } => {
            let (rc, s1) = infer_spec(st, *callee);
            match rc {
                Err(err) => (Err(err), s1),
                Ok(ct) => match ct {
                    TypeView::Function(ps, ret) => if args.len() != ps.len() {
                        (
                            Err(
                                terr(
                                    "expected "@ + nat_decimal(ps.len()) + " args, got "@ + nat_decimal(args.len()),
                                    span,
                                ),
                            ),
                            s1,
                        )
                    } else {
                        let (ra, s2) = call_args_spec(s1, args, ps, 0);
                        match ra {
                            Some(err) => (Err(err), s2),
                            None => (Ok(*ret), s2),
                        }
                    },
                    _ => (Err(terr("calling non-function type: "@ + type_text(ct), span)), s1),
                },
            }
        },
        ExprView::Index { object, index, span } => {
            let (ro, s1) = infer_spec(st, *object);
            match ro {
                Err(err) => (Err(err), s1),
                Ok(ot) => {
                    let (ri, s2) = infer_spec(s1, *index);
                    match ri {
                        Err(err) => (Err(err), s2),
                        Ok(it) => (
                            match ot {
                                TypeView::Array(elem) => if it != TypeView::Int {
                                    Err(terr("index must be int, got "@ + type_text(it), span))
                                } else {
                                    Ok(*elem)
                                },
                                _ => Err(terr("indexing non-array type: "@ + type_text(ot), span)),
                            },
                            s2,
                        ),
                    }
                },
            }
        },
        ExprView::Member { object, field, span } => {
            let (ro, s1) = infer_spec(st, *object);
            match ro {
                Err(err) => (Err(err), s1),
                Ok(ot) => (
                    match ot {
                        TypeView::Struct(_, fields) => match find_field(fields, field) {
                            Some(t) => Ok(t),
                            None => Err(terr("struct has no field '"@ + field + "'"@, span)),
                        },
                        _ => Err(terr("member access on non-struct type: "@ + type_text(ot), span)),
                    },
                    s1,
                ),
            }
        },
        ExprView::Array(elems, _) => if elems.len() == 0 {
            (Ok(TypeView::Array(Box::new(unknown_type()))), st)
        } else {
            let (r0, s1) = infer_spec(st, elems[0]);
            match r0 {
                Err(err) => (Err(err), s1),
                Ok(et) => {
                    let (ra, s2) = array_rest_spec(s1, elems, 1, et);
                    match ra {
                        Some(err) => (Err(err), s2),
                        None => (Ok(TypeView::Array(Box::new(et))), s2),
                    }
                },
            }
        },
        ExprView::Cast { ty, .. } => (Ok(ty), st),
        ExprView::IfExpr { condition, then_branch, else_branch, span } => {
            let (rc, s1) = infer_spec(st, *condition);
            match rc {
                Err(err) => (Err(err), s1),
                Ok(ct) => if ct != TypeView::Bool {
                    (Err(terr("if condition must be bool, got "@ + type_text(ct), span)), s1)
                } else {
                    let (rt, s2) = check_spec(s1, *then_branch);
                    match rt {
                        Err(err) => (Err(err), s2),
                        Ok(tt) => match else_branch {
                            Some(b) => {
                                let (re, s3) = check_spec(s2, *b);
                                match re {
                                    Err(err) => (Err(err), s3),
                                    Ok(_) => (Ok(tt), s3),
                                }
                            },
                            None => (Ok(tt), s2),
                        },
                    }
                },
            }
        },
        ExprView::Lambda { params, body, .. } => {
            let (r, s1) = infer_spec(st, *body);
            match r {
                Err(err) => (Err(err), s1),
                Ok(rt) => (Ok(TypeView::Function(param_types(params), Box::new(rt))), s1),
            }
        },
        ExprView::Typed { ty, .. } => (Ok(ty), st),
    }
}

/// Checking call arguments `i..` against the parameter types: the first error, if any.
pub open spec fn call_args_spec(st: CheckState, args: Seq<ExprView>, ps: Seq<TypeView>, i: int) -> (Option<TypeErrorView>, CheckState)
    decreases args, args.len() - i,
{
    if 0 <= i < args.len() {
        let (r, s1) = infer_spec(st, args[i]);
        match r {
            Err(err) => (Some(err), s1),
            Ok(at) => if !compatible(ps[i], at) {
                (
                    Some(
                        terr(
                            "argument type mismatch: expected "@ + type_text(ps[i]) + ", got "@ + type_text(at),
                            expr_span(args[i]),
                        ),
                    ),
                    s1,
                )
            } else {
                call_args_spec(s1, args, ps, i + 1)
            },
        }
    } else {
        (None, st)
    }
}

/// Checking array elements `i..` against the type of the first: the first error, if any.
pub open spec fn array_rest_spec(st: CheckState, elems: Seq<ExprView>, i: int, et: TypeView) -> (Option<TypeErrorView>, CheckState)
    decreases elems, elems.len() - i,
{
    if 0 <= i < elems.len() {
        let (r, s1) = infer_spec(st, elems[i]);
        match r {
            Err(err) => (Some(err), s1),
            Ok(t) => if !compatible(et, t) {
                (
                    Some(
                        terr(
                            "array element type mismatch: "@ + type_text(et) + " vs "@ + type_text(t),
                            expr_span(elems[i]),
                        ),
                    ),
                    s1,
                )
            } else {
                array_rest_spec(s1, elems, i + 1, et)
            },
        }
    } else {
        (None, st)
    }
}

/// Checking statements `i..` of a block, the last one's type being its type.
pub open spec fn block_spec(st: CheckState, ss: Seq<StmtView>, i: int, last: TypeView) -> (Result<TypeView, TypeErrorView>, CheckState)
    decreases ss, ss.len() - i,
{
    if 0 <= i < ss.len() {
        let (r, s1) = check_spec(st, ss[i]);
        match r {
            Err(err) => (Err(err), s1),
            Ok(t) => block_spec(s1, ss, i + 1, t),
        }
    } else {
        (Ok(last), st)
    }
}

/// Binding a variable in the current scope.
pub open spec fn bind(st: CheckState, name: Seq<char>, t: TypeView) -> CheckState {
    with_symbols(st, st.symbols.insert(name, SymbolKind::Variable, Some(t)))
}

/// Checking a statement: its type and its effect on the state.
pub open spec fn check_spec(st: CheckState, s: StmtView) -> (Result<TypeView, TypeErrorView>, CheckState)
    decreases s, 0nat,
{
    match s {
        StmtView::Let { name, ty, init, .. } => match init {
            Some(ie) => {
                let (r, s1) = infer_spec(st, ie);
                match r {
                    Err(err) => (Err(err), s1),
                    Ok(it) => match ty {
                        Some(d) => if !compatible(d, it) {
                            (
                                Err(
                                    terr(
                                        "type mismatch: expected "@ + type_text(d) + ", got "@ + type_text(it),
                                        expr_span(ie),
                                    ),
                                ),
                                s1,
                            )
                        } else {
                            (Ok(it), bind(s1, name, it))
                        },
                        None => (Ok(it), bind(s1, name, it)),
                    },
                }
            },
            None => match ty {
                Some(d) => (Ok(d), bind(st, name, d)),
                None => {
                    let tv = TypeView::Generic(type_var_name(st.counter));
                    let s1 = CheckState { symbols: st.symbols, counter: st.counter + 1 };
                    (Ok(tv), bind(s1, name, tv))
                },
            },
        },
        StmtView::Assign { target, value, .. } => {
            let (rt, s1) = infer_spec(st, target);
            match rt {
                Err(err) => (Err(err), s1),
                Ok(tt) => {
                    let (rv, s2) = infer_spec(s1, value);
                    match rv {
                        Err(err) => (Err(err), s2),
                        Ok(vt) => if !compatible(tt, vt) {
                            (
                                Err(
                                    terr(
                                        "cannot assign "@ + type_text(vt) + " to "@ + type_text(tt),
                                        expr_span(target),
                                    ),
                                ),
                                s2,
                            )
                        } else {
                            (Ok(tt), s2)
                        },
                    }
                },
            }
        },
        StmtView::ExprStmt(e, _) => infer_spec(st, e),
        StmtView::Block(ss, _) => {
            let (r, s1) = block_spec(with_symbols(st, st.symbols.enter()), ss, 0, TypeView::Void);
            match r {
                Err(err) => (Err(err), s1),
                Ok(t) => (Ok(t), with_symbols(s1, s1.symbols.exit())),
            }
        },
        StmtView::If { condition, then_branch, else_branch, .. } => {
            let (rc, s1) = infer_spec(st, condition);
            match rc {
                Err(err) => (Err(err), s1),
                Ok(ct) => if ct != TypeView::Bool {
                    (Err(terr("if condition must be bool, got "@ + type_text(ct), expr_span(condition))), s1)
                } else {
                    let (rt, s2) = check_spec(s1, *then_branch);
                    match rt {
                        Err(err) => (Err(err), s2),
                        Ok(tt) => match else_branch {
                            Some(b) => {
                                let (re, s3) = check_spec(s2, *b);
                                match re {
                                    Err(err) => (Err(err), s3),
                                    Ok(et) => if tt != et {
                                        (
                                            Err(
                                                terr(
                                                    "if branches have different types: "@ + type_text(tt) + " vs "@
                                                        + type_text(et),
                                                    expr_span(condition),
                                                ),
                                            ),
                                            s3,
                                        )
                                    } else {
                                        (Ok(tt), s3)
                                    },
                                }
                            },
                            None => (Ok(tt), s2),
                        },
                    }
                },
            }
        },
        StmtView::While { condition, body, .. } => {
            let (rc, s1) = infer_spec(st, condition);
            match rc {
                Err(err) => (Err(err), s1),
                Ok(ct) => if ct != TypeView::Bool {
                    (Err(terr("while condition must be bool, got "@ + type_text(ct), expr_span(condition))), s1)
                } else {
                    check_spec(s1, *body)
                },
            }
        },
        StmtView::For { var, iterable, body, .. } => {
            let (ri, s1) = infer_spec(st, iterable);
            match ri {
                Err(err) => (Err(err), s1),
                Ok(it) => {
                    let elem = match it {
                        TypeView::Array(t) => *t,
                        _ => unknown_type(),
                    };
                    let s2 = with_symbols(s1, s1.symbols.enter().insert(var, SymbolKind::Variable, Some(elem)));
                    let (rb, s3) = check_spec(s2, *body);
                    match rb {
                        Err(err) => (Err(err), s3),
                        Ok(_) => (Ok(TypeView::Void), with_symbols(s3, s3.symbols.exit())),
                    }
                },
            }
        },
        StmtView::Return(value, _) => match value {
            Some(v) => infer_spec(st, v),
            None => (Ok(TypeView::Void), st),
        },
        StmtView::Break(_) => (Ok(TypeView::Void), st),
        StmtView::Continue(_) => (Ok(TypeView::Void), st),
        StmtView::FnDecl { params, return_type, body, .. } => {
            let s1 = with_symbols(st, insert_params(st.symbols.enter(), params, 0));
            let (rb, s2) = check_spec(s1, *body);
            match rb {
                Err(err) => (Err(err), s2),
                Ok(bt) => (
                    Ok(
                        TypeView::Function(
                            param_types(params),
                            Box::new(
                                match return_type {
                                    Some(r) => r,
                                    None => bt,
                                },
                            ),
                        ),
                    ),
                    with_symbols(s2, s2.symbols.exit()),
                ),
            }
        },
        StmtView::StructDecl { name, fields, .. } => (Ok(TypeView::Struct(name, fields)), st),
    }
}

/// The symbol a top-level item declares before any item is checked.
pub open spec fn register_item(t: SymbolTableView, item: ItemView) -> SymbolTableView {
    match item {
        ItemView::Function(StmtView::FnDecl { name, params, return_type, .. }) => t.insert(
            name,
            SymbolKind::Function,
            Some(
                TypeView::Function(
                    param_types(params),
                    Box::new(
                        match return_type {
                            Some(r) => r,
                            None => TypeView::Void,
                        },
                    ),
                ),
            ),
        ),
        ItemView::Struct(StmtView::StructDecl { name, fields, .. }) => t.insert(
            name,
            SymbolKind::Struct,
            Some(TypeView::Struct(name, fields)),
        ),
        _ => t,
    }
}

/// Registering items `i..` in order.
pub open spec fn register_items(t: SymbolTableView, items: Seq<ItemView>, i: int) -> SymbolTableView
    decreases items.len() - i,
{
    if 0 <= i < items.len() {
        register_items(register_item(t, items[i]), items, i + 1)
    } else {
        t
    }
}

/// Checking one top-level item.
pub open spec fn check_item_spec(st: CheckState, item: ItemView) -> (Result<TypeView, TypeErrorView>, CheckState) {
    match item {
        ItemView::Function(s) => check_spec(st, s),
        ItemView::Struct(s) => check_spec(st, s),
        ItemView::Expr(e) => infer_spec(st, e),
        ItemView::Agent(a) => (
            Ok(TypeView::Named("Agent"@)),
            with_symbols(st, st.symbols.insert(a.name, SymbolKind::Agent, Some(TypeView::Named("Agent"@)))),
        ),
    }
}

/// Checking items `i..`: the types of those that check, the errors of those that do not.
pub open spec fn check_items(
    st: CheckState,
    items: Seq<ItemView>,
    i: int,
    types: Seq<TypeView>,
    errors: Seq<TypeErrorView>,
) -> (Seq<TypeView>, Seq<TypeErrorView>, CheckState)
    decreases items.len() - i,
{
    if 0 <= i < items.len() {
        let (r, s1) = check_item_spec(st, items[i]);
        match r {
            Ok(t) => check_items(s1, items, i + 1, types.push(t), errors),
            Err(e) => check_items(s1, items, i + 1, types, errors.push(e)),
        }
    } else {
        (types, errors, st)
    }
}

/// Checking a program, given the errors recorded before: the types of its items or all the
/// errors recorded, the new state and the errors recorded after.
pub open spec fn check_program_spec(st: CheckState, errors: Seq<TypeErrorView>, items: Seq<ItemView>) -> (
    Result<Seq<TypeView>, Seq<TypeErrorView>>,
    CheckState,
    Seq<TypeErrorView>,
) {
    let st1 = with_symbols(st, register_items(st.symbols, items, 0));
    let (types, errs, st2) = check_items(st1, items, 0, Seq::empty(), errors);
    (
        if errs.len() == 0 {
            Ok(types)
        } else {
            Err(errs)
        },
        st2,
        errs,
    )
}

pub open spec fn item_size(item: ItemView) -> nat {
    1 + match item {
        ItemView::Function(s) => stmt_size(s),
        ItemView::Struct(s) => stmt_size(s),
        ItemView::Expr(e) => expr_size(e),
        ItemView::Agent(_) => 0,
    }
}

pub open spec fn items_size(items: Seq<ItemView>) -> nat
    decreases items.len(),
{
    if items.len() == 0 {
        0
    } else {
        item_size(items[0]) + items_size(items.subrange(1, items.len() as int))
    }
}

pub proof fn lemma_items_size_step(s: Seq<ItemView>, i: int)
    requires
        0 <= i < s.len(),
    ensures
        items_size(s.subrange(i, s.len() as int)) == item_size(s[i]) + items_size(s.subrange(i + 1, s.len() as int)),
{
    let t = s.subrange(i, s.len() as int);
    assert(t.subrange(1, t.len() as int) =~= s.subrange(i + 1, s.len() as int));
}

// ---- Unification ----

/// Unifying two types with at most `fuel` nested steps; `None` when that is not enough.
/// A bound variable is replaced by its binding; an unbound one is bound to the other type.
pub open spec fn unify_fuel(vars: Map<Seq<char>, TypeView>, t1: TypeView, t2: TypeView, fuel: nat) -> Option<
    (Result<TypeView, TypeErrorView>, Map<Seq<char>, TypeView>),
>
    decreases fuel, 0nat, 0int,
{
    if fuel == 0 {
        None
    } else {
        match (t1, t2) {
            (TypeView::Generic(v), _) => if vars.contains_key(v) {
                unify_fuel(vars, vars[v], t2, (fuel - 1) as nat)
            } else {
                Some((Ok(t2), vars.insert(v, t2)))
            },
            (_, TypeView::Generic(v)) => if vars.contains_key(v) {
                unify_fuel(vars, vars[v], t1, (fuel - 1) as nat)
            } else {
                Some((Ok(t1), vars.insert(v, t1)))
            },
            (TypeView::Int, TypeView::Int) => Some((Ok(TypeView::Int), vars)),
            (TypeView::Float, TypeView::Float) => Some((Ok(TypeView::Float), vars)),
            (TypeView::Bool, TypeView::Bool) => Some((Ok(TypeView::Bool), vars)),
            (TypeView::String, TypeView::String) => Some((Ok(TypeView::String), vars)),
            (TypeView::Void, TypeView::Void) => Some((Ok(TypeView::Void), vars)),
            (TypeView::Array(a), TypeView::Array(b)) => match unify_fuel(vars, *a, *b, (fuel - 1) as nat) {
                None => None,
                Some((Err(e), vs)) => Some((Err(e), vs)),
                Some((Ok(el), vs)) => Some((Ok(TypeView::Array(Box::new(el))), vs)),
            },
            (TypeView::Function(p1, r1), TypeView::Function(p2, r2)) => if p1.len() != p2.len() {
                Some(
                    (
                        Err(
                            terr(
                                "function arity mismatch: "@ + nat_decimal(p1.len()) + " vs "@ + nat_decimal(p2.len()),
                                Span { start: 0, end: 0, line: 1, col: 1 },
                            ),
                        ),
                        vars,
                    ),
                )
            } else {
                match unify_list(vars, p1, p2, 0, Seq::empty(), (fuel - 1) as nat) {
                    None => None,
                    Some((Err(e), vs)) => Some((Err(e), vs)),
                    Some((Ok(ps), vs)) => match unify_fuel(vs, *r1, *r2, (fuel - 1) as nat) {
                        None => None,
                        Some((Err(e), vs2)) => Some((Err(e), vs2)),
                        Some((Ok(r), vs2)) => Some((Ok(TypeView::Function(ps, Box::new(r))), vs2)),
                    },
                }
            },
            _ => Some(
                (
                    Err(
                        terr(
                            "cannot unify "@ + type_text(t1) + " with "@ + type_text(t2),
                            Span { start: 0, end: 0, line: 1, col: 1 },
                        ),
                    ),
                    vars,
                ),
            ),
        }
    }
}

/// Unifying parameter types `i..` pairwise, in order, after those in `acc`; the first
/// error stops it.
pub open spec fn unify_list(
    vars: Map<Seq<char>, TypeView>,
    p1: Seq<TypeView>,
    p2: Seq<TypeView>,
    i: int,
    acc: Seq<TypeView>,
    fuel: nat,
) -> Option<(Result<Seq<TypeView>, TypeErrorView>, Map<Seq<char>, TypeView>)>
    decreases fuel, 1nat, p1.len() - i,
{
    if 0 <= i < p1.len() {
        match unify_fuel(vars, p1[i], p2[i], fuel) {
            None => None,
            Some((Err(e), vs)) => Some((Err(e), vs)),
            Some((Ok(t), vs)) => unify_list(vs, p1, p2, i + 1, acc.push(t), fuel),
        }
    } else {
        Some((Ok(acc), vars))
    }
}

/// Unification of the two types ends: following the variables' bindings never leads back
/// to a variable being unified (where it does, unification would recurse without end).
pub open spec fn unify_terminates(vars: Map<Seq<char>, TypeView>, t1: TypeView, t2: TypeView) -> bool {
    exists|f: nat| (#[trigger] unify_fuel(vars, t1, t2, f)) is Some
}

/// The outcome of unification, where it ends: its result and the new bindings.
pub open spec fn unify_spec(vars: Map<Seq<char>, TypeView>, t1: TypeView, t2: TypeView) -> (
    Result<TypeView, TypeErrorView>,
    Map<Seq<char>, TypeView>,
) {
    unify_fuel(vars, t1, t2, choose|f: nat| (#[trigger] unify_fuel(vars, t1, t2, f)) is Some)->0
}

/// Substituting bound variables, with at most `fuel` nested steps.
pub open spec fn resolve_fuel(vars: Map<Seq<char>, TypeView>, t: TypeView, fuel: nat) -> Option<TypeView>
    decreases fuel, 0nat, 0int,
{
    if fuel == 0 {
        None
    } else {
        match t {
            TypeView::Generic(v) => if vars.contains_key(v) {
                resolve_fuel(vars, vars[v], (fuel - 1) as nat)
            } else {
                Some(t)
            },
            TypeView::Array(e) => match resolve_fuel(vars, *e, (fuel - 1) as nat) {
                Some(r) => Some(TypeView::Array(Box::new(r))),
                None => None,
            },
            TypeView::Function(ps, r) => match resolve_list(vars, ps, 0, Seq::empty(), (fuel - 1) as nat) {
                None => None,
                Some(rs) => match resolve_fuel(vars, *r, (fuel - 1) as nat) {
                    Some(rr) => Some(TypeView::Function(rs, Box::new(rr))),
                    None => None,
                },
            },
            _ => Some(t),
        }
    }
}

pub open spec fn resolve_list(vars: Map<Seq<char>, TypeView>, ps: Seq<TypeView>, i: int, acc: Seq<TypeView>, fuel: nat) -> Option<
    Seq<TypeView>,
>
    decreases fuel, 1nat, ps.len() - i,
{
    if 0 <= i < ps.len() {
        match resolve_fuel(vars, ps[i], fuel) {
            None => None,
            Some(r) => resolve_list(vars, ps, i + 1, acc.push(r), fuel),
        }
    } else {
        Some(acc)
    }
}

/// Resolution of the type ends (it does not where a variable's bindings lead back to it).
pub open spec fn resolve_terminates(vars: Map<Seq<char>, TypeView>, t: TypeView) -> bool {
    exists|f: nat| (#[trigger] resolve_fuel(vars, t, f)) is Some
}

pub open spec fn resolve_spec(vars: Map<Seq<char>, TypeView>, t: TypeView) -> TypeView {
    resolve_fuel(vars, t, choose|f: nat| (#[trigger] resolve_fuel(vars, t, f)) is Some)->0
}

/// Each of the table's symbol counter, its number of scopes and the type-variable counter
/// can grow by `n` without overflowing.
pub open spec fn fits(st: CheckState, n: nat) -> bool {
    &&& st.symbols.counter + n <= usize::MAX
    &&& st.symbols.scopes.len() + n <= usize::MAX
    &&& st.counter + n <= usize::MAX
}

/// None of the three grew by more than `n`.
pub open spec fn grown_within(a: CheckState, b: CheckState, n: nat) -> bool {
    &&& b.symbols.counter <= a.symbols.counter + n
    &&& b.symbols.scopes.len() <= a.symbols.scopes.len() + n
    &&& b.counter <= a.counter + n
}

/// The type variables, from an association list whose names are distinct.
pub open spec fn vars_map(s: Seq<(String, Type)>) -> Map<Seq<char>, TypeView>
    decreases s.len(),
{
    if s.len() == 0 {
        Map::empty()
    } else {
        vars_map(s.drop_last()).insert(s.last().0@, s.last().1@)
    }
}

pub open spec fn names_distinct(s: Seq<(String, Type)>) -> bool {
    forall|i: int, j: int| 0 <= i < j < s.len() ==> s[i].0@ != s[j].0@
}

/// A copy of a list of named fields.
fn clone_fields(fs: &Vec<(String, Type)>) -> (r: Vec<(String, Type)>)
    ensures
        fields_view(r@) == fields_view(fs@),
{
    let mut gs: Vec<(String, Type)> = Vec::new();
    let mut i: usize = 0;
    while i < fs.len()
        invariant
            0 <= i <= fs.len(),
            gs.len() == i,
            forall|j: int|
                0 <= j < i ==> (#[trigger] gs@[j]).0@ == fs@[j].0@ && gs@[j].1@ == fs@[j].1@,
        decreases fs.len() - i,
    {
        let name = fs[i].0.clone();
        let ty = type_clone(&fs[i].1);
        gs.push((name, ty));
        i = i + 1;
    }
    proof {
        lemma_fields_view(fs@);
        lemma_fields_view(gs@);
        assert(fields_view(fs@) =~= fields_view(gs@));
    }
    gs
}

fn unknown() -> (t: Type)
    ensures
        t@ == unknown_type(),
{
    proof {
        reveal_strlit("unknown");
    }
    Type::Named(String::from_str("unknown"))
}

/// `prefix` followed by the texts of two types joined by `sep`.
fn two_types_text(prefix: &str, a: &Type, sep: &str, b: &Type) -> (r: String)
    ensures
        r@ == prefix@ + type_text(a@) + sep@ + type_text(b@),
{
    let x = a.to_string();
    let y = b.to_string();
    let mut s = concat3(prefix, x.as_str(), sep);
    s.append(y.as_str());
    s
}

/// `prefix` followed by the text of a type.
fn type_message(prefix: &str, a: &Type) -> (r: String)
    ensures
        r@ == prefix@ + type_text(a@),
{
    let x = a.to_string();
    concat2(prefix, x.as_str())
}

fn is_bool_type(t: &Type) -> (r: bool)
    ensures
        r == (t@ == TypeView::Bool),
{
    match t {
        Type::Bool => true,
        _ => false,
    }
}

/// The type checker with inference and unification.
pub struct TypeChecker {
    symbols: SymbolTable,
    errors: Vec<TypeError>,
    /// For unification: type variables and the types they stand for.
    type_vars: Vec<(String, Type)>,
    var_counter: usize,
}

impl TypeChecker {
    pub closed spec fn state(&self) -> CheckState {
        CheckState { symbols: self.symbols@, counter: self.var_counter as nat }
    }

    /// The errors recorded by earlier checks of whole programs.
    pub closed spec fn errors(&self) -> Seq<TypeErrorView> {
        Seq::new(self.errors@.len(), |i: int| self.errors@[i]@)
    }

    /// What unification has bound each type variable to.
    pub closed spec fn vars(&self) -> Map<Seq<char>, TypeView> {
        vars_map(self.type_vars@)
    }

    pub closed spec fn wf(&self) -> bool {
        &&& self.symbols.wf()
        &&& names_distinct(self.type_vars@)
    }

    /// Everything but the state that checking changes is as it was.
    pub closed spec fn same_rest(&self, other: &TypeChecker) -> bool {
        &&& self.errors@ == other.errors@
        &&& self.type_vars@ == other.type_vars@
    }

    pub fn new() -> (tc: TypeChecker)
        ensures
            tc.wf(),
            tc.state() == (CheckState { symbols: SymbolTableView::new_table(), counter: 0 }),
            tc.errors() == Seq::<TypeErrorView>::empty(),
            tc.vars() == Map::<Seq<char>, TypeView>::empty(),
    {
        let tc = TypeChecker { symbols: SymbolTable::new(), errors: Vec::new(), type_vars: Vec::new(), var_counter: 0 };
        assert(tc.errors() =~= Seq::<TypeErrorView>::empty());
        tc
    }

    fn fresh_type_var(&mut self) -> (t: Type)
        requires
            old(self).wf(),
            old(self).var_counter < usize::MAX,
        ensures
            final(self).wf(),
            final(self).same_rest(old(self)),
            t@ == TypeView::Generic(type_var_name(old(self).state().counter)),
            final(self).state() == (CheckState { symbols: old(self).state().symbols, counter: old(self).state().counter + 1 }),
    {
        proof {
            reveal_strlit("$t");
        }
        let n = u64_text(self.var_counter as u64);
        let name = concat2("$t", n.as_str());
        self.var_counter = self.var_counter + 1;
        Type::Generic(name)
    }

    fn is_numeric(&self, ty: &Type) -> (r: bool)
        ensures
            r == is_numeric_spec(ty@),
    {
        match ty {
            Type::Int | Type::Float => true,
            _ => false,
        }
    }

    fn types_compatible(&mut self, expected: &Type, actual: &Type) -> (r: bool)
        ensures
            *final(self) == *old(self),
            r == compatible(expected@, actual@),
    {
        match (expected, actual) {
            (Type::Generic(a), Type::Generic(b)) => a.eq(b),
            (Type::Generic(_), _) | (_, Type::Generic(_)) => true,
            (a, b) => type_eq(a, b),
        }
    }

    fn binary_result(&self, op: BinOp, lt: &Type, rt: &Type, span: Span) -> (r: TypeResult<Type>)
        ensures
            tres_view(r) == binary_type(op, lt@, rt@, span),
    {
        proof {
            reveal_strlit(" and ");
            reveal_strlit("arithmetic on non-numeric types: ");
            reveal_strlit("comparison of incompatible types: ");
            reveal_strlit("comparison on non-numeric types: ");
            reveal_strlit("logical op requires bool, got ");
        }
        let ghost both = type_text(lt@) + " and "@ + type_text(rt@);
        match op {
            BinOp::Add | BinOp::Sub | BinOp::Mul | BinOp::Div | BinOp::Mod => {
                if !self.is_numeric(lt) || !self.is_numeric(rt) {
                    let m = two_types_text("arithmetic on non-numeric types: ", lt, " and ", rt);
                    assert(m@ =~= "arithmetic on non-numeric types: "@ + both);
                    return Err(TypeError { message: m, span });
                }
                let lf = match lt {
                    Type::Float => true,
                    _ => false,
                };
                let rf = match rt {
                    Type::Float => true,
                    _ => false,
                };
                if lf || rf {
                    Ok(Type::Float)
                } else {
                    Ok(Type::Int)
                }
            },
            BinOp::Eq | BinOp::Neq => {
                let ok = match (lt, rt) {
                    (Type::Generic(a), Type::Generic(b)) => a.eq(b),
                    (Type::Generic(_), _) | (_, Type::Generic(_)) => true,
                    (a, b) => type_eq(a, b),
                };
                if !ok {
                    let m = two_types_text("comparison of incompatible types: ", lt, " and ", rt);
                    assert(m@ =~= "comparison of incompatible types: "@ + both);
                    return Err(TypeError { message: m, span });
                }
                Ok(Type::Bool)
            },
            BinOp::Lt | BinOp::Lte | BinOp::Gt | BinOp::Gte => {
                if !self.is_numeric(lt) || !self.is_numeric(rt) {
                    let m = two_types_text("comparison on non-numeric types: ", lt, " and ", rt);
                    assert(m@ =~= "comparison on non-numeric types: "@ + both);
                    return Err(TypeError { message: m, span });
                }
                Ok(Type::Bool)
            },
            BinOp::And | BinOp::Or => {
                if !is_bool_type(lt) || !is_bool_type(rt) {
                    let m = two_types_text("logical op requires bool, got ", lt, " and ", rt);
                    assert(m@ =~= "logical op requires bool, got "@ + both);
                    return Err(TypeError { message: m, span });
                }
                Ok(Type::Bool)
            },
            _ => Ok(Type::Int),
        }
    }

    fn unary_result(&self, op: UnaryOp, t: Type, span: Span) -> (r: TypeResult<Type>)
        ensures
            tres_view(r) == unary_type(op, t@, span),
    {
        proof {
            reveal_strlit("negation of non-numeric type: ");
            reveal_strlit("not on non-bool type: ");
        }
        match op {
            UnaryOp::Neg => if !self.is_numeric(&t) {
                Err(TypeError { message: type_message("negation of non-numeric type: ", &t), span })
            } else {
                Ok(t)
            },
            UnaryOp::Not => if !is_bool_type(&t) {
                Err(TypeError { message: type_message("not on non-bool type: ", &t), span })
            } else {
                Ok(Type::Bool)
            },
            UnaryOp::BitNot => Ok(Type::Int),
        }
    }

    /// Infer the type of an expression.
    pub fn infer_expr(&mut self, expr: &Expr) -> (r: TypeResult<Type>)
        requires
            old(self).wf(),
            fits(old(self).state(), expr_size(expr@)),
        ensures
            final(self).wf(),
            final(self).same_rest(old(self)),
            (tres_view(r), final(self).state()) == infer_spec(old(self).state(), expr@),
            grown_within(old(self).state(), final(self).state(), expr_size(expr@)),
        decreases expr, 1nat,
    {
        match expr {
            Expr::IntLiteral(_, _) => Ok(Type::Int),
            Expr::FloatLiteral(_, _) => Ok(Type::Float),
            Expr::StringLiteral(_, _) => Ok(Type::String),
            Expr::BoolLiteral(_, _) => Ok(Type::Bool),
            Expr::NullLiteral(_) => Ok(Type::Null),
            Expr::Ident(name, span) => {
                proof {
                    reveal_strlit("undefined variable: ");
                }
                match self.symbols.lookup(name.as_str()) {
                    Some(s) => match &s.ty {
                        Some(t) => Ok(type_clone(t)),
                        None => Ok(unknown()),
                    },
                    None => Err(TypeError { message: concat2("undefined variable: ", name.as_str()), span: *span }),
                }
            },
            Expr::Binary { op, left, right, span } => {
                let lt = match self.infer_expr(left) {
                    Ok(t) => t,
                    Err(e) => return Err(e),
                };
                let rt = match self.infer_expr(right) {
                    Ok(t) => t,
                    Err(e) => return Err(e),
                };
                self.binary_result(*op, &lt, &rt, *span)
            },
            Expr::Unary { op, operand, span } => {
                let t = match self.infer_expr(operand) {
                    Ok(t) => t,
                    Err(e) => return Err(e),
                };
                self.unary_result(*op, t, *span)
            },
            Expr::Call { .. } => self.infer_call(expr),
            Expr::Index { .. } => self.infer_index(expr),
            Expr::Member { .. } => self.infer_member(expr),
            Expr::Array(..) => self.infer_array(expr),
            Expr::Cast { ty, .. } => Ok(type_clone(ty)),
            Expr::IfExpr { .. } => self.infer_if_expr(expr),
            Expr::Lambda { .. } => self.infer_lambda(expr),
            Expr::Typed { ty, .. } => Ok(type_clone(ty)),
        }
    }

    #[verifier::loop_isolation(false)]
    fn infer_call(&mut self, expr: &Expr) -> (r: TypeResult<Type>)
        requires
            old(self).wf(),
            fits(old(self).state(), expr_size(expr@)),
            expr is Call,
        ensures
            final(self).wf(),
            final(self).same_rest(old(self)),
            (tres_view(r), final(self).state()) == infer_spec(old(self).state(), expr@),
            grown_within(old(self).state(), final(self).state(), expr_size(expr@)),
        decreases expr, 0nat,
    {
        proof {
            reveal_strlit("expected ");
            reveal_strlit(" args, got ");
            reveal_strlit("argument type mismatch: expected ");
            reveal_strlit(", got ");
            reveal_strlit("calling non-function type: ");
        }
        match expr {
            Expr::Call { callee, args, span } => {
                let ct = match self.infer_expr(callee) {
                    Ok(t) => t,
                    Err(e) => return Err(e),
                };
                let ghost s1 = self.state();
                match ct {
                    Type::Function(param_types, ret_type) => {
                        proof {
                            lemma_types_view(param_types@);
                            lemma_exprs_view(args@);
                        }
                        let ghost argsv = exprs_view(args@);
                        let ghost psv = types_view(param_types@);
                        if args.len() != param_types.len() {
                            let a = u64_text(param_types.len() as u64);
                            let b = u64_text(args.len() as u64);
                            return Err(TypeError { message: concat4("expected ", a.as_str(), " args, got ", b.as_str()), span: *span });
                        }
                        assert(argsv.subrange(0, argsv.len() as int) =~= argsv);
                        let mut i: usize = 0;
                        while i < args.len()
                            invariant
                                self.wf(),
                                self.same_rest(old(self)),
                                0 <= i <= args.len(),
                                call_args_spec(s1, argsv, psv, 0) == call_args_spec(self.state(), argsv, psv, i as int),
                                grown_within(
                                    old(self).state(),
                                    self.state(),
                                    (1 + expr_size(callee@) + exprs_size(argsv) - exprs_size(argsv.subrange(i as int, argsv.len() as int))) as nat,
                                ),
                                exprs_size(argsv.subrange(i as int, argsv.len() as int)) <= exprs_size(argsv),
                            decreases args.len() - i,
                        {
                            proof {
                                lemma_exprs_size_step(argsv, i as int);
                            }
                            let at = match self.infer_expr(&args[i]) {
                                Ok(t) => t,
                                Err(e) => return Err(e),
                            };
                            if !self.types_compatible(&param_types[i], &at) {
                                let m = two_types_text("argument type mismatch: expected ", &param_types[i], ", got ", &at);
                                return Err(TypeError { message: m, span: *args[i].span() });
                            }
                            i = i + 1;
                        }
                        assert(argsv.subrange(i as int, argsv.len() as int) =~= Seq::<ExprView>::empty());
                        Ok(*ret_type)
                    },
                    _ => Err(TypeError { message: type_message("calling non-function type: ", &ct), span: *span }),
                }
            },
            _ => Ok(Type::Void),
        }
    }

    fn infer_index(&mut self, expr: &Expr) -> (r: TypeResult<Type>)
        requires
            old(self).wf(),
            fits(old(self).state(), expr_size(expr@)),
            expr is Index,
        ensures
            final(self).wf(),
            final(self).same_rest(old(self)),
            (tres_view(r), final(self).state()) == infer_spec(old(self).state(), expr@),
            grown_within(old(self).state(), final(self).state(), expr_size(expr@)),
        decreases expr, 0nat,
    {
        proof {
            reveal_strlit("index must be int, got ");
            reveal_strlit("indexing non-array type: ");
        }
        match expr {
            Expr::Index { object, index, span } => {
                let ot = match self.infer_expr(object) {
                    Ok(t) => t,
                    Err(e) => return Err(e),
                };
                let it = match self.infer_expr(index) {
                    Ok(t) => t,
                    Err(e) => return Err(e),
                };
                match ot {
                    Type::Array(elem) => {
                        let is_int = match it {
                            Type::Int => true,
                            _ => false,
                        };
                        if !is_int {
                            return Err(TypeError { message: type_message("index must be int, got ", &it), span: *span });
                        }
                        Ok(*elem)
                    },
                    _ => Err(TypeError { message: type_message("indexing non-array type: ", &ot), span: *span }),
                }
            },
            _ => Ok(Type::Void),
        }
    }

    #[verifier::loop_isolation(false)]
    fn infer_member(&mut self, expr: &Expr) -> (r: TypeResult<Type>)
        requires
            old(self).wf(),
            fits(old(self).state(), expr_size(expr@)),
            expr is Member,
        ensures
            final(self).wf(),
            final(self).same_rest(old(self)),
            (tres_view(r), final(self).state()) == infer_spec(old(self).state(), expr@),
            grown_within(old(self).state(), final(self).state(), expr_size(expr@)),
        decreases expr, 0nat,
    {
        proof {
            reveal_strlit("struct has no field '");
            reveal_strlit("'");
            reveal_strlit("member access on non-struct type: ");
        }
        match expr {
            Expr::Member { object, field, span } => {
                let ot = match self.infer_expr(object) {
                    Ok(t) => t,
                    Err(e) => return Err(e),
                };
                match &ot {
                    Type::Struct(_, fields) => {
                        proof {
                            lemma_fields_view(fields@);
                        }
                        let ghost fv = fields_view(fields@);
                        assert(fv.subrange(0, fv.len() as int) =~= fv);
                        let mut i: usize = 0;
                        while i < fields.len()
                            invariant
                                0 <= i <= fields.len(),
                                fv.len() == fields.len(),
                                forall|j: int| 0 <= j < fv.len() ==> #[trigger] fv[j] == (fields@[j].0@, fields@[j].1@),
                                find_field(fv, field@) == find_field(fv.subrange(i as int, fv.len() as int), field@),
                            decreases fields.len() - i,
                        {
                            let ghost rest = fv.subrange(i as int, fv.len() as int);
                            assert(rest.subrange(1, rest.len() as int) =~= fv.subrange(i + 1, fv.len() as int));
                            if fields[i].0.eq(field) {
                                return Ok(type_clone(&fields[i].1));
                            }
                            i = i + 1;
                        }
                        let m = concat3("struct has no field '", field.as_str(), "'");
                        Err(TypeError { message: m, span: *span })
                    },
                    _ => Err(TypeError { message: type_message("member access on non-struct type: ", &ot), span: *span }),
                }
            },
            _ => Ok(Type::Void),
        }
    }

    #[verifier::loop_isolation(false)]
    fn infer_array(&mut self, expr: &Expr) -> (r: TypeResult<Type>)
        requires
            old(self).wf(),
            fits(old(self).state(), expr_size(expr@)),
            expr is Array,
        ensures
            final(self).wf(),
            final(self).same_rest(old(self)),
            (tres_view(r), final(self).state()) == infer_spec(old(self).state(), expr@),
            grown_within(old(self).state(), final(self).state(), expr_size(expr@)),
        decreases expr, 0nat,
    {
        proof {
            reveal_strlit("array element type mismatch: ");
            reveal_strlit(" vs ");
        }
        match expr {
            Expr::Array(elems, _) => {
                proof {
                    lemma_exprs_view(elems@);
                }
                let ghost ev = exprs_view(elems@);
                if elems.len() == 0 {
                    return Ok(Type::Array(Box::new(unknown())));
                }
                proof {
                    assert(ev.subrange(0, ev.len() as int) =~= ev);
                    lemma_exprs_size_step(ev, 0);
                }
                let elem_type = match self.infer_expr(&elems[0]) {
                    Ok(t) => t,
                    Err(e) => return Err(e),
                };
                let ghost s1 = self.state();
                let mut i: usize = 1;
                while i < elems.len()
                    invariant
                        self.wf(),
                        self.same_rest(old(self)),
                        1 <= i <= elems.len(),
                        array_rest_spec(s1, ev, 1, elem_type@) == array_rest_spec(self.state(), ev, i as int, elem_type@),
                        grown_within(
                            old(self).state(),
                            self.state(),
                            (1 + exprs_size(ev) - exprs_size(ev.subrange(i as int, ev.len() as int))) as nat,
                        ),
                        exprs_size(ev.subrange(i as int, ev.len() as int)) <= exprs_size(ev),
                    decreases elems.len() - i,
                {
                    proof {
                        lemma_exprs_size_step(ev, i as int);
                    }
                    let t = match self.infer_expr(&elems[i]) {
                        Ok(t) => t,
                        Err(e) => return Err(e),
                    };
                    if !self.types_compatible(&elem_type, &t) {
                        let m = two_types_text("array element type mismatch: ", &elem_type, " vs ", &t);
                        return Err(TypeError { message: m, span: *elems[i].span() });
                    }
                    i = i + 1;
                }
                assert(ev.subrange(i as int, ev.len() as int) =~= Seq::<ExprView>::empty());
                Ok(Type::Array(Box::new(elem_type)))
            },
            _ => Ok(Type::Void),
        }
    }

    fn infer_if_expr(&mut self, expr: &Expr) -> (r: TypeResult<Type>)
        requires
            old(self).wf(),
            fits(old(self).state(), expr_size(expr@)),
            expr is IfExpr,
        ensures
            final(self).wf(),
            final(self).same_rest(old(self)),
            (tres_view(r), final(self).state()) == infer_spec(old(self).state(), expr@),
            grown_within(old(self).state(), final(self).state(), expr_size(expr@)),
        decreases expr, 0nat,
    {
        proof {
            reveal_strlit("if condition must be bool, got ");
        }
        match expr {
            Expr::IfExpr { condition, then_branch, else_branch, span } => {
                let ct = match self.infer_expr(condition) {
                    Ok(t) => t,
                    Err(e) => return Err(e),
                };
                if !is_bool_type(&ct) {
                    return Err(TypeError { message: type_message("if condition must be bool, got ", &ct), span: *span });
                }
                let tt = match self.check_stmt(then_branch) {
                    Ok(t) => t,
                    Err(e) => return Err(e),
                };
                match else_branch {
                    Some(b) => match self.check_stmt(b) {
                        Ok(_) => {},
                        Err(e) => return Err(e),
                    },
                    None => {},
                }
                Ok(tt)
            },
            _ => Ok(Type::Void),
        }
    }

    fn infer_lambda(&mut self, expr: &Expr) -> (r: TypeResult<Type>)
        requires
            old(self).wf(),
            fits(old(self).state(), expr_size(expr@)),
            expr is Lambda,
        ensures
            final(self).wf(),
            final(self).same_rest(old(self)),
            (tres_view(r), final(self).state()) == infer_spec(old(self).state(), expr@),
            grown_within(old(self).state(), final(self).state(), expr_size(expr@)),
        decreases expr, 0nat,
    {
        match expr {
            Expr::Lambda { params, body, .. } => {
                let ps = declared_param_types(params);
                let ret = match self.infer_expr(body) {
                    Ok(t) => t,
                    Err(e) => return Err(e),
                };
                Ok(Type::Function(ps, Box::new(ret)))
            },
            _ => Ok(Type::Void),
        }
    }
}

/// The declared parameter types, `unknown` where none is declared.
fn declared_param_types(params: &Vec<(String, Option<Type>)>) -> (r: Vec<Type>)
    ensures
        types_view(r@) == param_types(params_view(params@)),
{
    let mut out: Vec<Type> = Vec::new();
    let mut i: usize = 0;
    while i < params.len()
        invariant
            0 <= i <= params.len(),
            out.len() == i,
            forall|j: int|
                0 <= j < i ==> (#[trigger] out@[j])@ == param_types(params_view(params@))[j],
        decreases params.len() - i,
    {
        let t = match &params[i].1 {
            Some(t) => type_clone(t),
            None => unknown(),
        };
        out.push(t);
        i = i + 1;
    }
    proof {
        lemma_types_view(out@);
        assert(types_view(out@) =~= param_types(params_view(params@)));
    }
    out
}

impl TypeChecker {
    fn check_stmt(&mut self, stmt: &Stmt) -> (r: TypeResult<Type>)
        requires
            old(self).wf(),
            fits(old(self).state(), stmt_size(stmt@)),
        ensures
            final(self).wf(),
            final(self).same_rest(old(self)),
            (tres_view(r), final(self).state()) == check_spec(old(self).state(), stmt@),
            grown_within(old(self).state(), final(self).state(), stmt_size(stmt@)),
        decreases stmt, 1nat,
    {
        proof {
            reveal_strlit("cannot assign ");
            reveal_strlit(" to ");
            reveal_strlit("while condition must be bool, got ");
        }
        match stmt {
            Stmt::Let { .. } => self.check_let(stmt),
            Stmt::Assign { target, value, .. } => {
                let tt = match self.infer_expr(target) {
                    Ok(t) => t,
                    Err(e) => return Err(e),
                };
                let vt = match self.infer_expr(value) {
                    Ok(t) => t,
                    Err(e) => return Err(e),
                };
                if !self.types_compatible(&tt, &vt) {
                    let m = two_types_text("cannot assign ", &vt, " to ", &tt);
                    return Err(TypeError { message: m, span: *target.span() });
                }
                Ok(tt)
            },
            Stmt::ExprStmt(e, _) => self.infer_expr(e),
            Stmt::Block(..) => self.check_block(stmt),
            Stmt::If { .. } => self.check_if(stmt),
            Stmt::While { condition, body, .. } => {
                let ct = match self.infer_expr(condition) {
                    Ok(t) => t,
                    Err(e) => return Err(e),
                };
                if !is_bool_type(&ct) {
                    return Err(
                        TypeError {
                            message: type_message("while condition must be bool, got ", &ct),
                            span: *condition.span(),
                        },
                    );
                }
                self.check_stmt(body)
            },
            Stmt::For { .. } => self.check_for(stmt),
            Stmt::Return(value, _) => match value {
                Some(v) => self.infer_expr(v),
                None => Ok(Type::Void),
            },
            Stmt::Break(_) => Ok(Type::Void),
            Stmt::Continue(_) => Ok(Type::Void),
            Stmt::FnDecl { .. } => self.check_fn_decl(stmt),
            Stmt::StructDecl { name, fields, .. } => {
                let t = Type::Struct(name.clone(), clone_fields(fields));
                proof {
                    lemma_fields_view(fields@);
                    assert(fields_view(fields@) =~= crate::ast::struct_fields_view(fields@));
                }
                Ok(t)
            },
        }
    }

    fn check_let(&mut self, stmt: &Stmt) -> (r: TypeResult<Type>)
        requires
            old(self).wf(),
            fits(old(self).state(), stmt_size(stmt@)),
            stmt is Let,
        ensures
            final(self).wf(),
            final(self).same_rest(old(self)),
            (tres_view(r), final(self).state()) == check_spec(old(self).state(), stmt@),
            grown_within(old(self).state(), final(self).state(), stmt_size(stmt@)),
        decreases stmt, 0nat,
    {
        proof {
            reveal_strlit("type mismatch: expected ");
            reveal_strlit(", got ");
        }
        match stmt {
            Stmt::Let { name, ty, init, .. } => match init {
                Some(init_expr) => {
                    let it = match self.infer_expr(init_expr) {
                        Ok(t) => t,
                        Err(e) => return Err(e),
                    };
                    match ty {
                        Some(declared) => {
                            if !self.types_compatible(declared, &it) {
                                let m = two_types_text("type mismatch: expected ", declared, ", got ", &it);
                                return Err(TypeError { message: m, span: *init_expr.span() });
                            }
                        },
                        None => {},
                    }
                    proof {
                        self.symbols.lemma_view_wf();
                    }
                    self.symbols.insert(name.as_str(), SymbolKind::Variable, Some(type_clone(&it)));
                    Ok(it)
                },
                None => match ty {
                    Some(declared) => {
                        proof {
                            self.symbols.lemma_view_wf();
                        }
                        self.symbols.insert(name.as_str(), SymbolKind::Variable, Some(type_clone(declared)));
                        Ok(type_clone(declared))
                    },
                    None => {
                        let tv = self.fresh_type_var();
                        proof {
                            self.symbols.lemma_view_wf();
                        }
                        self.symbols.insert(name.as_str(), SymbolKind::Variable, Some(type_clone(&tv)));
                        Ok(tv)
                    },
                },
            },
            _ => Ok(Type::Void),
        }
    }

    #[verifier::loop_isolation(false)]
    fn check_block(&mut self, stmt: &Stmt) -> (r: TypeResult<Type>)
        requires
            old(self).wf(),
            fits(old(self).state(), stmt_size(stmt@)),
            stmt is Block,
        ensures
            final(self).wf(),
            final(self).same_rest(old(self)),
            (tres_view(r), final(self).state()) == check_spec(old(self).state(), stmt@),
            grown_within(old(self).state(), final(self).state(), stmt_size(stmt@)),
        decreases stmt, 0nat,
    {
        match stmt {
            Stmt::Block(stmts, _) => {
                proof {
                    lemma_stmts_view(stmts@);
                }
                let ghost sv = stmts_view(stmts@);
                self.symbols.enter_scope();
                let ghost s1 = self.state();
                assert(sv.subrange(0, sv.len() as int) =~= sv);
                let mut last = Type::Void;
                let mut i: usize = 0;
                while i < stmts.len()
                    invariant
                        self.wf(),
                        self.same_rest(old(self)),
                        0 <= i <= stmts.len(),
                        block_spec(s1, sv, 0, TypeView::Void) == block_spec(self.state(), sv, i as int, last@),
                        grown_within(
                            old(self).state(),
                            self.state(),
                            (1 + stmts_size(sv) - stmts_size(sv.subrange(i as int, sv.len() as int))) as nat,
                        ),
                        stmts_size(sv.subrange(i as int, sv.len() as int)) <= stmts_size(sv),
                    decreases stmts.len() - i,
                {
                    proof {
                        lemma_stmts_size_step(sv, i as int);
                    }
                    last = match self.check_stmt(&stmts[i]) {
                        Ok(t) => t,
                        Err(e) => return Err(e),
                    };
                    i = i + 1;
                }
                self.symbols.exit_scope();
                Ok(last)
            },
            _ => Ok(Type::Void),
        }
    }

    fn check_if(&mut self, stmt: &Stmt) -> (r: TypeResult<Type>)
        requires
            old(self).wf(),
            fits(old(self).state(), stmt_size(stmt@)),
            stmt is If,
        ensures
            final(self).wf(),
            final(self).same_rest(old(self)),
            (tres_view(r), final(self).state()) == check_spec(old(self).state(), stmt@),
            grown_within(old(self).state(), final(self).state(), stmt_size(stmt@)),
        decreases stmt, 0nat,
    {
        proof {
            reveal_strlit("if condition must be bool, got ");
            reveal_strlit("if branches have different types: ");
            reveal_strlit(" vs ");
        }
        match stmt {
            Stmt::If { condition, then_branch, else_branch, .. } => {
                let ct = match self.infer_expr(condition) {
                    Ok(t) => t,
                    Err(e) => return Err(e),
                };
                if !is_bool_type(&ct) {
                    return Err(
                        TypeError {
                            message: type_message("if condition must be bool, got ", &ct),
                            span: *condition.span(),
                        },
                    );
                }
                let tt = match self.check_stmt(then_branch) {
                    Ok(t) => t,
                    Err(e) => return Err(e),
                };
                match else_branch {
                    Some(b) => {
                        let et = match self.check_stmt(b) {
                            Ok(t) => t,
                            Err(e) => return Err(e),
                        };
                        if !type_eq(&tt, &et) {
                            let m = two_types_text("if branches have different types: ", &tt, " vs ", &et);
                            return Err(TypeError { message: m, span: *condition.span() });
                        }
                    },
                    None => {},
                }
                Ok(tt)
            },
            _ => Ok(Type::Void),
        }
    }

    fn check_for(&mut self, stmt: &Stmt) -> (r: TypeResult<Type>)
        requires
            old(self).wf(),
            fits(old(self).state(), stmt_size(stmt@)),
            stmt is For,
        ensures
            final(self).wf(),
            final(self).same_rest(old(self)),
            (tres_view(r), final(self).state()) == check_spec(old(self).state(), stmt@),
            grown_within(old(self).state(), final(self).state(), stmt_size(stmt@)),
        decreases stmt, 0nat,
    {
        match stmt {
            Stmt::For { var, iterable, body, .. } => {
                let it = match self.infer_expr(iterable) {
                    Ok(t) => t,
                    Err(e) => return Err(e),
                };
                let elem = match it {
                    Type::Array(t) => *t,
                    _ => unknown(),
                };
                self.symbols.enter_scope();
                proof {
                    self.symbols.lemma_view_wf();
                }
                self.symbols.insert(var.as_str(), SymbolKind::Variable, Some(type_clone(&elem)));
                match self.check_stmt(body) {
                    Ok(_) => {},
                    Err(e) => return Err(e),
                }
                self.symbols.exit_scope();
                Ok(Type::Void)
            },
            _ => Ok(Type::Void),
        }
    }

    #[verifier::loop_isolation(false)]
    fn check_fn_decl(&mut self, stmt: &Stmt) -> (r: TypeResult<Type>)
        requires
            old(self).wf(),
            fits(old(self).state(), stmt_size(stmt@)),
            stmt is FnDecl,
        ensures
            final(self).wf(),
            final(self).same_rest(old(self)),
            (tres_view(r), final(self).state()) == check_spec(old(self).state(), stmt@),
            grown_within(old(self).state(), final(self).state(), stmt_size(stmt@)),
        decreases stmt, 0nat,
    {
        match stmt {
            Stmt::FnDecl { params, return_type, body, .. } => {
                let ghost pv = params_view(params@);
                self.symbols.enter_scope();
                let ghost t0 = self.symbols@;
                let mut i: usize = 0;
                while i < params.len()
                    invariant
                        self.wf(),
                        self.same_rest(old(self)),
                        0 <= i <= params.len(),
                        pv.len() == params.len(),
                        insert_params(t0, pv, 0) == insert_params(self.symbols@, pv, i as int),
                        self.symbols@.counter == t0.counter + i,
                        self.symbols@.scopes.len() == t0.scopes.len(),
                        self.var_counter == old(self).var_counter,
                    decreases params.len() - i,
                {
                    let ty = match &params[i].1 {
                        Some(t) => type_clone(t),
                        None => unknown(),
                    };
                    proof {
                        self.symbols.lemma_view_wf();
                    }
                    self.symbols.insert(params[i].0.as_str(), SymbolKind::Parameter, Some(ty));
                    i = i + 1;
                }
                let body_type = match self.check_stmt(body) {
                    Ok(t) => t,
                    Err(e) => return Err(e),
                };
                self.symbols.exit_scope();
                let ret = match return_type {
                    Some(t) => type_clone(t),
                    None => body_type,
                };
                Ok(Type::Function(declared_param_types(params), Box::new(ret)))
            },
            _ => Ok(Type::Void),
        }
    }
}

proof fn lemma_vars_map(s: Seq<(String, Type)>)
    requires
        names_distinct(s),
    ensures
        forall|i: int|
            0 <= i < s.len() ==> vars_map(s).contains_key(#[trigger] s[i].0@) && vars_map(s)[s[i].0@]
                == s[i].1@,
        forall|k: Seq<char>|
            #[trigger] vars_map(s).contains_key(k) ==> exists|i: int| 0 <= i < s.len() && s[i].0@ == k,
    decreases s.len(),
{
    if s.len() > 0 {
        let t = s.drop_last();
        assert(names_distinct(t)) by {
            assert forall|i: int, j: int| 0 <= i < j < t.len() implies t[i].0@ != t[j].0@ by {
                assert(t[i] == s[i] && t[j] == s[j]);
            }
        }
        lemma_vars_map(t);
        assert forall|i: int| 0 <= i < s.len() implies vars_map(s).contains_key(#[trigger] s[i].0@)
            && vars_map(s)[s[i].0@] == s[i].1@ by {
            if i < s.len() - 1 {
                assert(t[i] == s[i]);
                assert(s[i].0@ != s.last().0@);
            }
        }
        assert forall|k: Seq<char>| #[trigger] vars_map(s).contains_key(k) implies exists|i: int|
            0 <= i < s.len() && s[i].0@ == k by {
            if k != s.last().0@ {
                assert(vars_map(t).contains_key(k));
                let i = choose|i: int| 0 <= i < t.len() && t[i].0@ == k;
                assert(s[i] == t[i]);
            } else {
                assert(s[s.len() - 1].0@ == k);
            }
        }
    }
}

/// The type of each element of a sequence of types.
pub open spec fn seq_types(v: Seq<Type>) -> Seq<TypeView> {
    Seq::new(v.len(), |i: int| v[i]@)
}

pub open spec fn seq_errors(v: Seq<TypeError>) -> Seq<TypeErrorView> {
    Seq::new(v.len(), |i: int| v[i]@)
}

pub open spec fn program_result_view(r: Result<Vec<Type>, Vec<TypeError>>) -> Result<Seq<TypeView>, Seq<TypeErrorView>> {
    match r {
        Ok(v) => Ok(seq_types(v@)),
        Err(e) => Err(seq_errors(e@)),
    }
}

fn clone_errors(v: &Vec<TypeError>) -> (r: Vec<TypeError>)
    ensures
        seq_errors(r@) == seq_errors(v@),
{
    let mut out: Vec<TypeError> = Vec::new();
    let mut i: usize = 0;
    while i < v.len()
        invariant
            0 <= i <= v.len(),
            out.len() == i,
            forall|j: int| 0 <= j < i ==> (#[trigger] out@[j])@ == v@[j]@,
        decreases v.len() - i,
    {
        out.push(TypeError { message: v[i].message.clone(), span: v[i].span });
        i = i + 1;
    }
    assert(seq_errors(out@) =~= seq_errors(v@));
    out
}

impl TypeChecker {
    fn check_item(&mut self, item: &Item) -> (r: TypeResult<Type>)
        requires
            old(self).wf(),
            fits(old(self).state(), item_size(item@)),
        ensures
            final(self).wf(),
            final(self).same_rest(old(self)),
            (tres_view(r), final(self).state()) == check_item_spec(old(self).state(), item@),
            grown_within(old(self).state(), final(self).state(), item_size(item@)),
    {
        proof {
            reveal_strlit("Agent");
        }
        match item {
            Item::Function(stmt) => self.check_stmt(stmt),
            Item::Struct(stmt) => self.check_stmt(stmt),
            Item::Expr(expr) => self.infer_expr(expr),
            Item::Agent(agent) => {
                proof {
                    self.symbols.lemma_view_wf();
                }
                self.symbols.insert(agent.name.as_str(), SymbolKind::Agent, Some(Type::Named(String::from_str("Agent"))));
                Ok(Type::Named(String::from_str("Agent")))
            },
        }
    }

    /// Check a full program: its declarations are registered first, then each item is
    /// checked; errors are recorded and all recorded so far are returned.
    #[verifier::loop_isolation(false)]
    pub fn check_program(&mut self, program: &Program) -> (r: Result<Vec<Type>, Vec<TypeError>>)
        requires
            old(self).wf(),
            fits(old(self).state(), program@.len() + items_size(program@)),
        ensures
            final(self).wf(),
            final(self).vars() == old(self).vars(),
            ({
                let (res, st, errs) = check_program_spec(old(self).state(), old(self).errors(), program@);
                &&& program_result_view(r) == res
                &&& final(self).state() == st
                &&& final(self).errors() == errs
            }),
    {
        let ghost items = program@;
        let ghost t0 = self.symbols@;
        let mut i: usize = 0;
        while i < program.items.len()
            invariant
                self.wf(),
                self.same_rest(old(self)),
                0 <= i <= program.items.len(),
                register_items(t0, items, 0) == register_items(self.symbols@, items, i as int),
                self.symbols@.counter <= t0.counter + i,
                self.symbols@.scopes.len() == t0.scopes.len(),
                self.var_counter == old(self).var_counter,
            decreases program.items.len() - i,
        {
            proof {
                self.symbols.lemma_view_wf();
            }
            match &program.items[i] {
                Item::Function(Stmt::FnDecl { name, params, return_type, .. }) => {
                    let ps = declared_param_types(params);
                    let ret = match return_type {
                        Some(t) => type_clone(t),
                        None => Type::Void,
                    };
                    self.symbols.insert(name.as_str(), SymbolKind::Function, Some(Type::Function(ps, Box::new(ret))));
                },
                Item::Struct(Stmt::StructDecl { name, fields, .. }) => {
                    let fs = clone_fields(fields);
                    proof {
                        lemma_fields_view(fields@);
                        assert(fields_view(fields@) =~= crate::ast::struct_fields_view(fields@));
                    }
                    self.symbols.insert(name.as_str(), SymbolKind::Struct, Some(Type::Struct(name.clone(), fs)));
                },
                _ => {},
            }
            i = i + 1;
        }
        let ghost st1 = self.state();
        let mut types: Vec<Type> = Vec::new();
        assert(seq_types(types@) =~= Seq::<TypeView>::empty());
        assert(items.subrange(0, items.len() as int) =~= items);
        let mut i: usize = 0;
        while i < program.items.len()
            invariant
                self.wf(),
                self.type_vars@ == old(self).type_vars@,
                0 <= i <= program.items.len(),
                check_items(st1, items, 0, Seq::empty(), old(self).errors()) == check_items(
                    self.state(),
                    items,
                    i as int,
                    seq_types(types@),
                    self.errors(),
                ),
                grown_within(
                    st1,
                    self.state(),
                    (items_size(items) - items_size(items.subrange(i as int, items.len() as int))) as nat,
                ),
                items_size(items.subrange(i as int, items.len() as int)) <= items_size(items),
            decreases program.items.len() - i,
        {
            proof {
                lemma_items_size_step(items, i as int);
            }
            match self.check_item(&program.items[i]) {
                Ok(ty) => {
                    proof {
                        assert(seq_types(types@.push(ty)) =~= seq_types(types@).push(ty@));
                    }
                    types.push(ty);
                },
                Err(e) => {
                    proof {
                        assert(seq_errors(self.errors@.push(e)) =~= seq_errors(self.errors@).push(e@));
                    }
                    self.errors.push(e);
                },
            }
            i = i + 1;
        }
        if self.errors.len() == 0 {
            Ok(types)
        } else {
            Err(clone_errors(&self.errors))
        }
    }

    /// The index of the binding of a type variable.
    #[verifier::loop_isolation(false)]
    fn find_var(&self, v: &String) -> (r: Option<usize>)
        requires
            self.wf(),
        ensures
            match r {
                Some(j) => j < self.type_vars@.len() && self.type_vars@[j as int].0@ == v@ && self.vars().contains_key(v@)
                    && self.vars()[v@] == self.type_vars@[j as int].1@,
                None => !self.vars().contains_key(v@),
            },
    {
        proof {
            lemma_vars_map(self.type_vars@);
        }
        let mut j: usize = 0;
        while j < self.type_vars.len()
            invariant
                0 <= j <= self.type_vars@.len(),
                forall|k: int| 0 <= k < j ==> self.type_vars@[k].0@ != v@,
            decreases self.type_vars@.len() - j,
        {
            if self.type_vars[j].0.eq(v) {
                return Some(j);
            }
            j = j + 1;
        }
        None
    }

    #[verifier::loop_isolation(false)]
    fn unify_with(&mut self, t1: &Type, t2: &Type, Ghost(fuel): Ghost<nat>) -> (r: TypeResult<Type>)
        requires
            old(self).wf(),
            unify_fuel(old(self).vars(), t1@, t2@, fuel) is Some,
        ensures
            final(self).wf(),
            final(self).state() == old(self).state(),
            final(self).errors@ == old(self).errors@,
            (tres_view(r), final(self).vars()) == unify_fuel(old(self).vars(), t1@, t2@, fuel)->0,
        decreases fuel,
    {
        proof {
            reveal_strlit("function arity mismatch: ");
            reveal_strlit(" vs ");
            reveal_strlit("cannot unify ");
            reveal_strlit(" with ");
        }
        match (t1, t2) {
            (Type::Generic(v), _) => match self.find_var(v) {
                Some(j) => {
                    let resolved = type_clone(&self.type_vars[j].1);
                    self.unify_with(&resolved, t2, Ghost((fuel - 1) as nat))
                },
                None => {
                    let other = type_clone(t2);
                    self.bind_var(v, &other);
                    Ok(other)
                },
            },
            (_, Type::Generic(v)) => match self.find_var(v) {
                Some(j) => {
                    let resolved = type_clone(&self.type_vars[j].1);
                    self.unify_with(&resolved, t1, Ghost((fuel - 1) as nat))
                },
                None => {
                    let other = type_clone(t1);
                    self.bind_var(v, &other);
                    Ok(other)
                },
            },
            (Type::Int, Type::Int) => Ok(Type::Int),
            (Type::Float, Type::Float) => Ok(Type::Float),
            (Type::Bool, Type::Bool) => Ok(Type::Bool),
            (Type::String, Type::String) => Ok(Type::String),
            (Type::Void, Type::Void) => Ok(Type::Void),
            (Type::Array(a), Type::Array(b)) => {
                let elem = match self.unify_with(a, b, Ghost((fuel - 1) as nat)) {
                    Ok(t) => t,
                    Err(e) => return Err(e),
                };
                Ok(Type::Array(Box::new(elem)))
            },
            (Type::Function(p1, r1), Type::Function(p2, r2)) => {
                proof {
                    lemma_types_view(p1@);
                    lemma_types_view(p2@);
                }
                if p1.len() != p2.len() {
                    let a = u64_text(p1.len() as u64);
                    let b = u64_text(p2.len() as u64);
                    let mut m = concat3("function arity mismatch: ", a.as_str(), " vs ");
                    m.append(b.as_str());
                    return Err(TypeError { message: m, span: Span::zero() });
                }
                let ghost p1v = types_view(p1@);
                let ghost p2v = types_view(p2@);
                let ghost f1 = (fuel - 1) as nat;
                let ghost vars0 = self.vars();
                let mut params: Vec<Type> = Vec::new();
                assert(seq_types(params@) =~= Seq::<TypeView>::empty());
                let mut i: usize = 0;
                while i < p1.len()
                    invariant
                        self.wf(),
                        self.state() == old(self).state(),
                        self.errors@ == old(self).errors@,
                        0 <= i <= p1.len(),
                        p1.len() == p2.len(),
                        p1v.len() == p1.len(),
                        p2v.len() == p2.len(),
                        forall|k: int| 0 <= k < p1.len() ==> #[trigger] p1v[k] == p1@[k]@,
                        forall|k: int| 0 <= k < p2.len() ==> #[trigger] p2v[k] == p2@[k]@,
                        fuel > 0,
                        f1 == fuel - 1,
                        unify_list(vars0, p1v, p2v, 0, Seq::empty(), f1) == unify_list(
                            self.vars(),
                            p1v,
                            p2v,
                            i as int,
                            seq_types(params@),
                            f1,
                        ),
                        unify_list(vars0, p1v, p2v, 0, Seq::empty(), f1) is Some,
                    decreases p1.len() - i,
                {
                    let t = match self.unify_with(&p1[i], &p2[i], Ghost(f1)) {
                        Ok(t) => t,
                        Err(e) => return Err(e),
                    };
                    proof {
                        assert(seq_types(params@.push(t)) =~= seq_types(params@).push(t@));
                    }
                    params.push(t);
                    i = i + 1;
                }
                let ret = match self.unify_with(r1, r2, Ghost(f1)) {
                    Ok(t) => t,
                    Err(e) => return Err(e),
                };
                proof {
                    lemma_types_view(params@);
                    assert(types_view(params@) =~= seq_types(params@));
                }
                Ok(Type::Function(params, Box::new(ret)))
            },
            _ => {
                let m = two_types_text("cannot unify ", t1, " with ", t2);
                Err(TypeError { message: m, span: Span::zero() })
            },
        }
    }

    /// Bind an unbound type variable.
    fn bind_var(&mut self, v: &String, t: &Type)
        requires
            old(self).wf(),
            !old(self).vars().contains_key(v@),
        ensures
            final(self).wf(),
            final(self).state() == old(self).state(),
            final(self).errors@ == old(self).errors@,
            final(self).vars() == old(self).vars().insert(v@, t@),
    {
        proof {
            lemma_vars_map(self.type_vars@);
        }
        let ghost old_vars = self.type_vars@;
        self.type_vars.push((v.clone(), type_clone(t)));
        proof {
            assert(self.type_vars@.drop_last() =~= old_vars);
            assert forall|i: int, j: int| 0 <= i < j < self.type_vars@.len() implies self.type_vars@[i].0@
                != self.type_vars@[j].0@ by {
                if j == self.type_vars@.len() - 1 {
                    assert(self.type_vars@[i] == old_vars[i]);
                    assert(vars_map(old_vars).contains_key(old_vars[i].0@));
                } else {
                    assert(self.type_vars@[i] == old_vars[i]);
                    assert(self.type_vars@[j] == old_vars[j]);
                }
            }
        }
    }

    /// Unify two types, updating the type variable mapping.
    pub fn unify(&mut self, t1: &Type, t2: &Type) -> (r: TypeResult<Type>)
        requires
            old(self).wf(),
            unify_terminates(old(self).vars(), t1@, t2@),
        ensures
            final(self).wf(),
            final(self).state() == old(self).state(),
            final(self).errors() == old(self).errors(),
            (tres_view(r), final(self).vars()) == unify_spec(old(self).vars(), t1@, t2@),
    {
        let ghost f = choose|f: nat| (#[trigger] unify_fuel(self.vars(), t1@, t2@, f)) is Some;
        self.unify_with(t1, t2, Ghost(f))
    }

    #[verifier::loop_isolation(false)]
    fn resolve_with(&self, ty: &Type, Ghost(fuel): Ghost<nat>) -> (r: Type)
        requires
            self.wf(),
            resolve_fuel(self.vars(), ty@, fuel) is Some,
        ensures
            Some(r@) == resolve_fuel(self.vars(), ty@, fuel),
        decreases fuel,
    {
        match ty {
            Type::Generic(v) => match self.find_var(v) {
                Some(j) => self.resolve_with(&self.type_vars[j].1, Ghost((fuel - 1) as nat)),
                None => type_clone(ty),
            },
            Type::Array(t) => Type::Array(Box::new(self.resolve_with(t, Ghost((fuel - 1) as nat)))),
            Type::Function(params, ret) => {
                proof {
                    lemma_types_view(params@);
                }
                let ghost pv = types_view(params@);
                let ghost f1 = (fuel - 1) as nat;
                let mut out: Vec<Type> = Vec::new();
                assert(seq_types(out@) =~= Seq::<TypeView>::empty());
                let mut i: usize = 0;
                while i < params.len()
                    invariant
                        self.wf(),
                        0 <= i <= params.len(),
                        pv.len() == params.len(),
                        forall|k: int| 0 <= k < params.len() ==> #[trigger] pv[k] == params@[k]@,
                        fuel > 0,
                        f1 == fuel - 1,
                        resolve_list(self.vars(), pv, 0, Seq::empty(), f1) == resolve_list(
                            self.vars(),
                            pv,
                            i as int,
                            seq_types(out@),
                            f1,
                        ),
                        resolve_list(self.vars(), pv, 0, Seq::empty(), f1) is Some,
                    decreases params.len() - i,
                {
                    let t = self.resolve_with(&params[i], Ghost(f1));
                    proof {
                        assert(seq_types(out@.push(t)) =~= seq_types(out@).push(t@));
                    }
                    out.push(t);
                    i = i + 1;
                }
                let r = self.resolve_with(ret, Ghost(f1));
                proof {
                    lemma_types_view(out@);
                    assert(types_view(out@) =~= seq_types(out@));
                }
                Type::Function(out, Box::new(r))
            },
            _ => type_clone(ty),
        }
    }

    /// Resolve a type through type variable substitutions.
    pub fn resolve_type(&self, ty: &Type) -> (r: Type)
        requires
            self.wf(),
            resolve_terminates(self.vars(), ty@),
        ensures
            r@ == resolve_spec(self.vars(), ty@),
    {
        let ghost f = choose|f: nat| (#[trigger] resolve_fuel(self.vars(), ty@, f)) is Some;
        self.resolve_with(ty, Ghost(f))
    }
}

impl Default for TypeChecker {
    fn default() -> (tc: TypeChecker)
        ensures
            tc.wf(),
            tc.state() == (CheckState { symbols: SymbolTableView::new_table(), counter: 0 }),
            tc.errors() == Seq::<TypeErrorView>::empty(),
            tc.vars() == Map::<Seq<char>, TypeView>::empty(),
    {
        TypeChecker::new()
    }
}

// ---- Laws of unification and resolution ----

proof fn lemma_unify_fuel_mono(vars: Map<Seq<char>, TypeView>, t1: TypeView, t2: TypeView, f: nat, g: nat)
    requires
        unify_fuel(vars, t1, t2, f) is Some,
        f <= g,
    ensures
        unify_fuel(vars, t1, t2, g) == unify_fuel(vars, t1, t2, f),
    decreases f, 0nat, 0int,
{
    if f > 0 {
        match (t1, t2) {
            (TypeView::Generic(v), _) => {
                if vars.contains_key(v) {
                    lemma_unify_fuel_mono(vars, vars[v], t2, (f - 1) as nat, (g - 1) as nat);
                }
            },
            (_, TypeView::Generic(v)) => {
                if vars.contains_key(v) {
                    lemma_unify_fuel_mono(vars, vars[v], t1, (f - 1) as nat, (g - 1) as nat);
                }
            },
            (TypeView::Array(a), TypeView::Array(b)) => {
                lemma_unify_fuel_mono(vars, *a, *b, (f - 1) as nat, (g - 1) as nat);
            },
            (TypeView::Function(p1, r1), TypeView::Function(p2, r2)) => {
                if p1.len() == p2.len() {
                    lemma_unify_list_mono(vars, p1, p2, 0, Seq::empty(), (f - 1) as nat, (g - 1) as nat);
                    match unify_list(vars, p1, p2, 0, Seq::empty(), (f - 1) as nat) {
                        Some((Ok(_), vs)) => {
                            lemma_unify_fuel_mono(vs, *r1, *r2, (f - 1) as nat, (g - 1) as nat);
                        },
                        _ => {},
                    }
                }
            },
            _ => {},
        }
    }
}

proof fn lemma_unify_list_mono(
    vars: Map<Seq<char>, TypeView>,
    p1: Seq<TypeView>,
    p2: Seq<TypeView>,
    i: int,
    acc: Seq<TypeView>,
    f: nat,
    g: nat,
)
    requires
        unify_list(vars, p1, p2, i, acc, f) is Some,
        f <= g,
    ensures
        unify_list(vars, p1, p2, i, acc, g) == unify_list(vars, p1, p2, i, acc, f),
    decreases f, 1nat, p1.len() - i,
{
    if 0 <= i < p1.len() {
        lemma_unify_fuel_mono(vars, p1[i], p2[i], f, g);
        match unify_fuel(vars, p1[i], p2[i], f) {
            Some((Ok(t), vs)) => {
                lemma_unify_list_mono(vs, p1, p2, i + 1, acc.push(t), f, g);
            },
            _ => {},
        }
    }
}

/// Unification's outcome does not depend on the bound on its steps: wherever some bound
/// is enough, the outcome is the one that bound gives.
pub proof fn lemma_unify_outcome(vars: Map<Seq<char>, TypeView>, t1: TypeView, t2: TypeView, f: nat)
    requires
        unify_fuel(vars, t1, t2, f) is Some,
    ensures
        unify_terminates(vars, t1, t2),
        unify_spec(vars, t1, t2) == unify_fuel(vars, t1, t2, f)->0,
{
    let c = choose|c: nat| (#[trigger] unify_fuel(vars, t1, t2, c)) is Some;
    if c <= f {
        lemma_unify_fuel_mono(vars, t1, t2, c, f);
    } else {
        lemma_unify_fuel_mono(vars, t1, t2, f, c);
    }
}

proof fn lemma_resolve_fuel_mono(vars: Map<Seq<char>, TypeView>, t: TypeView, f: nat, g: nat)
    requires
        resolve_fuel(vars, t, f) is Some,
        f <= g,
    ensures
        resolve_fuel(vars, t, g) == resolve_fuel(vars, t, f),
    decreases f, 0nat, 0int,
{
    if f > 0 {
        match t {
            TypeView::Generic(v) => {
                if vars.contains_key(v) {
                    lemma_resolve_fuel_mono(vars, vars[v], (f - 1) as nat, (g - 1) as nat);
                }
            },
            TypeView::Array(e) => {
                lemma_resolve_fuel_mono(vars, *e, (f - 1) as nat, (g - 1) as nat);
            },
            TypeView::Function(ps, r) => {
                lemma_resolve_list_mono(vars, ps, 0, Seq::empty(), (f - 1) as nat, (g - 1) as nat);
                if resolve_list(vars, ps, 0, Seq::empty(), (f - 1) as nat) is Some {
                    lemma_resolve_fuel_mono(vars, *r, (f - 1) as nat, (g - 1) as nat);
                }
            },
            _ => {},
        }
    }
}

proof fn lemma_resolve_list_mono(
    vars: Map<Seq<char>, TypeView>,
    ps: Seq<TypeView>,
    i: int,
    acc: Seq<TypeView>,
    f: nat,
    g: nat,
)
    requires
        resolve_list(vars, ps, i, acc, f) is Some,
        f <= g,
    ensures
        resolve_list(vars, ps, i, acc, g) == resolve_list(vars, ps, i, acc, f),
    decreases f, 1nat, ps.len() - i,
{
    if 0 <= i < ps.len() {
        lemma_resolve_fuel_mono(vars, ps[i], f, g);
        match resolve_fuel(vars, ps[i], f) {
            Some(r) => {
                lemma_resolve_list_mono(vars, ps, i + 1, acc.push(r), f, g);
            },
            None => {},
        }
    }
}

/// Resolution's result does not depend on the bound on its steps.
pub proof fn lemma_resolve_outcome(vars: Map<Seq<char>, TypeView>, t: TypeView, f: nat)
    requires
        resolve_fuel(vars, t, f) is Some,
    ensures
        resolve_terminates(vars, t),
        Some(resolve_spec(vars, t)) == resolve_fuel(vars, t, f),
{
    let c = choose|c: nat| (#[trigger] resolve_fuel(vars, t, c)) is Some;
    if c <= f {
        lemma_resolve_fuel_mono(vars, t, c, f);
    } else {
        lemma_resolve_fuel_mono(vars, t, f, c);
    }
}

/// What a successful resolution of a list gives: the accumulated types, then each
/// remaining type resolved.
proof fn lemma_resolve_list_some(
    vars: Map<Seq<char>, TypeView>,
    ps: Seq<TypeView>,
    i: int,
    acc: Seq<TypeView>,
    g: nat,
)
    requires
        0 <= i <= ps.len(),
        resolve_list(vars, ps, i, acc, g) is Some,
    ensures
        ({
            let out = resolve_list(vars, ps, i, acc, g)->0;
            &&& out.len() == acc.len() + ps.len() - i
            &&& out.take(acc.len() as int) == acc
            &&& forall|j: int| i <= j < ps.len() ==> #[trigger] resolve_fuel(vars, ps[j], g) == Some(out[acc.len() + j - i])
        }),
    decreases ps.len() - i,
{
    if i < ps.len() {
        let r = resolve_fuel(vars, ps[i], g)->0;
        lemma_resolve_list_some(vars, ps, i + 1, acc.push(r), g);
        let out = resolve_list(vars, ps, i, acc, g)->0;
        assert(out.take(acc.len() as int + 1) == acc.push(r));
        assert(out.take(acc.len() as int) =~= acc) by {
            assert forall|k: int| 0 <= k < acc.len() implies out.take(acc.len() as int)[k] == acc[k] by {
                assert(out.take(acc.len() as int + 1)[k] == acc.push(r)[k]);
            }
        }
        assert(out[acc.len() as int] == out.take(acc.len() as int + 1)[acc.len() as int]);
    } else {
        assert(acc.take(acc.len() as int) =~= acc);
    }
}

/// A list whose remaining types each resolve to themselves resolves to itself.
proof fn lemma_resolve_list_fixed(
    vars: Map<Seq<char>, TypeView>,
    qs: Seq<TypeView>,
    i: int,
    acc: Seq<TypeView>,
    g: nat,
)
    requires
        0 <= i <= qs.len(),
        forall|j: int| i <= j < qs.len() ==> #[trigger] resolve_fuel(vars, qs[j], g) == Some(qs[j]),
    ensures
        resolve_list(vars, qs, i, acc, g) == Some(acc + qs.skip(i)),
    decreases qs.len() - i,
{
    if i < qs.len() {
        assert(resolve_fuel(vars, qs[i], g) == Some(qs[i]));
        lemma_resolve_list_fixed(vars, qs, i + 1, acc.push(qs[i]), g);
        assert(acc.push(qs[i]) + qs.skip(i + 1) =~= acc + qs.skip(i));
    } else {
        assert(acc + qs.skip(i) =~= acc);
    }
}

/// What resolution gives resolves to itself, with the same bound on its steps.
proof fn lemma_resolve_fixed(vars: Map<Seq<char>, TypeView>, t: TypeView, f: nat)
    requires
        resolve_fuel(vars, t, f) is Some,
    ensures
        resolve_fuel(vars, resolve_fuel(vars, t, f)->0, f) == resolve_fuel(vars, t, f),
    decreases f,
{
    let r = resolve_fuel(vars, t, f)->0;
    match t {
        TypeView::Generic(v) => {
            if vars.contains_key(v) {
                lemma_resolve_fixed(vars, vars[v], (f - 1) as nat);
                lemma_resolve_fuel_mono(vars, r, (f - 1) as nat, f);
            }
        },
        TypeView::Array(e) => {
            lemma_resolve_fixed(vars, *e, (f - 1) as nat);
        },
        TypeView::Function(ps, rt) => {
            let g = (f - 1) as nat;
            lemma_resolve_list_some(vars, ps, 0, Seq::empty(), g);
            let rs = resolve_list(vars, ps, 0, Seq::empty(), g)->0;
            assert forall|j: int| 0 <= j < rs.len() implies #[trigger] resolve_fuel(vars, rs[j], g) == Some(rs[j]) by {
                assert(resolve_fuel(vars, ps[j], g) == Some(rs[0 + j - 0]));
                lemma_resolve_fixed(vars, ps[j], g);
            }
            lemma_resolve_list_fixed(vars, rs, 0, Seq::empty(), g);
            assert(Seq::<TypeView>::empty() + rs.skip(0) =~= rs);
            lemma_resolve_fixed(vars, *rt, g);
        },
        _ => {},
    }
}

/// The type mentions no type variable that has a binding (struct fields are not looked into,
/// as resolution does not look into them).
pub open spec fn no_bound_vars(vars: Map<Seq<char>, TypeView>, t: TypeView) -> bool
    decreases t,
{
    match t {
        TypeView::Generic(v) => !vars.contains_key(v),
        TypeView::Array(e) => no_bound_vars(vars, *e),
        TypeView::Function(ps, r) => {
            &&& forall|j: int| 0 <= j < ps.len() ==> no_bound_vars(vars, #[trigger] ps[j])
            &&& no_bound_vars(vars, *r)
        },
        _ => true,
    }
}

/// What resolution gives mentions no bound type variable.
proof fn lemma_resolve_no_bound(vars: Map<Seq<char>, TypeView>, t: TypeView, f: nat)
    requires
        resolve_fuel(vars, t, f) is Some,
    ensures
        no_bound_vars(vars, resolve_fuel(vars, t, f)->0),
    decreases f,
{
    match t {
        TypeView::Generic(v) => {
            if vars.contains_key(v) {
                lemma_resolve_no_bound(vars, vars[v], (f - 1) as nat);
            }
        },
        TypeView::Array(e) => {
            lemma_resolve_no_bound(vars, *e, (f - 1) as nat);
        },
        TypeView::Function(ps, rt) => {
            let g = (f - 1) as nat;
            lemma_resolve_list_some(vars, ps, 0, Seq::empty(), g);
            let rs = resolve_list(vars, ps, 0, Seq::empty(), g)->0;
            assert forall|j: int| 0 <= j < rs.len() implies no_bound_vars(vars, #[trigger] rs[j]) by {
                assert(resolve_fuel(vars, ps[j], g) == Some(rs[0 + j - 0]));
                lemma_resolve_no_bound(vars, ps[j], g);
            }
            lemma_resolve_no_bound(vars, *rt, g);
        },
        _ => {},
    }
}

/// Resolution is idempotent: resolving what resolution gave gives it back, and it leaves no
/// bound type variable in its result; a variable without a binding resolves to itself.
pub proof fn lemma_resolve_idempotent(vars: Map<Seq<char>, TypeView>, t: TypeView, v: Seq<char>)
    requires
        resolve_terminates(vars, t),
    ensures
        resolve_terminates(vars, resolve_spec(vars, t)),
        resolve_spec(vars, resolve_spec(vars, t)) == resolve_spec(vars, t),
        no_bound_vars(vars, resolve_spec(vars, t)),
        !vars.contains_key(v) ==> resolve_terminates(vars, TypeView::Generic(v)) && resolve_spec(
            vars,
            TypeView::Generic(v),
        ) == TypeView::Generic(v),
{
    let f = choose|f: nat| (#[trigger] resolve_fuel(vars, t, f)) is Some;
    lemma_resolve_outcome(vars, t, f);
    let r = resolve_spec(vars, t);
    lemma_resolve_fixed(vars, t, f);
    lemma_resolve_no_bound(vars, t, f);
    lemma_resolve_outcome(vars, r, f);
    if !vars.contains_key(v) {
        assert(resolve_fuel(vars, TypeView::Generic(v), 1) == Some(TypeView::Generic(v)));
        lemma_resolve_outcome(vars, TypeView::Generic(v), 1);
    }
}

/// Unifying an unbound type variable with a type binds the variable to that type and gives
/// the type; resolving the variable afterwards gives what resolving the type gives.
pub proof fn lemma_unify_binds_variable(vars: Map<Seq<char>, TypeView>, v: Seq<char>, t: TypeView)
    requires
        !vars.contains_key(v),
    ensures
        unify_terminates(vars, TypeView::Generic(v), t),
        unify_spec(vars, TypeView::Generic(v), t) == (
            Ok::<TypeView, TypeErrorView>(t),
            vars.insert(v, t),
        ),
        resolve_terminates(vars.insert(v, t), t) ==> resolve_terminates(vars.insert(v, t), TypeView::Generic(v))
            && resolve_spec(vars.insert(v, t), TypeView::Generic(v)) == resolve_spec(vars.insert(v, t), t),
{
    lemma_unify_outcome(vars, TypeView::Generic(v), t, 1);
    let m = vars.insert(v, t);
    if resolve_terminates(m, t) {
        let f = choose|f: nat| (#[trigger] resolve_fuel(m, t, f)) is Some;
        assert(resolve_fuel(m, TypeView::Generic(v), f + 1) == resolve_fuel(m, t, f));
        lemma_resolve_outcome(m, TypeView::Generic(v), f + 1);
        lemma_resolve_outcome(m, t, f);
    }
}

} // verus!

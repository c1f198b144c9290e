// IR generation: three-address code in SSA form.
use vstd::prelude::*;
use crate::ast::{
    BinOp, UnaryOp, Expr, Stmt, Item, Program, ExprView, StmtView, ItemView, expr_size, exprs_size,
    stmt_size, stmts_size, exprs_view, stmts_view, lemma_exprs_view, lemma_stmts_view,
    lemma_exprs_size_step, lemma_stmts_size_step, params_view,
};
use crate::lexer::Span;
use crate::ssa::{
    ValueId, SsaValue, SsaValueView, SsaBinOp, SsaUnaryOp, SsaInstruction, InstrView, SsaFunction,
    FuncView, BlockView,
};
use crate::symbol_table::{Type, TypeView};
use crate::text::{nat_decimal, u64_text, concat2};
use crate::type_checker::{item_size, items_size, lemma_items_size_step};

verus! {

/// IR generation error.
#[derive(Debug, Clone)]
pub struct IrError {
    pub message: String,
    pub span: Span,
}

pub struct IrErrorView {
    pub message: Seq<char>,
    pub span: Span,
}

impl View for IrError {
    type V = IrErrorView;

    open spec fn view(&self) -> IrErrorView {
        IrErrorView { message: self.message@, span: self.span }
    }
}

pub open spec fn ierr(message: Seq<char>, span: Span) -> IrErrorView {
    IrErrorView { message, span }
}

/// The mathematical value of the generator: the functions generated, the one being
/// generated, the value of each local name and the label counter.
pub struct GenState {
    pub functions: Seq<FuncView>,
    pub current: Option<FuncView>,
    pub locals: Map<Seq<char>, usize>,
    pub labels: nat,
}

pub open spec fn cur(st: GenState) -> FuncView {
    st.current->0
}

pub open spec fn with_cur(st: GenState, f: FuncView) -> GenState {
    GenState { current: Some(f), ..st }
}

/// An instruction appended to the current function, if there is one.
pub open spec fn emit(st: GenState, i: InstrView) -> GenState {
    match st.current {
        Some(f) => with_cur(st, f.push_instr(i)),
        None => st,
    }
}

/// The next value of the current function.
pub open spec fn next_val(st: GenState) -> usize {
    cur(st).next_value as usize
}

pub open spec fn with_fresh(st: GenState) -> GenState {
    with_cur(st, cur(st).fresh())
}

pub open spec fn bind_local(st: GenState, name: Seq<char>, v: usize) -> GenState {
    GenState { locals: st.locals.insert(name, v), ..st }
}

pub open spec fn ssa_binop(op: BinOp) -> SsaBinOp {
    match op {
        BinOp::Add => SsaBinOp::Add,
        BinOp::Sub => SsaBinOp::Sub,
        BinOp::Mul => SsaBinOp::Mul,
        BinOp::Div => SsaBinOp::Div,
        BinOp::Mod => SsaBinOp::Mod,
        BinOp::Eq => SsaBinOp::Eq,
        BinOp::Neq => SsaBinOp::Neq,
        BinOp::Lt => SsaBinOp::Lt,
        BinOp::Lte => SsaBinOp::Lte,
        BinOp::Gt => SsaBinOp::Gt,
        BinOp::Gte => SsaBinOp::Gte,
        BinOp::And => SsaBinOp::And,
        BinOp::Or => SsaBinOp::Or,
        _ => SsaBinOp::Add,
    }
}

pub open spec fn ssa_unop(op: UnaryOp) -> SsaUnaryOp {
    match op {
        UnaryOp::Neg => SsaUnaryOp::Neg,
        UnaryOp::Not => SsaUnaryOp::Not,
        UnaryOp::BitNot => SsaUnaryOp::Not,
    }
}

/// Each source operator with an SSA counterpart becomes the SSA operator of the same
/// name, so no two of them become the same SSA operator.
pub proof fn lemma_ssa_binop_names()
    ensures
        ssa_binop(BinOp::Add) == SsaBinOp::Add,
        ssa_binop(BinOp::Sub) == SsaBinOp::Sub,
        ssa_binop(BinOp::Mul) == SsaBinOp::Mul,
        ssa_binop(BinOp::Div) == SsaBinOp::Div,
        ssa_binop(BinOp::Mod) == SsaBinOp::Mod,
        ssa_binop(BinOp::Eq) == SsaBinOp::Eq,
        ssa_binop(BinOp::Neq) == SsaBinOp::Neq,
        ssa_binop(BinOp::Lt) == SsaBinOp::Lt,
        ssa_binop(BinOp::Lte) == SsaBinOp::Lte,
        ssa_binop(BinOp::Gt) == SsaBinOp::Gt,
        ssa_binop(BinOp::Gte) == SsaBinOp::Gte,
        ssa_binop(BinOp::And) == SsaBinOp::And,
        ssa_binop(BinOp::Or) == SsaBinOp::Or,
        ssa_unop(UnaryOp::Neg) == SsaUnaryOp::Neg,
        ssa_unop(UnaryOp::Not) == SsaUnaryOp::Not,
{
}

/// A fresh value defined as a constant.
pub open spec fn gen_const(st: GenState, value: SsaValueView) -> (Result<usize, IrErrorView>, GenState) {
    let d = next_val(st);
    (Ok(d), emit(with_fresh(st), InstrView::Const { dest: d, value }))
}

/// The value computing an expression, and the generator after its instructions.
pub open spec fn gen_expr_spec(st: GenState, e: ExprView) -> (Result<usize, IrErrorView>, GenState)
    decreases e, 0nat,
{
    match e {
        ExprView::IntLiteral(v, _) => gen_const(st, SsaValueView::Int(v)),
        ExprView::FloatLiteral(t, _) => gen_const(st, SsaValueView::Float(t)),
        ExprView::BoolLiteral(b, _) => gen_const(st, SsaValueView::Bool(b)),
        ExprView::NullLiteral(_) => gen_const(st, SsaValueView::Null),
        ExprView::StringLiteral(_, span) => (Err(ierr("string literals not yet supported in IR"@, span)), st),
        ExprView::Ident(name, span) => if st.locals.contains_key(name) {
            (Ok(st.locals[name]), st)
        } else {
            (Err(ierr("undefined variable: "@ + name, span)), st)
        },
        ExprView::Binary { op, left, right, .. } => {
            let (rl, s1) = gen_expr_spec(st, *left);
            match rl {
                Err(x) => (Err(x), s1),
                Ok(lv) => {
                    let (rr, s2) = gen_expr_spec(s1, *right);
                    match rr {
                        Err(x) => (Err(x), s2),
                        Ok(rv) => {
                            let d = next_val(s2);
                            (
                                Ok(d),
                                emit(
                                    with_fresh(s2),
                                    InstrView::BinOp { dest: d, op: ssa_binop(op), left: lv, right: rv },
                                ),
                            )
                        },
                    }
                },
            }
        },
        ExprView::Unary { op, operand, .. } => {
            let (r, s1) = gen_expr_spec(st, *operand);
            match r {
                Err(x) => (Err(x), s1),
                Ok(ov) => {
                    let d = next_val(s1);
                    (Ok(d), emit(with_fresh(s1), InstrView::UnaryOp { dest: d, op: ssa_unop(op), operand: ov }))
                },
            }
        },
        ExprView::Call { callee, args, .. } => {
            let (ra, s1) = gen_args_spec(st, args, 0, Seq::empty());
            match ra {
                Err(x) => (Err(x), s1),
                Ok(vals) => {
                    let name = match *callee {
                        ExprView::Ident(n, _) => n,
                        _ => "<lambda>"@,
                    };
                    let d = next_val(s1);
                    (Ok(d), emit(with_fresh(s1), InstrView::Call { dest: Some(d), func: name, args: vals }))
                },
            }
        },
        ExprView::Array(elems, _) => {
            let d = next_val(st);
            let s1 = emit(with_fresh(st), InstrView::Const { dest: d, value: SsaValueView::Int(elems.len() as i64) });
            gen_array_spec(s1, elems, 0, d)
        },
        _ => gen_const(st, SsaValueView::Null),
    }
}

/// The values of arguments `i..`, after those in `acc`.
pub open spec fn gen_args_spec(st: GenState, args: Seq<ExprView>, i: int, acc: Seq<usize>) -> (Result<Seq<usize>, IrErrorView>, GenState)
    decreases args, args.len() - i,
{
    if 0 <= i < args.len() {
        let (r, s1) = gen_expr_spec(st, args[i]);
        match r {
            Err(x) => (Err(x), s1),
            Ok(v) => gen_args_spec(s1, args, i + 1, acc.push(v)),
        }
    } else {
        (Ok(acc), st)
    }
}

/// Array elements `i..`: each is stored at the previous value, and becomes the last.
pub open spec fn gen_array_spec(st: GenState, elems: Seq<ExprView>, i: int, last: usize) -> (Result<usize, IrErrorView>, GenState)
    decreases elems, elems.len() - i,
{
    if 0 <= i < elems.len() {
        let (r, s1) = gen_expr_spec(st, elems[i]);
        match r {
            Err(x) => (Err(x), s1),
            Ok(v) => gen_array_spec(emit(s1, InstrView::Store { addr: last, value: v }), elems, i + 1, v),
        }
    } else {
        (Ok(last), st)
    }
}

pub open spec fn label_text(prefix: Seq<char>, n: nat) -> Seq<char> {
    prefix + nat_decimal(n)
}

/// A jump from block `from` to block `to`, with the edge recorded at both ends.
pub open spec fn jump_edge(f: FuncView, from: int, to: int) -> FuncView {
    let f1 = f.update_block(from, f.blocks[from].with_instr(InstrView::Jump(to as usize)));
    let f2 = f1.update_block(from, f1.blocks[from].with_succ(to as usize));
    f2.update_block(to, f2.blocks[to].with_pred(from as usize))
}

/// A branch from block `from` to blocks `t` and `e`, with the edges recorded.
pub open spec fn branch_edges(f: FuncView, from: int, cond: usize, t: int, e: int) -> FuncView {
    let f1 = f.update_block(
        from,
        f.blocks[from].with_instr(InstrView::Branch { cond, true_block: t as usize, false_block: e as usize }),
    );
    let f2 = f1.update_block(from, f1.blocks[from].with_succ(t as usize));
    let f3 = f2.update_block(from, f2.blocks[from].with_succ(e as usize));
    let f4 = f3.update_block(t, f3.blocks[t].with_pred(from as usize));
    f4.update_block(e, f4.blocks[e].with_pred(from as usize))
}

/// The last block jumps to block `to` unless it already ends with an instruction.
pub open spec fn close_branch(st: GenState, to: int) -> GenState {
    let f = cur(st);
    let last = f.blocks.len() - 1;
    if f.blocks[last].terminator() is None {
        with_cur(st, jump_edge(f, last, to))
    } else {
        st
    }
}

pub open spec fn unit_of(r: Result<usize, IrErrorView>) -> Result<(), IrErrorView> {
    match r {
        Ok(_) => Ok(()),
        Err(x) => Err(x),
    }
}

/// The generator after the instructions of a statement.
pub open spec fn gen_stmt_spec(st: GenState, s: StmtView) -> (Result<(), IrErrorView>, GenState)
    decreases s, 1nat,
{
    match s {
        StmtView::Let { name, init, .. } => match init {
            Some(e) => {
                let (r, s1) = gen_expr_spec(st, e);
                match r {
                    Err(x) => (Err(x), s1),
                    Ok(v) => (Ok(()), bind_local(s1, name, v)),
                }
            },
            None => (Ok(()), bind_local(with_fresh(st), name, next_val(st))),
        },
        StmtView::Assign { target, value, span } => {
            let (r, s1) = gen_expr_spec(st, value);
            match r {
                Err(x) => (Err(x), s1),
                Ok(val) => match target {
                    ExprView::Ident(name, _) => (Ok(()), bind_local(s1, name, val)),
                    ExprView::Index { object, index, .. } => {
                        let (ro, s2) = gen_expr_spec(s1, *object);
                        match ro {
                            Err(x) => (Err(x), s2),
                            Ok(_) => {
                                let (ri, s3) = gen_expr_spec(s2, *index);
                                match ri {
                                    Err(x) => (Err(x), s3),
                                    Ok(idx) => (Ok(()), emit(s3, InstrView::Store { addr: idx, value: val })),
                                }
                            },
                        }
                    },
                    _ => (Err(ierr("invalid assignment target"@, span)), s1),
                },
            }
        },
        StmtView::ExprStmt(e, _) => {
            let (r, s1) = gen_expr_spec(st, e);
            (unit_of(r), s1)
        },
        StmtView::Block(ss, _) => gen_block_spec(st, ss, 0),
        StmtView::If { .. } => gen_if_spec(st, s),
        StmtView::Return(value, _) => match value {
            Some(v) => {
                let (r, s1) = gen_expr_spec(st, v);
                match r {
                    Err(x) => (Err(x), s1),
                    Ok(val) => (Ok(()), emit(s1, InstrView::Return(Some(val)))),
                }
            },
            None => (Ok(()), emit(st, InstrView::Return(None))),
        },
        StmtView::While { .. } => gen_while_spec(st, s),
        _ => (Ok(()), st),
    }
}

/// An `if`: the condition, then the branches between new blocks.
pub open spec fn gen_if_spec(st: GenState, s: StmtView) -> (Result<(), IrErrorView>, GenState)
    decreases s, 0nat,
{
    match s {
        StmtView::If { condition, then_branch, else_branch, .. } => {
            let (rc, s1) = gen_expr_spec(st, condition);
            match rc {
                Err(x) => (Err(x), s1),
                Ok(cond) => {
                    let tb = cur_len(s1) as int;
                    let eb = tb + 1;
                    let mb = tb + 2;
                    let s2 = if_prologue(s1, cond);
                    let (rt, s3) = gen_stmt_spec(s2, *then_branch);
                    match rt {
                        Err(x) => (Err(x), s3),
                        Ok(_) => {
                            let s4 = close_branch(s3, mb);
                            match else_branch {
                                Some(b) => {
                                    let (re, s5) = gen_stmt_spec(s4, *b);
                                    match re {
                                        Err(x) => (Err(x), s5),
                                        Ok(_) => (Ok(()), close_branch(s5, mb)),
                                    }
                                },
                                None => (Ok(()), with_cur(s4, jump_edge(cur(s4), eb, mb))),
                            }
                        },
                    }
                },
            }
        },
        _ => (Ok(()), st),
    }
}

/// A `while`: new header, body and exit blocks, the condition in the header.
pub open spec fn gen_while_spec(st: GenState, s: StmtView) -> (Result<(), IrErrorView>, GenState)
    decreases s, 0nat,
{
    match s {
        StmtView::While { condition, body, .. } => {
            let h = cur_len(st) as int;
            let bb = h + 1;
            let ex = h + 2;
            let s1 = while_prologue(st);
            let (rc, s2) = gen_expr_spec(s1, condition);
            match rc {
                Err(x) => (Err(x), s2),
                Ok(cond) => {
                    let s3 = with_cur(s2, branch_edges(cur(s2), h, cond, bb, ex));
                    let (rb, s4) = gen_stmt_spec(s3, *body);
                    match rb {
                        Err(x) => (Err(x), s4),
                        Ok(_) => (Ok(()), with_cur(s4, jump_edge(cur(s4), cur(s4).blocks.len() - 1, h))),
                    }
                },
            }
        },
        _ => (Ok(()), st),
    }
}

/// Before the branches of an `if`: three new blocks (then, else, merge) and a branch to
/// the first two from the last block.
pub open spec fn if_prologue(st: GenState, cond: usize) -> GenState {
    let l = st.labels;
    let f = cur(st);
    let cb = f.blocks.len() - 1;
    let tb = f.blocks.len() as int;
    let f1 = f.add_block(label_text("then"@, l)).add_block(label_text("else"@, l + 1)).add_block(
        label_text("merge"@, l + 2),
    );
    GenState { current: Some(branch_edges(f1, cb, cond, tb, tb + 1)), labels: l + 3, ..st }
}

/// Before the condition of a `while`: three new blocks (header, body, exit) and a jump
/// to the header from the last block.
pub open spec fn while_prologue(st: GenState) -> GenState {
    let l = st.labels;
    let f = cur(st);
    let c = f.blocks.len() - 1;
    let h = f.blocks.len() as int;
    let f1 = f.add_block(label_text("while_header"@, l)).add_block(label_text("while_body"@, l + 1)).add_block(
        label_text("while_exit"@, l + 2),
    );
    GenState { current: Some(jump_edge(f1, c, h)), labels: l + 3, ..st }
}

/// Statements `i..` of a block in order; the first error stops it.
pub open spec fn gen_block_spec(st: GenState, ss: Seq<StmtView>, i: int) -> (Result<(), IrErrorView>, GenState)
    decreases ss, ss.len() - i,
{
    if 0 <= i < ss.len() {
        let (r, s1) = gen_stmt_spec(st, ss[i]);
        match r {
            Err(x) => (Err(x), s1),
            Ok(_) => gen_block_spec(s1, ss, i + 1),
        }
    } else {
        (Ok(()), st)
    }
}

/// Parameters `i..` bound to their positions.
pub open spec fn params_locals(params: Seq<(Seq<char>, Option<TypeView>)>, i: int, m: Map<Seq<char>, usize>) -> Map<
    Seq<char>,
    usize,
>
    decreases params.len() - i,
{
    if 0 <= i < params.len() {
        params_locals(params, i + 1, m.insert(params[i].0, i as usize))
    } else {
        m
    }
}

/// Generating a function: a new function with a `body` block, parameters as its first
/// values; it is added to the generated functions once its body is generated.
pub open spec fn gen_function_spec(st: GenState, name: Seq<char>, params: Seq<(Seq<char>, Option<TypeView>)>, body: StmtView) -> (
    Result<(), IrErrorView>,
    GenState,
) {
    let f = FuncView::new_func(name, params.len()).add_block("body"@);
    let s1 = GenState { current: Some(f), locals: params_locals(params, 0, Map::empty()), ..st };
    let (r, s2) = gen_stmt_spec(s1, body);
    match r {
        Err(x) => (Err(x), s2),
        Ok(_) => {
            let f2 = cur(s2);
            let f3 = if f2.blocks.last().terminator() is None {
                f2.push_instr(InstrView::Return(None))
            } else {
                f2
            };
            (Ok(()), GenState { functions: s2.functions.push(f3), current: None, ..s2 })
        },
    }
}

pub open spec fn gen_item_spec(st: GenState, item: ItemView) -> (Result<(), IrErrorView>, GenState) {
    match item {
        ItemView::Function(StmtView::FnDecl { name, params, body, .. }) => gen_function_spec(st, name, params, *body),
        ItemView::Expr(e) => {
            let s1 = if st.current is None {
                with_cur(st, FuncView::new_func("__toplevel"@, 0))
            } else {
                st
            };
            let (r, s2) = gen_expr_spec(s1, e);
            (unit_of(r), s2)
        },
        _ => (Ok(()), st),
    }
}

/// Items `i..`, their errors collected after those in `errors`.
pub open spec fn gen_items(st: GenState, items: Seq<ItemView>, i: int, errors: Seq<IrErrorView>) -> (
    Seq<IrErrorView>,
    GenState,
)
    decreases items.len() - i,
{
    if 0 <= i < items.len() {
        let (r, s1) = gen_item_spec(st, items[i]);
        match r {
            Ok(_) => gen_items(s1, items, i + 1, errors),
            Err(x) => gen_items(s1, items, i + 1, errors.push(x)),
        }
    } else {
        (errors, st)
    }
}

/// Generating a program: all functions generated so far, or the errors of its items.
pub open spec fn generate_spec(st: GenState, items: Seq<ItemView>) -> (Result<Seq<FuncView>, Seq<IrErrorView>>, GenState) {
    let (errs, s1) = gen_items(st, items, 0, Seq::empty());
    (
        if errs.len() == 0 {
            Ok(s1.functions)
        } else {
            Err(errs)
        },
        s1,
    )
}

/// Room for generating code of size `n`: fresh values, labels and blocks do not overflow.
pub open spec fn gen_fits(st: GenState, n: nat) -> bool {
    &&& st.labels + 3 * n <= usize::MAX
    &&& 3 * n + 2 <= usize::MAX
    &&& match st.current {
        Some(f) => f.next_value + n <= usize::MAX && f.blocks.len() + 3 * n <= usize::MAX && f.blocks.len() > 0,
        None => true,
    }
}

/// The local names, from an association list whose names are distinct.
pub open spec fn locals_map(s: Seq<(String, usize)>) -> Map<Seq<char>, usize>
    decreases s.len(),
{
    if s.len() == 0 {
        Map::empty()
    } else {
        locals_map(s.drop_last()).insert(s.last().0@, s.last().1)
    }
}

pub open spec fn local_names_distinct(s: Seq<(String, usize)>) -> bool {
    forall|i: int, j: int| 0 <= i < j < s.len() ==> s[i].0@ != s[j].0@
}

proof fn lemma_locals_map(s: Seq<(String, usize)>)
    requires
        local_names_distinct(s),
    ensures
        forall|i: int|
            0 <= i < s.len() ==> locals_map(s).contains_key(#[trigger] s[i].0@) && locals_map(s)[s[i].0@]
                == s[i].1,
        forall|k: Seq<char>|
            #[trigger] locals_map(s).contains_key(k) ==> exists|i: int| 0 <= i < s.len() && s[i].0@ == k,
    decreases s.len(),
{
    if s.len() > 0 {
        let t = s.drop_last();
        assert(local_names_distinct(t)) by {
            assert forall|i: int, j: int| 0 <= i < j < t.len() implies t[i].0@ != t[j].0@ by {
                assert(t[i] == s[i] && t[j] == s[j]);
            }
        }
        lemma_locals_map(t);
        assert forall|i: int| 0 <= i < s.len() implies locals_map(s).contains_key(#[trigger] s[i].0@)
            && locals_map(s)[s[i].0@] == s[i].1 by {
            if i < s.len() - 1 {
                assert(t[i] == s[i]);
                assert(s[i].0@ != s.last().0@);
            }
        }
        assert forall|k: Seq<char>| #[trigger] locals_map(s).contains_key(k) implies exists|i: int|
            0 <= i < s.len() && s[i].0@ == k by {
            if k != s.last().0@ {
                assert(locals_map(t).contains_key(k));
                let i = choose|i: int| 0 <= i < t.len() && t[i].0@ == k;
                assert(s[i] == t[i]);
            } else {
                assert(s[s.len() - 1].0@ == k);
            }
        }
    }
}

proof fn lemma_locals_update(s: Seq<(String, usize)>, j: int, x: (String, usize))
    requires
        local_names_distinct(s),
        0 <= j < s.len(),
        s[j].0@ == x.0@,
    ensures
        local_names_distinct(s.update(j, x)),
        locals_map(s.update(j, x)) == locals_map(s).insert(x.0@, x.1),
    decreases s.len(),
{
    let u = s.update(j, x);
    assert(local_names_distinct(u)) by {
        assert forall|a: int, b: int| 0 <= a < b < u.len() implies u[a].0@ != u[b].0@ by {
            assert(u[a].0@ == s[a].0@);
            assert(u[b].0@ == s[b].0@);
        }
    }
    let t = s.drop_last();
    if j == s.len() - 1 {
        assert(u.drop_last() =~= t);
        assert(locals_map(u) =~= locals_map(s).insert(x.0@, x.1));
    } else {
        assert(local_names_distinct(t)) by {
            assert forall|a: int, b: int| 0 <= a < b < t.len() implies t[a].0@ != t[b].0@ by {
                assert(t[a] == s[a] && t[b] == s[b]);
            }
        }
        assert(u.drop_last() =~= t.update(j, x));
        lemma_locals_update(t, j, x);
        assert(s.last().0@ != x.0@);
        assert(locals_map(u) =~= locals_map(s).insert(x.0@, x.1));
    }
}

pub open spec fn funcs_view(s: Seq<SsaFunction>) -> Seq<FuncView> {
    Seq::new(s.len(), |i: int| s[i]@)
}

pub open spec fn errors_view(s: Seq<IrError>) -> Seq<IrErrorView> {
    Seq::new(s.len(), |i: int| s[i]@)
}

pub open spec fn generate_result_view(r: Result<Vec<SsaFunction>, Vec<IrError>>) -> Result<Seq<FuncView>, Seq<IrErrorView>> {
    match r {
        Ok(v) => Ok(funcs_view(v@)),
        Err(e) => Err(errors_view(e@)),
    }
}

pub open spec fn cur_len(st: GenState) -> nat {
    cur(st).blocks.len()
}

/// The IR generator: walks the AST and produces SSA IR.
pub struct IrGenerator {
    /// Generated functions.
    pub functions: Vec<SsaFunction>,
    /// Current function being compiled.
    current: Option<SsaFunction>,
    /// The value of each local name.
    locals: Vec<(String, ValueId)>,
    /// Label counter.
    label_counter: usize,
}

impl IrGenerator {
    pub closed spec fn gs(&self) -> GenState {
        GenState {
            functions: funcs_view(self.functions@),
            current: match self.current {
                Some(f) => Some(f@),
                None => None,
            },
            locals: locals_map(self.locals@),
            labels: self.label_counter as nat,
        }
    }

    pub closed spec fn wf(&self) -> bool {
        local_names_distinct(self.locals@)
    }

    pub fn new() -> (g: IrGenerator)
        ensures
            g.wf(),
            g.gs() == (GenState { functions: Seq::empty(), current: None, locals: Map::empty(), labels: 0 }),
    {
        let g = IrGenerator { functions: Vec::new(), current: None, locals: Vec::new(), label_counter: 0 };
        assert(g.gs().functions =~= Seq::<FuncView>::empty());
        g
    }

    fn fresh_label(&mut self, prefix: &str) -> (l: String)
        requires
            old(self).label_counter < usize::MAX,
        ensures
            final(self).wf() == old(self).wf(),
            l@ == label_text(prefix@, old(self).gs().labels),
            final(self).gs() == (GenState { labels: old(self).gs().labels + 1, ..old(self).gs() }),
    {
        let n = u64_text(self.label_counter as u64);
        let label = concat2(prefix, n.as_str());
        self.label_counter = self.label_counter + 1;
        label
    }

    fn emit(&mut self, instr: SsaInstruction)
        requires
            old(self).gs().current matches Some(f) ==> f.blocks.len() > 0,
        ensures
            final(self).wf() == old(self).wf(),
            final(self).gs() == emit(old(self).gs(), instr@),
    {
        match &mut self.current {
            Some(func) => func.push_instr(instr),
            None => {},
        }
    }

    fn fresh(&mut self) -> (v: ValueId)
        requires
            old(self).gs().current is Some,
            cur(old(self).gs()).next_value < usize::MAX,
        ensures
            final(self).wf() == old(self).wf(),
            v == next_val(old(self).gs()),
            final(self).gs() == with_fresh(old(self).gs()),
    {
        match &mut self.current {
            Some(func) => func.fresh_value(),
            None => 0,
        }
    }

    /// The index of a local name.
    #[verifier::loop_isolation(false)]
    fn find_local(&self, name: &String) -> (r: Option<usize>)
        ensures
            match r {
                Some(j) => j < self.locals@.len() && self.locals@[j as int].0@ == name@,
                None => forall|k: int| 0 <= k < self.locals@.len() ==> self.locals@[k].0@ != name@,
            },
    {
        let mut j: usize = 0;
        while j < self.locals.len()
            invariant
                0 <= j <= self.locals@.len(),
                forall|k: int| 0 <= k < j ==> self.locals@[k].0@ != name@,
            decreases self.locals@.len() - j,
        {
            if self.locals[j].0.eq(name) {
                return Some(j);
            }
            j = j + 1;
        }
        None
    }

    fn bind(&mut self, name: &String, v: ValueId)
        requires
            old(self).wf(),
        ensures
            final(self).wf(),
            final(self).gs() == bind_local(old(self).gs(), name@, v),
    {
        let ghost old_locals = self.locals@;
        match self.find_local(name) {
            Some(j) => {
                let entry = (name.clone(), v);
                proof {
                    lemma_locals_update(old_locals, j as int, entry);
                }
                self.locals.set(j, entry);
            },
            None => {
                self.locals.push((name.clone(), v));
                proof {
                    let s = self.locals@;
                    assert(s.drop_last() =~= old_locals);
                    assert forall|a: int, b: int| 0 <= a < b < s.len() implies s[a].0@ != s[b].0@ by {
                        assert(s[a] == old_locals[a]);
                        if b < s.len() - 1 {
                            assert(s[b] == old_locals[b]);
                        }
                    }
                }
            },
        }
    }

    fn lookup_local(&self, name: &String) -> (r: Option<ValueId>)
        requires
            self.wf(),
        ensures
            match r {
                Some(v) => self.gs().locals.contains_key(name@) && self.gs().locals[name@] == v,
                None => !self.gs().locals.contains_key(name@),
            },
    {
        proof {
            lemma_locals_map(self.locals@);
        }
        let mut j: usize = 0;
        while j < self.locals.len()
            invariant
                0 <= j <= self.locals@.len(),
                forall|k: int| 0 <= k < j ==> self.locals@[k].0@ != name@,
                local_names_distinct(self.locals@),
                forall|i: int|
                    0 <= i < self.locals@.len() ==> locals_map(self.locals@).contains_key(#[trigger] self.locals@[i].0@)
                        && locals_map(self.locals@)[self.locals@[i].0@] == self.locals@[i].1,
                forall|k: Seq<char>|
                    #[trigger] locals_map(self.locals@).contains_key(k) ==> exists|i: int|
                        0 <= i < self.locals@.len() && self.locals@[i].0@ == k,
            decreases self.locals@.len() - j,
        {
            if self.locals[j].0.eq(name) {
                return Some(self.locals[j].1);
            }
            j = j + 1;
        }
        None
    }

    fn cur_len(&self) -> (n: usize)
        requires
            self.gs().current is Some,
        ensures
            n == cur_len(self.gs()),
    {
        match &self.current {
            Some(func) => func.blocks.len(),
            None => 0,
        }
    }

    fn cur_add_block(&mut self, label: String) -> (id: usize)
        requires
            old(self).gs().current is Some,
            cur_len(old(self).gs()) < usize::MAX,
        ensures
            final(self).wf() == old(self).wf(),
            id == cur_len(old(self).gs()),
            final(self).gs() == with_cur(old(self).gs(), cur(old(self).gs()).add_block(label@)),
    {
        match &mut self.current {
            Some(func) => func.add_block(label),
            None => 0,
        }
    }

    fn cur_instr(&mut self, b: usize, instr: SsaInstruction)
        requires
            old(self).gs().current is Some,
            b < cur_len(old(self).gs()),
        ensures
            final(self).wf() == old(self).wf(),
            final(self).gs() == with_cur(
                old(self).gs(),
                cur(old(self).gs()).update_block(b as int, cur(old(self).gs()).blocks[b as int].with_instr(instr@)),
            ),
    {
        match &mut self.current {
            Some(func) => func.add_instr_to(b, instr),
            None => {},
        }
    }

    fn cur_succ(&mut self, b: usize, t: usize)
        requires
            old(self).gs().current is Some,
            b < cur_len(old(self).gs()),
        ensures
            final(self).wf() == old(self).wf(),
            final(self).gs() == with_cur(
                old(self).gs(),
                cur(old(self).gs()).update_block(b as int, cur(old(self).gs()).blocks[b as int].with_succ(t)),
            ),
    {
        match &mut self.current {
            Some(func) => func.add_succ(b, t),
            None => {},
        }
    }

    fn cur_pred(&mut self, b: usize, p: usize)
        requires
            old(self).gs().current is Some,
            b < cur_len(old(self).gs()),
        ensures
            final(self).wf() == old(self).wf(),
            final(self).gs() == with_cur(
                old(self).gs(),
                cur(old(self).gs()).update_block(b as int, cur(old(self).gs()).blocks[b as int].with_pred(p)),
            ),
    {
        match &mut self.current {
            Some(func) => func.add_pred(b, p),
            None => {},
        }
    }

    /// Whether block `b` of the current function ends with an instruction.
    fn cur_terminated(&self, b: usize) -> (r: bool)
        requires
            self.gs().current is Some,
            b < cur_len(self.gs()),
        ensures
            r == (cur(self.gs()).blocks[b as int].terminator() is Some),
    {
        match &self.current {
            Some(func) => func.blocks[b].terminator().is_some(),
            None => false,
        }
    }
}

pub open spec fn ires(r: Result<ValueId, IrError>) -> Result<usize, IrErrorView> {
    match r {
        Ok(v) => Ok(v),
        Err(e) => Err(e@),
    }
}

pub open spec fn ures(r: Result<(), IrError>) -> Result<(), IrErrorView> {
    match r {
        Ok(_) => Ok(()),
        Err(e) => Err(e@),
    }
}

fn to_ssa_binop(op: BinOp) -> (r: SsaBinOp)
    ensures
        r == ssa_binop(op),
{
    match op {
        BinOp::Add => SsaBinOp::Add,
        BinOp::Sub => SsaBinOp::Sub,
        BinOp::Mul => SsaBinOp::Mul,
        BinOp::Div => SsaBinOp::Div,
        BinOp::Mod => SsaBinOp::Mod,
        BinOp::Eq => SsaBinOp::Eq,
        BinOp::Neq => SsaBinOp::Neq,
        BinOp::Lt => SsaBinOp::Lt,
        BinOp::Lte => SsaBinOp::Lte,
        BinOp::Gt => SsaBinOp::Gt,
        BinOp::Gte => SsaBinOp::Gte,
        BinOp::And => SsaBinOp::And,
        BinOp::Or => SsaBinOp::Or,
        _ => SsaBinOp::Add,
    }
}

fn to_ssa_unop(op: UnaryOp) -> (r: SsaUnaryOp)
    ensures
        r == ssa_unop(op),
{
    match op {
        UnaryOp::Neg => SsaUnaryOp::Neg,
        UnaryOp::Not => SsaUnaryOp::Not,
        UnaryOp::BitNot => SsaUnaryOp::Not,
    }
}

impl IrGenerator {
    /// A fresh value defined as a constant.
    fn gen_const(&mut self, value: SsaValue) -> (r: ValueId)
        requires
            old(self).gs().current is Some,
            gen_fits(old(self).gs(), 1),
        ensures
            final(self).wf() == old(self).wf(),
            (Ok::<usize, IrErrorView>(r), final(self).gs()) == gen_const(old(self).gs(), value@),
    {
        let dest = self.fresh();
        self.emit(SsaInstruction::Const { dest, value });
        dest
    }

    fn gen_expr(&mut self, expr: &Expr, Ghost(n): Ghost<nat>) -> (r: Result<ValueId, IrError>)
        requires
            old(self).wf(),
            old(self).gs().current is Some,
            gen_fits(old(self).gs(), n),
            expr_size(expr@) <= n,
        ensures
            final(self).wf(),
            final(self).gs().current is Some,
            gen_fits(final(self).gs(), (n - expr_size(expr@)) as nat),
            cur_len(final(self).gs()) >= cur_len(old(self).gs()),
            (ires(r), final(self).gs()) == gen_expr_spec(old(self).gs(), expr@),
        decreases expr, 1nat,
    {
        proof {
            reveal_strlit("string literals not yet supported in IR");
            reveal_strlit("undefined variable: ");
        }
        match expr {
            Expr::IntLiteral(v, _) => Ok(self.gen_const(SsaValue::Int(*v))),
            Expr::FloatLiteral(t, _) => Ok(self.gen_const(SsaValue::Float(t.clone()))),
            Expr::BoolLiteral(b, _) => Ok(self.gen_const(SsaValue::Bool(*b))),
            Expr::NullLiteral(_) => Ok(self.gen_const(SsaValue::Null)),
            Expr::StringLiteral(_, span) => Err(
                IrError { message: String::from_str("string literals not yet supported in IR"), span: *span },
            ),
            Expr::Ident(name, span) => match self.lookup_local(name) {
                Some(v) => Ok(v),
                None => Err(IrError { message: concat2("undefined variable: ", name.as_str()), span: *span }),
            },
            Expr::Binary { .. } => self.gen_operator(expr, Ghost(n)),
            Expr::Unary { .. } => self.gen_operator(expr, Ghost(n)),
            Expr::Call { .. } => self.gen_call(expr, Ghost(n)),
            Expr::Array(..) => self.gen_array(expr, Ghost(n)),
            _ => Ok(self.gen_const(SsaValue::Null)),
        }
    }

    fn gen_operator(&mut self, expr: &Expr, Ghost(n): Ghost<nat>) -> (r: Result<ValueId, IrError>)
        requires
            old(self).wf(),
            old(self).gs().current is Some,
            gen_fits(old(self).gs(), n),
            expr_size(expr@) <= n,
            expr is Binary || expr is Unary,
        ensures
            final(self).wf(),
            final(self).gs().current is Some,
            gen_fits(final(self).gs(), (n - expr_size(expr@)) as nat),
            cur_len(final(self).gs()) >= cur_len(old(self).gs()),
            (ires(r), final(self).gs()) == gen_expr_spec(old(self).gs(), expr@),
        decreases expr, 0nat,
    {
        match expr {
            Expr::Binary { op, left, right, .. } => {
                let ghost n1 = (n - expr_size(left@)) as nat;
                let lv = match self.gen_expr(left, Ghost(n)) {
                    Ok(v) => v,
                    Err(e) => return Err(e),
                };
                let rv = match self.gen_expr(right, Ghost(n1)) {
                    Ok(v) => v,
                    Err(e) => return Err(e),
                };
                let dest = self.fresh();
                self.emit(SsaInstruction::BinOp { dest, op: to_ssa_binop(*op), left: lv, right: rv });
                Ok(dest)
            },
            Expr::Unary { op, operand, .. } => {
                let ov = match self.gen_expr(operand, Ghost(n)) {
                    Ok(v) => v,
                    Err(e) => return Err(e),
                };
                let dest = self.fresh();
                self.emit(SsaInstruction::UnaryOp { dest, op: to_ssa_unop(*op), operand: ov });
                Ok(dest)
            },
            _ => Ok(0),
        }
    }

    #[verifier::loop_isolation(false)]
    fn gen_call(&mut self, expr: &Expr, Ghost(n): Ghost<nat>) -> (r: Result<ValueId, IrError>)
        requires
            old(self).wf(),
            old(self).gs().current is Some,
            gen_fits(old(self).gs(), n),
            expr_size(expr@) <= n,
            expr is Call,
        ensures
            final(self).wf(),
            final(self).gs().current is Some,
            gen_fits(final(self).gs(), (n - expr_size(expr@)) as nat),
            cur_len(final(self).gs()) >= cur_len(old(self).gs()),
            (ires(r), final(self).gs()) == gen_expr_spec(old(self).gs(), expr@),
        decreases expr, 0nat,
    {
        proof {
            reveal_strlit("<lambda>");
        }
        match expr {
            Expr::Call { callee, args, .. } => {
                proof {
                    lemma_exprs_view(args@);
                }
                let ghost argsv = exprs_view(args@);
                let ghost s0 = self.gs();
                let mut arg_vals: Vec<ValueId> = Vec::new();
                assert(argsv.subrange(0, argsv.len() as int) =~= argsv);
                let mut i: usize = 0;
                while i < args.len()
                    invariant
                        self.wf(),
                        self.gs().current is Some,
                        0 <= i <= args.len(),
                        cur_len(self.gs()) >= cur_len(s0),
                        gen_args_spec(s0, argsv, 0, Seq::empty()) == gen_args_spec(self.gs(), argsv, i as int, arg_vals@),
                        gen_fits(self.gs(), (n - (exprs_size(argsv) - exprs_size(argsv.subrange(i as int, argsv.len() as int)))) as nat),
                        exprs_size(argsv.subrange(i as int, argsv.len() as int)) <= exprs_size(argsv),
                    decreases args.len() - i,
                {
                    proof {
                        lemma_exprs_size_step(argsv, i as int);
                    }
                    let ghost m = (n - (exprs_size(argsv) - exprs_size(argsv.subrange(i as int, argsv.len() as int)))) as nat;
                    let v = match self.gen_expr(&args[i], Ghost(m)) {
                        Ok(v) => v,
                        Err(e) => return Err(e),
                    };
                    arg_vals.push(v);
                    i = i + 1;
                }
                assert(argsv.subrange(i as int, argsv.len() as int) =~= Seq::<ExprView>::empty());
                assert(gen_args_spec(s0, argsv, 0, Seq::empty()) == (Ok::<Seq<usize>, IrErrorView>(arg_vals@), self.gs()));
                let func_name = match &**callee {
                    Expr::Ident(name, _) => name.clone(),
                    _ => String::from_str("<lambda>"),
                };
                assert(func_name@ == match callee@ {
                    ExprView::Ident(nm, _) => nm,
                    _ => "<lambda>"@,
                });
                let dest = self.fresh();
                self.emit(SsaInstruction::Call { dest: Some(dest), func: func_name, args: arg_vals });
                Ok(dest)
            },
            _ => Ok(0),
        }
    }

    #[verifier::loop_isolation(false)]
    fn gen_array(&mut self, expr: &Expr, Ghost(n): Ghost<nat>) -> (r: Result<ValueId, IrError>)
        requires
            old(self).wf(),
            old(self).gs().current is Some,
            gen_fits(old(self).gs(), n),
            expr_size(expr@) <= n,
            expr is Array,
        ensures
            final(self).wf(),
            final(self).gs().current is Some,
            gen_fits(final(self).gs(), (n - expr_size(expr@)) as nat),
            cur_len(final(self).gs()) >= cur_len(old(self).gs()),
            (ires(r), final(self).gs()) == gen_expr_spec(old(self).gs(), expr@),
        decreases expr, 0nat,
    {
        match expr {
            Expr::Array(elems, _) => {
                proof {
                    lemma_exprs_view(elems@);
                }
                let ghost ev = exprs_view(elems@);
                let mut last = self.fresh();
                self.emit(SsaInstruction::Const { dest: last, value: SsaValue::Int(elems.len() as i64) });
                let ghost s1 = self.gs();
                let ghost d = last;
                assert(ev.subrange(0, ev.len() as int) =~= ev);
                let mut i: usize = 0;
                while i < elems.len()
                    invariant
                        self.wf(),
                        self.gs().current is Some,
                        0 <= i <= elems.len(),
                        cur_len(self.gs()) >= cur_len(s1),
                        gen_array_spec(s1, ev, 0, d) == gen_array_spec(self.gs(), ev, i as int, last),
                        gen_fits(self.gs(), (n - 1 - (exprs_size(ev) - exprs_size(ev.subrange(i as int, ev.len() as int)))) as nat),
                        exprs_size(ev.subrange(i as int, ev.len() as int)) <= exprs_size(ev),
                    decreases elems.len() - i,
                {
                    proof {
                        lemma_exprs_size_step(ev, i as int);
                    }
                    let ghost m = (n - 1 - (exprs_size(ev) - exprs_size(ev.subrange(i as int, ev.len() as int)))) as nat;
                    let v = match self.gen_expr(&elems[i], Ghost(m)) {
                        Ok(v) => v,
                        Err(e) => return Err(e),
                    };
                    self.emit(SsaInstruction::Store { addr: last, value: v });
                    last = v;
                    i = i + 1;
                }
                assert(ev.subrange(i as int, ev.len() as int) =~= Seq::<ExprView>::empty());
                Ok(last)
            },
            _ => Ok(0),
        }
    }
}

impl IrGenerator {
    fn jump_to(&mut self, from: usize, to: usize)
        requires
            old(self).gs().current is Some,
            from < cur_len(old(self).gs()),
            to < cur_len(old(self).gs()),
        ensures
            final(self).wf() == old(self).wf(),
            final(self).gs() == with_cur(old(self).gs(), jump_edge(cur(old(self).gs()), from as int, to as int)),
    {
        self.cur_instr(from, SsaInstruction::Jump(to));
        self.cur_succ(from, to);
        self.cur_pred(to, from);
    }

    fn branch_to(&mut self, from: usize, cond: ValueId, t: usize, e: usize)
        requires
            old(self).gs().current is Some,
            from < cur_len(old(self).gs()),
            t < cur_len(old(self).gs()),
            e < cur_len(old(self).gs()),
        ensures
            final(self).wf() == old(self).wf(),
            final(self).gs() == with_cur(
                old(self).gs(),
                branch_edges(cur(old(self).gs()), from as int, cond, t as int, e as int),
            ),
    {
        self.cur_instr(from, SsaInstruction::Branch { cond, true_block: t, false_block: e });
        self.cur_succ(from, t);
        self.cur_succ(from, e);
        self.cur_pred(t, from);
        self.cur_pred(e, from);
    }

    fn begin_if(&mut self, cond: ValueId) -> (r: (usize, usize))
        requires
            old(self).gs().current is Some,
            cur_len(old(self).gs()) > 0,
            cur_len(old(self).gs()) + 3 <= usize::MAX,
            old(self).gs().labels + 3 <= usize::MAX,
        ensures
            final(self).wf() == old(self).wf(),
            final(self).gs() == if_prologue(old(self).gs(), cond),
            r.0 == cur_len(old(self).gs()) + 1,
            r.1 == cur_len(old(self).gs()) + 2,
    {
        proof {
            reveal_strlit("then");
            reveal_strlit("else");
            reveal_strlit("merge");
        }
        let then_label = self.fresh_label("then");
        let else_label = self.fresh_label("else");
        let merge_label = self.fresh_label("merge");
        let current_block = self.cur_len() - 1;
        let then_block = self.cur_add_block(then_label);
        let else_block = self.cur_add_block(else_label);
        let merge_block = self.cur_add_block(merge_label);
        self.branch_to(current_block, cond, then_block, else_block);
        (else_block, merge_block)
    }

    fn begin_while(&mut self) -> (r: usize)
        requires
            old(self).gs().current is Some,
            cur_len(old(self).gs()) > 0,
            cur_len(old(self).gs()) + 3 <= usize::MAX,
            old(self).gs().labels + 3 <= usize::MAX,
        ensures
            final(self).wf() == old(self).wf(),
            final(self).gs() == while_prologue(old(self).gs()),
            r == cur_len(old(self).gs()),
    {
        proof {
            reveal_strlit("while_header");
            reveal_strlit("while_body");
            reveal_strlit("while_exit");
        }
        let header_label = self.fresh_label("while_header");
        let body_label = self.fresh_label("while_body");
        let exit_label = self.fresh_label("while_exit");
        let current = self.cur_len() - 1;
        let header = self.cur_add_block(header_label);
        self.cur_add_block(body_label);
        self.cur_add_block(exit_label);
        self.jump_to(current, header);
        header
    }
}

impl IrGenerator {
    /// The last block jumps to block `to` unless it already ends with an instruction.
    fn close_branch(&mut self, to: usize)
        requires
            old(self).gs().current is Some,
            cur_len(old(self).gs()) > 0,
            to < cur_len(old(self).gs()),
        ensures
            final(self).wf() == old(self).wf(),
            final(self).gs() == close_branch(old(self).gs(), to as int),
    {
        let last = self.cur_len() - 1;
        if !self.cur_terminated(last) {
            self.cur_instr(last, SsaInstruction::Jump(to));
            self.cur_succ(last, to);
            self.cur_pred(to, last);
        }
    }

    fn gen_stmt(&mut self, stmt: &Stmt, Ghost(n): Ghost<nat>) -> (r: Result<(), IrError>)
        requires
            old(self).wf(),
            old(self).gs().current is Some,
            gen_fits(old(self).gs(), n),
            stmt_size(stmt@) <= n,
        ensures
            final(self).wf(),
            final(self).gs().current is Some,
            gen_fits(final(self).gs(), (n - stmt_size(stmt@)) as nat),
            cur_len(final(self).gs()) >= cur_len(old(self).gs()),
            (ures(r), final(self).gs()) == gen_stmt_spec(old(self).gs(), stmt@),
        decreases stmt, 1nat,
    {
        proof {
            reveal_strlit("invalid assignment target");
        }
        match stmt {
            Stmt::Let { name, init, .. } => {
                match init {
                    Some(expr) => {
                        let val = match self.gen_expr(expr, Ghost(n)) {
                            Ok(v) => v,
                            Err(e) => return Err(e),
                        };
                        self.bind(name, val);
                    },
                    None => {
                        let v = self.fresh();
                        self.bind(name, v);
                    },
                }
                Ok(())
            },
            Stmt::Assign { target, value, span } => {
                let val = match self.gen_expr(value, Ghost(n)) {
                    Ok(v) => v,
                    Err(e) => return Err(e),
                };
                let ghost n1 = (n - expr_size(value@)) as nat;
                match target {
                    Expr::Ident(name, _) => {
                        self.bind(name, val);
                        Ok(())
                    },
                    Expr::Index { object, index, .. } => {
                        assert(expr_size(target@) == 1 + expr_size(object@) + expr_size(index@));
                        let ghost n2 = (n1 - expr_size(object@)) as nat;
                        match self.gen_expr(object, Ghost(n1)) {
                            Ok(_) => {},
                            Err(e) => return Err(e),
                        }
                        let idx = match self.gen_expr(index, Ghost(n2)) {
                            Ok(v) => v,
                            Err(e) => return Err(e),
                        };
                        self.emit(SsaInstruction::Store { addr: idx, value: val });
                        Ok(())
                    },
                    _ => Err(IrError { message: String::from_str("invalid assignment target"), span: *span }),
                }
            },
            Stmt::ExprStmt(expr, _) => {
                match self.gen_expr(expr, Ghost(n)) {
                    Ok(_) => {},
                    Err(e) => return Err(e),
                }
                Ok(())
            },
            Stmt::Block(..) => self.gen_block(stmt, Ghost(n)),
            Stmt::If { .. } => self.gen_if(stmt, Ghost(n)),
            Stmt::Return(value, _) => {
                let val = match value {
                    Some(v) => match self.gen_expr(v, Ghost(n)) {
                        Ok(x) => Some(x),
                        Err(e) => return Err(e),
                    },
                    None => None,
                };
                self.emit(SsaInstruction::Return(val));
                Ok(())
            },
            Stmt::While { .. } => self.gen_while(stmt, Ghost(n)),
            _ => Ok(()),
        }
    }

    #[verifier::loop_isolation(false)]
    fn gen_block(&mut self, stmt: &Stmt, Ghost(n): Ghost<nat>) -> (r: Result<(), IrError>)
        requires
            old(self).wf(),
            old(self).gs().current is Some,
            gen_fits(old(self).gs(), n),
            stmt_size(stmt@) <= n,
            stmt is Block,
        ensures
            final(self).wf(),
            final(self).gs().current is Some,
            gen_fits(final(self).gs(), (n - stmt_size(stmt@)) as nat),
            cur_len(final(self).gs()) >= cur_len(old(self).gs()),
            (ures(r), final(self).gs()) == gen_stmt_spec(old(self).gs(), stmt@),
        decreases stmt, 0nat,
    {
        match stmt {
            Stmt::Block(stmts, _) => {
                proof {
                    lemma_stmts_view(stmts@);
                }
                let ghost sv = stmts_view(stmts@);
                let ghost s0 = self.gs();
                assert(sv.subrange(0, sv.len() as int) =~= sv);
                let mut i: usize = 0;
                while i < stmts.len()
                    invariant
                        self.wf(),
                        self.gs().current is Some,
                        0 <= i <= stmts.len(),
                        cur_len(self.gs()) >= cur_len(s0),
                        gen_block_spec(s0, sv, 0) == gen_block_spec(self.gs(), sv, i as int),
                        gen_fits(self.gs(), (n - 1 - (stmts_size(sv) - stmts_size(sv.subrange(i as int, sv.len() as int)))) as nat),
                        stmts_size(sv.subrange(i as int, sv.len() as int)) <= stmts_size(sv),
                    decreases stmts.len() - i,
                {
                    proof {
                        lemma_stmts_size_step(sv, i as int);
                    }
                    let ghost m = (n - 1 - (stmts_size(sv) - stmts_size(sv.subrange(i as int, sv.len() as int)))) as nat;
                    match self.gen_stmt(&stmts[i], Ghost(m)) {
                        Ok(_) => {},
                        Err(e) => return Err(e),
                    }
                    i = i + 1;
                }
                Ok(())
            },
            _ => Ok(()),
        }
    }

    #[verifier::rlimit(60)]
    fn gen_if(&mut self, stmt: &Stmt, Ghost(n): Ghost<nat>) -> (r: Result<(), IrError>)
        requires
            old(self).wf(),
            old(self).gs().current is Some,
            gen_fits(old(self).gs(), n),
            stmt_size(stmt@) <= n,
            stmt is If,
        ensures
            final(self).wf(),
            final(self).gs().current is Some,
            gen_fits(final(self).gs(), (n - stmt_size(stmt@)) as nat),
            cur_len(final(self).gs()) >= cur_len(old(self).gs()),
            (ures(r), final(self).gs()) == gen_stmt_spec(old(self).gs(), stmt@),
        decreases stmt, 0nat,
    {
        proof {
            reveal_strlit("then");
            reveal_strlit("else");
            reveal_strlit("merge");
        }
        match stmt {
            Stmt::If { condition, then_branch, else_branch, .. } => {
                let cond = match self.gen_expr(condition, Ghost(n)) {
                    Ok(v) => v,
                    Err(e) => return Err(e),
                };
                let ghost m = (n - expr_size(condition@) - 1) as nat;
                let (else_block, merge_block) = self.begin_if(cond);
                match self.gen_stmt(then_branch, Ghost(m)) {
                    Ok(_) => {},
                    Err(e) => return Err(e),
                }
                self.close_branch(merge_block);
                match else_branch {
                    Some(else_b) => {
                        let ghost m2 = (m - stmt_size(then_branch@)) as nat;
                        match self.gen_stmt(else_b, Ghost(m2)) {
                            Ok(_) => {},
                            Err(e) => return Err(e),
                        }
                        self.close_branch(merge_block);
                    },
                    None => {
                        self.jump_to(else_block, merge_block);
                    },
                }
                Ok(())
            },
            _ => Ok(()),
        }
    }

    fn gen_while(&mut self, stmt: &Stmt, Ghost(n): Ghost<nat>) -> (r: Result<(), IrError>)
        requires
            old(self).wf(),
            old(self).gs().current is Some,
            gen_fits(old(self).gs(), n),
            stmt_size(stmt@) <= n,
            stmt is While,
        ensures
            final(self).wf(),
            final(self).gs().current is Some,
            gen_fits(final(self).gs(), (n - stmt_size(stmt@)) as nat),
            cur_len(final(self).gs()) >= cur_len(old(self).gs()),
            (ures(r), final(self).gs()) == gen_stmt_spec(old(self).gs(), stmt@),
        decreases stmt, 0nat,
    {
        proof {
            reveal_strlit("while_header");
            reveal_strlit("while_body");
            reveal_strlit("while_exit");
        }
        match stmt {
            Stmt::While { condition, body, .. } => {
                let header = self.begin_while();
                let ghost m = (n - 1) as nat;
                let cond = match self.gen_expr(condition, Ghost(m)) {
                    Ok(v) => v,
                    Err(e) => return Err(e),
                };
                self.branch_to(header, cond, header + 1, header + 2);
                let ghost m2 = (m - expr_size(condition@)) as nat;
                match self.gen_stmt(body, Ghost(m2)) {
                    Ok(_) => {},
                    Err(e) => return Err(e),
                }
                let last_body = self.cur_len() - 1;
                self.jump_to(last_body, header);
                Ok(())
            },
            _ => Ok(()),
        }
    }
}

impl IrGenerator {
    #[verifier::loop_isolation(false)]
    fn gen_function(&mut self, name: &str, params: &[(String, Option<Type>)], body: &Stmt, Ghost(n): Ghost<nat>) -> (r: Result<(), IrError>)
        requires
            old(self).wf(),
            gen_fits(old(self).gs(), n),
            2 + params@.len() + stmt_size(body@) <= n,
        ensures
            final(self).wf(),
            gen_fits(final(self).gs(), (n - (2 + params@.len() + stmt_size(body@))) as nat),
            (ures(r), final(self).gs()) == gen_function_spec(old(self).gs(), name@, params_view(params@), body@),
    {
        proof {
            reveal_strlit("body");
        }
        let ghost pv = params_view(params@);
        let param_count = params.len();
        let mut func = SsaFunction::new(String::from_str(name), param_count);
        func.add_block(String::from_str("body"));
        self.current = Some(func);
        self.locals = Vec::new();
        assert(locals_map(self.locals@) =~= Map::<Seq<char>, usize>::empty());
        let ghost st0 = self.gs();
        let mut i: usize = 0;
        while i < params.len()
            invariant
                self.wf(),
                0 <= i <= params.len(),
                pv.len() == params.len(),
                params_locals(pv, 0, Map::empty()) == params_locals(pv, i as int, self.gs().locals),
                self.gs() == (GenState { locals: self.gs().locals, ..st0 }),
            decreases params.len() - i,
        {
            self.bind(&params[i].0, i);
            i = i + 1;
        }
        let ghost m = (n - 2 - params@.len()) as nat;
        match self.gen_stmt(body, Ghost(m)) {
            Ok(_) => {},
            Err(e) => return Err(e),
        }
        let last = self.cur_len() - 1;
        if !self.cur_terminated(last) {
            self.emit(SsaInstruction::Return(None));
        }
        match self.current.take() {
            Some(f) => {
                let ghost fs = self.functions@;
                self.functions.push(f);
                assert(funcs_view(self.functions@) =~= funcs_view(fs).push(f@));
            },
            None => {},
        }
        Ok(())
    }

    fn gen_item(&mut self, item: &Item, Ghost(n): Ghost<nat>) -> (r: Result<(), IrError>)
        requires
            old(self).wf(),
            gen_fits(old(self).gs(), n),
            item_size(item@) <= n,
        ensures
            final(self).wf(),
            gen_fits(final(self).gs(), (n - item_size(item@)) as nat),
            (ures(r), final(self).gs()) == gen_item_spec(old(self).gs(), item@),
    {
        proof {
            reveal_strlit("__toplevel");
        }
        match item {
            Item::Function(stmt) => match stmt {
                Stmt::FnDecl { name, params, body, .. } => self.gen_function(name.as_str(), params.as_slice(), body, Ghost(n)),
                _ => Ok(()),
            },
            Item::Expr(expr) => {
                if self.current.is_none() {
                    let func = SsaFunction::new(String::from_str("__toplevel"), 0);
                    self.current = Some(func);
                }
                let ghost m = (n - 1) as nat;
                match self.gen_expr(expr, Ghost(m)) {
                    Ok(_) => Ok(()),
                    Err(e) => Err(e),
                }
            },
            _ => Ok(()),
        }
    }

    /// Generate IR for a full program: the functions generated so far, or the errors.
    #[verifier::loop_isolation(false)]
    pub fn generate(&mut self, program: &Program) -> (r: Result<Vec<SsaFunction>, Vec<IrError>>)
        requires
            old(self).wf(),
            gen_fits(old(self).gs(), items_size(program@)),
        ensures
            final(self).wf(),
            (generate_result_view(r), final(self).gs()) == generate_spec(old(self).gs(), program@),
    {
        let ghost items = program@;
        let ghost s0 = self.gs();
        let mut errors: Vec<IrError> = Vec::new();
        assert(errors_view(errors@) =~= Seq::<IrErrorView>::empty());
        assert(items.subrange(0, items.len() as int) =~= items);
        let mut i: usize = 0;
        while i < program.items.len()
            invariant
                self.wf(),
                0 <= i <= program.items.len(),
                gen_items(s0, items, 0, Seq::empty()) == gen_items(self.gs(), items, i as int, errors_view(errors@)),
                gen_fits(self.gs(), (items_size(items) - (items_size(items) - items_size(items.subrange(i as int, items.len() as int)))) as nat),
                items_size(items.subrange(i as int, items.len() as int)) <= items_size(items),
            decreases program.items.len() - i,
        {
            proof {
                lemma_items_size_step(items, i as int);
            }
            let ghost m = items_size(items.subrange(i as int, items.len() as int));
            match self.gen_item(&program.items[i], Ghost(m)) {
                Ok(_) => {},
                Err(e) => {
                    proof {
                        assert(errors_view(errors@.push(e)) =~= errors_view(errors@).push(e@));
                    }
                    errors.push(e);
                },
            }
            i = i + 1;
        }
        if errors.len() == 0 {
            let mut out: Vec<SsaFunction> = Vec::new();
            let mut j: usize = 0;
            while j < self.functions.len()
                invariant
                    0 <= j <= self.functions.len(),
                    out.len() == j,
                    forall|k: int| 0 <= k < j ==> (#[trigger] out@[k])@ == self.functions@[k]@,
                decreases self.functions.len() - j,
            {
                out.push(self.functions[j].clone());
                j = j + 1;
            }
            assert(funcs_view(out@) =~= funcs_view(self.functions@));
            Ok(out)
        } else {
            Err(errors)
        }
    }
}

impl Default for IrGenerator {
    fn default() -> (g: IrGenerator)
        ensures
            g.wf(),
            g.gs() == (GenState { functions: Seq::empty(), current: None, locals: Map::empty(), labels: 0 }),
    {
        IrGenerator::new()
    }
}

} // verus!

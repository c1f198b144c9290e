// The debug text of syntax trees: the form a derived `Debug` gives the tree, with each
// float literal written as its number.
use vstd::prelude::*;
use crate::ast::{BinOp, Expr, ExprView, Stmt, StmtView, UnaryOp, exprs_view, stmts_view, lemma_exprs_view, lemma_stmts_view};
use crate::ast::{params_view, struct_fields_view};
use crate::lexer::Span;
use crate::symbol_table::{Type, TypeView, types_view, fields_view, opt_type_view, lemma_types_view, lemma_fields_view};
use crate::text::{nat_decimal, int_decimal, u64_text, i64_text};

verus! {

// ---- What the text is ----

pub open spec fn hex_digit(d: nat) -> char {
    if d < 10 {
        crate::text::digit_char(d)
    } else if d == 10 {
        'a'
    } else if d == 11 {
        'b'
    } else if d == 12 {
        'c'
    } else if d == 13 {
        'd'
    } else if d == 14 {
        'e'
    } else {
        'f'
    }
}

/// Lowercase hexadecimal digits of a number below 256, without leading zeros.
pub open spec fn hex_small(n: nat) -> Seq<char> {
    if n < 16 {
        seq![hex_digit(n)]
    } else {
        seq![hex_digit(n / 16), hex_digit(n % 16)]
    }
}

/// A character inside a quoted string: quote, backslash, NUL, tab, newline and carriage
/// return by their escapes, the other ASCII control characters as `\u{..}`, any other
/// character as itself.
pub open spec fn char_escape(c: char) -> Seq<char> {
    if c == '"' {
        seq!['\\', '"']
    } else if c == '\\' {
        seq!['\\', '\\']
    } else if c == '\0' {
        seq!['\\', '0']
    } else if c == '\t' {
        seq!['\\', 't']
    } else if c == '\n' {
        seq!['\\', 'n']
    } else if c == '\r' {
        seq!['\\', 'r']
    } else if (c as u32) < 0x20 || (c as u32) == 0x7f {
        seq!['\\', 'u', '{'] + hex_small(c as u32 as nat) + seq!['}']
    } else {
        seq![c]
    }
}

pub open spec fn escaped(s: Seq<char>) -> Seq<char>
    decreases s.len(),
{
    if s.len() == 0 {
        Seq::empty()
    } else {
        escaped(s.drop_last()) + char_escape(s.last())
    }
}

/// A string in double quotes, escaped.
pub open spec fn str_debug(s: Seq<char>) -> Seq<char> {
    seq!['"'] + escaped(s) + seq!['"']
}

/// Where `c` first occurs in `t`; the length of `t` where it does not.
pub open spec fn first_index(t: Seq<char>, c: char) -> int
    decreases t.len(),
{
    if t.len() == 0 {
        0
    } else if t[0] == c {
        0
    } else {
        1 + first_index(t.drop_first(), c)
    }
}

/// The number a float literal's text stands for, as a float prints it: the text without
/// leading zeros before the point and trailing zeros after it (one digit kept on each
/// side); a text with an exponent, or without a point, as written.
pub open spec fn float_debug(t: Seq<char>) -> Seq<char> {
    let p = first_index(t, '.');
    if t.contains('e') || t.contains('E') || p >= t.len() {
        t
    } else {
        strip_leading(t.take(p)) + seq!['.'] + strip_trailing(t.skip(p + 1))
    }
}

/// Leading zeros removed, one digit kept.
pub open spec fn strip_leading(s: Seq<char>) -> Seq<char>
    decreases s.len(),
{
    if s.len() > 1 && s[0] == '0' {
        strip_leading(s.drop_first())
    } else {
        s
    }
}

/// Trailing zeros removed, one digit kept.
pub open spec fn strip_trailing(s: Seq<char>) -> Seq<char>
    decreases s.len(),
{
    if s.len() > 1 && s.last() == '0' {
        strip_trailing(s.drop_last())
    } else {
        s
    }
}

pub open spec fn span_debug(s: Span) -> Seq<char> {
    "Span { start: "@ + nat_decimal(s.start as nat) + ", end: "@ + nat_decimal(s.end as nat) + ", line: "@
        + nat_decimal(s.line as nat) + ", col: "@ + nat_decimal(s.col as nat) + " }"@
}

pub open spec fn binop_debug(op: BinOp) -> Seq<char> {
    match op {
        BinOp::Add => "Add"@,
        BinOp::Sub => "Sub"@,
        BinOp::Mul => "Mul"@,
        BinOp::Div => "Div"@,
        BinOp::Mod => "Mod"@,
        BinOp::Eq => "Eq"@,
        BinOp::Neq => "Neq"@,
        BinOp::Lt => "Lt"@,
        BinOp::Lte => "Lte"@,
        BinOp::Gt => "Gt"@,
        BinOp::Gte => "Gte"@,
        BinOp::And => "And"@,
        BinOp::Or => "Or"@,
        BinOp::BitAnd => "BitAnd"@,
        BinOp::BitOr => "BitOr"@,
        BinOp::BitXor => "BitXor"@,
        BinOp::Shl => "Shl"@,
        BinOp::Shr => "Shr"@,
    }
}

pub open spec fn unop_debug(op: UnaryOp) -> Seq<char> {
    match op {
        UnaryOp::Neg => "Neg"@,
        UnaryOp::Not => "Not"@,
        UnaryOp::BitNot => "BitNot"@,
    }
}

/// Parts separated by `, `.
pub open spec fn joined(parts: Seq<Seq<char>>) -> Seq<char>
    decreases parts.len(),
{
    if parts.len() == 0 {
        Seq::empty()
    } else if parts.len() == 1 {
        parts[0]
    } else {
        joined(parts.drop_last()) + ", "@ + parts.last()
    }
}

/// Items in brackets, separated by `, `.
pub open spec fn list_debug(parts: Seq<Seq<char>>) -> Seq<char> {
    "["@ + joined(parts) + "]"@
}

pub open spec fn type_debug(t: TypeView) -> Seq<char>
    decreases t,
{
    match t {
        TypeView::Int => "Int"@,
        TypeView::Float => "Float"@,
        TypeView::Bool => "Bool"@,
        TypeView::String => "String"@,
        TypeView::Void => "Void"@,
        TypeView::Null => "Null"@,
        TypeView::Array(e) => "Array("@ + type_debug(*e) + ")"@,
        TypeView::Function(ps, r) => "Function("@ + list_debug(types_debug(ps)) + ", "@ + type_debug(*r) + ")"@,
        TypeView::Struct(n, fs) => "Struct("@ + str_debug(n) + ", "@ + list_debug(fields_debug(fs)) + ")"@,
        TypeView::Named(n) => "Named("@ + str_debug(n) + ")"@,
        TypeView::Generic(n) => "Generic("@ + str_debug(n) + ")"@,
    }
}

pub open spec fn types_debug(ts: Seq<TypeView>) -> Seq<Seq<char>>
    decreases ts,
{
    if ts.len() == 0 {
        Seq::empty()
    } else {
        seq![type_debug(ts[0])] + types_debug(ts.subrange(1, ts.len() as int))
    }
}

pub open spec fn fields_debug(fs: Seq<(Seq<char>, TypeView)>) -> Seq<Seq<char>>
    decreases fs,
{
    if fs.len() == 0 {
        Seq::empty()
    } else {
        seq!["("@ + str_debug(fs[0].0) + ", "@ + type_debug(fs[0].1) + ")"@] + fields_debug(
            fs.subrange(1, fs.len() as int),
        )
    }
}

pub open spec fn opt_type_debug(t: Option<TypeView>) -> Seq<char> {
    match t {
        Some(x) => "Some("@ + type_debug(x) + ")"@,
        None => "None"@,
    }
}

pub open spec fn params_debug(ps: Seq<(Seq<char>, Option<TypeView>)>) -> Seq<Seq<char>> {
    Seq::new(ps.len(), |i: int| "("@ + str_debug(ps[i].0) + ", "@ + opt_type_debug(ps[i].1) + ")"@)
}

/// The debug text of an expression: a variant's name, then its fields in round brackets
/// (tuple variants) or as `name: value` in braces (struct variants).
pub open spec fn expr_debug(e: ExprView) -> Seq<char>
    decreases e,
{
    match e {
        ExprView::IntLiteral(v, s) => "IntLiteral("@ + int_decimal(v as int) + ", "@ + span_debug(s) + ")"@,
        ExprView::FloatLiteral(t, s) => "FloatLiteral("@ + float_debug(t) + ", "@ + span_debug(s) + ")"@,
        ExprView::StringLiteral(t, s) => "StringLiteral("@ + str_debug(t) + ", "@ + span_debug(s) + ")"@,
        ExprView::BoolLiteral(b, s) => "BoolLiteral("@ + (if b {
            "true"@
        } else {
            "false"@
        }) + ", "@ + span_debug(s) + ")"@,
        ExprView::NullLiteral(s) => "NullLiteral("@ + span_debug(s) + ")"@,
        ExprView::Ident(n, s) => "Ident("@ + str_debug(n) + ", "@ + span_debug(s) + ")"@,
        ExprView::Binary { op, left, right, span } => "Binary { op: "@ + binop_debug(op) + ", left: "@ + expr_debug(
            *left,
        ) + ", right: "@ + expr_debug(*right) + ", span: "@ + span_debug(span) + " }"@,
        ExprView::Unary { op, operand, span } => "Unary { op: "@ + unop_debug(op) + ", operand: "@ + expr_debug(
            *operand,
        ) + ", span: "@ + span_debug(span) + " }"@,
        ExprView::Call { callee, args, span } => "Call { callee: "@ + expr_debug(*callee) + ", args: "@ + list_debug(
            exprs_debug(args),
        ) + ", span: "@ + span_debug(span) + " }"@,
        ExprView::Index { object, index, span } => "Index { object: "@ + expr_debug(*object) + ", index: "@
            + expr_debug(*index) + ", span: "@ + span_debug(span) + " }"@,
        ExprView::Member { object, field, span } => "Member { object: "@ + expr_debug(*object) + ", field: "@
            + str_debug(field) + ", span: "@ + span_debug(span) + " }"@,
        ExprView::Array(es, s) => "Array("@ + list_debug(exprs_debug(es)) + ", "@ + span_debug(s) + ")"@,
        ExprView::Cast { expr, ty, span } => "Cast { expr: "@ + expr_debug(*expr) + ", ty: "@ + type_debug(ty)
            + ", span: "@ + span_debug(span) + " }"@,
        ExprView::IfExpr { condition, then_branch, else_branch, span } => "IfExpr { condition: "@ + expr_debug(
            *condition,
        ) + ", then_branch: "@ + stmt_debug(*then_branch) + ", else_branch: "@ + match else_branch {
            Some(b) => "Some("@ + stmt_debug(*b) + ")"@,
            None => "None"@,
        } + ", span: "@ + span_debug(span) + " }"@,
        ExprView::Lambda { params, body, span } => "Lambda { params: "@ + list_debug(params_debug(params))
            + ", body: "@ + expr_debug(*body) + ", span: "@ + span_debug(span) + " }"@,
        ExprView::Typed { expr, ty, span } => "Typed { expr: "@ + expr_debug(*expr) + ", ty: "@ + type_debug(ty)
            + ", span: "@ + span_debug(span) + " }"@,
    }
}

pub open spec fn exprs_debug(es: Seq<ExprView>) -> Seq<Seq<char>>
    decreases es,
{
    if es.len() == 0 {
        Seq::empty()
    } else {
        seq![expr_debug(es[0])] + exprs_debug(es.subrange(1, es.len() as int))
    }
}

/// The debug text of a statement, in the same form.
pub open spec fn stmt_debug(st: StmtView) -> Seq<char>
    decreases st,
{
    match st {
        StmtView::Let { name, ty, init, span } => "Let { name: "@ + str_debug(name) + ", ty: "@ + opt_type_debug(ty)
            + ", init: "@ + match init {
            Some(e) => "Some("@ + expr_debug(e) + ")"@,
            None => "None"@,
        } + ", span: "@ + span_debug(span) + " }"@,
        StmtView::Assign { target, value, span } => "Assign { target: "@ + expr_debug(target) + ", value: "@
            + expr_debug(value) + ", span: "@ + span_debug(span) + " }"@,
        StmtView::ExprStmt(e, s) => "ExprStmt("@ + expr_debug(e) + ", "@ + span_debug(s) + ")"@,
        StmtView::Block(ss, s) => "Block("@ + list_debug(stmts_debug(ss)) + ", "@ + span_debug(s) + ")"@,
        StmtView::If { condition, then_branch, else_branch, span } => "If { condition: "@ + expr_debug(condition)
            + ", then_branch: "@ + stmt_debug(*then_branch) + ", else_branch: "@ + match else_branch {
            Some(b) => "Some("@ + stmt_debug(*b) + ")"@,
            None => "None"@,
        } + ", span: "@ + span_debug(span) + " }"@,
        StmtView::While { condition, body, span } => "While { condition: "@ + expr_debug(condition) + ", body: "@
            + stmt_debug(*body) + ", span: "@ + span_debug(span) + " }"@,
        StmtView::For { var, iterable, body, span } => "For { var: "@ + str_debug(var) + ", iterable: "@
            + expr_debug(iterable) + ", body: "@ + stmt_debug(*body) + ", span: "@ + span_debug(span) + " }"@,
        StmtView::Return(v, s) => "Return("@ + match v {
            Some(e) => "Some("@ + expr_debug(e) + ")"@,
            None => "None"@,
        } + ", "@ + span_debug(s) + ")"@,
        StmtView::Break(s) => "Break("@ + span_debug(s) + ")"@,
        StmtView::Continue(s) => "Continue("@ + span_debug(s) + ")"@,
        StmtView::FnDecl { name, params, return_type, body, span } => "FnDecl { name: "@ + str_debug(name)
            + ", params: "@ + list_debug(params_debug(params)) + ", return_type: "@ + opt_type_debug(return_type)
            + ", body: "@ + stmt_debug(*body) + ", span: "@ + span_debug(span) + " }"@,
        StmtView::StructDecl { name, fields, span } => "StructDecl { name: "@ + str_debug(name) + ", fields: "@
            + list_debug(fields_debug(fields)) + ", span: "@ + span_debug(span) + " }"@,
    }
}

pub open spec fn stmts_debug(ss: Seq<StmtView>) -> Seq<Seq<char>>
    decreases ss,
{
    if ss.len() == 0 {
        Seq::empty()
    } else {
        seq![stmt_debug(ss[0])] + stmts_debug(ss.subrange(1, ss.len() as int))
    }
}

// ---- Writing the text ----

proof fn lemma_first_index(t: Seq<char>, c: char)
    ensures
        0 <= first_index(t, c) <= t.len(),
        first_index(t, c) < t.len() ==> t[first_index(t, c)] == c,
        forall|k: int| 0 <= k < first_index(t, c) ==> t[k] != c,
    decreases t.len(),
{
    if t.len() > 0 && t[0] != c {
        lemma_first_index(t.drop_first(), c);
        assert forall|k: int| 0 <= k < first_index(t, c) implies t[k] != c by {
            if k > 0 {
                assert(t[k] == t.drop_first()[k - 1]);
            }
        }
    }
}

proof fn lemma_joined_step(parts: Seq<Seq<char>>, i: int)
    requires
        0 <= i < parts.len(),
    ensures
        joined(parts.take(i + 1)) == if i == 0 {
            parts[0]
        } else {
            joined(parts.take(i)) + ", "@ + parts[i]
        },
{
    assert(parts.take(i + 1).drop_last() =~= parts.take(i));
}

proof fn lemma_types_debug(ts: Seq<TypeView>)
    ensures
        types_debug(ts).len() == ts.len(),
        forall|i: int| 0 <= i < ts.len() ==> #[trigger] types_debug(ts)[i] == type_debug(ts[i]),
    decreases ts.len(),
{
    if ts.len() > 0 {
        lemma_types_debug(ts.subrange(1, ts.len() as int));
    }
}

proof fn lemma_fields_debug(fs: Seq<(Seq<char>, TypeView)>)
    ensures
        fields_debug(fs).len() == fs.len(),
        forall|i: int|
            0 <= i < fs.len() ==> #[trigger] fields_debug(fs)[i] == "("@ + str_debug(fs[i].0) + ", "@ + type_debug(fs[i].1)
                + ")"@,
    decreases fs.len(),
{
    if fs.len() > 0 {
        lemma_fields_debug(fs.subrange(1, fs.len() as int));
    }
}

proof fn lemma_exprs_debug(es: Seq<ExprView>)
    ensures
        exprs_debug(es).len() == es.len(),
        forall|i: int| 0 <= i < es.len() ==> #[trigger] exprs_debug(es)[i] == expr_debug(es[i]),
    decreases es.len(),
{
    if es.len() > 0 {
        lemma_exprs_debug(es.subrange(1, es.len() as int));
    }
}

proof fn lemma_stmts_debug(ss: Seq<StmtView>)
    ensures
        stmts_debug(ss).len() == ss.len(),
        forall|i: int| 0 <= i < ss.len() ==> #[trigger] stmts_debug(ss)[i] == stmt_debug(ss[i]),
    decreases ss.len(),
{
    if ss.len() > 0 {
        lemma_stmts_debug(ss.subrange(1, ss.len() as int));
    }
}

fn hex_str(d: u32) -> (r: &'static str)
    requires
        d < 16,
    ensures
        r@ == seq![hex_digit(d as nat)],
{
    proof {
        reveal_strlit("0");
        reveal_strlit("1");
        reveal_strlit("2");
        reveal_strlit("3");
        reveal_strlit("4");
        reveal_strlit("5");
        reveal_strlit("6");
        reveal_strlit("7");
        reveal_strlit("8");
        reveal_strlit("9");
        reveal_strlit("a");
        reveal_strlit("b");
        reveal_strlit("c");
        reveal_strlit("d");
        reveal_strlit("e");
        reveal_strlit("f");
    }
    if d == 0 {
        "0"
    } else if d == 1 {
        "1"
    } else if d == 2 {
        "2"
    } else if d == 3 {
        "3"
    } else if d == 4 {
        "4"
    } else if d == 5 {
        "5"
    } else if d == 6 {
        "6"
    } else if d == 7 {
        "7"
    } else if d == 8 {
        "8"
    } else if d == 9 {
        "9"
    } else if d == 10 {
        "a"
    } else if d == 11 {
        "b"
    } else if d == 12 {
        "c"
    } else if d == 13 {
        "d"
    } else if d == 14 {
        "e"
    } else {
        "f"
    }
}

fn put_nat(s: &mut String, n: u64)
    ensures
        final(s)@ == old(s)@ + nat_decimal(n as nat),
{
    let d = u64_text(n);
    s.append(d.as_str());
}

fn put_span(s: &mut String, sp: &Span)
    ensures
        final(s)@ == old(s)@ + span_debug(*sp),
{
    s.append("Span { start: ");
    put_nat(s, sp.start as u64);
    s.append(", end: ");
    put_nat(s, sp.end as u64);
    s.append(", line: ");
    put_nat(s, sp.line as u64);
    s.append(", col: ");
    put_nat(s, sp.col as u64);
    s.append(" }");
}

/// Append the escape of `t`'s character at `i`.
fn put_char_escape(s: &mut String, t: &str, i: usize)
    requires
        i < t@.len(),
    ensures
        final(s)@ == old(s)@ + char_escape(t@[i as int]),
{
    proof {
        reveal_strlit("\\\"");
        reveal_strlit("\\\\");
        reveal_strlit("\\0");
        reveal_strlit("\\t");
        reveal_strlit("\\n");
        reveal_strlit("\\r");
        reveal_strlit("\\u{");
        reveal_strlit("}");
    }
    let len = t.unicode_len();
    let c = t.get_char(i);
    if c == '"' {
        s.append("\\\"");
    } else if c == '\\' {
        s.append("\\\\");
    } else if c == '\0' {
        s.append("\\0");
    } else if c == '\t' {
        s.append("\\t");
    } else if c == '\n' {
        s.append("\\n");
    } else if c == '\r' {
        s.append("\\r");
    } else if (c as u32) < 0x20 || (c as u32) == 0x7f {
        let n = c as u32;
        s.append("\\u{");
        if n >= 16 {
            s.append(hex_str(n / 16));
            s.append(hex_str(n % 16));
        } else {
            s.append(hex_str(n));
        }
        s.append("}");
    } else {
        let one = t.substring_char(i, i + 1);
        assert(one@ =~= seq![c]);
        s.append(one);
    }
}

fn put_str_debug(s: &mut String, t: &str)
    ensures
        final(s)@ == old(s)@ + str_debug(t@),
{
    proof {
        reveal_strlit("\"");
    }
    let ghost start = s@;
    s.append("\"");
    let n = t.unicode_len();
    let mut i: usize = 0;
    while i < n
        invariant
            n == t@.len(),
            0 <= i <= n,
            s@ == start + seq!['"'] + escaped(t@.take(i as int)),
        decreases n - i,
    {
        proof {
            assert(t@.take(i + 1).drop_last() =~= t@.take(i as int));
        }
        put_char_escape(s, t, i);
        i = i + 1;
    }
    assert(t@.take(n as int) =~= t@);
    s.append("\"");
}

fn put_float(s: &mut String, t: &str)
    ensures
        final(s)@ == old(s)@ + float_debug(t@),
{
    let ghost v = t@;
    let n = t.unicode_len();
    let mut dot: usize = n;
    let mut exp = false;
    let mut i: usize = 0;
    while i < n
        invariant
            n == v.len(),
            v == t@,
            0 <= i <= n,
            dot <= n,
            dot == n ==> forall|k: int| 0 <= k < i ==> v[k] != '.',
            dot < n ==> dot < i && v[dot as int] == '.' && forall|k: int| 0 <= k < dot ==> v[k] != '.',
            exp == exists|k: int| 0 <= k < i && (v[k] == 'e' || v[k] == 'E'),
        decreases n - i,
    {
        let c = t.get_char(i);
        if c == '.' && dot == n {
            dot = i;
        }
        if c == 'e' || c == 'E' {
            exp = true;
        }
        i = i + 1;
    }
    proof {
        lemma_first_index(v, '.');
        let p = first_index(v, '.');
        if dot < n {
            if p < dot {
                assert(v[p] == '.');
            }
            if dot < p {
                assert(v[dot as int] != '.');
            }
        }
        if exp {
            let k = choose|k: int| 0 <= k < n && (v[k] == 'e' || v[k] == 'E');
            if v[k] == 'e' {
                assert(v.contains('e'));
            } else {
                assert(v.contains('E'));
            }
        } else {
            assert(!v.contains('e'));
            assert(!v.contains('E'));
        }
    }
    if exp || dot == n {
        s.append(t);
        return;
    }
    // Leading zeros of the whole part.
    let ghost w = v.take(dot as int);
    let mut a: usize = 0;
    assert(w.skip(0) =~= w);
    while a + 1 < dot && t.get_char(a) == '0'
        invariant
            dot < n,
            n == v.len(),
            v == t@,
            w == v.take(dot as int),
            0 <= a < dot || (a == 0 && dot == 0),
            strip_leading(w) == strip_leading(w.skip(a as int)),
        decreases dot - a,
    {
        assert(w.skip(a as int).drop_first() =~= w.skip(a + 1));
        assert(w.skip(a as int)[0] == v[a as int]);
        a = a + 1;
    }
    proof {
        if a + 1 < dot {
            assert(w.skip(a as int)[0] == v[a as int]);
        }
        assert(strip_leading(w.skip(a as int)) == w.skip(a as int));
    }
    // Trailing zeros of the fraction.
    let ghost x = v.skip(dot + 1);
    let mut b: usize = n;
    assert(x =~= v.subrange(dot + 1, n as int));
    while b - dot > 2 && t.get_char(b - 1) == '0'
        invariant
            dot < n,
            n == v.len(),
            v == t@,
            x == v.skip(dot + 1),
            dot + 1 <= b <= n,
            strip_trailing(x) == strip_trailing(v.subrange(dot + 1, b as int)),
        decreases b,
    {
        assert(v.subrange(dot + 1, b as int).drop_last() =~= v.subrange(dot + 1, b - 1));
        b = b - 1;
    }
    proof {
        let y = v.subrange(dot + 1, b as int);
        if b > dot + 2 {
            assert(y.last() == v[b - 1]);
        }
        assert(strip_trailing(y) == y);
        assert(w.skip(a as int) =~= v.subrange(a as int, dot as int));
        reveal_strlit(".");
    }
    s.append(t.substring_char(a, dot));
    s.append(".");
    s.append(t.substring_char(dot + 1, b));
}

fn put_binop(s: &mut String, op: BinOp)
    ensures
        final(s)@ == old(s)@ + binop_debug(op),
{
    let t = match op {
        BinOp::Add => "Add",
        BinOp::Sub => "Sub",
        BinOp::Mul => "Mul",
        BinOp::Div => "Div",
        BinOp::Mod => "Mod",
        BinOp::Eq => "Eq",
        BinOp::Neq => "Neq",
        BinOp::Lt => "Lt",
        BinOp::Lte => "Lte",
        BinOp::Gt => "Gt",
        BinOp::Gte => "Gte",
        BinOp::And => "And",
        BinOp::Or => "Or",
        BinOp::BitAnd => "BitAnd",
        BinOp::BitOr => "BitOr",
        BinOp::BitXor => "BitXor",
        BinOp::Shl => "Shl",
        BinOp::Shr => "Shr",
    };
    s.append(t);
}

fn put_unop(s: &mut String, op: UnaryOp)
    ensures
        final(s)@ == old(s)@ + unop_debug(op),
{
    let t = match op {
        UnaryOp::Neg => "Neg",
        UnaryOp::Not => "Not",
        UnaryOp::BitNot => "BitNot",
    };
    s.append(t);
}

#[verifier::loop_isolation(false)]
fn put_type_list(s: &mut String, ps: &Vec<Type>)
    ensures
        final(s)@ == old(s)@ + list_debug(types_debug(types_view(ps@))),
    decreases ps, 1nat,
{
    proof {
        lemma_types_view(ps@);
        lemma_types_debug(types_view(ps@));
    }
    let ghost parts = types_debug(types_view(ps@));
    let mut t = String::from_str("[");
    let mut i: usize = 0;
    assert(parts.take(0) =~= Seq::<Seq<char>>::empty());
    while i < ps.len()
        invariant
            0 <= i <= ps@.len(),
            parts == types_debug(types_view(ps@)),
            parts.len() == ps@.len(),
            forall|k: int| 0 <= k < ps@.len() ==> #[trigger] parts[k] == type_debug(ps@[k]@),
            t@ == "["@ + joined(parts.take(i as int)),
        decreases ps@.len() - i,
    {
        proof {
            lemma_joined_step(parts, i as int);
        }
        if i > 0 {
            t.append(", ");
        }
        t.append(type_text(&ps[i]).as_str());
        i = i + 1;
    }
    assert(parts.take(ps@.len() as int) =~= parts);
    t.append("]");
    s.append(t.as_str());
}

#[verifier::loop_isolation(false)]
fn put_type_fields(s: &mut String, fs: &Vec<(String, Type)>)
    ensures
        final(s)@ == old(s)@ + list_debug(fields_debug(fields_view(fs@))),
    decreases fs, 1nat,
{
    proof {
        lemma_fields_view(fs@);
        lemma_fields_debug(fields_view(fs@));
    }
    let ghost parts = fields_debug(fields_view(fs@));
    let mut t = String::from_str("[");
    let mut i: usize = 0;
    assert(parts.take(0) =~= Seq::<Seq<char>>::empty());
    while i < fs.len()
        invariant
            0 <= i <= fs@.len(),
            parts == fields_debug(fields_view(fs@)),
            parts.len() == fs@.len(),
            forall|k: int|
                0 <= k < fs@.len() ==> #[trigger] parts[k] == "("@ + str_debug(fs@[k].0@) + ", "@ + type_debug(fs@[k].1@)
                    + ")"@,
            t@ == "["@ + joined(parts.take(i as int)),
        decreases fs@.len() - i,
    {
        proof {
            lemma_joined_step(parts, i as int);
        }
        if i > 0 {
            t.append(", ");
        }
        let mut f = String::from_str("(");
        put_str_debug(&mut f, fs[i].0.as_str());
        f.append(", ");
        f.append(type_text(&fs[i].1).as_str());
        f.append(")");
        t.append(f.as_str());
        i = i + 1;
    }
    assert(parts.take(fs@.len() as int) =~= parts);
    t.append("]");
    s.append(t.as_str());
}

fn type_text(t: &Type) -> (r: String)
    ensures
        r@ == type_debug(t@),
    decreases t, 0nat,
{
    match t {
        Type::Int => String::from_str("Int"),
        Type::Float => String::from_str("Float"),
        Type::Bool => String::from_str("Bool"),
        Type::String => String::from_str("String"),
        Type::Void => String::from_str("Void"),
        Type::Null => String::from_str("Null"),
        Type::Array(e) => {
            let mut r = String::from_str("Array(");
            r.append(type_text(e).as_str());
            r.append(")");
            r
        },
        Type::Function(ps, ret) => {
            let mut r = String::from_str("Function(");
            put_type_list(&mut r, ps);
            r.append(", ");
            r.append(type_text(ret).as_str());
            r.append(")");
            r
        },
        Type::Struct(n, fs) => {
            let mut r = String::from_str("Struct(");
            put_str_debug(&mut r, n.as_str());
            r.append(", ");
            put_type_fields(&mut r, fs);
            r.append(")");
            r
        },
        Type::Named(n) => {
            let mut r = String::from_str("Named(");
            put_str_debug(&mut r, n.as_str());
            r.append(")");
            r
        },
        Type::Generic(n) => {
            let mut r = String::from_str("Generic(");
            put_str_debug(&mut r, n.as_str());
            r.append(")");
            r
        },
    }
}

fn put_type(s: &mut String, t: &Type)
    ensures
        final(s)@ == old(s)@ + type_debug(t@),
{
    s.append(type_text(t).as_str());
}

fn put_opt_type(s: &mut String, t: &Option<Type>)
    ensures
        final(s)@ == old(s)@ + opt_type_debug(opt_type_view(*t)),
{
    match t {
        Some(x) => {
            s.append("Some(");
            put_type(s, x);
            s.append(")");
        },
        None => s.append("None"),
    }
}

fn put_params(s: &mut String, ps: &Vec<(String, Option<Type>)>)
    ensures
        final(s)@ == old(s)@ + list_debug(params_debug(params_view(ps@))),
{
    let ghost parts = params_debug(params_view(ps@));
    s.append("[");
    let ghost base = s@;
    let mut i: usize = 0;
    assert(parts.take(0) =~= Seq::<Seq<char>>::empty());
    while i < ps.len()
        invariant
            0 <= i <= ps@.len(),
            parts == params_debug(params_view(ps@)),
            parts.len() == ps@.len(),
            s@ == base + joined(parts.take(i as int)),
        decreases ps@.len() - i,
    {
        proof {
            lemma_joined_step(parts, i as int);
        }
        if i > 0 {
            s.append(", ");
        }
        s.append("(");
        put_str_debug(s, ps[i].0.as_str());
        s.append(", ");
        put_opt_type(s, &ps[i].1);
        s.append(")");
        i = i + 1;
    }
    assert(parts.take(ps@.len() as int) =~= parts);
    s.append("]");
}

fn put_fields(s: &mut String, fs: &Vec<(String, Type)>)
    ensures
        final(s)@ == old(s)@ + list_debug(fields_debug(struct_fields_view(fs@))),
{
    let ghost parts = fields_debug(struct_fields_view(fs@));
    proof {
        lemma_fields_debug(struct_fields_view(fs@));
    }
    s.append("[");
    let ghost base = s@;
    let mut i: usize = 0;
    assert(parts.take(0) =~= Seq::<Seq<char>>::empty());
    while i < fs.len()
        invariant
            0 <= i <= fs@.len(),
            parts == fields_debug(struct_fields_view(fs@)),
            parts.len() == fs@.len(),
            forall|k: int|
                0 <= k < fs@.len() ==> #[trigger] parts[k] == "("@ + str_debug(fs@[k].0@) + ", "@ + type_debug(fs@[k].1@)
                    + ")"@,
            s@ == base + joined(parts.take(i as int)),
        decreases fs@.len() - i,
    {
        proof {
            lemma_joined_step(parts, i as int);
        }
        if i > 0 {
            s.append(", ");
        }
        s.append("(");
        put_str_debug(s, fs[i].0.as_str());
        s.append(", ");
        put_type(s, &fs[i].1);
        s.append(")");
        i = i + 1;
    }
    assert(parts.take(fs@.len() as int) =~= parts);
    s.append("]");
}

fn put_exprs(s: &mut String, es: &Vec<Expr>)
    ensures
        final(s)@ == old(s)@ + list_debug(exprs_debug(exprs_view(es@))),
    decreases es, 1nat,
{
    let ghost ev = exprs_view(es@);
    let ghost parts = exprs_debug(ev);
    proof {
        lemma_exprs_view(es@);
        lemma_exprs_debug(ev);
    }
    s.append("[");
    let ghost base = s@;
    let mut i: usize = 0;
    assert(parts.take(0) =~= Seq::<Seq<char>>::empty());
    while i < es.len()
        invariant
            0 <= i <= es@.len(),
            ev == exprs_view(es@),
            parts == exprs_debug(ev),
            parts.len() == es@.len(),
            forall|k: int| 0 <= k < es@.len() ==> #[trigger] parts[k] == expr_debug(es@[k]@),
            s@ == base + joined(parts.take(i as int)),
        decreases es@.len() - i,
    {
        proof {
            lemma_joined_step(parts, i as int);
        }
        if i > 0 {
            s.append(", ");
        }
        s.append(expr_text(&es[i]).as_str());
        i = i + 1;
    }
    assert(parts.take(es@.len() as int) =~= parts);
    s.append("]");
}

fn put_stmts(s: &mut String, ss: &Vec<Stmt>)
    ensures
        final(s)@ == old(s)@ + list_debug(stmts_debug(stmts_view(ss@))),
    decreases ss, 1nat,
{
    let ghost sv = stmts_view(ss@);
    let ghost parts = stmts_debug(sv);
    proof {
        lemma_stmts_view(ss@);
        lemma_stmts_debug(sv);
    }
    s.append("[");
    let ghost base = s@;
    let mut i: usize = 0;
    assert(parts.take(0) =~= Seq::<Seq<char>>::empty());
    while i < ss.len()
        invariant
            0 <= i <= ss@.len(),
            sv == stmts_view(ss@),
            parts == stmts_debug(sv),
            parts.len() == ss@.len(),
            forall|k: int| 0 <= k < ss@.len() ==> #[trigger] parts[k] == stmt_debug(ss@[k]@),
            s@ == base + joined(parts.take(i as int)),
        decreases ss@.len() - i,
    {
        proof {
            lemma_joined_step(parts, i as int);
        }
        if i > 0 {
            s.append(", ");
        }
        s.append(stmt_text(&ss[i]).as_str());
        i = i + 1;
    }
    assert(parts.take(ss@.len() as int) =~= parts);
    s.append("]");
}

fn put_else(s: &mut String, b: &Option<Box<Stmt>>)
    ensures
        final(s)@ == old(s)@ + match *b {
            Some(x) => "Some("@ + stmt_debug((*x)@) + ")"@,
            None => "None"@,
        },
    decreases b, 1nat,
{
    match b {
        Some(x) => {
            let mut t = String::from_str("Some(");
            t.append(stmt_text(x).as_str());
            t.append(")");
            s.append(t.as_str());
        },
        None => s.append("None"),
    }
}

fn put_opt_expr(s: &mut String, o: &Option<Expr>)
    ensures
        final(s)@ == old(s)@ + match *o {
            Some(x) => "Some("@ + expr_debug(x@) + ")"@,
            None => "None"@,
        },
    decreases o, 1nat,
{
    match o {
        Some(x) => {
            let mut t = String::from_str("Some(");
            t.append(expr_text(x).as_str());
            t.append(")");
            s.append(t.as_str());
        },
        None => s.append("None"),
    }
}

#[verifier::rlimit(40)]
fn expr_text(e: &Expr) -> (r: String)
    ensures
        r@ == expr_debug(e@),
    decreases e, 0nat,
{
    match e {
        Expr::IntLiteral(v, sp) => {
            let mut r = String::from_str("IntLiteral(");
            r.append(i64_text(*v).as_str());
            r.append(", ");
            put_span(&mut r, sp);
            r.append(")");
            r
        },
        Expr::FloatLiteral(t, sp) => {
            let mut r = String::from_str("FloatLiteral(");
            put_float(&mut r, t.as_str());
            r.append(", ");
            put_span(&mut r, sp);
            r.append(")");
            r
        },
        Expr::StringLiteral(t, sp) => {
            let mut r = String::from_str("StringLiteral(");
            put_str_debug(&mut r, t.as_str());
            r.append(", ");
            put_span(&mut r, sp);
            r.append(")");
            r
        },
        Expr::BoolLiteral(b, sp) => {
            let mut r = String::from_str("BoolLiteral(");
            r.append(
                if *b {
                    "true"
                } else {
                    "false"
                },
            );
            r.append(", ");
            put_span(&mut r, sp);
            r.append(")");
            r
        },
        Expr::NullLiteral(sp) => {
            let mut r = String::from_str("NullLiteral(");
            put_span(&mut r, sp);
            r.append(")");
            r
        },
        Expr::Ident(n, sp) => {
            let mut r = String::from_str("Ident(");
            put_str_debug(&mut r, n.as_str());
            r.append(", ");
            put_span(&mut r, sp);
            r.append(")");
            r
        },
        Expr::Binary { op, left, right, span } => {
            let mut r = String::from_str("Binary { op: ");
            put_binop(&mut r, *op);
            r.append(", left: ");
            r.append(expr_text(left).as_str());
            r.append(", right: ");
            r.append(expr_text(right).as_str());
            r.append(", span: ");
            put_span(&mut r, span);
            r.append(" }");
            r
        },
        Expr::Unary { op, operand, span } => {
            let mut r = String::from_str("Unary { op: ");
            put_unop(&mut r, *op);
            r.append(", operand: ");
            r.append(expr_text(operand).as_str());
            r.append(", span: ");
            put_span(&mut r, span);
            r.append(" }");
            r
        },
        Expr::Call { callee, args, span } => {
            let mut r = String::from_str("Call { callee: ");
            r.append(expr_text(callee).as_str());
            r.append(", args: ");
            put_exprs(&mut r, args);
            r.append(", span: ");
            put_span(&mut r, span);
            r.append(" }");
            r
        },
        Expr::Index { object, index, span } => {
            let mut r = String::from_str("Index { object: ");
            r.append(expr_text(object).as_str());
            r.append(", index: ");
            r.append(expr_text(index).as_str());
            r.append(", span: ");
            put_span(&mut r, span);
            r.append(" }");
            r
        },
        Expr::Member { object, field, span } => {
            let mut r = String::from_str("Member { object: ");
            r.append(expr_text(object).as_str());
            r.append(", field: ");
            put_str_debug(&mut r, field.as_str());
            r.append(", span: ");
            put_span(&mut r, span);
            r.append(" }");
            r
        },
        Expr::Array(es, sp) => {
            let mut r = String::from_str("Array(");
            put_exprs(&mut r, es);
            r.append(", ");
            put_span(&mut r, sp);
            r.append(")");
            r
        },
        Expr::Cast { expr, ty, span } => {
            let mut r = String::from_str("Cast { expr: ");
            r.append(expr_text(expr).as_str());
            r.append(", ty: ");
            put_type(&mut r, ty);
            r.append(", span: ");
            put_span(&mut r, span);
            r.append(" }");
            r
        },
        Expr::IfExpr { condition, then_branch, else_branch, span } => {
            let mut r = String::from_str("IfExpr { condition: ");
            r.append(expr_text(condition).as_str());
            r.append(", then_branch: ");
            r.append(stmt_text(then_branch).as_str());
            r.append(", else_branch: ");
            put_else(&mut r, else_branch);
            r.append(", span: ");
            put_span(&mut r, span);
            r.append(" }");
            r
        },
        Expr::Lambda { params, body, span } => {
            let mut r = String::from_str("Lambda { params: ");
            put_params(&mut r, params);
            r.append(", body: ");
            r.append(expr_text(body).as_str());
            r.append(", span: ");
            put_span(&mut r, span);
            r.append(" }");
            r
        },
        Expr::Typed { expr, ty, span } => {
            let mut r = String::from_str("Typed { expr: ");
            r.append(expr_text(expr).as_str());
            r.append(", ty: ");
            put_type(&mut r, ty);
            r.append(", span: ");
            put_span(&mut r, span);
            r.append(" }");
            r
        },
    }
}

#[verifier::rlimit(40)]
fn stmt_text(st: &Stmt) -> (r: String)
    ensures
        r@ == stmt_debug(st@),
    decreases st, 0nat,
{
    match st {
        Stmt::Let { name, ty, init, span } => {
            let mut r = String::from_str("Let { name: ");
            put_str_debug(&mut r, name.as_str());
            r.append(", ty: ");
            put_opt_type(&mut r, ty);
            r.append(", init: ");
            put_opt_expr(&mut r, init);
            r.append(", span: ");
            put_span(&mut r, span);
            r.append(" }");
            r
        },
        Stmt::Assign { target, value, span } => {
            let mut r = String::from_str("Assign { target: ");
            r.append(expr_text(target).as_str());
            r.append(", value: ");
            r.append(expr_text(value).as_str());
            r.append(", span: ");
            put_span(&mut r, span);
            r.append(" }");
            r
        },
        Stmt::ExprStmt(e, sp) => {
            let mut r = String::from_str("ExprStmt(");
            r.append(expr_text(e).as_str());
            r.append(", ");
            put_span(&mut r, sp);
            r.append(")");
            r
        },
        Stmt::Block(ss, sp) => {
            let mut r = String::from_str("Block(");
            put_stmts(&mut r, ss);
            r.append(", ");
            put_span(&mut r, sp);
            r.append(")");
            r
        },
        Stmt::If { condition, then_branch, else_branch, span } => {
            let mut r = String::from_str("If { condition: ");
            r.append(expr_text(condition).as_str());
            r.append(", then_branch: ");
            r.append(stmt_text(then_branch).as_str());
            r.append(", else_branch: ");
            put_else(&mut r, else_branch);
            r.append(", span: ");
            put_span(&mut r, span);
            r.append(" }");
            r
        },
        Stmt::While { condition, body, span } => {
            let mut r = String::from_str("While { condition: ");
            r.append(expr_text(condition).as_str());
            r.append(", body: ");
            r.append(stmt_text(body).as_str());
            r.append(", span: ");
            put_span(&mut r, span);
            r.append(" }");
            r
        },
        Stmt::For { var, iterable, body, span } => {
            let mut r = String::from_str("For { var: ");
            put_str_debug(&mut r, var.as_str());
            r.append(", iterable: ");
            r.append(expr_text(iterable).as_str());
            r.append(", body: ");
            r.append(stmt_text(body).as_str());
            r.append(", span: ");
            put_span(&mut r, span);
            r.append(" }");
            r
        },
        Stmt::Return(v, sp) => {
            let mut r = String::from_str("Return(");
            put_opt_expr(&mut r, v);
            r.append(", ");
            put_span(&mut r, sp);
            r.append(")");
            r
        },
        Stmt::Break(sp) => {
            let mut r = String::from_str("Break(");
            put_span(&mut r, sp);
            r.append(")");
            r
        },
        Stmt::Continue(sp) => {
            let mut r = String::from_str("Continue(");
            put_span(&mut r, sp);
            r.append(")");
            r
        },
        Stmt::FnDecl { name, params, return_type, body, span } => {
            let mut r = String::from_str("FnDecl { name: ");
            put_str_debug(&mut r, name.as_str());
            r.append(", params: ");
            put_params(&mut r, params);
            r.append(", return_type: ");
            put_opt_type(&mut r, return_type);
            r.append(", body: ");
            r.append(stmt_text(body).as_str());
            r.append(", span: ");
            put_span(&mut r, span);
            r.append(" }");
            r
        },
        Stmt::StructDecl { name, fields, span } => {
            let mut r = String::from_str("StructDecl { name: ");
            put_str_debug(&mut r, name.as_str());
            r.append(", fields: ");
            put_fields(&mut r, fields);
            r.append(", span: ");
            put_span(&mut r, span);
            r.append(" }");
            r
        },
    }
}

impl Expr {
    /// The debug text of the expression: the form a derived `Debug` gives it, with a float
    /// literal written as its number.
    pub fn debug_text(&self) -> (r: String)
        ensures
            r@ == expr_debug(self@),
    {
        expr_text(self)
    }
}

} // verus!

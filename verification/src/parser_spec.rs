// The grammar of the language, as the parser reads it: a recursive-descent reading of a
// token sequence from a position, giving a result and the position reached.
use vstd::prelude::*;
use crate::ast::{BinOp, UnaryOp, ExprView, StmtView, ItemView, AgentDeclView, SkillDeclView, TriggerDeclView, binop_of, precedence_spec, expr_span};
use crate::lexer::{Span, TokenKind, TokenKindView, TokenView, kind_text, same_variant_spec, tokenize_spec};
use crate::symbol_table::TypeView;

verus! {

/// The mathematical value of a parse error.
pub struct ParseErrorView {
    pub message: Seq<char>,
    pub span: Span,
}

/// Token sequences the parser accepts: at least one token, the last an end-of-file token.
pub open spec fn tokens_ok(toks: Seq<TokenView>) -> bool {
    &&& toks.len() > 0
    &&& toks.last().kind == TokenKindView::Simple(TokenKind::Eof)
}

/// The token looked at: the one at `pos`, or the last one past the end.
pub open spec fn peek_tok(toks: Seq<TokenView>, pos: int) -> TokenView {
    if 0 <= pos < toks.len() {
        toks[pos]
    } else {
        toks.last()
    }
}

pub open spec fn eof_zero() -> TokenView {
    TokenView {
        kind: TokenKindView::Simple(TokenKind::Eof),
        span: Span { start: 0, end: 0, line: 1, col: 1 },
    }
}

/// The token consumed at `pos`: past the end it is an end-of-file token at 1:1.
pub open spec fn next_tok(toks: Seq<TokenView>, pos: int) -> TokenView {
    if 0 <= pos < toks.len() {
        toks[pos]
    } else {
        eof_zero()
    }
}

/// The position after consuming a token (it stays at the end once there).
pub open spec fn next_pos(toks: Seq<TokenView>, pos: int) -> int {
    if 0 <= pos < toks.len() {
        pos + 1
    } else {
        pos
    }
}

pub open spec fn at_kind(toks: Seq<TokenView>, pos: int, k: TokenKind) -> bool {
    same_variant_spec(peek_tok(toks, pos).kind, k@)
}

pub open spec fn progress(toks: Seq<TokenView>, p: int, q: int) -> bool {
    0 <= p < q <= toks.len()
}

pub open spec fn expected_message(expected: TokenKindView, got: TokenKindView) -> Seq<char> {
    "expected "@ + kind_text(expected) + ", got "@ + kind_text(got)
}

pub open spec fn stuck(toks: Seq<TokenView>, pos: int) -> ParseErrorView {
    ParseErrorView { message: Seq::empty(), span: peek_tok(toks, pos).span }
}

/// `expect`: consume a token of the given kind.
pub open spec fn sp_expect(toks: Seq<TokenView>, pos: int, k: TokenKind) -> (Result<TokenView, ParseErrorView>, int) {
    let t = next_tok(toks, pos);
    let p1 = next_pos(toks, pos);
    if same_variant_spec(t.kind, k@) {
        (Ok(t), p1)
    } else {
        (Err(ParseErrorView { message: expected_message(k@, t.kind), span: t.span }), p1)
    }
}

/// `match_kind`: consume a token of the given kind if it is next.
pub open spec fn sp_match(toks: Seq<TokenView>, pos: int, k: TokenKind) -> int {
    if at_kind(toks, pos, k) {
        next_pos(toks, pos)
    } else {
        pos
    }
}

/// Consume an identifier naming `what`.
pub open spec fn sp_name(toks: Seq<TokenView>, pos: int, what: Seq<char>) -> (Result<Seq<char>, ParseErrorView>, int) {
    let t = next_tok(toks, pos);
    let p1 = next_pos(toks, pos);
    match t.kind {
        TokenKindView::Ident(s) => (Ok(s), p1),
        other => (
            Err(
                ParseErrorView {
                    message: "expected "@ + what + ", got "@ + kind_text(other),
                    span: peek_tok(toks, p1).span,
                },
            ),
            p1,
        ),
    }
}

// ---- Types ----

pub open spec fn sp_type(toks: Seq<TokenView>, pos: int) -> (Result<TypeView, ParseErrorView>, int)
    decreases toks.len() - pos, 2int,
{
    let t = peek_tok(toks, pos);
    let p1 = next_pos(toks, pos);
    match t.kind {
        TokenKindView::Ident(s) => if s == "int"@ {
            (Ok(TypeView::Int), p1)
        } else if s == "float"@ {
            (Ok(TypeView::Float), p1)
        } else if s == "bool"@ {
            (Ok(TypeView::Bool), p1)
        } else if s == "string"@ {
            (Ok(TypeView::String), p1)
        } else if s == "void"@ {
            (Ok(TypeView::Void), p1)
        } else {
            (Ok(TypeView::Named(s)), p1)
        },
        TokenKindView::Simple(TokenKind::LBracket) => if progress(toks, pos, p1) {
            let (r, p2) = sp_type(toks, p1);
            match r {
                Err(e) => (Err(e), p2),
                Ok(inner) => {
                    let (r2, p3) = sp_expect(toks, p2, TokenKind::RBracket);
                    match r2 {
                        Err(e) => (Err(e), p3),
                        Ok(_) => (Ok(TypeView::Array(Box::new(inner))), p3),
                    }
                },
            }
        } else {
            (Err(stuck(toks, pos)), pos)
        },
        TokenKindView::Simple(TokenKind::LParen) => if progress(toks, pos, p1) {
            let (rp, p2) = if at_kind(toks, p1, TokenKind::RParen) {
                (Ok(Seq::<TypeView>::empty()), p1)
            } else {
                sp_type_list(toks, p1, Seq::empty())
            };
            match rp {
                Err(e) => (Err(e), p2),
                Ok(params) => {
                    let (r3, p3) = sp_expect(toks, p2, TokenKind::RParen);
                    match r3 {
                        Err(e) => (Err(e), p3),
                        Ok(_) => {
                            let (r4, p4) = sp_expect(toks, p3, TokenKind::Arrow);
                            match r4 {
                                Err(e) => (Err(e), p4),
                                Ok(_) => if progress(toks, pos, p4) {
                                    let (r5, p5) = sp_type(toks, p4);
                                    match r5 {
                                        Err(e) => (Err(e), p5),
                                        Ok(ret) => (Ok(TypeView::Function(params, Box::new(ret))), p5),
                                    }
                                } else {
                                    (Err(stuck(toks, pos)), p4)
                                },
                            }
                        },
                    }
                },
            }
        } else {
            (Err(stuck(toks, pos)), pos)
        },
        other => (
            Err(ParseErrorView { message: "expected type, got "@ + kind_text(other), span: t.span }),
            pos,
        ),
    }
}

/// Comma-separated types, appended to `acc`.
pub open spec fn sp_type_list(toks: Seq<TokenView>, pos: int, acc: Seq<TypeView>) -> (Result<Seq<TypeView>, ParseErrorView>, int)
    decreases toks.len() - pos, 3int,
{
    if 0 <= pos <= toks.len() {
        let (r, p1) = sp_type(toks, pos);
        match r {
            Err(e) => (Err(e), p1),
            Ok(t) => {
                let p2 = sp_match(toks, p1, TokenKind::Comma);
                if p2 == p1 {
                    (Ok(acc.push(t)), p1)
                } else if progress(toks, pos, p2) {
                    sp_type_list(toks, p2, acc.push(t))
                } else {
                    (Err(stuck(toks, pos)), p2)
                }
            },
        }
    } else {
        (Err(stuck(toks, pos)), pos)
    }
}

// ---- Expressions ----

pub open spec fn sp_expression(toks: Seq<TokenView>, pos: int) -> (Result<ExprView, ParseErrorView>, int)
    decreases toks.len() - pos, 7int,
{
    sp_precedence(toks, pos, 0)
}

pub open spec fn binary_span(l: ExprView, r: ExprView) -> Span {
    Span {
        start: expr_span(l).start,
        end: expr_span(r).end,
        line: expr_span(l).line,
        col: expr_span(l).col,
    }
}

/// Precedence climbing: a unary operand, then operators binding at least `min_prec`.
pub open spec fn sp_precedence(toks: Seq<TokenView>, pos: int, min_prec: u8) -> (Result<ExprView, ParseErrorView>, int)
    decreases toks.len() - pos, 6int,
{
    let (r, p1) = sp_unary(toks, pos);
    match r {
        Err(e) => (Err(e), p1),
        Ok(left) => if progress(toks, pos, p1) {
            sp_prec_loop(toks, p1, min_prec, left)
        } else {
            (Err(stuck(toks, pos)), p1)
        },
    }
}

pub open spec fn sp_prec_loop(toks: Seq<TokenView>, pos: int, min_prec: u8, left: ExprView) -> (Result<ExprView, ParseErrorView>, int)
    decreases toks.len() - pos, 5int,
{
    match binop_of(peek_tok(toks, pos).kind) {
        None => (Ok(left), pos),
        Some(op) => {
            let prec = precedence_spec(op);
            if prec < min_prec {
                (Ok(left), pos)
            } else {
                let p1 = next_pos(toks, pos);
                if progress(toks, pos, p1) && prec < 255 {
                    let (r, p2) = sp_precedence(toks, p1, (prec + 1) as u8);
                    match r {
                        Err(e) => (Err(e), p2),
                        Ok(right) => {
                            let e = ExprView::Binary {
                                op,
                                left: Box::new(left),
                                right: Box::new(right),
                                span: binary_span(left, right),
                            };
                            if progress(toks, pos, p2) {
                                sp_prec_loop(toks, p2, min_prec, e)
                            } else {
                                (Err(stuck(toks, pos)), p2)
                            }
                        },
                    }
                } else {
                    (Err(stuck(toks, pos)), pos)
                }
            }
        },
    }
}

pub open spec fn sp_unary(toks: Seq<TokenView>, pos: int) -> (Result<ExprView, ParseErrorView>, int)
    decreases toks.len() - pos, 4int,
{
    let span = peek_tok(toks, pos).span;
    let p1 = next_pos(toks, pos);
    if at_kind(toks, pos, TokenKind::Minus) || at_kind(toks, pos, TokenKind::Bang) {
        if progress(toks, pos, p1) {
            let op = if at_kind(toks, pos, TokenKind::Minus) {
                UnaryOp::Neg
            } else {
                UnaryOp::Not
            };
            let (r, p2) = sp_unary(toks, p1);
            match r {
                Err(e) => (Err(e), p2),
                Ok(operand) => (Ok(ExprView::Unary { op, operand: Box::new(operand), span }), p2),
            }
        } else {
            (Err(stuck(toks, pos)), pos)
        }
    } else {
        sp_postfix(toks, pos)
    }
}

pub open spec fn sp_postfix(toks: Seq<TokenView>, pos: int) -> (Result<ExprView, ParseErrorView>, int)
    decreases toks.len() - pos, 3int,
{
    let (r, p1) = sp_primary(toks, pos);
    match r {
        Err(e) => (Err(e), p1),
        Ok(e) => if progress(toks, pos, p1) {
            sp_postfix_loop(toks, p1, e)
        } else {
            (Err(stuck(toks, pos)), p1)
        },
    }
}

/// Calls, indexing and member accesses following an expression.
pub open spec fn sp_postfix_loop(toks: Seq<TokenView>, pos: int, e: ExprView) -> (Result<ExprView, ParseErrorView>, int)
    decreases toks.len() - pos, 2int,
{
    let sp = expr_span(e);
    let p1 = next_pos(toks, pos);
    if at_kind(toks, pos, TokenKind::LParen) {
        if progress(toks, pos, p1) {
            let (ra, p2) = sp_expr_list(toks, p1, TokenKind::RParen);
            match ra {
                Err(err) => (Err(err), p2),
                Ok(args) => {
                    let (rc, p3) = sp_expect(toks, p2, TokenKind::RParen);
                    match rc {
                        Err(err) => (Err(err), p3),
                        Ok(close) => {
                            let call = ExprView::Call {
                                callee: Box::new(e),
                                args,
                                span: Span { start: sp.start, end: close.span.end, line: sp.line, col: sp.col },
                            };
                            if progress(toks, pos, p3) {
                                sp_postfix_loop(toks, p3, call)
                            } else {
                                (Err(stuck(toks, pos)), p3)
                            }
                        },
                    }
                },
            }
        } else {
            (Err(stuck(toks, pos)), pos)
        }
    } else if at_kind(toks, pos, TokenKind::LBracket) {
        if progress(toks, pos, p1) {
            let (ri, p2) = sp_expression(toks, p1);
            match ri {
                Err(err) => (Err(err), p2),
                Ok(index) => {
                    let (rc, p3) = sp_expect(toks, p2, TokenKind::RBracket);
                    match rc {
                        Err(err) => (Err(err), p3),
                        Ok(close) => {
                            let ix = ExprView::Index {
                                object: Box::new(e),
                                index: Box::new(index),
                                span: Span { start: sp.start, end: close.span.end, line: sp.line, col: sp.col },
                            };
                            if progress(toks, pos, p3) {
                                sp_postfix_loop(toks, p3, ix)
                            } else {
                                (Err(stuck(toks, pos)), p3)
                            }
                        },
                    }
                },
            }
        } else {
            (Err(stuck(toks, pos)), pos)
        }
    } else if at_kind(toks, pos, TokenKind::Dot) {
        if progress(toks, pos, p1) {
            let (rn, p2) = sp_name(toks, p1, "field name"@);
            match rn {
                Err(err) => (Err(err), p2),
                Ok(field) => {
                    let m = ExprView::Member { object: Box::new(e), field, span: sp };
                    if progress(toks, pos, p2) {
                        sp_postfix_loop(toks, p2, m)
                    } else {
                        (Err(stuck(toks, pos)), p2)
                    }
                },
            }
        } else {
            (Err(stuck(toks, pos)), pos)
        }
    } else {
        (Ok(e), pos)
    }
}

/// Comma-separated expressions up to a closing token, which is not consumed.
pub open spec fn sp_expr_list(toks: Seq<TokenView>, pos: int, close: TokenKind) -> (Result<Seq<ExprView>, ParseErrorView>, int)
    decreases toks.len() - pos, 8int,
{
    if at_kind(toks, pos, close) {
        (Ok(Seq::<ExprView>::empty()), pos)
    } else {
        let (r0, q0) = sp_expression(toks, pos);
        match r0 {
            Err(err) => (Err(err), q0),
            Ok(a0) => if progress(toks, pos, q0) {
                sp_args_rest(toks, q0, seq![a0])
            } else {
                (Err(stuck(toks, pos)), q0)
            },
        }
    }
}

/// Further comma-separated call arguments, appended to `acc`.
pub open spec fn sp_args_rest(toks: Seq<TokenView>, pos: int, acc: Seq<ExprView>) -> (Result<Seq<ExprView>, ParseErrorView>, int)
    decreases toks.len() - pos, 2int,
{
    if at_kind(toks, pos, TokenKind::Comma) {
        let p1 = next_pos(toks, pos);
        if progress(toks, pos, p1) {
            let (r, p2) = sp_expression(toks, p1);
            match r {
                Err(e) => (Err(e), p2),
                Ok(a) => if progress(toks, pos, p2) {
                    sp_args_rest(toks, p2, acc.push(a))
                } else {
                    (Err(stuck(toks, pos)), p2)
                },
            }
        } else {
            (Err(stuck(toks, pos)), pos)
        }
    } else {
        (Ok(acc), pos)
    }
}

/// The identifier an agent keyword stands for in expression position.
pub open spec fn keyword_ident(k: TokenKind) -> Option<Seq<char>> {
    match k {
        TokenKind::Emit => Some("emit"@),
        TokenKind::With => Some("with"@),
        TokenKind::On => Some("on"@),
        TokenKind::Do => Some("do"@),
        TokenKind::Timeout => Some("timeout"@),
        TokenKind::Retry => Some("retry"@),
        TokenKind::Guard => Some("guard"@),
        TokenKind::Trigger => Some("trigger"@),
        _ => None,
    }
}

pub open spec fn sp_primary(toks: Seq<TokenView>, pos: int) -> (Result<ExprView, ParseErrorView>, int)
    decreases toks.len() - pos, 1int,
{
    let t = next_tok(toks, pos);
    let p1 = next_pos(toks, pos);
    let span = t.span;
    match t.kind {
        TokenKindView::Int(v) => (Ok(ExprView::IntLiteral(v, span)), p1),
        TokenKindView::Float(s) => (Ok(ExprView::FloatLiteral(s, span)), p1),
        TokenKindView::Str(s) => (Ok(ExprView::StringLiteral(s, span)), p1),
        TokenKindView::Bool(b) => (Ok(ExprView::BoolLiteral(b, span)), p1),
        TokenKindView::Ident(s) => (Ok(ExprView::Ident(s, span)), p1),
        TokenKindView::Simple(TokenKind::Null) => (Ok(ExprView::NullLiteral(span)), p1),
        TokenKindView::Simple(TokenKind::LParen) => if progress(toks, pos, p1) {
            let (r, p2) = sp_expression(toks, p1);
            match r {
                Err(e) => (Err(e), p2),
                Ok(e) => {
                    let (rc, p3) = sp_expect(toks, p2, TokenKind::RParen);
                    match rc {
                        Err(err) => (Err(err), p3),
                        Ok(_) => (Ok(e), p3),
                    }
                },
            }
        } else {
            (Err(stuck(toks, pos)), p1)
        },
        TokenKindView::Simple(TokenKind::LBracket) => if progress(toks, pos, p1) {
            let (re, p2) = sp_expr_list(toks, p1, TokenKind::RBracket);
            match re {
                Err(err) => (Err(err), p2),
                Ok(elems) => {
                    let (rc, p3) = sp_expect(toks, p2, TokenKind::RBracket);
                    match rc {
                        Err(err) => (Err(err), p3),
                        Ok(_) => (Ok(ExprView::Array(elems, span)), p3),
                    }
                },
            }
        } else {
            (Err(stuck(toks, pos)), p1)
        },
        TokenKindView::Simple(k) => match keyword_ident(k) {
            Some(name) => (Ok(ExprView::Ident(name, span)), p1),
            None => (
                Err(
                    ParseErrorView {
                        message: "unexpected token: "@ + kind_text(t.kind),
                        span,
                    },
                ),
                p1,
            ),
        },
        other => (Err(ParseErrorView { message: "unexpected token: "@ + kind_text(other), span }), p1),
    }
}


// ---- Statements ----

pub open spec fn opt_ok<T>(r: (Result<T, ParseErrorView>, int)) -> (Result<Option<T>, ParseErrorView>, int) {
    (
        match r.0 {
            Ok(t) => Ok(Some(t)),
            Err(e) => Err(e),
        },
        r.1,
    )
}

pub open spec fn sp_stmt(toks: Seq<TokenView>, pos: int) -> (Result<StmtView, ParseErrorView>, int)
    decreases toks.len() - pos, 2int,
{
    let t = peek_tok(toks, pos);
    let p1 = next_pos(toks, pos);
    match t.kind {
        TokenKindView::Simple(TokenKind::Let) => sp_let(toks, pos),
        TokenKindView::Simple(TokenKind::If) => sp_if(toks, pos),
        TokenKindView::Simple(TokenKind::While) => sp_while(toks, pos),
        TokenKindView::Simple(TokenKind::For) => sp_for(toks, pos),
        TokenKindView::Simple(TokenKind::Return) => sp_return(toks, pos),
        TokenKindView::Simple(TokenKind::Break) => (
            Ok(StmtView::Break(next_tok(toks, pos).span)),
            sp_match(toks, p1, TokenKind::Semicolon),
        ),
        TokenKindView::Simple(TokenKind::Continue) => (
            Ok(StmtView::Continue(next_tok(toks, pos).span)),
            sp_match(toks, p1, TokenKind::Semicolon),
        ),
        TokenKindView::Simple(TokenKind::LBrace) => sp_block(toks, pos),
        _ => sp_expr_or_assign(toks, pos),
    }
}

pub open spec fn sp_block_or_stmt(toks: Seq<TokenView>, pos: int) -> (Result<StmtView, ParseErrorView>, int)
    decreases toks.len() - pos, 3int,
{
    if at_kind(toks, pos, TokenKind::LBrace) {
        sp_block(toks, pos)
    } else {
        sp_stmt(toks, pos)
    }
}

pub open spec fn sp_block(toks: Seq<TokenView>, pos: int) -> (Result<StmtView, ParseErrorView>, int)
    decreases toks.len() - pos, 1int,
{
    let (r, p1) = sp_expect(toks, pos, TokenKind::LBrace);
    match r {
        Err(e) => (Err(e), p1),
        Ok(open) => if progress(toks, pos, p1) {
            sp_block_items(toks, p1, Seq::empty(), open.span)
        } else {
            (Err(stuck(toks, pos)), p1)
        },
    }
}

/// Statements up to the closing brace of a block.
pub open spec fn sp_block_items(toks: Seq<TokenView>, pos: int, acc: Seq<StmtView>, span: Span) -> (Result<StmtView, ParseErrorView>, int)
    decreases toks.len() - pos, 3int,
{
    if !at_kind(toks, pos, TokenKind::RBrace) && !at_kind(toks, pos, TokenKind::Eof) {
        let (r, p1) = sp_stmt(toks, pos);
        match r {
            Err(e) => (Err(e), p1),
            Ok(st) => if progress(toks, pos, p1) {
                sp_block_items(toks, p1, acc.push(st), span)
            } else {
                (Err(stuck(toks, pos)), p1)
            },
        }
    } else {
        let (rc, p2) = sp_expect(toks, pos, TokenKind::RBrace);
        match rc {
            Err(e) => (Err(e), p2),
            Ok(_) => (Ok(StmtView::Block(acc, span)), p2),
        }
    }
}

pub open spec fn sp_let(toks: Seq<TokenView>, pos: int) -> (Result<StmtView, ParseErrorView>, int)
    decreases toks.len() - pos, 1int,
{
    let (r0, p1) = sp_expect(toks, pos, TokenKind::Let);
    match r0 {
        Err(e) => (Err(e), p1),
        Ok(kw) => {
            let (rn, p2) = sp_name(toks, p1, "variable name"@);
            match rn {
                Err(e) => (Err(e), p2),
                Ok(name) => {
                    let (rt, p3) = if at_kind(toks, p2, TokenKind::Colon) {
                        opt_ok(sp_type(toks, next_pos(toks, p2)))
                    } else {
                        (Ok(None), p2)
                    };
                    match rt {
                        Err(e) => (Err(e), p3),
                        Ok(ty) => {
                            let (ri, p4) = if at_kind(toks, p3, TokenKind::Eq) {
                                opt_ok(sp_expression(toks, next_pos(toks, p3)))
                            } else {
                                (Ok(None), p3)
                            };
                            match ri {
                                Err(e) => (Err(e), p4),
                                Ok(init) => (
                                    Ok(StmtView::Let { name, ty, init, span: kw.span }),
                                    sp_match(toks, p4, TokenKind::Semicolon),
                                ),
                            }
                        },
                    }
                },
            }
        },
    }
}

pub open spec fn sp_if(toks: Seq<TokenView>, pos: int) -> (Result<StmtView, ParseErrorView>, int)
    decreases toks.len() - pos, 1int,
{
    let (r0, p1) = sp_expect(toks, pos, TokenKind::If);
    match r0 {
        Err(e) => (Err(e), p1),
        Ok(kw) => {
            let (rc, p2) = sp_expression(toks, p1);
            match rc {
                Err(e) => (Err(e), p2),
                Ok(condition) => if progress(toks, pos, p2) {
                    let (rt, p3) = sp_block_or_stmt(toks, p2);
                    match rt {
                        Err(e) => (Err(e), p3),
                        Ok(then_branch) => if at_kind(toks, p3, TokenKind::Else) {
                            let p4 = next_pos(toks, p3);
                            if progress(toks, pos, p4) {
                                let (re, p5) = sp_block_or_stmt(toks, p4);
                                match re {
                                    Err(e) => (Err(e), p5),
                                    Ok(else_branch) => (
                                        Ok(
                                            StmtView::If {
                                                condition,
                                                then_branch: Box::new(then_branch),
                                                else_branch: Some(Box::new(else_branch)),
                                                span: kw.span,
                                            },
                                        ),
                                        p5,
                                    ),
                                }
                            } else {
                                (Err(stuck(toks, pos)), p4)
                            }
                        } else {
                            (
                                Ok(
                                    StmtView::If {
                                        condition,
                                        then_branch: Box::new(then_branch),
                                        else_branch: None,
                                        span: kw.span,
                                    },
                                ),
                                p3,
                            )
                        },
                    }
                } else {
                    (Err(stuck(toks, pos)), p2)
                },
            }
        },
    }
}

pub open spec fn sp_while(toks: Seq<TokenView>, pos: int) -> (Result<StmtView, ParseErrorView>, int)
    decreases toks.len() - pos, 1int,
{
    let (r0, p1) = sp_expect(toks, pos, TokenKind::While);
    match r0 {
        Err(e) => (Err(e), p1),
        Ok(kw) => {
            let (rc, p2) = sp_expression(toks, p1);
            match rc {
                Err(e) => (Err(e), p2),
                Ok(condition) => if progress(toks, pos, p2) {
                    let (rb, p3) = sp_block_or_stmt(toks, p2);
                    match rb {
                        Err(e) => (Err(e), p3),
                        Ok(body) => (Ok(StmtView::While { condition, body: Box::new(body), span: kw.span }), p3),
                    }
                } else {
                    (Err(stuck(toks, pos)), p2)
                },
            }
        },
    }
}

pub open spec fn sp_for(toks: Seq<TokenView>, pos: int) -> (Result<StmtView, ParseErrorView>, int)
    decreases toks.len() - pos, 1int,
{
    let (r0, p1) = sp_expect(toks, pos, TokenKind::For);
    match r0 {
        Err(e) => (Err(e), p1),
        Ok(kw) => {
            let (rn, p2) = sp_name(toks, p1, "variable name"@);
            match rn {
                Err(e) => (Err(e), p2),
                Ok(var) => {
                    let (ri, p3) = sp_expect(toks, p2, TokenKind::In);
                    match ri {
                        Err(e) => (Err(e), p3),
                        Ok(_) => {
                            let (rit, p4) = sp_expression(toks, p3);
                            match rit {
                                Err(e) => (Err(e), p4),
                                Ok(iterable) => if progress(toks, pos, p4) {
                                    let (rb, p5) = sp_block_or_stmt(toks, p4);
                                    match rb {
                                        Err(e) => (Err(e), p5),
                                        Ok(body) => (
                                            Ok(StmtView::For { var, iterable, body: Box::new(body), span: kw.span }),
                                            p5,
                                        ),
                                    }
                                } else {
                                    (Err(stuck(toks, pos)), p4)
                                },
                            }
                        },
                    }
                },
            }
        },
    }
}

pub open spec fn sp_return(toks: Seq<TokenView>, pos: int) -> (Result<StmtView, ParseErrorView>, int)
    decreases toks.len() - pos, 1int,
{
    let (r0, p1) = sp_expect(toks, pos, TokenKind::Return);
    match r0 {
        Err(e) => (Err(e), p1),
        Ok(kw) => {
            let (rv, p2) = if !at_kind(toks, p1, TokenKind::Semicolon) && !at_kind(toks, p1, TokenKind::RBrace) {
                opt_ok(sp_expression(toks, p1))
            } else {
                (Ok(None), p1)
            };
            match rv {
                Err(e) => (Err(e), p2),
                Ok(value) => (Ok(StmtView::Return(value, kw.span)), sp_match(toks, p2, TokenKind::Semicolon)),
            }
        },
    }
}

pub open spec fn sp_expr_or_assign(toks: Seq<TokenView>, pos: int) -> (Result<StmtView, ParseErrorView>, int)
    decreases toks.len() - pos, 1int,
{
    let (r, p1) = sp_expression(toks, pos);
    match r {
        Err(e) => (Err(e), p1),
        Ok(target) => if at_kind(toks, p1, TokenKind::Eq) {
            let (rv, p2) = sp_expression(toks, next_pos(toks, p1));
            match rv {
                Err(e) => (Err(e), p2),
                Ok(value) => (
                    Ok(StmtView::Assign { target, value, span: expr_span(target) }),
                    sp_match(toks, p2, TokenKind::Semicolon),
                ),
            }
        } else {
            (Ok(StmtView::ExprStmt(target, expr_span(target))), sp_match(toks, p1, TokenKind::Semicolon))
        },
    }
}

// ---- Items ----

pub open spec fn sp_params(toks: Seq<TokenView>, pos: int) -> (Result<Seq<(Seq<char>, Option<TypeView>)>, ParseErrorView>, int) {
    if at_kind(toks, pos, TokenKind::RParen) {
        (Ok(Seq::empty()), pos)
    } else {
        sp_params_loop(toks, pos, Seq::empty())
    }
}

pub open spec fn sp_params_loop(
    toks: Seq<TokenView>,
    pos: int,
    acc: Seq<(Seq<char>, Option<TypeView>)>,
) -> (Result<Seq<(Seq<char>, Option<TypeView>)>, ParseErrorView>, int)
    decreases toks.len() - pos,
{
    let (rn, p1) = sp_name(toks, pos, "parameter name"@);
    match rn {
        Err(e) => (Err(e), p1),
        Ok(name) => {
            let (rt, p2) = if at_kind(toks, p1, TokenKind::Colon) {
                opt_ok(sp_type(toks, next_pos(toks, p1)))
            } else {
                (Ok(None), p1)
            };
            match rt {
                Err(e) => (Err(e), p2),
                Ok(ty) => {
                    let acc2 = acc.push((name, ty));
                    let p3 = sp_match(toks, p2, TokenKind::Comma);
                    if p3 == p2 {
                        (Ok(acc2), p2)
                    } else if progress(toks, pos, p3) {
                        sp_params_loop(toks, p3, acc2)
                    } else {
                        (Err(stuck(toks, pos)), p3)
                    }
                },
            }
        },
    }
}

pub open spec fn sp_fn_decl(toks: Seq<TokenView>, pos: int) -> (Result<StmtView, ParseErrorView>, int) {
    let (r0, p1) = sp_expect(toks, pos, TokenKind::Fn);
    match r0 {
        Err(e) => (Err(e), p1),
        Ok(kw) => {
            let (rn, p2) = sp_name(toks, p1, "function name"@);
            match rn {
                Err(e) => (Err(e), p2),
                Ok(name) => {
                    let (rl, p3) = sp_expect(toks, p2, TokenKind::LParen);
                    match rl {
                        Err(e) => (Err(e), p3),
                        Ok(_) => {
                            let (rp, p4) = sp_params(toks, p3);
                            match rp {
                                Err(e) => (Err(e), p4),
                                Ok(params) => {
                                    let (rr, p5) = sp_expect(toks, p4, TokenKind::RParen);
                                    match rr {
                                        Err(e) => (Err(e), p5),
                                        Ok(_) => {
                                            let (rt, p6) = if at_kind(toks, p5, TokenKind::Arrow) {
                                                opt_ok(sp_type(toks, next_pos(toks, p5)))
                                            } else {
                                                (Ok(None), p5)
                                            };
                                            match rt {
                                                Err(e) => (Err(e), p6),
                                                Ok(return_type) => {
                                                    let (rb, p7) = sp_block(toks, p6);
                                                    match rb {
                                                        Err(e) => (Err(e), p7),
                                                        Ok(body) => (
                                                            Ok(
                                                                StmtView::FnDecl {
                                                                    name,
                                                                    params,
                                                                    return_type,
                                                                    body: Box::new(body),
                                                                    span: kw.span,
                                                                },
                                                            ),
                                                            p7,
                                                        ),
                                                    }
                                                },
                                            }
                                        },
                                    }
                                },
                            }
                        },
                    }
                },
            }
        },
    }
}

/// Fields of a struct declaration up to its closing brace.
pub open spec fn sp_struct_fields(
    toks: Seq<TokenView>,
    pos: int,
    acc: Seq<(Seq<char>, TypeView)>,
) -> (Result<Seq<(Seq<char>, TypeView)>, ParseErrorView>, int)
    decreases toks.len() - pos,
{
    if !at_kind(toks, pos, TokenKind::RBrace) {
        let (rn, p1) = sp_name(toks, pos, "field name"@);
        match rn {
            Err(e) => (Err(e), p1),
            Ok(fname) => {
                let (rc, p2) = sp_expect(toks, p1, TokenKind::Colon);
                match rc {
                    Err(e) => (Err(e), p2),
                    Ok(_) => {
                        let (rt, p3) = sp_type(toks, p2);
                        match rt {
                            Err(e) => (Err(e), p3),
                            Ok(ftype) => {
                                let p4 = sp_match(toks, p3, TokenKind::Comma);
                                if progress(toks, pos, p4) {
                                    sp_struct_fields(toks, p4, acc.push((fname, ftype)))
                                } else {
                                    (Err(stuck(toks, pos)), p4)
                                }
                            },
                        }
                    },
                }
            },
        }
    } else {
        (Ok(acc), pos)
    }
}

pub open spec fn sp_struct_decl(toks: Seq<TokenView>, pos: int) -> (Result<StmtView, ParseErrorView>, int) {
    let (r0, p1) = sp_expect(toks, pos, TokenKind::Struct);
    match r0 {
        Err(e) => (Err(e), p1),
        Ok(kw) => {
            let (rn, p2) = sp_name(toks, p1, "struct name"@);
            match rn {
                Err(e) => (Err(e), p2),
                Ok(name) => {
                    let (rl, p3) = sp_expect(toks, p2, TokenKind::LBrace);
                    match rl {
                        Err(e) => (Err(e), p3),
                        Ok(_) => {
                            let (rf, p4) = sp_struct_fields(toks, p3, Seq::empty());
                            match rf {
                                Err(e) => (Err(e), p4),
                                Ok(fields) => {
                                    let (rr, p5) = sp_expect(toks, p4, TokenKind::RBrace);
                                    match rr {
                                        Err(e) => (Err(e), p5),
                                        Ok(_) => (Ok(StmtView::StructDecl { name, fields, span: kw.span }), p5),
                                    }
                                },
                            }
                        },
                    }
                },
            }
        },
    }
}

/// The key of a configuration entry starting with the given token, if it starts one.
pub open spec fn config_key(k: TokenKindView, allow_guard: bool) -> Option<Seq<char>> {
    match k {
        TokenKindView::Ident(s) => Some(s),
        TokenKindView::Simple(TokenKind::Timeout) => Some("timeout"@),
        TokenKindView::Simple(TokenKind::Retry) => Some("retry"@),
        TokenKindView::Simple(TokenKind::Guard) => if allow_guard {
            Some("guard"@)
        } else {
            None
        },
        _ => None,
    }
}

/// A configuration entry `key: value` with an optional trailing comma.
pub open spec fn sp_config_entry(toks: Seq<TokenView>, pos: int, key: Seq<char>) -> (Result<(Seq<char>, ExprView), ParseErrorView>, int) {
    let p1 = next_pos(toks, pos);
    let (rc, p2) = sp_expect(toks, p1, TokenKind::Colon);
    match rc {
        Err(e) => (Err(e), p2),
        Ok(_) => {
            let (rv, p3) = sp_expression(toks, p2);
            match rv {
                Err(e) => (Err(e), p3),
                Ok(value) => (Ok((key, value)), sp_match(toks, p3, TokenKind::Comma)),
            }
        },
    }
}

pub open spec fn sp_trigger_decl(toks: Seq<TokenView>, pos: int) -> (Result<TriggerDeclView, ParseErrorView>, int) {
    let (r0, p1) = if at_kind(toks, pos, TokenKind::On) {
        sp_expect(toks, pos, TokenKind::On)
    } else {
        sp_expect(toks, pos, TokenKind::Trigger)
    };
    match r0 {
        Err(e) => (Err(e), p1),
        Ok(kw) => {
            let (rn, p2) = sp_name(toks, p1, "event name"@);
            match rn {
                Err(e) => (Err(e), p2),
                Ok(event) => {
                    let (rg, p3) = if at_kind(toks, p2, TokenKind::Guard) || at_kind(toks, p2, TokenKind::If) {
                        opt_ok(sp_expression(toks, next_pos(toks, p2)))
                    } else {
                        (Ok(None), p2)
                    };
                    match rg {
                        Err(e) => (Err(e), p3),
                        Ok(guard) => {
                            let (rd, p4) = sp_expect(toks, p3, TokenKind::Do);
                            match rd {
                                Err(e) => (Err(e), p4),
                                Ok(_) => {
                                    let (ra, p5) = sp_expression(toks, p4);
                                    match ra {
                                        Err(e) => (Err(e), p5),
                                        Ok(action) => (
                                            Ok(TriggerDeclView { event, guard, action, span: kw.span }),
                                            sp_match(toks, p5, TokenKind::Semicolon),
                                        ),
                                    }
                                },
                            }
                        },
                    }
                },
            }
        },
    }
}

/// The body of a skill up to its closing brace: `do` sets the handler, `key: value`
/// entries add configuration, anything else is skipped.
pub open spec fn sp_skill_body(
    toks: Seq<TokenView>,
    pos: int,
    handler: ExprView,
    config: Seq<(Seq<char>, ExprView)>,
) -> (Result<(ExprView, Seq<(Seq<char>, ExprView)>), ParseErrorView>, int)
    decreases toks.len() - pos,
{
    if !at_kind(toks, pos, TokenKind::RBrace) && !at_kind(toks, pos, TokenKind::Eof) {
        let k = peek_tok(toks, pos).kind;
        let (r, p1): (Result<(ExprView, Seq<(Seq<char>, ExprView)>), ParseErrorView>, int) =
            if k == TokenKindView::Simple(TokenKind::Do) {
            let (rh, q) = sp_expression(toks, next_pos(toks, pos));
            match rh {
                Err(e) => (Err(e), q),
                Ok(h) => (Ok((h, config)), sp_match(toks, q, TokenKind::Semicolon)),
            }
        } else {
            match config_key(k, true) {
                Some(key) => {
                    let (re, q) = sp_config_entry(toks, pos, key);
                    match re {
                        Err(e) => (Err(e), q),
                        Ok(entry) => (Ok((handler, config.push(entry))), q),
                    }
                },
                None => (Ok((handler, config)), next_pos(toks, pos)),
            }
        };
        match r {
            Err(e) => (Err(e), p1),
            Ok((h, c)) => if progress(toks, pos, p1) {
                sp_skill_body(toks, p1, h, c)
            } else {
                (Err(stuck(toks, pos)), p1)
            },
        }
    } else {
        (Ok((handler, config)), pos)
    }
}

pub open spec fn sp_skill_decl(toks: Seq<TokenView>, pos: int) -> (Result<SkillDeclView, ParseErrorView>, int) {
    let (r0, p1) = sp_expect(toks, pos, TokenKind::Skill);
    match r0 {
        Err(e) => (Err(e), p1),
        Ok(kw) => {
            let (rn, p2) = sp_name(toks, p1, "skill name"@);
            match rn {
                Err(e) => (Err(e), p2),
                Ok(name) => {
                    let (rl, p3) = sp_expect(toks, p2, TokenKind::LBrace);
                    match rl {
                        Err(e) => (Err(e), p3),
                        Ok(_) => {
                            let (rb, p4) = sp_skill_body(toks, p3, ExprView::NullLiteral(kw.span), Seq::empty());
                            match rb {
                                Err(e) => (Err(e), p4),
                                Ok((handler, config)) => {
                                    let (rr, p5) = sp_expect(toks, p4, TokenKind::RBrace);
                                    match rr {
                                        Err(e) => (Err(e), p5),
                                        Ok(_) => (Ok(SkillDeclView { name, handler, config, span: kw.span }), p5),
                                    }
                                },
                            }
                        },
                    }
                },
            }
        },
    }
}

/// The body of an agent up to its closing brace.
pub open spec fn sp_agent_body(
    toks: Seq<TokenView>,
    pos: int,
    skills: Seq<SkillDeclView>,
    triggers: Seq<TriggerDeclView>,
    config: Seq<(Seq<char>, ExprView)>,
) -> (Result<(Seq<SkillDeclView>, Seq<TriggerDeclView>, Seq<(Seq<char>, ExprView)>), ParseErrorView>, int)
    decreases toks.len() - pos,
{
    if !at_kind(toks, pos, TokenKind::RBrace) && !at_kind(toks, pos, TokenKind::Eof) {
        let k = peek_tok(toks, pos).kind;
        let (r, p1): (Result<(Seq<SkillDeclView>, Seq<TriggerDeclView>, Seq<(Seq<char>, ExprView)>), ParseErrorView>, int) =
            if k == TokenKindView::Simple(TokenKind::Skill) {
            let (rs, q) = sp_skill_decl(toks, pos);
            match rs {
                Err(e) => (Err(e), q),
                Ok(sk) => (Ok((skills.push(sk), triggers, config)), q),
            }
        } else if k == TokenKindView::Simple(TokenKind::Trigger) || k == TokenKindView::Simple(TokenKind::On) {
            let (rt, q) = sp_trigger_decl(toks, pos);
            match rt {
                Err(e) => (Err(e), q),
                Ok(tr) => (Ok((skills, triggers.push(tr), config)), q),
            }
        } else {
            match config_key(k, false) {
                Some(key) => {
                    let (re, q) = sp_config_entry(toks, pos, key);
                    match re {
                        Err(e) => (Err(e), q),
                        Ok(entry) => (Ok((skills, triggers, config.push(entry))), q),
                    }
                },
                None => (Ok((skills, triggers, config)), next_pos(toks, pos)),
            }
        };
        match r {
            Err(e) => (Err(e), p1),
            Ok((s2, t2, c2)) => if progress(toks, pos, p1) {
                sp_agent_body(toks, p1, s2, t2, c2)
            } else {
                (Err(stuck(toks, pos)), p1)
            },
        }
    } else {
        (Ok((skills, triggers, config)), pos)
    }
}

pub open spec fn sp_agent_decl(toks: Seq<TokenView>, pos: int) -> (Result<AgentDeclView, ParseErrorView>, int) {
    let (r0, p1) = sp_expect(toks, pos, TokenKind::Agent);
    match r0 {
        Err(e) => (Err(e), p1),
        Ok(kw) => {
            let (rn, p2) = sp_name(toks, p1, "agent name"@);
            match rn {
                Err(e) => (Err(e), p2),
                Ok(name) => {
                    let (rl, p3) = sp_expect(toks, p2, TokenKind::LBrace);
                    match rl {
                        Err(e) => (Err(e), p3),
                        Ok(_) => {
                            let (rb, p4) = sp_agent_body(toks, p3, Seq::empty(), Seq::empty(), Seq::empty());
                            match rb {
                                Err(e) => (Err(e), p4),
                                Ok((skills, triggers, config)) => {
                                    let (rr, p5) = sp_expect(toks, p4, TokenKind::RBrace);
                                    match rr {
                                        Err(e) => (Err(e), p5),
                                        Ok(_) => (
                                            Ok(AgentDeclView { name, skills, triggers, config, span: kw.span }),
                                            p5,
                                        ),
                                    }
                                },
                            }
                        },
                    }
                },
            }
        },
    }
}

pub open spec fn sp_item(toks: Seq<TokenView>, pos: int) -> (Result<ItemView, ParseErrorView>, int) {
    let k = peek_tok(toks, pos).kind;
    if k == TokenKindView::Simple(TokenKind::Fn) {
        let (r, p) = sp_fn_decl(toks, pos);
        (
            match r {
                Ok(s) => Ok(ItemView::Function(s)),
                Err(e) => Err(e),
            },
            p,
        )
    } else if k == TokenKindView::Simple(TokenKind::Struct) {
        let (r, p) = sp_struct_decl(toks, pos);
        (
            match r {
                Ok(s) => Ok(ItemView::Struct(s)),
                Err(e) => Err(e),
            },
            p,
        )
    } else if k == TokenKindView::Simple(TokenKind::Agent) {
        let (r, p) = sp_agent_decl(toks, pos);
        (
            match r {
                Ok(a) => Ok(ItemView::Agent(a)),
                Err(e) => Err(e),
            },
            p,
        )
    } else {
        let (r, p) = sp_expression(toks, pos);
        match r {
            Ok(e) => (Ok(ItemView::Expr(e)), sp_match(toks, p, TokenKind::Semicolon)),
            Err(e) => (Err(e), p),
        }
    }
}

/// Items up to the end of the input, appended to `acc`.
pub open spec fn sp_program(toks: Seq<TokenView>, pos: int, acc: Seq<ItemView>) -> (Result<Seq<ItemView>, ParseErrorView>, int)
    decreases toks.len() - pos,
{
    if !at_kind(toks, pos, TokenKind::Eof) {
        let (r, p1) = sp_item(toks, pos);
        match r {
            Err(e) => (Err(e), p1),
            Ok(it) => if progress(toks, pos, p1) {
                sp_program(toks, p1, acc.push(it))
            } else {
                (Err(stuck(toks, pos)), p1)
            },
        }
    } else {
        (Ok(acc), pos)
    }
}

/// What parsing a source text gives: the lexer's errors, each kept with its message and
/// span, or the program's items, or the first parse error.
pub open spec fn parse_spec(src: Seq<char>) -> Result<Seq<ItemView>, Seq<ParseErrorView>> {
    match tokenize_spec(src) {
        Err(errs) => Err(
            Seq::new(errs.len(), |i: int| ParseErrorView { message: errs[i].message, span: errs[i].span }),
        ),
        Ok(toks) => match sp_program(toks, 0, Seq::empty()).0 {
            Ok(items) => Ok(items),
            Err(e) => Err(seq![e]),
        },
    }
}

} // verus!

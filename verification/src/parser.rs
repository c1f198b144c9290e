// Parser: recursive descent with precedence climbing.
use vstd::prelude::*;
use crate::ast::{
    BinOp, UnaryOp, Expr, ExprView, StmtView, ItemView, SkillDeclView, TriggerDeclView, Stmt, Item, AgentDecl, SkillDecl, TriggerDecl, Program, exprs_view,
    stmts_view, params_view, struct_fields_view, config_view, lemma_exprs_view_push,
    lemma_stmts_view_push, expr_span, precedence_spec,
};
use crate::lexer::{
    Span, Token, TokenKind, TokenKindView, TokenView, LexerError, tokens_view, kind_text, tokenize,
    tokenize_spec, source_fits, lemma_tokenize_spans, lex_result_view,
};
use crate::parser_spec::{
    ParseErrorView, tokens_ok, peek_tok, next_tok, next_pos, at_kind, progress, sp_expect, sp_match,
    sp_name, sp_type, sp_type_list, sp_expression, sp_precedence, sp_prec_loop, sp_unary, sp_postfix,
    sp_postfix_loop, sp_args_rest, sp_expr_list, sp_primary, binary_span, sp_stmt, sp_block_or_stmt,
    sp_block, sp_block_items, sp_let, sp_if, sp_while, sp_for, sp_return, sp_expr_or_assign,
    sp_params, sp_params_loop, sp_fn_decl, sp_struct_fields, sp_struct_decl, config_key,
    sp_config_entry, sp_trigger_decl, sp_skill_body, sp_skill_decl, sp_agent_body, sp_agent_decl,
    sp_item, sp_program, parse_spec,
};
use crate::symbol_table::{Type, TypeView, types_view, lemma_types_view_push, opt_type_view};
use crate::text::{concat2, concat3, concat4, text_eq};

verus! {

/// Parser error.
#[derive(Debug, Clone)]
pub struct ParseError {
    pub message: String,
    pub span: Span,
}

impl View for ParseError {
    type V = ParseErrorView;

    open spec fn view(&self) -> ParseErrorView {
        ParseErrorView { message: self.message@, span: self.span }
    }
}

impl ParseError {
    pub open spec fn text_spec(e: ParseErrorView) -> Seq<char> {
        "parse error at "@ + e.span.text_spec() + ": "@ + e.message
    }

    /// `parse error at line:col: message` (what `Display` renders).
    pub fn text(&self) -> (r: String)
        ensures
            r@ == ParseError::text_spec(self@),
    {
        let pos = self.span.text();
        let mut s = concat3("parse error at ", pos.as_str(), ": ");
        s.append(self.message.as_str());
        s
    }
}

pub type ParseResult<T> = Result<T, ParseError>;

/// The mathematical value of a parse result.
pub open spec fn res_view<T: View>(r: ParseResult<T>) -> Result<T::V, ParseErrorView> {
    match r {
        Ok(t) => Ok(t@),
        Err(e) => Err(e@),
    }
}

/// The parser.
pub struct Parser {
    tokens: Vec<Token>,
    pos: usize,
}

impl Parser {
    /// The tokens being parsed.
    pub closed spec fn toks(&self) -> Seq<TokenView> {
        tokens_view(self.tokens@)
    }

    /// The index of the next token.
    pub closed spec fn cursor(&self) -> int {
        self.pos as int
    }

    pub closed spec fn wf(&self) -> bool {
        &&& tokens_ok(self.toks())
        &&& self.pos <= self.tokens@.len()
    }

    /// A parser at the first of the given tokens, which must end with an end-of-file token
    /// (as every successful `tokenize` does).  The parser reads past the last token as if
    /// that token repeated, and it is the end-of-file token there that ends
    /// `parse_program`'s loop over items; without one the loop need not end.  The grammar
    /// (`parser_spec`) is stated for such streams.
    pub fn new(tokens: Vec<Token>) -> (p: Parser)
        requires
            tokens_ok(tokens_view(tokens@)),
        ensures
            p.wf(),
            p.toks() == tokens_view(tokens@),
            p.cursor() == 0,
    {
        Parser { tokens, pos: 0 }
    }

    fn peek(&self) -> (t: &Token)
        requires
            self.wf(),
        ensures
            t@ == peek_tok(self.toks(), self.cursor()),
    {
        if self.pos < self.tokens.len() {
            &self.tokens[self.pos]
        } else {
            &self.tokens[self.tokens.len() - 1]
        }
    }

    fn advance(&mut self) -> (t: Token)
        requires
            old(self).wf(),
        ensures
            final(self).wf(),
            final(self).toks() == old(self).toks(),
            old(self).cursor() <= final(self).cursor(),
            t@ == next_tok(old(self).toks(), old(self).cursor()),
            final(self).cursor() == next_pos(old(self).toks(), old(self).cursor()),
    {
        if self.pos < self.tokens.len() {
            let t = self.tokens[self.pos].clone();
            self.pos = self.pos + 1;
            t
        } else {
            Token::eof(Span::zero())
        }
    }

    fn expect(&mut self, expected: &TokenKind) -> (r: ParseResult<Token>)
        requires
            old(self).wf(),
        ensures
            final(self).wf(),
            final(self).toks() == old(self).toks(),
            old(self).cursor() <= final(self).cursor(),
            (res_view(r), final(self).cursor()) == sp_expect(old(self).toks(), old(self).cursor(), *expected),
    {
        let tok = self.advance();
        if tok.kind.same_variant(expected) {
            Ok(tok)
        } else {
            let e = expected.to_string();
            let g = tok.kind.to_string();
            proof {
                reveal_strlit("expected ");
                reveal_strlit(", got ");
            }
            Err(ParseError { message: concat4("expected ", e.as_str(), ", got ", g.as_str()), span: tok.span })
        }
    }

    fn is(&self, kind: &TokenKind) -> (r: bool)
        requires
            self.wf(),
        ensures
            r == at_kind(self.toks(), self.cursor(), *kind),
    {
        self.peek().kind.same_variant(kind)
    }

    fn match_kind(&mut self, kind: &TokenKind) -> (r: Option<Token>)
        requires
            old(self).wf(),
        ensures
            final(self).wf(),
            final(self).toks() == old(self).toks(),
            old(self).cursor() <= final(self).cursor(),
            r.is_some() == at_kind(old(self).toks(), old(self).cursor(), *kind),
            final(self).cursor() == sp_match(old(self).toks(), old(self).cursor(), *kind),
    {
        if self.is(kind) {
            Some(self.advance())
        } else {
            None
        }
    }

    fn span_here(&self) -> (s: Span)
        requires
            self.wf(),
        ensures
            s == peek_tok(self.toks(), self.cursor()).span,
    {
        self.peek().span
    }

    /// Consume an identifier naming `what`.
    fn expect_name(&mut self, what: &str) -> (r: ParseResult<String>)
        requires
            old(self).wf(),
        ensures
            final(self).wf(),
            final(self).toks() == old(self).toks(),
            old(self).cursor() <= final(self).cursor(),
            (res_view(r), final(self).cursor()) == sp_name(old(self).toks(), old(self).cursor(), what@),
    {
        let tok = self.advance();
        match tok.kind {
            TokenKind::Ident(s) => Ok(s),
            other => {
                let g = other.to_string();
                proof {
                    reveal_strlit("expected ");
                    reveal_strlit(", got ");
                }
                Err(ParseError { message: concat4("expected ", what, ", got ", g.as_str()), span: self.span_here() })
            },
        }
    }

    proof fn lemma_not_eof_in_range(&self, k: TokenKind)
        requires
            self.wf(),
            at_kind(self.toks(), self.cursor(), k),
            !(k@ == TokenKindView::Simple(TokenKind::Eof)),
            k@ is Simple,
        ensures
            self.cursor() < self.toks().len(),
            progress(self.toks(), self.cursor(), next_pos(self.toks(), self.cursor())),
    {
    }

    fn parse_type(&mut self) -> (r: ParseResult<Type>)
        requires
            old(self).wf(),
        ensures
            final(self).wf(),
            final(self).toks() == old(self).toks(),
            old(self).cursor() <= final(self).cursor(),
            (res_view(r), final(self).cursor()) == sp_type(old(self).toks(), old(self).cursor()),
            r is Ok ==> progress(old(self).toks(), old(self).cursor(), final(self).cursor()),
        decreases old(self).toks().len() - old(self).cursor(), 2int,
    {
        let ghost toks = self.toks();
        let ghost pos0 = self.cursor();
        match &self.peek().kind {
            TokenKind::Ident(s) => {
                let name = s.clone();
                self.advance();
                proof {
                    reveal_strlit("int");
                    reveal_strlit("float");
                    reveal_strlit("bool");
                    reveal_strlit("string");
                    reveal_strlit("void");
                }
                if text_eq(name.as_str(), "int") {
                    Ok(Type::Int)
                } else if text_eq(name.as_str(), "float") {
                    Ok(Type::Float)
                } else if text_eq(name.as_str(), "bool") {
                    Ok(Type::Bool)
                } else if text_eq(name.as_str(), "string") {
                    Ok(Type::String)
                } else if text_eq(name.as_str(), "void") {
                    Ok(Type::Void)
                } else {
                    Ok(Type::Named(name))
                }
            },
            TokenKind::LBracket => {
                proof {
                    self.lemma_not_eof_in_range(TokenKind::LBracket);
                }
                self.advance();
                let inner = match self.parse_type() {
                    Ok(t) => t,
                    Err(e) => return Err(e),
                };
                match self.expect(&TokenKind::RBracket) {
                    Ok(_) => Ok(Type::Array(Box::new(inner))),
                    Err(e) => Err(e),
                }
            },
            TokenKind::LParen => {
                proof {
                    self.lemma_not_eof_in_range(TokenKind::LParen);
                }
                self.advance();
                let ghost p1 = self.cursor();
                let mut params: Vec<Type> = Vec::new();
                if !self.is(&TokenKind::RParen) {
                    loop
                        invariant_except_break
                            sp_type_list(toks, p1, Seq::empty()) == sp_type_list(
                                toks,
                                self.cursor(),
                                types_view(params@),
                            ),
                        invariant
                            self.wf(),
                            self.toks() == toks,
                            toks == old(self).toks(),
                            pos0 == old(self).cursor(),
                            pos0 < p1 <= self.cursor() <= toks.len(),
                            peek_tok(toks, pos0).kind == TokenKindView::Simple(TokenKind::LParen),
                            p1 == next_pos(toks, pos0),
                            !at_kind(toks, p1, TokenKind::RParen),
                        ensures
                            self.wf(),
                            self.toks() == toks,
                            pos0 < self.cursor() <= toks.len(),
                            sp_type_list(toks, p1, Seq::empty()) == (Ok::<Seq<TypeView>, ParseErrorView>(
                                types_view(params@),
                            ), self.cursor()),
                        decreases toks.len() - self.cursor(),
                    {
                        let ghost before = self.cursor();
                        let t = match self.parse_type() {
                            Ok(t) => t,
                            Err(e) => return Err(e),
                        };
                        proof {
                            lemma_types_view_push(params@, t);
                        }
                        params.push(t);
                        if self.match_kind(&TokenKind::Comma).is_none() {
                            break;
                        }
                    }
                }
                match self.expect(&TokenKind::RParen) {
                    Ok(_) => {},
                    Err(e) => return Err(e),
                }
                match self.expect(&TokenKind::Arrow) {
                    Ok(_) => {},
                    Err(e) => return Err(e),
                }
                let ret = match self.parse_type() {
                    Ok(t) => t,
                    Err(e) => return Err(e),
                };
                Ok(Type::Function(params, Box::new(ret)))
            },
            other => {
                let g = other.to_string();
                proof {
                    reveal_strlit("expected type, got ");
                }
                Err(ParseError { message: concat2("expected type, got ", g.as_str()), span: self.span_here() })
            },
        }
    }
}

/// The mathematical value of a parse result holding expressions.
pub open spec fn exprs_res(r: ParseResult<Vec<Expr>>) -> Result<Seq<ExprView>, ParseErrorView> {
    match r {
        Ok(v) => Ok(exprs_view(v@)),
        Err(e) => Err(e@),
    }
}

impl Parser {
    /// Parse expression with full precedence climbing.
    pub fn parse_expression(&mut self) -> (r: ParseResult<Expr>)
        requires
            old(self).wf(),
        ensures
            final(self).wf(),
            final(self).toks() == old(self).toks(),
            old(self).cursor() <= final(self).cursor(),
            (res_view(r), final(self).cursor()) == sp_expression(old(self).toks(), old(self).cursor()),
            r is Ok ==> progress(old(self).toks(), old(self).cursor(), final(self).cursor()),
        decreases old(self).toks().len() - old(self).cursor(), 7int,
    {
        self.parse_precedence(0)
    }

    fn parse_precedence(&mut self, min_prec: u8) -> (r: ParseResult<Expr>)
        requires
            old(self).wf(),
        ensures
            final(self).wf(),
            final(self).toks() == old(self).toks(),
            old(self).cursor() <= final(self).cursor(),
            (res_view(r), final(self).cursor()) == sp_precedence(old(self).toks(), old(self).cursor(), min_prec),
            r is Ok ==> progress(old(self).toks(), old(self).cursor(), final(self).cursor()),
        decreases old(self).toks().len() - old(self).cursor(), 6int,
    {
        let ghost toks = self.toks();
        let ghost pos0 = self.cursor();
        let mut left = match self.parse_unary() {
            Ok(e) => e,
            Err(e) => return Err(e),
        };
        loop
            invariant_except_break
                sp_precedence(toks, pos0, min_prec) == sp_prec_loop(toks, self.cursor(), min_prec, left@),
            invariant
                self.wf(),
                self.toks() == toks,
                toks == old(self).toks(),
                pos0 == old(self).cursor(),
                pos0 < self.cursor() <= toks.len(),
            ensures
                self.wf(),
                self.toks() == toks,
                pos0 < self.cursor() <= toks.len(),
                sp_precedence(toks, pos0, min_prec) == (Ok::<ExprView, ParseErrorView>(left@), self.cursor()),
            decreases toks.len() - self.cursor(),
        {
            let op = match BinOp::from_token(&self.peek().kind) {
                Some(op) => op,
                None => break,
            };
            let prec = op.precedence();
            if prec < min_prec {
                break;
            }
            proof {
                assert(self.cursor() < toks.len());
            }
            self.advance();
            let right = match self.parse_precedence(prec + 1) {
                Ok(e) => e,
                Err(e) => return Err(e),
            };
            let span = Span::new(left.span().start, right.span().end, left.span().line, left.span().col);
            left = Expr::Binary { op, left: Box::new(left), right: Box::new(right), span };
        }
        Ok(left)
    }

    fn parse_unary(&mut self) -> (r: ParseResult<Expr>)
        requires
            old(self).wf(),
        ensures
            final(self).wf(),
            final(self).toks() == old(self).toks(),
            old(self).cursor() <= final(self).cursor(),
            (res_view(r), final(self).cursor()) == sp_unary(old(self).toks(), old(self).cursor()),
            r is Ok ==> progress(old(self).toks(), old(self).cursor(), final(self).cursor()),
        decreases old(self).toks().len() - old(self).cursor(), 4int,
    {
        let span = self.span_here();
        if self.is(&TokenKind::Minus) {
            proof {
                self.lemma_not_eof_in_range(TokenKind::Minus);
            }
            self.advance();
            let operand = match self.parse_unary() {
                Ok(e) => e,
                Err(e) => return Err(e),
            };
            return Ok(Expr::Unary { op: UnaryOp::Neg, operand: Box::new(operand), span });
        }
        if self.is(&TokenKind::Bang) {
            proof {
                self.lemma_not_eof_in_range(TokenKind::Bang);
            }
            self.advance();
            let operand = match self.parse_unary() {
                Ok(e) => e,
                Err(e) => return Err(e),
            };
            return Ok(Expr::Unary { op: UnaryOp::Not, operand: Box::new(operand), span });
        }
        self.parse_postfix()
    }

    /// Further comma-separated expressions, appended to `acc`.
    fn parse_args_rest(&mut self, acc: Vec<Expr>) -> (r: ParseResult<Vec<Expr>>)
        requires
            old(self).wf(),
        ensures
            final(self).wf(),
            final(self).toks() == old(self).toks(),
            (exprs_res(r), final(self).cursor()) == sp_args_rest(old(self).toks(), old(self).cursor(), exprs_view(acc@)),
            old(self).cursor() <= final(self).cursor(),
        decreases old(self).toks().len() - old(self).cursor(), 2int,
    {
        let ghost toks = self.toks();
        let ghost pos0 = self.cursor();
        let ghost acc0 = exprs_view(acc@);
        let mut items = acc;
        loop
            invariant_except_break
                sp_args_rest(toks, pos0, acc0) == sp_args_rest(toks, self.cursor(), exprs_view(items@)),
            invariant
                acc0 == exprs_view(acc@),
                self.wf(),
                self.toks() == toks,
                toks == old(self).toks(),
                pos0 == old(self).cursor(),
                pos0 <= self.cursor() <= toks.len(),
            ensures
                self.wf(),
                self.toks() == toks,
                pos0 <= self.cursor() <= toks.len(),
                sp_args_rest(toks, pos0, acc0) == (Ok::<Seq<ExprView>, ParseErrorView>(exprs_view(items@)), self.cursor()),
            decreases toks.len() - self.cursor(),
        {
            if !self.is(&TokenKind::Comma) {
                break;
            }
            proof {
                self.lemma_not_eof_in_range(TokenKind::Comma);
            }
            self.advance();
            let a = match self.parse_expression() {
                Ok(a) => a,
                Err(e) => return Err(e),
            };
            proof {
                lemma_exprs_view_push(items@, a);
            }
            items.push(a);
        }
        Ok(items)
    }

    /// An expression followed by a comma-separated list and a closing token (call arguments
    /// or array elements): the list read from the current token.
    fn parse_expr_list(&mut self, close: &TokenKind) -> (r: ParseResult<Vec<Expr>>)
        requires
            old(self).wf(),
        ensures
            final(self).wf(),
            final(self).toks() == old(self).toks(),
            old(self).cursor() <= final(self).cursor(),
            (exprs_res(r), final(self).cursor()) == sp_expr_list(old(self).toks(), old(self).cursor(), *close),
            old(self).cursor() <= final(self).cursor(),
        decreases old(self).toks().len() - old(self).cursor(), 8int,
    {
        let mut args: Vec<Expr> = Vec::new();
        if !self.is(close) {
            let a0 = match self.parse_expression() {
                Ok(a) => a,
                Err(e) => return Err(e),
            };
            proof {
                lemma_exprs_view_push(args@, a0);
                assert(exprs_view(Seq::<Expr>::empty()) =~= Seq::<ExprView>::empty());
                assert(Seq::<ExprView>::empty().push(a0@) =~= seq![a0@]);
            }
            args.push(a0);
            return self.parse_args_rest(args);
        }
        proof {
            assert(exprs_view(args@) =~= Seq::<ExprView>::empty());
        }
        Ok(args)
    }
    #[verifier::rlimit(40)]
    fn parse_postfix(&mut self) -> (r: ParseResult<Expr>)
        requires
            old(self).wf(),
        ensures
            final(self).wf(),
            final(self).toks() == old(self).toks(),
            old(self).cursor() <= final(self).cursor(),
            (res_view(r), final(self).cursor()) == sp_postfix(old(self).toks(), old(self).cursor()),
            r is Ok ==> progress(old(self).toks(), old(self).cursor(), final(self).cursor()),
        decreases old(self).toks().len() - old(self).cursor(), 3int,
    {
        let ghost toks = self.toks();
        let ghost pos0 = self.cursor();
        let mut expr = match self.parse_primary() {
            Ok(e) => e,
            Err(e) => return Err(e),
        };
        loop
            invariant_except_break
                sp_postfix(toks, pos0) == sp_postfix_loop(toks, self.cursor(), expr@),
            invariant
                self.wf(),
                self.toks() == toks,
                toks == old(self).toks(),
                pos0 == old(self).cursor(),
                pos0 < self.cursor() <= toks.len(),
            ensures
                self.wf(),
                self.toks() == toks,
                pos0 < self.cursor() <= toks.len(),
                sp_postfix(toks, pos0) == (Ok::<ExprView, ParseErrorView>(expr@), self.cursor()),
            decreases toks.len() - self.cursor(),
        {
            if self.is(&TokenKind::LParen) {
                proof {
                    self.lemma_not_eof_in_range(TokenKind::LParen);
                }
                let span = *expr.span();
                self.advance();
                let args = match self.parse_expr_list(&TokenKind::RParen) {
                    Ok(a) => a,
                    Err(e) => return Err(e),
                };
                let end = match self.expect(&TokenKind::RParen) {
                    Ok(t) => t.span.end,
                    Err(e) => return Err(e),
                };
                expr = Expr::Call {
                    callee: Box::new(expr),
                    args,
                    span: Span::new(span.start, end, span.line, span.col),
                };
            } else if self.is(&TokenKind::LBracket) {
                proof {
                    self.lemma_not_eof_in_range(TokenKind::LBracket);
                }
                let span = *expr.span();
                self.advance();
                let index = match self.parse_expression() {
                    Ok(e) => e,
                    Err(e) => return Err(e),
                };
                let end = match self.expect(&TokenKind::RBracket) {
                    Ok(t) => t.span.end,
                    Err(e) => return Err(e),
                };
                expr = Expr::Index {
                    object: Box::new(expr),
                    index: Box::new(index),
                    span: Span::new(span.start, end, span.line, span.col),
                };
            } else if self.is(&TokenKind::Dot) {
                proof {
                    self.lemma_not_eof_in_range(TokenKind::Dot);
                }
                let span = *expr.span();
                self.advance();
                let field = match self.expect_name("field name") {
                    Ok(f) => f,
                    Err(e) => return Err(e),
                };
                expr = Expr::Member { object: Box::new(expr), field, span };
            } else {
                break;
            }
        }
        Ok(expr)
    }

    #[verifier::rlimit(40)]
    fn parse_primary(&mut self) -> (r: ParseResult<Expr>)
        requires
            old(self).wf(),
        ensures
            final(self).wf(),
            final(self).toks() == old(self).toks(),
            old(self).cursor() <= final(self).cursor(),
            (res_view(r), final(self).cursor()) == sp_primary(old(self).toks(), old(self).cursor()),
            r is Ok ==> progress(old(self).toks(), old(self).cursor(), final(self).cursor()),
        decreases old(self).toks().len() - old(self).cursor(), 1int,
    {
        let tok = self.advance();
        let span = tok.span;
        proof {
            reveal_strlit("emit");
            reveal_strlit("with");
            reveal_strlit("on");
            reveal_strlit("do");
            reveal_strlit("timeout");
            reveal_strlit("retry");
            reveal_strlit("guard");
            reveal_strlit("trigger");
            reveal_strlit("unexpected token: ");
        }
        match tok.kind {
            TokenKind::Int(v) => Ok(Expr::IntLiteral(v, span)),
            TokenKind::Float(s) => Ok(Expr::FloatLiteral(s, span)),
            TokenKind::String(s) => Ok(Expr::StringLiteral(s, span)),
            TokenKind::Bool(b) => Ok(Expr::BoolLiteral(b, span)),
            TokenKind::Null => Ok(Expr::NullLiteral(span)),
            TokenKind::Ident(s) => Ok(Expr::Ident(s, span)),
            // Agent keywords stand for identifiers in expression position.
            TokenKind::Emit => Ok(Expr::Ident(String::from_str("emit"), span)),
            TokenKind::With => Ok(Expr::Ident(String::from_str("with"), span)),
            TokenKind::On => Ok(Expr::Ident(String::from_str("on"), span)),
            TokenKind::Do => Ok(Expr::Ident(String::from_str("do"), span)),
            TokenKind::Timeout => Ok(Expr::Ident(String::from_str("timeout"), span)),
            TokenKind::Retry => Ok(Expr::Ident(String::from_str("retry"), span)),
            TokenKind::Guard => Ok(Expr::Ident(String::from_str("guard"), span)),
            TokenKind::Trigger => Ok(Expr::Ident(String::from_str("trigger"), span)),
            TokenKind::LParen => {
                let expr = match self.parse_expression() {
                    Ok(e) => e,
                    Err(e) => return Err(e),
                };
                match self.expect(&TokenKind::RParen) {
                    Ok(_) => Ok(expr),
                    Err(e) => Err(e),
                }
            },
            TokenKind::LBracket => {
                let elems = match self.parse_expr_list(&TokenKind::RBracket) {
                    Ok(a) => a,
                    Err(e) => return Err(e),
                };
                match self.expect(&TokenKind::RBracket) {
                    Ok(_) => Ok(Expr::Array(elems, span)),
                    Err(e) => Err(e),
                }
            },
            other => {
                let g = other.to_string();
                Err(ParseError { message: concat2("unexpected token: ", g.as_str()), span })
            },
        }
    }
}

impl Parser {
    /// Parse one statement.
    pub fn parse_stmt(&mut self) -> (r: ParseResult<Stmt>)
        requires
            old(self).wf(),
        ensures
            final(self).wf(),
            final(self).toks() == old(self).toks(),
            old(self).cursor() <= final(self).cursor(),
            (res_view(r), final(self).cursor()) == sp_stmt(old(self).toks(), old(self).cursor()),
            r is Ok ==> progress(old(self).toks(), old(self).cursor(), final(self).cursor()),
        decreases old(self).toks().len() - old(self).cursor(), 2int,
    {
        match &self.peek().kind {
            TokenKind::Let => self.parse_let(),
            TokenKind::If => self.parse_if(),
            TokenKind::While => self.parse_while(),
            TokenKind::For => self.parse_for(),
            TokenKind::Return => self.parse_return(),
            TokenKind::Break => {
                let span = self.advance().span;
                self.match_kind(&TokenKind::Semicolon);
                Ok(Stmt::Break(span))
            },
            TokenKind::Continue => {
                let span = self.advance().span;
                self.match_kind(&TokenKind::Semicolon);
                Ok(Stmt::Continue(span))
            },
            TokenKind::LBrace => self.parse_block(),
            _ => self.parse_expr_or_assign_stmt(),
        }
    }

    fn parse_block(&mut self) -> (r: ParseResult<Stmt>)
        requires
            old(self).wf(),
        ensures
            final(self).wf(),
            final(self).toks() == old(self).toks(),
            old(self).cursor() <= final(self).cursor(),
            (res_view(r), final(self).cursor()) == sp_block(old(self).toks(), old(self).cursor()),
            r is Ok ==> progress(old(self).toks(), old(self).cursor(), final(self).cursor()),
        decreases old(self).toks().len() - old(self).cursor(), 1int,
    {
        let ghost toks = self.toks();
        let ghost pos0 = self.cursor();
        let span = match self.expect(&TokenKind::LBrace) {
            Ok(t) => t.span,
            Err(e) => return Err(e),
        };
        let ghost p1 = self.cursor();
        let mut stmts: Vec<Stmt> = Vec::new();
        proof {
            assert(stmts_view(stmts@) =~= Seq::<StmtView>::empty());
        }
        loop
            invariant_except_break
                sp_block_items(toks, p1, Seq::empty(), span) == sp_block_items(
                    toks,
                    self.cursor(),
                    stmts_view(stmts@),
                    span,
                ),
            invariant
                self.wf(),
                self.toks() == toks,
                toks == old(self).toks(),
                pos0 == old(self).cursor(),
                pos0 < p1 <= self.cursor() <= toks.len(),
                sp_block(toks, pos0) == sp_block_items(toks, p1, Seq::empty(), span),
            ensures
                self.wf(),
                self.toks() == toks,
                pos0 < p1 <= self.cursor() <= toks.len(),
                sp_block(toks, pos0) == sp_block_items(toks, self.cursor(), stmts_view(stmts@), span),
                at_kind(toks, self.cursor(), TokenKind::RBrace) || at_kind(toks, self.cursor(), TokenKind::Eof),
            decreases toks.len() - self.cursor(),
        {
            if self.is(&TokenKind::RBrace) || self.is(&TokenKind::Eof) {
                break;
            }
            let st = match self.parse_stmt() {
                Ok(st) => st,
                Err(e) => return Err(e),
            };
            proof {
                lemma_stmts_view_push(stmts@, st);
            }
            stmts.push(st);
        }
        match self.expect(&TokenKind::RBrace) {
            Ok(_) => Ok(Stmt::Block(stmts, span)),
            Err(e) => Err(e),
        }
    }

    fn parse_block_or_stmt(&mut self) -> (r: ParseResult<Stmt>)
        requires
            old(self).wf(),
        ensures
            final(self).wf(),
            final(self).toks() == old(self).toks(),
            old(self).cursor() <= final(self).cursor(),
            (res_view(r), final(self).cursor()) == sp_block_or_stmt(old(self).toks(), old(self).cursor()),
            r is Ok ==> progress(old(self).toks(), old(self).cursor(), final(self).cursor()),
        decreases old(self).toks().len() - old(self).cursor(), 3int,
    {
        if self.is(&TokenKind::LBrace) {
            self.parse_block()
        } else {
            self.parse_stmt()
        }
    }

    fn parse_let(&mut self) -> (r: ParseResult<Stmt>)
        requires
            old(self).wf(),
        ensures
            final(self).wf(),
            final(self).toks() == old(self).toks(),
            old(self).cursor() <= final(self).cursor(),
            (res_view(r), final(self).cursor()) == sp_let(old(self).toks(), old(self).cursor()),
            r is Ok ==> progress(old(self).toks(), old(self).cursor(), final(self).cursor()),
        decreases old(self).toks().len() - old(self).cursor(), 1int,
    {
        let span = match self.expect(&TokenKind::Let) {
            Ok(t) => t.span,
            Err(e) => return Err(e),
        };
        let name = match self.expect_name("variable name") {
            Ok(n) => n,
            Err(e) => return Err(e),
        };
        let ty = if self.match_kind(&TokenKind::Colon).is_some() {
            match self.parse_type() {
                Ok(t) => Some(t),
                Err(e) => return Err(e),
            }
        } else {
            None
        };
        let init = if self.match_kind(&TokenKind::Eq).is_some() {
            match self.parse_expression() {
                Ok(e) => Some(e),
                Err(e) => return Err(e),
            }
        } else {
            None
        };
        self.match_kind(&TokenKind::Semicolon);
        Ok(Stmt::Let { name, ty, init, span })
    }

    fn parse_if(&mut self) -> (r: ParseResult<Stmt>)
        requires
            old(self).wf(),
        ensures
            final(self).wf(),
            final(self).toks() == old(self).toks(),
            old(self).cursor() <= final(self).cursor(),
            (res_view(r), final(self).cursor()) == sp_if(old(self).toks(), old(self).cursor()),
            r is Ok ==> progress(old(self).toks(), old(self).cursor(), final(self).cursor()),
        decreases old(self).toks().len() - old(self).cursor(), 1int,
    {
        let span = match self.expect(&TokenKind::If) {
            Ok(t) => t.span,
            Err(e) => return Err(e),
        };
        let condition = match self.parse_expression() {
            Ok(e) => e,
            Err(e) => return Err(e),
        };
        let then_branch = match self.parse_block_or_stmt() {
            Ok(s) => s,
            Err(e) => return Err(e),
        };
        let else_branch = if self.match_kind(&TokenKind::Else).is_some() {
            match self.parse_block_or_stmt() {
                Ok(s) => Some(Box::new(s)),
                Err(e) => return Err(e),
            }
        } else {
            None
        };
        Ok(Stmt::If { condition, then_branch: Box::new(then_branch), else_branch, span })
    }

    fn parse_while(&mut self) -> (r: ParseResult<Stmt>)
        requires
            old(self).wf(),
        ensures
            final(self).wf(),
            final(self).toks() == old(self).toks(),
            old(self).cursor() <= final(self).cursor(),
            (res_view(r), final(self).cursor()) == sp_while(old(self).toks(), old(self).cursor()),
            r is Ok ==> progress(old(self).toks(), old(self).cursor(), final(self).cursor()),
        decreases old(self).toks().len() - old(self).cursor(), 1int,
    {
        let span = match self.expect(&TokenKind::While) {
            Ok(t) => t.span,
            Err(e) => return Err(e),
        };
        let condition = match self.parse_expression() {
            Ok(e) => e,
            Err(e) => return Err(e),
        };
        let body = match self.parse_block_or_stmt() {
            Ok(s) => s,
            Err(e) => return Err(e),
        };
        Ok(Stmt::While { condition, body: Box::new(body), span })
    }

    fn parse_for(&mut self) -> (r: ParseResult<Stmt>)
        requires
            old(self).wf(),
        ensures
            final(self).wf(),
            final(self).toks() == old(self).toks(),
            old(self).cursor() <= final(self).cursor(),
            (res_view(r), final(self).cursor()) == sp_for(old(self).toks(), old(self).cursor()),
            r is Ok ==> progress(old(self).toks(), old(self).cursor(), final(self).cursor()),
        decreases old(self).toks().len() - old(self).cursor(), 1int,
    {
        let span = match self.expect(&TokenKind::For) {
            Ok(t) => t.span,
            Err(e) => return Err(e),
        };
        let var = match self.expect_name("variable name") {
            Ok(n) => n,
            Err(e) => return Err(e),
        };
        match self.expect(&TokenKind::In) {
            Ok(_) => {},
            Err(e) => return Err(e),
        }
        let iterable = match self.parse_expression() {
            Ok(e) => e,
            Err(e) => return Err(e),
        };
        let body = match self.parse_block_or_stmt() {
            Ok(s) => s,
            Err(e) => return Err(e),
        };
        Ok(Stmt::For { var, iterable, body: Box::new(body), span })
    }

    fn parse_return(&mut self) -> (r: ParseResult<Stmt>)
        requires
            old(self).wf(),
        ensures
            final(self).wf(),
            final(self).toks() == old(self).toks(),
            old(self).cursor() <= final(self).cursor(),
            (res_view(r), final(self).cursor()) == sp_return(old(self).toks(), old(self).cursor()),
            r is Ok ==> progress(old(self).toks(), old(self).cursor(), final(self).cursor()),
        decreases old(self).toks().len() - old(self).cursor(), 1int,
    {
        let span = match self.expect(&TokenKind::Return) {
            Ok(t) => t.span,
            Err(e) => return Err(e),
        };
        let value = if !self.is(&TokenKind::Semicolon) && !self.is(&TokenKind::RBrace) {
            match self.parse_expression() {
                Ok(e) => Some(e),
                Err(e) => return Err(e),
            }
        } else {
            None
        };
        self.match_kind(&TokenKind::Semicolon);
        Ok(Stmt::Return(value, span))
    }

    fn parse_expr_or_assign_stmt(&mut self) -> (r: ParseResult<Stmt>)
        requires
            old(self).wf(),
        ensures
            final(self).wf(),
            final(self).toks() == old(self).toks(),
            old(self).cursor() <= final(self).cursor(),
            (res_view(r), final(self).cursor()) == sp_expr_or_assign(old(self).toks(), old(self).cursor()),
            r is Ok ==> progress(old(self).toks(), old(self).cursor(), final(self).cursor()),
        decreases old(self).toks().len() - old(self).cursor(), 1int,
    {
        let expr = match self.parse_expression() {
            Ok(e) => e,
            Err(e) => return Err(e),
        };
        if self.match_kind(&TokenKind::Eq).is_some() {
            let value = match self.parse_expression() {
                Ok(e) => e,
                Err(e) => return Err(e),
            };
            let span = *expr.span();
            self.match_kind(&TokenKind::Semicolon);
            Ok(Stmt::Assign { target: expr, value, span })
        } else {
            self.match_kind(&TokenKind::Semicolon);
            let span = *expr.span();
            Ok(Stmt::ExprStmt(expr, span))
        }
    }
}

/// The mathematical value of each element of a sequence.
pub open spec fn seq_view<T: View>(s: Seq<T>) -> Seq<T::V> {
    Seq::new(s.len(), |i: int| s[i]@)
}

proof fn lemma_seq_view_push<T: View>(s: Seq<T>, x: T)
    ensures
        seq_view(s.push(x)) == seq_view(s).push(x@),
{
    assert(seq_view(s.push(x)) =~= seq_view(s).push(x@));
}

pub open spec fn params_res(r: ParseResult<Vec<(String, Option<Type>)>>) -> Result<Seq<(Seq<char>, Option<TypeView>)>, ParseErrorView> {
    match r {
        Ok(v) => Ok(params_view(v@)),
        Err(e) => Err(e@),
    }
}

pub open spec fn entry_res(r: ParseResult<(String, Expr)>) -> Result<(Seq<char>, ExprView), ParseErrorView> {
    match r {
        Ok(v) => Ok((v.0@, v.1@)),
        Err(e) => Err(e@),
    }
}

/// The key of a configuration entry starting with the given token, if it starts one.
fn config_key_of(kind: &TokenKind, allow_guard: bool) -> (r: Option<String>)
    ensures
        match r {
            Some(k) => config_key(kind@, allow_guard) == Some(k@),
            None => config_key(kind@, allow_guard) is None,
        },
{
    proof {
        reveal_strlit("timeout");
        reveal_strlit("retry");
        reveal_strlit("guard");
    }
    match kind {
        TokenKind::Ident(s) => Some(s.clone()),
        TokenKind::Timeout => Some(String::from_str("timeout")),
        TokenKind::Retry => Some(String::from_str("retry")),
        TokenKind::Guard => if allow_guard {
            Some(String::from_str("guard"))
        } else {
            None
        },
        _ => None,
    }
}

impl Parser {
    fn parse_params(&mut self) -> (r: ParseResult<Vec<(String, Option<Type>)>>)
        requires
            old(self).wf(),
        ensures
            final(self).wf(),
            final(self).toks() == old(self).toks(),
            old(self).cursor() <= final(self).cursor(),
            (params_res(r), final(self).cursor()) == sp_params(old(self).toks(), old(self).cursor()),
    {
        let ghost toks = self.toks();
        let ghost pos0 = self.cursor();
        let mut params: Vec<(String, Option<Type>)> = Vec::new();
        proof {
            assert(params_view(params@) =~= Seq::<(Seq<char>, Option<TypeView>)>::empty());
        }
        if !self.is(&TokenKind::RParen) {
            loop
                invariant_except_break
                    sp_params_loop(toks, pos0, Seq::empty()) == sp_params_loop(
                        toks,
                        self.cursor(),
                        params_view(params@),
                    ),
                invariant
                    self.wf(),
                    self.toks() == toks,
                    toks == old(self).toks(),
                    pos0 == old(self).cursor(),
                    pos0 <= self.cursor() <= toks.len(),
                    !at_kind(toks, pos0, TokenKind::RParen),
                ensures
                    self.wf(),
                    self.toks() == toks,
                    pos0 <= self.cursor() <= toks.len(),
                    sp_params_loop(toks, pos0, Seq::empty()) == (Ok::<
                        Seq<(Seq<char>, Option<TypeView>)>,
                        ParseErrorView,
                    >(params_view(params@)), self.cursor()),
                decreases toks.len() - self.cursor(),
            {
                let name = match self.expect_name("parameter name") {
                    Ok(n) => n,
                    Err(e) => return Err(e),
                };
                let ty = if self.match_kind(&TokenKind::Colon).is_some() {
                    match self.parse_type() {
                        Ok(t) => Some(t),
                        Err(e) => return Err(e),
                    }
                } else {
                    None
                };
                proof {
                    assert(params_view(params@.push((name, ty))) =~= params_view(params@).push(
                        (name@, opt_type_view(ty)),
                    ));
                }
                params.push((name, ty));
                if self.match_kind(&TokenKind::Comma).is_none() {
                    break;
                }
            }
        }
        Ok(params)
    }

    fn parse_fn_decl(&mut self) -> (r: ParseResult<Stmt>)
        requires
            old(self).wf(),
        ensures
            final(self).wf(),
            final(self).toks() == old(self).toks(),
            old(self).cursor() <= final(self).cursor(),
            (res_view(r), final(self).cursor()) == sp_fn_decl(old(self).toks(), old(self).cursor()),
            r is Ok ==> progress(old(self).toks(), old(self).cursor(), final(self).cursor()),
    {
        let span = match self.expect(&TokenKind::Fn) {
            Ok(t) => t.span,
            Err(e) => return Err(e),
        };
        let name = match self.expect_name("function name") {
            Ok(n) => n,
            Err(e) => return Err(e),
        };
        match self.expect(&TokenKind::LParen) {
            Ok(_) => {},
            Err(e) => return Err(e),
        }
        let params = match self.parse_params() {
            Ok(p) => p,
            Err(e) => return Err(e),
        };
        match self.expect(&TokenKind::RParen) {
            Ok(_) => {},
            Err(e) => return Err(e),
        }
        let return_type = if self.match_kind(&TokenKind::Arrow).is_some() {
            match self.parse_type() {
                Ok(t) => Some(t),
                Err(e) => return Err(e),
            }
        } else {
            None
        };
        let body = match self.parse_block() {
            Ok(b) => b,
            Err(e) => return Err(e),
        };
        Ok(Stmt::FnDecl { name, params, return_type, body: Box::new(body), span })
    }

    /// Fields of a struct declaration up to its closing brace.
    fn parse_struct_fields(&mut self) -> (r: ParseResult<Vec<(String, Type)>>)
        requires
            old(self).wf(),
        ensures
            final(self).wf(),
            final(self).toks() == old(self).toks(),
            old(self).cursor() <= final(self).cursor(),
            (match r {
                Ok(v) => Ok(struct_fields_view(v@)),
                Err(e) => Err(e@),
            }, final(self).cursor()) == sp_struct_fields(old(self).toks(), old(self).cursor(), Seq::empty()),
    {
        let ghost toks = self.toks();
        let ghost pos0 = self.cursor();
        let mut fields: Vec<(String, Type)> = Vec::new();
        proof {
            assert(struct_fields_view(fields@) =~= Seq::<(Seq<char>, TypeView)>::empty());
        }
        loop
            invariant_except_break
                sp_struct_fields(toks, pos0, Seq::empty()) == sp_struct_fields(
                    toks,
                    self.cursor(),
                    struct_fields_view(fields@),
                ),
            invariant
                self.wf(),
                self.toks() == toks,
                toks == old(self).toks(),
                pos0 == old(self).cursor(),
                pos0 <= self.cursor() <= toks.len(),
            ensures
                self.wf(),
                self.toks() == toks,
                pos0 <= self.cursor() <= toks.len(),
                sp_struct_fields(toks, pos0, Seq::empty()) == (Ok::<Seq<(Seq<char>, TypeView)>, ParseErrorView>(
                    struct_fields_view(fields@),
                ), self.cursor()),
            decreases toks.len() - self.cursor(),
        {
            if self.is(&TokenKind::RBrace) {
                break;
            }
            let fname = match self.expect_name("field name") {
                Ok(n) => n,
                Err(e) => return Err(e),
            };
            match self.expect(&TokenKind::Colon) {
                Ok(_) => {},
                Err(e) => return Err(e),
            }
            let ftype = match self.parse_type() {
                Ok(t) => t,
                Err(e) => return Err(e),
            };
            proof {
                assert(struct_fields_view(fields@.push((fname, ftype))) =~= struct_fields_view(
                    fields@,
                ).push((fname@, ftype@)));
            }
            fields.push((fname, ftype));
            self.match_kind(&TokenKind::Comma);
        }
        Ok(fields)
    }

    fn parse_struct_decl(&mut self) -> (r: ParseResult<Stmt>)
        requires
            old(self).wf(),
        ensures
            final(self).wf(),
            final(self).toks() == old(self).toks(),
            old(self).cursor() <= final(self).cursor(),
            (res_view(r), final(self).cursor()) == sp_struct_decl(old(self).toks(), old(self).cursor()),
            r is Ok ==> progress(old(self).toks(), old(self).cursor(), final(self).cursor()),
    {
        let span = match self.expect(&TokenKind::Struct) {
            Ok(t) => t.span,
            Err(e) => return Err(e),
        };
        let name = match self.expect_name("struct name") {
            Ok(n) => n,
            Err(e) => return Err(e),
        };
        match self.expect(&TokenKind::LBrace) {
            Ok(_) => {},
            Err(e) => return Err(e),
        }
        let fields = match self.parse_struct_fields() {
            Ok(f) => f,
            Err(e) => return Err(e),
        };
        match self.expect(&TokenKind::RBrace) {
            Ok(_) => Ok(Stmt::StructDecl { name, fields, span }),
            Err(e) => Err(e),
        }
    }

    /// A configuration entry `key: value` with an optional trailing comma; the key is the
    /// current token.
    fn parse_config_entry(&mut self, key: String) -> (r: ParseResult<(String, Expr)>)
        requires
            old(self).wf(),
        ensures
            final(self).wf(),
            final(self).toks() == old(self).toks(),
            old(self).cursor() <= final(self).cursor(),
            (entry_res(r), final(self).cursor()) == sp_config_entry(old(self).toks(), old(self).cursor(), key@),
            r is Ok ==> progress(old(self).toks(), old(self).cursor(), final(self).cursor()),
    {
        self.advance();
        match self.expect(&TokenKind::Colon) {
            Ok(_) => {},
            Err(e) => return Err(e),
        }
        let value = match self.parse_expression() {
            Ok(v) => v,
            Err(e) => return Err(e),
        };
        self.match_kind(&TokenKind::Comma);
        Ok((key, value))
    }

    fn parse_trigger_decl(&mut self) -> (r: ParseResult<TriggerDecl>)
        requires
            old(self).wf(),
        ensures
            final(self).wf(),
            final(self).toks() == old(self).toks(),
            old(self).cursor() <= final(self).cursor(),
            (res_view(r), final(self).cursor()) == sp_trigger_decl(old(self).toks(), old(self).cursor()),
            r is Ok ==> progress(old(self).toks(), old(self).cursor(), final(self).cursor()),
    {
        let span = if self.is(&TokenKind::On) {
            match self.expect(&TokenKind::On) {
                Ok(t) => t.span,
                Err(e) => return Err(e),
            }
        } else {
            match self.expect(&TokenKind::Trigger) {
                Ok(t) => t.span,
                Err(e) => return Err(e),
            }
        };
        let event = match self.expect_name("event name") {
            Ok(n) => n,
            Err(e) => return Err(e),
        };
        let guard = if self.is(&TokenKind::Guard) || self.is(&TokenKind::If) {
            self.advance();
            match self.parse_expression() {
                Ok(g) => Some(g),
                Err(e) => return Err(e),
            }
        } else {
            None
        };
        match self.expect(&TokenKind::Do) {
            Ok(_) => {},
            Err(e) => return Err(e),
        }
        let action = match self.parse_expression() {
            Ok(a) => a,
            Err(e) => return Err(e),
        };
        self.match_kind(&TokenKind::Semicolon);
        Ok(TriggerDecl { event, guard, action, span })
    }
}

impl Parser {
    /// The body of a skill up to its closing brace: `do` sets the handler, `key: value`
    /// entries add configuration, anything else is skipped.
    fn parse_skill_body(&mut self, default_handler: Expr) -> (r: ParseResult<(Expr, Vec<(String, Expr)>)>)
        requires
            old(self).wf(),
        ensures
            final(self).wf(),
            final(self).toks() == old(self).toks(),
            old(self).cursor() <= final(self).cursor(),
            (match r {
                Ok(v) => Ok((v.0@, config_view(v.1@))),
                Err(e) => Err(e@),
            }, final(self).cursor()) == sp_skill_body(old(self).toks(), old(self).cursor(), default_handler@, Seq::empty()),
    {
        let ghost toks = self.toks();
        let ghost pos0 = self.cursor();
        let ghost h0 = default_handler@;
        let mut handler = default_handler;
        let mut config: Vec<(String, Expr)> = Vec::new();
        proof {
            assert(config_view(config@) =~= Seq::<(Seq<char>, ExprView)>::empty());
        }
        loop
            invariant_except_break
                sp_skill_body(toks, pos0, h0, Seq::empty()) == sp_skill_body(
                    toks,
                    self.cursor(),
                    handler@,
                    config_view(config@),
                ),
            invariant
                self.wf(),
                self.toks() == toks,
                toks == old(self).toks(),
                pos0 == old(self).cursor(),
                pos0 <= self.cursor() <= toks.len(),
                h0 == default_handler@,
            ensures
                self.wf(),
                self.toks() == toks,
                pos0 <= self.cursor() <= toks.len(),
                sp_skill_body(toks, pos0, h0, Seq::empty()) == (Ok::<
                    (ExprView, Seq<(Seq<char>, ExprView)>),
                    ParseErrorView,
                >((handler@, config_view(config@))), self.cursor()),
            decreases toks.len() - self.cursor(),
        {
            if self.is(&TokenKind::RBrace) || self.is(&TokenKind::Eof) {
                break;
            }
            let is_do = match &self.peek().kind {
                TokenKind::Do => true,
                _ => false,
            };
            if is_do {
                self.advance();
                handler = match self.parse_expression() {
                    Ok(h) => h,
                    Err(e) => return Err(e),
                };
                self.match_kind(&TokenKind::Semicolon);
            } else {
                match config_key_of(&self.peek().kind, true) {
                    Some(key) => {
                        let entry = match self.parse_config_entry(key) {
                            Ok(en) => en,
                            Err(e) => return Err(e),
                        };
                        proof {
                            assert(config_view(config@.push(entry)) =~= config_view(config@).push(
                                (entry.0@, entry.1@),
                            ));
                        }
                        config.push(entry);
                    },
                    None => {
                        self.advance();
                    },
                }
            }
        }
        Ok((handler, config))
    }

    fn parse_skill_decl(&mut self) -> (r: ParseResult<SkillDecl>)
        requires
            old(self).wf(),
        ensures
            final(self).wf(),
            final(self).toks() == old(self).toks(),
            old(self).cursor() <= final(self).cursor(),
            (res_view(r), final(self).cursor()) == sp_skill_decl(old(self).toks(), old(self).cursor()),
            r is Ok ==> progress(old(self).toks(), old(self).cursor(), final(self).cursor()),
    {
        let span = match self.expect(&TokenKind::Skill) {
            Ok(t) => t.span,
            Err(e) => return Err(e),
        };
        let name = match self.expect_name("skill name") {
            Ok(n) => n,
            Err(e) => return Err(e),
        };
        match self.expect(&TokenKind::LBrace) {
            Ok(_) => {},
            Err(e) => return Err(e),
        }
        let (handler, config) = match self.parse_skill_body(Expr::NullLiteral(span)) {
            Ok(b) => b,
            Err(e) => return Err(e),
        };
        match self.expect(&TokenKind::RBrace) {
            Ok(_) => Ok(SkillDecl { name, handler, config, span }),
            Err(e) => Err(e),
        }
    }

    /// The body of an agent up to its closing brace.
    fn parse_agent_body(&mut self) -> (r: ParseResult<(Vec<SkillDecl>, Vec<TriggerDecl>, Vec<(String, Expr)>)>)
        requires
            old(self).wf(),
        ensures
            final(self).wf(),
            final(self).toks() == old(self).toks(),
            old(self).cursor() <= final(self).cursor(),
            (match r {
                Ok(v) => Ok((seq_view(v.0@), seq_view(v.1@), config_view(v.2@))),
                Err(e) => Err(e@),
            }, final(self).cursor()) == sp_agent_body(
                old(self).toks(),
                old(self).cursor(),
                Seq::empty(),
                Seq::empty(),
                Seq::empty(),
            ),
    {
        let ghost toks = self.toks();
        let ghost pos0 = self.cursor();
        let mut skills: Vec<SkillDecl> = Vec::new();
        let mut triggers: Vec<TriggerDecl> = Vec::new();
        let mut config: Vec<(String, Expr)> = Vec::new();
        proof {
            assert(seq_view(skills@) =~= Seq::<SkillDeclView>::empty());
            assert(seq_view(triggers@) =~= Seq::<TriggerDeclView>::empty());
            assert(config_view(config@) =~= Seq::<(Seq<char>, ExprView)>::empty());
        }
        loop
            invariant_except_break
                sp_agent_body(toks, pos0, Seq::empty(), Seq::empty(), Seq::empty()) == sp_agent_body(
                    toks,
                    self.cursor(),
                    seq_view(skills@),
                    seq_view(triggers@),
                    config_view(config@),
                ),
            invariant
                self.wf(),
                self.toks() == toks,
                toks == old(self).toks(),
                pos0 == old(self).cursor(),
                pos0 <= self.cursor() <= toks.len(),
            ensures
                self.wf(),
                self.toks() == toks,
                pos0 <= self.cursor() <= toks.len(),
                sp_agent_body(toks, pos0, Seq::empty(), Seq::empty(), Seq::empty()) == (Ok::<
                    (Seq<SkillDeclView>, Seq<TriggerDeclView>, Seq<(Seq<char>, ExprView)>),
                    ParseErrorView,
                >((seq_view(skills@), seq_view(triggers@), config_view(config@))), self.cursor()),
            decreases toks.len() - self.cursor(),
        {
            if self.is(&TokenKind::RBrace) || self.is(&TokenKind::Eof) {
                break;
            }
            let which: u8 = match &self.peek().kind {
                TokenKind::Skill => 1,
                TokenKind::Trigger | TokenKind::On => 2,
                _ => 0,
            };
            if which == 1 {
                let sk = match self.parse_skill_decl() {
                    Ok(sk) => sk,
                    Err(e) => return Err(e),
                };
                proof {
                    lemma_seq_view_push(skills@, sk);
                }
                skills.push(sk);
            } else if which == 2 {
                let tr = match self.parse_trigger_decl() {
                    Ok(tr) => tr,
                    Err(e) => return Err(e),
                };
                proof {
                    lemma_seq_view_push(triggers@, tr);
                }
                triggers.push(tr);
            } else {
                match config_key_of(&self.peek().kind, false) {
                    Some(key) => {
                        let entry = match self.parse_config_entry(key) {
                            Ok(en) => en,
                            Err(e) => return Err(e),
                        };
                        proof {
                            assert(config_view(config@.push(entry)) =~= config_view(config@).push(
                                (entry.0@, entry.1@),
                            ));
                        }
                        config.push(entry);
                    },
                    None => {
                        self.advance();
                    },
                }
            }
        }
        Ok((skills, triggers, config))
    }

    fn parse_agent_decl(&mut self) -> (r: ParseResult<AgentDecl>)
        requires
            old(self).wf(),
        ensures
            final(self).wf(),
            final(self).toks() == old(self).toks(),
            old(self).cursor() <= final(self).cursor(),
            (res_view(r), final(self).cursor()) == sp_agent_decl(old(self).toks(), old(self).cursor()),
            r is Ok ==> progress(old(self).toks(), old(self).cursor(), final(self).cursor()),
    {
        let span = match self.expect(&TokenKind::Agent) {
            Ok(t) => t.span,
            Err(e) => return Err(e),
        };
        let name = match self.expect_name("agent name") {
            Ok(n) => n,
            Err(e) => return Err(e),
        };
        match self.expect(&TokenKind::LBrace) {
            Ok(_) => {},
            Err(e) => return Err(e),
        }
        let (skills, triggers, config) = match self.parse_agent_body() {
            Ok(b) => b,
            Err(e) => return Err(e),
        };
        match self.expect(&TokenKind::RBrace) {
            Ok(_) => {
                let a = AgentDecl { name, skills, triggers, config, span };
                proof {
                    assert(a@.skills =~= seq_view(a.skills@));
                    assert(a@.triggers =~= seq_view(a.triggers@));
                }
                Ok(a)
            },
            Err(e) => Err(e),
        }
    }

    /// Parse one top-level item.
    pub fn parse_item(&mut self) -> (r: ParseResult<Item>)
        requires
            old(self).wf(),
        ensures
            final(self).wf(),
            final(self).toks() == old(self).toks(),
            old(self).cursor() <= final(self).cursor(),
            (res_view(r), final(self).cursor()) == sp_item(old(self).toks(), old(self).cursor()),
            r is Ok ==> progress(old(self).toks(), old(self).cursor(), final(self).cursor()),
    {
        let which: u8 = match &self.peek().kind {
            TokenKind::Fn => 1,
            TokenKind::Struct => 2,
            TokenKind::Agent => 3,
            _ => 0,
        };
        if which == 1 {
            match self.parse_fn_decl() {
                Ok(s) => Ok(Item::Function(s)),
                Err(e) => Err(e),
            }
        } else if which == 2 {
            match self.parse_struct_decl() {
                Ok(s) => Ok(Item::Struct(s)),
                Err(e) => Err(e),
            }
        } else if which == 3 {
            match self.parse_agent_decl() {
                Ok(a) => Ok(Item::Agent(a)),
                Err(e) => Err(e),
            }
        } else {
            let expr = match self.parse_expression() {
                Ok(e) => e,
                Err(e) => return Err(e),
            };
            self.match_kind(&TokenKind::Semicolon);
            Ok(Item::Expr(expr))
        }
    }

    /// Parse a full program: items up to the end of the input.
    pub fn parse_program(&mut self) -> (r: ParseResult<Program>)
        requires
            old(self).wf(),
        ensures
            final(self).wf(),
            final(self).toks() == old(self).toks(),
            old(self).cursor() <= final(self).cursor(),
            (res_view(r), final(self).cursor()) == sp_program(old(self).toks(), old(self).cursor(), Seq::empty()),
    {
        let ghost toks = self.toks();
        let ghost pos0 = self.cursor();
        let mut items: Vec<Item> = Vec::new();
        proof {
            assert(seq_view(items@) =~= Seq::<ItemView>::empty());
        }
        loop
            invariant_except_break
                sp_program(toks, pos0, Seq::empty()) == sp_program(toks, self.cursor(), seq_view(items@)),
            invariant
                self.wf(),
                self.toks() == toks,
                toks == old(self).toks(),
                pos0 == old(self).cursor(),
                pos0 <= self.cursor() <= toks.len(),
            ensures
                self.wf(),
                self.toks() == toks,
                pos0 <= self.cursor() <= toks.len(),
                sp_program(toks, pos0, Seq::empty()) == (Ok::<Seq<ItemView>, ParseErrorView>(seq_view(items@)), self.cursor()),
            decreases toks.len() - self.cursor(),
        {
            if self.is(&TokenKind::Eof) {
                break;
            }
            let it = match self.parse_item() {
                Ok(it) => it,
                Err(e) => return Err(e),
            };
            proof {
                lemma_seq_view_push(items@, it);
            }
            items.push(it);
        }
        let p = Program { items };
        proof {
            assert(p@ =~= seq_view(p.items@));
        }
        Ok(p)
    }
}

/// The mathematical value of what `parse` returns.
pub open spec fn parse_result_view(r: Result<Program, Vec<ParseError>>) -> Result<Seq<ItemView>, Seq<ParseErrorView>> {
    match r {
        Ok(p) => Ok(p@),
        Err(es) => Err(seq_view(es@)),
    }
}

/// Parse a source string into a Program.
pub fn parse(source: &str) -> (r: Result<Program, Vec<ParseError>>)
    requires
        source_fits(source@),
    ensures
        parse_result_view(r) == parse_spec(source@),
{
    proof {
        lemma_tokenize_spans(source@);
    }
    match tokenize(source) {
        Err(errs) => {
            let mut out: Vec<ParseError> = Vec::new();
            let mut i: usize = 0;
            while i < errs.len()
                invariant
                    0 <= i <= errs@.len(),
                    seq_view(out@) =~= Seq::new(
                        i as nat,
                        |j: int| ParseErrorView { message: errs@[j].message@, span: errs@[j].span },
                    ),
                decreases errs@.len() - i,
            {
                let e = &errs[i];
                let pe = ParseError { message: e.message.clone(), span: e.span };
                proof {
                    lemma_seq_view_push(out@, pe);
                }
                out.push(pe);
                i = i + 1;
            }
            proof {
                let es = lex_result_view(Err::<Vec<Token>, Vec<LexerError>>(errs))->Err_0;
                assert(seq_view(out@) =~= Seq::new(
                    es.len(),
                    |j: int| ParseErrorView { message: es[j].message, span: es[j].span },
                ));
            }
            Err(out)
        },
        Ok(tokens) => {
            let mut parser = Parser::new(tokens);
            match parser.parse_program() {
                Ok(p) => Ok(p),
                Err(e) => {
                    let v = vec![e];
                    proof {
                        assert(seq_view(v@) =~= seq![e@]);
                    }
                    Err(v)
                },
            }
        },
    }
}

} // verus!

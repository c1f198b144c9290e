// Lexer: regex-based tokenizer with position tracking.
use vstd::prelude::*;
use crate::pattern::{Pattern, compile, find, regex_first_match};
use crate::text::{nat_decimal, int_decimal, u64_text, i64_text, concat2, concat3, text_eq, text_chars};

verus! {

/// Source position: byte offsets of start and end, 1-based line and column of the start.
#[derive(Debug, Clone, Copy, PartialEq, Eq, Structural)]
pub struct Span {
    pub start: usize,
    pub end: usize,
    pub line: u32,
    pub col: u32,
}

impl Span {
    pub fn new(start: usize, end: usize, line: u32, col: u32) -> (s: Span)
        ensures
            s == (Span { start, end, line, col }),
    {
        Span { start, end, line, col }
    }

    pub fn zero() -> (s: Span)
        ensures
            s == (Span { start: 0, end: 0, line: 1, col: 1 }),
    {
        Span::new(0, 0, 1, 1)
    }

    pub open spec fn text_spec(self) -> Seq<char> {
        nat_decimal(self.line as nat) + seq![':'] + nat_decimal(self.col as nat)
    }

    /// `line:col`.
    pub fn text(&self) -> (r: String)
        ensures
            r@ == self.text_spec(),
    {
        let l = u64_text(self.line as u64);
        let c = u64_text(self.col as u64);
        proof {
            reveal_strlit(":");
        }
        concat3(l.as_str(), ":", c.as_str())
    }
}

/// Token types for a general-purpose language.
#[derive(Debug, PartialEq, Eq)]
pub enum TokenKind {
    // Literals
    Int(i64),
    Float(String),
    String(String),
    Bool(bool),
    Ident(String),
    // Operators
    Plus,
    Minus,
    Star,
    Slash,
    Percent,
    Eq,
    EqEq,
    Bang,
    BangEq,
    Lt,
    LtEq,
    Gt,
    GtEq,
    And,
    Or,
    Ampersand,
    Pipe,
    Caret,
    Shl,
    Shr,
    Arrow,
    FatArrow,
    // Delimiters
    LParen,
    RParen,
    LBrace,
    RBrace,
    LBracket,
    RBracket,
    Comma,
    Semicolon,
    Colon,
    Dot,
    // Keywords
    Let,
    If,
    Else,
    While,
    For,
    Fn,
    Return,
    Break,
    Continue,
    Struct,
    Enum,
    Match,
    True,
    False,
    Null,
    Import,
    Export,
    As,
    In,
    // Agent DSL keywords
    Agent,
    Skill,
    Trigger,
    On,
    Do,
    Timeout,
    Retry,
    Guard,
    Emit,
    With,
    // Special
    Eof,
    Error(String),
}

/// The mathematical value of a token kind: payloads as values, texts as character
/// sequences; kinds without payload stand for themselves.
pub enum TokenKindView {
    Int(i64),
    Float(Seq<char>),
    Str(Seq<char>),
    Bool(bool),
    Ident(Seq<char>),
    Error(Seq<char>),
    Simple(TokenKind),
}

impl View for TokenKind {
    type V = TokenKindView;

    open spec fn view(&self) -> TokenKindView {
        match self {
            TokenKind::Int(v) => TokenKindView::Int(*v),
            TokenKind::Float(s) => TokenKindView::Float(s@),
            TokenKind::String(s) => TokenKindView::Str(s@),
            TokenKind::Bool(b) => TokenKindView::Bool(*b),
            TokenKind::Ident(s) => TokenKindView::Ident(s@),
            TokenKind::Error(s) => TokenKindView::Error(s@),
            _ => TokenKindView::Simple(*self),
        }
    }
}


/// The display text of a kind without payload.
pub open spec fn simple_text(k: TokenKind) -> Seq<char> {
    match k {
        TokenKind::Plus => "+"@,
        TokenKind::Minus => "-"@,
        TokenKind::Star => "*"@,
        TokenKind::Slash => "/"@,
        TokenKind::Percent => "%"@,
        TokenKind::Eq => "="@,
        TokenKind::EqEq => "=="@,
        TokenKind::Bang => "!"@,
        TokenKind::BangEq => "!="@,
        TokenKind::Lt => "<"@,
        TokenKind::LtEq => "<="@,
        TokenKind::Gt => ">"@,
        TokenKind::GtEq => ">="@,
        TokenKind::And => "&&"@,
        TokenKind::Or => "||"@,
        TokenKind::Ampersand => "&"@,
        TokenKind::Pipe => "|"@,
        TokenKind::Caret => "^"@,
        TokenKind::Shl => "<<"@,
        TokenKind::Shr => ">>"@,
        TokenKind::Arrow => "->"@,
        TokenKind::FatArrow => "=>"@,
        TokenKind::LParen => "("@,
        TokenKind::RParen => ")"@,
        TokenKind::LBrace => "{"@,
        TokenKind::RBrace => "}"@,
        TokenKind::LBracket => "["@,
        TokenKind::RBracket => "]"@,
        TokenKind::Comma => ","@,
        TokenKind::Semicolon => ";"@,
        TokenKind::Colon => ":"@,
        TokenKind::Dot => "."@,
        TokenKind::Let => "let"@,
        TokenKind::If => "if"@,
        TokenKind::Else => "else"@,
        TokenKind::While => "while"@,
        TokenKind::For => "for"@,
        TokenKind::Fn => "fn"@,
        TokenKind::Return => "return"@,
        TokenKind::Break => "break"@,
        TokenKind::Continue => "continue"@,
        TokenKind::Struct => "struct"@,
        TokenKind::Enum => "enum"@,
        TokenKind::Match => "match"@,
        TokenKind::True => "true"@,
        TokenKind::False => "false"@,
        TokenKind::Null => "null"@,
        TokenKind::Import => "import"@,
        TokenKind::Export => "export"@,
        TokenKind::As => "as"@,
        TokenKind::In => "in"@,
        TokenKind::Agent => "agent"@,
        TokenKind::Skill => "skill"@,
        TokenKind::Trigger => "trigger"@,
        TokenKind::On => "on"@,
        TokenKind::Do => "do"@,
        TokenKind::Timeout => "timeout"@,
        TokenKind::Retry => "retry"@,
        TokenKind::Guard => "guard"@,
        TokenKind::Emit => "emit"@,
        TokenKind::With => "with"@,
        TokenKind::Eof => "<eof>"@,
        _ => Seq::empty(),
    }
}

/// The display text of a token kind.
pub open spec fn kind_text(k: TokenKindView) -> Seq<char> {
    match k {
        TokenKindView::Int(v) => int_decimal(v as int),
        TokenKindView::Float(s) => s + "f"@,
        TokenKindView::Str(s) => "\""@ + s + "\""@,
        TokenKindView::Bool(b) => if b {
            "true"@
        } else {
            "false"@
        },
        TokenKindView::Ident(s) => s,
        TokenKindView::Error(e) => "<error: "@ + e + ">"@,
        TokenKindView::Simple(k) => simple_text(k),
    }
}

fn simple_str(k: &TokenKind) -> (r: &'static str)
    ensures
        r@ == simple_text(*k),
{
    proof {
        reveal_strlit("");
    }
    match k {
        TokenKind::Plus => "+",
        TokenKind::Minus => "-",
        TokenKind::Star => "*",
        TokenKind::Slash => "/",
        TokenKind::Percent => "%",
        TokenKind::Eq => "=",
        TokenKind::EqEq => "==",
        TokenKind::Bang => "!",
        TokenKind::BangEq => "!=",
        TokenKind::Lt => "<",
        TokenKind::LtEq => "<=",
        TokenKind::Gt => ">",
        TokenKind::GtEq => ">=",
        TokenKind::And => "&&",
        TokenKind::Or => "||",
        TokenKind::Ampersand => "&",
        TokenKind::Pipe => "|",
        TokenKind::Caret => "^",
        TokenKind::Shl => "<<",
        TokenKind::Shr => ">>",
        TokenKind::Arrow => "->",
        TokenKind::FatArrow => "=>",
        TokenKind::LParen => "(",
        TokenKind::RParen => ")",
        TokenKind::LBrace => "{",
        TokenKind::RBrace => "}",
        TokenKind::LBracket => "[",
        TokenKind::RBracket => "]",
        TokenKind::Comma => ",",
        TokenKind::Semicolon => ";",
        TokenKind::Colon => ":",
        TokenKind::Dot => ".",
        TokenKind::Let => "let",
        TokenKind::If => "if",
        TokenKind::Else => "else",
        TokenKind::While => "while",
        TokenKind::For => "for",
        TokenKind::Fn => "fn",
        TokenKind::Return => "return",
        TokenKind::Break => "break",
        TokenKind::Continue => "continue",
        TokenKind::Struct => "struct",
        TokenKind::Enum => "enum",
        TokenKind::Match => "match",
        TokenKind::True => "true",
        TokenKind::False => "false",
        TokenKind::Null => "null",
        TokenKind::Import => "import",
        TokenKind::Export => "export",
        TokenKind::As => "as",
        TokenKind::In => "in",
        TokenKind::Agent => "agent",
        TokenKind::Skill => "skill",
        TokenKind::Trigger => "trigger",
        TokenKind::On => "on",
        TokenKind::Do => "do",
        TokenKind::Timeout => "timeout",
        TokenKind::Retry => "retry",
        TokenKind::Guard => "guard",
        TokenKind::Emit => "emit",
        TokenKind::With => "with",
        TokenKind::Eof => "<eof>",
        _ => "",
    }
}

impl TokenKind {
    /// The display text of the kind (what `Display` renders).
    pub fn to_string(&self) -> (r: String)
        ensures
            r@ == kind_text(self@),
    {
        match self {
            TokenKind::Int(v) => i64_text(*v),
            TokenKind::Float(s) => concat2(s.as_str(), "f"),
            TokenKind::String(s) => concat3("\"", s.as_str(), "\""),
            TokenKind::Bool(b) => if *b {
                String::from_str("true")
            } else {
                String::from_str("false")
            },
            TokenKind::Ident(s) => s.clone(),
            TokenKind::Error(e) => concat3("<error: ", e.as_str(), ">"),
            _ => String::from_str(simple_str(self)),
        }
    }

    /// Whether two kinds are the same variant (payloads aside).
    pub fn same_variant(&self, other: &TokenKind) -> (r: bool)
        ensures
            r == same_variant_spec(self@, other@),
    {
        match (self, other) {
            (TokenKind::Int(_), TokenKind::Int(_)) => true,
            (TokenKind::Float(_), TokenKind::Float(_)) => true,
            (TokenKind::String(_), TokenKind::String(_)) => true,
            (TokenKind::Bool(_), TokenKind::Bool(_)) => true,
            (TokenKind::Ident(_), TokenKind::Ident(_)) => true,
            (TokenKind::Error(_), TokenKind::Error(_)) => true,
            (TokenKind::Int(_), _) | (TokenKind::Float(_), _) | (TokenKind::String(_), _) | (
                TokenKind::Bool(_),
                _,
            ) | (TokenKind::Ident(_), _) | (TokenKind::Error(_), _) => false,
            (_, TokenKind::Int(_)) | (_, TokenKind::Float(_)) | (_, TokenKind::String(_)) | (
                _,
                TokenKind::Bool(_),
            ) | (_, TokenKind::Ident(_)) | (_, TokenKind::Error(_)) => false,
            _ => simple_index(self) == simple_index(other),
        }
    }
}

/// Variant equality of kind views.
pub open spec fn same_variant_spec(a: TokenKindView, b: TokenKindView) -> bool {
    match (a, b) {
        (TokenKindView::Int(_), TokenKindView::Int(_)) => true,
        (TokenKindView::Float(_), TokenKindView::Float(_)) => true,
        (TokenKindView::Str(_), TokenKindView::Str(_)) => true,
        (TokenKindView::Bool(_), TokenKindView::Bool(_)) => true,
        (TokenKindView::Ident(_), TokenKindView::Ident(_)) => true,
        (TokenKindView::Error(_), TokenKindView::Error(_)) => true,
        (TokenKindView::Simple(x), TokenKindView::Simple(y)) => simple_index_spec(x)
            == simple_index_spec(y),
        _ => false,
    }
}

/// A number identifying each kind without payload.
fn simple_index(k: &TokenKind) -> (r: u8)
    ensures
        r == simple_index_spec(*k),
{
    match k {
        TokenKind::Plus => 0,
        TokenKind::Minus => 1,
        TokenKind::Star => 2,
        TokenKind::Slash => 3,
        TokenKind::Percent => 4,
        TokenKind::Eq => 5,
        TokenKind::EqEq => 6,
        TokenKind::Bang => 7,
        TokenKind::BangEq => 8,
        TokenKind::Lt => 9,
        TokenKind::LtEq => 10,
        TokenKind::Gt => 11,
        TokenKind::GtEq => 12,
        TokenKind::And => 13,
        TokenKind::Or => 14,
        TokenKind::Ampersand => 15,
        TokenKind::Pipe => 16,
        TokenKind::Caret => 17,
        TokenKind::Shl => 18,
        TokenKind::Shr => 19,
        TokenKind::Arrow => 20,
        TokenKind::FatArrow => 21,
        TokenKind::LParen => 22,
        TokenKind::RParen => 23,
        TokenKind::LBrace => 24,
        TokenKind::RBrace => 25,
        TokenKind::LBracket => 26,
        TokenKind::RBracket => 27,
        TokenKind::Comma => 28,
        TokenKind::Semicolon => 29,
        TokenKind::Colon => 30,
        TokenKind::Dot => 31,
        TokenKind::Let => 32,
        TokenKind::If => 33,
        TokenKind::Else => 34,
        TokenKind::While => 35,
        TokenKind::For => 36,
        TokenKind::Fn => 37,
        TokenKind::Return => 38,
        TokenKind::Break => 39,
        TokenKind::Continue => 40,
        TokenKind::Struct => 41,
        TokenKind::Enum => 42,
        TokenKind::Match => 43,
        TokenKind::True => 44,
        TokenKind::False => 45,
        TokenKind::Null => 46,
        TokenKind::Import => 47,
        TokenKind::Export => 48,
        TokenKind::As => 49,
        TokenKind::In => 50,
        TokenKind::Agent => 51,
        TokenKind::Skill => 52,
        TokenKind::Trigger => 53,
        TokenKind::On => 54,
        TokenKind::Do => 55,
        TokenKind::Timeout => 56,
        TokenKind::Retry => 57,
        TokenKind::Guard => 58,
        TokenKind::Emit => 59,
        TokenKind::With => 60,
        TokenKind::Eof => 61,
        _ => 255,
    }
}

/// A number identifying each kind without payload (distinct for distinct kinds).
pub open spec fn simple_index_spec(k: TokenKind) -> u8 {
    match k {
        TokenKind::Plus => 0,
        TokenKind::Minus => 1,
        TokenKind::Star => 2,
        TokenKind::Slash => 3,
        TokenKind::Percent => 4,
        TokenKind::Eq => 5,
        TokenKind::EqEq => 6,
        TokenKind::Bang => 7,
        TokenKind::BangEq => 8,
        TokenKind::Lt => 9,
        TokenKind::LtEq => 10,
        TokenKind::Gt => 11,
        TokenKind::GtEq => 12,
        TokenKind::And => 13,
        TokenKind::Or => 14,
        TokenKind::Ampersand => 15,
        TokenKind::Pipe => 16,
        TokenKind::Caret => 17,
        TokenKind::Shl => 18,
        TokenKind::Shr => 19,
        TokenKind::Arrow => 20,
        TokenKind::FatArrow => 21,
        TokenKind::LParen => 22,
        TokenKind::RParen => 23,
        TokenKind::LBrace => 24,
        TokenKind::RBrace => 25,
        TokenKind::LBracket => 26,
        TokenKind::RBracket => 27,
        TokenKind::Comma => 28,
        TokenKind::Semicolon => 29,
        TokenKind::Colon => 30,
        TokenKind::Dot => 31,
        TokenKind::Let => 32,
        TokenKind::If => 33,
        TokenKind::Else => 34,
        TokenKind::While => 35,
        TokenKind::For => 36,
        TokenKind::Fn => 37,
        TokenKind::Return => 38,
        TokenKind::Break => 39,
        TokenKind::Continue => 40,
        TokenKind::Struct => 41,
        TokenKind::Enum => 42,
        TokenKind::Match => 43,
        TokenKind::True => 44,
        TokenKind::False => 45,
        TokenKind::Null => 46,
        TokenKind::Import => 47,
        TokenKind::Export => 48,
        TokenKind::As => 49,
        TokenKind::In => 50,
        TokenKind::Agent => 51,
        TokenKind::Skill => 52,
        TokenKind::Trigger => 53,
        TokenKind::On => 54,
        TokenKind::Do => 55,
        TokenKind::Timeout => 56,
        TokenKind::Retry => 57,
        TokenKind::Guard => 58,
        TokenKind::Emit => 59,
        TokenKind::With => 60,
        TokenKind::Eof => 61,
        _ => 255,
    }
}

impl Clone for TokenKind {
    fn clone(&self) -> (r: TokenKind)
        ensures
            r@ == self@,
    {
        match self {
            TokenKind::Int(v) => TokenKind::Int(*v),
            TokenKind::Float(s) => TokenKind::Float(s.clone()),
            TokenKind::String(s) => TokenKind::String(s.clone()),
            TokenKind::Bool(b) => TokenKind::Bool(*b),
            TokenKind::Ident(s) => TokenKind::Ident(s.clone()),
            TokenKind::Error(s) => TokenKind::Error(s.clone()),
            TokenKind::Plus => TokenKind::Plus,
            TokenKind::Minus => TokenKind::Minus,
            TokenKind::Star => TokenKind::Star,
            TokenKind::Slash => TokenKind::Slash,
            TokenKind::Percent => TokenKind::Percent,
            TokenKind::Eq => TokenKind::Eq,
            TokenKind::EqEq => TokenKind::EqEq,
            TokenKind::Bang => TokenKind::Bang,
            TokenKind::BangEq => TokenKind::BangEq,
            TokenKind::Lt => TokenKind::Lt,
            TokenKind::LtEq => TokenKind::LtEq,
            TokenKind::Gt => TokenKind::Gt,
            TokenKind::GtEq => TokenKind::GtEq,
            TokenKind::And => TokenKind::And,
            TokenKind::Or => TokenKind::Or,
            TokenKind::Ampersand => TokenKind::Ampersand,
            TokenKind::Pipe => TokenKind::Pipe,
            TokenKind::Caret => TokenKind::Caret,
            TokenKind::Shl => TokenKind::Shl,
            TokenKind::Shr => TokenKind::Shr,
            TokenKind::Arrow => TokenKind::Arrow,
            TokenKind::FatArrow => TokenKind::FatArrow,
            TokenKind::LParen => TokenKind::LParen,
            TokenKind::RParen => TokenKind::RParen,
            TokenKind::LBrace => TokenKind::LBrace,
            TokenKind::RBrace => TokenKind::RBrace,
            TokenKind::LBracket => TokenKind::LBracket,
            TokenKind::RBracket => TokenKind::RBracket,
            TokenKind::Comma => TokenKind::Comma,
            TokenKind::Semicolon => TokenKind::Semicolon,
            TokenKind::Colon => TokenKind::Colon,
            TokenKind::Dot => TokenKind::Dot,
            TokenKind::Let => TokenKind::Let,
            TokenKind::If => TokenKind::If,
            TokenKind::Else => TokenKind::Else,
            TokenKind::While => TokenKind::While,
            TokenKind::For => TokenKind::For,
            TokenKind::Fn => TokenKind::Fn,
            TokenKind::Return => TokenKind::Return,
            TokenKind::Break => TokenKind::Break,
            TokenKind::Continue => TokenKind::Continue,
            TokenKind::Struct => TokenKind::Struct,
            TokenKind::Enum => TokenKind::Enum,
            TokenKind::Match => TokenKind::Match,
            TokenKind::True => TokenKind::True,
            TokenKind::False => TokenKind::False,
            TokenKind::Null => TokenKind::Null,
            TokenKind::Import => TokenKind::Import,
            TokenKind::Export => TokenKind::Export,
            TokenKind::As => TokenKind::As,
            TokenKind::In => TokenKind::In,
            TokenKind::Agent => TokenKind::Agent,
            TokenKind::Skill => TokenKind::Skill,
            TokenKind::Trigger => TokenKind::Trigger,
            TokenKind::On => TokenKind::On,
            TokenKind::Do => TokenKind::Do,
            TokenKind::Timeout => TokenKind::Timeout,
            TokenKind::Retry => TokenKind::Retry,
            TokenKind::Guard => TokenKind::Guard,
            TokenKind::Emit => TokenKind::Emit,
            TokenKind::With => TokenKind::With,
            TokenKind::Eof => TokenKind::Eof,
        }
    }
}


/// A token with its kind and source span.
#[derive(Debug)]
pub struct Token {
    pub kind: TokenKind,
    pub span: Span,
}

pub struct TokenView {
    pub kind: TokenKindView,
    pub span: Span,
}

impl View for Token {
    type V = TokenView;

    open spec fn view(&self) -> TokenView {
        TokenView { kind: self.kind@, span: self.span }
    }
}

impl Clone for Token {
    fn clone(&self) -> (r: Token)
        ensures
            r@ == self@,
    {
        Token { kind: self.kind.clone(), span: self.span }
    }
}

impl Token {
    pub fn new(kind: TokenKind, span: Span) -> (t: Token)
        ensures
            t@ == (TokenView { kind: kind@, span }),
    {
        Token { kind, span }
    }

    pub fn eof(span: Span) -> (t: Token)
        ensures
            t@ == (TokenView { kind: TokenKindView::Simple(TokenKind::Eof), span }),
    {
        Token::new(TokenKind::Eof, span)
    }
}

/// Lexer error.
#[derive(Debug, Clone)]
pub struct LexerError {
    pub message: String,
    pub span: Span,
}

pub struct LexerErrorView {
    pub message: Seq<char>,
    pub span: Span,
}

impl View for LexerError {
    type V = LexerErrorView;

    open spec fn view(&self) -> LexerErrorView {
        LexerErrorView { message: self.message@, span: self.span }
    }
}

impl LexerError {
    pub open spec fn text_spec(e: LexerErrorView) -> Seq<char> {
        "lexer error at "@ + e.span.text_spec() + ": "@ + e.message
    }

    /// `lexer error at line:col: message` (what `Display` renders).
    pub fn text(&self) -> (r: String)
        ensures
            r@ == LexerError::text_spec(self@),
    {
        let pos = self.span.text();
        let mut s = concat3("lexer error at ", pos.as_str(), ": ");
        s.append(self.message.as_str());
        s
    }
}

/// What a rule of the lexer makes of the text it matched.
#[derive(Debug, Clone)]
pub enum RuleAction {
    /// Whitespace and comments: no token.
    Skip,
    FloatLit,
    IntLit,
    StringLit,
    /// Identifier or keyword.
    Word,
    /// A fixed operator or delimiter.
    Fixed(TokenKind),
}

/// The rule table of the lexer, in order of priority: pattern and action.
pub open spec fn rule_spec(i: int) -> (Seq<char>, RuleAction) {
    if i == 0 { (r"^[ \t\r\n]+"@, RuleAction::Skip) }
    else if i == 1 { (r"^//[^\n]*"@, RuleAction::Skip) }
    else if i == 2 { (r"^/\*[\s\S]*?\*/"@, RuleAction::Skip) }
    else if i == 3 { (r"^[0-9]+\.[0-9]+([eE][+-]?[0-9]+)?"@, RuleAction::FloatLit) }
    else if i == 4 { (r"^[0-9]+"@, RuleAction::IntLit) }
    else if i == 5 { (r#"^"([^"\\]|\\.)*""#@, RuleAction::StringLit) }
    else if i == 6 { (r"^=="@, RuleAction::Fixed(TokenKind::EqEq)) }
    else if i == 7 { (r"^!="@, RuleAction::Fixed(TokenKind::BangEq)) }
    else if i == 8 { (r"^<="@, RuleAction::Fixed(TokenKind::LtEq)) }
    else if i == 9 { (r"^>="@, RuleAction::Fixed(TokenKind::GtEq)) }
    else if i == 10 { (r"^&&"@, RuleAction::Fixed(TokenKind::And)) }
    else if i == 11 { (r"^\|\|"@, RuleAction::Fixed(TokenKind::Or)) }
    else if i == 12 { (r"^<<"@, RuleAction::Fixed(TokenKind::Shl)) }
    else if i == 13 { (r"^>>"@, RuleAction::Fixed(TokenKind::Shr)) }
    else if i == 14 { (r"^->"@, RuleAction::Fixed(TokenKind::Arrow)) }
    else if i == 15 { (r"^=>"@, RuleAction::Fixed(TokenKind::FatArrow)) }
    else if i == 16 { (r"^[a-zA-Z_][a-zA-Z0-9_]*"@, RuleAction::Word) }
    else if i == 17 { (r"^\+"@, RuleAction::Fixed(TokenKind::Plus)) }
    else if i == 18 { (r"^-"@, RuleAction::Fixed(TokenKind::Minus)) }
    else if i == 19 { (r"^\*"@, RuleAction::Fixed(TokenKind::Star)) }
    else if i == 20 { (r"^/"@, RuleAction::Fixed(TokenKind::Slash)) }
    else if i == 21 { (r"^%"@, RuleAction::Fixed(TokenKind::Percent)) }
    else if i == 22 { (r"^="@, RuleAction::Fixed(TokenKind::Eq)) }
    else if i == 23 { (r"^!"@, RuleAction::Fixed(TokenKind::Bang)) }
    else if i == 24 { (r"^<"@, RuleAction::Fixed(TokenKind::Lt)) }
    else if i == 25 { (r"^>"@, RuleAction::Fixed(TokenKind::Gt)) }
    else if i == 26 { (r"^&"@, RuleAction::Fixed(TokenKind::Ampersand)) }
    else if i == 27 { (r"^\|"@, RuleAction::Fixed(TokenKind::Pipe)) }
    else if i == 28 { (r"^\^"@, RuleAction::Fixed(TokenKind::Caret)) }
    else if i == 29 { (r"^\("@, RuleAction::Fixed(TokenKind::LParen)) }
    else if i == 30 { (r"^\)"@, RuleAction::Fixed(TokenKind::RParen)) }
    else if i == 31 { (r"^\{"@, RuleAction::Fixed(TokenKind::LBrace)) }
    else if i == 32 { (r"^\}"@, RuleAction::Fixed(TokenKind::RBrace)) }
    else if i == 33 { (r"^\["@, RuleAction::Fixed(TokenKind::LBracket)) }
    else if i == 34 { (r"^\]"@, RuleAction::Fixed(TokenKind::RBracket)) }
    else if i == 35 { (r"^,"@, RuleAction::Fixed(TokenKind::Comma)) }
    else if i == 36 { (r"^;"@, RuleAction::Fixed(TokenKind::Semicolon)) }
    else if i == 37 { (r"^:"@, RuleAction::Fixed(TokenKind::Colon)) }
    else { (r"^\."@, RuleAction::Fixed(TokenKind::Dot)) }
}

/// The whole rule table.
pub open spec fn lexer_table() -> Seq<(Seq<char>, RuleAction)> {
    Seq::new(39, |i: int| rule_spec(i))
}

/// One rule of the lexer.
struct LexerRule {
    pattern: Pattern,
    action: RuleAction,
}

spec fn rule_view(r: LexerRule) -> (Seq<char>, RuleAction) {
    (r.pattern@, r.action)
}

/// The pattern text and action of rule `i`.
fn rule_entry(i: usize) -> (r: (&'static str, RuleAction))
    requires
        i < 39,
    ensures
        r.0@ == rule_spec(i as int).0,
        r.1 == rule_spec(i as int).1,
{
    let r = match i {
        0 => (r"^[ \t\r\n]+", RuleAction::Skip),
        1 => (r"^//[^\n]*", RuleAction::Skip),
        2 => (r"^/\*[\s\S]*?\*/", RuleAction::Skip),
        3 => (r"^[0-9]+\.[0-9]+([eE][+-]?[0-9]+)?", RuleAction::FloatLit),
        4 => (r"^[0-9]+", RuleAction::IntLit),
        5 => (r#"^"([^"\\]|\\.)*""#, RuleAction::StringLit),
        6 => (r"^==", RuleAction::Fixed(TokenKind::EqEq)),
        7 => (r"^!=", RuleAction::Fixed(TokenKind::BangEq)),
        8 => (r"^<=", RuleAction::Fixed(TokenKind::LtEq)),
        9 => (r"^>=", RuleAction::Fixed(TokenKind::GtEq)),
        10 => (r"^&&", RuleAction::Fixed(TokenKind::And)),
        11 => (r"^\|\|", RuleAction::Fixed(TokenKind::Or)),
        12 => (r"^<<", RuleAction::Fixed(TokenKind::Shl)),
        13 => (r"^>>", RuleAction::Fixed(TokenKind::Shr)),
        14 => (r"^->", RuleAction::Fixed(TokenKind::Arrow)),
        15 => (r"^=>", RuleAction::Fixed(TokenKind::FatArrow)),
        16 => (r"^[a-zA-Z_][a-zA-Z0-9_]*", RuleAction::Word),
        17 => (r"^\+", RuleAction::Fixed(TokenKind::Plus)),
        18 => (r"^-", RuleAction::Fixed(TokenKind::Minus)),
        19 => (r"^\*", RuleAction::Fixed(TokenKind::Star)),
        20 => (r"^/", RuleAction::Fixed(TokenKind::Slash)),
        21 => (r"^%", RuleAction::Fixed(TokenKind::Percent)),
        22 => (r"^=", RuleAction::Fixed(TokenKind::Eq)),
        23 => (r"^!", RuleAction::Fixed(TokenKind::Bang)),
        24 => (r"^<", RuleAction::Fixed(TokenKind::Lt)),
        25 => (r"^>", RuleAction::Fixed(TokenKind::Gt)),
        26 => (r"^&", RuleAction::Fixed(TokenKind::Ampersand)),
        27 => (r"^\|", RuleAction::Fixed(TokenKind::Pipe)),
        28 => (r"^\^", RuleAction::Fixed(TokenKind::Caret)),
        29 => (r"^\(", RuleAction::Fixed(TokenKind::LParen)),
        30 => (r"^\)", RuleAction::Fixed(TokenKind::RParen)),
        31 => (r"^\{", RuleAction::Fixed(TokenKind::LBrace)),
        32 => (r"^\}", RuleAction::Fixed(TokenKind::RBrace)),
        33 => (r"^\[", RuleAction::Fixed(TokenKind::LBracket)),
        34 => (r"^\]", RuleAction::Fixed(TokenKind::RBracket)),
        35 => (r"^,", RuleAction::Fixed(TokenKind::Comma)),
        36 => (r"^;", RuleAction::Fixed(TokenKind::Semicolon)),
        37 => (r"^:", RuleAction::Fixed(TokenKind::Colon)),
        _ => (r"^\.", RuleAction::Fixed(TokenKind::Dot)),
    };
    assert(rule_spec(i as int).0 == r.0@);
    r
}

fn make_rule(i: usize) -> (r: LexerRule)
    requires
        i < 39,
    ensures
        rule_view(r) == rule_spec(i as int),
{
    let (p, action) = rule_entry(i);
    LexerRule { pattern: compile(p), action }
}


// ---- Positions ----

/// UTF-8 width of a character in bytes.
pub open spec fn char_width(c: char) -> nat {
    if (c as u32) < 0x80 {
        1
    } else if (c as u32) < 0x800 {
        2
    } else if (c as u32) < 0x10000 {
        3
    } else {
        4
    }
}

/// UTF-8 length of a text in bytes.
pub open spec fn utf8_len(s: Seq<char>) -> nat
    decreases s.len(),
{
    if s.len() == 0 {
        0
    } else {
        utf8_len(s.drop_last()) + char_width(s.last())
    }
}

fn char_width_exec(c: char) -> (r: usize)
    ensures
        r == char_width(c),
{
    let v = c as u32;
    if v < 0x80 {
        1
    } else if v < 0x800 {
        2
    } else if v < 0x10000 {
        3
    } else {
        4
    }
}

/// A lexing position: characters consumed, bytes consumed, line and column.
pub struct LexPos {
    pub offset: nat,
    pub pos: nat,
    pub line: nat,
    pub col: nat,
}

pub open spec fn start_pos() -> LexPos {
    LexPos { offset: 0, pos: 0, line: 1, col: 1 }
}

/// The position after consuming `text`: a newline starts the next line at column 1,
/// any other character moves one column right.
pub open spec fn advance_pos(p: LexPos, text: Seq<char>) -> LexPos
    decreases text.len(),
{
    if text.len() == 0 {
        p
    } else {
        let q = advance_pos(p, text.drop_last());
        let c = text.last();
        LexPos {
            offset: q.offset + 1,
            pos: q.pos + char_width(c),
            line: if c == '\n' {
                q.line + 1
            } else {
                q.line
            },
            col: if c == '\n' {
                1
            } else {
                q.col + 1
            },
        }
    }
}

pub proof fn lemma_advance_pos(p: LexPos, text: Seq<char>)
    ensures
        advance_pos(p, text).offset == p.offset + text.len(),
        advance_pos(p, text).pos == p.pos + utf8_len(text),
        p.line <= advance_pos(p, text).line <= p.line + text.len(),
        advance_pos(p, text).col <= p.col + text.len(),
        p.col >= 1 ==> advance_pos(p, text).col >= 1,
    decreases text.len(),
{
    if text.len() > 0 {
        lemma_advance_pos(p, text.drop_last());
    }
}

pub proof fn lemma_advance_concat(p: LexPos, a: Seq<char>, b: Seq<char>)
    ensures
        advance_pos(advance_pos(p, a), b) == advance_pos(p, a + b),
    decreases b.len(),
{
    if b.len() == 0 {
        assert(a + b =~= a);
    } else {
        lemma_advance_concat(p, a, b.drop_last());
        assert((a + b).drop_last() =~= a + b.drop_last());
        assert((a + b).last() == b.last());
    }
}

pub proof fn lemma_utf8_concat(a: Seq<char>, b: Seq<char>)
    ensures
        utf8_len(a + b) == utf8_len(a) + utf8_len(b),
    decreases b.len(),
{
    if b.len() == 0 {
        assert(a + b =~= a);
    } else {
        lemma_utf8_concat(a, b.drop_last());
        assert((a + b).drop_last() =~= a + b.drop_last());
    }
}

/// Positions inside a text of bounded length stay in range.
proof fn lemma_pos_bounds(src: Seq<char>, k: int)
    requires
        0 <= k <= src.len(),
    ensures
        advance_pos(start_pos(), src.take(k)).line <= 1 + k,
        advance_pos(start_pos(), src.take(k)).col <= 1 + k,
        advance_pos(start_pos(), src.take(k)).col >= 1,
        advance_pos(start_pos(), src.take(k)).offset == k,
        advance_pos(start_pos(), src.take(k)).pos == utf8_len(src.take(k)),
        utf8_len(src.take(k)) <= utf8_len(src),
{
    lemma_advance_pos(start_pos(), src.take(k));
    lemma_utf8_concat(src.take(k), src.skip(k));
    assert(src.take(k) + src.skip(k) =~= src);
}

// ---- Token values ----

/// The kind of an identifier-shaped word: a keyword, a boolean literal or an identifier.
pub open spec fn keyword_kind(s: Seq<char>) -> TokenKindView {
    if s == "let"@ { TokenKindView::Simple(TokenKind::Let) }
    else if s == "if"@ { TokenKindView::Simple(TokenKind::If) }
    else if s == "else"@ { TokenKindView::Simple(TokenKind::Else) }
    else if s == "while"@ { TokenKindView::Simple(TokenKind::While) }
    else if s == "for"@ { TokenKindView::Simple(TokenKind::For) }
    else if s == "fn"@ { TokenKindView::Simple(TokenKind::Fn) }
    else if s == "return"@ { TokenKindView::Simple(TokenKind::Return) }
    else if s == "break"@ { TokenKindView::Simple(TokenKind::Break) }
    else if s == "continue"@ { TokenKindView::Simple(TokenKind::Continue) }
    else if s == "struct"@ { TokenKindView::Simple(TokenKind::Struct) }
    else if s == "enum"@ { TokenKindView::Simple(TokenKind::Enum) }
    else if s == "match"@ { TokenKindView::Simple(TokenKind::Match) }
    else if s == "true"@ { TokenKindView::Bool(true) }
    else if s == "false"@ { TokenKindView::Bool(false) }
    else if s == "null"@ { TokenKindView::Simple(TokenKind::Null) }
    else if s == "import"@ { TokenKindView::Simple(TokenKind::Import) }
    else if s == "export"@ { TokenKindView::Simple(TokenKind::Export) }
    else if s == "as"@ { TokenKindView::Simple(TokenKind::As) }
    else if s == "in"@ { TokenKindView::Simple(TokenKind::In) }
    else if s == "agent"@ { TokenKindView::Simple(TokenKind::Agent) }
    else if s == "skill"@ { TokenKindView::Simple(TokenKind::Skill) }
    else if s == "trigger"@ { TokenKindView::Simple(TokenKind::Trigger) }
    else if s == "on"@ { TokenKindView::Simple(TokenKind::On) }
    else if s == "do"@ { TokenKindView::Simple(TokenKind::Do) }
    else if s == "timeout"@ { TokenKindView::Simple(TokenKind::Timeout) }
    else if s == "retry"@ { TokenKindView::Simple(TokenKind::Retry) }
    else if s == "guard"@ { TokenKindView::Simple(TokenKind::Guard) }
    else if s == "emit"@ { TokenKindView::Simple(TokenKind::Emit) }
    else if s == "with"@ { TokenKindView::Simple(TokenKind::With) }
    else { TokenKindView::Ident(s) }
}

/// Keyword, boolean literal or identifier for an identifier-shaped word.
pub fn make_keyword_or_ident(s: &str) -> (k: TokenKind)
    ensures
        k@ == keyword_kind(s@),
{
    if text_eq(s, "let") { TokenKind::Let }
    else if text_eq(s, "if") { TokenKind::If }
    else if text_eq(s, "else") { TokenKind::Else }
    else if text_eq(s, "while") { TokenKind::While }
    else if text_eq(s, "for") { TokenKind::For }
    else if text_eq(s, "fn") { TokenKind::Fn }
    else if text_eq(s, "return") { TokenKind::Return }
    else if text_eq(s, "break") { TokenKind::Break }
    else if text_eq(s, "continue") { TokenKind::Continue }
    else if text_eq(s, "struct") { TokenKind::Struct }
    else if text_eq(s, "enum") { TokenKind::Enum }
    else if text_eq(s, "match") { TokenKind::Match }
    else if text_eq(s, "true") { TokenKind::Bool(true) }
    else if text_eq(s, "false") { TokenKind::Bool(false) }
    else if text_eq(s, "null") { TokenKind::Null }
    else if text_eq(s, "import") { TokenKind::Import }
    else if text_eq(s, "export") { TokenKind::Export }
    else if text_eq(s, "as") { TokenKind::As }
    else if text_eq(s, "in") { TokenKind::In }
    else if text_eq(s, "agent") { TokenKind::Agent }
    else if text_eq(s, "skill") { TokenKind::Skill }
    else if text_eq(s, "trigger") { TokenKind::Trigger }
    else if text_eq(s, "on") { TokenKind::On }
    else if text_eq(s, "do") { TokenKind::Do }
    else if text_eq(s, "timeout") { TokenKind::Timeout }
    else if text_eq(s, "retry") { TokenKind::Retry }
    else if text_eq(s, "guard") { TokenKind::Guard }
    else if text_eq(s, "emit") { TokenKind::Emit }
    else if text_eq(s, "with") { TokenKind::With }
    else { TokenKind::Ident(String::from_str(s)) }
}

pub open spec fn is_digit(c: char) -> bool {
    48 <= (c as u32) <= 57
}

/// Value of a sequence of decimal digits.
pub open spec fn digits_value(s: Seq<char>) -> int
    decreases s.len(),
{
    if s.len() == 0 {
        0
    } else {
        digits_value(s.drop_last()) * 10 + ((s.last() as u32) - 48)
    }
}

pub open spec fn all_digits(s: Seq<char>) -> bool {
    forall|i: int| 0 <= i < s.len() ==> is_digit(#[trigger] s[i])
}

/// What `str::parse::<i64>` accepts: an optional sign, at least one decimal digit,
/// and a value in the range of `i64`.
pub open spec fn parse_i64_spec(s: Seq<char>) -> Option<i64> {
    let neg = s.len() > 0 && s[0] == '-';
    let signed = s.len() > 0 && (s[0] == '-' || s[0] == '+');
    let body = if signed {
        s.skip(1)
    } else {
        s
    };
    let v = if neg {
        -digits_value(body)
    } else {
        digits_value(body)
    };
    if body.len() == 0 || !all_digits(body) || v < i64::MIN || v > i64::MAX {
        None
    } else {
        Some(v as i64)
    }
}

/// The value of an integer literal; text that does not parse as an `i64` gives 0.
pub open spec fn int_literal_value(s: Seq<char>) -> i64 {
    match parse_i64_spec(s) {
        Some(v) => v,
        None => 0,
    }
}

proof fn lemma_digits_value_nonneg_mono(s: Seq<char>, k: int)
    requires
        all_digits(s),
        0 <= k < s.len(),
    ensures
        0 <= digits_value(s.take(k)) <= digits_value(s.take(k + 1)),
        digits_value(s.take(k + 1)) == digits_value(s.take(k)) * 10 + ((s[k] as u32) - 48),
    decreases k,
{
    assert(s.take(k + 1).drop_last() =~= s.take(k));
    if k > 0 {
        lemma_digits_value_nonneg_mono(s, k - 1);
    } else {
        assert(s.take(0) =~= Seq::<char>::empty());
    }
}

/// Parses text as `str::parse::<i64>` does.
#[verifier::loop_isolation(false)]
#[verifier::spinoff_prover]
#[verifier::rlimit(30)]
pub fn parse_i64(text: &str) -> (r: Option<i64>)
    ensures
        r == parse_i64_spec(text@),
{
    let cs = text_chars(text);
    let n = cs.len();
    let ghost s = text@;
    if n == 0 {
        return None;
    }
    let neg = cs[0] == '-';
    let signed = cs[0] == '-' || cs[0] == '+';
    let first: usize = if signed {
        1
    } else {
        0
    };
    let ghost body = if signed {
        s.skip(1)
    } else {
        s
    };
    assert(body =~= s.skip(first as int));
    if first == n {
        return None;
    }
    // all digits?
    let mut i: usize = first;
    while i < n
        invariant
            first <= i <= n,
            cs@ == s,
            n == s.len(),
            body =~= s.skip(first as int),
            forall|j: int| first <= j < i ==> is_digit(#[trigger] s[j]),
        decreases n - i,
    {
        let c = cs[i];
        let cv = c as u32;
        if cv < 48 || cv > 57 {
            assert(body[i - first] == s[i as int]);
            assert(!all_digits(body));
            assert(signed == (s.len() > 0 && (s[0] == '-' || s[0] == '+')));
            assert(neg == (s.len() > 0 && s[0] == '-'));
            assert(parse_i64_spec(s) is None);
            return None;
        }
        i = i + 1;
    }
    assert(all_digits(body)) by {
        assert forall|j: int| 0 <= j < body.len() implies is_digit(#[trigger] body[j]) by {
            assert(body[j] == s[j + first]);
        }
    }
    // accumulate, stopping once the magnitude exceeds 2^63
    let limit: i128 = 9223372036854775808i128;
    let mut acc: i128 = 0;
    let mut k: usize = first;
    let mut over = false;
    while k < n
        invariant
            first <= k <= n,
            cs@ == s,
            n == s.len(),
            body =~= s.skip(first as int),
            all_digits(body),
            0 <= acc <= limit,
            !over ==> acc == digits_value(body.take(k - first)),
            over ==> digits_value(body.take(k - first)) > limit,
        decreases n - k,
    {
        proof {
            assert(body[k - first] == s[k as int]);
            assert(is_digit(body[k - first]));
            lemma_digits_value_nonneg_mono(body, k - first);
        }
        assert(cs@[k as int] == s[k as int]);
        assert(48 <= cs@[k as int] as u32 <= 57);
        let d = (cs[k] as u32 - 48) as i128;
        assert(0 <= d <= 9);
        if !over {
            acc = acc * 10 + d;
            if acc > limit {
                over = true;
                acc = limit;
            }
        } else {
            proof {
                assert(digits_value(body.take(k - first)) * 10 >= digits_value(body.take(k - first)));
            }
        }
        k = k + 1;
    }
    assert(body.take(n - first) =~= body);
    if over {
        return None;
    }
    if neg {
        Some((-acc) as i64)
    } else if acc > 9223372036854775807i128 {
        None
    } else {
        Some(acc as i64)
    }
}

/// The text between the quotes of a string literal (empty for text shorter than two).
pub open spec fn string_literal_inner(m: Seq<char>) -> Seq<char> {
    if m.len() >= 2 {
        m.subrange(1, m.len() - 1)
    } else {
        Seq::empty()
    }
}

/// The token a rule makes of its matched text; whitespace and comments make none.
pub open spec fn action_kind(a: RuleAction, text: Seq<char>) -> Option<TokenKindView> {
    match a {
        RuleAction::Skip => None,
        RuleAction::FloatLit => Some(TokenKindView::Float(text)),
        RuleAction::IntLit => Some(TokenKindView::Int(int_literal_value(text))),
        RuleAction::StringLit => Some(TokenKindView::Str(string_literal_inner(text))),
        RuleAction::Word => Some(keyword_kind(text)),
        RuleAction::Fixed(k) => Some(k@),
    }
}

pub open spec fn opt_kind_view(k: Option<TokenKind>) -> Option<TokenKindView> {
    match k {
        Some(k) => Some(k@),
        None => None,
    }
}

fn action_kind_exec(a: &RuleAction, text: &str) -> (r: Option<TokenKind>)
    ensures
        opt_kind_view(r) == action_kind(*a, text@),
{
    match a {
        RuleAction::Skip => {
            assert(action_kind(*a, text@) is None);
            None
        },
        RuleAction::FloatLit => {
            let k = TokenKind::Float(String::from_str(text));
            assert(opt_kind_view(Some(k)) == action_kind(*a, text@));
            Some(k)
        },
        RuleAction::IntLit => {
            let v = match parse_i64(text) {
                Some(v) => v,
                None => 0,
            };
            assert(v == int_literal_value(text@));
            let r = Some(TokenKind::Int(v));
            assert(opt_kind_view(r) == action_kind(*a, text@));
            r
        },
        RuleAction::StringLit => {
            let n = text.unicode_len();
            if n >= 2 {
                let inner = text.substring_char(1, n - 1);
                assert(inner@ == string_literal_inner(text@));
                let r = Some(TokenKind::String(String::from_str(inner)));
                assert(opt_kind_view(r) == action_kind(*a, text@));
                r
            } else {
                proof {
                    reveal_strlit("");
                }
                let empty = String::from_str("");
                assert(empty@ =~= Seq::<char>::empty());
                assert(string_literal_inner(text@) =~= Seq::<char>::empty());
                let r = Some(TokenKind::String(empty));
                assert(opt_kind_view(r) == action_kind(*a, text@));
                r
            }
        },
        RuleAction::Word => {
            let k = make_keyword_or_ident(text);
            assert(opt_kind_view(Some(k)) == action_kind(*a, text@));
            Some(k)
        },
        RuleAction::Fixed(k) => {
            let c = k.clone();
            assert(c@ == k@);
            assert(opt_kind_view(Some(c)) == action_kind(*a, text@));
            Some(c)
        },
    }
}

// ---- The lexing relation ----

/// The first rule, from index `i` on, whose pattern matches a non-empty prefix of `rest`
/// (a match elsewhere, or an empty one, does not count), with the length of the match.
pub open spec fn first_match(rules: Seq<(Seq<char>, RuleAction)>, rest: Seq<char>, i: int) -> Option<(int, nat)>
    decreases rules.len() - i,
{
    if i < 0 || i >= rules.len() {
        None
    } else {
        match regex_first_match(rules[i].0, rest) {
            Some((start, m)) => if start == 0 && 0 < m.len() <= rest.len() {
                Some((i, m.len()))
            } else {
                first_match(rules, rest, i + 1)
            },
            None => first_match(rules, rest, i + 1),
        }
    }
}

pub proof fn lemma_first_match(rules: Seq<(Seq<char>, RuleAction)>, rest: Seq<char>, i: int)
    ensures
        first_match(rules, rest, i) matches Some((j, n)) ==> 0 <= j < rules.len() && 0 < n
            <= rest.len(),
    decreases rules.len() - i,
{
    if 0 <= i < rules.len() {
        lemma_first_match(rules, rest, i + 1);
    }
}

pub open spec fn unexpected_message(c: char) -> Seq<char> {
    "unexpected character '"@ + seq![c] + "'"@
}

pub open spec fn span_between(p: LexPos, q: LexPos) -> Span {
    Span { start: p.pos as usize, end: q.pos as usize, line: p.line as u32, col: p.col as u32 }
}

/// Lexing `src` from position `p` on: the tokens and errors produced before the end
/// of the source, and the final position.  At each position the first rule whose
/// pattern matches there consumes its match (making a token unless it is whitespace or
/// a comment); where no rule matches, one character is reported as unexpected.
pub open spec fn lex_from(rules: Seq<(Seq<char>, RuleAction)>, src: Seq<char>, p: LexPos) -> (Seq<TokenView>, Seq<LexerErrorView>, LexPos)
    decreases src.len() - p.offset,
{
    if p.offset >= src.len() {
        (Seq::empty(), Seq::empty(), p)
    } else {
        let rest = src.skip(p.offset as int);
        match first_match(rules, rest, 0) {
            Some((i, n)) => {
                let m = rest.take(n as int);
                let q = advance_pos(p, m);
                proof {
                    lemma_first_match(rules, rest, 0);
                    lemma_advance_pos(p, m);
                }
                let sub = lex_from(rules, src, q);
                match action_kind(rules[i].1, m) {
                    Some(k) => (seq![TokenView { kind: k, span: span_between(p, q) }] + sub.0, sub.1, sub.2),
                    None => sub,
                }
            },
            None => {
                let c = rest[0];
                let q = advance_pos(p, seq![c]);
                proof {
                    lemma_advance_pos(p, seq![c]);
                }
                let sub = lex_from(rules, src, q);
                (
                    sub.0,
                    seq![LexerErrorView { message: unexpected_message(c), span: span_between(p, q) }]
                        + sub.1,
                    sub.2,
                )
            },
        }
    }
}

pub open spec fn eof_token(p: LexPos) -> TokenView {
    TokenView { kind: TokenKindView::Simple(TokenKind::Eof), span: span_between(p, p) }
}

/// Result of tokenizing from a position: the tokens followed by an end-of-file token,
/// or all the errors when there are any.
pub open spec fn tokenize_from(rules: Seq<(Seq<char>, RuleAction)>, src: Seq<char>, p: LexPos) -> Result<Seq<TokenView>, Seq<LexerErrorView>> {
    let (toks, errs, fin) = lex_from(rules, src, p);
    if errs.len() == 0 {
        Ok(toks.push(eof_token(fin)))
    } else {
        Err(errs)
    }
}

/// Result of tokenizing a whole source with the lexer's rules.
pub open spec fn tokenize_spec(src: Seq<char>) -> Result<Seq<TokenView>, Seq<LexerErrorView>> {
    tokenize_from(lexer_table(), src, start_pos())
}

pub open spec fn tokens_view(v: Seq<Token>) -> Seq<TokenView> {
    Seq::new(v.len(), |i: int| v[i]@)
}

pub open spec fn lexer_errors_view(v: Seq<LexerError>) -> Seq<LexerErrorView> {
    Seq::new(v.len(), |i: int| v[i]@)
}

pub open spec fn lex_result_view(r: Result<Vec<Token>, Vec<LexerError>>) -> Result<Seq<TokenView>, Seq<LexerErrorView>> {
    match r {
        Ok(t) => Ok(tokens_view(t@)),
        Err(e) => Err(lexer_errors_view(e@)),
    }
}

/// Sources the lexer accepts: line and column numbers fit in `u32` and byte offsets in `usize`.
pub open spec fn source_fits(src: Seq<char>) -> bool {
    src.len() + 2 <= u32::MAX && utf8_len(src) <= usize::MAX
}

// ---- One lexing step ----

/// A position in the source: characters and bytes consumed, line and column.
#[derive(Clone, Copy)]
pub struct LexPosition {
    pub offset: usize,
    pub pos: usize,
    pub line: u32,
    pub col: u32,
}

impl View for LexPosition {
    type V = LexPos;

    open spec fn view(&self) -> LexPos {
        LexPos { offset: self.offset as nat, pos: self.pos as nat, line: self.line as nat, col: self.col as nat }
    }
}

/// Consuming `text` from `p` keeps every counter of the position within its type.
pub open spec fn room_for(p: LexPos, text: Seq<char>) -> bool {
    &&& p.offset + text.len() <= usize::MAX
    &&& p.pos + utf8_len(text) <= usize::MAX
    &&& p.line + text.len() <= u32::MAX
    &&& p.col + text.len() <= u32::MAX
}

proof fn lemma_room_prefix(p: LexPos, t: Seq<char>, k: int)
    requires
        room_for(p, t),
        0 <= k <= t.len(),
    ensures
        room_for(p, t.take(k)),
{
    lemma_utf8_concat(t.take(k), t.skip(k));
    assert(t.take(k) + t.skip(k) =~= t);
}

/// The position after consuming `text` from `p`.
pub fn advance_position(p: &LexPosition, text: &str) -> (q: LexPosition)
    requires
        room_for(p@, text@),
    ensures
        q@ == advance_pos(p@, text@),
{
    let n = text.unicode_len();
    let mut q = *p;
    let mut i: usize = 0;
    assert(text@.take(0) =~= Seq::<char>::empty());
    while i < n
        invariant
            0 <= i <= n,
            n == text@.len(),
            room_for(p@, text@),
            q@ == advance_pos(p@, text@.take(i as int)),
        decreases n - i,
    {
        let c = text.get_char(i);
        proof {
            lemma_advance_pos(p@, text@.take(i as int));
            lemma_room_prefix(p@, text@, i + 1);
            assert(text@.take(i + 1).drop_last() =~= text@.take(i as int));
            assert(text@.take(i + 1).last() == c);
            lemma_advance_pos(p@, text@.take(i + 1));
        }
        if c == '\n' {
            q.line = q.line + 1;
            q.col = 1;
        } else {
            q.col = q.col + 1;
        }
        q.pos = q.pos + char_width_exec(c);
        q.offset = q.offset + 1;
        i = i + 1;
    }
    assert(text@.take(n as int) =~= text@);
    q
}

/// What one step of lexing makes: a token, nothing (whitespace or a comment), or an error.
pub enum LexStep {
    Token(Token),
    Skip,
    Error(LexerError),
}

pub enum LexStepView {
    Token(TokenView),
    Skip,
    Error(LexerErrorView),
}

impl View for LexStep {
    type V = LexStepView;

    open spec fn view(&self) -> LexStepView {
        match self {
            LexStep::Token(t) => LexStepView::Token(t@),
            LexStep::Skip => LexStepView::Skip,
            LexStep::Error(e) => LexStepView::Error(e@),
        }
    }
}

/// What the rules' patterns found, as start offset and matched text.
pub open spec fn found_view(found: Seq<Option<(usize, String)>>) -> Seq<Option<(int, Seq<char>)>> {
    Seq::new(
        found.len(),
        |j: int|
            match found[j] {
                Some((s, m)) => Some((s as int, m@)),
                None => None,
            },
    )
}

/// The first rule, from index `i` on, whose pattern found a non-empty prefix of `rest`,
/// with the length of what it found.
pub open spec fn first_found(found: Seq<Option<(int, Seq<char>)>>, rest: Seq<char>, i: int) -> Option<(int, nat)>
    decreases found.len() - i,
{
    if i < 0 || i >= found.len() {
        None
    } else {
        match found[i] {
            Some((start, m)) => if start == 0 && 0 < m.len() <= rest.len() {
                Some((i, m.len()))
            } else {
                first_found(found, rest, i + 1)
            },
            None => first_found(found, rest, i + 1),
        }
    }
}

/// One step of lexing at position `p`, where the rest of the source is `rest` and the
/// rules' patterns found `found` there: the first rule that found a non-empty prefix
/// consumes it and makes its token (or nothing); where none did, the first character is
/// reported as unexpected.  Also the position after the step.
pub open spec fn step_spec(found: Seq<Option<(int, Seq<char>)>>, rest: Seq<char>, p: LexPos) -> (LexStepView, LexPos) {
    match first_found(found, rest, 0) {
        Some((i, n)) => {
            let m = rest.take(n as int);
            let q = advance_pos(p, m);
            (
                match action_kind(rule_spec(i).1, m) {
                    Some(k) => LexStepView::Token(TokenView { kind: k, span: span_between(p, q) }),
                    None => LexStepView::Skip,
                },
                q,
            )
        },
        None => {
            let c = rest[0];
            let q = advance_pos(p, seq![c]);
            (LexStepView::Error(LexerErrorView { message: unexpected_message(c), span: span_between(p, q) }), q)
        },
    }
}

proof fn lemma_first_found(found: Seq<Option<(int, Seq<char>)>>, rest: Seq<char>, i: int)
    ensures
        first_found(found, rest, i) matches Some((j, n)) ==> 0 <= j < found.len() && 0 < n <= rest.len(),
    decreases found.len() - i,
{
    if 0 <= i < found.len() {
        lemma_first_found(found, rest, i + 1);
    }
}

/// Where the outcomes are what the rules' patterns give on `rest`, the first rule found is
/// the first rule that matches.
pub proof fn lemma_found_is_match(
    rules: Seq<(Seq<char>, RuleAction)>,
    found: Seq<Option<(int, Seq<char>)>>,
    rest: Seq<char>,
    i: int,
)
    requires
        found.len() == rules.len(),
        forall|j: int| 0 <= j < rules.len() ==> #[trigger] found[j] == regex_first_match(rules[j].0, rest),
    ensures
        first_found(found, rest, i) == first_match(rules, rest, i),
    decreases rules.len() - i,
{
    if 0 <= i < rules.len() {
        assert(found[i] == regex_first_match(rules[i].0, rest));
        lemma_found_is_match(rules, found, rest, i + 1);
    }
}

/// One step of lexing: given what each rule's pattern found in the rest of the source (in
/// rule order, one outcome per rule), the token or error made at `at`, and the position
/// after it.
pub fn lex_step(found: &Vec<Option<(usize, String)>>, rest: &str, at: &LexPosition) -> (r: (LexStep, LexPosition))
    requires
        found@.len() <= 39,
        rest@.len() > 0,
        room_for(at@, rest@),
    ensures
        (r.0@, r.1@) == step_spec(found_view(found@), rest@, at@),
{
    let ghost fv = found_view(found@);
    let n = rest.unicode_len();
    let mut i: usize = 0;
    while i < found.len()
        invariant
            0 <= i <= found@.len(),
            found@.len() <= 39,
            fv == found_view(found@),
            n == rest@.len(),
            first_found(fv, rest@, 0) == first_found(fv, rest@, i as int),
            rest@.len() > 0,
            room_for(at@, rest@),
        decreases found@.len() - i,
    {
        match &found[i] {
            Some((start, m)) => {
                let ml = m.unicode_len();
                assert(fv[i as int] == Some((*start as int, m@)));
                if *start == 0 && 0 < ml && ml <= n {
                    let text = rest.substring_char(0, ml);
                    assert(text@ =~= rest@.take(ml as int));
                    proof {
                        lemma_room_prefix(at@, rest@, ml as int);
                    }
                    let q = advance_position(at, text);
                    let action = rule_entry(i).1;
                    let kind = action_kind_exec(&action, text);
                    let step = match kind {
                        Some(k) => LexStep::Token(Token::new(k, Span::new(at.pos, q.pos, at.line, at.col))),
                        None => LexStep::Skip,
                    };
                    return (step, q);
                }
            },
            None => {
                assert(fv[i as int] is None);
            },
        }
        i = i + 1;
    }
    let ch = rest.substring_char(0, 1);
    let c = ch.get_char(0);
    assert(ch@ =~= seq![c]);
    assert(ch@ =~= rest@.take(1));
    proof {
        lemma_room_prefix(at@, rest@, 1);
        reveal_strlit("'");
    }
    let q = advance_position(at, ch);
    let message = concat3("unexpected character '", ch, "'");
    let err = LexerError { message, span: Span::new(at.pos, q.pos, at.line, at.col) };
    (LexStep::Error(err), q)
}

// ---- The lexer ----

/// The mathematical value of a lexer: its source, its rules and its position.
pub struct LexerView {
    pub source: Seq<char>,
    pub rules: Seq<(Seq<char>, RuleAction)>,
    pub at: LexPos,
}

/// The lexer / tokenizer.
pub struct Lexer {
    source: String,
    rules: Vec<LexerRule>,
    at: LexPosition,
}

impl View for Lexer {
    type V = LexerView;

    closed spec fn view(&self) -> LexerView {
        LexerView {
            source: self.source@,
            rules: Seq::new(self.rules@.len(), |i: int| rule_view(self.rules@[i])),
            at: self.at@,
        }
    }
}

impl Lexer {
    /// The source fits, the rules are the lexer's table, and the position is where lexing
    /// the first `offset` characters of the source from the start leads.
    pub closed spec fn wf(&self) -> bool {
        &&& source_fits(self.source@)
        &&& self.at.offset <= self.source@.len()
        &&& self@.at == advance_pos(start_pos(), self.source@.take(self.at.offset as int))
        &&& self@.rules == lexer_table()
    }

    pub fn new(source: &str) -> (lx: Lexer)
        requires
            source_fits(source@),
        ensures
            lx.wf(),
            lx@ == (LexerView { source: source@, rules: lexer_table(), at: start_pos() }),
    {
        let mut rules: Vec<LexerRule> = Vec::new();
        let mut i: usize = 0;
        while i < 39
            invariant
                0 <= i <= 39,
                rules@.len() == i,
                forall|j: int| 0 <= j < i ==> #[trigger] rule_view(rules@[j]) == rule_spec(j),
            decreases 39 - i,
        {
            rules.push(make_rule(i));
            i = i + 1;
        }
        let at = LexPosition { offset: 0, pos: 0, line: 1, col: 1 };
        let lx = Lexer { source: String::from_str(source), rules, at };
        assert(lx@.rules =~= lexer_table());
        assert(source@.take(0) =~= Seq::<char>::empty());
        lx
    }

    /// What each rule's pattern finds in `rest`, in rule order.
    fn find_all(&self, rest: &str) -> (found: Vec<Option<(usize, String)>>)
        ensures
            found@.len() == self.rules@.len(),
            forall|j: int|
                0 <= j < self.rules@.len() ==> #[trigger] found_view(found@)[j] == regex_first_match(
                    self@.rules[j].0,
                    rest@,
                ),
    {
        let mut found: Vec<Option<(usize, String)>> = Vec::new();
        let mut i: usize = 0;
        while i < self.rules.len()
            invariant
                0 <= i <= self.rules@.len(),
                found@.len() == i,
                forall|j: int|
                    0 <= j < i ==> #[trigger] found_view(found@)[j] == regex_first_match(self@.rules[j].0, rest@),
            decreases self.rules@.len() - i,
        {
            assert(self@.rules[i as int] == rule_view(self.rules@[i as int]));
            let outcome = match find(&self.rules[i].pattern, rest) {
                Some((start, m)) => Some((start, String::from_str(m))),
                None => None,
            };
            let ghost before = found@;
            found.push(outcome);
            assert forall|j: int| 0 <= j < i + 1 implies #[trigger] found_view(found@)[j] == regex_first_match(
                self@.rules[j].0,
                rest@,
            ) by {
                if j < i {
                    assert(found@[j] == before[j]);
                    assert(found_view(before)[j] == regex_first_match(self@.rules[j].0, rest@));
                }
            }
            i = i + 1;
        }
        found
    }

    /// Tokenize the rest of the source, returning the tokens or the errors.
    pub fn tokenize(&mut self) -> (r: Result<Vec<Token>, Vec<LexerError>>)
        requires
            old(self).wf(),
        ensures
            final(self).wf(),
            lex_result_view(r) == tokenize_from(old(self)@.rules, old(self)@.source, old(self)@.at),
            final(self)@ == (LexerView {
                at: lex_from(old(self)@.rules, old(self)@.source, old(self)@.at).2,
                ..old(self)@
            }),
    {
        let ghost rules = self@.rules;
        let ghost src = self.source@;
        let ghost p0 = self@.at;
        let n = self.source.as_str().unicode_len();
        let mut tokens: Vec<Token> = Vec::new();
        let mut errors: Vec<LexerError> = Vec::new();
        while self.at.offset < n
            invariant
                self.wf(),
                n == src.len(),
                self.source@ == src,
                self@.rules == rules,
                self@.source == src,
                rules == lexer_table(),
                lex_from(rules, src, p0).0 == tokens_view(tokens@) + lex_from(rules, src, self@.at).0,
                lex_from(rules, src, p0).1 == lexer_errors_view(errors@) + lex_from(rules, src, self@.at).1,
                lex_from(rules, src, p0).2 == lex_from(rules, src, self@.at).2,
            decreases n - self.at.offset,
        {
            let ghost p = self@.at;
            let ghost off = self.at.offset as int;
            let ghost tv = tokens_view(tokens@);
            let ghost ev = lexer_errors_view(errors@);
            let rest = self.source.as_str().substring_char(self.at.offset, n);
            assert(rest@ =~= src.skip(off));
            let found = self.find_all(rest);
            proof {
                lemma_pos_bounds(src, off);
                lemma_pos_bounds(src, src.len() as int);
                assert(src.take(src.len() as int) =~= src);
                lemma_utf8_concat(src.take(off), rest@);
                assert(src.take(off) + rest@ =~= src);
                lemma_found_is_match(rules, found_view(found@), rest@, 0);
                lemma_first_match(rules, rest@, 0);
            }
            let (step, q) = lex_step(&found, rest, &self.at);
            proof {
                let len: int = match first_match(rules, rest@, 0) {
                    Some((i, k)) => k as int,
                    None => 1,
                };
                let m = rest@.take(len);
                if first_match(rules, rest@, 0) is None {
                    assert(m =~= seq![rest@[0]]);
                }
                assert(src.take(off) + m =~= src.take(off + len));
                lemma_advance_concat(start_pos(), src.take(off), m);
                lemma_advance_pos(p, m);
                if let Some((i, k)) = first_match(rules, rest@, 0) {
                    assert(rules[i] == rule_spec(i));
                }
            }
            self.at = q;
            match step {
                LexStep::Token(t) => {
                    tokens.push(t);
                    assert(tokens_view(tokens@) =~= tv + seq![t@]);
                },
                LexStep::Skip => {},
                LexStep::Error(e) => {
                    errors.push(e);
                    assert(lexer_errors_view(errors@) =~= ev + seq![e@]);
                },
            }
            assert(tokens_view(tokens@) + lex_from(rules, src, self@.at).0 =~= tv + lex_from(rules, src, p).0);
            assert(lexer_errors_view(errors@) + lex_from(rules, src, self@.at).1 =~= ev + lex_from(rules, src, p).1);
        }
        assert(lex_from(rules, src, self@.at).0 =~= Seq::<TokenView>::empty());
        assert(tokens_view(tokens@) + Seq::<TokenView>::empty() =~= tokens_view(tokens@));
        assert(lexer_errors_view(errors@) + Seq::<LexerErrorView>::empty() =~= lexer_errors_view(errors@));
        let eof = Token::eof(Span::new(self.at.pos, self.at.pos, self.at.line, self.at.col));
        let ghost toks_before = tokens_view(tokens@);
        tokens.push(eof);
        assert(tokens_view(tokens@) =~= toks_before.push(eof@));
        if errors.len() == 0 {
            Ok(tokens)
        } else {
            Err(errors)
        }
    }
}

// ---- Laws of the lexer ----

/// Number of newlines in a text.
pub open spec fn newlines(t: Seq<char>) -> nat
    decreases t.len(),
{
    if t.len() == 0 {
        0
    } else {
        newlines(t.drop_last()) + if t.last() == '\n' {
            1nat
        } else {
            0nat
        }
    }
}

/// Number of characters after the last newline of a text.
pub open spec fn chars_since_newline(t: Seq<char>) -> nat
    decreases t.len(),
{
    if t.len() == 0 {
        0
    } else if t.last() == '\n' {
        0
    } else {
        chars_since_newline(t.drop_last()) + 1
    }
}

/// Position tracking: after any text, the line is one more than the number of newlines
/// read, the column one more than the characters read since the last newline, and the
/// byte position the UTF-8 length of the text.
pub proof fn lemma_position_tracking(t: Seq<char>)
    ensures
        advance_pos(start_pos(), t) == (LexPos {
            offset: t.len(),
            pos: utf8_len(t),
            line: 1 + newlines(t),
            col: 1 + chars_since_newline(t),
        }),
    decreases t.len(),
{
    if t.len() > 0 {
        lemma_position_tracking(t.drop_last());
    }
}

proof fn lemma_utf8_len_at_least(t: Seq<char>)
    ensures
        utf8_len(t) >= t.len(),
    decreases t.len(),
{
    if t.len() > 0 {
        lemma_utf8_len_at_least(t.drop_last());
    }
}

/// A span starts where some prefix of the source ends: at its byte length, on the line
/// and column that prefix leads to.
pub open spec fn starts_after_prefix(src: Seq<char>, sp: Span) -> bool {
    exists|k: int|
        0 <= k <= src.len() && sp.start == utf8_len(#[trigger] src.take(k)) && sp.line == 1
            + newlines(src.take(k)) && sp.col == 1 + chars_since_newline(src.take(k))
}

/// Lexing from a position reached by lexing the source so far covers the rest of the
/// source: it ends at the end of the source, and its tokens and its errors come in
/// source order with non-empty, non-overlapping spans that start where a prefix of the
/// source ends.
pub proof fn lemma_lex_from_spans(rules: Seq<(Seq<char>, RuleAction)>, src: Seq<char>, p: LexPos)
    requires
        source_fits(src),
        p.offset <= src.len(),
        p == advance_pos(start_pos(), src.take(p.offset as int)),
    ensures
        ({
            let (toks, errs, fin) = lex_from(rules, src, p);
            &&& fin == advance_pos(start_pos(), src)
            &&& forall|i: int|
                0 <= i < toks.len() ==> p.pos <= (#[trigger] toks[i]).span.start < toks[i].span.end
                    <= fin.pos
            &&& forall|i: int, j: int|
                0 <= i < j < toks.len() ==> (#[trigger] toks[i]).span.end <= (#[trigger] toks[j]).span.start
            &&& forall|i: int| 0 <= i < toks.len() ==> starts_after_prefix(src, (#[trigger] toks[i]).span)
            &&& forall|i: int|
                0 <= i < errs.len() ==> p.pos <= (#[trigger] errs[i]).span.start < errs[i].span.end
                    <= fin.pos
            &&& forall|i: int, j: int|
                0 <= i < j < errs.len() ==> (#[trigger] errs[i]).span.end <= (#[trigger] errs[j]).span.start
            &&& forall|i: int| 0 <= i < errs.len() ==> starts_after_prefix(src, (#[trigger] errs[i]).span)
        }),
    decreases src.len() - p.offset,
{
    lemma_pos_bounds(src, p.offset as int);
    lemma_position_tracking(src.take(p.offset as int));
    if p.offset >= src.len() {
        assert(src.take(p.offset as int) =~= src);
    } else {
        let off = p.offset as int;
        let rest = src.skip(off);
        let len: int = match first_match(rules, rest, 0) {
            Some((i, n)) => n as int,
            None => 1,
        };
        lemma_first_match(rules, rest, 0);
        let m = rest.take(len);
        assert(src.take(off) + m =~= src.take(off + len));
        lemma_advance_concat(start_pos(), src.take(off), m);
        let q = advance_pos(p, m);
        if first_match(rules, rest, 0) is None {
            assert(m =~= seq![rest[0]]);
        }
        lemma_pos_bounds(src, off + len);
        lemma_advance_pos(p, m);
        lemma_utf8_len_at_least(m);
        lemma_lex_from_spans(rules, src, q);
        lemma_position_tracking(src);
        assert(src.take(src.len() as int) =~= src);
        lemma_pos_bounds(src, src.len() as int);
        assert(p.pos <= q.pos <= utf8_len(src) <= usize::MAX);
        assert(span_between(p, q).start == p.pos);
        assert(span_between(p, q).end == q.pos);
        assert(starts_after_prefix(src, span_between(p, q))) by {
            assert(src.take(off) == src.take(off));
        }
        let (toks, errs, fin) = lex_from(rules, src, p);
        let (st, se, sf) = lex_from(rules, src, q);
        assert(fin == sf);
        if let Some((i, n)) = first_match(rules, rest, 0) {
            if action_kind(rules[i].1, m) is Some {
                assert forall|a: int, b: int| 0 <= a < b < toks.len() implies (#[trigger] toks[a]).span.end
                    <= (#[trigger] toks[b]).span.start by {
                    if a > 0 {
                        assert(toks[a] == st[a - 1]);
                        assert(toks[b] == st[b - 1]);
                    } else {
                        assert(toks[b] == st[b - 1]);
                    }
                }
                assert forall|a: int| 0 <= a < toks.len() implies starts_after_prefix(src, (#[trigger] toks[a]).span) by {
                    if a > 0 {
                        assert(toks[a] == st[a - 1]);
                    }
                }
                assert forall|a: int| 0 <= a < toks.len() implies p.pos <= (#[trigger] toks[a]).span.start
                    < toks[a].span.end <= fin.pos by {
                    if a > 0 {
                        assert(toks[a] == st[a - 1]);
                    }
                }
            }
        } else {
            assert forall|a: int, b: int| 0 <= a < b < errs.len() implies (#[trigger] errs[a]).span.end
                <= (#[trigger] errs[b]).span.start by {
                if a > 0 {
                    assert(errs[a] == se[a - 1]);
                    assert(errs[b] == se[b - 1]);
                } else {
                    assert(errs[b] == se[b - 1]);
                }
            }
            assert forall|a: int| 0 <= a < errs.len() implies starts_after_prefix(src, (#[trigger] errs[a]).span) by {
                if a > 0 {
                    assert(errs[a] == se[a - 1]);
                }
            }
            assert forall|a: int| 0 <= a < errs.len() implies p.pos <= (#[trigger] errs[a]).span.start
                < errs[a].span.end <= fin.pos by {
                if a > 0 {
                    assert(errs[a] == se[a - 1]);
                }
            }
        }
    }
}

/// A kind that a rule of the table can give: never end-of-file and never an error.
pub open spec fn lexed_kind(k: TokenKindView) -> bool {
    k != TokenKindView::Simple(TokenKind::Eof) && !(k is Error)
}

proof fn lemma_table_kinds(i: int, m: Seq<char>)
    requires
        0 <= i < 39,
    ensures
        action_kind(lexer_table()[i].1, m) matches Some(k) ==> lexed_kind(k),
{
    assert(lexer_table()[i] == rule_spec(i));
}

proof fn lemma_lex_kinds(src: Seq<char>, p: LexPos)
    ensures
        forall|a: int|
            0 <= a < lex_from(lexer_table(), src, p).0.len() ==> lexed_kind(
                (#[trigger] lex_from(lexer_table(), src, p).0[a]).kind,
            ),
    decreases src.len() - p.offset,
{
    let rules = lexer_table();
    if p.offset < src.len() {
        let rest = src.skip(p.offset as int);
        lemma_first_match(rules, rest, 0);
        let len: int = match first_match(rules, rest, 0) {
            Some((i, n)) => n as int,
            None => 1,
        };
        let m = rest.take(len);
        let q = match first_match(rules, rest, 0) {
            Some((i, n)) => advance_pos(p, m),
            None => advance_pos(p, seq![rest[0]]),
        };
        lemma_advance_pos(p, m);
        lemma_advance_pos(p, seq![rest[0]]);
        lemma_lex_kinds(src, q);
        let toks = lex_from(rules, src, p).0;
        let st = lex_from(rules, src, q).0;
        if let Some((i, n)) = first_match(rules, rest, 0) {
            lemma_table_kinds(i, m);
            assert forall|a: int| 0 <= a < toks.len() implies lexed_kind((#[trigger] toks[a]).kind) by {
                if action_kind(rules[i].1, m) is Some && a > 0 {
                    assert(toks[a] == st[a - 1]);
                }
            }
        }
    }
}

/// A successful tokenization lists the source's tokens in order (none of them an
/// end-of-file or error token), with non-empty, non-overlapping spans that start where a prefix of the source ends, followed by one
/// end-of-file token: an empty span at the end of the source, on the line and column
/// where the source ends.
pub proof fn lemma_tokenize_spans(src: Seq<char>)
    requires
        source_fits(src),
    ensures
        tokenize_spec(src) matches Ok(toks) ==> {
            &&& toks.len() >= 1
            &&& toks.last() == eof_token(advance_pos(start_pos(), src))
            &&& toks.last().span.start == utf8_len(src)
            &&& toks.last().span.line == 1 + newlines(src)
            &&& toks.last().span.col == 1 + chars_since_newline(src)
            &&& toks.last().span.end == utf8_len(src)
            &&& forall|i: int|
                0 <= i < toks.len() - 1 ==> (#[trigger] toks[i]).span.start < toks[i].span.end
            &&& forall|i: int| 0 <= i < toks.len() - 1 ==> lexed_kind((#[trigger] toks[i]).kind)
            &&& forall|i: int, j: int|
                0 <= i < j < toks.len() ==> (#[trigger] toks[i]).span.end <= (#[trigger] toks[j]).span.start
            &&& forall|i: int| 0 <= i < toks.len() ==> starts_after_prefix(src, (#[trigger] toks[i]).span)
        },
{
    assert(src.take(0) =~= Seq::<char>::empty());
    lemma_lex_from_spans(lexer_table(), src, start_pos());
    lemma_lex_kinds(src, start_pos());
    lemma_position_tracking(src);
    lemma_pos_bounds(src, src.len() as int);
    assert(src.take(src.len() as int) =~= src);
    let (toks, errs, fin) = lex_from(lexer_table(), src, start_pos());
    if errs.len() == 0 {
        let all = toks.push(eof_token(fin));
        assert forall|i: int, j: int| 0 <= i < j < all.len() implies (#[trigger] all[i]).span.end
            <= (#[trigger] all[j]).span.start by {
            if j == toks.len() {
                assert(all[i] == toks[i]);
            } else {
                assert(all[i] == toks[i]);
                assert(all[j] == toks[j]);
            }
        }
        assert forall|i: int| 0 <= i < all.len() implies starts_after_prefix(src, (#[trigger] all[i]).span) by {
            if i == toks.len() {
                assert(src.take(src.len() as int) == src);
                assert(all[i].span.start == utf8_len(src.take(src.len() as int)));
            } else {
                assert(all[i] == toks[i]);
            }
        }
        assert forall|i: int| 0 <= i < all.len() - 1 implies (#[trigger] all[i]).span.start < all[i].span.end by {
            assert(all[i] == toks[i]);
        }
        assert forall|i: int| 0 <= i < all.len() - 1 implies lexed_kind((#[trigger] all[i]).kind) by {
            assert(all[i] == toks[i]);
        }
    }
}

/// Convenience: tokenize a string source in one shot.
pub fn tokenize(source: &str) -> (r: Result<Vec<Token>, Vec<LexerError>>)
    requires
        source_fits(source@),
    ensures
        lex_result_view(r) == tokenize_spec(source@),
{
    let mut lexer = Lexer::new(source);
    lexer.tokenize()
}

} // verus!

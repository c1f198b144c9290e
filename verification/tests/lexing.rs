use lau_compilers::lexer::{lex_step, tokenize, LexPosition, LexStep, Span, TokenKind};

#[test]
fn test_basic_tokenization() {
    let tokens = tokenize("let x = 42;").unwrap();
    assert!(matches!(tokens[0].kind, TokenKind::Let));
    assert!(matches!(&tokens[1].kind, TokenKind::Ident(ref s) if s == "x"));
    assert!(matches!(tokens[2].kind, TokenKind::Eq));
    assert!(matches!(tokens[3].kind, TokenKind::Int(42)));
    assert!(matches!(tokens[4].kind, TokenKind::Semicolon));
    assert!(matches!(tokens[5].kind, TokenKind::Eof));
}

#[test]
fn test_position_tracking() {
    let tokens = tokenize("a\nb").unwrap();
    assert_eq!(tokens[0].span.line, 1);
    assert_eq!(tokens[0].span.col, 1);
    assert_eq!(tokens[1].span.line, 2);
    assert_eq!(tokens[1].span.col, 1);
}

#[test]
fn test_float_literal() {
    let tokens = tokenize("3.14").unwrap();
    assert!(matches!(&tokens[0].kind, TokenKind::Float(ref s) if s == "3.14"));
}

#[test]
fn test_string_literal() {
    let tokens = tokenize(r#""hello world""#).unwrap();
    assert!(matches!(&tokens[0].kind, TokenKind::String(ref s) if s == "hello world"));
}

#[test]
fn test_operators() {
    let tokens = tokenize("== != <= >= && || -> =>").unwrap();
    let kinds: Vec<String> = tokens.iter().take(8).map(|t| t.kind.to_string()).collect();
    assert_eq!(kinds, vec!["==", "!=", "<=", ">=", "&&", "||", "->", "=>"]);
}

#[test]
fn test_comments_skipped() {
    let tokens = tokenize("x // comment\ny").unwrap();
    let idents: Vec<&str> = tokens
        .iter()
        .filter_map(|t| match &t.kind {
            TokenKind::Ident(s) => Some(s.as_str()),
            _ => None,
        })
        .collect();
    assert_eq!(idents, vec!["x", "y"]);
}

#[test]
fn test_keywords() {
    let tokens = tokenize("if else while for fn return").unwrap();
    assert!(matches!(tokens[0].kind, TokenKind::If));
    assert!(matches!(tokens[1].kind, TokenKind::Else));
    assert!(matches!(tokens[2].kind, TokenKind::While));
    assert!(matches!(tokens[3].kind, TokenKind::For));
    assert!(matches!(tokens[4].kind, TokenKind::Fn));
    assert!(matches!(tokens[5].kind, TokenKind::Return));
}

#[test]
fn test_agent_keywords() {
    let tokens = tokenize("agent skill trigger on do").unwrap();
    assert!(matches!(tokens[0].kind, TokenKind::Agent));
    assert!(matches!(tokens[1].kind, TokenKind::Skill));
    assert!(matches!(tokens[2].kind, TokenKind::Trigger));
    assert!(matches!(tokens[3].kind, TokenKind::On));
    assert!(matches!(tokens[4].kind, TokenKind::Do));
}

#[test]
fn test_error_on_bad_char() {
    let result = tokenize("@");
    assert!(result.is_err());
}

#[test]
fn test_bool_literals() {
    let tokens = tokenize("true false").unwrap();
    assert!(matches!(tokens[0].kind, TokenKind::Bool(true)));
    assert!(matches!(tokens[1].kind, TokenKind::Bool(false)));
}

fn start() -> LexPosition {
    LexPosition { offset: 0, pos: 0, line: 1, col: 1 }
}

#[test]
fn lex_step_takes_the_first_rule_that_found_a_prefix() {
    // Rule 3 (floats) reports a match that does not start at 0; rule 4 (integers) found "12".
    let found = vec![None, None, None, Some((2, "3.0".to_string())), Some((0, "12".to_string()))];
    let (step, next) = lex_step(&found, "12+3.0", &start());
    match step {
        LexStep::Token(t) => {
            assert_eq!(t.kind, TokenKind::Int(12));
            assert_eq!(t.span, Span::new(0, 2, 1, 1));
        },
        _ => panic!("expected a token"),
    }
    assert_eq!((next.offset, next.pos, next.line, next.col), (2, 2, 1, 3));
}

#[test]
fn lex_step_skips_whitespace_and_tracks_lines() {
    let found = vec![Some((0, " \n ".to_string()))];
    let (step, next) = lex_step(&found, " \n x", &start());
    assert!(matches!(step, LexStep::Skip));
    assert_eq!((next.offset, next.pos, next.line, next.col), (3, 3, 2, 2));
}

#[test]
fn lex_step_reports_an_unexpected_character() {
    let found: Vec<Option<(usize, String)>> = vec![None; 39];
    let at = LexPosition { offset: 4, pos: 5, line: 2, col: 3 };
    let (step, next) = lex_step(&found, "é1", &at);
    match step {
        LexStep::Error(e) => {
            assert_eq!(e.message, "unexpected character 'é'");
            assert_eq!(e.span, Span::new(5, 7, 2, 3));
        },
        _ => panic!("expected an error"),
    }
    assert_eq!((next.offset, next.pos, next.line, next.col), (5, 7, 2, 4));
}

#[test]
fn lex_step_makes_keywords_of_words() {
    let mut found: Vec<Option<(usize, String)>> = vec![None; 16];
    found.push(Some((0, "while".to_string())));
    let (step, _) = lex_step(&found, "while x", &start());
    match step {
        LexStep::Token(t) => assert_eq!(t.kind, TokenKind::While),
        _ => panic!("expected a token"),
    }
}

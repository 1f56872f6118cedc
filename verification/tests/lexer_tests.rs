use alshc::lexer::{Lexer, StrPart, Token, TokenKind};

fn lex(src: &str) -> Result<Vec<Token>, String> {
    Lexer::new(src).tokenize().map_err(|e| format!("{}@{}:{}", e.message, e.line, e.col))
}

fn kinds(src: &str) -> Vec<TokenKind> {
    lex(src).unwrap().into_iter().map(|t| t.kind).collect()
}

#[test]
fn let_statement_tokens_and_positions() {
    let toks = lex("let x = 5").unwrap();
    let got: Vec<(TokenKind, usize, usize)> = toks.into_iter().map(|t| (t.kind, t.line, t.col)).collect();
    assert_eq!(
        got,
        vec![
            (TokenKind::Let, 1, 1),
            (TokenKind::Ident("x".to_string()), 1, 5),
            (TokenKind::Eq, 1, 7),
            (TokenKind::Number(5), 1, 9),
            (TokenKind::Eof, 1, 10),
        ]
    );
}

#[test]
fn tokens_end_with_a_single_eof_in_order() {
    let toks = lex("a b\n  c").unwrap();
    assert_eq!(toks.last().unwrap().kind, TokenKind::Eof);
    assert_eq!(toks.iter().filter(|t| t.kind == TokenKind::Eof).count(), 1);
    let pos: Vec<(usize, usize)> = toks.iter().map(|t| (t.line, t.col)).collect();
    assert_eq!(pos, vec![(1, 1), (1, 3), (2, 3), (2, 4)]);
}

#[test]
fn keywords_ignore_case() {
    assert_eq!(
        kinds("while WHILE While fn FN"),
        vec![
            TokenKind::While,
            TokenKind::While,
            TokenKind::While,
            TokenKind::Function,
            TokenKind::Function,
            TokenKind::Eof
        ]
    );
}

#[test]
fn interpolated_and_raw_strings() {
    assert_eq!(
        kinds("\"hi $name!\""),
        vec![
            TokenKind::Str(vec![
                StrPart::Literal("hi ".to_string()),
                StrPart::Var("name".to_string()),
                StrPart::Literal("!".to_string()),
            ]),
            TokenKind::Eof
        ]
    );
    assert_eq!(kinds("'a'"), vec![TokenKind::Char('a'), TokenKind::Eof]);
    assert_eq!(kinds("'ab'"), vec![TokenKind::RawStr("ab".to_string()), TokenKind::Eof]);
    assert_eq!(
        kinds("\"a\\tb\""),
        vec![TokenKind::Str(vec![StrPart::Literal("a\tb".to_string())]), TokenKind::Eof]
    );
}

#[test]
fn numbers() {
    assert_eq!(kinds("42"), vec![TokenKind::Number(42), TokenKind::Eof]);
    assert_eq!(kinds("3.14"), vec![TokenKind::Float("3.14".to_string()), TokenKind::Eof]);
    assert_eq!(lex("99999999999999999999"), Err("invalid integer literal@1:21".to_string()));
}

#[test]
fn comments_are_skipped() {
    let toks = lex("# comment\n// other\nx").unwrap();
    assert_eq!(toks.len(), 2);
    assert_eq!((toks[0].kind.clone(), toks[0].line, toks[0].col), (TokenKind::Ident("x".to_string()), 3, 1));
}

#[test]
fn directives_paths_and_operators() {
    assert_eq!(
        kinds("@main\nfunction"),
        vec![TokenKind::Directive("@main".to_string()), TokenKind::Function, TokenKind::Eof]
    );
    assert_eq!(
        kinds("@define X 1"),
        vec![TokenKind::Directive("@define X 1".to_string()), TokenKind::Eof]
    );
    assert_eq!(
        kinds("std::println(a -> b)"),
        vec![
            TokenKind::Ident("std::println".to_string()),
            TokenKind::LParen,
            TokenKind::Ident("a".to_string()),
            TokenKind::Arrow,
            TokenKind::Ident("b".to_string()),
            TokenKind::RParen,
            TokenKind::Eof
        ]
    );
    assert_eq!(
        kinds("== != <= >= && || ..."),
        vec![
            TokenKind::EqEq,
            TokenKind::NotEq,
            TokenKind::Le,
            TokenKind::Ge,
            TokenKind::AndAnd,
            TokenKind::OrOr,
            TokenKind::Ellipsis,
            TokenKind::Eof
        ]
    );
}

#[test]
fn lexical_errors() {
    assert_eq!(lex("&"), Err("unexpected '&'@1:2".to_string()));
    assert_eq!(lex("a | b"), Err("unexpected '|' (shell pipes not lexed here)@1:4".to_string()));
    assert_eq!(lex("\"abc"), Err("unterminated string literal@1:5".to_string()));
    assert_eq!(lex("'ab"), Err("unterminated raw string/char literal@1:4".to_string()));
    assert_eq!(lex("x ~"), Err("unexpected character '~'@1:3".to_string()));
}

#[test]
fn non_ascii_identifiers() {
    // The bytes of `ü` are read as `Ã` and `¼`, a letter and a number: one identifier,
    // decoded as UTF-8.
    assert_eq!(kinds("ü"), vec![TokenKind::Ident("ü".to_string()), TokenKind::Eof]);
    // The second byte of `é` reads as `©`, which ends the identifier inside the
    // character: lexing would abort there.
    assert!(Lexer::new("é").would_abort());
    assert!(!Lexer::new("ü").would_abort());
}

#[test]
fn try_tokenize_answers_for_every_input() {
    assert!(Lexer::new("é").try_tokenize().is_none());
    let toks = Lexer::new("let x = 1").try_tokenize().unwrap().unwrap();
    assert_eq!(toks.len(), 5);
    assert_eq!(toks[4].kind, TokenKind::Eof);
}

#[test]
fn token_positions_increase() {
    let toks = lex("let a = 1\n  b = 2\nc").unwrap();
    for w in toks.windows(2) {
        assert!((w[0].line, w[0].col) < (w[1].line, w[1].col));
    }
    assert!(toks.iter().all(|t| t.line >= 1 && t.col >= 1));
    assert_eq!((toks[4].line, toks[4].col), (2, 3));
}

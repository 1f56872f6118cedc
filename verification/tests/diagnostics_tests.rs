use alshc::diagnostics::{context_lines, decimal_chars, ParseError};
use alshc::lexer::Lexer;

#[test]
fn error_texts() {
    let lex_err = Lexer::new("&").tokenize().unwrap_err();
    assert_eq!(lex_err.to_text(), "lex error at 1:2: unexpected '&'");
    let p = ParseError::from_lex_error(lex_err);
    assert_eq!((p.message.as_str(), p.line, p.col), ("unexpected '&'", 1, 2));
    assert_eq!(p.to_text(), "parse error at 1:2: unexpected '&'");
    let q = ParseError { message: "boom".to_string(), line: 12, col: 407 };
    assert_eq!(q.to_text(), "parse error at 12:407: boom");
}

#[test]
fn decimal_digits() {
    assert_eq!(decimal_chars(0).iter().collect::<String>(), "0");
    assert_eq!(decimal_chars(12345).iter().collect::<String>(), "12345");
}

#[test]
fn context_windows() {
    assert_eq!(context_lines(1, 5), Some((0, 1)));
    assert_eq!(context_lines(2, 5), Some((0, 2)));
    assert_eq!(context_lines(3, 5), Some((1, 3)));
    assert_eq!(context_lines(5, 5), Some((3, 4)));
    assert_eq!(context_lines(0, 5), None);
    assert_eq!(context_lines(6, 5), None);
}

//! Error values and their texts: the parse error (made from a lexical error when lexing
//! fails), the text that each error is shown with, and which source lines are shown
//! around an error.
use vstd::prelude::*;
use crate::lexer::LexError;
use crate::text::{chars_to_string, push_all, str_chars};

verus! {

/// A parse error with the line and column at which it was found.
#[derive(Debug, Clone)]
pub struct ParseError {
    pub message: String,
    pub line: usize,
    pub col: usize,
}

/// The decimal digits of `n`.
pub open spec fn decimal(n: nat) -> Seq<char>
    decreases n,
{
    if n < 10 {
        seq![digit_char(n)]
    } else {
        decimal(n / 10).push(digit_char(n % 10))
    }
}

pub open spec fn digit_char(d: nat) -> char {
    if d == 0 {
        '0'
    } else if d == 1 {
        '1'
    } else if d == 2 {
        '2'
    } else if d == 3 {
        '3'
    } else if d == 4 {
        '4'
    } else if d == 5 {
        '5'
    } else if d == 6 {
        '6'
    } else if d == 7 {
        '7'
    } else if d == 8 {
        '8'
    } else {
        '9'
    }
}

pub(crate) fn digit_of(d: usize) -> (c: char)
    requires
        d < 10,
    ensures
        c == digit_char(d as nat),
{
    if d == 0 {
        '0'
    } else if d == 1 {
        '1'
    } else if d == 2 {
        '2'
    } else if d == 3 {
        '3'
    } else if d == 4 {
        '4'
    } else if d == 5 {
        '5'
    } else if d == 6 {
        '6'
    } else if d == 7 {
        '7'
    } else if d == 8 {
        '8'
    } else {
        '9'
    }
}

/// The decimal digits of `n` (what `{}` formats a number as).
pub fn decimal_chars(n: usize) -> (r: Vec<char>)
    ensures
        r@ == decimal(n as nat),
    decreases n,
{
    if n < 10 {
        let mut r: Vec<char> = Vec::new();
        r.push(digit_of(n));
        assert(r@ =~= seq![digit_char(n as nat)]);
        r
    } else {
        let mut r = decimal_chars(n / 10);
        r.push(digit_of(n % 10));
        r
    }
}

/// The text `"<what> error at <line>:<col>: <message>"`.
pub open spec fn error_text(what: Seq<char>, line: nat, col: nat, message: Seq<char>) -> Seq<char> {
    what + " error at "@ + decimal(line) + ":"@ + decimal(col) + ": "@ + message
}

fn error_text_exec(what: &str, line: usize, col: usize, message: &String) -> (s: String)
    ensures
        s@ == error_text(what@, line as nat, col as nat, message@),
{
    let mut t = str_chars(what);
    push_all(&mut t, &str_chars(" error at "));
    push_all(&mut t, &decimal_chars(line));
    push_all(&mut t, &str_chars(":"));
    push_all(&mut t, &decimal_chars(col));
    push_all(&mut t, &str_chars(": "));
    push_all(&mut t, &str_chars(message.as_str()));
    chars_to_string(&t)
}

impl ParseError {
    /// The parse error that a lexical error becomes: same message, line and column.
    pub fn from_lex_error(e: LexError) -> (r: ParseError)
        ensures
            r.message@ == e.message@,
            r.line == e.line,
            r.col == e.col,
    {
        ParseError { message: e.message, line: e.line, col: e.col }
    }

    /// The text the error is shown with: `parse error at <line>:<col>: <message>`.
    pub fn to_text(&self) -> (s: String)
        ensures
            s@ == error_text("parse"@, self.line as nat, self.col as nat, self.message@),
    {
        error_text_exec("parse", self.line, self.col, &self.message)
    }
}

impl LexError {
    /// The text the error is shown with: `lex error at <line>:<col>: <message>`.
    pub fn to_text(&self) -> (s: String)
        ensures
            s@ == error_text("lex"@, self.line as nat, self.col as nat, self.message@),
    {
        error_text_exec("lex", self.line, self.col, &self.message)
    }
}

/// The lines (counted from 0, both ends included) shown around an error at line `line`
/// (counted from 1) of a text of `n` lines: from the line before it (the first line, for an
/// error on the first) to the line after it (the last line, for an error on the last);
/// nothing for a line out of range.
pub open spec fn context_window(line: nat, n: nat) -> Option<(nat, nat)> {
    if 1 <= line <= n {
        Some(
            (
                if line >= 2 {
                    (line - 2) as nat
                } else {
                    0
                },
                if line < n {
                    line
                } else {
                    (n - 1) as nat
                },
            ),
        )
    } else {
        None
    }
}

/// See `context_window`.
pub fn context_lines(line: usize, n: usize) -> (r: Option<(usize, usize)>)
    ensures
        match context_window(line as nat, n as nat) {
            Some((a, b)) => r == Some((a as usize, b as usize)),
            None => r is None,
        },
{
    if line > 0 && line <= n {
        let idx = line - 1;
        let start = if idx >= 2 {
            idx - 1
        } else {
            0
        };
        let end = if idx + 1 <= n - 1 {
            idx + 1
        } else {
            n - 1
        };
        Some((start, end))
    } else {
        None
    }
}

} // verus!

//! The byte-level lexer. Each input byte is read as the character with the same
//! code (Latin-1), identifiers and directives are decoded as UTF-8, and every
//! token records the line and column at which it starts.
use vstd::prelude::*;
use vstd::utf8::*;
use vstd::string::StringSliceAdditionalSpecFns;
use crate::text::{
    all_ascii, alphabetic, alphanumeric, ascii_upper, ascii_upper_vec, fold_upper, is_ascii_text, str_to_uppercase, to_upper, char_is_alphabetic, char_is_alphanumeric, chars_eq, chars_to_string,
    is_ascii_digit_char, is_whitespace, is_ws, str_chars, trim, trim_chars, utf8_to_string,
};

verus! {

#[derive(Debug, Clone, PartialEq)]
pub enum TokenKind {
    // literals
    Ident(String),
    Number(i64),
    /// A decimal literal with a fractional part, kept as its source text
    /// (`digits.digits`); converting it to a floating-point value is the caller's part.
    Float(String),
    Str(Vec<StrPart>),
    RawStr(String),
    Char(char),
    // keywords
    Let,
    Const,
    Function,
    Fn,
    Return,
    If,
    Elif,
    Else,
    While,
    Loop,
    For,
    Foreach,
    In,
    Break,
    Continue,
    Try,
    Catch,
    Struct,
    Enum,
    Scan,
    Switch,
    Default,
    Of,
    On,
    Count,
    Interval,
    Chain,
    True,
    False,
    Noret,
    MainFunction,
    // punctuation
    Dollar,
    Comma,
    Colon,
    Semi,
    Dot,
    Ellipsis,
    Arrow,
    LParen,
    RParen,
    LBrace,
    RBrace,
    LBracket,
    RBracket,
    // operators
    Plus,
    Minus,
    Star,
    Slash,
    Eq,
    EqEq,
    NotEq,
    Lt,
    Gt,
    Le,
    Ge,
    AndAnd,
    OrOr,
    Not,
    At,
    Directive(String),
    Eof,
}

#[derive(Debug, Clone, PartialEq)]
pub enum StrPart {
    Literal(String),
    Var(String),
}

#[derive(Debug, Clone, PartialEq)]
pub struct Token {
    pub kind: TokenKind,
    pub line: usize,
    pub col: usize,
}

#[derive(Debug, Clone)]
pub struct LexError {
    pub message: String,
    pub line: usize,
    pub col: usize,
}

pub struct Lexer<'a> {
    src: &'a [u8],
    pos: usize,
    line: usize,
    col: usize,
}

// ---------------------------------------------------------------------------
// Mathematical model
// ---------------------------------------------------------------------------

/// A piece of an interpolated string, as characters.
pub enum PartSpec {
    Lit(Seq<char>),
    Var(Seq<char>),
}

impl View for StrPart {
    type V = PartSpec;

    open spec fn view(&self) -> PartSpec {
        match self {
            StrPart::Literal(s) => PartSpec::Lit(s@),
            StrPart::Var(s) => PartSpec::Var(s@),
        }
    }
}

pub open spec fn parts_view(v: Seq<StrPart>) -> Seq<PartSpec> {
    v.map_values(|p: StrPart| p@)
}

/// What a token is, with its text as characters. `Simple` holds the kinds that carry
/// no payload.
pub enum KindSpec {
    Simple(TokenKind),
    Ident(Seq<char>),
    Number(i64),
    Float(Seq<char>),
    Str(Seq<PartSpec>),
    RawStr(Seq<char>),
    Char(char),
    Directive(Seq<char>),
}

pub open spec fn kind_matches(k: TokenKind, d: KindSpec) -> bool {
    match d {
        KindSpec::Simple(t) => k == t,
        KindSpec::Ident(s) => k matches TokenKind::Ident(x) && x@ == s,
        KindSpec::Number(n) => k == TokenKind::Number(n),
        KindSpec::Float(s) => k matches TokenKind::Float(x) && x@ == s,
        KindSpec::Str(ps) => k matches TokenKind::Str(v) && parts_view(v@) == ps,
        KindSpec::RawStr(s) => k matches TokenKind::RawStr(x) && x@ == s,
        KindSpec::Char(c) => k == TokenKind::Char(c),
        KindSpec::Directive(s) => k matches TokenKind::Directive(x) && x@ == s,
    }
}

/// The outcome of reading one token that starts at a given byte.
pub enum Step {
    /// The token and the position just after it.
    Tok(KindSpec, nat),
    /// A lexical error, its message and the position at which it is reported.
    Fail(Seq<char>, nat),
    /// An identifier or directive whose bytes are not valid UTF-8: lexing aborts on
    /// such input (see `Lexer::would_abort`).
    Panic,
}

/// The outcome of reading all tokens from a position on.
pub enum LexRun {
    /// The tokens, each with the position at which it starts; the last is `Eof`.
    Done(Seq<(KindSpec, nat)>),
    Failed(Seq<char>, nat),
    Panicked,
}

/// The byte at `p`, read as a character.
pub open spec fn at(s: Seq<u8>, p: nat) -> Option<char> {
    if p < s.len() {
        Some(s[p as int] as char)
    } else {
        None
    }
}

/// Bytes read as characters.
pub open spec fn chars_of(s: Seq<u8>) -> Seq<char> {
    s.map_values(|b: u8| b as char)
}

/// The line and column (both counted from 1) of byte position `p`.
pub open spec fn line_col(s: Seq<u8>, p: nat) -> (nat, nat)
    decreases p,
{
    if p == 0 {
        (1, 1)
    } else {
        let (l, c) = line_col(s, (p - 1) as nat);
        if s[(p - 1) as int] == 10u8 {
            (l + 1, 1)
        } else {
            (l, c + 1)
        }
    }
}

/// The position after skipping whitespace and `#` / `//` comments (a comment runs up to,
/// not including, the next newline).
pub open spec fn skip_ws(s: Seq<u8>, p: nat, in_comment: bool) -> nat
    decreases s.len() - p, (if in_comment { 1int } else { 0int }),
{
    if p >= s.len() {
        p
    } else if in_comment {
        if s[p as int] == 10u8 {
            skip_ws(s, p, false)
        } else {
            skip_ws(s, p + 1, true)
        }
    } else {
        let c = s[p as int] as char;
        if is_ws(c) {
            skip_ws(s, p + 1, false)
        } else if c == '#' {
            skip_ws(s, p + 1, true)
        } else if c == '/' && at(s, p + 1) == Some('/') {
            skip_ws(s, p + 1, true)
        } else {
            p
        }
    }
}

/// The end of the run of characters from `p` on for which `is_name` holds
/// (alphanumeric, `_`, and `.` when `dots`).
pub open spec fn name_char(c: char, dots: bool) -> bool {
    alphanumeric(c) || c == '_' || (dots && c == '.')
}

pub open spec fn run_end(s: Seq<u8>, p: nat, dots: bool) -> nat
    decreases s.len() - p,
{
    if p < s.len() && name_char(s[p as int] as char, dots) {
        run_end(s, p + 1, dots)
    } else {
        p
    }
}

pub open spec fn digit_end(s: Seq<u8>, p: nat) -> nat
    decreases s.len() - p,
{
    if p < s.len() && is_ascii_digit_char(s[p as int] as char) {
        digit_end(s, p + 1)
    } else {
        p
    }
}

/// The end of an identifier whose first `::`-free run ends at `p`: each `::` is followed
/// by another run of name characters.
pub open spec fn path_end(s: Seq<u8>, p: nat) -> nat
    decreases s.len() - p,
{
    if at(s, p) == Some(':') && at(s, p + 1) == Some(':') && p < run_end(s, p + 2, false) <= s.len() {
        path_end(s, run_end(s, p + 2, false))
    } else {
        p
    }
}

pub open spec fn line_end(s: Seq<u8>, p: nat) -> nat
    decreases s.len() - p,
{
    if p < s.len() && s[p as int] != 10u8 {
        line_end(s, p + 1)
    } else {
        p
    }
}

/// The value of a run of ASCII digits.
pub open spec fn digits_value(d: Seq<u8>) -> nat
    decreases d.len(),
{
    if d.len() == 0 {
        0
    } else {
        digits_value(d.drop_last()) * 10 + (d.last() - 48) as nat
    }
}

pub open spec fn finish_parts(parts: Seq<PartSpec>, buf: Seq<char>) -> Seq<PartSpec> {
    if buf.len() > 0 || parts.len() == 0 {
        parts.push(PartSpec::Lit(buf))
    } else {
        parts
    }
}

pub open spec fn unescape_dq(c: char) -> char {
    if c == 'n' {
        '\n'
    } else if c == 't' {
        '\t'
    } else {
        c
    }
}

pub open spec fn unescape_sq(c: char) -> char {
    if c == 'n' {
        '\n'
    } else {
        c
    }
}

/// A double-quoted string from position `p` on (after the opening quote), with the
/// finished pieces `parts` and the literal text `buf` collected so far.
pub open spec fn lex_str(s: Seq<u8>, p: nat, parts: Seq<PartSpec>, buf: Seq<char>) -> Step
    decreases s.len() - p,
{
    if p >= s.len() {
        Step::Fail("unterminated string literal"@, p)
    } else {
        let c = s[p as int] as char;
        if c == '"' {
            Step::Tok(KindSpec::Str(finish_parts(parts, buf)), p + 1)
        } else if c == '\\' {
            if p + 1 >= s.len() {
                Step::Fail("unterminated escape sequence"@, p + 1)
            } else {
                lex_str(s, p + 2, parts, buf.push(unescape_dq(s[(p + 1) as int] as char)))
            }
        } else if c == '$' {
            let e = run_end(s, p + 1, true);
            let name = chars_of(s.subrange((p + 1) as int, e as int));
            let parts2 = if buf.len() > 0 {
                parts.push(PartSpec::Lit(buf))
            } else {
                parts
            };
            if p < e <= s.len() {
                if name.len() == 0 {
                    lex_str(s, e, parts2, seq!['$'])
                } else {
                    lex_str(s, e, parts2.push(PartSpec::Var(name)), seq![])
                }
            } else {
                Step::Panic
            }
        } else {
            lex_str(s, p + 1, parts, buf.push(c))
        }
    }
}

/// A single-quoted literal from `p` on (after the opening quote).
pub open spec fn lex_raw(s: Seq<u8>, p: nat, buf: Seq<char>) -> Step
    decreases s.len() - p,
{
    if p >= s.len() {
        Step::Fail("unterminated raw string/char literal"@, p)
    } else {
        let c = s[p as int] as char;
        if c == '\'' {
            if buf.len() == 1 {
                Step::Tok(KindSpec::Char(buf[0]), p + 1)
            } else {
                Step::Tok(KindSpec::RawStr(buf), p + 1)
            }
        } else if c == '\\' {
            if p + 1 >= s.len() {
                Step::Fail("unterminated escape sequence"@, p + 1)
            } else {
                lex_raw(s, p + 2, buf.push(unescape_sq(s[(p + 1) as int] as char)))
            }
        } else {
            lex_raw(s, p + 1, buf.push(c))
        }
    }
}

pub open spec fn lex_number(s: Seq<u8>, q: nat) -> Step {
    let e1 = digit_end(s, q);
    if at(s, e1) == Some('.') && e1 + 1 < s.len() && is_ascii_digit_char(s[(e1 + 1) as int] as char) {
        let e2 = digit_end(s, e1 + 1);
        Step::Tok(KindSpec::Float(chars_of(s.subrange(q as int, e2 as int))), e2)
    } else {
        let v = digits_value(s.subrange(q as int, e1 as int));
        if v <= i64::MAX {
            Step::Tok(KindSpec::Number(v as i64), e1)
        } else {
            Step::Fail("invalid integer literal"@, e1)
        }
    }
}

/// The keyword that the (case-folded) text names, if any.
pub open spec fn keyword(u: Seq<char>) -> Option<TokenKind> {
    if u == seq!['L', 'E', 'T'] {
        Some(TokenKind::Let)
    } else if u == seq!['C', 'O', 'N', 'S', 'T'] {
        Some(TokenKind::Const)
    } else if u == seq!['F', 'U', 'N', 'C', 'T', 'I', 'O', 'N'] || u == seq!['F', 'N'] {
        Some(TokenKind::Function)
    } else if u == seq!['R', 'E', 'T', 'U', 'R', 'N'] {
        Some(TokenKind::Return)
    } else if u == seq!['I', 'F'] {
        Some(TokenKind::If)
    } else if u == seq!['E', 'L', 'I', 'F'] {
        Some(TokenKind::Elif)
    } else if u == seq!['E', 'L', 'S', 'E'] {
        Some(TokenKind::Else)
    } else if u == seq!['W', 'H', 'I', 'L', 'E'] {
        Some(TokenKind::While)
    } else if u == seq!['L', 'O', 'O', 'P'] {
        Some(TokenKind::Loop)
    } else if u == seq!['F', 'O', 'R'] {
        Some(TokenKind::For)
    } else if u == seq!['F', 'O', 'R', 'E', 'A', 'C', 'H'] {
        Some(TokenKind::Foreach)
    } else if u == seq!['I', 'N'] {
        Some(TokenKind::In)
    } else if u == seq!['B', 'R', 'E', 'A', 'K'] {
        Some(TokenKind::Break)
    } else if u == seq!['C', 'O', 'N', 'T', 'I', 'N', 'U', 'E'] {
        Some(TokenKind::Continue)
    } else if u == seq!['T', 'R', 'Y'] {
        Some(TokenKind::Try)
    } else if u == seq!['C', 'A', 'T', 'C', 'H'] {
        Some(TokenKind::Catch)
    } else if u == seq!['S', 'T', 'R', 'U', 'C', 'T'] {
        Some(TokenKind::Struct)
    } else if u == seq!['E', 'N', 'U', 'M'] {
        Some(TokenKind::Enum)
    } else if u == seq!['S', 'C', 'A', 'N'] {
        Some(TokenKind::Scan)
    } else if u == seq!['S', 'W', 'I', 'T', 'C', 'H'] {
        Some(TokenKind::Switch)
    } else if u == seq!['D', 'E', 'F', 'A', 'U', 'L', 'T'] {
        Some(TokenKind::Default)
    } else if u == seq!['O', 'F'] {
        Some(TokenKind::Of)
    } else if u == seq!['O', 'N'] {
        Some(TokenKind::On)
    } else if u == seq!['C', 'O', 'U', 'N', 'T'] {
        Some(TokenKind::Count)
    } else if u == seq!['I', 'N', 'T', 'E', 'R', 'V', 'A', 'L'] {
        Some(TokenKind::Interval)
    } else if u == seq!['C', 'H', 'A', 'I', 'N'] {
        Some(TokenKind::Chain)
    } else if u == seq!['T', 'R', 'U', 'E'] {
        Some(TokenKind::True)
    } else if u == seq!['F', 'A', 'L', 'S', 'E'] {
        Some(TokenKind::False)
    } else if u == seq!['N', 'O', 'R', 'E', 'T'] {
        Some(TokenKind::Noret)
    } else if u == seq!['M', 'A', 'I', 'N', '_', 'F', 'U', 'N', 'C', 'T', 'I', 'O', 'N'] {
        Some(TokenKind::MainFunction)
    } else {
        None
    }
}

pub open spec fn word_kind(text: Seq<char>) -> KindSpec {
    match keyword(fold_upper(text)) {
        Some(k) => KindSpec::Simple(k),
        None => KindSpec::Ident(text),
    }
}

/// An identifier or keyword starting at `q` (whose byte is alphabetic or `_`).
pub open spec fn lex_word(s: Seq<u8>, q: nat) -> Step {
    let e = path_end(s, run_end(s, q + 1, false));
    let bytes = s.subrange(q as int, e as int);
    if q < e <= s.len() && valid_utf8(bytes) {
        Step::Tok(word_kind(decode_utf8(bytes)), e)
    } else {
        Step::Panic
    }
}

pub open spec fn directive_text(name: Seq<char>, rest: Seq<char>) -> Seq<char> {
    if rest.len() == 0 {
        seq!['@'] + name
    } else {
        seq!['@'] + name + seq![' '] + rest
    }
}

/// `@` at `q`: a bare `@`, or a directive whose name is followed by the rest of the line.
pub open spec fn lex_directive(s: Seq<u8>, q: nat) -> Step {
    if q + 1 < s.len() && (alphabetic(s[(q + 1) as int] as char) || s[(q + 1) as int] as char == '_') {
        let n = run_end(s, q + 2, false);
        let m = line_end(s, n);
        let name = s.subrange((q + 1) as int, n as int);
        let rest = s.subrange(n as int, m as int);
        if q + 2 <= n <= m <= s.len() && valid_utf8(name) && valid_utf8(rest) {
            Step::Tok(KindSpec::Directive(directive_text(decode_utf8(name), trim(decode_utf8(rest)))), m)
        } else {
            Step::Panic
        }
    } else {
        Step::Tok(KindSpec::Simple(TokenKind::At), q + 1)
    }
}

pub open spec fn simple(k: TokenKind, e: nat) -> Step {
    Step::Tok(KindSpec::Simple(k), e)
}

/// The token that starts at byte `q` (a non-whitespace byte that starts no comment).
pub open spec fn lex_token(s: Seq<u8>, q: nat) -> Step {
    let c = s[q as int] as char;
    let next = at(s, q + 1);
    if c == '"' {
        lex_str(s, q + 1, seq![], seq![])
    } else if c == '\'' {
        lex_raw(s, q + 1, seq![])
    } else if c == '$' {
        simple(TokenKind::Dollar, q + 1)
    } else if c == '(' {
        simple(TokenKind::LParen, q + 1)
    } else if c == ')' {
        simple(TokenKind::RParen, q + 1)
    } else if c == '{' {
        simple(TokenKind::LBrace, q + 1)
    } else if c == '}' {
        simple(TokenKind::RBrace, q + 1)
    } else if c == '[' {
        simple(TokenKind::LBracket, q + 1)
    } else if c == ']' {
        simple(TokenKind::RBracket, q + 1)
    } else if c == ',' {
        simple(TokenKind::Comma, q + 1)
    } else if c == ':' {
        simple(TokenKind::Colon, q + 1)
    } else if c == ';' {
        simple(TokenKind::Semi, q + 1)
    } else if c == '.' {
        if next == Some('.') && at(s, q + 2) == Some('.') {
            simple(TokenKind::Ellipsis, q + 3)
        } else {
            simple(TokenKind::Dot, q + 1)
        }
    } else if c == '+' {
        simple(TokenKind::Plus, q + 1)
    } else if c == '-' {
        if next == Some('>') {
            simple(TokenKind::Arrow, q + 2)
        } else {
            simple(TokenKind::Minus, q + 1)
        }
    } else if c == '*' {
        simple(TokenKind::Star, q + 1)
    } else if c == '/' {
        simple(TokenKind::Slash, q + 1)
    } else if c == '=' {
        if next == Some('=') {
            simple(TokenKind::EqEq, q + 2)
        } else {
            simple(TokenKind::Eq, q + 1)
        }
    } else if c == '!' {
        if next == Some('=') {
            simple(TokenKind::NotEq, q + 2)
        } else {
            simple(TokenKind::Not, q + 1)
        }
    } else if c == '<' {
        if next == Some('=') {
            simple(TokenKind::Le, q + 2)
        } else {
            simple(TokenKind::Lt, q + 1)
        }
    } else if c == '>' {
        if next == Some('=') {
            simple(TokenKind::Ge, q + 2)
        } else {
            simple(TokenKind::Gt, q + 1)
        }
    } else if c == '&' {
        if next == Some('&') {
            simple(TokenKind::AndAnd, q + 2)
        } else {
            Step::Fail("unexpected '&'"@, q + 1)
        }
    } else if c == '|' {
        if next == Some('|') {
            simple(TokenKind::OrOr, q + 2)
        } else {
            Step::Fail("unexpected '|' (shell pipes not lexed here)"@, q + 1)
        }
    } else if c == '@' {
        lex_directive(s, q)
    } else if is_ascii_digit_char(c) {
        lex_number(s, q)
    } else if alphabetic(c) || c == '_' {
        lex_word(s, q)
    } else {
        Step::Fail("unexpected character '"@ + seq![c, '\''], q)
    }
}

/// All tokens from position `p` on.
pub open spec fn tokens_from(s: Seq<u8>, p: nat) -> LexRun
    decreases s.len() - p,
{
    let q = skip_ws(s, p, false);
    if q >= s.len() {
        LexRun::Done(seq![(KindSpec::Simple(TokenKind::Eof), q)])
    } else {
        match lex_token(s, q) {
            Step::Tok(k, e) => if p < e <= s.len() {
                match tokens_from(s, e) {
                    LexRun::Done(ts) => LexRun::Done(seq![(k, q)] + ts),
                    other => other,
                }
            } else {
                LexRun::Panicked
            },
            Step::Fail(m, ep) => LexRun::Failed(m, ep),
            Step::Panic => LexRun::Panicked,
        }
    }
}


// ---------------------------------------------------------------------------
// Bounds on the model
// ---------------------------------------------------------------------------

pub proof fn lemma_line_col_bounds(s: Seq<u8>, p: nat)
    ensures
        1 <= line_col(s, p).0 <= p + 1,
        1 <= line_col(s, p).1 <= p + 1,
    decreases p,
{
    if p > 0 {
        lemma_line_col_bounds(s, (p - 1) as nat);
    }
}

pub proof fn lemma_run_end(s: Seq<u8>, p: nat, dots: bool)
    requires
        p <= s.len(),
    ensures
        p <= run_end(s, p, dots) <= s.len(),
        forall|i: int| p <= i < run_end(s, p, dots) ==> name_char(#[trigger] s[i] as char, dots),
    decreases s.len() - p,
{
    if p < s.len() && name_char(s[p as int] as char, dots) {
        lemma_run_end(s, p + 1, dots);
    }
}

pub proof fn lemma_digit_end(s: Seq<u8>, p: nat)
    requires
        p <= s.len(),
    ensures
        p <= digit_end(s, p) <= s.len(),
        forall|i: int| p <= i < digit_end(s, p) ==> is_ascii_digit_char(#[trigger] s[i] as char),
    decreases s.len() - p,
{
    if p < s.len() && is_ascii_digit_char(s[p as int] as char) {
        lemma_digit_end(s, p + 1);
    }
}

pub proof fn lemma_line_end(s: Seq<u8>, p: nat)
    requires
        p <= s.len(),
    ensures
        p <= line_end(s, p) <= s.len(),
    decreases s.len() - p,
{
    if p < s.len() && s[p as int] != 10u8 {
        lemma_line_end(s, p + 1);
    }
}

pub proof fn lemma_path_end(s: Seq<u8>, p: nat)
    requires
        p <= s.len(),
    ensures
        p <= path_end(s, p) <= s.len(),
    decreases s.len() - p,
{
    if at(s, p) == Some(':') && at(s, p + 1) == Some(':') {
        lemma_run_end(s, p + 2, false);
        lemma_path_end(s, run_end(s, p + 2, false));
    }
}

pub proof fn lemma_skip_ws(s: Seq<u8>, p: nat, in_comment: bool)
    requires
        p <= s.len(),
    ensures
        p <= skip_ws(s, p, in_comment) <= s.len(),
    decreases s.len() - p, (if in_comment { 1int } else { 0int }),
{
    if p < s.len() {
        if in_comment {
            if s[p as int] == 10u8 {
                lemma_skip_ws(s, p, false);
            } else {
                lemma_skip_ws(s, p + 1, true);
            }
        } else {
            let c = s[p as int] as char;
            if is_ws(c) {
                lemma_skip_ws(s, p + 1, false);
            } else if c == '#' || (c == '/' && at(s, p + 1) == Some('/')) {
                lemma_skip_ws(s, p + 1, true);
            }
        }
    }
}

pub open spec fn step_within(st: Step, q: nat, len: nat) -> bool {
    match st {
        Step::Tok(_, e) => q < e <= len,
        Step::Fail(_, ep) => ep <= len,
        Step::Panic => true,
    }
}

pub proof fn lemma_lex_str(s: Seq<u8>, p: nat, parts: Seq<PartSpec>, buf: Seq<char>, q: nat)
    requires
        q < p <= s.len(),
    ensures
        step_within(lex_str(s, p, parts, buf), q, s.len()),
        !(lex_str(s, p, parts, buf) is Panic),
    decreases s.len() - p,
{
    if p < s.len() {
        let c = s[p as int] as char;
        if c == '\\' {
            if p + 1 < s.len() {
                lemma_lex_str(s, p + 2, parts, buf.push(unescape_dq(s[(p + 1) as int] as char)), q);
            }
        } else if c == '$' {
            lemma_run_end(s, p + 1, true);
            let e = run_end(s, p + 1, true);
            let name = chars_of(s.subrange((p + 1) as int, e as int));
            let parts2 = if buf.len() > 0 {
                parts.push(PartSpec::Lit(buf))
            } else {
                parts
            };
            if name.len() == 0 {
                lemma_lex_str(s, e, parts2, seq!['$'], q);
            } else {
                lemma_lex_str(s, e, parts2.push(PartSpec::Var(name)), seq![], q);
            }
        } else if c != '"' {
            lemma_lex_str(s, p + 1, parts, buf.push(c), q);
        }
    }
}

pub proof fn lemma_lex_raw(s: Seq<u8>, p: nat, buf: Seq<char>, q: nat)
    requires
        q < p <= s.len(),
    ensures
        step_within(lex_raw(s, p, buf), q, s.len()),
    decreases s.len() - p,
{
    if p < s.len() {
        let c = s[p as int] as char;
        if c == '\\' {
            if p + 1 < s.len() {
                lemma_lex_raw(s, p + 2, buf.push(unescape_sq(s[(p + 1) as int] as char)), q);
            }
        } else if c != '\'' {
            lemma_lex_raw(s, p + 1, buf.push(c), q);
        }
    }
}

pub proof fn lemma_lex_token(s: Seq<u8>, q: nat)
    requires
        q < s.len(),
    ensures
        step_within(lex_token(s, q), q, s.len()),
{
    let c = s[q as int] as char;
    if c == '"' {
        lemma_lex_str(s, q + 1, seq![], seq![], q);
    } else if c == '\'' {
        lemma_lex_raw(s, q + 1, seq![], q);
    } else if c == '@' {
        if q + 1 < s.len() && (alphabetic(s[(q + 1) as int] as char) || s[(q + 1) as int] as char
            == '_') {
            lemma_run_end(s, q + 2, false);
            lemma_line_end(s, run_end(s, q + 2, false));
        }
    } else if is_ascii_digit_char(c) {
        lemma_digit_end(s, q);
        let e1 = digit_end(s, q);
        if e1 + 1 < s.len() {
            lemma_digit_end(s, e1 + 1);
        }
    } else if alphabetic(c) || c == '_' {
        lemma_run_end(s, q + 1, false);
        lemma_path_end(s, run_end(s, q + 1, false));
    }
}

// ---------------------------------------------------------------------------
// The lexer
// ---------------------------------------------------------------------------

/// `r` is what the step `st` describes, the lexer having moved to `pos`.
pub open spec fn step_result(st: Step, r: Result<TokenKind, LexError>, s: Seq<u8>, pos: nat) -> bool {
    match st {
        Step::Tok(k, e) => r matches Ok(kind) && kind_matches(kind, k) && pos == e,
        Step::Fail(m, ep) => r matches Err(err) && err.message@ == m && line_col(s, ep) == (
        err.line as nat, err.col as nat),
        Step::Panic => false,
    }
}

/// `r` is what `st` describes; `None` stands for an abort.
pub open spec fn step_outcome(st: Step, r: Option<Result<TokenKind, LexError>>, s: Seq<u8>, pos: nat) -> bool {
    match st {
        Step::Panic => r is None,
        _ => r matches Some(x) && step_result(st, x, s, pos),
    }
}

/// `k` is the token that `st` describes (which is no error); `None` stands for an
/// abort.
pub open spec fn kind_outcome(st: Step, k: Option<TokenKind>, pos: nat) -> bool {
    match st {
        Step::Tok(d, e) => k matches Some(t) && kind_matches(t, d) && pos == e,
        Step::Fail(_, _) => false,
        Step::Panic => k is None,
    }
}

/// The tokens match the model's tokens: same kinds, and each at the line and column of its
/// start.
pub open spec fn tokens_match(ts: Seq<Token>, ds: Seq<(KindSpec, nat)>, s: Seq<u8>) -> bool {
    &&& ts.len() == ds.len()
    &&& forall|i: int|
        0 <= i < ts.len() ==> {
            &&& kind_matches(#[trigger] ts[i].kind, ds[i].0)
            &&& line_col(s, ds[i].1) == (ts[i].line as nat, ts[i].col as nat)
        }
}

pub open spec fn run_result(run: LexRun, r: Result<Vec<Token>, LexError>, s: Seq<u8>) -> bool {
    match run {
        LexRun::Done(ds) => r matches Ok(ts) && tokens_match(ts@, ds, s),
        LexRun::Failed(m, ep) => r matches Err(err) && err.message@ == m && line_col(s, ep) == (
        err.line as nat, err.col as nat),
        LexRun::Panicked => false,
    }
}

pub open spec fn prefix_run(acc: Seq<(KindSpec, nat)>, run: LexRun) -> LexRun {
    match run {
        LexRun::Done(ts) => LexRun::Done(acc + ts),
        other => other,
    }
}

impl<'a> Lexer<'a> {
    /// The bytes being read.
    pub closed spec fn input(&self) -> Seq<u8> {
        self.src@
    }

    /// The position of the next byte to read.
    pub closed spec fn position(&self) -> nat {
        self.pos as nat
    }

    /// The position lies within the input and the line and column are those of the position.
    pub closed spec fn wf(&self) -> bool {
        &&& self.src@.len() < usize::MAX
        &&& self.pos <= self.src@.len()
        &&& line_col(self.src@, self.pos as nat) == (self.line as nat, self.col as nat)
    }

    pub fn new(src: &'a str) -> (r: Self)
        requires
            src.spec_bytes().len() < usize::MAX,
        ensures
            r.wf(),
            r.input() == src.spec_bytes(),
            r.position() == 0,
    {
        Lexer { src: src.as_bytes(), pos: 0, line: 1, col: 1 }
    }

    /// Reads all tokens from the current position on; the last one is `Eof`.
    pub fn tokenize(self) -> (r: Result<Vec<Token>, LexError>)
        requires
            self.wf(),
            !(tokens_from(self.input(), self.position()) is Panicked),
        ensures
            run_result(tokens_from(self.input(), self.position()), r, self.input()),
    {
        match self.run() {
            Some(r) => r,
            None => vstd::pervasive::unreached(),
        }
    }

    /// Reads all tokens from the current position on, as `tokenize` does; `None` where
    /// reading would meet an identifier or directive whose bytes are not valid UTF-8.
    pub fn try_tokenize(self) -> (r: Option<Result<Vec<Token>, LexError>>)
        requires
            self.wf(),
        ensures
            r is None <==> tokens_from(self.input(), self.position()) is Panicked,
            r matches Some(x) ==> run_result(tokens_from(self.input(), self.position()), x, self.input()),
    {
        self.run()
    }

    /// Whether reading the input would meet an identifier or directive whose bytes are not
    /// valid UTF-8, on which `tokenize` is not to be called.
    pub fn would_abort(self) -> (b: bool)
        requires
            self.wf(),
        ensures
            b == (tokens_from(self.input(), self.position()) is Panicked),
    {
        self.run().is_none()
    }

    fn run(self) -> (r: Option<Result<Vec<Token>, LexError>>)
        requires
            self.wf(),
        ensures
            r is None <==> tokens_from(self.input(), self.position()) is Panicked,
            r matches Some(x) ==> run_result(tokens_from(self.input(), self.position()), x, self.input()),
    {
        let mut lexer = self;
        let ghost s = lexer.src@;
        let ghost p0 = lexer.pos as nat;
        let mut tokens: Vec<Token> = Vec::new();
        let mut out: Option<Result<Vec<Token>, LexError>> = None;
        let ghost mut acc: Seq<(KindSpec, nat)> = seq![];
        loop
            invariant_except_break
                lexer.wf(),
                lexer.src@ == s,
                tokens_match(tokens@, acc, s),
                prefix_run(acc, tokens_from(s, lexer.pos as nat)) == tokens_from(s, p0),
            ensures
                out is None <==> tokens_from(s, p0) is Panicked,
                out matches Some(x) ==> run_result(tokens_from(s, p0), x, s),
            decreases s.len() - lexer.pos,
        {
            let ghost p = lexer.pos as nat;
            proof {
                lemma_skip_ws(s, p, false);
            }
            lexer.skip_whitespace_and_comments();
            let line = lexer.line;
            let col = lexer.col;
            let ghost q = lexer.pos as nat;
            let c = match lexer.peek() {
                Some(c) => c,
                None => {
                    let ghost d = (KindSpec::Simple(TokenKind::Eof), q);
                    let ghost old_tokens = tokens@;
                    tokens.push(Token { kind: TokenKind::Eof, line, col });
                    proof {
                        assert(tokens_from(s, p) == LexRun::Done(seq![d]));
                        assert(acc + seq![d] == acc.push(d));
                        assert forall|i: int| 0 <= i < old_tokens.len() implies tokens@[i] == old_tokens[i] by {}
                        acc = acc.push(d);
                        assert(tokens_match(tokens@, acc, s));
                    }
                    out = Some(Ok(tokens));
                    break ;
                },
            };
            proof {
                lemma_lex_token(s, q);
            }
            let kind = match lexer.next_kind(c) {
                Some(Ok(k)) => k,
                Some(Err(e)) => {
                    out = Some(Err(e));
                    break ;
                },
                None => {
                    out = None;
                    break ;
                },
            };
            let ghost d = (lex_token(s, q)->Tok_0, q);
            let ghost old_tokens = tokens@;
            tokens.push(Token { kind, line, col });
            proof {
                let e = lexer.pos as nat;
                let rest = match tokens_from(s, e) {
                    LexRun::Done(ts) => ts,
                    _ => seq![],
                };
                assert(acc + (seq![d] + rest) == acc.push(d) + rest);
                assert forall|i: int| 0 <= i < old_tokens.len() implies tokens@[i] == old_tokens[i] by {}
                acc = acc.push(d);
                assert(tokens_match(tokens@, acc, s));
            }
        }
        out
    }

    fn peek(&self) -> (r: Option<char>)
        requires
            self.wf(),
        ensures
            r == at(self.src@, self.pos as nat),
    {
        if self.pos < self.src.len() {
            Some(self.src[self.pos] as char)
        } else {
            None
        }
    }

    fn peek_at(&self, off: usize) -> (r: Option<char>)
        requires
            self.wf(),
            off <= 2,
        ensures
            r == at(self.src@, (self.pos + off) as nat),
    {
        if off < self.src.len() - self.pos {
            Some(self.src[self.pos + off] as char)
        } else {
            None
        }
    }

    fn advance(&mut self) -> (r: Option<char>)
        requires
            old(self).wf(),
        ensures
            final(self).wf(),
            final(self).src@ == old(self).src@,
            r == at(old(self).src@, old(self).pos as nat),
            r is Some ==> final(self).pos == old(self).pos + 1,
            r is None ==> final(self).pos == old(self).pos,
    {
        let c = self.peek()?;
        proof {
            lemma_line_col_bounds(self.src@, self.pos as nat);
        }
        self.pos += 1;
        if c == '\n' {
            self.line += 1;
            self.col = 1;
        } else {
            self.col += 1;
        }
        Some(c)
    }

    fn err(&self, msg: &str) -> (e: LexError)
        ensures
            e.message@ == msg@,
            e.line == self.line,
            e.col == self.col,
    {
        LexError { message: String::from_str(msg), line: self.line, col: self.col }
    }

    fn skip_whitespace_and_comments(&mut self)
        requires
            old(self).wf(),
        ensures
            final(self).wf(),
            final(self).src@ == old(self).src@,
            final(self).pos == skip_ws(final(self).src@, old(self).pos as nat, false),
    {
        let ghost s = self.src@;
        let ghost target = skip_ws(s, self.pos as nat, false);
        loop
            invariant
                self.wf(),
                self.src@ == s,
                skip_ws(s, self.pos as nat, false) == target,
            ensures
                self.wf(),
                self.src@ == s,
                self.pos == target,
            decreases s.len() - self.pos,
        {
            match self.peek() {
                Some(c) => {
                    if is_whitespace(c) {
                        self.advance();
                    } else if c == '#' || (c == '/' && self.peek_at(1) == Some('/')) {
                        self.skip_comment();
                    } else {
                        break ;
                    }
                },
                None => break ,
            }
        }
    }

    /// Reads the token that starts at the current byte `c` (not whitespace, no comment).
    fn next_kind(&mut self, c: char) -> (r: Option<Result<TokenKind, LexError>>)
        requires
            old(self).wf(),
            old(self).pos < old(self).src@.len(),
            c == old(self).src@[old(self).pos as int] as char,
        ensures
            final(self).wf(),
            final(self).src@ == old(self).src@,
            step_outcome(lex_token(old(self).src@, old(self).pos as nat), r, final(self).src@,
                final(self).pos as nat),
    {
        let ghost s = self.src@;
        let ghost q = self.pos as nat;
        let kind = match c {
            '"' => {
                proof {
                    lemma_lex_str(s, q + 1, seq![], seq![], q);
                }
                return Some(self.lex_interpolated_string());
            },
            '\'' => return Some(self.lex_raw_or_char()),
            '$' => {
                self.advance();
                TokenKind::Dollar
            },
            '(' => {
                self.advance();
                TokenKind::LParen
            },
            ')' => {
                self.advance();
                TokenKind::RParen
            },
            '{' => {
                self.advance();
                TokenKind::LBrace
            },
            '}' => {
                self.advance();
                TokenKind::RBrace
            },
            '[' => {
                self.advance();
                TokenKind::LBracket
            },
            ']' => {
                self.advance();
                TokenKind::RBracket
            },
            ',' => {
                self.advance();
                TokenKind::Comma
            },
            ':' => {
                self.advance();
                TokenKind::Colon
            },
            ';' => {
                self.advance();
                TokenKind::Semi
            },
            '.' => {
                if self.peek_at(1) == Some('.') && self.peek_at(2) == Some('.') {
                    self.advance();
                    self.advance();
                    self.advance();
                    TokenKind::Ellipsis
                } else {
                    self.advance();
                    TokenKind::Dot
                }
            },
            '+' => {
                self.advance();
                TokenKind::Plus
            },
            '-' => {
                self.advance();
                if self.peek() == Some('>') {
                    self.advance();
                    TokenKind::Arrow
                } else {
                    TokenKind::Minus
                }
            },
            '*' => {
                self.advance();
                TokenKind::Star
            },
            '/' => {
                self.advance();
                TokenKind::Slash
            },
            '=' => {
                self.advance();
                if self.peek() == Some('=') {
                    self.advance();
                    TokenKind::EqEq
                } else {
                    TokenKind::Eq
                }
            },
            '!' => {
                self.advance();
                if self.peek() == Some('=') {
                    self.advance();
                    TokenKind::NotEq
                } else {
                    TokenKind::Not
                }
            },
            '<' => {
                self.advance();
                if self.peek() == Some('=') {
                    self.advance();
                    TokenKind::Le
                } else {
                    TokenKind::Lt
                }
            },
            '>' => {
                self.advance();
                if self.peek() == Some('=') {
                    self.advance();
                    TokenKind::Ge
                } else {
                    TokenKind::Gt
                }
            },
            '&' => {
                self.advance();
                if self.peek() == Some('&') {
                    self.advance();
                    TokenKind::AndAnd
                } else {
                    return Some(Err(self.err("unexpected '&'")));
                }
            },
            '|' => {
                self.advance();
                if self.peek() == Some('|') {
                    self.advance();
                    TokenKind::OrOr
                } else {
                    return Some(Err(self.err("unexpected '|' (shell pipes not lexed here)")));
                }
            },
            '@' => match self.lex_directive_or_at() {
                Some(k) => k,
                None => return None,
            },
            c if is_ascii_digit(c) => return Some(self.lex_number()),
            c if char_is_alphabetic(c) || c == '_' => match self.lex_ident_or_keyword() {
                Some(k) => k,
                None => return None,
            },
            _ => {
                let mut msg = str_chars("unexpected character '");
                msg.push(c);
                msg.push('\'');
                assert(msg@ =~= "unexpected character '"@ + seq![c, '\'']);
                let e = LexError { message: chars_to_string(&msg), line: self.line, col: self.col };
                return Some(Err(e));
            },
        };
        Some(Ok(kind))
    }

    /// A double-quoted string; `$name` pieces (name characters: alphanumeric, `_`, `.`)
    /// become variable references.
    fn lex_interpolated_string(&mut self) -> (r: Result<TokenKind, LexError>)
        requires
            old(self).wf(),
            old(self).pos < old(self).src@.len(),
            old(self).src@[old(self).pos as int] as char == '"',
            !(lex_str(old(self).src@, (old(self).pos + 1) as nat, seq![], seq![]) is Panic),
        ensures
            final(self).wf(),
            final(self).src@ == old(self).src@,
            step_result(lex_str(old(self).src@, (old(self).pos + 1) as nat, seq![], seq![]), r,
                final(self).src@, final(self).pos as nat),
    {
        let ghost s = self.src@;
        let ghost target = lex_str(s, (self.pos + 1) as nat, seq![], seq![]);
        self.advance();
        let mut parts: Vec<StrPart> = Vec::new();
        let mut buf: Vec<char> = Vec::new();
        proof {
            assert(parts_view(parts@) =~= seq![]);
        }
        loop
            invariant
                self.wf(),
                self.src@ == s,
                lex_str(s, self.pos as nat, parts_view(parts@), buf@) == target,
                !(target is Panic),
                s == old(self).src@,
                target == lex_str(old(self).src@, (old(self).pos + 1) as nat, seq![], seq![]),
            decreases s.len() - self.pos,
        {
            let ghost p = self.pos as nat;
            let c = match self.peek() {
                Some(c) => c,
                None => return Err(self.err("unterminated string literal")),
            };
            if c == '"' {
                self.advance();
                if buf.len() > 0 || parts.len() == 0 {
                    let lit = StrPart::Literal(chars_to_string(&buf));
                    proof {
                        assert(parts_view(parts@.push(lit)) =~= parts_view(parts@).push(lit@));
                    }
                    parts.push(lit);
                }
                return Ok(TokenKind::Str(parts));
            } else if c == '\\' {
                self.advance();
                match self.advance() {
                    Some('n') => buf.push('\n'),
                    Some('t') => buf.push('\t'),
                    Some(other) => buf.push(other),
                    None => return Err(self.err("unterminated escape sequence")),
                }
            } else if c == '$' {
                self.advance();
                let ghost p1 = self.pos as nat;
                proof {
                    lemma_run_end(s, p1, true);
                }
                let ghost parts2 = if buf@.len() > 0 {
                    parts_view(parts@).push(PartSpec::Lit(buf@))
                } else {
                    parts_view(parts@)
                };
                if buf.len() > 0 {
                    let lit = StrPart::Literal(chars_to_string(&buf));
                    proof {
                        assert(parts_view(parts@.push(lit)) =~= parts_view(parts@).push(lit@));
                    }
                    parts.push(lit);
                    buf = Vec::new();
                }
                let name = self.lex_var_name();
                if name.len() == 0 {
                    buf.push('$');
                    assert(buf@ =~= seq!['$']);
                } else {
                    let var = StrPart::Var(chars_to_string(&name));
                    proof {
                        assert(parts_view(parts@.push(var)) =~= parts_view(parts@).push(var@));
                    }
                    parts.push(var);
                    assert(buf@ =~= seq![]);
                }
                assert(parts_view(parts@) == (if name@.len() == 0 {
                    parts2
                } else {
                    parts2.push(PartSpec::Var(name@))
                }));
            } else {
                buf.push(c);
                self.advance();
            }
        }
    }

    /// A single-quoted literal: a `Char` when it holds exactly one character, else a `RawStr`.
    fn lex_raw_or_char(&mut self) -> (r: Result<TokenKind, LexError>)
        requires
            old(self).wf(),
            old(self).pos < old(self).src@.len(),
            old(self).src@[old(self).pos as int] as char == '\'',
        ensures
            final(self).wf(),
            final(self).src@ == old(self).src@,
            step_result(lex_raw(old(self).src@, (old(self).pos + 1) as nat, seq![]), r, final(self).src@,
                final(self).pos as nat),
    {
        let ghost s = self.src@;
        let ghost target = lex_raw(s, (self.pos + 1) as nat, seq![]);
        self.advance();
        let mut buf: Vec<char> = Vec::new();
        loop
            invariant
                self.wf(),
                self.src@ == s,
                lex_raw(s, self.pos as nat, buf@) == target,
                s == old(self).src@,
                target == lex_raw(old(self).src@, (old(self).pos + 1) as nat, seq![]),
            decreases s.len() - self.pos,
        {
            let c = match self.peek() {
                Some(c) => c,
                None => return Err(self.err("unterminated raw string/char literal")),
            };
            if c == '\'' {
                self.advance();
                if buf.len() == 1 {
                    return Ok(TokenKind::Char(buf[0]));
                } else {
                    return Ok(TokenKind::RawStr(chars_to_string(&buf)));
                }
            } else if c == '\\' {
                self.advance();
                match self.advance() {
                    Some('n') => buf.push('\n'),
                    Some(other) => buf.push(other),
                    None => return Err(self.err("unterminated escape sequence")),
                }
            } else {
                buf.push(c);
                self.advance();
            }
        }
    }

    /// A run of digits, with an optional `.digits` part.
    fn lex_number(&mut self) -> (r: Result<TokenKind, LexError>)
        requires
            old(self).wf(),
            old(self).pos < old(self).src@.len(),
            is_ascii_digit_char(old(self).src@[old(self).pos as int] as char),
        ensures
            final(self).wf(),
            final(self).src@ == old(self).src@,
            step_result(lex_number(old(self).src@, old(self).pos as nat), r, final(self).src@,
                final(self).pos as nat),
    {
        let ghost s = self.src@;
        let start = self.pos;
        proof {
            lemma_digit_end(s, start as nat);
        }
        self.skip_digits();
        let mut is_float = false;
        if self.peek() == Some('.') {
            match self.peek_at(1) {
                Some(d) => {
                    if is_ascii_digit(d) {
                        is_float = true;
                        self.advance();
                        proof {
                            lemma_digit_end(s, self.pos as nat);
                        }
                        self.skip_digits();
                    }
                },
                None => {},
            }
        }
        if is_float {
            let mut text: Vec<char> = Vec::new();
            let mut i = start;
            while i < self.pos
                invariant
                    self.wf(),
                    self.src@ == s,
                    start <= i <= self.pos,
                    text@ == chars_of(s.subrange(start as int, i as int)),
                decreases self.pos - i,
            {
                text.push(self.src[i] as char);
                i = i + 1;
                assert(text@ =~= chars_of(s.subrange(start as int, i as int)));
            }
            Ok(TokenKind::Float(chars_to_string(&text)))
        } else {
            let mut value: Option<i64> = Some(0);
            let mut i = start;
            while i < self.pos
                invariant
                    self.wf(),
                    self.src@ == s,
                    start <= i <= self.pos,
                    self.pos == digit_end(s, start as nat),
                    forall|j: int| start <= j < self.pos ==> is_ascii_digit_char(#[trigger] s[j] as char),
                    value matches Some(v) ==> v == digits_value(s.subrange(start as int, i as int)),
                    value is None ==> digits_value(s.subrange(start as int, i as int)) > i64::MAX,
                decreases self.pos - i,
            {
                let d = (self.src[i] - 48) as i64;
                let ghost prefix = s.subrange(start as int, i as int);
                assert(s.subrange(start as int, i + 1).drop_last() =~= prefix);
                value = match value {
                    Some(v) => match v.checked_mul(10) {
                        Some(v10) => v10.checked_add(d),
                        None => None,
                    },
                    None => None,
                };
                i = i + 1;
            }
            match value {
                Some(v) => Ok(TokenKind::Number(v)),
                None => Err(self.err("invalid integer literal")),
            }
        }
    }

    /// Advances to the end of the line (not past the newline).
    fn skip_comment(&mut self)
        requires
            old(self).wf(),
            old(self).pos < old(self).src@.len(),
            old(self).src@[old(self).pos as int] != 10u8,
        ensures
            final(self).wf(),
            final(self).src@ == old(self).src@,
            final(self).pos > old(self).pos,
            skip_ws(final(self).src@, final(self).pos as nat, false) == skip_ws(
                old(self).src@,
                old(self).pos as nat,
                true,
            ),
    {
        let ghost s = self.src@;
        let ghost p0 = self.pos;
        let ghost target = skip_ws(s, self.pos as nat, true);
        loop
            invariant
                self.wf(),
                self.src@ == s,
                p0 <= self.pos,
                self.pos == p0 ==> s[p0 as int] != 10u8,
                p0 < s.len(),
                skip_ws(s, self.pos as nat, true) == target,
            ensures
                self.wf(),
                self.src@ == s,
                self.pos > p0,
                skip_ws(s, self.pos as nat, false) == target,
            decreases s.len() - self.pos,
        {
            match self.peek() {
                Some(c) => {
                    if c == '\n' {
                        break ;
                    }
                    self.advance();
                },
                None => break ,
            }
        }
    }

    /// The name after `$` in a string: alphanumeric characters, `_` and `.`.
    fn lex_var_name(&mut self) -> (name: Vec<char>)
        requires
            old(self).wf(),
        ensures
            final(self).wf(),
            final(self).src@ == old(self).src@,
            final(self).pos == run_end(old(self).src@, old(self).pos as nat, true),
            name@ == chars_of(old(self).src@.subrange(old(self).pos as int, final(self).pos as int)),
    {
        let ghost s = self.src@;
        let ghost p1 = self.pos as nat;
        let mut name: Vec<char> = Vec::new();
        loop
            invariant
                self.wf(),
                self.src@ == s,
                p1 <= self.pos,
                run_end(s, self.pos as nat, true) == run_end(s, p1, true),
                name@ == chars_of(s.subrange(p1 as int, self.pos as int)),
            ensures
                self.wf(),
                self.src@ == s,
                self.pos == run_end(s, p1, true),
                name@ == chars_of(s.subrange(p1 as int, self.pos as int)),
            decreases s.len() - self.pos,
        {
            match self.peek() {
                Some(d) => {
                    if char_is_alphanumeric(d) || d == '_' || d == '.' {
                        name.push(d);
                        self.advance();
                        assert(name@ =~= chars_of(s.subrange(p1 as int, self.pos as int)));
                    } else {
                        break ;
                    }
                },
                None => break ,
            }
        }
        name
    }

    fn skip_digits(&mut self)
        requires
            old(self).wf(),
        ensures
            final(self).wf(),
            final(self).src@ == old(self).src@,
            final(self).pos == digit_end(final(self).src@, old(self).pos as nat),
    {
        let ghost s = self.src@;
        let ghost target = digit_end(s, self.pos as nat);
        loop
            invariant
                self.wf(),
                self.src@ == s,
                digit_end(s, self.pos as nat) == target,
            ensures
                self.wf(),
                self.src@ == s,
                self.pos == target,
            decreases s.len() - self.pos,
        {
            match self.peek() {
                Some(c) => {
                    if is_ascii_digit(c) {
                        self.advance();
                    } else {
                        break ;
                    }
                },
                None => break ,
            }
        }
    }

    /// Advances over alphanumeric characters and `_`.
    fn skip_name(&mut self)
        requires
            old(self).wf(),
        ensures
            final(self).wf(),
            final(self).src@ == old(self).src@,
            final(self).pos == run_end(final(self).src@, old(self).pos as nat, false),
    {
        let ghost s = self.src@;
        let ghost target = run_end(s, self.pos as nat, false);
        loop
            invariant
                self.wf(),
                self.src@ == s,
                run_end(s, self.pos as nat, false) == target,
            ensures
                self.wf(),
                self.src@ == s,
                self.pos == target,
            decreases s.len() - self.pos,
        {
            match self.peek() {
                Some(c) => {
                    if char_is_alphanumeric(c) || c == '_' {
                        self.advance();
                    } else {
                        break ;
                    }
                },
                None => break ,
            }
        }
    }

    /// An identifier (with `::` paths folded in) or a keyword: a word is a keyword when its
    /// upper case spells one.
    fn lex_ident_or_keyword(&mut self) -> (k: Option<TokenKind>)
        requires
            old(self).wf(),
            old(self).pos < old(self).src@.len(),
        ensures
            final(self).wf(),
            final(self).src@ == old(self).src@,
            kind_outcome(lex_word(old(self).src@, old(self).pos as nat), k, final(self).pos as nat),
    {
        let ghost s = self.src@;
        let start = self.pos;
        // the first character is alphabetic or `_`, so it belongs to the name
        self.advance();
        self.skip_name();
        proof {
            lemma_run_end(s, (start + 1) as nat, false);
        }
        loop
            invariant
                self.wf(),
                self.src@ == s,
                start < self.pos,
                path_end(s, self.pos as nat) == path_end(s, run_end(s, (start + 1) as nat, false)),
            ensures
                self.wf(),
                self.src@ == s,
                start < self.pos,
                self.pos == path_end(s, run_end(s, (start + 1) as nat, false)),
            decreases s.len() - self.pos,
        {
            if self.peek() == Some(':') && self.peek_at(1) == Some(':') {
                proof {
                    lemma_run_end(s, (self.pos + 2) as nat, false);
                }
                self.advance();
                self.advance();
                self.skip_name();
            } else {
                break ;
            }
        }
        match utf8_to_string(self.src, start, self.pos) {
            Some(text) => {
                let chars = str_chars(text.as_str());
                let upper = if all_ascii(&chars) {
                    ascii_upper_vec(&chars)
                } else {
                    str_chars(str_to_uppercase(text.as_str()).as_str())
                };
                match keyword_of(&upper) {
                    Some(k) => Some(k),
                    None => Some(TokenKind::Ident(text)),
                }
            },
            None => None,
        }
    }

    /// A directive such as `@main` (with the rest of its line), or a bare `@`.
    fn lex_directive_or_at(&mut self) -> (k: Option<TokenKind>)
        requires
            old(self).wf(),
            old(self).pos < old(self).src@.len(),
        ensures
            final(self).wf(),
            final(self).src@ == old(self).src@,
            kind_outcome(lex_directive(old(self).src@, old(self).pos as nat), k, final(self).pos as nat),
    {
        let ghost s = self.src@;
        self.advance();
        match self.peek() {
            Some(c) => {
                if !(char_is_alphabetic(c) || c == '_') {
                    return Some(TokenKind::At);
                }
            },
            None => return Some(TokenKind::At),
        }
        let start = self.pos;
        self.advance();
        self.skip_name();
        let name_end = self.pos;
        proof {
            lemma_run_end(s, (start + 1) as nat, false);
        }
        loop
            invariant
                self.wf(),
                self.src@ == s,
                name_end <= self.pos,
                line_end(s, self.pos as nat) == line_end(s, name_end as nat),
            ensures
                self.wf(),
                self.src@ == s,
                self.pos == line_end(s, name_end as nat),
            decreases s.len() - self.pos,
        {
            match self.peek() {
                Some(c) => {
                    if c != '\n' {
                        self.advance();
                    } else {
                        break ;
                    }
                },
                None => break ,
            }
        }
        let name = utf8_to_string(self.src, start, name_end);
        let rest = utf8_to_string(self.src, name_end, self.pos);
        match (name, rest) {
            (Some(name), Some(rest)) => {
                let mut full: Vec<char> = Vec::new();
                full.push('@');
                let mut name_chars = str_chars(name.as_str());
                let ghost nm = name_chars@;
                full.append(&mut name_chars);
                assert(full@ =~= seq!['@'] + nm);
                let rest_chars = str_chars(rest.as_str());
                let mut rest_trimmed = trim_chars(&rest_chars);
                let ghost rt = rest_trimmed@;
                if rest_trimmed.len() > 0 {
                    full.push(' ');
                    full.append(&mut rest_trimmed);
                    assert(full@ =~= seq!['@'] + nm + seq![' '] + rt);
                }
                assert(full@ == directive_text(nm, rt));
                Some(TokenKind::Directive(chars_to_string(&full)))
            },
            _ => None,
        }
    }
}

/// Whether `c` is an ASCII decimal digit.
fn is_ascii_digit(c: char) -> (b: bool)
    ensures
        b == is_ascii_digit_char(c),
{
    '0' <= c && c <= '9'
}

/// The keyword that the upper-case text `u` spells, if any.
fn keyword_of(u: &Vec<char>) -> (r: Option<TokenKind>)
    ensures
        r == keyword(u@),
{
    if chars_eq(u, &vec!['L', 'E', 'T']) {
        Some(TokenKind::Let)
    } else if chars_eq(u, &vec!['C', 'O', 'N', 'S', 'T']) {
        Some(TokenKind::Const)
    } else if chars_eq(u, &vec!['F', 'U', 'N', 'C', 'T', 'I', 'O', 'N']) || chars_eq(u, &vec!['F', 'N']) {
        Some(TokenKind::Function)
    } else if chars_eq(u, &vec!['R', 'E', 'T', 'U', 'R', 'N']) {
        Some(TokenKind::Return)
    } else if chars_eq(u, &vec!['I', 'F']) {
        Some(TokenKind::If)
    } else if chars_eq(u, &vec!['E', 'L', 'I', 'F']) {
        Some(TokenKind::Elif)
    } else if chars_eq(u, &vec!['E', 'L', 'S', 'E']) {
        Some(TokenKind::Else)
    } else if chars_eq(u, &vec!['W', 'H', 'I', 'L', 'E']) {
        Some(TokenKind::While)
    } else if chars_eq(u, &vec!['L', 'O', 'O', 'P']) {
        Some(TokenKind::Loop)
    } else if chars_eq(u, &vec!['F', 'O', 'R']) {
        Some(TokenKind::For)
    } else if chars_eq(u, &vec!['F', 'O', 'R', 'E', 'A', 'C', 'H']) {
        Some(TokenKind::Foreach)
    } else if chars_eq(u, &vec!['I', 'N']) {
        Some(TokenKind::In)
    } else if chars_eq(u, &vec!['B', 'R', 'E', 'A', 'K']) {
        Some(TokenKind::Break)
    } else if chars_eq(u, &vec!['C', 'O', 'N', 'T', 'I', 'N', 'U', 'E']) {
        Some(TokenKind::Continue)
    } else if chars_eq(u, &vec!['T', 'R', 'Y']) {
        Some(TokenKind::Try)
    } else if chars_eq(u, &vec!['C', 'A', 'T', 'C', 'H']) {
        Some(TokenKind::Catch)
    } else if chars_eq(u, &vec!['S', 'T', 'R', 'U', 'C', 'T']) {
        Some(TokenKind::Struct)
    } else if chars_eq(u, &vec!['E', 'N', 'U', 'M']) {
        Some(TokenKind::Enum)
    } else if chars_eq(u, &vec!['S', 'C', 'A', 'N']) {
        Some(TokenKind::Scan)
    } else if chars_eq(u, &vec!['S', 'W', 'I', 'T', 'C', 'H']) {
        Some(TokenKind::Switch)
    } else if chars_eq(u, &vec!['D', 'E', 'F', 'A', 'U', 'L', 'T']) {
        Some(TokenKind::Default)
    } else if chars_eq(u, &vec!['O', 'F']) {
        Some(TokenKind::Of)
    } else if chars_eq(u, &vec!['O', 'N']) {
        Some(TokenKind::On)
    } else if chars_eq(u, &vec!['C', 'O', 'U', 'N', 'T']) {
        Some(TokenKind::Count)
    } else if chars_eq(u, &vec!['I', 'N', 'T', 'E', 'R', 'V', 'A', 'L']) {
        Some(TokenKind::Interval)
    } else if chars_eq(u, &vec!['C', 'H', 'A', 'I', 'N']) {
        Some(TokenKind::Chain)
    } else if chars_eq(u, &vec!['T', 'R', 'U', 'E']) {
        Some(TokenKind::True)
    } else if chars_eq(u, &vec!['F', 'A', 'L', 'S', 'E']) {
        Some(TokenKind::False)
    } else if chars_eq(u, &vec!['N', 'O', 'R', 'E', 'T']) {
        Some(TokenKind::Noret)
    } else if chars_eq(u, &vec!['M', 'A', 'I', 'N', '_', 'F', 'U', 'N', 'C', 'T', 'I', 'O', 'N']) {
        Some(TokenKind::MainFunction)
    } else {
        None
    }
}

} // verus!

verus! {

// ---------------------------------------------------------------------------
// Laws
// ---------------------------------------------------------------------------

proof fn lemma_lex_str_kind(s: Seq<u8>, p: nat, parts: Seq<PartSpec>, buf: Seq<char>)
    ensures
        lex_str(s, p, parts, buf) matches Step::Tok(k, _) ==> k is Str,
    decreases s.len() - p,
{
    if p < s.len() {
        let c = s[p as int] as char;
        if c == '\\' {
            if p + 1 < s.len() {
                lemma_lex_str_kind(s, p + 2, parts, buf.push(unescape_dq(s[(p + 1) as int] as char)));
            }
        } else if c == '$' {
            let e = run_end(s, p + 1, true);
            let parts2 = if buf.len() > 0 {
                parts.push(PartSpec::Lit(buf))
            } else {
                parts
            };
            if p < e <= s.len() {
                lemma_lex_str_kind(s, e, parts2, seq!['$']);
                lemma_lex_str_kind(
                    s,
                    e,
                    parts2.push(PartSpec::Var(chars_of(s.subrange((p + 1) as int, e as int)))),
                    seq![],
                );
            }
        } else if c != '"' {
            lemma_lex_str_kind(s, p + 1, parts, buf.push(c));
        }
    }
}

proof fn lemma_lex_raw_kind(s: Seq<u8>, p: nat, buf: Seq<char>)
    ensures
        lex_raw(s, p, buf) matches Step::Tok(k, _) ==> (k is Char || k is RawStr),
    decreases s.len() - p,
{
    if p < s.len() {
        let c = s[p as int] as char;
        if c == '\\' {
            if p + 1 < s.len() {
                lemma_lex_raw_kind(s, p + 2, buf.push(unescape_sq(s[(p + 1) as int] as char)));
            }
        } else if c != '\'' {
            lemma_lex_raw_kind(s, p + 1, buf.push(c));
        }
    }
}

/// No token read from the input is the end-of-input token.
proof fn lemma_token_not_eof(s: Seq<u8>, q: nat)
    requires
        q < s.len(),
    ensures
        lex_token(s, q) matches Step::Tok(k, _) ==> k != KindSpec::Simple(TokenKind::Eof),
{
    lemma_lex_str_kind(s, q + 1, seq![], seq![]);
    lemma_lex_raw_kind(s, q + 1, seq![]);
}

/// Lexing from `p` on, when it succeeds, gives tokens in the order of their positions,
/// all at or after `p`, and the last of them, and no other, is the end-of-input token.
pub proof fn law_tokens_ordered_and_end_with_eof(s: Seq<u8>, p: nat)
    requires
        p <= s.len(),
    ensures
        tokens_from(s, p) matches LexRun::Done(ts) ==> {
            &&& ts.len() >= 1
            &&& ts.last().0 == KindSpec::Simple(TokenKind::Eof)
            &&& forall|i: int| 0 <= i < ts.len() - 1 ==> (#[trigger] ts[i]).0 != KindSpec::Simple(
                TokenKind::Eof,
            )
            &&& forall|i: int| 0 <= i < ts.len() ==> (#[trigger] ts[i]).1 >= p
            &&& forall|i: int, j: int| 0 <= i < j < ts.len() ==> (#[trigger] ts[i]).1 < (
            #[trigger] ts[j]).1
        },
    decreases s.len() - p,
{
    lemma_skip_ws(s, p, false);
    let q = skip_ws(s, p, false);
    if q < s.len() {
        lemma_token_not_eof(s, q);
        lemma_lex_token(s, q);
        match lex_token(s, q) {
            Step::Tok(k, e) => {
                if p < e <= s.len() {
                    law_tokens_ordered_and_end_with_eof(s, e);
                    match tokens_from(s, e) {
                        LexRun::Done(rest) => {
                            let ts = seq![(k, q)] + rest;
                            assert(ts.last() == rest.last());
                            assert forall|i: int| 0 <= i < ts.len() - 1 implies (#[trigger] ts[i]).0
                                != KindSpec::Simple(TokenKind::Eof) by {
                                if i > 0 {
                                    assert(ts[i] == rest[i - 1]);
                                }
                            }
                            assert forall|i: int| 0 <= i < ts.len() implies (#[trigger] ts[i]).1
                                >= p by {
                                if i > 0 {
                                    assert(ts[i] == rest[i - 1]);
                                }
                            }
                            assert forall|i: int, j: int| 0 <= i < j < ts.len() implies (
                            #[trigger] ts[i]).1 < (#[trigger] ts[j]).1 by {
                                assert(ts[j] == rest[j - 1]);
                                if i > 0 {
                                    assert(ts[i] == rest[i - 1]);
                                }
                            }
                        },
                        _ => {},
                    }
                }
            },
            _ => {},
        }
    }
}

/// Keywords are recognised whatever the case of their letters: two ASCII spellings of a
/// word that differ only in the case of their letters give the same keyword token.
pub proof fn law_keywords_ignore_case(a: Seq<char>, b: Seq<char>)
    requires
        is_ascii_text(a),
        ascii_upper(a) == ascii_upper(b),
        word_kind(a) is Simple,
    ensures
        word_kind(b) == word_kind(a),
{
    assert(is_ascii_text(b)) by {
        assert(ascii_upper(a).len() == a.len() && ascii_upper(b).len() == b.len());
        assert forall|i: int| 0 <= i < b.len() implies (#[trigger] b[i] as u32) < 0x80 by {
            assert(ascii_upper(a)[i] == ascii_upper(b)[i]);
            assert((a[i] as u32) < 0x80);
            assert(ascii_upper(a)[i] == crate::text::ascii_upper_char(a[i]));
            assert(ascii_upper(b)[i] == crate::text::ascii_upper_char(b[i]));
        }
    }
}

} // verus!

verus! {

/// `a` comes before `b` in (line, column) order.
pub open spec fn before(a: (nat, nat), b: (nat, nat)) -> bool {
    a.0 < b.0 || (a.0 == b.0 && a.1 < b.1)
}

/// Lines and columns start at 1, and a later byte lies at a later (line, column).
pub proof fn lemma_line_col_increases(s: Seq<u8>, p: nat, q: nat)
    requires
        p < q,
    ensures
        before(line_col(s, p), line_col(s, q)),
        line_col(s, q).0 >= 1 && line_col(s, q).1 >= 1,
    decreases q,
{
    if q > p + 1 {
        lemma_line_col_increases(s, p, (q - 1) as nat);
    } else if p > 0 {
        lemma_line_col_increases(s, 0, p);
    }
}

/// The tokens of a successful run come in strictly increasing (line, column) order, and
/// every line and column is at least 1.
pub proof fn law_token_positions_increase(s: Seq<u8>, p: nat, ts: Seq<Token>)
    requires
        p <= s.len(),
        tokens_from(s, p) matches LexRun::Done(ds) && tokens_match(ts, ds, s),
    ensures
        forall|i: int, j: int|
            0 <= i < j < ts.len() ==> before(
                (#[trigger] ts[i].line as nat, ts[i].col as nat),
                (#[trigger] ts[j].line as nat, ts[j].col as nat),
            ),
        forall|i: int| 0 <= i < ts.len() ==> #[trigger] ts[i].line >= 1 && ts[i].col >= 1,
{
    law_tokens_ordered_and_end_with_eof(s, p);
    let ds = tokens_from(s, p)->Done_0;
    assert forall|i: int, j: int| 0 <= i < j < ts.len() implies before(
        (#[trigger] ts[i].line as nat, ts[i].col as nat),
        (#[trigger] ts[j].line as nat, ts[j].col as nat),
    ) by {
        assert(kind_matches(ts[i].kind, ds[i].0) && kind_matches(ts[j].kind, ds[j].0));
        assert(ds[i].1 < ds[j].1);
        lemma_line_col_increases(s, ds[i].1, ds[j].1);
    }
    assert forall|i: int| 0 <= i < ts.len() implies #[trigger] ts[i].line >= 1 && ts[i].col >= 1 by {
        assert(kind_matches(ts[i].kind, ds[i].0));
        if ds[i].1 == 0 {
            assert(line_col(s, 0) == (1nat, 1nat));
        } else {
            lemma_line_col_increases(s, 0, ds[i].1);
        }
    }
}

} // verus!

verus! {

/// A byte that a double-quoted string takes as it is: not `"`, `\` or `$`.
pub open spec fn plain_str_byte(b: u8) -> bool {
    b != 34u8 && b != 92u8 && b != 36u8
}

proof fn lemma_lex_str_plain(s: Seq<u8>, p: nat, m: nat, parts: Seq<PartSpec>, buf: Seq<char>)
    requires
        p <= m < s.len(),
        forall|j: int| p <= j < m ==> plain_str_byte(#[trigger] s[j]),
    ensures
        lex_str(s, p, parts, buf) == lex_str(s, m, parts, buf + chars_of(s.subrange(p as int, m as int))),
    decreases m - p,
{
    if p < m {
        let c = s[p as int];
        assert(plain_str_byte(c));
        assert(c as char != '"' && c as char != '\\' && c as char != '$');
        lemma_lex_str_plain(s, p + 1, m, parts, buf.push(c as char));
        assert(buf.push(c as char) + chars_of(s.subrange((p + 1) as int, m as int)) =~= buf + chars_of(
            s.subrange(p as int, m as int),
        ));
    } else {
        assert(buf + chars_of(s.subrange(p as int, m as int)) =~= buf);
    }
}

/// In a double-quoted string, `\n` stands for a newline and `\t` for a tab (any other
/// escaped byte for itself): a literal `"x\Ey"`, where `x` and `y` hold no `"`, `\` or `$`,
/// is one literal piece: the characters of `x`, the escaped character, those of `y`.
pub proof fn law_escapes_in_strings(s: Seq<u8>, q: nat, x: Seq<u8>, e: u8, y: Seq<u8>)
    requires
        q + x.len() + y.len() + 4 <= s.len(),
        s.subrange(q as int, (q + x.len() + y.len() + 4) as int) == seq![34u8] + x + seq![92u8, e] + y + seq![
            34u8,
        ],
        forall|j: int| 0 <= j < x.len() ==> plain_str_byte(#[trigger] x[j]),
        forall|j: int| 0 <= j < y.len() ==> plain_str_byte(#[trigger] y[j]),
    ensures
        lex_token(s, q) == Step::Tok(
            KindSpec::Str(
                seq![
                    PartSpec::Lit(
                        chars_of(x) + seq![
                            if e == 110u8 {
                                '\n'
                            } else if e == 116u8 {
                                '\t'
                            } else {
                                e as char
                            },
                        ] + chars_of(y),
                    ),
                ],
            ),
            q + x.len() + y.len() + 4,
        ),
{
    let w = seq![34u8] + x + seq![92u8, e] + y + seq![34u8];
    let n: int = x.len() as int;
    let k: int = y.len() as int;
    assert forall|j: int| 0 <= j < w.len() implies s[q + j] == #[trigger] w[j] by {
        assert(s.subrange(q as int, (q + n + k + 4) as int)[j] == s[q + j]);
    }
    assert(s[q as int] == w[0]);
    assert(s[q as int] as char == '"');
    let p1: nat = (q + 1 + n) as nat;
    assert forall|j: int| q + 1 <= j < p1 implies plain_str_byte(#[trigger] s[j]) by {
        assert(s[j] == w[j - q]);
        assert(w[j - q] == x[j - q - 1]);
    }
    lemma_lex_str_plain(s, q + 1, p1, seq![], seq![]);
    assert(s.subrange((q + 1) as int, p1 as int) =~= x) by {
        assert forall|j: int| 0 <= j < n implies s.subrange((q + 1) as int, p1 as int)[j] == x[j] by {
            assert(s[q + 1 + j] == w[1 + j]);
        }
    }
    assert(s[p1 as int] == w[1 + n]);
    assert(s[p1 as int] as char == '\\');
    assert(s[(p1 + 1) as int] == w[2 + n]);
    assert(s[(p1 + 1) as int] == e);
    let c = if e == 110u8 {
        '\n'
    } else if e == 116u8 {
        '\t'
    } else {
        e as char
    };
    assert(unescape_dq(e as char) == c);
    let buf = seq![] + chars_of(x);
    let p2: nat = p1 + 2;
    let p3: nat = (p2 + k) as nat;
    assert forall|j: int| p2 <= j < p3 implies plain_str_byte(#[trigger] s[j]) by {
        assert(s[j] == w[j - q]);
        assert(w[j - q] == y[j - q - n - 3]);
    }
    lemma_lex_str_plain(s, p2, p3, seq![], buf.push(c));
    assert(s.subrange(p2 as int, p3 as int) =~= y) by {
        assert forall|j: int| 0 <= j < k implies s.subrange(p2 as int, p3 as int)[j] == y[j] by {
            assert(s[p2 + j] == w[3 + n + j]);
        }
    }
    assert(s[p3 as int] == w[3 + n + k]);
    assert(s[p3 as int] as char == '"');
    assert(buf.push(c) + chars_of(y) =~= chars_of(x) + seq![c] + chars_of(y));
}

} // verus!

//! Token tags (a token's kind without its payload) and the text that `{:?}` writes for a
//! token kind, which the token parser's error messages show.
use vstd::prelude::*;
use crate::diagnostics::{decimal, digit_char, digit_of};
use crate::lexer::{StrPart, TokenKind};
use crate::text::{char_debug, char_debug_text, push_all, str_chars, str_debug, str_debug_text};

verus! {

/// The kind of a token without its payload.
#[derive(Debug, Clone, Copy, PartialEq, Eq, Structural)]
pub enum Tag {
    Ident,
    Number,
    Float,
    Str,
    RawStr,
    Char,
    Let,
    Const,
    Function,
    Fn,
    Return,
    If,
    Elif,
    Else,
    While,
    Loop,
    For,
    Foreach,
    In,
    Break,
    Continue,
    Try,
    Catch,
    Struct,
    Enum,
    Scan,
    Switch,
    Default,
    Of,
    On,
    Count,
    Interval,
    Chain,
    True,
    False,
    Noret,
    MainFunction,
    Dollar,
    Comma,
    Colon,
    Semi,
    Dot,
    Ellipsis,
    Arrow,
    LParen,
    RParen,
    LBrace,
    RBrace,
    LBracket,
    RBracket,
    Plus,
    Minus,
    Star,
    Slash,
    Eq,
    EqEq,
    NotEq,
    Lt,
    Gt,
    Le,
    Ge,
    AndAnd,
    OrOr,
    Not,
    At,
    Directive,
    Eof,
}

#[verifier::opaque]
pub open spec fn tag(k: TokenKind) -> Tag {
    match k {
        TokenKind::Ident(_) => Tag::Ident,
        TokenKind::Number(_) => Tag::Number,
        TokenKind::Float(_) => Tag::Float,
        TokenKind::Str(_) => Tag::Str,
        TokenKind::RawStr(_) => Tag::RawStr,
        TokenKind::Char(_) => Tag::Char,
        TokenKind::Let => Tag::Let,
        TokenKind::Const => Tag::Const,
        TokenKind::Function => Tag::Function,
        TokenKind::Fn => Tag::Fn,
        TokenKind::Return => Tag::Return,
        TokenKind::If => Tag::If,
        TokenKind::Elif => Tag::Elif,
        TokenKind::Else => Tag::Else,
        TokenKind::While => Tag::While,
        TokenKind::Loop => Tag::Loop,
        TokenKind::For => Tag::For,
        TokenKind::Foreach => Tag::Foreach,
        TokenKind::In => Tag::In,
        TokenKind::Break => Tag::Break,
        TokenKind::Continue => Tag::Continue,
        TokenKind::Try => Tag::Try,
        TokenKind::Catch => Tag::Catch,
        TokenKind::Struct => Tag::Struct,
        TokenKind::Enum => Tag::Enum,
        TokenKind::Scan => Tag::Scan,
        TokenKind::Switch => Tag::Switch,
        TokenKind::Default => Tag::Default,
        TokenKind::Of => Tag::Of,
        TokenKind::On => Tag::On,
        TokenKind::Count => Tag::Count,
        TokenKind::Interval => Tag::Interval,
        TokenKind::Chain => Tag::Chain,
        TokenKind::True => Tag::True,
        TokenKind::False => Tag::False,
        TokenKind::Noret => Tag::Noret,
        TokenKind::MainFunction => Tag::MainFunction,
        TokenKind::Dollar => Tag::Dollar,
        TokenKind::Comma => Tag::Comma,
        TokenKind::Colon => Tag::Colon,
        TokenKind::Semi => Tag::Semi,
        TokenKind::Dot => Tag::Dot,
        TokenKind::Ellipsis => Tag::Ellipsis,
        TokenKind::Arrow => Tag::Arrow,
        TokenKind::LParen => Tag::LParen,
        TokenKind::RParen => Tag::RParen,
        TokenKind::LBrace => Tag::LBrace,
        TokenKind::RBrace => Tag::RBrace,
        TokenKind::LBracket => Tag::LBracket,
        TokenKind::RBracket => Tag::RBracket,
        TokenKind::Plus => Tag::Plus,
        TokenKind::Minus => Tag::Minus,
        TokenKind::Star => Tag::Star,
        TokenKind::Slash => Tag::Slash,
        TokenKind::Eq => Tag::Eq,
        TokenKind::EqEq => Tag::EqEq,
        TokenKind::NotEq => Tag::NotEq,
        TokenKind::Lt => Tag::Lt,
        TokenKind::Gt => Tag::Gt,
        TokenKind::Le => Tag::Le,
        TokenKind::Ge => Tag::Ge,
        TokenKind::AndAnd => Tag::AndAnd,
        TokenKind::OrOr => Tag::OrOr,
        TokenKind::Not => Tag::Not,
        TokenKind::At => Tag::At,
        TokenKind::Directive(_) => Tag::Directive,
        TokenKind::Eof => Tag::Eof,
    }
}

pub fn tag_of(k: &TokenKind) -> (g: Tag)
    ensures
        g == tag(*k),
{
    proof {
        reveal(tag);
    }
    match k {
        TokenKind::Ident(_) => Tag::Ident,
        TokenKind::Number(_) => Tag::Number,
        TokenKind::Float(_) => Tag::Float,
        TokenKind::Str(_) => Tag::Str,
        TokenKind::RawStr(_) => Tag::RawStr,
        TokenKind::Char(_) => Tag::Char,
        TokenKind::Let => Tag::Let,
        TokenKind::Const => Tag::Const,
        TokenKind::Function => Tag::Function,
        TokenKind::Fn => Tag::Fn,
        TokenKind::Return => Tag::Return,
        TokenKind::If => Tag::If,
        TokenKind::Elif => Tag::Elif,
        TokenKind::Else => Tag::Else,
        TokenKind::While => Tag::While,
        TokenKind::Loop => Tag::Loop,
        TokenKind::For => Tag::For,
        TokenKind::Foreach => Tag::Foreach,
        TokenKind::In => Tag::In,
        TokenKind::Break => Tag::Break,
        TokenKind::Continue => Tag::Continue,
        TokenKind::Try => Tag::Try,
        TokenKind::Catch => Tag::Catch,
        TokenKind::Struct => Tag::Struct,
        TokenKind::Enum => Tag::Enum,
        TokenKind::Scan => Tag::Scan,
        TokenKind::Switch => Tag::Switch,
        TokenKind::Default => Tag::Default,
        TokenKind::Of => Tag::Of,
        TokenKind::On => Tag::On,
        TokenKind::Count => Tag::Count,
        TokenKind::Interval => Tag::Interval,
        TokenKind::Chain => Tag::Chain,
        TokenKind::True => Tag::True,
        TokenKind::False => Tag::False,
        TokenKind::Noret => Tag::Noret,
        TokenKind::MainFunction => Tag::MainFunction,
        TokenKind::Dollar => Tag::Dollar,
        TokenKind::Comma => Tag::Comma,
        TokenKind::Colon => Tag::Colon,
        TokenKind::Semi => Tag::Semi,
        TokenKind::Dot => Tag::Dot,
        TokenKind::Ellipsis => Tag::Ellipsis,
        TokenKind::Arrow => Tag::Arrow,
        TokenKind::LParen => Tag::LParen,
        TokenKind::RParen => Tag::RParen,
        TokenKind::LBrace => Tag::LBrace,
        TokenKind::RBrace => Tag::RBrace,
        TokenKind::LBracket => Tag::LBracket,
        TokenKind::RBracket => Tag::RBracket,
        TokenKind::Plus => Tag::Plus,
        TokenKind::Minus => Tag::Minus,
        TokenKind::Star => Tag::Star,
        TokenKind::Slash => Tag::Slash,
        TokenKind::Eq => Tag::Eq,
        TokenKind::EqEq => Tag::EqEq,
        TokenKind::NotEq => Tag::NotEq,
        TokenKind::Lt => Tag::Lt,
        TokenKind::Gt => Tag::Gt,
        TokenKind::Le => Tag::Le,
        TokenKind::Ge => Tag::Ge,
        TokenKind::AndAnd => Tag::AndAnd,
        TokenKind::OrOr => Tag::OrOr,
        TokenKind::Not => Tag::Not,
        TokenKind::At => Tag::At,
        TokenKind::Directive(_) => Tag::Directive,
        TokenKind::Eof => Tag::Eof,
    }
}

/// Which kinds have which tag.
pub proof fn lemma_tag(k: TokenKind)
    ensures
        (tag(k) == Tag::Ident) == (k is Ident),
        (tag(k) == Tag::Number) == (k is Number),
        (tag(k) == Tag::Float) == (k is Float),
        (tag(k) == Tag::Str) == (k is Str),
        (tag(k) == Tag::RawStr) == (k is RawStr),
        (tag(k) == Tag::Char) == (k is Char),
        (tag(k) == Tag::Let) == (k == TokenKind::Let),
        (tag(k) == Tag::Const) == (k == TokenKind::Const),
        (tag(k) == Tag::Function) == (k == TokenKind::Function),
        (tag(k) == Tag::Fn) == (k == TokenKind::Fn),
        (tag(k) == Tag::Return) == (k == TokenKind::Return),
        (tag(k) == Tag::If) == (k == TokenKind::If),
        (tag(k) == Tag::Elif) == (k == TokenKind::Elif),
        (tag(k) == Tag::Else) == (k == TokenKind::Else),
        (tag(k) == Tag::While) == (k == TokenKind::While),
        (tag(k) == Tag::Loop) == (k == TokenKind::Loop),
        (tag(k) == Tag::For) == (k == TokenKind::For),
        (tag(k) == Tag::Foreach) == (k == TokenKind::Foreach),
        (tag(k) == Tag::In) == (k == TokenKind::In),
        (tag(k) == Tag::Break) == (k == TokenKind::Break),
        (tag(k) == Tag::Continue) == (k == TokenKind::Continue),
        (tag(k) == Tag::Try) == (k == TokenKind::Try),
        (tag(k) == Tag::Catch) == (k == TokenKind::Catch),
        (tag(k) == Tag::Struct) == (k == TokenKind::Struct),
        (tag(k) == Tag::Enum) == (k == TokenKind::Enum),
        (tag(k) == Tag::Scan) == (k == TokenKind::Scan),
        (tag(k) == Tag::Switch) == (k == TokenKind::Switch),
        (tag(k) == Tag::Default) == (k == TokenKind::Default),
        (tag(k) == Tag::Of) == (k == TokenKind::Of),
        (tag(k) == Tag::On) == (k == TokenKind::On),
        (tag(k) == Tag::Count) == (k == TokenKind::Count),
        (tag(k) == Tag::Interval) == (k == TokenKind::Interval),
        (tag(k) == Tag::Chain) == (k == TokenKind::Chain),
        (tag(k) == Tag::True) == (k == TokenKind::True),
        (tag(k) == Tag::False) == (k == TokenKind::False),
        (tag(k) == Tag::Noret) == (k == TokenKind::Noret),
        (tag(k) == Tag::MainFunction) == (k == TokenKind::MainFunction),
        (tag(k) == Tag::Dollar) == (k == TokenKind::Dollar),
        (tag(k) == Tag::Comma) == (k == TokenKind::Comma),
        (tag(k) == Tag::Colon) == (k == TokenKind::Colon),
        (tag(k) == Tag::Semi) == (k == TokenKind::Semi),
        (tag(k) == Tag::Dot) == (k == TokenKind::Dot),
        (tag(k) == Tag::Ellipsis) == (k == TokenKind::Ellipsis),
        (tag(k) == Tag::Arrow) == (k == TokenKind::Arrow),
        (tag(k) == Tag::LParen) == (k == TokenKind::LParen),
        (tag(k) == Tag::RParen) == (k == TokenKind::RParen),
        (tag(k) == Tag::LBrace) == (k == TokenKind::LBrace),
        (tag(k) == Tag::RBrace) == (k == TokenKind::RBrace),
        (tag(k) == Tag::LBracket) == (k == TokenKind::LBracket),
        (tag(k) == Tag::RBracket) == (k == TokenKind::RBracket),
        (tag(k) == Tag::Plus) == (k == TokenKind::Plus),
        (tag(k) == Tag::Minus) == (k == TokenKind::Minus),
        (tag(k) == Tag::Star) == (k == TokenKind::Star),
        (tag(k) == Tag::Slash) == (k == TokenKind::Slash),
        (tag(k) == Tag::Eq) == (k == TokenKind::Eq),
        (tag(k) == Tag::EqEq) == (k == TokenKind::EqEq),
        (tag(k) == Tag::NotEq) == (k == TokenKind::NotEq),
        (tag(k) == Tag::Lt) == (k == TokenKind::Lt),
        (tag(k) == Tag::Gt) == (k == TokenKind::Gt),
        (tag(k) == Tag::Le) == (k == TokenKind::Le),
        (tag(k) == Tag::Ge) == (k == TokenKind::Ge),
        (tag(k) == Tag::AndAnd) == (k == TokenKind::AndAnd),
        (tag(k) == Tag::OrOr) == (k == TokenKind::OrOr),
        (tag(k) == Tag::Not) == (k == TokenKind::Not),
        (tag(k) == Tag::At) == (k == TokenKind::At),
        (tag(k) == Tag::Directive) == (k is Directive),
        (tag(k) == Tag::Eof) == (k == TokenKind::Eof),
{
    reveal(tag);
}

/// The name of the tag, as `{:?}` writes a token kind without payload.
pub open spec fn tag_name(g: Tag) -> Seq<char> {
    match g {
        Tag::Ident => "Ident"@,
        Tag::Number => "Number"@,
        Tag::Float => "Float"@,
        Tag::Str => "Str"@,
        Tag::RawStr => "RawStr"@,
        Tag::Char => "Char"@,
        Tag::Let => "Let"@,
        Tag::Const => "Const"@,
        Tag::Function => "Function"@,
        Tag::Fn => "Fn"@,
        Tag::Return => "Return"@,
        Tag::If => "If"@,
        Tag::Elif => "Elif"@,
        Tag::Else => "Else"@,
        Tag::While => "While"@,
        Tag::Loop => "Loop"@,
        Tag::For => "For"@,
        Tag::Foreach => "Foreach"@,
        Tag::In => "In"@,
        Tag::Break => "Break"@,
        Tag::Continue => "Continue"@,
        Tag::Try => "Try"@,
        Tag::Catch => "Catch"@,
        Tag::Struct => "Struct"@,
        Tag::Enum => "Enum"@,
        Tag::Scan => "Scan"@,
        Tag::Switch => "Switch"@,
        Tag::Default => "Default"@,
        Tag::Of => "Of"@,
        Tag::On => "On"@,
        Tag::Count => "Count"@,
        Tag::Interval => "Interval"@,
        Tag::Chain => "Chain"@,
        Tag::True => "True"@,
        Tag::False => "False"@,
        Tag::Noret => "Noret"@,
        Tag::MainFunction => "MainFunction"@,
        Tag::Dollar => "Dollar"@,
        Tag::Comma => "Comma"@,
        Tag::Colon => "Colon"@,
        Tag::Semi => "Semi"@,
        Tag::Dot => "Dot"@,
        Tag::Ellipsis => "Ellipsis"@,
        Tag::Arrow => "Arrow"@,
        Tag::LParen => "LParen"@,
        Tag::RParen => "RParen"@,
        Tag::LBrace => "LBrace"@,
        Tag::RBrace => "RBrace"@,
        Tag::LBracket => "LBracket"@,
        Tag::RBracket => "RBracket"@,
        Tag::Plus => "Plus"@,
        Tag::Minus => "Minus"@,
        Tag::Star => "Star"@,
        Tag::Slash => "Slash"@,
        Tag::Eq => "Eq"@,
        Tag::EqEq => "EqEq"@,
        Tag::NotEq => "NotEq"@,
        Tag::Lt => "Lt"@,
        Tag::Gt => "Gt"@,
        Tag::Le => "Le"@,
        Tag::Ge => "Ge"@,
        Tag::AndAnd => "AndAnd"@,
        Tag::OrOr => "OrOr"@,
        Tag::Not => "Not"@,
        Tag::At => "At"@,
        Tag::Directive => "Directive"@,
        Tag::Eof => "Eof"@,
    }
}

pub fn tag_name_text(g: Tag) -> (r: &'static str)
    ensures
        r@ == tag_name(g),
{
    match g {
        Tag::Ident => "Ident",
        Tag::Number => "Number",
        Tag::Float => "Float",
        Tag::Str => "Str",
        Tag::RawStr => "RawStr",
        Tag::Char => "Char",
        Tag::Let => "Let",
        Tag::Const => "Const",
        Tag::Function => "Function",
        Tag::Fn => "Fn",
        Tag::Return => "Return",
        Tag::If => "If",
        Tag::Elif => "Elif",
        Tag::Else => "Else",
        Tag::While => "While",
        Tag::Loop => "Loop",
        Tag::For => "For",
        Tag::Foreach => "Foreach",
        Tag::In => "In",
        Tag::Break => "Break",
        Tag::Continue => "Continue",
        Tag::Try => "Try",
        Tag::Catch => "Catch",
        Tag::Struct => "Struct",
        Tag::Enum => "Enum",
        Tag::Scan => "Scan",
        Tag::Switch => "Switch",
        Tag::Default => "Default",
        Tag::Of => "Of",
        Tag::On => "On",
        Tag::Count => "Count",
        Tag::Interval => "Interval",
        Tag::Chain => "Chain",
        Tag::True => "True",
        Tag::False => "False",
        Tag::Noret => "Noret",
        Tag::MainFunction => "MainFunction",
        Tag::Dollar => "Dollar",
        Tag::Comma => "Comma",
        Tag::Colon => "Colon",
        Tag::Semi => "Semi",
        Tag::Dot => "Dot",
        Tag::Ellipsis => "Ellipsis",
        Tag::Arrow => "Arrow",
        Tag::LParen => "LParen",
        Tag::RParen => "RParen",
        Tag::LBrace => "LBrace",
        Tag::RBrace => "RBrace",
        Tag::LBracket => "LBracket",
        Tag::RBracket => "RBracket",
        Tag::Plus => "Plus",
        Tag::Minus => "Minus",
        Tag::Star => "Star",
        Tag::Slash => "Slash",
        Tag::Eq => "Eq",
        Tag::EqEq => "EqEq",
        Tag::NotEq => "NotEq",
        Tag::Lt => "Lt",
        Tag::Gt => "Gt",
        Tag::Le => "Le",
        Tag::Ge => "Ge",
        Tag::AndAnd => "AndAnd",
        Tag::OrOr => "OrOr",
        Tag::Not => "Not",
        Tag::At => "At",
        Tag::Directive => "Directive",
        Tag::Eof => "Eof",
    }
}

/// The decimal text of `n`, with a leading `-` when it is negative.
pub open spec fn int_text(n: int) -> Seq<char> {
    if n < 0 {
        "-"@ + decimal((-n) as nat)
    } else {
        decimal(n as nat)
    }
}

/// The text `{:?}` writes for a piece of an interpolated string.
pub open spec fn part_debug(p: StrPart) -> Seq<char> {
    match p {
        StrPart::Literal(s) => "Literal("@ + str_debug(s@) + ")"@,
        StrPart::Var(s) => "Var("@ + str_debug(s@) + ")"@,
    }
}

/// The pieces' texts, separated by `, `.
pub open spec fn parts_debug(ps: Seq<StrPart>) -> Seq<char>
    decreases ps.len(),
{
    if ps.len() == 0 {
        seq![]
    } else if ps.len() == 1 {
        part_debug(ps[0])
    } else {
        parts_debug(ps.drop_last()) + ", "@ + part_debug(ps.last())
    }
}

/// The text that `{:?}` writes for a token kind, a number with a fractional part being
/// written as its source text.
pub open spec fn kind_debug(k: TokenKind) -> Seq<char> {
    match k {
        TokenKind::Ident(s) => "Ident("@ + str_debug(s@) + ")"@,
        TokenKind::Number(n) => "Number("@ + int_text(n as int) + ")"@,
        TokenKind::Float(s) => "Float("@ + s@ + ")"@,
        TokenKind::Str(ps) => "Str(["@ + parts_debug(ps@) + "])"@,
        TokenKind::RawStr(s) => "RawStr("@ + str_debug(s@) + ")"@,
        TokenKind::Char(c) => "Char("@ + char_debug(c) + ")"@,
        TokenKind::Directive(s) => "Directive("@ + str_debug(s@) + ")"@,
        _ => tag_name(tag(k)),
    }
}

fn decimal_u64(n: u64) -> (r: Vec<char>)
    ensures
        r@ == decimal(n as nat),
    decreases n,
{
    if n < 10 {
        let mut r: Vec<char> = Vec::new();
        r.push(digit_of(n as usize));
        assert(r@ =~= seq![digit_char(n as nat)]);
        r
    } else {
        let mut r = decimal_u64(n / 10);
        r.push(digit_of((n % 10) as usize));
        r
    }
}

fn int_text_vec(n: i64) -> (r: Vec<char>)
    ensures
        r@ == int_text(n as int),
{
    if n < 0 {
        let m: u64 = if n == i64::MIN {
            9223372036854775808u64
        } else {
            (-n) as u64
        };
        let mut r = str_chars("-");
        push_all(&mut r, &decimal_u64(m));
        r
    } else {
        decimal_u64(n as u64)
    }
}

fn wrapped(head: &str, mid: &Vec<char>, tail: &str) -> (r: Vec<char>)
    ensures
        r@ == head@ + mid@ + tail@,
{
    let mut r = str_chars(head);
    push_all(&mut r, mid);
    push_all(&mut r, &str_chars(tail));
    r
}

fn part_debug_vec(p: &StrPart) -> (r: Vec<char>)
    ensures
        r@ == part_debug(*p),
{
    match p {
        StrPart::Literal(s) => wrapped("Literal(", &str_chars(str_debug_text(s.as_str()).as_str()), ")"),
        StrPart::Var(s) => wrapped("Var(", &str_chars(str_debug_text(s.as_str()).as_str()), ")"),
    }
}

fn parts_debug_vec(ps: &Vec<StrPart>) -> (r: Vec<char>)
    ensures
        r@ == parts_debug(ps@),
{
    let mut r: Vec<char> = Vec::new();
    let mut i: usize = 0;
    while i < ps.len()
        invariant
            i <= ps@.len(),
            r@ == parts_debug(ps@.take(i as int)),
        decreases ps@.len() - i,
    {
        let ghost before = ps@.take(i as int);
        assert(ps@.take(i as int + 1).drop_last() =~= before);
        if i > 0 {
            push_all(&mut r, &str_chars(", "));
        }
        push_all(&mut r, &part_debug_vec(&ps[i]));
        i = i + 1;
    }
    assert(ps@.take(ps@.len() as int) =~= ps@);
    r
}

/// The text that `{:?}` writes for `k` (see `kind_debug`).
pub fn kind_debug_text(k: &TokenKind) -> (r: Vec<char>)
    ensures
        r@ == kind_debug(*k),
{
    match k {
        TokenKind::Ident(s) => wrapped("Ident(", &str_chars(str_debug_text(s.as_str()).as_str()), ")"),
        TokenKind::Number(n) => wrapped("Number(", &int_text_vec(*n), ")"),
        TokenKind::Float(s) => wrapped("Float(", &str_chars(s.as_str()), ")"),
        TokenKind::Str(ps) => wrapped("Str([", &parts_debug_vec(ps), "])"),
        TokenKind::RawStr(s) => wrapped("RawStr(", &str_chars(str_debug_text(s.as_str()).as_str()), ")"),
        TokenKind::Char(c) => wrapped("Char(", &str_chars(char_debug_text(*c).as_str()), ")"),
        TokenKind::Directive(s) => wrapped("Directive(", &str_chars(str_debug_text(s.as_str()).as_str()), ")"),
        _ => str_chars(tag_name_text(tag_of(k))),
    }
}

} // verus!

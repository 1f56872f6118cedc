//! The mathematical model of the token parser: for a token sequence and a parser state
//! (the position of the next token, whether a main function was seen and its name), what
//! each parsing step gives: a tree and the state after it, or an error message and the
//! state at which it was found.
//!
//! A step that goes on from the state that an inner step left checks that the position
//! moved forward (`fwd`) and gives `Abort` otherwise; `law_parsing_moves_forward` shows that
//! this never happens on the token sequences that the lexer makes.
use vstd::prelude::*;
use crate::control_flow::CompareOp;
use crate::lexer::{StrPart, Token, TokenKind};
use crate::syntax::{BinOp, Cnd, Expr, Lit, Part, Stm, UnOp};
use crate::token_tags::{kind_debug, lemma_tag, tag, tag_name, Tag};

verus! {

/// The parser's state: the position of the next token, whether a main function was
/// parsed, and the name of the last one.
pub struct PState {
    pub p: int,
    pub main: bool,
    pub name: Option<Seq<char>>,
}

/// The outcome of a parsing step.
pub enum PRes<T> {
    /// The value parsed and the state after it.
    Done(T, PState),
    /// The error message and the state at which the error was found (its position is that
    /// of the token the error reports).
    Fail(Seq<char>, PState),
    /// A step did not move forward.
    Abort,
}

impl<T> PRes<T> {
    /// The same error, for an outcome of another type (`Abort` for a success).
    pub open spec fn stop<U>(self) -> PRes<U> {
        match self {
            PRes::Fail(m, s) => PRes::Fail(m, s),
            _ => PRes::Abort,
        }
    }
}

/// The kind of the token at `p` (`Eof` past the end).
pub open spec fn kd(t: Seq<Token>, p: int) -> TokenKind {
    if 0 <= p < t.len() {
        t[p].kind
    } else {
        TokenKind::Eof
    }
}

/// The tag of the token at the state's position.
pub open spec fn tg(t: Seq<Token>, s: PState) -> Tag {
    tag(kd(t, s.p))
}

/// A token other than `Eof` lies within the tokens.
pub proof fn lemma_tg(t: Seq<Token>, s: PState)
    ensures
        tg(t, s) != Tag::Eof ==> 0 <= s.p < t.len(),
{
    lemma_tag(kd(t, s.p));
}

/// The state at position `q`, the rest unchanged.
pub open spec fn at(s: PState, q: int) -> PState {
    PState { p: q, main: s.main, name: s.name }
}

/// The state one token further.
pub open spec fn adv(s: PState) -> PState {
    at(s, s.p + 1)
}

/// The number of tokens from the state's position on (zero outside the tokens).
pub open spec fn ms(t: Seq<Token>, s: PState) -> nat {
    if 0 <= s.p < t.len() {
        (t.len() - s.p) as nat
    } else {
        0
    }
}

/// `s2` lies past `s`, within the tokens.
pub open spec fn fwd(t: Seq<Token>, s: PState, s2: PState) -> bool {
    0 <= s.p < s2.p < t.len()
}

pub open spec fn skip_if(t: Seq<Token>, s: PState, g: Tag) -> PState {
    if tg(t, s) == g {
        adv(s)
    } else {
        s
    }
}

pub open spec fn m_expected(g: Tag, k: TokenKind) -> Seq<char> {
    "expected "@ + tag_name(g) + ", found "@ + kind_debug(k)
}

pub open spec fn m_ident(k: TokenKind) -> Seq<char> {
    "expected identifier, found "@ + kind_debug(k)
}

pub open spec fn m_unexpected(k: TokenKind) -> Seq<char> {
    "unexpected token in expression: "@ + kind_debug(k)
}

/// The error of expecting a token with tag `g` at `s`.
pub open spec fn exp_err<T>(t: Seq<Token>, s: PState, g: Tag) -> PRes<T> {
    PRes::Fail(m_expected(g, kd(t, s.p)), s)
}

/// The error of expecting an identifier at `s`.
pub open spec fn ident_err<T>(t: Seq<Token>, s: PState) -> PRes<T> {
    PRes::Fail(m_ident(kd(t, s.p)), s)
}

/// The operator of a binary operator token, with its left and right binding powers.
pub open spec fn binop(g: Tag) -> Option<(BinOp, u8, u8)> {
    if g == Tag::Plus {
        Some((BinOp::Add, 7u8, 8u8))
    } else if g == Tag::Minus {
        Some((BinOp::Sub, 7u8, 8u8))
    } else if g == Tag::Star {
        Some((BinOp::Mul, 9u8, 10u8))
    } else if g == Tag::Slash {
        Some((BinOp::Div, 9u8, 10u8))
    } else {
        None
    }
}

/// The comparison of a comparison token.
pub open spec fn cmp_of(g: Tag) -> Option<CompareOp> {
    if g == Tag::EqEq {
        Some(CompareOp::Eq)
    } else if g == Tag::NotEq {
        Some(CompareOp::Ne)
    } else if g == Tag::Lt {
        Some(CompareOp::Lt)
    } else if g == Tag::Gt {
        Some(CompareOp::Gt)
    } else if g == Tag::Le {
        Some(CompareOp::Le)
    } else if g == Tag::Ge {
        Some(CompareOp::Ge)
    } else {
        None
    }
}

pub open spec fn part_of(p: StrPart) -> Part {
    match p {
        StrPart::Literal(s) => Part::Lit(s@),
        StrPart::Var(n) => Part::Interp(Expr::Var(n@)),
    }
}

/// The expression of a string token: its text when it is one literal piece, else the
/// interpolation of its pieces.
pub open spec fn str_expr(ps: Seq<StrPart>) -> Expr {
    if ps.len() == 1 && ps[0] is Literal {
        Expr::Lit(Lit::Text(ps[0]->Literal_0@))
    } else {
        Expr::Interp(ps.map_values(|p: StrPart| part_of(p)))
    }
}

/// Whether a name is written `c::<rest>`.
pub open spec fn c_name(n: Seq<char>) -> bool {
    n.len() >= 3 && n[0] == 'c' && n[1] == ':' && n[2] == ':'
}

/// A name followed by `.name` parts, from `s` on, after `n`.
pub open spec fn dotted(t: Seq<Token>, s: PState, n: Seq<char>) -> PRes<Seq<char>>
    decreases ms(t, s),
{
    proof {
        lemma_tg(t, s);
    }
    if tg(t, s) == Tag::Dot {
        match kd(t, s.p + 1) {
            TokenKind::Ident(x) => dotted(t, at(s, s.p + 2), n + "."@ + x@),
            _ => ident_err(t, adv(s)),
        }
    } else {
        PRes::Done(n, s)
    }
}

/// Function parameters up to `)` (not consumed), after `acc`; of `type name`, the name.
pub open spec fn params(t: Seq<Token>, s: PState, acc: Seq<Seq<char>>) -> PRes<Seq<Seq<char>>>
    decreases ms(t, s), 1nat,
{
    proof {
        lemma_tg(t, s);
    }
    if tg(t, s) == Tag::RParen {
        PRes::Done(acc, s)
    } else {
        match kd(t, s.p) {
            TokenKind::Ident(first) => match kd(t, s.p + 1) {
                TokenKind::Ident(second) => params_next(t, at(s, s.p + 2), acc.push(second@)),
                _ => params_next(t, adv(s), acc.push(first@)),
            },
            _ => ident_err(t, s),
        }
    }
}

pub open spec fn params_next(t: Seq<Token>, s: PState, acc: Seq<Seq<char>>) -> PRes<Seq<Seq<char>>>
    decreases ms(t, s), 0nat,
{
    proof {
        lemma_tg(t, s);
    }
    if tg(t, s) == Tag::Comma {
        params(t, adv(s), acc)
    } else {
        PRes::Done(acc, s)
    }
}

/// `name: type` fields up to `}` (consumed), after `acc`, each maybe followed by `,`.
pub open spec fn struct_defs(t: Seq<Token>, s: PState, acc: Seq<Seq<char>>) -> PRes<Seq<Seq<char>>>
    decreases ms(t, s),
{
    proof {
        lemma_tg(t, s);
    }
    if tg(t, s) == Tag::RBrace {
        PRes::Done(acc, adv(s))
    } else {
        match kd(t, s.p) {
            TokenKind::Ident(f) => if tg(t, adv(s)) != Tag::Colon {
                exp_err(t, adv(s), Tag::Colon)
            } else {
                match kd(t, s.p + 2) {
                    TokenKind::Ident(_) => struct_defs(
                        t,
                        skip_if(t, at(s, s.p + 3), Tag::Comma),
                        acc.push(f@),
                    ),
                    _ => ident_err(t, at(s, s.p + 2)),
                }
            },
            _ => ident_err(t, s),
        }
    }
}

/// Names up to `}` (consumed), after `acc`, each maybe followed by `,`.
pub open spec fn enum_defs(t: Seq<Token>, s: PState, acc: Seq<Seq<char>>) -> PRes<Seq<Seq<char>>>
    decreases ms(t, s),
{
    proof {
        lemma_tg(t, s);
    }
    if tg(t, s) == Tag::RBrace {
        PRes::Done(acc, adv(s))
    } else {
        match kd(t, s.p) {
            TokenKind::Ident(v) => enum_defs(t, skip_if(t, adv(s), Tag::Comma), acc.push(v@)),
            _ => ident_err(t, s),
        }
    }
}

/// `struct Name { fields }`.
pub open spec fn struct_stmt(t: Seq<Token>, s: PState) -> PRes<Stm> {
    if tg(t, s) != Tag::Struct {
        exp_err(t, s, Tag::Struct)
    } else {
        match kd(t, s.p + 1) {
            TokenKind::Ident(n) => if tg(t, at(s, s.p + 2)) != Tag::LBrace {
                exp_err(t, at(s, s.p + 2), Tag::LBrace)
            } else {
                match struct_defs(t, at(s, s.p + 3), Seq::empty()) {
                    PRes::Done(fs, s2) => PRes::Done(Stm::StructDef(n@, fs), s2),
                    r => r.stop(),
                }
            },
            _ => ident_err(t, adv(s)),
        }
    }
}

/// `enum Name { variants }`.
pub open spec fn enum_stmt(t: Seq<Token>, s: PState) -> PRes<Stm> {
    if tg(t, s) != Tag::Enum {
        exp_err(t, s, Tag::Enum)
    } else {
        match kd(t, s.p + 1) {
            TokenKind::Ident(n) => if tg(t, at(s, s.p + 2)) != Tag::LBrace {
                exp_err(t, at(s, s.p + 2), Tag::LBrace)
            } else {
                match enum_defs(t, at(s, s.p + 3), Seq::empty()) {
                    PRes::Done(vs, s2) => PRes::Done(Stm::EnumDef(n@, vs), s2),
                    r => r.stop(),
                }
            },
            _ => ident_err(t, adv(s)),
        }
    }
}

// ---------------------------------------------------------------------------
// Statements
// ---------------------------------------------------------------------------

/// One statement.
pub open spec fn stmt(t: Seq<Token>, s: PState) -> PRes<Stm>
    decreases ms(t, s), 11nat,
{
    proof {
        lemma_tg(t, s);
    }
    match kd(t, s.p) {
        TokenKind::Directive(_) => stmt(t, adv(s)),
        TokenKind::MainFunction => function(t, s),
        TokenKind::Let => let_stmt(t, s),
        TokenKind::Function => function(t, s),
        TokenKind::If => if_stmt(t, s),
        TokenKind::While => while_stmt(t, s),
        TokenKind::For => for_stmt(t, s),
        TokenKind::Foreach => foreach_stmt(t, s),
        TokenKind::Loop => loop_stmt(t, s),
        TokenKind::Break => PRes::Done(Stm::Break, adv(s)),
        TokenKind::Continue => PRes::Done(Stm::Continue, adv(s)),
        TokenKind::Return => return_stmt(t, s),
        TokenKind::Try => try_stmt(t, s),
        TokenKind::Struct => struct_stmt(t, s),
        TokenKind::Enum => enum_stmt(t, s),
        TokenKind::Scan => scan_stmt(t, s),
        TokenKind::Switch => switch_stmt(t, s),
        TokenKind::Chain => chain_stmt(t, s),
        TokenKind::Dollar => assign_stmt(t, s),
        TokenKind::LBrace => match block(t, s) {
            PRes::Done(b, s2) => PRes::Done(Stm::Expr(Expr::Block(b)), s2),
            r => r.stop(),
        },
        _ => match expr(t, s, 0) {
            PRes::Done(e, s2) => PRes::Done(Stm::Expr(e), skip_if(t, s2, Tag::Semi)),
            r => r.stop(),
        },
    }
}

/// `{ statements }`.
pub open spec fn block(t: Seq<Token>, s: PState) -> PRes<Seq<Stm>>
    decreases ms(t, s), 1nat,
{
    proof {
        lemma_tg(t, s);
    }
    if tg(t, s) == Tag::LBrace {
        items(t, adv(s), Seq::empty())
    } else {
        exp_err(t, s, Tag::LBrace)
    }
}

/// The statements of a block up to `}` (consumed), after `acc`.
pub open spec fn items(t: Seq<Token>, s: PState, acc: Seq<Stm>) -> PRes<Seq<Stm>>
    decreases ms(t, s), 12nat,
{
    proof {
        lemma_tg(t, s);
    }
    if tg(t, s) == Tag::RBrace {
        PRes::Done(acc, adv(s))
    } else if tg(t, s) == Tag::Eof {
        PRes::Fail("expected matching '}'"@, s)
    } else if tg(t, s) == Tag::Directive {
        items(t, adv(s), acc)
    } else {
        match stmt(t, s) {
            PRes::Done(x, s2) => if fwd(t, s, s2) {
                items(t, s2, acc.push(x))
            } else {
                PRes::Abort
            },
            r => r.stop(),
        }
    }
}

/// A block when the next token is `{`, else an expression.
pub open spec fn value_expr(t: Seq<Token>, s: PState) -> PRes<Expr>
    decreases ms(t, s), 6nat,
{
    proof {
        lemma_tg(t, s);
    }
    if tg(t, s) == Tag::LBrace {
        match block(t, s) {
            PRes::Done(b, s2) => PRes::Done(Expr::Block(b), s2),
            r => r.stop(),
        }
    } else {
        expr(t, s, 0)
    }
}

/// `let [const] name = value [;]`.
pub open spec fn let_stmt(t: Seq<Token>, s: PState) -> PRes<Stm>
    decreases ms(t, s), 10nat,
{
    proof {
        lemma_tg(t, s);
    }
    if tg(t, s) != Tag::Let {
        exp_err(t, s, Tag::Let)
    } else {
        let s1 = skip_if(t, adv(s), Tag::Const);
        match kd(t, s1.p) {
            TokenKind::Ident(n) => if tg(t, adv(s1)) != Tag::Eq {
                exp_err(t, adv(s1), Tag::Eq)
            } else {
                match value_expr(t, at(s1, s1.p + 2)) {
                    PRes::Done(v, s2) => PRes::Done(Stm::Let(n@, v), skip_if(t, s2, Tag::Semi)),
                    r => r.stop(),
                }
            },
            _ => ident_err(t, s1),
        }
    }
}

/// `$name[.field...] = value [;]`.
pub open spec fn assign_stmt(t: Seq<Token>, s: PState) -> PRes<Stm>
    decreases ms(t, s), 10nat,
{
    proof {
        lemma_tg(t, s);
    }
    if tg(t, s) != Tag::Dollar {
        exp_err(t, s, Tag::Dollar)
    } else {
        match kd(t, s.p + 1) {
            TokenKind::Ident(x) => match dotted(t, at(s, s.p + 2), x@) {
                PRes::Done(n, s1) => {
                    proof {
                        lemma_dotted(t, at(s, s.p + 2), x@);
                    }
                    if tg(t, s1) != Tag::Eq {
                        exp_err(t, s1, Tag::Eq)
                    } else {
                        match value_expr(t, adv(s1)) {
                            PRes::Done(v, s2) => PRes::Done(Stm::Let(n, v), skip_if(t, s2, Tag::Semi)),
                            r => r.stop(),
                        }
                    }
                },
                r => r.stop(),
            },
            _ => ident_err(t, adv(s)),
        }
    }
}

/// `function name(params) [type] { body }`, or the same after the main-function marker.
pub open spec fn function(t: Seq<Token>, s: PState) -> PRes<Stm>
    decreases ms(t, s), 10nat,
{
    proof {
        lemma_tg(t, s);
    }
    match kd(t, s.p) {
        TokenKind::Function => fn_rest(t, adv(s), false),
        TokenKind::MainFunction => fn_rest(t, PState { p: s.p + 1, main: true, name: s.name }, true),
        _ => PRes::Fail("expected function declaration"@, s),
    }
}

/// The function's name, parameters, return type and body; a main function's name is
/// recorded in the state.
pub open spec fn fn_rest(t: Seq<Token>, s: PState, marked: bool) -> PRes<Stm>
    decreases ms(t, s), 10nat,
{
    proof {
        lemma_tg(t, s);
    }
    match kd(t, s.p) {
        TokenKind::Ident(n) => {
            let s1 = if marked {
                PState { p: s.p + 1, main: s.main, name: Some(n@) }
            } else {
                adv(s)
            };
            if tg(t, s1) != Tag::LParen {
                exp_err(t, s1, Tag::LParen)
            } else {
                match params(t, adv(s1), Seq::empty()) {
                    PRes::Done(ps, s2) => {
                        proof {
                            lemma_params(t, adv(s1), Seq::empty());
                        }
                        if tg(t, s2) != Tag::RParen {
                            exp_err(t, s2, Tag::RParen)
                        } else {
                            let s3 = adv(s2);
                            let s4 = if tg(t, s3) != Tag::LBrace && (tg(t, s3) == Tag::Noret || tg(
                                t,
                                s3,
                            ) == Tag::Ident) {
                                adv(s3)
                            } else {
                                s3
                            };
                            match block(t, s4) {
                                PRes::Done(b, s5) => PRes::Done(Stm::Function(n@, ps, b), s5),
                                r => r.stop(),
                            }
                        }
                    },
                    r => r.stop(),
                }
            }
        },
        _ => ident_err(t, s),
    }
}

/// `if cond { } (elif cond { } | else if cond { })* [else { }]`.
pub open spec fn if_stmt(t: Seq<Token>, s: PState) -> PRes<Stm>
    decreases ms(t, s), 10nat,
{
    proof {
        lemma_tg(t, s);
    }
    if tg(t, s) != Tag::If {
        exp_err(t, s, Tag::If)
    } else {
        match cond(t, adv(s)) {
            PRes::Done(c, s1) => if fwd(t, s, s1) {
                match block(t, s1) {
                    PRes::Done(b, s2) => if fwd(t, s, s2) {
                        match elifs(t, s2, Seq::empty()) {
                            PRes::Done(rest, s3) => PRes::Done(Stm::If(c, b, rest.0, rest.1), s3),
                            r => r.stop(),
                        }
                    } else {
                        PRes::Abort
                    },
                    r => r.stop(),
                }
            } else {
                PRes::Abort
            },
            r => r.stop(),
        }
    }
}

/// The `elif` branches after `acc`, and the `else` block if there is one.
pub open spec fn elifs(t: Seq<Token>, s: PState, acc: Seq<(Cnd, Seq<Stm>)>) -> PRes<
    (Seq<(Cnd, Seq<Stm>)>, Option<Seq<Stm>>),
>
    decreases ms(t, s), 10nat,
{
    proof {
        lemma_tg(t, s);
    }
    if tg(t, s) == Tag::Elif {
        elif_cond(t, adv(s), acc)
    } else if tg(t, s) == Tag::Else {
        if tg(t, adv(s)) == Tag::If {
            elif_cond(t, at(s, s.p + 2), acc)
        } else {
            match block(t, adv(s)) {
                PRes::Done(b, s2) => PRes::Done((acc, Some(b)), s2),
                r => r.stop(),
            }
        }
    } else {
        PRes::Done((acc, None), s)
    }
}

/// The condition of an `elif` branch, then its block and the branches after it.
pub open spec fn elif_cond(t: Seq<Token>, s: PState, acc: Seq<(Cnd, Seq<Stm>)>) -> PRes<
    (Seq<(Cnd, Seq<Stm>)>, Option<Seq<Stm>>),
>
    decreases ms(t, s), 10nat,
{
    proof {
        lemma_tg(t, s);
    }
    match cond(t, s) {
        PRes::Done(c, s1) => if fwd(t, s, s1) {
            elif_rest(t, s1, acc, c)
        } else {
            PRes::Abort
        },
        r => r.stop(),
    }
}

/// The block of an `elif` branch with condition `c`, then the branches after it.
pub open spec fn elif_rest(t: Seq<Token>, s: PState, acc: Seq<(Cnd, Seq<Stm>)>, c: Cnd) -> PRes<
    (Seq<(Cnd, Seq<Stm>)>, Option<Seq<Stm>>),
>
    decreases ms(t, s), 10nat,
{
    proof {
        lemma_tg(t, s);
    }
    match block(t, s) {
        PRes::Done(b, s2) => if fwd(t, s, s2) {
            elifs(t, s2, acc.push((c, b)))
        } else {
            PRes::Abort
        },
        r => r.stop(),
    }
}

/// `while cond { body }`.
pub open spec fn while_stmt(t: Seq<Token>, s: PState) -> PRes<Stm>
    decreases ms(t, s), 10nat,
{
    proof {
        lemma_tg(t, s);
    }
    if tg(t, s) != Tag::While {
        exp_err(t, s, Tag::While)
    } else {
        match cond(t, adv(s)) {
            PRes::Done(c, s1) => if fwd(t, s, s1) {
                match block(t, s1) {
                    PRes::Done(b, s2) => PRes::Done(Stm::While(c, b), s2),
                    r => r.stop(),
                }
            } else {
                PRes::Abort
            },
            r => r.stop(),
        }
    }
}

/// The initialisation or update of a `for (...)` header: `let x = e`, `$x = e` or `e`;
/// the value `e`.
pub open spec fn init_clause(t: Seq<Token>, s: PState) -> PRes<Expr>
    decreases ms(t, s), 6nat,
{
    proof {
        lemma_tg(t, s);
    }
    if tg(t, s) == Tag::Let || tg(t, s) == Tag::Dollar {
        match kd(t, s.p + 1) {
            TokenKind::Ident(_) => if tg(t, at(s, s.p + 2)) != Tag::Eq {
                exp_err(t, at(s, s.p + 2), Tag::Eq)
            } else {
                expr(t, at(s, s.p + 3), 0)
            },
            _ => ident_err(t, adv(s)),
        }
    } else {
        expr(t, s, 0)
    }
}

/// No clause when the next token has tag `g`, else a clause.
pub open spec fn opt_init(t: Seq<Token>, s: PState, g: Tag) -> PRes<Option<Expr>>
    decreases ms(t, s), 7nat,
{
    proof {
        lemma_tg(t, s);
    }
    if tg(t, s) == g {
        PRes::Done(None, s)
    } else {
        match init_clause(t, s) {
            PRes::Done(e, s2) => PRes::Done(Some(e), s2),
            r => r.stop(),
        }
    }
}

/// No expression when the next token has tag `g`, else an expression.
pub open spec fn opt_expr(t: Seq<Token>, s: PState, g: Tag) -> PRes<Option<Expr>>
    decreases ms(t, s), 6nat,
{
    proof {
        lemma_tg(t, s);
    }
    if tg(t, s) == g {
        PRes::Done(None, s)
    } else {
        match expr(t, s, 0) {
            PRes::Done(e, s2) => PRes::Done(Some(e), s2),
            r => r.stop(),
        }
    }
}

/// `s2` is `s` or lies past it, within the tokens.
pub open spec fn upto(t: Seq<Token>, s: PState, s2: PState) -> bool {
    0 <= s.p <= s2.p < t.len()
}

/// `for (init, cond, update) { body }` or `for var in items { body }`.
pub open spec fn for_stmt(t: Seq<Token>, s: PState) -> PRes<Stm>
    decreases ms(t, s), 10nat,
{
    proof {
        lemma_tg(t, s);
    }
    if tg(t, s) != Tag::For {
        exp_err(t, s, Tag::For)
    } else if tg(t, adv(s)) == Tag::LParen {
        cfor(t, at(s, s.p + 2))
    } else {
        for_in(t, adv(s))
    }
}

/// The header of `for (...)` from its initialisation on, and the body.
pub open spec fn cfor(t: Seq<Token>, s: PState) -> PRes<Stm>
    decreases ms(t, s), 10nat,
{
    proof {
        lemma_tg(t, s);
    }
    match opt_init(t, s, Tag::Comma) {
        PRes::Done(init, s1) => if !upto(t, s, s1) {
            PRes::Abort
        } else {
            cfor_rest(t, s1, init)
        },
        r => r.stop(),
    }
}

/// From the `,` after the initialisation of `for (...)`: the condition, then the rest.
pub open spec fn cfor_rest(t: Seq<Token>, s: PState, init: Option<Expr>) -> PRes<Stm>
    decreases ms(t, s), 9nat,
{
    proof {
        lemma_tg(t, s);
    }
    if tg(t, s) != Tag::Comma {
        exp_err(t, s, Tag::Comma)
    } else {
        match cond(t, adv(s)) {
            PRes::Done(c, s2) => if !fwd(t, s, s2) {
                PRes::Abort
            } else {
                cfor_mid(t, s2, init, c)
            },
            r => r.stop(),
        }
    }
}

/// The `,` after the condition of `for (...)`, then the rest.
pub open spec fn cfor_mid(t: Seq<Token>, s: PState, init: Option<Expr>, c: Cnd) -> PRes<Stm>
    decreases ms(t, s), 10nat,
{
    proof {
        lemma_tg(t, s);
    }
    if tg(t, s) != Tag::Comma {
        exp_err(t, s, Tag::Comma)
    } else {
        cfor_tail(t, adv(s), init, c)
    }
}

/// The update of `for (...)`, the closing `)` and the body.
pub open spec fn cfor_tail(t: Seq<Token>, s: PState, init: Option<Expr>, c: Cnd) -> PRes<Stm>
    decreases ms(t, s), 10nat,
{
    proof {
        lemma_tg(t, s);
    }
    match opt_init(t, s, Tag::RParen) {
        PRes::Done(upd, s3) => if !upto(t, s, s3) {
            PRes::Abort
        } else if tg(t, s3) != Tag::RParen {
            exp_err(t, s3, Tag::RParen)
        } else {
            match block(t, adv(s3)) {
                PRes::Done(b, s4) => PRes::Done(Stm::ForLoop(init, c, upd, b), s4),
                r => r.stop(),
            }
        },
        r => r.stop(),
    }
}

/// `var in items { body }` after `for`.
pub open spec fn for_in(t: Seq<Token>, s: PState) -> PRes<Stm>
    decreases ms(t, s), 10nat,
{
    proof {
        lemma_tg(t, s);
    }
    match kd(t, s.p) {
        TokenKind::Ident(v) => if tg(t, adv(s)) != Tag::In {
            exp_err(t, adv(s), Tag::In)
        } else {
            match expr(t, at(s, s.p + 2), 0) {
                PRes::Done(e, s1) => if !fwd(t, s, s1) {
                    PRes::Abort
                } else {
                    for_in_rest(t, s1, v@, e)
                },
                r => r.stop(),
            }
        },
        _ => ident_err(t, s),
    }
}

/// The items of `for var in` after the first one `e`, and the body.
pub open spec fn for_in_rest(t: Seq<Token>, s: PState, v: Seq<char>, e: Expr) -> PRes<Stm>
    decreases ms(t, s), 10nat,
{
    proof {
        lemma_tg(t, s);
    }
    match for_items(t, s, seq![e]) {
        PRes::Done(its, s2) => if !upto(t, s, s2) {
            PRes::Abort
        } else {
            match block(t, s2) {
                PRes::Done(b, s3) => PRes::Done(Stm::For(v, its, b), s3),
                r => r.stop(),
            }
        },
        r => r.stop(),
    }
}

/// Expressions up to `{` (not consumed), after `acc`.
pub open spec fn for_items(t: Seq<Token>, s: PState, acc: Seq<Expr>) -> PRes<Seq<Expr>>
    decreases ms(t, s), 6nat,
{
    proof {
        lemma_tg(t, s);
    }
    if tg(t, s) == Tag::LBrace {
        PRes::Done(acc, s)
    } else {
        match expr(t, s, 0) {
            PRes::Done(e, s2) => if fwd(t, s, s2) {
                for_items(t, s2, acc.push(e))
            } else {
                PRes::Abort
            },
            r => r.stop(),
        }
    }
}

/// `foreach var in expr { body }`.
pub open spec fn foreach_stmt(t: Seq<Token>, s: PState) -> PRes<Stm>
    decreases ms(t, s), 10nat,
{
    proof {
        lemma_tg(t, s);
    }
    if tg(t, s) != Tag::Foreach {
        exp_err(t, s, Tag::Foreach)
    } else {
        match kd(t, s.p + 1) {
            TokenKind::Ident(v) => if tg(t, at(s, s.p + 2)) != Tag::In {
                exp_err(t, at(s, s.p + 2), Tag::In)
            } else {
                match expr(t, at(s, s.p + 3), 0) {
                    PRes::Done(e, s1) => if !fwd(t, s, s1) {
                        PRes::Abort
                    } else {
                        match block(t, s1) {
                            PRes::Done(b, s2) => PRes::Done(Stm::Foreach(v@, e, b), s2),
                            r => r.stop(),
                        }
                    },
                    r => r.stop(),
                }
            },
            _ => ident_err(t, adv(s)),
        }
    }
}

/// `loop [count N | interval N] { body }`.
pub open spec fn loop_stmt(t: Seq<Token>, s: PState) -> PRes<Stm>
    decreases ms(t, s), 10nat,
{
    proof {
        lemma_tg(t, s);
    }
    if tg(t, s) != Tag::Loop {
        exp_err(t, s, Tag::Loop)
    } else {
        let s1 = adv(s);
        if tg(t, s1) == Tag::Count || tg(t, s1) == Tag::Interval {
            match kd(t, s1.p + 1) {
                TokenKind::Number(n) => match block(t, at(s1, s1.p + 2)) {
                    PRes::Done(b, s2) => PRes::Done(
                        if tg(t, s1) == Tag::Count {
                            Stm::Loop(Some(n as u64), None, b)
                        } else {
                            Stm::Loop(None, Some(n as u64), b)
                        },
                        s2,
                    ),
                    r => r.stop(),
                },
                _ => PRes::Fail(
                    if tg(t, s1) == Tag::Count {
                        "expected number after 'count'"@
                    } else {
                        "expected number after 'interval'"@
                    },
                    adv(s1),
                ),
            }
        } else {
            match block(t, s1) {
                PRes::Done(b, s2) => PRes::Done(Stm::Loop(None, None, b), s2),
                r => r.stop(),
            }
        }
    }
}

/// `return [expr] [;]`: no value before `;` or `}`.
pub open spec fn return_stmt(t: Seq<Token>, s: PState) -> PRes<Stm>
    decreases ms(t, s), 10nat,
{
    proof {
        lemma_tg(t, s);
    }
    if tg(t, s) != Tag::Return {
        exp_err(t, s, Tag::Return)
    } else {
        let s1 = adv(s);
        if tg(t, s1) == Tag::Semi || tg(t, s1) == Tag::RBrace {
            PRes::Done(Stm::Return(None), skip_if(t, s1, Tag::Semi))
        } else {
            match expr(t, s1, 0) {
                PRes::Done(e, s2) => PRes::Done(Stm::Return(Some(e)), skip_if(t, s2, Tag::Semi)),
                r => r.stop(),
            }
        }
    }
}

/// `try { } [catch { }]`.
pub open spec fn try_stmt(t: Seq<Token>, s: PState) -> PRes<Stm>
    decreases ms(t, s), 10nat,
{
    proof {
        lemma_tg(t, s);
    }
    if tg(t, s) != Tag::Try {
        exp_err(t, s, Tag::Try)
    } else {
        match block(t, adv(s)) {
            PRes::Done(b, s1) => if !fwd(t, s, s1) {
                PRes::Abort
            } else if tg(t, s1) == Tag::Catch {
                match block(t, adv(s1)) {
                    PRes::Done(c, s2) => PRes::Done(Stm::Try(b, Some(c)), s2),
                    r => r.stop(),
                }
            } else {
                PRes::Done(Stm::Try(b, None), s1)
            },
            r => r.stop(),
        }
    }
}

/// `scan [expr] of Type { label: statement ... }`.
pub open spec fn scan_stmt(t: Seq<Token>, s: PState) -> PRes<Stm>
    decreases ms(t, s), 10nat,
{
    proof {
        lemma_tg(t, s);
    }
    if tg(t, s) != Tag::Scan {
        exp_err(t, s, Tag::Scan)
    } else {
        match opt_expr(t, adv(s), Tag::Of) {
            PRes::Done(e, s1) => if !fwd(t, s, s1) {
                PRes::Abort
            } else {
                scan_rest(t, s1, e)
            },
            r => r.stop(),
        }
    }
}

/// `of Type { label: statement ... }` after the scanned expression `e`.
pub open spec fn scan_rest(t: Seq<Token>, s: PState, e: Option<Expr>) -> PRes<Stm>
    decreases ms(t, s), 10nat,
{
    proof {
        lemma_tg(t, s);
    }
    if tg(t, s) != Tag::Of {
        exp_err(t, s, Tag::Of)
    } else {
        match kd(t, s.p + 1) {
            TokenKind::Ident(n) => if tg(t, at(s, s.p + 2)) != Tag::LBrace {
                exp_err(t, at(s, s.p + 2), Tag::LBrace)
            } else {
                match labelled(t, at(s, s.p + 3), Seq::empty()) {
                    PRes::Done(bs, s2) => PRes::Done(Stm::Scan(e, n@, bs), s2),
                    r => r.stop(),
                }
            },
            _ => ident_err(t, adv(s)),
        }
    }
}

/// `label: statement` branches up to `}` (consumed), after `acc`.
pub open spec fn labelled(t: Seq<Token>, s: PState, acc: Seq<(Seq<char>, Seq<Stm>)>) -> PRes<
    Seq<(Seq<char>, Seq<Stm>)>,
>
    decreases ms(t, s), 10nat,
{
    proof {
        lemma_tg(t, s);
    }
    if tg(t, s) == Tag::RBrace {
        PRes::Done(acc, adv(s))
    } else {
        match kd(t, s.p) {
            TokenKind::Ident(l) => if tg(t, adv(s)) != Tag::Colon {
                exp_err(t, adv(s), Tag::Colon)
            } else {
                match stmt(t, at(s, s.p + 2)) {
                    PRes::Done(x, s2) => if fwd(t, s, s2) {
                        labelled(t, s2, acc.push((l@, seq![x])))
                    } else {
                        PRes::Abort
                    },
                    r => r.stop(),
                }
            },
            _ => ident_err(t, s),
        }
    }
}

/// `switch on expr { label: statement ... default: statement }`.
pub open spec fn switch_stmt(t: Seq<Token>, s: PState) -> PRes<Stm>
    decreases ms(t, s), 10nat,
{
    proof {
        lemma_tg(t, s);
    }
    if tg(t, s) != Tag::Switch {
        exp_err(t, s, Tag::Switch)
    } else if tg(t, adv(s)) != Tag::On {
        exp_err(t, adv(s), Tag::On)
    } else {
        match expr(t, at(s, s.p + 2), 0) {
            PRes::Done(e, s1) => if !fwd(t, s, s1) {
                PRes::Abort
            } else if tg(t, s1) != Tag::LBrace {
                exp_err(t, s1, Tag::LBrace)
            } else {
                match arms(t, adv(s1), Seq::empty(), None) {
                    PRes::Done(r, s2) => PRes::Done(Stm::Switch(e, r.0, r.1), s2),
                    r => r.stop(),
                }
            },
            r => r.stop(),
        }
    }
}

/// The branches of a switch up to `}` (consumed), after `acc`, with the last default
/// branch (after `dflt`).
pub open spec fn arms(
    t: Seq<Token>,
    s: PState,
    acc: Seq<(Seq<char>, Seq<Stm>)>,
    dflt: Option<Seq<Stm>>,
) -> PRes<(Seq<(Seq<char>, Seq<Stm>)>, Option<Seq<Stm>>)>
    decreases ms(t, s), 10nat,
{
    proof {
        lemma_tg(t, s);
    }
    if tg(t, s) == Tag::RBrace {
        PRes::Done((acc, dflt), adv(s))
    } else if tg(t, s) == Tag::Default {
        if tg(t, adv(s)) != Tag::Colon {
            exp_err(t, adv(s), Tag::Colon)
        } else {
            match stmt(t, at(s, s.p + 2)) {
                PRes::Done(x, s2) => if fwd(t, s, s2) {
                    arms(t, s2, acc, Some(seq![x]))
                } else {
                    PRes::Abort
                },
                r => r.stop(),
            }
        }
    } else {
        match kd(t, s.p) {
            TokenKind::Ident(l) => if tg(t, adv(s)) != Tag::Colon {
                exp_err(t, adv(s), Tag::Colon)
            } else {
                match stmt(t, at(s, s.p + 2)) {
                    PRes::Done(x, s2) => if fwd(t, s, s2) {
                        arms(t, s2, acc.push((l@, seq![x])), dflt)
                    } else {
                        PRes::Abort
                    },
                    r => r.stop(),
                }
            },
            _ => ident_err(t, s),
        }
    }
}

/// `chain { expr [;] ... }`.
pub open spec fn chain_stmt(t: Seq<Token>, s: PState) -> PRes<Stm>
    decreases ms(t, s), 10nat,
{
    proof {
        lemma_tg(t, s);
    }
    if tg(t, s) != Tag::Chain {
        exp_err(t, s, Tag::Chain)
    } else if tg(t, adv(s)) != Tag::LBrace {
        exp_err(t, adv(s), Tag::LBrace)
    } else {
        match steps(t, at(s, s.p + 2), Seq::empty()) {
            PRes::Done(es, s2) => PRes::Done(Stm::Chain(es), s2),
            r => r.stop(),
        }
    }
}

/// Expressions, each maybe followed by `;`, up to `}` (consumed), after `acc`.
pub open spec fn steps(t: Seq<Token>, s: PState, acc: Seq<Expr>) -> PRes<Seq<Expr>>
    decreases ms(t, s), 10nat,
{
    proof {
        lemma_tg(t, s);
    }
    if tg(t, s) == Tag::RBrace {
        PRes::Done(acc, adv(s))
    } else {
        match expr(t, s, 0) {
            PRes::Done(e, s2) => if fwd(t, s, s2) {
                steps(t, skip_if(t, s2, Tag::Semi), acc.push(e))
            } else {
                PRes::Abort
            },
            r => r.stop(),
        }
    }
}

// ---------------------------------------------------------------------------
// Conditions
// ---------------------------------------------------------------------------

/// A condition, maybe in parentheses.
pub open spec fn cond(t: Seq<Token>, s: PState) -> PRes<Cnd>
    decreases ms(t, s), 9nat,
{
    proof {
        lemma_tg(t, s);
    }
    if tg(t, s) == Tag::LParen {
        match cor(t, adv(s)) {
            PRes::Done(c, s2) => if tg(t, s2) == Tag::RParen {
                PRes::Done(c, adv(s2))
            } else {
                exp_err(t, s2, Tag::RParen)
            },
            r => r.stop(),
        }
    } else {
        cor(t, s)
    }
}

/// Conjunctions joined by `||`, grouped to the left.
pub open spec fn cor(t: Seq<Token>, s: PState) -> PRes<Cnd>
    decreases ms(t, s), 8nat,
{
    proof {
        lemma_tg(t, s);
    }
    match cand(t, s) {
        PRes::Done(l, s2) => if fwd(t, s, s2) {
            cor_rest(t, s2, l)
        } else {
            PRes::Abort
        },
        r => r.stop(),
    }
}

pub open spec fn cor_rest(t: Seq<Token>, s: PState, l: Cnd) -> PRes<Cnd>
    decreases ms(t, s), 8nat,
{
    proof {
        lemma_tg(t, s);
    }
    if tg(t, s) == Tag::OrOr {
        match cand(t, adv(s)) {
            PRes::Done(r, s2) => if fwd(t, s, s2) {
                cor_rest(t, s2, Cnd::Or(Box::new(l), Box::new(r)))
            } else {
                PRes::Abort
            },
            r => r.stop(),
        }
    } else {
        PRes::Done(l, s)
    }
}

/// Atoms joined by `&&`, grouped to the left.
pub open spec fn cand(t: Seq<Token>, s: PState) -> PRes<Cnd>
    decreases ms(t, s), 7nat,
{
    proof {
        lemma_tg(t, s);
    }
    match atom(t, s) {
        PRes::Done(l, s2) => if fwd(t, s, s2) {
            cand_rest(t, s2, l)
        } else {
            PRes::Abort
        },
        r => r.stop(),
    }
}

pub open spec fn cand_rest(t: Seq<Token>, s: PState, l: Cnd) -> PRes<Cnd>
    decreases ms(t, s), 7nat,
{
    proof {
        lemma_tg(t, s);
    }
    if tg(t, s) == Tag::AndAnd {
        match atom(t, adv(s)) {
            PRes::Done(r, s2) => if fwd(t, s, s2) {
                cand_rest(t, s2, Cnd::And(Box::new(l), Box::new(r)))
            } else {
                PRes::Abort
            },
            r => r.stop(),
        }
    } else {
        PRes::Done(l, s)
    }
}

/// `( condition )`, `expr op expr` with a comparison `op`, or an expression.
pub open spec fn atom(t: Seq<Token>, s: PState) -> PRes<Cnd>
    decreases ms(t, s), 6nat,
{
    proof {
        lemma_tg(t, s);
    }
    if tg(t, s) == Tag::LParen {
        match cor(t, adv(s)) {
            PRes::Done(c, s2) => if tg(t, s2) == Tag::RParen {
                PRes::Done(c, adv(s2))
            } else {
                exp_err(t, s2, Tag::RParen)
            },
            r => r.stop(),
        }
    } else {
        match expr(t, s, 0) {
            PRes::Done(l, s2) => match cmp_of(tg(t, s2)) {
                Some(op) => if fwd(t, s, s2) {
                    match expr(t, adv(s2), 0) {
                        PRes::Done(r, s3) => PRes::Done(Cnd::Compare(l, op, r), s3),
                        r => r.stop(),
                    }
                } else {
                    PRes::Abort
                },
                None => PRes::Done(Cnd::Command(l), s2),
            },
            r => r.stop(),
        }
    }
}

// ---------------------------------------------------------------------------
// Expressions
// ---------------------------------------------------------------------------

/// An expression whose binary operators bind at least as tightly as `bp`.
pub open spec fn expr(t: Seq<Token>, s: PState, bp: u8) -> PRes<Expr>
    decreases ms(t, s), 5nat,
{
    proof {
        lemma_tg(t, s);
    }
    match unary(t, s) {
        PRes::Done(l, s2) => if fwd(t, s, s2) {
            expr_rest(t, s2, bp, l)
        } else {
            PRes::Abort
        },
        r => r.stop(),
    }
}

/// The operators and operands that follow `lhs`.
pub open spec fn expr_rest(t: Seq<Token>, s: PState, bp: u8, lhs: Expr) -> PRes<Expr>
    decreases ms(t, s), 5nat,
{
    proof {
        lemma_tg(t, s);
    }
    match binop(tg(t, s)) {
        Some(o) => if o.1 < bp {
            PRes::Done(lhs, s)
        } else {
            match expr(t, adv(s), o.2) {
                PRes::Done(rhs, s2) => if fwd(t, s, s2) {
                    expr_rest(t, s2, bp, Expr::Bin(Box::new(lhs), o.0, Box::new(rhs)))
                } else {
                    PRes::Abort
                },
                r => r.stop(),
            }
        },
        None => PRes::Done(lhs, s),
    }
}

/// `-e`, `!e` or a primary expression.
pub open spec fn unary(t: Seq<Token>, s: PState) -> PRes<Expr>
    decreases ms(t, s), 4nat,
{
    proof {
        lemma_tg(t, s);
    }
    if tg(t, s) == Tag::Minus || tg(t, s) == Tag::Not {
        match unary(t, adv(s)) {
            PRes::Done(e, s2) => PRes::Done(
                Expr::Un(
                    if tg(t, s) == Tag::Minus {
                        UnOp::Neg
                    } else {
                        UnOp::Not
                    },
                    Box::new(e),
                ),
                s2,
            ),
            r => r.stop(),
        }
    } else {
        postfix(t, s)
    }
}

/// A primary expression (no postfix operator follows one).
pub open spec fn postfix(t: Seq<Token>, s: PState) -> PRes<Expr>
    decreases ms(t, s), 3nat,
{
    proof {
        lemma_tg(t, s);
    }
    primary(t, s)
}

/// A literal, a variable, a parenthesised expression, an array, a block, a call, a struct
/// literal or an enum literal.
pub open spec fn primary(t: Seq<Token>, s: PState) -> PRes<Expr>
    decreases ms(t, s), 2nat,
{
    proof {
        lemma_tg(t, s);
    }
    match kd(t, s.p) {
        TokenKind::Number(n) => PRes::Done(Expr::Lit(Lit::Number(n)), adv(s)),
        TokenKind::Float(f) => PRes::Done(Expr::Lit(Lit::Float(f@)), adv(s)),
        TokenKind::True => PRes::Done(Expr::Lit(Lit::Bool(true)), adv(s)),
        TokenKind::False => PRes::Done(Expr::Lit(Lit::Bool(false)), adv(s)),
        TokenKind::RawStr(x) => PRes::Done(Expr::Lit(Lit::Text(x@)), adv(s)),
        TokenKind::Char(c) => PRes::Done(Expr::Lit(Lit::Text(seq![c])), adv(s)),
        TokenKind::Str(ps) => PRes::Done(str_expr(ps@), adv(s)),
        TokenKind::Dollar => match kd(t, s.p + 1) {
            TokenKind::Ident(x) => match dotted(t, at(s, s.p + 2), x@) {
                PRes::Done(n, s2) => PRes::Done(Expr::Var(n), s2),
                r => r.stop(),
            },
            _ => ident_err(t, adv(s)),
        },
        TokenKind::At => PRes::Done(Expr::Var("@"@), adv(s)),
        TokenKind::LParen => match expr(t, adv(s), 0) {
            PRes::Done(e, s2) => if tg(t, s2) == Tag::RParen {
                PRes::Done(e, adv(s2))
            } else {
                exp_err(t, s2, Tag::RParen)
            },
            r => r.stop(),
        },
        TokenKind::LBracket => match array_items(t, adv(s), Seq::empty()) {
            PRes::Done(es, s2) => PRes::Done(Expr::Array(es), s2),
            r => r.stop(),
        },
        TokenKind::LBrace => match block(t, s) {
            PRes::Done(b, s2) => PRes::Done(Expr::Block(b), s2),
            r => r.stop(),
        },
        TokenKind::Ident(n) => {
            let s1 = adv(s);
            if tg(t, s1) == Tag::LParen {
                match call_args(t, adv(s1), Seq::empty()) {
                    PRes::Done(args, s2) => PRes::Done(
                        if c_name(n@) {
                            Expr::CCall(n@.skip(3), args)
                        } else {
                            Expr::Call(n@, args)
                        },
                        s2,
                    ),
                    r => r.stop(),
                }
            } else if tg(t, s1) == Tag::LBrace {
                match fields(t, adv(s1), Seq::empty()) {
                    PRes::Done(fs, s2) => PRes::Done(Expr::StructLit(n@, fs), s2),
                    r => r.stop(),
                }
            } else if tg(t, s1) == Tag::Dot {
                match kd(t, s1.p + 1) {
                    TokenKind::Ident(v) => PRes::Done(Expr::EnumLit(n@, v@), at(s1, s1.p + 2)),
                    _ => ident_err(t, adv(s1)),
                }
            } else {
                PRes::Done(Expr::Var(n@), s1)
            }
        },
        _ => PRes::Fail(m_unexpected(kd(t, s.p)), s),
    }
}

/// Call arguments separated by `,`, up to `)` (consumed), after `acc`.
pub open spec fn call_args(t: Seq<Token>, s: PState, acc: Seq<Expr>) -> PRes<Seq<Expr>>
    decreases ms(t, s), 6nat,
{
    proof {
        lemma_tg(t, s);
    }
    if tg(t, s) == Tag::RParen {
        PRes::Done(acc, adv(s))
    } else {
        match expr(t, s, 0) {
            PRes::Done(e, s2) => if tg(t, s2) == Tag::Comma {
                if fwd(t, s, s2) {
                    call_args(t, adv(s2), acc.push(e))
                } else {
                    PRes::Abort
                }
            } else if tg(t, s2) == Tag::RParen {
                PRes::Done(acc.push(e), adv(s2))
            } else {
                exp_err(t, s2, Tag::RParen)
            },
            r => r.stop(),
        }
    }
}

/// Array items, each maybe followed by `,`, up to `]` (consumed), after `acc`.
pub open spec fn array_items(t: Seq<Token>, s: PState, acc: Seq<Expr>) -> PRes<Seq<Expr>>
    decreases ms(t, s), 6nat,
{
    proof {
        lemma_tg(t, s);
    }
    if tg(t, s) == Tag::RBracket {
        PRes::Done(acc, adv(s))
    } else {
        match expr(t, s, 0) {
            PRes::Done(e, s2) => if fwd(t, s, s2) {
                array_items(t, skip_if(t, s2, Tag::Comma), acc.push(e))
            } else {
                PRes::Abort
            },
            r => r.stop(),
        }
    }
}

/// Struct literal fields `name: expr`, each maybe followed by `,`, up to `}` (consumed),
/// after `acc`.
pub open spec fn fields(t: Seq<Token>, s: PState, acc: Seq<(Seq<char>, Expr)>) -> PRes<
    Seq<(Seq<char>, Expr)>,
>
    decreases ms(t, s), 6nat,
{
    proof {
        lemma_tg(t, s);
    }
    if tg(t, s) == Tag::RBrace {
        PRes::Done(acc, adv(s))
    } else {
        match kd(t, s.p) {
            TokenKind::Ident(f) => if tg(t, adv(s)) != Tag::Colon {
                exp_err(t, adv(s), Tag::Colon)
            } else {
                match expr(t, at(s, s.p + 2), 0) {
                    PRes::Done(e, s2) => if fwd(t, s, s2) {
                        fields(t, skip_if(t, s2, Tag::Comma), acc.push((f@, e)))
                    } else {
                        PRes::Abort
                    },
                    r => r.stop(),
                }
            },
            _ => ident_err(t, s),
        }
    }
}

// ---------------------------------------------------------------------------
// A whole program
// ---------------------------------------------------------------------------

/// The statements from `s` to the end of the tokens, after `acc`; directives are skipped.
pub open spec fn program(t: Seq<Token>, s: PState, acc: Seq<Stm>) -> PRes<Seq<Stm>>
    decreases ms(t, s),
{
    proof {
        lemma_tg(t, s);
    }
    if tg(t, s) == Tag::Eof {
        PRes::Done(acc, s)
    } else if tg(t, s) == Tag::Directive {
        program(t, adv(s), acc)
    } else {
        match stmt(t, s) {
            PRes::Done(x, s2) => if fwd(t, s, s2) {
                program(t, s2, acc.push(x))
            } else {
                PRes::Abort
            },
            r => r.stop(),
        }
    }
}

// ---------------------------------------------------------------------------
// Helper facts
// ---------------------------------------------------------------------------

pub proof fn lemma_dotted(t: Seq<Token>, s: PState, n: Seq<char>)
    ensures
        dotted(t, s, n) matches PRes::Done(_, s2) ==> s2.p >= s.p && s2.main == s.main && s2.name
            == s.name && (s2.p > s.p ==> 0 <= s.p < s2.p <= t.len()),
    decreases ms(t, s),
{
    lemma_tg(t, s);
    if tg(t, s) == Tag::Dot {
        match kd(t, s.p + 1) {
            TokenKind::Ident(x) => lemma_dotted(t, at(s, s.p + 2), n + "."@ + x@),
            _ => {},
        }
    }
}

pub proof fn lemma_params(t: Seq<Token>, s: PState, acc: Seq<Seq<char>>)
    ensures
        params(t, s, acc) matches PRes::Done(_, s2) ==> s2.p >= s.p && s2.main == s.main && s2.name
            == s.name && (s2.p > s.p ==> 0 <= s.p < s2.p <= t.len()),
        params_next(t, s, acc) matches PRes::Done(_, s2) ==> s2.p >= s.p && s2.main == s.main
            && s2.name == s.name && (s2.p > s.p ==> 0 <= s.p < s2.p <= t.len()),
    decreases ms(t, s),
{
    lemma_tg(t, s);
    if tg(t, s) != Tag::RParen {
        match kd(t, s.p) {
            TokenKind::Ident(first) => match kd(t, s.p + 1) {
                TokenKind::Ident(second) => lemma_params(t, at(s, s.p + 2), acc.push(second@)),
                _ => lemma_params(t, adv(s), acc.push(first@)),
            },
            _ => {},
        }
    }
    if tg(t, s) == Tag::Comma {
        lemma_params(t, adv(s), acc);
    }
}

} // verus!

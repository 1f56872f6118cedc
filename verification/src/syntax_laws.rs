//! Laws of the token parser's model. On a token sequence that ends with the only `Eof`
//! token (as the lexer's do), no parsing step gives `Abort`: a statement, a block, an
//! expression or a condition that is parsed consumes at least one token, and the parser
//! never moves past the `Eof` token.
use vstd::prelude::*;
use crate::lexer::{Token, TokenKind};
use crate::syntax::{BinOp, Cnd, Expr, Lit, Stm};
use crate::syntax_model::{
    adv, arms, array_items, at, atom, binop, block, call_args, cand, cand_rest, cfor, cfor_mid,
    cfor_rest, cfor_tail, cmp_of, cond, cor, cor_rest, dotted, elif_cond, elif_rest, elifs,
    enum_defs, expr, expr_rest, fields, fn_rest, for_in, for_in_rest, for_items, init_clause,
    items, kd, labelled, lemma_tg, ms, opt_expr, opt_init, params, params_next, postfix, primary,
    program, skip_if, steps, stmt, struct_defs, tg, unary, value_expr, PRes, PState,
};
use crate::token_tags::{lemma_tag, Tag};

verus! {

/// The tokens end with an `Eof` token, the only one.
pub closed spec fn wft(t: Seq<Token>) -> bool {
    &&& t.len() > 0
    &&& t.last().kind == TokenKind::Eof
    &&& forall|i: int| 0 <= i < t.len() - 1 ==> (#[trigger] t[i]).kind != TokenKind::Eof
}

pub proof fn lemma_wft(t: Seq<Token>)
    requires
        t.len() > 0,
        t.last().kind == TokenKind::Eof,
        forall|i: int| 0 <= i < t.len() - 1 ==> (#[trigger] t[i]).kind != TokenKind::Eof,
    ensures
        wft(t),
{
}

pub open spec fn valid(t: Seq<Token>, s: PState) -> bool {
    0 <= s.p < t.len()
}

/// The step did not abort, and if it succeeded it consumed at least one token and stayed
/// on a token.
pub open spec fn strict<T>(t: Seq<Token>, s: PState, r: PRes<T>) -> bool {
    match r {
        PRes::Done(_, s2) => s.p < s2.p < t.len(),
        PRes::Fail(_, _) => true,
        PRes::Abort => false,
    }
}

/// The step did not abort, and if it succeeded it did not move back and stayed on a token.
pub open spec fn mono<T>(t: Seq<Token>, s: PState, r: PRes<T>) -> bool {
    match r {
        PRes::Done(_, s2) => s.p <= s2.p < t.len(),
        PRes::Fail(_, _) => true,
        PRes::Abort => false,
    }
}

proof fn lemma_next(t: Seq<Token>, s: PState)
    requires
        wft(t),
        tg(t, s) != Tag::Eof,
    ensures
        0 <= s.p && s.p + 1 < t.len(),
{
    lemma_tag(kd(t, s.p));
    lemma_tg(t, s);
}

proof fn lemma_next_kd(t: Seq<Token>, q: int)
    requires
        wft(t),
        !(kd(t, q) is Eof),
    ensures
        0 <= q && q + 1 < t.len(),
{
}

proof fn lemma_skip(t: Seq<Token>, s: PState, g: Tag)
    requires
        wft(t),
        valid(t, s),
        g != Tag::Eof,
    ensures
        s.p <= skip_if(t, s, g).p < t.len(),
{
    if tg(t, s) == g {
        lemma_next(t, s);
    }
}

proof fn mv_dotted(t: Seq<Token>, s: PState, n: Seq<char>)
    requires
        wft(t),
        valid(t, s),
    ensures
        mono(t, s, dotted(t, s, n)),
    decreases ms(t, s),
{
    if tg(t, s) == Tag::Dot {
        lemma_next(t, s);
        match kd(t, s.p + 1) {
            TokenKind::Ident(x) => {
                lemma_next_kd(t, s.p + 1);
                mv_dotted(t, at(s, s.p + 2), n + "."@ + x@);
            },
            _ => {},
        }
    }
}

proof fn mv_params(t: Seq<Token>, s: PState, acc: Seq<Seq<char>>)
    requires
        wft(t),
        valid(t, s),
    ensures
        mono(t, s, params(t, s, acc)),
        mono(t, s, params_next(t, s, acc)),
    decreases ms(t, s),
{
    if tg(t, s) != Tag::RParen {
        match kd(t, s.p) {
            TokenKind::Ident(first) => {
                lemma_next_kd(t, s.p);
                match kd(t, s.p + 1) {
                    TokenKind::Ident(second) => {
                        lemma_next_kd(t, s.p + 1);
                        mv_params(t, at(s, s.p + 2), acc.push(second@));
                    },
                    _ => mv_params(t, adv(s), acc.push(first@)),
                }
            },
            _ => {},
        }
    }
    if tg(t, s) == Tag::Comma {
        lemma_next(t, s);
        mv_params(t, adv(s), acc);
    }
}

proof fn mv_struct_defs(t: Seq<Token>, s: PState, acc: Seq<Seq<char>>)
    requires
        wft(t),
        valid(t, s),
    ensures
        strict(t, s, struct_defs(t, s, acc)),
    decreases ms(t, s),
{
    if tg(t, s) == Tag::RBrace {
        lemma_next(t, s);
    } else {
        match kd(t, s.p) {
            TokenKind::Ident(f) => {
                lemma_next_kd(t, s.p);
                if tg(t, adv(s)) == Tag::Colon {
                    lemma_next(t, adv(s));
                    match kd(t, s.p + 2) {
                        TokenKind::Ident(_) => {
                            lemma_next_kd(t, s.p + 2);
                            lemma_skip(t, at(s, s.p + 3), Tag::Comma);
                            mv_struct_defs(t, skip_if(t, at(s, s.p + 3), Tag::Comma), acc.push(f@));
                        },
                        _ => {},
                    }
                }
            },
            _ => {},
        }
    }
}

proof fn mv_enum_defs(t: Seq<Token>, s: PState, acc: Seq<Seq<char>>)
    requires
        wft(t),
        valid(t, s),
    ensures
        strict(t, s, enum_defs(t, s, acc)),
    decreases ms(t, s),
{
    if tg(t, s) == Tag::RBrace {
        lemma_next(t, s);
    } else {
        match kd(t, s.p) {
            TokenKind::Ident(v) => {
                lemma_next_kd(t, s.p);
                lemma_skip(t, adv(s), Tag::Comma);
                mv_enum_defs(t, skip_if(t, adv(s), Tag::Comma), acc.push(v@));
            },
            _ => {},
        }
    }
}

proof fn mv_struct(t: Seq<Token>, s: PState)
    requires
        wft(t),
        valid(t, s),
    ensures
        strict(t, s, crate::syntax_model::struct_stmt(t, s)),
{
    if tg(t, s) == Tag::Struct {
        lemma_next(t, s);
        match kd(t, s.p + 1) {
            TokenKind::Ident(_) => {
                lemma_next_kd(t, s.p + 1);
                if tg(t, at(s, s.p + 2)) == Tag::LBrace {
                    lemma_next(t, at(s, s.p + 2));
                    mv_struct_defs(t, at(s, s.p + 3), Seq::empty());
                }
            },
            _ => {},
        }
    }
}

proof fn mv_enum(t: Seq<Token>, s: PState)
    requires
        wft(t),
        valid(t, s),
    ensures
        strict(t, s, crate::syntax_model::enum_stmt(t, s)),
{
    if tg(t, s) == Tag::Enum {
        lemma_next(t, s);
        match kd(t, s.p + 1) {
            TokenKind::Ident(_) => {
                lemma_next_kd(t, s.p + 1);
                if tg(t, at(s, s.p + 2)) == Tag::LBrace {
                    lemma_next(t, at(s, s.p + 2));
                    mv_enum_defs(t, at(s, s.p + 3), Seq::empty());
                }
            },
            _ => {},
        }
    }
}

// ---------------------------------------------------------------------------
// Statements
// ---------------------------------------------------------------------------

proof fn mv_stmt(t: Seq<Token>, s: PState)
    requires
        wft(t),
        valid(t, s),
    ensures
        strict(t, s, stmt(t, s)),
    decreases ms(t, s), 11nat,
{
    lemma_tag(kd(t, s.p));
    match kd(t, s.p) {
        TokenKind::Directive(_) => {
            lemma_next_kd(t, s.p);
            mv_stmt(t, adv(s));
        },
        TokenKind::MainFunction => mv_function(t, s),
        TokenKind::Let => mv_let(t, s),
        TokenKind::Function => mv_function(t, s),
        TokenKind::If => mv_if(t, s),
        TokenKind::While => mv_while(t, s),
        TokenKind::For => mv_for(t, s),
        TokenKind::Foreach => mv_foreach(t, s),
        TokenKind::Loop => mv_loop(t, s),
        TokenKind::Break => lemma_next_kd(t, s.p),
        TokenKind::Continue => lemma_next_kd(t, s.p),
        TokenKind::Return => mv_return(t, s),
        TokenKind::Try => mv_try(t, s),
        TokenKind::Struct => mv_struct(t, s),
        TokenKind::Enum => mv_enum(t, s),
        TokenKind::Scan => mv_scan(t, s),
        TokenKind::Switch => mv_switch(t, s),
        TokenKind::Chain => mv_chain(t, s),
        TokenKind::Dollar => mv_assign(t, s),
        TokenKind::LBrace => mv_block(t, s),
        _ => {
            mv_expr(t, s, 0);
            if let PRes::Done(_, s2) = expr(t, s, 0) {
                lemma_skip(t, s2, Tag::Semi);
            }
        },
    }
}

proof fn mv_block(t: Seq<Token>, s: PState)
    requires
        wft(t),
        valid(t, s),
    ensures
        strict(t, s, block(t, s)),
    decreases ms(t, s), 1nat,
{
    if tg(t, s) == Tag::LBrace {
        lemma_next(t, s);
        mv_items(t, adv(s), Seq::empty());
    }
}

proof fn mv_items(t: Seq<Token>, s: PState, acc: Seq<Stm>)
    requires
        wft(t),
        valid(t, s),
    ensures
        strict(t, s, items(t, s, acc)),
    decreases ms(t, s), 12nat,
{
    if tg(t, s) == Tag::RBrace {
        lemma_next(t, s);
    } else if tg(t, s) == Tag::Eof {
    } else if tg(t, s) == Tag::Directive {
        lemma_next(t, s);
        mv_items(t, adv(s), acc);
    } else {
        mv_stmt(t, s);
        if let PRes::Done(x, s2) = stmt(t, s) {
            mv_items(t, s2, acc.push(x));
        }
    }
}

proof fn mv_value(t: Seq<Token>, s: PState)
    requires
        wft(t),
        valid(t, s),
    ensures
        strict(t, s, value_expr(t, s)),
    decreases ms(t, s), 6nat,
{
    if tg(t, s) == Tag::LBrace {
        mv_block(t, s);
    } else {
        mv_expr(t, s, 0);
    }
}

proof fn mv_let(t: Seq<Token>, s: PState)
    requires
        wft(t),
        valid(t, s),
    ensures
        strict(t, s, crate::syntax_model::let_stmt(t, s)),
    decreases ms(t, s), 10nat,
{
    if tg(t, s) == Tag::Let {
        lemma_next(t, s);
        lemma_skip(t, adv(s), Tag::Const);
        let s1 = skip_if(t, adv(s), Tag::Const);
        match kd(t, s1.p) {
            TokenKind::Ident(_) => {
                lemma_next_kd(t, s1.p);
                if tg(t, adv(s1)) == Tag::Eq {
                    lemma_next(t, adv(s1));
                    mv_value(t, at(s1, s1.p + 2));
                    if let PRes::Done(_, s2) = value_expr(t, at(s1, s1.p + 2)) {
                        lemma_skip(t, s2, Tag::Semi);
                    }
                }
            },
            _ => {},
        }
    }
}

proof fn mv_assign(t: Seq<Token>, s: PState)
    requires
        wft(t),
        valid(t, s),
    ensures
        strict(t, s, crate::syntax_model::assign_stmt(t, s)),
    decreases ms(t, s), 10nat,
{
    if tg(t, s) == Tag::Dollar {
        lemma_next(t, s);
        match kd(t, s.p + 1) {
            TokenKind::Ident(x) => {
                lemma_next_kd(t, s.p + 1);
                mv_dotted(t, at(s, s.p + 2), x@);
                if let PRes::Done(_, s1) = dotted(t, at(s, s.p + 2), x@) {
                    if tg(t, s1) == Tag::Eq {
                        lemma_next(t, s1);
                        mv_value(t, adv(s1));
                        if let PRes::Done(_, s2) = value_expr(t, adv(s1)) {
                            lemma_skip(t, s2, Tag::Semi);
                        }
                    }
                }
            },
            _ => {},
        }
    }
}

proof fn mv_function(t: Seq<Token>, s: PState)
    requires
        wft(t),
        valid(t, s),
    ensures
        strict(t, s, crate::syntax_model::function(t, s)),
    decreases ms(t, s), 10nat,
{
    match kd(t, s.p) {
        TokenKind::Function => {
            lemma_next_kd(t, s.p);
            mv_fn_rest(t, adv(s), false);
        },
        TokenKind::MainFunction => {
            lemma_next_kd(t, s.p);
            mv_fn_rest(t, PState { p: s.p + 1, main: true, name: s.name }, true);
        },
        _ => {},
    }
}

proof fn mv_fn_rest(t: Seq<Token>, s: PState, marked: bool)
    requires
        wft(t),
        valid(t, s),
    ensures
        strict(t, s, fn_rest(t, s, marked)),
    decreases ms(t, s), 10nat,
{
    match kd(t, s.p) {
        TokenKind::Ident(n) => {
            lemma_next_kd(t, s.p);
            let s1 = if marked {
                PState { p: s.p + 1, main: s.main, name: Some(n@) }
            } else {
                adv(s)
            };
            if tg(t, s1) == Tag::LParen {
                lemma_next(t, s1);
                mv_params(t, adv(s1), Seq::empty());
                if let PRes::Done(_, s2) = params(t, adv(s1), Seq::empty()) {
                    if tg(t, s2) == Tag::RParen {
                        lemma_next(t, s2);
                        let s3 = adv(s2);
                        if tg(t, s3) != Tag::LBrace && (tg(t, s3) == Tag::Noret || tg(t, s3)
                            == Tag::Ident) {
                            lemma_next(t, s3);
                        }
                        let s4 = if tg(t, s3) != Tag::LBrace && (tg(t, s3) == Tag::Noret || tg(
                            t,
                            s3,
                        ) == Tag::Ident) {
                            adv(s3)
                        } else {
                            s3
                        };
                        mv_block(t, s4);
                    }
                }
            }
        },
        _ => {},
    }
}

proof fn mv_if(t: Seq<Token>, s: PState)
    requires
        wft(t),
        valid(t, s),
    ensures
        strict(t, s, crate::syntax_model::if_stmt(t, s)),
    decreases ms(t, s), 10nat,
{
    if tg(t, s) == Tag::If {
        lemma_next(t, s);
        mv_cond(t, adv(s));
        if let PRes::Done(_, s1) = cond(t, adv(s)) {
            mv_block(t, s1);
            if let PRes::Done(_, s2) = block(t, s1) {
                mv_elifs(t, s2, Seq::empty());
            }
        }
    }
}

proof fn mv_elifs(t: Seq<Token>, s: PState, acc: Seq<(Cnd, Seq<Stm>)>)
    requires
        wft(t),
        valid(t, s),
    ensures
        mono(t, s, elifs(t, s, acc)),
    decreases ms(t, s), 10nat,
{
    if tg(t, s) == Tag::Elif {
        lemma_next(t, s);
        mv_elif_cond(t, adv(s), acc);
    } else if tg(t, s) == Tag::Else {
        lemma_next(t, s);
        if tg(t, adv(s)) == Tag::If {
            lemma_next(t, adv(s));
            mv_elif_cond(t, at(s, s.p + 2), acc);
        } else {
            mv_block(t, adv(s));
        }
    }
}

proof fn mv_elif_cond(t: Seq<Token>, s: PState, acc: Seq<(Cnd, Seq<Stm>)>)
    requires
        wft(t),
        valid(t, s),
    ensures
        strict(t, s, elif_cond(t, s, acc)),
    decreases ms(t, s), 10nat,
{
    mv_cond(t, s);
    if let PRes::Done(c, s1) = cond(t, s) {
        mv_elif_rest(t, s1, acc, c);
    }
}

proof fn mv_elif_rest(t: Seq<Token>, s: PState, acc: Seq<(Cnd, Seq<Stm>)>, c: Cnd)
    requires
        wft(t),
        valid(t, s),
    ensures
        strict(t, s, elif_rest(t, s, acc, c)),
    decreases ms(t, s), 10nat,
{
    mv_block(t, s);
    if let PRes::Done(b, s2) = block(t, s) {
        mv_elifs(t, s2, acc.push((c, b)));
    }
}

proof fn mv_while(t: Seq<Token>, s: PState)
    requires
        wft(t),
        valid(t, s),
    ensures
        strict(t, s, crate::syntax_model::while_stmt(t, s)),
    decreases ms(t, s), 10nat,
{
    if tg(t, s) == Tag::While {
        lemma_next(t, s);
        mv_cond(t, adv(s));
        if let PRes::Done(_, s1) = cond(t, adv(s)) {
            mv_block(t, s1);
        }
    }
}

proof fn mv_init(t: Seq<Token>, s: PState)
    requires
        wft(t),
        valid(t, s),
    ensures
        strict(t, s, init_clause(t, s)),
    decreases ms(t, s), 6nat,
{
    if tg(t, s) == Tag::Let || tg(t, s) == Tag::Dollar {
        lemma_next(t, s);
        match kd(t, s.p + 1) {
            TokenKind::Ident(_) => {
                lemma_next_kd(t, s.p + 1);
                if tg(t, at(s, s.p + 2)) == Tag::Eq {
                    lemma_next(t, at(s, s.p + 2));
                    mv_expr(t, at(s, s.p + 3), 0);
                }
            },
            _ => {},
        }
    } else {
        mv_expr(t, s, 0);
    }
}

proof fn mv_opt_init(t: Seq<Token>, s: PState, g: Tag)
    requires
        wft(t),
        valid(t, s),
    ensures
        mono(t, s, opt_init(t, s, g)),
    decreases ms(t, s), 7nat,
{
    if tg(t, s) != g {
        mv_init(t, s);
    }
}

proof fn mv_opt_expr(t: Seq<Token>, s: PState, g: Tag)
    requires
        wft(t),
        valid(t, s),
    ensures
        mono(t, s, opt_expr(t, s, g)),
    decreases ms(t, s), 6nat,
{
    if tg(t, s) != g {
        mv_expr(t, s, 0);
    }
}

proof fn mv_for(t: Seq<Token>, s: PState)
    requires
        wft(t),
        valid(t, s),
    ensures
        strict(t, s, crate::syntax_model::for_stmt(t, s)),
    decreases ms(t, s), 10nat,
{
    if tg(t, s) == Tag::For {
        lemma_next(t, s);
        if tg(t, adv(s)) == Tag::LParen {
            lemma_next(t, adv(s));
            mv_cfor(t, at(s, s.p + 2));
        } else {
            mv_for_in(t, adv(s));
        }
    }
}

#[verifier::spinoff_prover]
#[verifier::rlimit(100)]
proof fn mv_cfor(t: Seq<Token>, s: PState)
    requires
        wft(t),
        valid(t, s),
    ensures
        strict(t, s, cfor(t, s)),
    decreases ms(t, s), 10nat,
{
    mv_opt_init(t, s, Tag::Comma);
    if let PRes::Done(init, s1) = opt_init(t, s, Tag::Comma) {
        mv_cfor_rest(t, s1, init);
    }
}

proof fn mv_cfor_rest(t: Seq<Token>, s: PState, init: Option<Expr>)
    requires
        wft(t),
        valid(t, s),
    ensures
        strict(t, s, cfor_rest(t, s, init)),
    decreases ms(t, s), 9nat,
{
    if tg(t, s) == Tag::Comma {
        lemma_next(t, s);
        mv_cond(t, adv(s));
        if let PRes::Done(c, s2) = cond(t, adv(s)) {
            mv_cfor_mid(t, s2, init, c);
        }
    }
}

proof fn mv_cfor_mid(t: Seq<Token>, s: PState, init: Option<Expr>, c: Cnd)
    requires
        wft(t),
        valid(t, s),
    ensures
        strict(t, s, cfor_mid(t, s, init, c)),
    decreases ms(t, s), 10nat,
{
    if tg(t, s) == Tag::Comma {
        lemma_next(t, s);
        mv_cfor_tail(t, adv(s), init, c);
    }
}

proof fn mv_cfor_tail(t: Seq<Token>, s: PState, init: Option<Expr>, c: Cnd)
    requires
        wft(t),
        valid(t, s),
    ensures
        strict(t, s, cfor_tail(t, s, init, c)),
    decreases ms(t, s), 10nat,
{
    mv_opt_init(t, s, Tag::RParen);
    if let PRes::Done(_, s3) = opt_init(t, s, Tag::RParen) {
        if tg(t, s3) == Tag::RParen {
            lemma_next(t, s3);
            mv_block(t, adv(s3));
        }
    }
}

proof fn mv_for_in(t: Seq<Token>, s: PState)
    requires
        wft(t),
        valid(t, s),
    ensures
        strict(t, s, for_in(t, s)),
    decreases ms(t, s), 10nat,
{
    match kd(t, s.p) {
        TokenKind::Ident(v) => {
            lemma_next_kd(t, s.p);
            if tg(t, adv(s)) == Tag::In {
                lemma_next(t, adv(s));
                mv_expr(t, at(s, s.p + 2), 0);
                if let PRes::Done(e, s1) = expr(t, at(s, s.p + 2), 0) {
                    mv_for_in_rest(t, s1, v@, e);
                }
            }
        },
        _ => {},
    }
}

proof fn mv_for_in_rest(t: Seq<Token>, s: PState, v: Seq<char>, e: Expr)
    requires
        wft(t),
        valid(t, s),
    ensures
        strict(t, s, for_in_rest(t, s, v, e)),
    decreases ms(t, s), 10nat,
{
    mv_for_items(t, s, seq![e]);
    if let PRes::Done(_, s2) = for_items(t, s, seq![e]) {
        mv_block(t, s2);
    }
}

proof fn mv_for_items(t: Seq<Token>, s: PState, acc: Seq<Expr>)
    requires
        wft(t),
        valid(t, s),
    ensures
        mono(t, s, for_items(t, s, acc)),
    decreases ms(t, s), 6nat,
{
    if tg(t, s) != Tag::LBrace {
        mv_expr(t, s, 0);
        if let PRes::Done(e, s2) = expr(t, s, 0) {
            mv_for_items(t, s2, acc.push(e));
        }
    }
}

proof fn mv_foreach(t: Seq<Token>, s: PState)
    requires
        wft(t),
        valid(t, s),
    ensures
        strict(t, s, crate::syntax_model::foreach_stmt(t, s)),
    decreases ms(t, s), 10nat,
{
    if tg(t, s) == Tag::Foreach {
        lemma_next(t, s);
        match kd(t, s.p + 1) {
            TokenKind::Ident(_) => {
                lemma_next_kd(t, s.p + 1);
                if tg(t, at(s, s.p + 2)) == Tag::In {
                    lemma_next(t, at(s, s.p + 2));
                    mv_expr(t, at(s, s.p + 3), 0);
                    if let PRes::Done(_, s1) = expr(t, at(s, s.p + 3), 0) {
                        mv_block(t, s1);
                    }
                }
            },
            _ => {},
        }
    }
}

proof fn mv_loop(t: Seq<Token>, s: PState)
    requires
        wft(t),
        valid(t, s),
    ensures
        strict(t, s, crate::syntax_model::loop_stmt(t, s)),
    decreases ms(t, s), 10nat,
{
    if tg(t, s) == Tag::Loop {
        lemma_next(t, s);
        let s1 = adv(s);
        if tg(t, s1) == Tag::Count || tg(t, s1) == Tag::Interval {
            lemma_next(t, s1);
            match kd(t, s1.p + 1) {
                TokenKind::Number(_) => {
                    lemma_next_kd(t, s1.p + 1);
                    mv_block(t, at(s1, s1.p + 2));
                },
                _ => {},
            }
        } else {
            mv_block(t, s1);
        }
    }
}

proof fn mv_return(t: Seq<Token>, s: PState)
    requires
        wft(t),
        valid(t, s),
    ensures
        strict(t, s, crate::syntax_model::return_stmt(t, s)),
    decreases ms(t, s), 10nat,
{
    if tg(t, s) == Tag::Return {
        lemma_next(t, s);
        let s1 = adv(s);
        if tg(t, s1) == Tag::Semi || tg(t, s1) == Tag::RBrace {
            lemma_skip(t, s1, Tag::Semi);
        } else {
            mv_expr(t, s1, 0);
            if let PRes::Done(_, s2) = expr(t, s1, 0) {
                lemma_skip(t, s2, Tag::Semi);
            }
        }
    }
}

proof fn mv_try(t: Seq<Token>, s: PState)
    requires
        wft(t),
        valid(t, s),
    ensures
        strict(t, s, crate::syntax_model::try_stmt(t, s)),
    decreases ms(t, s), 10nat,
{
    if tg(t, s) == Tag::Try {
        lemma_next(t, s);
        mv_block(t, adv(s));
        if let PRes::Done(_, s1) = block(t, adv(s)) {
            if tg(t, s1) == Tag::Catch {
                lemma_next(t, s1);
                mv_block(t, adv(s1));
            }
        }
    }
}

proof fn mv_scan(t: Seq<Token>, s: PState)
    requires
        wft(t),
        valid(t, s),
    ensures
        strict(t, s, crate::syntax_model::scan_stmt(t, s)),
    decreases ms(t, s), 10nat,
{
    if tg(t, s) == Tag::Scan {
        lemma_next(t, s);
        mv_opt_expr(t, adv(s), Tag::Of);
        if let PRes::Done(e, s1) = opt_expr(t, adv(s), Tag::Of) {
            mv_scan_rest(t, s1, e);
        }
    }
}

proof fn mv_scan_rest(t: Seq<Token>, s: PState, e: Option<Expr>)
    requires
        wft(t),
        valid(t, s),
    ensures
        strict(t, s, crate::syntax_model::scan_rest(t, s, e)),
    decreases ms(t, s), 10nat,
{
    if tg(t, s) == Tag::Of {
        lemma_next(t, s);
        match kd(t, s.p + 1) {
            TokenKind::Ident(_) => {
                lemma_next_kd(t, s.p + 1);
                if tg(t, at(s, s.p + 2)) == Tag::LBrace {
                    lemma_next(t, at(s, s.p + 2));
                    mv_labelled(t, at(s, s.p + 3), Seq::empty());
                }
            },
            _ => {},
        }
    }
}

proof fn mv_labelled(t: Seq<Token>, s: PState, acc: Seq<(Seq<char>, Seq<Stm>)>)
    requires
        wft(t),
        valid(t, s),
    ensures
        strict(t, s, labelled(t, s, acc)),
    decreases ms(t, s), 10nat,
{
    if tg(t, s) == Tag::RBrace {
        lemma_next(t, s);
    } else {
        match kd(t, s.p) {
            TokenKind::Ident(l) => {
                lemma_next_kd(t, s.p);
                if tg(t, adv(s)) == Tag::Colon {
                    lemma_next(t, adv(s));
                    mv_stmt(t, at(s, s.p + 2));
                    if let PRes::Done(x, s2) = stmt(t, at(s, s.p + 2)) {
                        mv_labelled(t, s2, acc.push((l@, seq![x])));
                    }
                }
            },
            _ => {},
        }
    }
}

proof fn mv_switch(t: Seq<Token>, s: PState)
    requires
        wft(t),
        valid(t, s),
    ensures
        strict(t, s, crate::syntax_model::switch_stmt(t, s)),
    decreases ms(t, s), 10nat,
{
    if tg(t, s) == Tag::Switch {
        lemma_next(t, s);
        if tg(t, adv(s)) == Tag::On {
            lemma_next(t, adv(s));
            mv_expr(t, at(s, s.p + 2), 0);
            if let PRes::Done(_, s1) = expr(t, at(s, s.p + 2), 0) {
                if tg(t, s1) == Tag::LBrace {
                    lemma_next(t, s1);
                    mv_arms(t, adv(s1), Seq::empty(), None);
                }
            }
        }
    }
}

proof fn mv_arms(
    t: Seq<Token>,
    s: PState,
    acc: Seq<(Seq<char>, Seq<Stm>)>,
    dflt: Option<Seq<Stm>>,
)
    requires
        wft(t),
        valid(t, s),
    ensures
        strict(t, s, arms(t, s, acc, dflt)),
    decreases ms(t, s), 10nat,
{
    if tg(t, s) == Tag::RBrace {
        lemma_next(t, s);
    } else if tg(t, s) == Tag::Default {
        lemma_next(t, s);
        if tg(t, adv(s)) == Tag::Colon {
            lemma_next(t, adv(s));
            mv_stmt(t, at(s, s.p + 2));
            if let PRes::Done(x, s2) = stmt(t, at(s, s.p + 2)) {
                mv_arms(t, s2, acc, Some(seq![x]));
            }
        }
    } else {
        match kd(t, s.p) {
            TokenKind::Ident(l) => {
                lemma_next_kd(t, s.p);
                if tg(t, adv(s)) == Tag::Colon {
                    lemma_next(t, adv(s));
                    mv_stmt(t, at(s, s.p + 2));
                    if let PRes::Done(x, s2) = stmt(t, at(s, s.p + 2)) {
                        mv_arms(t, s2, acc.push((l@, seq![x])), dflt);
                    }
                }
            },
            _ => {},
        }
    }
}

proof fn mv_chain(t: Seq<Token>, s: PState)
    requires
        wft(t),
        valid(t, s),
    ensures
        strict(t, s, crate::syntax_model::chain_stmt(t, s)),
    decreases ms(t, s), 10nat,
{
    if tg(t, s) == Tag::Chain {
        lemma_next(t, s);
        if tg(t, adv(s)) == Tag::LBrace {
            lemma_next(t, adv(s));
            mv_steps(t, at(s, s.p + 2), Seq::empty());
        }
    }
}

proof fn mv_steps(t: Seq<Token>, s: PState, acc: Seq<Expr>)
    requires
        wft(t),
        valid(t, s),
    ensures
        strict(t, s, steps(t, s, acc)),
    decreases ms(t, s), 10nat,
{
    if tg(t, s) == Tag::RBrace {
        lemma_next(t, s);
    } else {
        mv_expr(t, s, 0);
        if let PRes::Done(e, s2) = expr(t, s, 0) {
            lemma_skip(t, s2, Tag::Semi);
            mv_steps(t, skip_if(t, s2, Tag::Semi), acc.push(e));
        }
    }
}

// ---------------------------------------------------------------------------
// Conditions and expressions
// ---------------------------------------------------------------------------

proof fn mv_cond(t: Seq<Token>, s: PState)
    requires
        wft(t),
        valid(t, s),
    ensures
        strict(t, s, cond(t, s)),
    decreases ms(t, s), 9nat,
{
    if tg(t, s) == Tag::LParen {
        lemma_next(t, s);
        mv_cor(t, adv(s));
        if let PRes::Done(_, s2) = cor(t, adv(s)) {
            if tg(t, s2) == Tag::RParen {
                lemma_next(t, s2);
            }
        }
    } else {
        mv_cor(t, s);
    }
}

proof fn mv_cor(t: Seq<Token>, s: PState)
    requires
        wft(t),
        valid(t, s),
    ensures
        strict(t, s, cor(t, s)),
    decreases ms(t, s), 8nat,
{
    mv_cand(t, s);
    if let PRes::Done(l, s2) = cand(t, s) {
        mv_cor_rest(t, s2, l);
    }
}

proof fn mv_cor_rest(t: Seq<Token>, s: PState, l: Cnd)
    requires
        wft(t),
        valid(t, s),
    ensures
        mono(t, s, cor_rest(t, s, l)),
    decreases ms(t, s), 8nat,
{
    if tg(t, s) == Tag::OrOr {
        lemma_next(t, s);
        mv_cand(t, adv(s));
        if let PRes::Done(r, s2) = cand(t, adv(s)) {
            mv_cor_rest(t, s2, Cnd::Or(Box::new(l), Box::new(r)));
        }
    }
}

proof fn mv_cand(t: Seq<Token>, s: PState)
    requires
        wft(t),
        valid(t, s),
    ensures
        strict(t, s, cand(t, s)),
    decreases ms(t, s), 7nat,
{
    mv_atom(t, s);
    if let PRes::Done(l, s2) = atom(t, s) {
        mv_cand_rest(t, s2, l);
    }
}

proof fn mv_cand_rest(t: Seq<Token>, s: PState, l: Cnd)
    requires
        wft(t),
        valid(t, s),
    ensures
        mono(t, s, cand_rest(t, s, l)),
    decreases ms(t, s), 7nat,
{
    if tg(t, s) == Tag::AndAnd {
        lemma_next(t, s);
        mv_atom(t, adv(s));
        if let PRes::Done(r, s2) = atom(t, adv(s)) {
            mv_cand_rest(t, s2, Cnd::And(Box::new(l), Box::new(r)));
        }
    }
}

proof fn mv_atom(t: Seq<Token>, s: PState)
    requires
        wft(t),
        valid(t, s),
    ensures
        strict(t, s, atom(t, s)),
    decreases ms(t, s), 6nat,
{
    if tg(t, s) == Tag::LParen {
        lemma_next(t, s);
        mv_cor(t, adv(s));
        if let PRes::Done(_, s2) = cor(t, adv(s)) {
            if tg(t, s2) == Tag::RParen {
                lemma_next(t, s2);
            }
        }
    } else {
        mv_expr(t, s, 0);
        if let PRes::Done(_, s2) = expr(t, s, 0) {
            if cmp_of(tg(t, s2)) is Some {
                lemma_next(t, s2);
                mv_expr(t, adv(s2), 0);
            }
        }
    }
}

proof fn mv_expr(t: Seq<Token>, s: PState, bp: u8)
    requires
        wft(t),
        valid(t, s),
    ensures
        strict(t, s, expr(t, s, bp)),
    decreases ms(t, s), 5nat,
{
    mv_unary(t, s);
    if let PRes::Done(l, s2) = unary(t, s) {
        mv_expr_rest(t, s2, bp, l);
    }
}

proof fn mv_expr_rest(t: Seq<Token>, s: PState, bp: u8, lhs: Expr)
    requires
        wft(t),
        valid(t, s),
    ensures
        mono(t, s, expr_rest(t, s, bp, lhs)),
    decreases ms(t, s), 5nat,
{
    if let Some(o) = binop(tg(t, s)) {
        if o.1 >= bp {
            lemma_next(t, s);
            mv_expr(t, adv(s), o.2);
            if let PRes::Done(rhs, s2) = expr(t, adv(s), o.2) {
                mv_expr_rest(t, s2, bp, Expr::Bin(Box::new(lhs), o.0, Box::new(rhs)));
            }
        }
    }
}

proof fn mv_unary(t: Seq<Token>, s: PState)
    requires
        wft(t),
        valid(t, s),
    ensures
        strict(t, s, unary(t, s)),
    decreases ms(t, s), 4nat,
{
    if tg(t, s) == Tag::Minus || tg(t, s) == Tag::Not {
        lemma_next(t, s);
        mv_unary(t, adv(s));
    } else {
        mv_primary(t, s);
        assert(unary(t, s) == postfix(t, s));
        assert(postfix(t, s) == primary(t, s));
    }
}

proof fn mv_primary(t: Seq<Token>, s: PState)
    requires
        wft(t),
        valid(t, s),
    ensures
        strict(t, s, primary(t, s)),
    decreases ms(t, s), 2nat,
{
    match kd(t, s.p) {
        TokenKind::Dollar => {
            lemma_next_kd(t, s.p);
            match kd(t, s.p + 1) {
                TokenKind::Ident(x) => {
                    lemma_next_kd(t, s.p + 1);
                    mv_dotted(t, at(s, s.p + 2), x@);
                },
                _ => {},
            }
        },
        TokenKind::LParen => {
            lemma_next_kd(t, s.p);
            mv_expr(t, adv(s), 0);
            if let PRes::Done(_, s2) = expr(t, adv(s), 0) {
                if tg(t, s2) == Tag::RParen {
                    lemma_next(t, s2);
                }
            }
        },
        TokenKind::LBracket => {
            lemma_next_kd(t, s.p);
            mv_array(t, adv(s), Seq::empty());
        },
        TokenKind::LBrace => mv_block(t, s),
        TokenKind::Ident(_) => {
            lemma_next_kd(t, s.p);
            let s1 = adv(s);
            if tg(t, s1) == Tag::LParen {
                lemma_next(t, s1);
                mv_call_args(t, adv(s1), Seq::empty());
            } else if tg(t, s1) == Tag::LBrace {
                lemma_next(t, s1);
                mv_fields(t, adv(s1), Seq::empty());
            } else if tg(t, s1) == Tag::Dot {
                lemma_next(t, s1);
                if !(kd(t, s1.p + 1) is Eof) {
                    lemma_next_kd(t, s1.p + 1);
                }
            }
        },
        TokenKind::Eof => {},
        _ => lemma_next_kd(t, s.p),
    }
}

proof fn mv_call_args(t: Seq<Token>, s: PState, acc: Seq<Expr>)
    requires
        wft(t),
        valid(t, s),
    ensures
        strict(t, s, call_args(t, s, acc)),
    decreases ms(t, s), 6nat,
{
    if tg(t, s) == Tag::RParen {
        lemma_next(t, s);
    } else {
        mv_expr(t, s, 0);
        if let PRes::Done(e, s2) = expr(t, s, 0) {
            if tg(t, s2) == Tag::Comma {
                lemma_next(t, s2);
                mv_call_args(t, adv(s2), acc.push(e));
            } else if tg(t, s2) == Tag::RParen {
                lemma_next(t, s2);
            }
        }
    }
}

proof fn mv_array(t: Seq<Token>, s: PState, acc: Seq<Expr>)
    requires
        wft(t),
        valid(t, s),
    ensures
        strict(t, s, array_items(t, s, acc)),
    decreases ms(t, s), 6nat,
{
    if tg(t, s) == Tag::RBracket {
        lemma_next(t, s);
    } else {
        mv_expr(t, s, 0);
        if let PRes::Done(e, s2) = expr(t, s, 0) {
            lemma_skip(t, s2, Tag::Comma);
            mv_array(t, skip_if(t, s2, Tag::Comma), acc.push(e));
        }
    }
}

proof fn mv_fields(t: Seq<Token>, s: PState, acc: Seq<(Seq<char>, Expr)>)
    requires
        wft(t),
        valid(t, s),
    ensures
        strict(t, s, fields(t, s, acc)),
    decreases ms(t, s), 6nat,
{
    if tg(t, s) == Tag::RBrace {
        lemma_next(t, s);
    } else {
        match kd(t, s.p) {
            TokenKind::Ident(f) => {
                lemma_next_kd(t, s.p);
                if tg(t, adv(s)) == Tag::Colon {
                    lemma_next(t, adv(s));
                    mv_expr(t, at(s, s.p + 2), 0);
                    if let PRes::Done(e, s2) = expr(t, at(s, s.p + 2), 0) {
                        lemma_skip(t, s2, Tag::Comma);
                        mv_fields(t, skip_if(t, s2, Tag::Comma), acc.push((f@, e)));
                    }
                }
            },
            _ => {},
        }
    }
}

proof fn mv_program(t: Seq<Token>, s: PState, acc: Seq<Stm>)
    requires
        wft(t),
        valid(t, s),
    ensures
        mono(t, s, program(t, s, acc)),
    decreases ms(t, s),
{
    if tg(t, s) == Tag::Eof {
    } else if tg(t, s) == Tag::Directive {
        lemma_next(t, s);
        mv_program(t, adv(s), acc);
    } else {
        mv_stmt(t, s);
        if let PRes::Done(x, s2) = stmt(t, s) {
            mv_program(t, s2, acc.push(x));
        }
    }
}

/// On tokens that end with an `Eof` token, parsing never stops short of an answer: a whole
/// program is parsed or an error is found; and a statement, an expression or a condition
/// that is parsed consumes at least one token and leaves the position on a token.
pub proof fn law_parsing_moves_forward(t: Seq<Token>, s: PState)
    requires
        wft(t),
        0 <= s.p < t.len(),
    ensures
        !(program(t, s, Seq::empty()) is Abort),
        program(t, s, Seq::empty()) matches PRes::Done(_, s2) ==> s2.p == t.len() - 1,
        strict(t, s, stmt(t, s)),
        strict(t, s, expr(t, s, 0)),
        strict(t, s, cond(t, s)),
{
    mv_program(t, s, Seq::empty());
    mv_stmt(t, s);
    mv_expr(t, s, 0);
    mv_cond(t, s);
    lemma_program_ends(t, s, Seq::empty());
}

proof fn lemma_program_ends(t: Seq<Token>, s: PState, acc: Seq<Stm>)
    requires
        wft(t),
        valid(t, s),
    ensures
        program(t, s, acc) matches PRes::Done(_, s2) ==> s2.p == t.len() - 1,
    decreases ms(t, s),
{
    lemma_tag(kd(t, s.p));
    if tg(t, s) == Tag::Eof {
        assert(kd(t, s.p) == TokenKind::Eof);
    } else if tg(t, s) == Tag::Directive {
        lemma_next(t, s);
        lemma_program_ends(t, adv(s), acc);
    } else {
        mv_stmt(t, s);
        if let PRes::Done(x, s2) = stmt(t, s) {
            lemma_program_ends(t, s2, acc.push(x));
        }
    }
}

} // verus!

verus! {

/// Stepping past a token never leaves the tokens: on tokens that end with the only `Eof`,
/// from a position on a token other than `Eof`, the next position is again on a token. So
/// however many steps are taken, the position stays at or before the `Eof` token.
pub proof fn law_advance_stays_on_tokens(t: Seq<Token>, s: PState)
    requires
        wft(t),
        0 <= s.p < t.len(),
        tg(t, s) != Tag::Eof,
    ensures
        0 <= adv(s).p < t.len(),
        adv(s).main == s.main && adv(s).name == s.name,
{
    lemma_tag(kd(t, s.p));
    if s.p == t.len() - 1 {
        assert(t[s.p].kind == TokenKind::Eof);
    }
}

} // verus!

verus! {

/// The operator that an arithmetic token stands for.
pub open spec fn arith_op(k: TokenKind) -> Option<BinOp> {
    match k {
        TokenKind::Plus => Some(BinOp::Add),
        TokenKind::Minus => Some(BinOp::Sub),
        TokenKind::Star => Some(BinOp::Mul),
        TokenKind::Slash => Some(BinOp::Div),
        _ => None,
    }
}

/// How tightly an arithmetic operator binds: `*` and `/` above `+` and `-`.
pub open spec fn level(k: TokenKind) -> int {
    if k == TokenKind::Star || k == TokenKind::Slash {
        2
    } else {
        1
    }
}

proof fn lemma_number_operand(t: Seq<Token>, s: PState, n: i64)
    requires
        0 <= s.p < t.len(),
        t[s.p].kind == TokenKind::Number(n),
    ensures
        unary(t, s) == PRes::Done(Expr::Lit(Lit::Number(n)), adv(s)),
{
    lemma_tag(kd(t, s.p));
    assert(primary(t, s) == PRes::Done(Expr::Lit(Lit::Number(n)), adv(s)));
    assert(postfix(t, s) == primary(t, s));
}

proof fn lemma_number_expr(t: Seq<Token>, s: PState, n: i64, bp: u8)
    requires
        0 <= s.p,
        s.p + 1 < t.len(),
        t[s.p].kind == TokenKind::Number(n),
        arith_op(t[s.p + 1].kind) is None,
    ensures
        expr(t, s, bp) == PRes::Done(Expr::Lit(Lit::Number(n)), adv(s)),
{
    lemma_number_operand(t, s, n);
    lemma_tag(kd(t, s.p + 1));
    assert(binop(tg(t, adv(s))) is None);
    assert(expr_rest(t, adv(s), bp, Expr::Lit(Lit::Number(n))) == PRes::Done(
        Expr::Lit(Lit::Number(n)),
        adv(s),
    ));
}

/// Arithmetic operators group by precedence and, at equal precedence, to the left: in
/// `a op1 b op2 c` (numbers `a`, `b`, `c`, followed by a token that is no arithmetic
/// operator), `op2` takes `a op1 b` as its left operand unless it binds more tightly than
/// `op1`, in which case `op1` takes `b op2 c` as its right operand. So `8 / 4 / 2` is
/// `(8 / 4) / 2`, `8 / 4 * 2` is `(8 / 4) * 2`, and `1 + 2 * 3` is `1 + (2 * 3)`.
pub proof fn law_arithmetic_grouping(t: Seq<Token>, s: PState, a: i64, b: i64, c: i64)
    requires
        0 <= s.p,
        s.p + 5 < t.len(),
        t[s.p].kind == TokenKind::Number(a),
        arith_op(t[s.p + 1].kind) is Some,
        t[s.p + 2].kind == TokenKind::Number(b),
        arith_op(t[s.p + 3].kind) is Some,
        t[s.p + 4].kind == TokenKind::Number(c),
        arith_op(t[s.p + 5].kind) is None,
    ensures
        ({
            let (k1, k2) = (t[s.p + 1].kind, t[s.p + 3].kind);
            let (x, y, z) = (
                Expr::Lit(Lit::Number(a)),
                Expr::Lit(Lit::Number(b)),
                Expr::Lit(Lit::Number(c)),
            );
            let o1 = arith_op(k1)->Some_0;
            let o2 = arith_op(k2)->Some_0;
            expr(t, s, 0) == PRes::Done(
                if level(k2) <= level(k1) {
                    Expr::Bin(Box::new(Expr::Bin(Box::new(x), o1, Box::new(y))), o2, Box::new(z))
                } else {
                    Expr::Bin(Box::new(x), o1, Box::new(Expr::Bin(Box::new(y), o2, Box::new(z))))
                },
                at(s, s.p + 5),
            )
        }),
{
    let p = s.p;
    let k1 = t[p + 1].kind;
    let k2 = t[p + 3].kind;
    let x = Expr::Lit(Lit::Number(a));
    let y = Expr::Lit(Lit::Number(b));
    let z = Expr::Lit(Lit::Number(c));
    let s1 = at(s, p + 1);
    let s2 = at(s, p + 2);
    let s3 = at(s, p + 3);
    let s4 = at(s, p + 4);
    let s5 = at(s, p + 5);
    lemma_tag(k1);
    lemma_tag(k2);
    lemma_tag(kd(t, p + 5));
    let b1 = binop(tg(t, s1))->Some_0;
    let b2 = binop(tg(t, s3))->Some_0;
    assert(binop(tg(t, s1)) is Some && b1.0 == arith_op(k1)->Some_0);
    assert(binop(tg(t, s3)) is Some && b2.0 == arith_op(k2)->Some_0);
    assert(binop(tg(t, s5)) is None);
    // a
    lemma_number_operand(t, s, a);
    assert(expr(t, s, 0) == expr_rest(t, s1, 0, x));
    // c, with nothing after it
    lemma_number_expr(t, s4, c, b2.2);
    assert(expr(t, s4, b2.2) == PRes::Done(z, s5));
    let yz = Expr::Bin(Box::new(y), b2.0, Box::new(z));
    let xy = Expr::Bin(Box::new(x), b1.0, Box::new(y));
    assert(expr_rest(t, s5, 0, Expr::Bin(Box::new(xy), b2.0, Box::new(z))) == PRes::Done(
        Expr::Bin(Box::new(xy), b2.0, Box::new(z)),
        s5,
    ));
    assert(expr_rest(t, s5, b1.2, yz) == PRes::Done(yz, s5));
    assert(expr_rest(t, s5, 0, Expr::Bin(Box::new(x), b1.0, Box::new(yz))) == PRes::Done(
        Expr::Bin(Box::new(x), b1.0, Box::new(yz)),
        s5,
    ));
    // b, then what op2 does with it
    lemma_number_operand(t, s2, b);
    assert(expr(t, s2, b1.2) == expr_rest(t, s3, b1.2, y));
    if b2.1 < b1.2 {
        assert(expr_rest(t, s3, b1.2, y) == PRes::Done(y, s3));
        assert(expr_rest(t, s1, 0, x) == expr_rest(t, s3, 0, xy));
        assert(expr_rest(t, s3, 0, xy) == expr_rest(t, s5, 0, Expr::Bin(Box::new(xy), b2.0, Box::new(z))));
    } else {
        assert(expr_rest(t, s3, b1.2, y) == expr_rest(t, s5, b1.2, yz));
        assert(expr(t, s2, b1.2) == PRes::Done(yz, s5));
        assert(expr_rest(t, s1, 0, x) == expr_rest(t, s5, 0, Expr::Bin(Box::new(x), b1.0, Box::new(yz))));
    }
}

} // verus!

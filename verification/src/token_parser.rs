//! The token parser: reads the lexer's tokens into statements, expressions and conditions.
//! Each parsing step is proved to give what the model in `syntax_model` gives.
use vstd::prelude::*;
use vstd::string::StringSliceAdditionalSpecFns;
use crate::control_flow::CompareOp;
use crate::diagnostics::ParseError;
use crate::lexer::{
    law_tokens_ordered_and_end_with_eof, line_col, tokens_from, tokens_match, LexRun, Lexer,
    StrPart, Token, TokenKind,
};
use crate::syntax::{
    cnd_matches, elifs_match, expr_matches, exprs_match, fields_match, labelled_match,
    opt_expr_matches, opt_stms_match, part_matches, parts_match, stm_matches, stms_match, BinOp,
    Cnd, Condition, Expr, Expression, Literal, Stm, Statement, StringPart, UnOp,
};
use crate::syntax_model::{
    adv, arms, array_items, assign_stmt, at, atom, binop, block, call_args, cand, cand_rest,
    chain_stmt, cmp_of, cond, cor, cor_rest, dotted, elifs, elif_cond, elif_rest, enum_defs, enum_stmt, expr,
    expr_rest, fields, fn_rest, for_items, for_stmt, cfor, cfor_rest, cfor_mid, cfor_tail, for_in, for_in_rest, scan_rest, foreach_stmt, function, if_stmt,
    init_clause, items, kd, labelled, let_stmt, loop_stmt, m_expected, m_ident, m_unexpected,
    ms, opt_expr, opt_init, params, params_next, part_of, postfix, primary, program,
    return_stmt, scan_stmt, skip_if, steps, stmt, str_expr, struct_defs, struct_stmt,
    switch_stmt, tg, try_stmt, unary, value_expr, while_stmt, PRes, PState,
};
use crate::text::{chars_to_string, push_all, str_chars, strings_view, sub_chars};
use crate::token_tags::{kind_debug_text, lemma_tag, tag, tag_name_text, tag_of, Tag};
use crate::syntax_laws::{law_parsing_moves_forward, lemma_wft, wft};
use crate::lexer::KindSpec;

verus! {

/// Why a parsing step stopped: an error, or a step that did not move forward.
pub enum Stop {
    Fail(ParseError),
    Abort,
}

/// A parser over the tokens of a source text.
pub struct Parser {
    pub tokens: Vec<Token>,
    pub pos: usize,
    pub has_main: bool,
    pub just_run: bool,
    pub main_function_name: Option<String>,
    pub noffi: bool,
    pub use_stdlib: bool,
}

pub open spec fn name_view(o: Option<String>) -> Option<Seq<char>> {
    match o {
        Some(s) => Some(s@),
        None => None,
    }
}

/// The error `e` is reported at the token of `se`.
pub open spec fn err_of(t: Seq<Token>, se: PState, e: ParseError) -> bool {
    0 <= se.p < t.len() && e.line == t[se.p].line && e.col == t[se.p].col
}

/// What a step that did not succeed returns.
pub open spec fn fin<T, X>(res: PRes<T>, r: Result<X, Stop>, t: Seq<Token>, st: PState) -> bool {
    match res {
        PRes::Done(_, _) => false,
        PRes::Fail(m, se) => r matches Err(Stop::Fail(e)) && e.message@ == m && st == se && err_of(
            t,
            se,
            e,
        ),
        PRes::Abort => r matches Err(Stop::Abort),
    }
}

pub open spec fn out_stm(res: PRes<Stm>, r: Result<Statement, Stop>, t: Seq<Token>, st: PState) -> bool {
    match res {
        PRes::Done(v, s2) => r matches Ok(x) && stm_matches(x, v) && st == s2,
        _ => fin(res, r, t, st),
    }
}

pub open spec fn out_stms(res: PRes<Seq<Stm>>, r: Result<Vec<Statement>, Stop>, t: Seq<Token>, st: PState) -> bool {
    match res {
        PRes::Done(v, s2) => r matches Ok(x) && stms_match(x@, v) && st == s2,
        _ => fin(res, r, t, st),
    }
}

pub open spec fn out_expr(res: PRes<Expr>, r: Result<Expression, Stop>, t: Seq<Token>, st: PState) -> bool {
    match res {
        PRes::Done(v, s2) => r matches Ok(x) && expr_matches(x, v) && st == s2,
        _ => fin(res, r, t, st),
    }
}

pub open spec fn out_exprs(res: PRes<Seq<Expr>>, r: Result<Vec<Expression>, Stop>, t: Seq<Token>, st: PState) -> bool {
    match res {
        PRes::Done(v, s2) => r matches Ok(x) && exprs_match(x@, v) && st == s2,
        _ => fin(res, r, t, st),
    }
}

pub open spec fn out_opt_expr(
    res: PRes<Option<Expr>>,
    r: Result<Option<Expression>, Stop>,
    t: Seq<Token>,
    st: PState,
) -> bool {
    match res {
        PRes::Done(v, s2) => r matches Ok(x) && opt_expr_matches(x, v) && st == s2,
        _ => fin(res, r, t, st),
    }
}

pub open spec fn out_cnd(res: PRes<Cnd>, r: Result<Condition, Stop>, t: Seq<Token>, st: PState) -> bool {
    match res {
        PRes::Done(v, s2) => r matches Ok(x) && cnd_matches(x, v) && st == s2,
        _ => fin(res, r, t, st),
    }
}

pub open spec fn out_text(res: PRes<Seq<char>>, r: Result<String, Stop>, t: Seq<Token>, st: PState) -> bool {
    match res {
        PRes::Done(v, s2) => r matches Ok(x) && x@ == v && st == s2,
        _ => fin(res, r, t, st),
    }
}

pub open spec fn out_texts(res: PRes<Seq<Seq<char>>>, r: Result<Vec<String>, Stop>, t: Seq<Token>, st: PState) -> bool {
    match res {
        PRes::Done(v, s2) => r matches Ok(x) && strings_view(x@) == v && st == s2,
        _ => fin(res, r, t, st),
    }
}

pub open spec fn out_elifs(
    res: PRes<(Seq<(Cnd, Seq<Stm>)>, Option<Seq<Stm>>)>,
    r: Result<(Vec<(Condition, Vec<Statement>)>, Option<Vec<Statement>>), Stop>,
    t: Seq<Token>,
    st: PState,
) -> bool {
    match res {
        PRes::Done(v, s2) => r matches Ok(x) && elifs_match(x.0@, v.0) && opt_stms_match(x.1, v.1)
            && st == s2,
        _ => fin(res, r, t, st),
    }
}

pub open spec fn out_labelled(
    res: PRes<Seq<(Seq<char>, Seq<Stm>)>>,
    r: Result<Vec<(String, Vec<Statement>)>, Stop>,
    t: Seq<Token>,
    st: PState,
) -> bool {
    match res {
        PRes::Done(v, s2) => r matches Ok(x) && labelled_match(x@, v) && st == s2,
        _ => fin(res, r, t, st),
    }
}

pub open spec fn out_arms(
    res: PRes<(Seq<(Seq<char>, Seq<Stm>)>, Option<Seq<Stm>>)>,
    r: Result<(Vec<(String, Vec<Statement>)>, Option<Vec<Statement>>), Stop>,
    t: Seq<Token>,
    st: PState,
) -> bool {
    match res {
        PRes::Done(v, s2) => r matches Ok(x) && labelled_match(x.0@, v.0) && opt_stms_match(
            x.1,
            v.1,
        ) && st == s2,
        _ => fin(res, r, t, st),
    }
}

pub open spec fn out_fields(
    res: PRes<Seq<(Seq<char>, Expr)>>,
    r: Result<Vec<(String, Expression)>, Stop>,
    t: Seq<Token>,
    st: PState,
) -> bool {
    match res {
        PRes::Done(v, s2) => r matches Ok(x) && fields_match(x@, v) && st == s2,
        _ => fin(res, r, t, st),
    }
}

/// `b` is `a` after a parsing step: the same tokens and flags, still well formed.
pub open spec fn frame(a: Parser, b: Parser) -> bool {
    &&& b.wf()
    &&& b.toks() == a.toks()
    &&& b.just_run == a.just_run
    &&& b.noffi == a.noffi
    &&& b.use_stdlib == a.use_stdlib
}

proof fn lemma_stms_push(v: Seq<Statement>, ds: Seq<Stm>, x: Statement, d: Stm)
    requires
        stms_match(v, ds),
        stm_matches(x, d),
    ensures
        stms_match(v.push(x), ds.push(d)),
{
    assert forall|i: int| 0 <= i < ds.push(d).len() implies stm_matches(
        #[trigger] v.push(x)[i],
        ds.push(d)[i],
    ) by {
        if i < ds.len() {
            assert(v.push(x)[i] == v[i]);
        }
    }
}

proof fn lemma_exprs_push(v: Seq<Expression>, ds: Seq<Expr>, x: Expression, d: Expr)
    requires
        exprs_match(v, ds),
        expr_matches(x, d),
    ensures
        exprs_match(v.push(x), ds.push(d)),
{
    assert forall|i: int| 0 <= i < ds.push(d).len() implies expr_matches(
        #[trigger] v.push(x)[i],
        ds.push(d)[i],
    ) by {
        if i < ds.len() {
            assert(v.push(x)[i] == v[i]);
        }
    }
}

proof fn lemma_elifs_push(
    v: Seq<(Condition, Vec<Statement>)>,
    ds: Seq<(Cnd, Seq<Stm>)>,
    x: (Condition, Vec<Statement>),
    d: (Cnd, Seq<Stm>),
)
    requires
        elifs_match(v, ds),
        cnd_matches(x.0, d.0),
        stms_match(x.1@, d.1),
    ensures
        elifs_match(v.push(x), ds.push(d)),
{
    assert forall|i: int| 0 <= i < ds.push(d).len() implies cnd_matches(
        #[trigger] v.push(x)[i].0,
        ds.push(d)[i].0,
    ) && stms_match(v.push(x)[i].1@, ds.push(d)[i].1) by {
        if i < ds.len() {
            assert(v.push(x)[i] == v[i]);
        }
    }
}

proof fn lemma_labelled_push(
    v: Seq<(String, Vec<Statement>)>,
    ds: Seq<(Seq<char>, Seq<Stm>)>,
    x: (String, Vec<Statement>),
    d: (Seq<char>, Seq<Stm>),
)
    requires
        labelled_match(v, ds),
        x.0@ == d.0,
        stms_match(x.1@, d.1),
    ensures
        labelled_match(v.push(x), ds.push(d)),
{
    assert forall|i: int| 0 <= i < ds.push(d).len() implies (#[trigger] v.push(x)[i]).0@ == ds.push(
        d,
    )[i].0 && stms_match(v.push(x)[i].1@, ds.push(d)[i].1) by {
        if i < ds.len() {
            assert(v.push(x)[i] == v[i]);
        }
    }
}

proof fn lemma_fields_push(
    v: Seq<(String, Expression)>,
    ds: Seq<(Seq<char>, Expr)>,
    x: (String, Expression),
    d: (Seq<char>, Expr),
)
    requires
        fields_match(v, ds),
        x.0@ == d.0,
        expr_matches(x.1, d.1),
    ensures
        fields_match(v.push(x), ds.push(d)),
{
    assert forall|i: int| 0 <= i < ds.push(d).len() implies (#[trigger] v.push(x)[i]).0@ == ds.push(
        d,
    )[i].0 && expr_matches(v.push(x)[i].1, ds.push(d)[i].1) by {
        if i < ds.len() {
            assert(v.push(x)[i] == v[i]);
        }
    }
}

proof fn lemma_strings_push(v: Seq<String>, x: String)
    ensures
        strings_view(v.push(x)) == strings_view(v).push(x@),
{
    assert(strings_view(v.push(x)) =~= strings_view(v).push(x@));
}

proof fn lemma_one_stm(x: Statement, d: Stm)
    requires
        stm_matches(x, d),
    ensures
        stms_match(seq![x], seq![d]),
{
    assert(seq![x][0] == x);
}

fn binop_exec(g: Tag) -> (r: Option<(BinOp, u8, u8)>)
    ensures
        r == binop(g),
{
    if g == Tag::Plus {
        Some((BinOp::Add, 7u8, 8u8))
    } else if g == Tag::Minus {
        Some((BinOp::Sub, 7u8, 8u8))
    } else if g == Tag::Star {
        Some((BinOp::Mul, 9u8, 10u8))
    } else if g == Tag::Slash {
        Some((BinOp::Div, 9u8, 10u8))
    } else {
        None
    }
}

fn cmp_exec(g: Tag) -> (r: Option<CompareOp>)
    ensures
        r == cmp_of(g),
{
    if g == Tag::EqEq {
        Some(CompareOp::Eq)
    } else if g == Tag::NotEq {
        Some(CompareOp::Ne)
    } else if g == Tag::Lt {
        Some(CompareOp::Lt)
    } else if g == Tag::Gt {
        Some(CompareOp::Gt)
    } else if g == Tag::Le {
        Some(CompareOp::Le)
    } else if g == Tag::Ge {
        Some(CompareOp::Ge)
    } else {
        None
    }
}

/// The expression of a string token's pieces.
fn str_expression(ps: &Vec<StrPart>) -> (e: Expression)
    ensures
        expr_matches(e, str_expr(ps@)),
{
    if ps.len() == 1 {
        if let StrPart::Literal(s) = &ps[0] {
            return Expression::Literal(Literal::Text(s.clone()));
        }
    }
    let mut v: Vec<StringPart> = Vec::new();
    let mut i: usize = 0;
    while i < ps.len()
        invariant
            i <= ps@.len(),
            v@.len() == i,
            forall|j: int| 0 <= j < i ==> part_matches(#[trigger] v@[j], part_of(ps@[j])),
        decreases ps@.len() - i,
    {
        match &ps[i] {
            StrPart::Literal(s) => v.push(StringPart::Literal(s.clone())),
            StrPart::Var(n) => v.push(StringPart::Interpolation(Expression::Variable(n.clone()))),
        }
        i = i + 1;
    }
    proof {
        let d = ps@.map_values(|p: StrPart| part_of(p));
        assert forall|j: int| 0 <= j < d.len() implies part_matches(#[trigger] v@[j], d[j]) by {
            assert(part_matches(v@[j], part_of(ps@[j])));
        }
        assert(parts_match(v@, d));
    }
    Expression::StringInterpolation(v)
}

/// `r` is what reading the source `src` gives: a well-formed parser at the first of the
/// tokens that the lexer reads, with `has_main`, `main_function_name` and the flags unset;
/// or, where the lexer fails, a parse error with its message, line and column.
pub open spec fn made_from(src: Seq<u8>, r: Result<Parser, ParseError>) -> bool {
    match tokens_from(src, 0) {
        LexRun::Done(ds) => r matches Ok(p) && p.wf() && tokens_match(p.toks(), ds, src)
            && p.state() == (PState { p: 0, main: false, name: None }) && p.flags_clear(),
        LexRun::Failed(m, ep) => r matches Err(e) && e.message@ == m && line_col(src, ep) == (
            e.line as nat,
            e.col as nat,
        ),
        LexRun::Panicked => false,
    }
}

impl Parser {
    /// The tokens.
    pub open spec fn toks(&self) -> Seq<Token> {
        self.tokens@
    }

    /// The position of the next token.
    pub open spec fn position(&self) -> int {
        self.pos as int
    }

    /// `just_run`, `noffi` and `use_stdlib` are all false.
    pub open spec fn flags_clear(&self) -> bool {
        !self.just_run && !self.noffi && !self.use_stdlib
    }

    /// The state of the parser, as the model sees it: the position of the next token,
    /// `has_main`, and `main_function_name`.
    pub open spec fn state(&self) -> PState {
        PState { p: self.position(), main: self.has_main, name: name_view(self.main_function_name) }
    }

    /// The tokens end with the only `Eof` token, and the position lies on a token.
    pub open spec fn wf(&self) -> bool {
        &&& self.tokens@.len() > 0
        &&& self.tokens@.last().kind == TokenKind::Eof
        &&& wft(self.tokens@)
        &&& self.pos < self.tokens@.len()
    }

    /// Reads the tokens of `src` and makes a parser at the first one; a lexical error
    /// becomes a parse error with the same message, line and column.
    pub fn from_source(src: &str) -> (r: Result<Parser, ParseError>)
        requires
            src.spec_bytes().len() < usize::MAX,
            !(tokens_from(src.spec_bytes(), 0) is Panicked),
        ensures
            made_from(src.spec_bytes(), r),
    {
        let lexer = Lexer::new(src);
        match lexer.tokenize() {
            Ok(tokens) => {
                proof {
                    law_tokens_ordered_and_end_with_eof(src.spec_bytes(), 0);
                    let ds = tokens_from(src.spec_bytes(), 0)->Done_0;
                    assert(tokens@[tokens@.len() - 1].kind == TokenKind::Eof);
                    assert forall|i: int| 0 <= i < tokens@.len() - 1 implies (
                    #[trigger] tokens@[i]).kind != TokenKind::Eof by {
                        assert(ds[i].0 != KindSpec::Simple(TokenKind::Eof));
                    }
                    lemma_wft(tokens@);
                }
                Ok(
                    Parser {
                        tokens,
                        pos: 0,
                        has_main: false,
                        just_run: false,
                        main_function_name: None,
                        noffi: false,
                        use_stdlib: false,
                    },
                )
            },
            Err(e) => Err(ParseError::from_lex_error(e)),
        }
    }

    /// Reads the tokens of `src` and makes a parser at the first one, as `from_source` does;
    /// `None` where reading would meet an identifier or directive whose bytes are not valid
    /// UTF-8, on which `from_source` is not to be called.
    pub fn try_from_source(src: &str) -> (r: Option<Result<Parser, ParseError>>)
        requires
            src.spec_bytes().len() < usize::MAX,
        ensures
            r is None <==> tokens_from(src.spec_bytes(), 0) is Panicked,
            r matches Some(x) ==> made_from(src.spec_bytes(), x),
    {
        if Lexer::new(src).would_abort() {
            None
        } else {
            Some(Parser::from_source(src))
        }
    }

    /// Parses the statements from the current token to the end of the tokens, skipping
    /// directives; gives the first error found otherwise. On success the position is
    /// that of the `Eof` token.
    pub fn parse(&mut self) -> (r: Result<Vec<Statement>, ParseError>)
        requires
            old(self).wf(),
        ensures
            frame(*old(self), *final(self)),
            match program(old(self).toks(), old(self).state(), Seq::empty()) {
                PRes::Done(v, s2) => r matches Ok(x) && stms_match(x@, v) && final(self).state()
                    == s2,
                PRes::Fail(m, se) => r matches Err(e) && e.message@ == m && final(self).state()
                    == se && err_of(old(self).toks(), se, e),
                PRes::Abort => false,
            },
    {
        proof {
            law_parsing_moves_forward(self.toks(), self.state());
        }
        match self.program_exec() {
            Ok(v) => Ok(v),
            Err(Stop::Fail(e)) => Err(e),
            Err(Stop::Abort) => vstd::pervasive::unreached(),
        }
    }

    // ---- token access ----

    fn tag_here(&self) -> (g: Tag)
        requires
            self.wf(),
        ensures
            g == tg(self.toks(), self.state()),
    {
        tag_of(&self.tokens[self.pos].kind)
    }

    fn tag_at(&self, k: usize) -> (g: Tag)
        requires
            self.wf(),
        ensures
            g == tag(kd(self.toks(), self.position() + k)),
    {
        proof {
            lemma_tag(TokenKind::Eof);
        }
        if k < self.tokens.len() - self.pos {
            tag_of(&self.tokens[self.pos + k].kind)
        } else {
            Tag::Eof
        }
    }

    fn ident_at(&self, k: usize) -> (r: Option<String>)
        requires
            self.wf(),
        ensures
            match kd(self.toks(), self.position() + k) {
                TokenKind::Ident(y) => r matches Some(x) && x@ == y@,
                _ => r is None,
            },
            r is Some ==> tag(kd(self.toks(), self.position() + k)) == Tag::Ident,
    {
        proof {
            lemma_tag(kd(self.toks(), self.position() + k));
        }
        if k < self.tokens.len() - self.pos {
            match &self.tokens[self.pos + k].kind {
                TokenKind::Ident(s) => Some(s.clone()),
                _ => None,
            }
        } else {
            None
        }
    }

    fn number_at(&self, k: usize) -> (r: Option<i64>)
        requires
            self.wf(),
        ensures
            match kd(self.toks(), self.position() + k) {
                TokenKind::Number(n) => r == Some(n),
                _ => r is None,
            },
            r is Some ==> tag(kd(self.toks(), self.position() + k)) == Tag::Number,
    {
        proof {
            lemma_tag(kd(self.toks(), self.position() + k));
        }
        if k < self.tokens.len() - self.pos {
            match &self.tokens[self.pos + k].kind {
                TokenKind::Number(n) => Some(*n),
                _ => None,
            }
        } else {
            None
        }
    }

    /// Steps past a token that is not the final `Eof`; the parser stays well formed, so its
    /// position stays on the tokens.
    fn advance(&mut self)
        requires
            old(self).wf(),
            tg(old(self).toks(), old(self).state()) != Tag::Eof,
        ensures
            frame(*old(self), *final(self)),
            final(self).state() == adv(old(self).state()),
    {
        proof {
            lemma_tag(kd(self.toks(), self.position()));
        }
        if self.pos < self.tokens.len() - 1 {
            self.pos = self.pos + 1;
        }
    }

    fn skip_tag(&mut self, g: Tag)
        requires
            old(self).wf(),
            g != Tag::Eof,
        ensures
            frame(*old(self), *final(self)),
            final(self).state() == skip_if(old(self).toks(), old(self).state(), g),
    {
        if self.tag_here() == g {
            self.advance();
        }
    }

    fn fail_here(&self, msg: Vec<char>) -> (e: Stop)
        requires
            self.wf(),
        ensures
            e matches Stop::Fail(pe) && pe.message@ == msg@ && err_of(self.toks(), self.state(), pe),
    {
        Stop::Fail(
            ParseError {
                message: chars_to_string(&msg),
                line: self.tokens[self.pos].line,
                col: self.tokens[self.pos].col,
            },
        )
    }

    fn expected(&self, g: Tag) -> (e: Stop)
        requires
            self.wf(),
        ensures
            e matches Stop::Fail(pe) && pe.message@ == m_expected(g, kd(self.toks(), self.position()))
                && err_of(self.toks(), self.state(), pe),
    {
        let mut m = str_chars("expected ");
        push_all(&mut m, &str_chars(tag_name_text(g)));
        push_all(&mut m, &str_chars(", found "));
        push_all(&mut m, &kind_debug_text(&self.tokens[self.pos].kind));
        self.fail_here(m)
    }

    fn ident_expected(&self) -> (e: Stop)
        requires
            self.wf(),
        ensures
            e matches Stop::Fail(pe) && pe.message@ == m_ident(kd(self.toks(), self.position()))
                && err_of(self.toks(), self.state(), pe),
    {
        let mut m = str_chars("expected identifier, found ");
        push_all(&mut m, &kind_debug_text(&self.tokens[self.pos].kind));
        self.fail_here(m)
    }

    fn unexpected(&self) -> (e: Stop)
        requires
            self.wf(),
        ensures
            e matches Stop::Fail(pe) && pe.message@ == m_unexpected(kd(self.toks(), self.position()))
                && err_of(self.toks(), self.state(), pe),
    {
        let mut m = str_chars("unexpected token in expression: ");
        push_all(&mut m, &kind_debug_text(&self.tokens[self.pos].kind));
        self.fail_here(m)
    }

    // ---- names and lists without nested statements ----

    fn dotted_name(&mut self, n: Vec<char>) -> (r: Result<String, Stop>)
        requires
            old(self).wf(),
        ensures
            frame(*old(self), *final(self)),
            out_text(dotted(old(self).toks(), old(self).state(), n@), r, final(self).toks(), final(self).state()),
        decreases ms(old(self).toks(), old(self).state()),
    {
        if self.tag_here() == Tag::Dot {
            match self.ident_at(1) {
                Some(y) => {
                    self.advance();
                    self.advance();
                    let mut n2 = n;
                    n2.push('.');
                    push_all(&mut n2, &str_chars(y.as_str()));
                    proof {
                        assert(n2@ =~= n@ + "."@ + y@) by {
                            reveal_strlit(".");
                        }
                    }
                    self.dotted_name(n2)
                },
                None => {
                    self.advance();
                    Err(self.ident_expected())
                },
            }
        } else {
            Ok(chars_to_string(&n))
        }
    }

    fn params_exec(&mut self, acc: Vec<String>) -> (r: Result<Vec<String>, Stop>)
        requires
            old(self).wf(),
        ensures
            frame(*old(self), *final(self)),
            out_texts(
                params(old(self).toks(), old(self).state(), strings_view(acc@)),
                r,
                final(self).toks(),
                final(self).state(),
            ),
        decreases ms(old(self).toks(), old(self).state()), 1nat,
    {
        let mut acc = acc;
        if self.tag_here() == Tag::RParen {
            return Ok(acc);
        }
        let first = match self.ident_at(0) {
            Some(f) => f,
            None => return Err(self.ident_expected()),
        };
        match self.ident_at(1) {
            Some(second) => {
                self.advance();
                self.advance();
                proof {
                    lemma_strings_push(acc@, second);
                }
                acc.push(second);
                self.params_next_exec(acc)
            },
            None => {
                self.advance();
                proof {
                    lemma_strings_push(acc@, first);
                }
                acc.push(first);
                self.params_next_exec(acc)
            },
        }
    }

    fn params_next_exec(&mut self, acc: Vec<String>) -> (r: Result<Vec<String>, Stop>)
        requires
            old(self).wf(),
        ensures
            frame(*old(self), *final(self)),
            out_texts(
                params_next(old(self).toks(), old(self).state(), strings_view(acc@)),
                r,
                final(self).toks(),
                final(self).state(),
            ),
        decreases ms(old(self).toks(), old(self).state()), 0nat,
    {
        if self.tag_here() == Tag::Comma {
            self.advance();
            self.params_exec(acc)
        } else {
            Ok(acc)
        }
    }

    fn struct_defs_exec(&mut self, acc: Vec<String>) -> (r: Result<Vec<String>, Stop>)
        requires
            old(self).wf(),
        ensures
            frame(*old(self), *final(self)),
            out_texts(
                struct_defs(old(self).toks(), old(self).state(), strings_view(acc@)),
                r,
                final(self).toks(),
                final(self).state(),
            ),
        decreases ms(old(self).toks(), old(self).state()),
    {
        let mut acc = acc;
        if self.tag_here() == Tag::RBrace {
            self.advance();
            return Ok(acc);
        }
        let f = match self.ident_at(0) {
            Some(f) => f,
            None => return Err(self.ident_expected()),
        };
        if self.tag_at(1) != Tag::Colon {
            self.advance();
            return Err(self.expected(Tag::Colon));
        }
        match self.ident_at(2) {
            Some(_) => {
                self.advance();
                self.advance();
                self.advance();
                self.skip_tag(Tag::Comma);
                proof {
                    lemma_strings_push(acc@, f);
                }
                acc.push(f);
                self.struct_defs_exec(acc)
            },
            None => {
                self.advance();
                self.advance();
                Err(self.ident_expected())
            },
        }
    }

    fn enum_defs_exec(&mut self, acc: Vec<String>) -> (r: Result<Vec<String>, Stop>)
        requires
            old(self).wf(),
        ensures
            frame(*old(self), *final(self)),
            out_texts(
                enum_defs(old(self).toks(), old(self).state(), strings_view(acc@)),
                r,
                final(self).toks(),
                final(self).state(),
            ),
        decreases ms(old(self).toks(), old(self).state()),
    {
        let mut acc = acc;
        if self.tag_here() == Tag::RBrace {
            self.advance();
            return Ok(acc);
        }
        let v = match self.ident_at(0) {
            Some(v) => v,
            None => return Err(self.ident_expected()),
        };
        self.advance();
        self.skip_tag(Tag::Comma);
        proof {
            lemma_strings_push(acc@, v);
        }
        acc.push(v);
        self.enum_defs_exec(acc)
    }

    #[verifier::spinoff_prover]
    fn parse_struct(&mut self) -> (r: Result<Statement, Stop>)
        requires
            old(self).wf(),
        ensures
            frame(*old(self), *final(self)),
            out_stm(struct_stmt(old(self).toks(), old(self).state()), r, final(self).toks(), final(self).state()),
    {
        if self.tag_here() != Tag::Struct {
            return Err(self.expected(Tag::Struct));
        }
        let n = match self.ident_at(1) {
            Some(n) => n,
            None => {
                self.advance();
                return Err(self.ident_expected());
            },
        };
        if self.tag_at(2) != Tag::LBrace {
            self.advance();
            self.advance();
            return Err(self.expected(Tag::LBrace));
        }
        self.advance();
        self.advance();
        self.advance();
        let empty: Vec<String> = Vec::new();
        proof {
            assert(strings_view(empty@) =~= Seq::<Seq<char>>::empty());
        }
        match self.struct_defs_exec(empty) {
            Ok(fields) => Ok(Statement::StructDef { name: n, fields }),
            Err(e) => Err(e),
        }
    }

    #[verifier::spinoff_prover]
    fn parse_enum(&mut self) -> (r: Result<Statement, Stop>)
        requires
            old(self).wf(),
        ensures
            frame(*old(self), *final(self)),
            out_stm(enum_stmt(old(self).toks(), old(self).state()), r, final(self).toks(), final(self).state()),
    {
        if self.tag_here() != Tag::Enum {
            return Err(self.expected(Tag::Enum));
        }
        let n = match self.ident_at(1) {
            Some(n) => n,
            None => {
                self.advance();
                return Err(self.ident_expected());
            },
        };
        if self.tag_at(2) != Tag::LBrace {
            self.advance();
            self.advance();
            return Err(self.expected(Tag::LBrace));
        }
        self.advance();
        self.advance();
        self.advance();
        let empty: Vec<String> = Vec::new();
        proof {
            assert(strings_view(empty@) =~= Seq::<Seq<char>>::empty());
        }
        match self.enum_defs_exec(empty) {
            Ok(variants) => Ok(Statement::EnumDef { name: n, variants }),
            Err(e) => Err(e),
        }
    }

    // ---- statements ----

    #[verifier::spinoff_prover]
    #[verifier::rlimit(60)]
    fn parse_statement(&mut self) -> (r: Result<Statement, Stop>)
        requires
            old(self).wf(),
        ensures
            frame(*old(self), *final(self)),
            out_stm(stmt(old(self).toks(), old(self).state()), r, final(self).toks(), final(self).state()),
        decreases ms(old(self).toks(), old(self).state()), 11nat,
    {
        proof {
            lemma_tag(kd(self.toks(), self.position()));
        }
        let g = self.tag_here();
        match g {
            Tag::Directive => {
                self.advance();
                self.parse_statement()
            },
            Tag::MainFunction => self.parse_function(),
            Tag::Function => self.parse_function(),
            Tag::Let => self.parse_let(),
            Tag::If => self.parse_if(),
            Tag::While => self.parse_while(),
            Tag::For => self.parse_for(),
            Tag::Foreach => self.parse_foreach(),
            Tag::Loop => self.parse_loop(),
            Tag::Break => {
                self.advance();
                Ok(Statement::Break { condition: None })
            },
            Tag::Continue => {
                self.advance();
                Ok(Statement::Continue)
            },
            Tag::Return => self.parse_return(),
            Tag::Try => self.parse_try(),
            Tag::Struct => self.parse_struct(),
            Tag::Enum => self.parse_enum(),
            Tag::Scan => self.parse_scan(),
            Tag::Switch => self.parse_switch(),
            Tag::Chain => self.parse_chain(),
            Tag::Dollar => self.parse_assignment(),
            Tag::LBrace => match self.parse_block() {
                Ok(b) => Ok(Statement::Expression(Expression::Block(b))),
                Err(e) => Err(e),
            },
            _ => match self.parse_expr(0) {
                Ok(e) => {
                    self.skip_tag(Tag::Semi);
                    Ok(Statement::Expression(e))
                },
                Err(e) => Err(e),
            },
        }
    }

    #[verifier::spinoff_prover]
    fn parse_block(&mut self) -> (r: Result<Vec<Statement>, Stop>)
        requires
            old(self).wf(),
        ensures
            frame(*old(self), *final(self)),
            out_stms(block(old(self).toks(), old(self).state()), r, final(self).toks(), final(self).state()),
        decreases ms(old(self).toks(), old(self).state()), 1nat,
    {
        if self.tag_here() != Tag::LBrace {
            return Err(self.expected(Tag::LBrace));
        }
        self.advance();
        self.block_items()
    }

    /// The statements of a block, up to its `}`.
    #[verifier::spinoff_prover]
    fn block_items(&mut self) -> (r: Result<Vec<Statement>, Stop>)
        requires
            old(self).wf(),
        ensures
            frame(*old(self), *final(self)),
            out_stms(
                items(old(self).toks(), old(self).state(), Seq::empty()),
                r,
                final(self).toks(),
                final(self).state(),
            ),
        decreases ms(old(self).toks(), old(self).state()), 12nat,
    {
        let ghost orig = *self;
        let ghost t = self.toks();
        let ghost s0 = self.state();
        let mut acc: Vec<Statement> = Vec::new();
        let ghost mut ad: Seq<Stm> = Seq::empty();
        loop
            invariant
                orig == *old(self),
                frame(orig, *self),
                t == self.toks(),
                t == orig.toks(),
                s0 == orig.state(),
                stms_match(acc@, ad),
                items(t, self.state(), ad) == items(t, s0, Seq::empty()),
                ms(t, self.state()) <= ms(t, s0),
            decreases ms(t, self.state()),
        {
            let g = self.tag_here();
            if g == Tag::RBrace {
                self.advance();
                return Ok(acc);
            }
            if g == Tag::Eof {
                return Err(self.fail_here(str_chars("expected matching '}'")));
            }
            if g == Tag::Directive {
                self.advance();
                continue;
            }
            let before = self.pos;
            let ghost sb = self.state();
            match self.parse_statement() {
                Ok(x) => {
                    if !(before < self.pos) {
                        return Err(Stop::Abort);
                    }
                    proof {
                        let xd = stmt(t, sb)->Done_0;
                        lemma_stms_push(acc@, ad, x, xd);
                        ad = ad.push(xd);
                    }
                    acc.push(x);
                },
                Err(e) => return Err(e),
            }
        }
    }

    #[verifier::spinoff_prover]
    fn value_exec(&mut self) -> (r: Result<Expression, Stop>)
        requires
            old(self).wf(),
        ensures
            frame(*old(self), *final(self)),
            out_expr(value_expr(old(self).toks(), old(self).state()), r, final(self).toks(), final(self).state()),
        decreases ms(old(self).toks(), old(self).state()), 6nat,
    {
        if self.tag_here() == Tag::LBrace {
            match self.parse_block() {
                Ok(b) => Ok(Expression::Block(b)),
                Err(e) => Err(e),
            }
        } else {
            self.parse_expr(0)
        }
    }

    #[verifier::spinoff_prover]
    fn parse_let(&mut self) -> (r: Result<Statement, Stop>)
        requires
            old(self).wf(),
        ensures
            frame(*old(self), *final(self)),
            out_stm(let_stmt(old(self).toks(), old(self).state()), r, final(self).toks(), final(self).state()),
        decreases ms(old(self).toks(), old(self).state()), 10nat,
    {
        if self.tag_here() != Tag::Let {
            return Err(self.expected(Tag::Let));
        }
        self.advance();
        self.skip_tag(Tag::Const);
        let n = match self.ident_at(0) {
            Some(n) => n,
            None => return Err(self.ident_expected()),
        };
        self.advance();
        if self.tag_here() != Tag::Eq {
            return Err(self.expected(Tag::Eq));
        }
        self.advance();
        let v = match self.value_exec() {
            Ok(v) => v,
            Err(e) => return Err(e),
        };
        self.skip_tag(Tag::Semi);
        Ok(Statement::Let { name: n, value: v })
    }

    #[verifier::spinoff_prover]
    fn parse_assignment(&mut self) -> (r: Result<Statement, Stop>)
        requires
            old(self).wf(),
        ensures
            frame(*old(self), *final(self)),
            out_stm(assign_stmt(old(self).toks(), old(self).state()), r, final(self).toks(), final(self).state()),
        decreases ms(old(self).toks(), old(self).state()), 10nat,
    {
        let ghost t = self.toks();
        let ghost s = self.state();
        if self.tag_here() != Tag::Dollar {
            return Err(self.expected(Tag::Dollar));
        }
        let x = match self.ident_at(1) {
            Some(x) => x,
            None => {
                self.advance();
                return Err(self.ident_expected());
            },
        };
        self.advance();
        self.advance();
        let n = match self.dotted_name(str_chars(x.as_str())) {
            Ok(n) => n,
            Err(e) => return Err(e),
        };
        proof {
            crate::syntax_model::lemma_dotted(t, at(s, s.p + 2), x@);
        }
        if self.tag_here() != Tag::Eq {
            return Err(self.expected(Tag::Eq));
        }
        self.advance();
        let v = match self.value_exec() {
            Ok(v) => v,
            Err(e) => return Err(e),
        };
        self.skip_tag(Tag::Semi);
        Ok(Statement::Let { name: n, value: v })
    }

    #[verifier::spinoff_prover]
    fn parse_function(&mut self) -> (r: Result<Statement, Stop>)
        requires
            old(self).wf(),
        ensures
            frame(*old(self), *final(self)),
            out_stm(function(old(self).toks(), old(self).state()), r, final(self).toks(), final(self).state()),
        decreases ms(old(self).toks(), old(self).state()), 10nat,
    {
        proof {
            lemma_tag(kd(self.toks(), self.position()));
        }
        let g = self.tag_here();
        if g == Tag::Function {
            self.advance();
            self.fn_rest_exec(false)
        } else if g == Tag::MainFunction {
            self.advance();
            self.has_main = true;
            self.fn_rest_exec(true)
        } else {
            Err(self.fail_here(str_chars("expected function declaration")))
        }
    }

    #[verifier::spinoff_prover]
    fn fn_rest_exec(&mut self, marked: bool) -> (r: Result<Statement, Stop>)
        requires
            old(self).wf(),
        ensures
            frame(*old(self), *final(self)),
            out_stm(fn_rest(old(self).toks(), old(self).state(), marked), r, final(self).toks(), final(self).state()),
        decreases ms(old(self).toks(), old(self).state()), 10nat,
    {
        let ghost t = self.toks();
        let n = match self.ident_at(0) {
            Some(n) => n,
            None => return Err(self.ident_expected()),
        };
        if marked {
            self.main_function_name = Some(n.clone());
        }
        self.advance();
        if self.tag_here() != Tag::LParen {
            return Err(self.expected(Tag::LParen));
        }
        self.advance();
        let ghost sp = self.state();
        let empty: Vec<String> = Vec::new();
        proof {
            assert(strings_view(empty@) =~= Seq::<Seq<char>>::empty());
        }
        let ps = match self.params_exec(empty) {
            Ok(ps) => ps,
            Err(e) => return Err(e),
        };
        proof {
            crate::syntax_model::lemma_params(t, sp, Seq::empty());
        }
        if self.tag_here() != Tag::RParen {
            return Err(self.expected(Tag::RParen));
        }
        self.advance();
        let g = self.tag_here();
        if g != Tag::LBrace && (g == Tag::Noret || g == Tag::Ident) {
            self.advance();
        }
        match self.parse_block() {
            Ok(b) => Ok(Statement::FunctionDef { name: n, params: ps, body: b }),
            Err(e) => Err(e),
        }
    }

    #[verifier::spinoff_prover]
    #[verifier::rlimit(60)]
    fn parse_if(&mut self) -> (r: Result<Statement, Stop>)
        requires
            old(self).wf(),
        ensures
            frame(*old(self), *final(self)),
            out_stm(if_stmt(old(self).toks(), old(self).state()), r, final(self).toks(), final(self).state()),
        decreases ms(old(self).toks(), old(self).state()), 10nat,
    {
        if self.tag_here() != Tag::If {
            return Err(self.expected(Tag::If));
        }
        let p0 = self.pos;
        self.advance();
        let c = match self.parse_condition() {
            Ok(c) => c,
            Err(e) => return Err(e),
        };
        if !(p0 < self.pos) {
            return Err(Stop::Abort);
        }
        let b = match self.parse_block() {
            Ok(b) => b,
            Err(e) => return Err(e),
        };
        if !(p0 < self.pos) {
            return Err(Stop::Abort);
        }
        match self.parse_elifs(Vec::new(), Ghost(Seq::empty())) {
            Ok(rest) => {
                let (elif_blocks, else_block) = rest;
                Ok(Statement::If { condition: c, then_block: b, elif_blocks, else_block })
            },
            Err(e) => Err(e),
        }
    }

    #[verifier::spinoff_prover]
    fn parse_elifs(
        &mut self,
        acc: Vec<(Condition, Vec<Statement>)>,
        Ghost(ad): Ghost<Seq<(Cnd, Seq<Stm>)>>,
    ) -> (r: Result<(Vec<(Condition, Vec<Statement>)>, Option<Vec<Statement>>), Stop>)
        requires
            old(self).wf(),
            elifs_match(acc@, ad),
        ensures
            frame(*old(self), *final(self)),
            out_elifs(elifs(old(self).toks(), old(self).state(), ad), r, final(self).toks(), final(self).state()),
        decreases ms(old(self).toks(), old(self).state()), 10nat,
    {
        let g = self.tag_here();
        if g == Tag::Elif {
            self.advance();
            self.elif_cond_exec(acc, Ghost(ad))
        } else if g == Tag::Else {
            if self.tag_at(1) == Tag::If {
                self.advance();
                self.advance();
                self.elif_cond_exec(acc, Ghost(ad))
            } else {
                self.advance();
                match self.parse_block() {
                    Ok(b) => Ok((acc, Some(b))),
                    Err(e) => Err(e),
                }
            }
        } else {
            Ok((acc, None))
        }
    }

    #[verifier::spinoff_prover]
    #[verifier::rlimit(60)]
    fn elif_cond_exec(
        &mut self,
        acc: Vec<(Condition, Vec<Statement>)>,
        Ghost(ad): Ghost<Seq<(Cnd, Seq<Stm>)>>,
    ) -> (r: Result<(Vec<(Condition, Vec<Statement>)>, Option<Vec<Statement>>), Stop>)
        requires
            old(self).wf(),
            elifs_match(acc@, ad),
        ensures
            frame(*old(self), *final(self)),
            out_elifs(elif_cond(old(self).toks(), old(self).state(), ad), r, final(self).toks(), final(self).state()),
        decreases ms(old(self).toks(), old(self).state()), 10nat,
    {
        let ghost t = self.toks();
        let ghost sc = self.state();
        let p0 = self.pos;
        let c = match self.parse_condition() {
            Ok(c) => c,
            Err(e) => return Err(e),
        };
        if !(p0 < self.pos) {
            return Err(Stop::Abort);
        }
        let ghost cd = cond(t, sc)->Done_0;
        self.elif_rest_exec(acc, Ghost(ad), c, Ghost(cd))
    }

    #[verifier::spinoff_prover]
    #[verifier::rlimit(100)]
    fn elif_rest_exec(
        &mut self,
        acc: Vec<(Condition, Vec<Statement>)>,
        Ghost(ad): Ghost<Seq<(Cnd, Seq<Stm>)>>,
        c: Condition,
        Ghost(cd): Ghost<Cnd>,
    ) -> (r: Result<(Vec<(Condition, Vec<Statement>)>, Option<Vec<Statement>>), Stop>)
        requires
            old(self).wf(),
            elifs_match(acc@, ad),
            cnd_matches(c, cd),
        ensures
            frame(*old(self), *final(self)),
            out_elifs(elif_rest(old(self).toks(), old(self).state(), ad, cd), r, final(self).toks(), final(self).state()),
        decreases ms(old(self).toks(), old(self).state()), 10nat,
    {
        let ghost t = self.toks();
        let ghost sb = self.state();
        let mut acc = acc;
        let p0 = self.pos;
        let b = match self.parse_block() {
            Ok(b) => b,
            Err(e) => return Err(e),
        };
        if !(p0 < self.pos) {
            return Err(Stop::Abort);
        }
        let ghost bd = block(t, sb)->Done_0;
        proof {
            lemma_elifs_push(acc@, ad, (c, b), (cd, bd));
        }
        acc.push((c, b));
        self.parse_elifs(acc, Ghost(ad.push((cd, bd))))
    }

    #[verifier::spinoff_prover]
    fn parse_while(&mut self) -> (r: Result<Statement, Stop>)
        requires
            old(self).wf(),
        ensures
            frame(*old(self), *final(self)),
            out_stm(while_stmt(old(self).toks(), old(self).state()), r, final(self).toks(), final(self).state()),
        decreases ms(old(self).toks(), old(self).state()), 10nat,
    {
        if self.tag_here() != Tag::While {
            return Err(self.expected(Tag::While));
        }
        let p0 = self.pos;
        self.advance();
        let c = match self.parse_condition() {
            Ok(c) => c,
            Err(e) => return Err(e),
        };
        if !(p0 < self.pos) {
            return Err(Stop::Abort);
        }
        match self.parse_block() {
            Ok(b) => Ok(Statement::While { condition: c, body: b }),
            Err(e) => Err(e),
        }
    }

    #[verifier::spinoff_prover]
    fn init_exec(&mut self) -> (r: Result<Expression, Stop>)
        requires
            old(self).wf(),
        ensures
            frame(*old(self), *final(self)),
            out_expr(init_clause(old(self).toks(), old(self).state()), r, final(self).toks(), final(self).state()),
        decreases ms(old(self).toks(), old(self).state()), 6nat,
    {
        let g = self.tag_here();
        if g == Tag::Let || g == Tag::Dollar {
            match self.ident_at(1) {
                Some(_) => {
                    if self.tag_at(2) != Tag::Eq {
                        self.advance();
                        self.advance();
                        return Err(self.expected(Tag::Eq));
                    }
                    self.advance();
                    self.advance();
                    self.advance();
                    self.parse_expr(0)
                },
                None => {
                    self.advance();
                    Err(self.ident_expected())
                },
            }
        } else {
            self.parse_expr(0)
        }
    }

    #[verifier::spinoff_prover]
    fn opt_init_exec(&mut self, g: Tag) -> (r: Result<Option<Expression>, Stop>)
        requires
            old(self).wf(),
        ensures
            frame(*old(self), *final(self)),
            out_opt_expr(opt_init(old(self).toks(), old(self).state(), g), r, final(self).toks(), final(self).state()),
        decreases ms(old(self).toks(), old(self).state()), 7nat,
    {
        if self.tag_here() == g {
            Ok(None)
        } else {
            match self.init_exec() {
                Ok(e) => Ok(Some(e)),
                Err(e) => Err(e),
            }
        }
    }

    #[verifier::spinoff_prover]
    fn opt_expr_exec(&mut self, g: Tag) -> (r: Result<Option<Expression>, Stop>)
        requires
            old(self).wf(),
        ensures
            frame(*old(self), *final(self)),
            out_opt_expr(opt_expr(old(self).toks(), old(self).state(), g), r, final(self).toks(), final(self).state()),
        decreases ms(old(self).toks(), old(self).state()), 6nat,
    {
        if self.tag_here() == g {
            Ok(None)
        } else {
            match self.parse_expr(0) {
                Ok(e) => Ok(Some(e)),
                Err(e) => Err(e),
            }
        }
    }

    #[verifier::spinoff_prover]
    fn parse_for(&mut self) -> (r: Result<Statement, Stop>)
        requires
            old(self).wf(),
        ensures
            frame(*old(self), *final(self)),
            out_stm(for_stmt(old(self).toks(), old(self).state()), r, final(self).toks(), final(self).state()),
        decreases ms(old(self).toks(), old(self).state()), 10nat,
    {
        if self.tag_here() != Tag::For {
            return Err(self.expected(Tag::For));
        }
        if self.tag_at(1) == Tag::LParen {
            self.advance();
            self.advance();
            self.cfor_exec()
        } else {
            self.advance();
            self.for_in_exec()
        }
    }

    #[verifier::spinoff_prover]
    #[verifier::rlimit(100)]
    fn cfor_exec(&mut self) -> (r: Result<Statement, Stop>)
        requires
            old(self).wf(),
        ensures
            frame(*old(self), *final(self)),
            out_stm(cfor(old(self).toks(), old(self).state()), r, final(self).toks(), final(self).state()),
        decreases ms(old(self).toks(), old(self).state()), 10nat,
    {
        let ghost t = self.toks();
        let ghost s = self.state();
        let p0 = self.pos;
        let init = match self.opt_init_exec(Tag::Comma) {
            Ok(x) => x,
            Err(e) => return Err(e),
        };
        let ghost id = opt_init(t, s, Tag::Comma)->Done_0;
        if !(p0 <= self.pos) {
            return Err(Stop::Abort);
        }
        self.cfor_rest_exec(init, Ghost(id))
    }

    #[verifier::spinoff_prover]
    #[verifier::rlimit(100)]
    fn cfor_rest_exec(&mut self, init: Option<Expression>, Ghost(id): Ghost<Option<Expr>>) -> (r: Result<Statement, Stop>)
        requires
            old(self).wf(),
            opt_expr_matches(init, id),
        ensures
            frame(*old(self), *final(self)),
            out_stm(cfor_rest(old(self).toks(), old(self).state(), id), r, final(self).toks(), final(self).state()),
        decreases ms(old(self).toks(), old(self).state()), 9nat,
    {
        let ghost t = self.toks();
        if self.tag_here() != Tag::Comma {
            return Err(self.expected(Tag::Comma));
        }
        let p0 = self.pos;
        self.advance();
        let ghost s1 = self.state();
        let c = match self.parse_condition() {
            Ok(c) => c,
            Err(e) => return Err(e),
        };
        if !(p0 < self.pos) {
            return Err(Stop::Abort);
        }
        let ghost cd = cond(t, s1)->Done_0;
        self.cfor_mid_exec(init, Ghost(id), c, Ghost(cd))
    }

    #[verifier::spinoff_prover]
    fn cfor_mid_exec(&mut self, init: Option<Expression>, Ghost(id): Ghost<Option<Expr>>, c: Condition, Ghost(cd): Ghost<Cnd>) -> (r: Result<
        Statement,
        Stop,
    >)
        requires
            old(self).wf(),
            opt_expr_matches(init, id),
            cnd_matches(c, cd),
        ensures
            frame(*old(self), *final(self)),
            out_stm(cfor_mid(old(self).toks(), old(self).state(), id, cd), r, final(self).toks(), final(self).state()),
        decreases ms(old(self).toks(), old(self).state()), 10nat,
    {
        if self.tag_here() != Tag::Comma {
            return Err(self.expected(Tag::Comma));
        }
        self.advance();
        self.cfor_tail_exec(init, Ghost(id), c, Ghost(cd))
    }

    #[verifier::spinoff_prover]
    #[verifier::rlimit(100)]
    fn cfor_tail_exec(&mut self, init: Option<Expression>, Ghost(id): Ghost<Option<Expr>>, c: Condition, Ghost(cd): Ghost<Cnd>) -> (r: Result<
        Statement,
        Stop,
    >)
        requires
            old(self).wf(),
            opt_expr_matches(init, id),
            cnd_matches(c, cd),
        ensures
            frame(*old(self), *final(self)),
            out_stm(cfor_tail(old(self).toks(), old(self).state(), id, cd), r, final(self).toks(), final(self).state()),
        decreases ms(old(self).toks(), old(self).state()), 10nat,
    {
        let p0 = self.pos;
        let upd = match self.opt_init_exec(Tag::RParen) {
            Ok(x) => x,
            Err(e) => return Err(e),
        };
        if !(p0 <= self.pos) {
            return Err(Stop::Abort);
        }
        if self.tag_here() != Tag::RParen {
            return Err(self.expected(Tag::RParen));
        }
        self.advance();
        match self.parse_block() {
            Ok(b) => Ok(Statement::ForLoop { init, condition: c, update: upd, body: b }),
            Err(e) => Err(e),
        }
    }

    #[verifier::spinoff_prover]
    #[verifier::rlimit(100)]
    fn for_in_exec(&mut self) -> (r: Result<Statement, Stop>)
        requires
            old(self).wf(),
        ensures
            frame(*old(self), *final(self)),
            out_stm(for_in(old(self).toks(), old(self).state()), r, final(self).toks(), final(self).state()),
        decreases ms(old(self).toks(), old(self).state()), 10nat,
    {
        let ghost t = self.toks();
        let v = match self.ident_at(0) {
            Some(v) => v,
            None => return Err(self.ident_expected()),
        };
        if self.tag_at(1) != Tag::In {
            self.advance();
            return Err(self.expected(Tag::In));
        }
        let p0 = self.pos;
        self.advance();
        self.advance();
        let ghost se = self.state();
        let e = match self.parse_expr(0) {
            Ok(e) => e,
            Err(e) => return Err(e),
        };
        if !(p0 < self.pos) {
            return Err(Stop::Abort);
        }
        let ghost ed = expr(t, se, 0)->Done_0;
        self.for_in_rest_exec(v, e, Ghost(ed))
    }

    #[verifier::spinoff_prover]
    #[verifier::rlimit(100)]
    fn for_in_rest_exec(&mut self, v: String, e: Expression, Ghost(ed): Ghost<Expr>) -> (r: Result<
        Statement,
        Stop,
    >)
        requires
            old(self).wf(),
            expr_matches(e, ed),
        ensures
            frame(*old(self), *final(self)),
            out_stm(for_in_rest(old(self).toks(), old(self).state(), v@, ed), r, final(self).toks(), final(self).state()),
        decreases ms(old(self).toks(), old(self).state()), 10nat,
    {
        let ghost first = seq![ed];
        proof {
            lemma_exprs_push(Seq::empty(), Seq::empty(), e, ed);
            assert(Seq::<Expression>::empty().push(e) =~= seq![e]);
            assert(Seq::<Expr>::empty().push(ed) =~= first);
        }
        let p0 = self.pos;
        let its = match self.for_items_exec(vec![e], Ghost(first)) {
            Ok(its) => its,
            Err(e) => return Err(e),
        };
        if !(p0 <= self.pos) {
            return Err(Stop::Abort);
        }
        match self.parse_block() {
            Ok(b) => Ok(Statement::For { var: v, items: its, body: b }),
            Err(e) => Err(e),
        }
    }

    #[verifier::spinoff_prover]
    fn for_items_exec(&mut self, acc: Vec<Expression>, Ghost(ad): Ghost<Seq<Expr>>) -> (r: Result<
        Vec<Expression>,
        Stop,
    >)
        requires
            old(self).wf(),
            exprs_match(acc@, ad),
        ensures
            frame(*old(self), *final(self)),
            out_exprs(for_items(old(self).toks(), old(self).state(), ad), r, final(self).toks(), final(self).state()),
        decreases ms(old(self).toks(), old(self).state()), 6nat,
    {
        let ghost t = self.toks();
        let mut acc = acc;
        if self.tag_here() == Tag::LBrace {
            return Ok(acc);
        }
        let p0 = self.pos;
        let ghost se = self.state();
        match self.parse_expr(0) {
            Ok(e) => {
                if !(p0 < self.pos) {
                    return Err(Stop::Abort);
                }
                let ghost ed = expr(t, se, 0)->Done_0;
                proof {
                    lemma_exprs_push(acc@, ad, e, ed);
                }
                acc.push(e);
                self.for_items_exec(acc, Ghost(ad.push(ed)))
            },
            Err(e) => Err(e),
        }
    }

    #[verifier::spinoff_prover]
    fn parse_foreach(&mut self) -> (r: Result<Statement, Stop>)
        requires
            old(self).wf(),
        ensures
            frame(*old(self), *final(self)),
            out_stm(foreach_stmt(old(self).toks(), old(self).state()), r, final(self).toks(), final(self).state()),
        decreases ms(old(self).toks(), old(self).state()), 10nat,
    {
        if self.tag_here() != Tag::Foreach {
            return Err(self.expected(Tag::Foreach));
        }
        let v = match self.ident_at(1) {
            Some(v) => v,
            None => {
                self.advance();
                return Err(self.ident_expected());
            },
        };
        if self.tag_at(2) != Tag::In {
            self.advance();
            self.advance();
            return Err(self.expected(Tag::In));
        }
        let p0 = self.pos;
        self.advance();
        self.advance();
        self.advance();
        let e = match self.parse_expr(0) {
            Ok(e) => e,
            Err(e) => return Err(e),
        };
        if !(p0 < self.pos) {
            return Err(Stop::Abort);
        }
        match self.parse_block() {
            Ok(b) => Ok(Statement::Foreach { var: v, iterable: e, body: b }),
            Err(e) => Err(e),
        }
    }

    #[verifier::spinoff_prover]
    fn parse_loop(&mut self) -> (r: Result<Statement, Stop>)
        requires
            old(self).wf(),
        ensures
            frame(*old(self), *final(self)),
            out_stm(loop_stmt(old(self).toks(), old(self).state()), r, final(self).toks(), final(self).state()),
        decreases ms(old(self).toks(), old(self).state()), 10nat,
    {
        if self.tag_here() != Tag::Loop {
            return Err(self.expected(Tag::Loop));
        }
        self.advance();
        let g = self.tag_here();
        if g == Tag::Count || g == Tag::Interval {
            match self.number_at(1) {
                Some(n) => {
                    self.advance();
                    self.advance();
                    match self.parse_block() {
                        Ok(b) => {
                            if g == Tag::Count {
                                Ok(Statement::Loop { count: Some(n as u64), interval: None, body: b })
                            } else {
                                Ok(Statement::Loop { count: None, interval: Some(n as u64), body: b })
                            }
                        },
                        Err(e) => Err(e),
                    }
                },
                None => {
                    self.advance();
                    if g == Tag::Count {
                        Err(self.fail_here(str_chars("expected number after 'count'")))
                    } else {
                        Err(self.fail_here(str_chars("expected number after 'interval'")))
                    }
                },
            }
        } else {
            match self.parse_block() {
                Ok(b) => Ok(Statement::Loop { count: None, interval: None, body: b }),
                Err(e) => Err(e),
            }
        }
    }

    #[verifier::spinoff_prover]
    fn parse_return(&mut self) -> (r: Result<Statement, Stop>)
        requires
            old(self).wf(),
        ensures
            frame(*old(self), *final(self)),
            out_stm(return_stmt(old(self).toks(), old(self).state()), r, final(self).toks(), final(self).state()),
        decreases ms(old(self).toks(), old(self).state()), 10nat,
    {
        if self.tag_here() != Tag::Return {
            return Err(self.expected(Tag::Return));
        }
        self.advance();
        let g = self.tag_here();
        if g == Tag::Semi || g == Tag::RBrace {
            self.skip_tag(Tag::Semi);
            Ok(Statement::Return { value: None })
        } else {
            match self.parse_expr(0) {
                Ok(e) => {
                    self.skip_tag(Tag::Semi);
                    Ok(Statement::Return { value: Some(e) })
                },
                Err(e) => Err(e),
            }
        }
    }

    #[verifier::spinoff_prover]
    fn parse_try(&mut self) -> (r: Result<Statement, Stop>)
        requires
            old(self).wf(),
        ensures
            frame(*old(self), *final(self)),
            out_stm(try_stmt(old(self).toks(), old(self).state()), r, final(self).toks(), final(self).state()),
        decreases ms(old(self).toks(), old(self).state()), 10nat,
    {
        if self.tag_here() != Tag::Try {
            return Err(self.expected(Tag::Try));
        }
        let p0 = self.pos;
        self.advance();
        let b = match self.parse_block() {
            Ok(b) => b,
            Err(e) => return Err(e),
        };
        if !(p0 < self.pos) {
            return Err(Stop::Abort);
        }
        if self.tag_here() == Tag::Catch {
            self.advance();
            match self.parse_block() {
                Ok(c) => Ok(Statement::Try { try_block: b, catch_block: Some(c) }),
                Err(e) => Err(e),
            }
        } else {
            Ok(Statement::Try { try_block: b, catch_block: None })
        }
    }

    #[verifier::spinoff_prover]
    #[verifier::rlimit(100)]
    fn parse_scan(&mut self) -> (r: Result<Statement, Stop>)
        requires
            old(self).wf(),
        ensures
            frame(*old(self), *final(self)),
            out_stm(scan_stmt(old(self).toks(), old(self).state()), r, final(self).toks(), final(self).state()),
        decreases ms(old(self).toks(), old(self).state()), 10nat,
    {
        if self.tag_here() != Tag::Scan {
            return Err(self.expected(Tag::Scan));
        }
        let ghost t = self.toks();
        let p0 = self.pos;
        self.advance();
        let ghost s1 = self.state();
        let e = match self.opt_expr_exec(Tag::Of) {
            Ok(e) => e,
            Err(e) => return Err(e),
        };
        if !(p0 < self.pos) {
            return Err(Stop::Abort);
        }
        let ghost ed = opt_expr(t, s1, Tag::Of)->Done_0;
        self.scan_rest_exec(e, Ghost(ed))
    }

    #[verifier::spinoff_prover]
    #[verifier::rlimit(100)]
    fn scan_rest_exec(&mut self, e: Option<Expression>, Ghost(ed): Ghost<Option<Expr>>) -> (r: Result<Statement, Stop>)
        requires
            old(self).wf(),
            opt_expr_matches(e, ed),
        ensures
            frame(*old(self), *final(self)),
            out_stm(scan_rest(old(self).toks(), old(self).state(), ed), r, final(self).toks(), final(self).state()),
        decreases ms(old(self).toks(), old(self).state()), 10nat,
    {
        if self.tag_here() != Tag::Of {
            return Err(self.expected(Tag::Of));
        }
        let n = match self.ident_at(1) {
            Some(n) => n,
            None => {
                self.advance();
                return Err(self.ident_expected());
            },
        };
        if self.tag_at(2) != Tag::LBrace {
            self.advance();
            self.advance();
            return Err(self.expected(Tag::LBrace));
        }
        self.advance();
        self.advance();
        self.advance();
        match self.labelled_exec(Vec::new(), Ghost(Seq::empty())) {
            Ok(bs) => Ok(Statement::Scan { expr: e, enum_type: n, branches: bs }),
            Err(e) => Err(e),
        }
    }

    #[verifier::spinoff_prover]
    fn labelled_exec(
        &mut self,
        acc: Vec<(String, Vec<Statement>)>,
        Ghost(ad): Ghost<Seq<(Seq<char>, Seq<Stm>)>>,
    ) -> (r: Result<Vec<(String, Vec<Statement>)>, Stop>)
        requires
            old(self).wf(),
            labelled_match(acc@, ad),
        ensures
            frame(*old(self), *final(self)),
            out_labelled(labelled(old(self).toks(), old(self).state(), ad), r, final(self).toks(), final(self).state()),
        decreases ms(old(self).toks(), old(self).state()), 10nat,
    {
        let ghost t = self.toks();
        let mut acc = acc;
        if self.tag_here() == Tag::RBrace {
            self.advance();
            return Ok(acc);
        }
        let l = match self.ident_at(0) {
            Some(l) => l,
            None => return Err(self.ident_expected()),
        };
        if self.tag_at(1) != Tag::Colon {
            self.advance();
            return Err(self.expected(Tag::Colon));
        }
        let p0 = self.pos;
        self.advance();
        self.advance();
        let ghost sx = self.state();
        let x = match self.parse_statement() {
            Ok(x) => x,
            Err(e) => return Err(e),
        };
        if !(p0 < self.pos) {
            return Err(Stop::Abort);
        }
        let ghost xd = stmt(t, sx)->Done_0;
        proof {
            lemma_one_stm(x, xd);
        }
        let ghost xg = x;
        let one = vec![x];
        proof {
            assert(one@ =~= seq![xg]);
            lemma_labelled_push(acc@, ad, (l, one), (l@, seq![xd]));
        }
        let ghost ad2 = ad.push((l@, seq![xd]));
        acc.push((l, one));
        self.labelled_exec(acc, Ghost(ad2))
    }

    #[verifier::spinoff_prover]
    fn parse_switch(&mut self) -> (r: Result<Statement, Stop>)
        requires
            old(self).wf(),
        ensures
            frame(*old(self), *final(self)),
            out_stm(switch_stmt(old(self).toks(), old(self).state()), r, final(self).toks(), final(self).state()),
        decreases ms(old(self).toks(), old(self).state()), 10nat,
    {
        if self.tag_here() != Tag::Switch {
            return Err(self.expected(Tag::Switch));
        }
        if self.tag_at(1) != Tag::On {
            self.advance();
            return Err(self.expected(Tag::On));
        }
        let p0 = self.pos;
        self.advance();
        self.advance();
        let e = match self.parse_expr(0) {
            Ok(e) => e,
            Err(e) => return Err(e),
        };
        if !(p0 < self.pos) {
            return Err(Stop::Abort);
        }
        if self.tag_here() != Tag::LBrace {
            return Err(self.expected(Tag::LBrace));
        }
        self.advance();
        match self.arms_exec(Vec::new(), Ghost(Seq::empty()), None, Ghost(None)) {
            Ok(rest) => {
                let (branches, default_branch) = rest;
                Ok(Statement::Switch { expr: e, branches, default_branch })
            },
            Err(e) => Err(e),
        }
    }

    #[verifier::spinoff_prover]
    fn arms_exec(
        &mut self,
        acc: Vec<(String, Vec<Statement>)>,
        Ghost(ad): Ghost<Seq<(Seq<char>, Seq<Stm>)>>,
        dflt: Option<Vec<Statement>>,
        Ghost(dd): Ghost<Option<Seq<Stm>>>,
    ) -> (r: Result<(Vec<(String, Vec<Statement>)>, Option<Vec<Statement>>), Stop>)
        requires
            old(self).wf(),
            labelled_match(acc@, ad),
            opt_stms_match(dflt, dd),
        ensures
            frame(*old(self), *final(self)),
            out_arms(arms(old(self).toks(), old(self).state(), ad, dd), r, final(self).toks(), final(self).state()),
        decreases ms(old(self).toks(), old(self).state()), 10nat,
    {
        let ghost t = self.toks();
        let mut acc = acc;
        let g = self.tag_here();
        if g == Tag::RBrace {
            self.advance();
            return Ok((acc, dflt));
        }
        if g == Tag::Default {
            if self.tag_at(1) != Tag::Colon {
                self.advance();
                return Err(self.expected(Tag::Colon));
            }
            let p0 = self.pos;
            self.advance();
            self.advance();
            let ghost sx = self.state();
            let x = match self.parse_statement() {
                Ok(x) => x,
                Err(e) => return Err(e),
            };
            if !(p0 < self.pos) {
                return Err(Stop::Abort);
            }
            let ghost xd = stmt(t, sx)->Done_0;
            proof {
                lemma_one_stm(x, xd);
            }
            let ghost xg = x;
            let one = vec![x];
            proof {
                assert(one@ =~= seq![xg]);
            }
            let ghost dd2 = Some(seq![xd]);
            self.arms_exec(acc, Ghost(ad), Some(one), Ghost(dd2))
        } else {
            let l = match self.ident_at(0) {
                Some(l) => l,
                None => return Err(self.ident_expected()),
            };
            if self.tag_at(1) != Tag::Colon {
                self.advance();
                return Err(self.expected(Tag::Colon));
            }
            let p0 = self.pos;
            self.advance();
            self.advance();
            let ghost sx = self.state();
            let x = match self.parse_statement() {
                Ok(x) => x,
                Err(e) => return Err(e),
            };
            if !(p0 < self.pos) {
                return Err(Stop::Abort);
            }
            let ghost xd = stmt(t, sx)->Done_0;
            proof {
                lemma_one_stm(x, xd);
            }
            let ghost xg = x;
            let one = vec![x];
            proof {
                assert(one@ =~= seq![xg]);
                lemma_labelled_push(acc@, ad, (l, one), (l@, seq![xd]));
            }
            let ghost ad2 = ad.push((l@, seq![xd]));
            acc.push((l, one));
            self.arms_exec(acc, Ghost(ad2), dflt, Ghost(dd))
        }
    }

    #[verifier::spinoff_prover]
    #[verifier::rlimit(100)]
    fn parse_chain(&mut self) -> (r: Result<Statement, Stop>)
        requires
            old(self).wf(),
        ensures
            frame(*old(self), *final(self)),
            out_stm(chain_stmt(old(self).toks(), old(self).state()), r, final(self).toks(), final(self).state()),
        decreases ms(old(self).toks(), old(self).state()), 10nat,
    {
        if self.tag_here() != Tag::Chain {
            return Err(self.expected(Tag::Chain));
        }
        if self.tag_at(1) != Tag::LBrace {
            self.advance();
            return Err(self.expected(Tag::LBrace));
        }
        self.advance();
        self.advance();
        match self.steps_exec(Vec::new(), Ghost(Seq::empty())) {
            Ok(es) => Ok(Statement::Chain { steps: es }),
            Err(e) => Err(e),
        }
    }

    #[verifier::spinoff_prover]
    fn steps_exec(&mut self, acc: Vec<Expression>, Ghost(ad): Ghost<Seq<Expr>>) -> (r: Result<
        Vec<Expression>,
        Stop,
    >)
        requires
            old(self).wf(),
            exprs_match(acc@, ad),
        ensures
            frame(*old(self), *final(self)),
            out_exprs(steps(old(self).toks(), old(self).state(), ad), r, final(self).toks(), final(self).state()),
        decreases ms(old(self).toks(), old(self).state()), 10nat,
    {
        let ghost t = self.toks();
        let mut acc = acc;
        if self.tag_here() == Tag::RBrace {
            self.advance();
            return Ok(acc);
        }
        let p0 = self.pos;
        let ghost se = self.state();
        let e = match self.parse_expr(0) {
            Ok(e) => e,
            Err(e) => return Err(e),
        };
        if !(p0 < self.pos) {
            return Err(Stop::Abort);
        }
        self.skip_tag(Tag::Semi);
        let ghost ed = expr(t, se, 0)->Done_0;
        proof {
            lemma_exprs_push(acc@, ad, e, ed);
        }
        acc.push(e);
        self.steps_exec(acc, Ghost(ad.push(ed)))
    }

    // ---- conditions ----

    #[verifier::spinoff_prover]
    fn parse_condition(&mut self) -> (r: Result<Condition, Stop>)
        requires
            old(self).wf(),
        ensures
            frame(*old(self), *final(self)),
            out_cnd(cond(old(self).toks(), old(self).state()), r, final(self).toks(), final(self).state()),
        decreases ms(old(self).toks(), old(self).state()), 9nat,
    {
        if self.tag_here() == Tag::LParen {
            self.advance();
            let c = match self.cond_or() {
                Ok(c) => c,
                Err(e) => return Err(e),
            };
            if self.tag_here() != Tag::RParen {
                return Err(self.expected(Tag::RParen));
            }
            self.advance();
            Ok(c)
        } else {
            self.cond_or()
        }
    }

    #[verifier::spinoff_prover]
    fn cond_or(&mut self) -> (r: Result<Condition, Stop>)
        requires
            old(self).wf(),
        ensures
            frame(*old(self), *final(self)),
            out_cnd(cor(old(self).toks(), old(self).state()), r, final(self).toks(), final(self).state()),
        decreases ms(old(self).toks(), old(self).state()), 8nat,
    {
        let ghost t = self.toks();
        let ghost s = self.state();
        let p0 = self.pos;
        let l = match self.cond_and() {
            Ok(l) => l,
            Err(e) => return Err(e),
        };
        if !(p0 < self.pos) {
            return Err(Stop::Abort);
        }
        let ghost ld = cand(t, s)->Done_0;
        self.cor_rest_exec(l, Ghost(ld))
    }

    #[verifier::spinoff_prover]
    fn cor_rest_exec(&mut self, l: Condition, Ghost(ld): Ghost<Cnd>) -> (r: Result<Condition, Stop>)
        requires
            old(self).wf(),
            cnd_matches(l, ld),
        ensures
            frame(*old(self), *final(self)),
            out_cnd(cor_rest(old(self).toks(), old(self).state(), ld), r, final(self).toks(), final(self).state()),
        decreases ms(old(self).toks(), old(self).state()), 8nat,
    {
        let ghost t = self.toks();
        if self.tag_here() == Tag::OrOr {
            let p0 = self.pos;
            self.advance();
            let ghost sr = self.state();
            let r = match self.cond_and() {
                Ok(r) => r,
                Err(e) => return Err(e),
            };
            if !(p0 < self.pos) {
                return Err(Stop::Abort);
            }
            let ghost rd = cand(t, sr)->Done_0;
            self.cor_rest_exec(
                Condition::Or(Box::new(l), Box::new(r)),
                Ghost(Cnd::Or(Box::new(ld), Box::new(rd))),
            )
        } else {
            Ok(l)
        }
    }

    #[verifier::spinoff_prover]
    fn cond_and(&mut self) -> (r: Result<Condition, Stop>)
        requires
            old(self).wf(),
        ensures
            frame(*old(self), *final(self)),
            out_cnd(cand(old(self).toks(), old(self).state()), r, final(self).toks(), final(self).state()),
        decreases ms(old(self).toks(), old(self).state()), 7nat,
    {
        let ghost t = self.toks();
        let ghost s = self.state();
        let p0 = self.pos;
        let l = match self.cond_atom() {
            Ok(l) => l,
            Err(e) => return Err(e),
        };
        if !(p0 < self.pos) {
            return Err(Stop::Abort);
        }
        let ghost ld = atom(t, s)->Done_0;
        self.cand_rest_exec(l, Ghost(ld))
    }

    #[verifier::spinoff_prover]
    fn cand_rest_exec(&mut self, l: Condition, Ghost(ld): Ghost<Cnd>) -> (r: Result<Condition, Stop>)
        requires
            old(self).wf(),
            cnd_matches(l, ld),
        ensures
            frame(*old(self), *final(self)),
            out_cnd(cand_rest(old(self).toks(), old(self).state(), ld), r, final(self).toks(), final(self).state()),
        decreases ms(old(self).toks(), old(self).state()), 7nat,
    {
        let ghost t = self.toks();
        if self.tag_here() == Tag::AndAnd {
            let p0 = self.pos;
            self.advance();
            let ghost sr = self.state();
            let r = match self.cond_atom() {
                Ok(r) => r,
                Err(e) => return Err(e),
            };
            if !(p0 < self.pos) {
                return Err(Stop::Abort);
            }
            let ghost rd = atom(t, sr)->Done_0;
            self.cand_rest_exec(
                Condition::And(Box::new(l), Box::new(r)),
                Ghost(Cnd::And(Box::new(ld), Box::new(rd))),
            )
        } else {
            Ok(l)
        }
    }

    #[verifier::spinoff_prover]
    fn cond_atom(&mut self) -> (r: Result<Condition, Stop>)
        requires
            old(self).wf(),
        ensures
            frame(*old(self), *final(self)),
            out_cnd(atom(old(self).toks(), old(self).state()), r, final(self).toks(), final(self).state()),
        decreases ms(old(self).toks(), old(self).state()), 6nat,
    {
        if self.tag_here() == Tag::LParen {
            self.advance();
            let c = match self.cond_or() {
                Ok(c) => c,
                Err(e) => return Err(e),
            };
            if self.tag_here() != Tag::RParen {
                return Err(self.expected(Tag::RParen));
            }
            self.advance();
            Ok(c)
        } else {
            let p0 = self.pos;
            let l = match self.parse_expr(0) {
                Ok(l) => l,
                Err(e) => return Err(e),
            };
            match cmp_exec(self.tag_here()) {
                Some(op) => {
                    if !(p0 < self.pos) {
                        return Err(Stop::Abort);
                    }
                    self.advance();
                    match self.parse_expr(0) {
                        Ok(r) => Ok(Condition::Compare(l, op, r)),
                        Err(e) => Err(e),
                    }
                },
                None => Ok(Condition::Command(l)),
            }
        }
    }

    // ---- expressions ----

    #[verifier::spinoff_prover]
    fn parse_expr(&mut self, bp: u8) -> (r: Result<Expression, Stop>)
        requires
            old(self).wf(),
        ensures
            frame(*old(self), *final(self)),
            out_expr(expr(old(self).toks(), old(self).state(), bp), r, final(self).toks(), final(self).state()),
        decreases ms(old(self).toks(), old(self).state()), 5nat,
    {
        let ghost t = self.toks();
        let ghost s = self.state();
        let p0 = self.pos;
        let l = match self.parse_unary() {
            Ok(l) => l,
            Err(e) => return Err(e),
        };
        if !(p0 < self.pos) {
            return Err(Stop::Abort);
        }
        let ghost ld = unary(t, s)->Done_0;
        self.expr_rest_exec(bp, l, Ghost(ld))
    }

    #[verifier::spinoff_prover]
    fn expr_rest_exec(&mut self, bp: u8, lhs: Expression, Ghost(ld): Ghost<Expr>) -> (r: Result<
        Expression,
        Stop,
    >)
        requires
            old(self).wf(),
            expr_matches(lhs, ld),
        ensures
            frame(*old(self), *final(self)),
            out_expr(expr_rest(old(self).toks(), old(self).state(), bp, ld), r, final(self).toks(), final(self).state()),
        decreases ms(old(self).toks(), old(self).state()), 5nat,
    {
        let ghost t = self.toks();
        match binop_exec(self.tag_here()) {
            Some(o) => {
                let (op, lb, rb) = o;
                if lb < bp {
                    Ok(lhs)
                } else {
                    let p0 = self.pos;
                    self.advance();
                    let ghost sr = self.state();
                    let rhs = match self.parse_expr(rb) {
                        Ok(rhs) => rhs,
                        Err(e) => return Err(e),
                    };
                    if !(p0 < self.pos) {
                        return Err(Stop::Abort);
                    }
                    let ghost rd = expr(t, sr, rb)->Done_0;
                    self.expr_rest_exec(
                        bp,
                        Expression::BinaryOp(Box::new(lhs), op, Box::new(rhs)),
                        Ghost(Expr::Bin(Box::new(ld), op, Box::new(rd))),
                    )
                }
            },
            None => Ok(lhs),
        }
    }

    #[verifier::spinoff_prover]
    fn parse_unary(&mut self) -> (r: Result<Expression, Stop>)
        requires
            old(self).wf(),
        ensures
            frame(*old(self), *final(self)),
            out_expr(unary(old(self).toks(), old(self).state()), r, final(self).toks(), final(self).state()),
        decreases ms(old(self).toks(), old(self).state()), 4nat,
    {
        let g = self.tag_here();
        if g == Tag::Minus || g == Tag::Not {
            self.advance();
            match self.parse_unary() {
                Ok(e) => {
                    let op = if g == Tag::Minus {
                        UnOp::Neg
                    } else {
                        UnOp::Not
                    };
                    Ok(Expression::UnaryOp(op, Box::new(e)))
                },
                Err(e) => Err(e),
            }
        } else {
            self.parse_postfix()
        }
    }

    #[verifier::spinoff_prover]
    fn parse_postfix(&mut self) -> (r: Result<Expression, Stop>)
        requires
            old(self).wf(),
        ensures
            frame(*old(self), *final(self)),
            out_expr(postfix(old(self).toks(), old(self).state()), r, final(self).toks(), final(self).state()),
        decreases ms(old(self).toks(), old(self).state()), 3nat,
    {
        self.parse_primary()
    }

    #[verifier::spinoff_prover]
    fn parse_primary(&mut self) -> (r: Result<Expression, Stop>)
        requires
            old(self).wf(),
        ensures
            frame(*old(self), *final(self)),
            out_expr(primary(old(self).toks(), old(self).state()), r, final(self).toks(), final(self).state()),
        decreases ms(old(self).toks(), old(self).state()), 2nat,
    {
        proof {
            lemma_tag(kd(self.toks(), self.position()));
        }
        let literal: Option<Expression> = match &self.tokens[self.pos].kind {
            TokenKind::Number(n) => Some(Expression::Literal(Literal::Number(*n))),
            TokenKind::Float(f) => Some(Expression::Literal(Literal::Float(f.clone()))),
            TokenKind::True => Some(Expression::Literal(Literal::Bool(true))),
            TokenKind::False => Some(Expression::Literal(Literal::Bool(false))),
            TokenKind::RawStr(x) => Some(Expression::Literal(Literal::Text(x.clone()))),
            TokenKind::Char(c) => {
                let one = vec![*c];
                let ghost cg = *c;
                proof {
                    assert(one@ =~= seq![cg]);
                }
                Some(Expression::Literal(Literal::Text(chars_to_string(&one))))
            },
            TokenKind::Str(ps) => Some(str_expression(ps)),
            TokenKind::At => Some(Expression::Variable(chars_to_string(&str_chars("@")))),
            _ => None,
        };
        if let Some(e) = literal {
            self.advance();
            return Ok(e);
        }
        let g = self.tag_here();
        if g == Tag::Dollar {
            let x = match self.ident_at(1) {
                Some(x) => x,
                None => {
                    self.advance();
                    return Err(self.ident_expected());
                },
            };
            self.advance();
            self.advance();
            match self.dotted_name(str_chars(x.as_str())) {
                Ok(n) => Ok(Expression::Variable(n)),
                Err(e) => Err(e),
            }
        } else if g == Tag::LParen {
            self.advance();
            let e = match self.parse_expr(0) {
                Ok(e) => e,
                Err(e) => return Err(e),
            };
            if self.tag_here() != Tag::RParen {
                return Err(self.expected(Tag::RParen));
            }
            self.advance();
            Ok(e)
        } else if g == Tag::LBracket {
            self.advance();
            match self.array_exec(Vec::new(), Ghost(Seq::empty())) {
                Ok(es) => Ok(Expression::Array(es)),
                Err(e) => Err(e),
            }
        } else if g == Tag::LBrace {
            match self.parse_block() {
                Ok(b) => Ok(Expression::Block(b)),
                Err(e) => Err(e),
            }
        } else if g == Tag::Ident {
            let n = match self.ident_at(0) {
                Some(n) => n,
                None => return Err(Stop::Abort),
            };
            self.advance();
            let g1 = self.tag_here();
            if g1 == Tag::LParen {
                self.advance();
                let args = match self.call_args_exec(Vec::new(), Ghost(Seq::empty())) {
                    Ok(a) => a,
                    Err(e) => return Err(e),
                };
                let cs = str_chars(n.as_str());
                if cs.len() >= 3 && cs[0] == 'c' && cs[1] == ':' && cs[2] == ':' {
                    let rest = sub_chars(&cs, 3, cs.len());
                    proof {
                        assert(rest@ =~= n@.skip(3));
                    }
                    Ok(Expression::CCall(chars_to_string(&rest), args))
                } else {
                    Ok(Expression::FunctionCall(n, args))
                }
            } else if g1 == Tag::LBrace {
                self.advance();
                match self.fields_exec(Vec::new(), Ghost(Seq::empty())) {
                    Ok(fs) => Ok(Expression::StructLiteral(n, fs)),
                    Err(e) => Err(e),
                }
            } else if g1 == Tag::Dot {
                match self.ident_at(1) {
                    Some(v) => {
                        self.advance();
                        self.advance();
                        Ok(Expression::EnumLiteral(n, v))
                    },
                    None => {
                        self.advance();
                        Err(self.ident_expected())
                    },
                }
            } else {
                Ok(Expression::Variable(n))
            }
        } else {
            Err(self.unexpected())
        }
    }

    #[verifier::spinoff_prover]
    fn call_args_exec(&mut self, acc: Vec<Expression>, Ghost(ad): Ghost<Seq<Expr>>) -> (r: Result<
        Vec<Expression>,
        Stop,
    >)
        requires
            old(self).wf(),
            exprs_match(acc@, ad),
        ensures
            frame(*old(self), *final(self)),
            out_exprs(call_args(old(self).toks(), old(self).state(), ad), r, final(self).toks(), final(self).state()),
        decreases ms(old(self).toks(), old(self).state()), 6nat,
    {
        let ghost t = self.toks();
        let mut acc = acc;
        if self.tag_here() == Tag::RParen {
            self.advance();
            return Ok(acc);
        }
        let p0 = self.pos;
        let ghost se = self.state();
        let e = match self.parse_expr(0) {
            Ok(e) => e,
            Err(e) => return Err(e),
        };
        let ghost ed = expr(t, se, 0)->Done_0;
        proof {
            lemma_exprs_push(acc@, ad, e, ed);
        }
        let g = self.tag_here();
        if g == Tag::Comma {
            if !(p0 < self.pos) {
                return Err(Stop::Abort);
            }
            self.advance();
            acc.push(e);
            self.call_args_exec(acc, Ghost(ad.push(ed)))
        } else if g == Tag::RParen {
            self.advance();
            acc.push(e);
            Ok(acc)
        } else {
            Err(self.expected(Tag::RParen))
        }
    }

    #[verifier::spinoff_prover]
    fn array_exec(&mut self, acc: Vec<Expression>, Ghost(ad): Ghost<Seq<Expr>>) -> (r: Result<
        Vec<Expression>,
        Stop,
    >)
        requires
            old(self).wf(),
            exprs_match(acc@, ad),
        ensures
            frame(*old(self), *final(self)),
            out_exprs(array_items(old(self).toks(), old(self).state(), ad), r, final(self).toks(), final(self).state()),
        decreases ms(old(self).toks(), old(self).state()), 6nat,
    {
        let ghost t = self.toks();
        let mut acc = acc;
        if self.tag_here() == Tag::RBracket {
            self.advance();
            return Ok(acc);
        }
        let p0 = self.pos;
        let ghost se = self.state();
        let e = match self.parse_expr(0) {
            Ok(e) => e,
            Err(e) => return Err(e),
        };
        if !(p0 < self.pos) {
            return Err(Stop::Abort);
        }
        self.skip_tag(Tag::Comma);
        let ghost ed = expr(t, se, 0)->Done_0;
        proof {
            lemma_exprs_push(acc@, ad, e, ed);
        }
        acc.push(e);
        self.array_exec(acc, Ghost(ad.push(ed)))
    }

    #[verifier::spinoff_prover]
    fn fields_exec(&mut self, acc: Vec<(String, Expression)>, Ghost(ad): Ghost<Seq<(Seq<char>, Expr)>>) -> (r: Result<
        Vec<(String, Expression)>,
        Stop,
    >)
        requires
            old(self).wf(),
            fields_match(acc@, ad),
        ensures
            frame(*old(self), *final(self)),
            out_fields(fields(old(self).toks(), old(self).state(), ad), r, final(self).toks(), final(self).state()),
        decreases ms(old(self).toks(), old(self).state()), 6nat,
    {
        let ghost t = self.toks();
        let mut acc = acc;
        if self.tag_here() == Tag::RBrace {
            self.advance();
            return Ok(acc);
        }
        let f = match self.ident_at(0) {
            Some(f) => f,
            None => return Err(self.ident_expected()),
        };
        if self.tag_at(1) != Tag::Colon {
            self.advance();
            return Err(self.expected(Tag::Colon));
        }
        let p0 = self.pos;
        self.advance();
        self.advance();
        let ghost se = self.state();
        let e = match self.parse_expr(0) {
            Ok(e) => e,
            Err(e) => return Err(e),
        };
        if !(p0 < self.pos) {
            return Err(Stop::Abort);
        }
        self.skip_tag(Tag::Comma);
        let ghost ed = expr(t, se, 0)->Done_0;
        proof {
            lemma_fields_push(acc@, ad, (f, e), (f@, ed));
        }
        let ghost f_view = f@;
        acc.push((f, e));
        self.fields_exec(acc, Ghost(ad.push((f_view, ed))))
    }

    // ---- a whole program ----

    #[verifier::spinoff_prover]
    fn program_exec(&mut self) -> (r: Result<Vec<Statement>, Stop>)
        requires
            old(self).wf(),
        ensures
            frame(*old(self), *final(self)),
            out_stms(
                program(old(self).toks(), old(self).state(), Seq::empty()),
                r,
                final(self).toks(),
                final(self).state(),
            ),
    {
        let ghost orig = *self;
        let ghost t = self.toks();
        let ghost s0 = self.state();
        let mut acc: Vec<Statement> = Vec::new();
        let ghost mut ad: Seq<Stm> = Seq::empty();
        loop
            invariant
                orig == *old(self),
                frame(orig, *self),
                t == self.toks(),
                t == orig.toks(),
                s0 == orig.state(),
                stms_match(acc@, ad),
                program(t, self.state(), ad) == program(t, s0, Seq::empty()),
            decreases ms(t, self.state()),
        {
            let g = self.tag_here();
            if g == Tag::Eof {
                return Ok(acc);
            }
            if g == Tag::Directive {
                self.advance();
                continue;
            }
            let before = self.pos;
            let ghost sb = self.state();
            match self.parse_statement() {
                Ok(x) => {
                    if !(before < self.pos) {
                        return Err(Stop::Abort);
                    }
                    proof {
                        let xd = stmt(t, sb)->Done_0;
                        lemma_stms_push(acc@, ad, x, xd);
                        ad = ad.push(xd);
                    }
                    acc.push(x);
                },
                Err(e) => return Err(e),
            }
        }
    }
}

} // verus!

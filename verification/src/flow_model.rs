//! The mathematical model of the control-flow parser: the parsed forms as spec values,
//! what each executable value stands for, and what parsing a script gives.
use vstd::prelude::*;
use crate::control_flow::{CompareOp, Condition, Statement};
use crate::text::{
    strings_view,
    alnum, ascii_upper, count_char, find_from, is_ascii_text, is_ws, law_strip_comment, lemma_strip_comment_after, lemma_trim_left_after_ws,
    lemma_trim_left_shape, lemma_trim_right_after, lemma_trim_right_shape, fold_lower, fold_upper, part, ends_with_char, find_seq, lines_of,
    parse_u64_spec, rfind_char, split_char, split_ws, starts_with, strip_comment, trim,
    trim_end_char, trim_left, trim_right,
};

verus! {

// ---------------------------------------------------------------------------
// Mathematical model: the parsed forms
// ---------------------------------------------------------------------------

pub enum Cond {
    Command(Seq<char>),
    Is(Seq<char>, Seq<char>),
    IsNot(Seq<char>, Seq<char>),
    And(Box<Cond>, Box<Cond>),
    Or(Box<Cond>, Box<Cond>),
    Compare(Seq<char>, CompareOp, Seq<char>),
}

pub enum Stmt {
    Command(Seq<char>),
    Let(Seq<char>, Seq<char>),
    If(Cond, Seq<Stmt>, Seq<(Cond, Seq<Stmt>)>, Option<Seq<Stmt>>),
    While(Cond, Seq<Stmt>),
    For(Seq<char>, Seq<Seq<char>>, Seq<Stmt>),
    Loop(Option<u64>, Option<u64>, Seq<Stmt>),
    Break(Option<Cond>),
    Continue,
    Try(Seq<Stmt>, Option<Seq<Stmt>>),
    Function(Seq<char>, Seq<Seq<char>>, Seq<Stmt>),
    Foreach(Seq<char>, Seq<char>, Seq<Stmt>),
    ForLoop(Option<Seq<char>>, Cond, Option<Seq<char>>, Seq<Stmt>),
    Return(Option<Seq<char>>),
    Chain(Seq<Seq<char>>),
    StructDef(Seq<char>, Seq<Seq<char>>),
    EnumDef(Seq<char>, Seq<Seq<char>>),
    Scan(Option<Seq<char>>, Seq<char>, Seq<(Seq<char>, Seq<Stmt>)>),
    Switch(Seq<char>, Seq<(Seq<char>, Seq<Stmt>)>, Option<Seq<Stmt>>),
}

pub open spec fn opt_text(o: Option<String>) -> Option<Seq<char>> {
    match o {
        Some(s) => Some(s@),
        None => None,
    }
}


pub open spec fn cond_matches(c: Condition, d: Cond) -> bool
    decreases d,
{
    match d {
        Cond::Command(s) => c matches Condition::Command(x) && x@ == s,
        Cond::Is(a, b) => c matches Condition::Is(x, y) && x@ == a && y@ == b,
        Cond::IsNot(a, b) => c matches Condition::IsNot(x, y) && x@ == a && y@ == b,
        Cond::And(a, b) => c matches Condition::And(x, y) && cond_matches(*x, *a) && cond_matches(
            *y,
            *b,
        ),
        Cond::Or(a, b) => c matches Condition::Or(x, y) && cond_matches(*x, *a) && cond_matches(
            *y,
            *b,
        ),
        Cond::Compare(a, op, b) => c matches Condition::Compare(x, o, y) && x@ == a && o == op
            && y@ == b,
    }
}

pub open spec fn opt_cond_matches(c: Option<Condition>, d: Option<Cond>) -> bool {
    match d {
        Some(dc) => c matches Some(x) && cond_matches(x, dc),
        None => c is None,
    }
}

pub open spec fn stmt_matches(s: Statement, d: Stmt) -> bool
    decreases d,
{
    match d {
        Stmt::Command(t) => s matches Statement::Command(x) && x@ == t,
        Stmt::Let(n, v) => s matches Statement::Let { name, value } && name@ == n && value@ == v,
        Stmt::If(c, t, e, o) => s matches Statement::If {
            condition,
            then_block,
            elif_blocks,
            else_block,
        } && cond_matches(condition, c) && stmts_match(then_block@, t) && elifs_match(
            elif_blocks@,
            e,
        ) && opt_block_matches(else_block, o),
        Stmt::While(c, b) => s matches Statement::While { condition, body } && cond_matches(
            condition,
            c,
        ) && stmts_match(body@, b),
        Stmt::For(v, items, b) => s matches Statement::For { var, items: its, body } && var@ == v
            && strings_view(its@) == items && stmts_match(body@, b),
        Stmt::Loop(cn, iv, b) => s matches Statement::Loop { count, interval, body } && count
            == cn && interval == iv && stmts_match(body@, b),
        Stmt::Break(c) => s matches Statement::Break { condition } && opt_cond_matches(
            condition,
            c,
        ),
        Stmt::Continue => s is Continue,
        Stmt::Try(t, c) => s matches Statement::Try { try_block, catch_block } && stmts_match(
            try_block@,
            t,
        ) && opt_block_matches(catch_block, c),
        Stmt::Function(n, ps, b) => s matches Statement::FunctionDef { name, params, body }
            && name@ == n && strings_view(params@) == ps && stmts_match(body@, b),
        Stmt::Foreach(v, it, b) => s matches Statement::Foreach { var, iterable, body } && var@
            == v && iterable@ == it && stmts_match(body@, b),
        Stmt::ForLoop(i, c, u, b) => s matches Statement::ForLoop {
            init,
            condition,
            update,
            body,
        } && opt_text(init) == i && cond_matches(condition, c) && opt_text(update) == u
            && stmts_match(body@, b),
        Stmt::Return(v) => s matches Statement::Return { value } && opt_text(value) == v,
        Stmt::Chain(st) => s matches Statement::Chain { steps } && strings_view(steps@) == st,
        Stmt::StructDef(n, f) => s matches Statement::StructDef { name, fields } && name@ == n
            && strings_view(fields@) == f,
        Stmt::EnumDef(n, v) => s matches Statement::EnumDef { name, variants } && name@ == n
            && strings_view(variants@) == v,
        Stmt::Scan(e, t, br) => s matches Statement::Scan { expr, enum_type, branches }
            && opt_text(expr) == e && enum_type@ == t && branches_match(branches@, br),
        Stmt::Switch(e, br, df) => s matches Statement::Switch {
            expr,
            branches,
            default_branch,
        } && expr@ == e && branches_match(branches@, br) && opt_block_matches(default_branch, df),
    }
}

pub open spec fn stmts_match(v: Seq<Statement>, ds: Seq<Stmt>) -> bool
    decreases ds,
{
    v.len() == ds.len() && forall|i: int| 0 <= i < ds.len() ==> stmt_matches(#[trigger] v[i], ds[i])
}

pub open spec fn opt_block_matches(v: Option<Vec<Statement>>, d: Option<Seq<Stmt>>) -> bool
    decreases d,
{
    match d {
        Some(ds) => v matches Some(x) && stmts_match(x@, ds),
        None => v is None,
    }
}

pub open spec fn elifs_match(v: Seq<(Condition, Vec<Statement>)>, ds: Seq<(Cond, Seq<Stmt>)>) -> bool
    decreases ds,
{
    v.len() == ds.len() && forall|i: int|
        0 <= i < ds.len() ==> cond_matches(#[trigger] v[i].0, ds[i].0) && stmts_match(v[i].1@, ds[i].1)
}

pub open spec fn branches_match(
    v: Seq<(String, Vec<Statement>)>,
    ds: Seq<(Seq<char>, Seq<Stmt>)>,
) -> bool
    decreases ds,
{
    v.len() == ds.len() && forall|i: int|
        0 <= i < ds.len() ==> (#[trigger] v[i]).0@ == ds[i].0 && stmts_match(v[i].1@, ds[i].1)
}

pub open spec fn opt_stmt_matches(v: Option<Statement>, d: Option<Stmt>) -> bool {
    match d {
        Some(x) => v matches Some(y) && stmt_matches(y, x),
        None => v is None,
    }
}

// ---------------------------------------------------------------------------
// Mathematical model: conditions
// ---------------------------------------------------------------------------

/// Scanning the parenthesised text `c` from `i` on at depth `depth`: whether the `)` that
/// brings the depth back to zero is the last character.
pub open spec fn parens_close_at_end(c: Seq<char>, i: nat, depth: int) -> bool
    decreases c.len() - i,
{
    if i >= c.len() {
        false
    } else {
        let ch = c[i as int];
        let d = if ch == '(' {
            depth + 1
        } else if ch == ')' {
            depth - 1
        } else {
            depth
        };
        if ch == ')' && d == 0 {
            i + 1 == c.len()
        } else {
            parens_close_at_end(c, i + 1, d)
        }
    }
}

/// `c` without enclosing parentheses that span all of it (repeatedly, trimming inside).
pub open spec fn strip_parens(c: Seq<char>) -> Seq<char>
    decreases c.len(),
{
    if c.len() >= 2 && c[0] == '(' && c.last() == ')' && parens_close_at_end(c, 0, 0) {
        let inner = trim(c.subrange(1, c.len() - 1));
        if inner.len() < c.len() {
            strip_parens(inner)
        } else {
            c
        }
    } else {
        c
    }
}

/// The first position from `i` on, outside quotes and parentheses, where `pat` starts.
pub open spec fn find_top_level(c: Seq<char>, pat: Seq<char>, i: nat, depth: int, quote: Option<char>) -> Option<nat>
    decreases c.len() - i,
{
    if i >= c.len() {
        None
    } else {
        let ch = c[i as int];
        match quote {
            Some(q) => find_top_level(c, pat, i + 1, depth, if ch == q { None } else { Some(q) }),
            None => if ch == '"' || ch == '\'' {
                find_top_level(c, pat, i + 1, depth, Some(ch))
            } else {
                let d = if ch == '(' {
                    depth + 1
                } else if ch == ')' {
                    if depth > 0 {
                        depth - 1
                    } else {
                        depth
                    }
                } else {
                    depth
                };
                if d == 0 && starts_with(c.subrange(i as int, c.len() as int), pat) {
                    Some(i)
                } else {
                    find_top_level(c, pat, i + 1, d, None)
                }
            },
        }
    }
}

pub open spec fn top_level(c: Seq<char>, pat: Seq<char>) -> Option<nat> {
    find_top_level(c, pat, 0, 0, None)
}

pub open spec fn and_pos(c: Seq<char>) -> Option<nat> {
    match top_level(c, " AND "@) {
        Some(p) => Some(p),
        None => top_level(c, "&&"@),
    }
}

pub open spec fn or_pos(c: Seq<char>) -> Option<nat> {
    match top_level(c, " OR "@) {
        Some(p) => Some(p),
        None => top_level(c, "||"@),
    }
}

pub open spec fn op_text(op: CompareOp) -> Seq<char> {
    match op {
        CompareOp::Eq => "=="@,
        CompareOp::Ne => "!="@,
        CompareOp::Le => "<="@,
        CompareOp::Ge => ">="@,
        CompareOp::Lt => "<"@,
        CompareOp::Gt => ">"@,
    }
}

/// The comparison operators in the order in which they are looked for.
pub open spec fn op_order() -> Seq<CompareOp> {
    seq![CompareOp::Eq, CompareOp::Ne, CompareOp::Le, CompareOp::Ge, CompareOp::Lt, CompareOp::Gt]
}

/// The first operator (in `op_order` from `k` on) that occurs in `c`, with its position.
pub open spec fn find_compare(c: Seq<char>, k: nat) -> Option<(CompareOp, nat)>
    decreases 6 - k,
{
    if k >= 6 {
        None
    } else {
        match find_seq(c, op_text(op_order()[k as int])) {
            Some(p) => Some((op_order()[k as int], p)),
            None => find_compare(c, k + 1),
        }
    }
}

/// A condition: `AND`/`&&` binds looser than `OR`/`||` (both split at the first top-level
/// occurrence), then `is not`, `is`, and the comparison operators; otherwise a command.
/// `is not` and `is` are found in the upper case of the text (`fold_upper`), and the text
/// is cut at the same character positions.
pub open spec fn cond_spec(s: Seq<char>) -> Cond
    decreases s.len(),
{
    let c = strip_parens(trim(s));
    if c.len() > s.len() {
        Cond::Command(c)
    } else if and_pos(c) is Some {
        let a = and_pos(c)->Some_0;
        let k: nat = if starts_with(c.subrange(a as int, c.len() as int), "&&"@) {
            2
        } else {
            5
        };
        if a < c.len() && a + k <= c.len() {
            Cond::And(
                Box::new(cond_spec(c.subrange(0, a as int))),
                Box::new(cond_spec(c.subrange((a + k) as int, c.len() as int))),
            )
        } else {
            Cond::Command(c)
        }
    } else if or_pos(c) is Some {
        let a = or_pos(c)->Some_0;
        let k: nat = if starts_with(c.subrange(a as int, c.len() as int), "||"@) {
            2
        } else {
            4
        };
        if a < c.len() && a + k <= c.len() {
            Cond::Or(
                Box::new(cond_spec(c.subrange(0, a as int))),
                Box::new(cond_spec(c.subrange((a + k) as int, c.len() as int))),
            )
        } else {
            Cond::Command(c)
        }
    } else if find_seq(fold_upper(c), " IS NOT "@) is Some {
        let k = find_seq(fold_upper(c), " IS NOT "@)->Some_0;
        Cond::IsNot(trim(part(c, 0, k as int)), trim(part(c, (k + 8) as int, c.len() as int)))
    } else if find_seq(fold_upper(c), " IS "@) is Some {
        let k = find_seq(fold_upper(c), " IS "@)->Some_0;
        Cond::Is(trim(part(c, 0, k as int)), trim(part(c, (k + 4) as int, c.len() as int)))
    } else {
        match find_compare(c, 0) {
            Some((op, p)) => Cond::Compare(
                trim(c.subrange(0, p as int)),
                op,
                trim(c.subrange((p + op_text(op).len()) as int, c.len() as int)),
            ),
            None => Cond::Command(c),
        }
    }
}

} // verus!

verus! {

// ---------------------------------------------------------------------------
// Mathematical model: parsing a script
// ---------------------------------------------------------------------------

/// The outcome of parsing from a state: the parsed value with the lines and the position
/// after it; an error message; or an abort (an input that the parser does not accept).
pub enum Res<T> {
    Done(T, Seq<Seq<char>>, int),
    Fail(Seq<char>),
    Abort,
}

impl<T> Res<T> {
    /// The same failure, for a result of another type (`Abort` for a success).
    pub open spec fn fail<U>(self) -> Res<U> {
        match self {
            Res::Fail(m) => Res::Fail(m),
            _ => Res::Abort,
        }
    }
}

/// The lines that remain from `p` on, counting one past the end.
pub open spec fn rem(l: Seq<Seq<char>>, p: int) -> nat {
    if 0 <= p <= l.len() {
        (l.len() + 1 - p) as nat
    } else {
        0
    }
}

/// The length of the line at `p` (zero past the end).
pub open spec fn cl(l: Seq<Seq<char>>, p: int) -> nat {
    if 0 <= p < l.len() {
        l[p].len()
    } else {
        0
    }
}

/// `(l2, p2)` is a state past position `p` of `l`, with as many lines.
pub open spec fn past(l: Seq<Seq<char>>, p: int, l2: Seq<Seq<char>>, p2: int) -> bool {
    l2.len() == l.len() && p < p2 <= l.len() + 1
}

pub open spec fn push_opt(acc: Seq<Stmt>, o: Option<Stmt>) -> Seq<Stmt> {
    match o {
        Some(s) => acc.push(s),
        None => acc,
    }
}

pub open spec fn skip(t: Seq<char>, n: int) -> Seq<char> {
    t.subrange(n, t.len() as int)
}

pub open spec fn take(t: Seq<char>, n: int) -> Seq<char> {
    t.subrange(0, n)
}

/// `t` without trailing `{` characters, trimmed.
pub open spec fn strip_brace(t: Seq<char>) -> Seq<char> {
    trim(trim_end_char(t, '{'))
}

/// `t` without trailing `:` characters, trimmed.
pub open spec fn strip_colon(t: Seq<char>) -> Seq<char> {
    trim(trim_end_char(t, ':'))
}

/// Whether `u` starts with one of `ends`.
pub open spec fn any_prefix(u: Seq<char>, ends: Seq<Seq<char>>) -> bool {
    exists|i: int| 0 <= i < ends.len() && starts_with(u, #[trigger] ends[i])
}

/// The words of `ends` joined by `", "`.
pub open spec fn join_comma(ends: Seq<Seq<char>>) -> Seq<char>
    decreases ends.len(),
{
    if ends.len() == 0 {
        seq![]
    } else if ends.len() == 1 {
        ends[0]
    } else {
        ends[0] + ", "@ + join_comma(ends.drop_first())
    }
}

/// The pieces of `s` that are not empty.
pub open spec fn drop_empty(s: Seq<Seq<char>>) -> Seq<Seq<char>>
    decreases s.len(),
{
    if s.len() == 0 {
        s
    } else if s.last().len() == 0 {
        drop_empty(s.drop_last())
    } else {
        drop_empty(s.drop_last()).push(s.last())
    }
}

/// How many copies of `c` `t` starts with, from `i` on.
pub open spec fn lead_count(t: Seq<char>, c: char, i: nat) -> nat
    decreases t.len() - i,
{
    if i < t.len() && t[i as int] == c {
        lead_count(t, c, i + 1)
    } else {
        i
    }
}

pub open spec fn sat_sub(a: nat, b: nat) -> nat {
    if a >= b {
        (a - b) as nat
    } else {
        0
    }
}

/// The brace depth after a line: up by its `{`, then down by its `}` (not below zero).
pub open spec fn depth_after(depth: nat, t: Seq<char>) -> nat {
    sat_sub(depth + count_char(t, '{'), count_char(t, '}'))
}

pub open spec fn if_ends() -> Seq<Seq<char>> {
    seq!["ELIF"@, "ELSE"@, "ENDIF"@]
}

pub open spec fn opt_nonempty(t: Seq<char>) -> Option<Seq<char>> {
    if t.len() == 0 {
        None
    } else {
        Some(t)
    }
}

/// A character that may stand in a variable's name.
pub open spec fn name_char(c: char) -> bool {
    alnum(c) || c == '_' || c == '.'
}

/// The end of the run of name characters in `t` from `i` on.
pub open spec fn name_end(t: Seq<char>, i: nat) -> nat
    decreases t.len() - i,
{
    if i < t.len() && name_char(t[i as int]) {
        name_end(t, i + 1)
    } else {
        i
    }
}

/// Collecting the lines of a braced value: while the depth is positive, the line at `p`
/// is appended after a newline and the depth follows its braces. `None` where the script
/// ends first (an input that the parser does not accept). Gives the text and the position
/// after it.
pub open spec fn collect_braces(l: Seq<Seq<char>>, p: int, text: Seq<char>, depth: nat) -> Option<(Seq<char>, int)>
    decreases l.len() - p,
{
    if depth == 0 {
        Some((text, p))
    } else if !(0 <= p < l.len()) {
        None
    } else {
        collect_braces(l, p + 1, text + seq!['\n'] + l[p], depth_after(depth, trim(l[p])))
    }
}

/// The value of a `LET` or an assignment: a right-hand side with a `{` goes on over the
/// lines from `p` until its braces balance.
pub open spec fn value_spec(l: Seq<Seq<char>>, p: int, rhs: Seq<char>) -> Option<(Seq<char>, int)> {
    if count_char(rhs, '{') > 0 {
        collect_braces(l, p, rhs, sat_sub(count_char(rhs, '{'), count_char(rhs, '}')))
    } else {
        Some((rhs, p))
    }
}

/// `LET name = value`.
#[verifier::opaque]
pub open spec fn let_spec(l: Seq<Seq<char>>, p: int) -> Res<Option<Stmt>> {
    if !(0 <= p < l.len() && strip_comment(l[p]).len() >= 3) {
        Res::Abort
    } else {
        let r = trim(skip(strip_comment(l[p]), 3));
        match find_seq(r, "="@) {
            None => Res::Fail("LET syntax: LET name = value"@),
            Some(e) => {
                let name = trim(take(r, e as int));
                if starts_with(name, "$"@) {
                    Res::Fail("LET syntax: variable name must not start with '$'"@)
                } else if name.len() == 0 {
                    Res::Fail("LET syntax: missing variable name"@)
                } else {
                    match value_spec(l, p + 1, trim(skip(r, (e + 1) as int))) {
                        Some((v, q)) => Res::Done(Some(Stmt::Let(name, v)), l, q),
                        None => Res::Abort,
                    }
                }
            },
        }
    }
}

/// `$name = value`; `Ok(None, ..)` where `line` is no assignment.
#[verifier::opaque]
pub open spec fn assign_spec(l: Seq<Seq<char>>, p: int, line: Seq<char>) -> Res<Option<Stmt>> {
    let t = trim(line);
    if !starts_with(t, "$"@) {
        Res::Done(None, l, p)
    } else {
        let n = name_end(t, 1);
        let name = t.subrange(1, n as int);
        let rest = trim_left(if n < t.len() { skip(t, (n + 1) as int) } else { seq![] });
        if name.len() == 0 || !starts_with(rest, "="@) {
            Res::Done(None, l, p)
        } else {
            let rhs = trim(skip(rest, 1));
            if rhs.len() == 0 {
                Res::Fail("Assignment syntax: $var = expression"@)
            } else {
                match value_spec(l, p, rhs) {
                    Some((v, q)) => Res::Done(Some(Stmt::Let(name, v)), l, q + 1),
                    None => Res::Abort,
                }
            }
        }
    }
}

/// The fields of a `STRUCT` (names before `:`) or the variants of an `ENUM` (lines
/// without trailing commas), from `p` on; gives them and the position after the body.
pub open spec fn items_loop(
    l: Seq<Seq<char>>,
    p: int,
    brace: bool,
    depth: nat,
    acc: Seq<Seq<char>>,
    is_enum: bool,
) -> (Seq<Seq<char>>, int)
    decreases l.len() - p,
{
    if !(0 <= p < l.len()) {
        (acc, p)
    } else {
        let t = trim(l[p]);
        if t.len() == 0 {
            items_loop(l, p + 1, brace, depth, acc, is_enum)
        } else if !brace && t == "{"@ {
            items_loop(l, p + 1, true, 1, acc, is_enum)
        } else if brace {
            if count_char(t, '}') > 0 {
                if depth_after(depth, t) == 0 {
                    (acc, p + 1)
                } else {
                    items_loop(l, p + 1, true, depth_after(depth, t), acc, is_enum)
                }
            } else {
                let item = if is_enum {
                    trim(trim_end_char(t, ','))
                } else {
                    match find_seq(t, ":"@) {
                        Some(c) => trim(take(t, c as int)),
                        None => seq![],
                    }
                };
                items_loop(
                    l,
                    p + 1,
                    true,
                    depth + count_char(t, '{'),
                    if item.len() > 0 { acc.push(item) } else { acc },
                    is_enum,
                )
            }
        } else {
            (acc, p)
        }
    }
}

/// `STRUCT name` or `ENUM name` with its body.
#[verifier::opaque]
pub open spec fn items_spec(l: Seq<Seq<char>>, p: int, is_enum: bool) -> Res<Option<Stmt>> {
    let k: int = if is_enum { 4 } else { 6 };
    if !(0 <= p < l.len() && l[p].len() >= k) {
        Res::Abort
    } else {
        let r = trim(skip(l[p], k));
        let brace = ends_with_char(r, '{');
        let name = if brace { strip_brace(r) } else { r };
        let (items, q) = items_loop(l, p + 1, brace, if brace { 1 } else { 0 }, seq![], is_enum);
        Res::Done(Some(if is_enum { Stmt::EnumDef(name, items) } else { Stmt::StructDef(name, items) }), l, q)
    }
}

/// `RETURN [value]`.
#[verifier::opaque]
pub open spec fn return_spec(l: Seq<Seq<char>>, p: int) -> Res<Option<Stmt>> {
    if !(0 <= p < l.len() && l[p].len() >= 6) {
        Res::Abort
    } else {
        Res::Done(Some(Stmt::Return(opt_nonempty(trim(skip(l[p], 6))))), l, p + 1)
    }
}

/// `BREAK [condition]`.
#[verifier::opaque]
pub open spec fn break_spec(l: Seq<Seq<char>>, p: int) -> Res<Option<Stmt>> {
    if !(0 <= p < l.len() && l[p].len() >= 5) {
        Res::Abort
    } else {
        let b = trim(skip(l[p], 5));
        Res::Done(Some(Stmt::Break(if b.len() == 0 { None } else { Some(cond_spec(b)) })), l, p + 1)
    }
}

/// The steps of a braced `CHAIN` block from `p` on, up to a line that starts with `}`.
pub open spec fn chain_block(l: Seq<Seq<char>>, p: int, steps: Seq<Seq<char>>) -> Res<Seq<Seq<char>>>
    decreases l.len() - p,
{
    if !(0 <= p < l.len()) {
        Res::Fail("Expected matching '}' for CHAIN block"@)
    } else {
        let t = trim(l[p]);
        if t == "}"@ {
            Res::Done(steps, l, p + 1)
        } else if starts_with(t, "}"@) {
            let r = trim(skip(t, 1));
            if r.len() > 0 {
                Res::Done(steps, l.update(p, r), p)
            } else {
                Res::Done(steps, l, p + 1)
            }
        } else {
            chain_block(l, p + 1, if t.len() > 0 { steps.push(l[p]) } else { steps })
        }
    }
}

/// The steps of a `CHAIN` block from `p` on, up to an `ENDCHAIN` line.
pub open spec fn chain_lines(l: Seq<Seq<char>>, p: int, steps: Seq<Seq<char>>) -> Res<Seq<Seq<char>>>
    decreases l.len() - p,
{
    if !(0 <= p < l.len()) {
        Res::Fail("Expected ENDCHAIN to terminate CHAIN block"@)
    } else {
        let t = trim(l[p]);
        if fold_upper(t) == "ENDCHAIN"@ {
            Res::Done(steps, l, p + 1)
        } else {
            chain_lines(l, p + 1, if t.len() > 0 { steps.push(l[p]) } else { steps })
        }
    }
}

pub open spec fn chain_stmt(r: Res<Seq<Seq<char>>>) -> Res<Option<Stmt>> {
    match r {
        Res::Done(steps, l2, p2) => Res::Done(Some(Stmt::Chain(steps)), l2, p2),
        _ => r.fail(),
    }
}

/// `CHAIN` with its steps: on the same line in braces, in a braced block, or up to `ENDCHAIN`.
#[verifier::opaque]
pub open spec fn chain_spec(l: Seq<Seq<char>>, p: int) -> Res<Option<Stmt>> {
    if !(0 <= p < l.len() && trim(l[p]).len() >= 5) {
        Res::Abort
    } else {
        let r = trim(skip(trim(l[p]), 5));
        if r.len() == 0 {
            if p + 1 < l.len() && trim(l[p + 1]) == "{"@ {
                chain_stmt(chain_block(l, p + 2, seq![]))
            } else {
                Res::Fail("Expected '{' after CHAIN"@)
            }
        } else if r == "{"@ {
            chain_stmt(chain_block(l, p + 1, seq![]))
        } else if starts_with(r, "{"@) {
            let after = trim(skip(r, 1));
            if ends_with_char(after, '}') {
                let body = trim(take(after, after.len() - 1));
                Res::Done(Some(Stmt::Chain(drop_empty(lines_of(body)))), l, p + 1)
            } else {
                chain_stmt(chain_block(l, p + 1, if after.len() > 0 { seq![after] } else { seq![] }))
            }
        } else {
            chain_stmt(chain_lines(l, p + 1, seq![]))
        }
    }
}

} // verus!

verus! {

// ---------------------------------------------------------------------------
// Mathematical model: statements and blocks
// ---------------------------------------------------------------------------

/// The statement at `p`: `None` for an empty line, a line that is all comment, an `@`
/// line; otherwise
/// dispatched on the keyword that the line (without its comment) starts with.
#[verifier::opaque]
pub open spec fn stmt_spec(l: Seq<Seq<char>>, p: int) -> Res<Option<Stmt>>
    decreases rem(l, p), cl(l, p), 3nat,
{
    if !(0 <= p < l.len()) {
        Res::Abort
    } else if l[p].len() == 0 {
        Res::Done(None, l, p + 1)
    } else {
        let line = strip_comment(l[p]);
        let u = fold_upper(line);
        if trim(line).len() == 0 || starts_with(trim(line), "//"@) || starts_with(u, "#"@) {
            Res::Done(None, l, p + 1)
        } else if starts_with(u, "IF "@) {
            if_spec(l, p)
        } else if starts_with(u, "WHILE "@) {
            while_spec(l, p)
        } else if starts_with(u, "FOREACH "@) {
            foreach_spec(l, p)
        } else if starts_with(u, "FOR "@) {
            for_spec(l, p)
        } else if starts_with(u, "LOOP"@) {
            loop_spec(l, p)
        } else if starts_with(u, "BREAK"@) {
            break_spec(l, p)
        } else if starts_with(u, "CONTINUE"@) {
            Res::Done(Some(Stmt::Continue), l, p + 1)
        } else if starts_with(u, "RETURN"@) {
            return_spec(l, p)
        } else if starts_with(u, "TRY"@) {
            try_spec(l, p)
        } else if starts_with(u, "STRUCT "@) {
            items_spec(l, p, false)
        } else if starts_with(u, "ENUM "@) {
            items_spec(l, p, true)
        } else if starts_with(u, "SCAN"@) {
            scan_spec(l, p)
        } else if starts_with(u, "SWITCH"@) {
            switch_spec(l, p)
        } else if starts_with(u, "CHAIN"@) {
            chain_spec(l, p)
        } else if starts_with(u, "FUNCTION "@) || starts_with(u, "FN "@) {
            function_spec(l, p)
        } else if starts_with(u, "LET "@) {
            let_spec(l, p)
        } else {
            match assign_spec(l, p, line) {
                Res::Done(Some(s), l2, p2) => Res::Done(Some(s), l2, p2),
                Res::Done(None, _, _) => if starts_with(u, "@"@) {
                    Res::Done(None, l, p + 1)
                } else {
                    Res::Done(Some(Stmt::Command(line)), l, p + 1)
                },
                Res::Fail(m) => Res::Fail(m),
                Res::Abort => Res::Abort,
            }
        }
    }
}

/// The statements from `p` to the end of the script, after `acc`.
pub open spec fn parse_all(l: Seq<Seq<char>>, p: int, acc: Seq<Stmt>) -> Res<Seq<Stmt>>
    decreases rem(l, p), cl(l, p), 4nat,
{
    if !(0 <= p < l.len()) {
        Res::Done(acc, l, p)
    } else {
        match stmt_spec(l, p) {
            Res::Done(o, l2, p2) => if past(l, p, l2, p2) {
                parse_all(l2, p2, push_opt(acc, o))
            } else {
                Res::Abort
            },
            Res::Fail(m) => Res::Fail(m),
            Res::Abort => Res::Abort,
        }
    }
}

/// The statements from `p` on, after `acc`, up to a line whose upper case starts with one
/// of `ends` (which is not consumed).
pub open spec fn block_until(l: Seq<Seq<char>>, p: int, ends: Seq<Seq<char>>, acc: Seq<Stmt>) -> Res<Seq<Stmt>>
    decreases rem(l, p), cl(l, p), 4nat,
{
    if !(0 <= p < l.len()) {
        Res::Fail("Expected one of: "@ + join_comma(ends))
    } else if any_prefix(fold_upper(l[p]), ends) {
        Res::Done(acc, l, p)
    } else {
        match stmt_spec(l, p) {
            Res::Done(o, l2, p2) => if past(l, p, l2, p2) {
                block_until(l2, p2, ends, push_opt(acc, o))
            } else {
                Res::Abort
            },
            Res::Fail(m) => Res::Fail(m),
            Res::Abort => Res::Abort,
        }
    }
}

/// The statements from `p` on, after `acc`, at brace depth `depth`: a `}` line closes one
/// level; a line that starts with `}` closes as many levels as it has leading `}` and is
/// replaced by the rest of it, which ends the block if it starts with `catch`, `else` or
/// `elif`.
pub open spec fn block_brace(l: Seq<Seq<char>>, p: int, depth: nat, acc: Seq<Stmt>) -> Res<Seq<Stmt>>
    decreases rem(l, p), cl(l, p), 4nat,
{
    if !(0 <= p < l.len()) {
        Res::Fail("Expected matching }"@)
    } else {
        let t = trim(l[p]);
        if t == "}"@ {
            if depth <= 1 {
                Res::Done(acc, l, p + 1)
            } else {
                block_brace(l, p + 1, (depth - 1) as nat, acc)
            }
        } else if starts_with(t, "}"@) {
            let k = lead_count(t, '}', 0);
            let r = if k <= t.len() { trim(skip(t, k as int)) } else { t };
            let d2 = sat_sub(depth, k);
            let l2 = l.update(p, r);
            if starts_with(fold_lower(r), "catch"@) || starts_with(fold_lower(r), "else"@)
                || starts_with(fold_lower(r), "elif"@) || d2 == 0 {
                Res::Done(acc, l2, p)
            } else if r.len() < l[p].len() {
                block_brace(l2, p, d2, acc)
            } else {
                Res::Abort
            }
        } else {
            match stmt_spec(l, p) {
                Res::Done(o, l2, p2) => if past(l, p, l2, p2) {
                    block_brace(l2, p2, depth, push_opt(acc, o))
                } else {
                    Res::Abort
                },
                Res::Fail(m) => Res::Fail(m),
                Res::Abort => Res::Abort,
            }
        }
    }
}

/// A body from `p` on: braced, or up to a line that starts with `end` (which is consumed).
pub open spec fn body_spec(l: Seq<Seq<char>>, p: int, brace: bool, end: Seq<char>) -> Res<Seq<Stmt>>
    decreases rem(l, p), cl(l, p), 5nat,
{
    if brace {
        block_brace(l, p, 1, seq![])
    } else {
        match block_until(l, p, seq![end], seq![]) {
            Res::Done(b, l2, p2) => Res::Done(b, l2, p2 + 1),
            Res::Fail(m) => Res::Fail(m),
            Res::Abort => Res::Abort,
        }
    }
}

/// `IF condition` with its blocks.
#[verifier::opaque]
pub open spec fn if_spec(l: Seq<Seq<char>>, p: int) -> Res<Option<Stmt>>
    decreases rem(l, p), cl(l, p), 2nat,
{
    if !(0 <= p < l.len() && l[p].len() >= 3) {
        Res::Abort
    } else {
        let c0 = trim(skip(l[p], 3));
        let brace = ends_with_char(c0, '{');
        let cond = cond_spec(strip_colon(if brace { strip_brace(c0) } else { c0 }));
        let blk = if brace {
            block_brace(l, p + 1, 1, seq![])
        } else {
            block_until(l, p + 1, if_ends(), seq![])
        };
        match blk {
            Res::Done(then_b, l2, p2) => if past(l, p, l2, p2) {
                if_wrap(cond, then_b, if_tail(l2, p2, brace, seq![]))
            } else {
                Res::Abort
            },
            Res::Fail(m) => Res::Fail(m),
            Res::Abort => Res::Abort,
        }
    }
}

/// The `IF` statement with condition `c`, block `tb` and the branches that `t` gives.
pub open spec fn if_wrap(c: Cond, tb: Seq<Stmt>, t: Res<(Seq<(Cond, Seq<Stmt>)>, Option<Seq<Stmt>>)>) -> Res<
    Option<Stmt>,
> {
    match t {
        Res::Done((e, d), l3, p3) => Res::Done(Some(Stmt::If(c, tb, e, d)), l3, p3),
        Res::Fail(m) => Res::Fail(m),
        Res::Abort => Res::Abort,
    }
}

/// The `else if`/`ELIF` branches (after `elifs`) and the `else` block of an `IF`, from `p`.
pub open spec fn if_tail(l: Seq<Seq<char>>, p: int, brace: bool, elifs: Seq<(Cond, Seq<Stmt>)>) -> Res<
    (Seq<(Cond, Seq<Stmt>)>, Option<Seq<Stmt>>),
>
    decreases rem(l, p), cl(l, p), 2nat,
{
    if !(0 <= p < l.len()) {
        if brace {
            Res::Done((elifs, None), l, p)
        } else {
            Res::Fail("Expected ENDIF"@)
        }
    } else if brace {
        let t0 = trim(l[p]);
        let t = if starts_with(t0, "}"@) { trim_left(skip(t0, 1)) } else { t0 };
        if starts_with(t, "else if"@) || starts_with(t, "ELSE IF"@) || starts_with(t, "elif"@)
            || starts_with(t, "ELIF"@) {
            let n: int = if starts_with(t, "else if"@) {
                7
            } else if starts_with(t, "ELSE IF"@) {
                8
            } else {
                4
            };
            if t.len() < n {
                Res::Abort
            } else {
                let r0 = trim(skip(t, n));
                let c = cond_spec(if ends_with_char(r0, '{') { strip_brace(r0) } else { r0 });
                match block_brace(l, p + 1, 1, seq![]) {
                    Res::Done(b, l2, p2) => if past(l, p, l2, p2) {
                        if_tail(l2, p2, brace, elifs.push((c, b)))
                    } else {
                        Res::Abort
                    },
                    Res::Fail(m) => Res::Fail(m),
                    Res::Abort => Res::Abort,
                }
            }
        } else if starts_with(t, "else"@) {
            let rest = trim(skip(t, 4));
            let next_open = p + 1 < l.len() && trim(l[p + 1]) == "{"@;
            if rest == "{"@ || (rest.len() == 0 && next_open) {
                let q = if rest.len() == 0 && next_open { p + 2 } else { p + 1 };
                match block_brace(l, q, 1, seq![]) {
                    Res::Done(b, l2, p2) => Res::Done((elifs, Some(b)), l2, p2),
                    Res::Fail(m) => Res::Fail(m),
                    Res::Abort => Res::Abort,
                }
            } else {
                Res::Fail("Expected '{' after else"@)
            }
        } else {
            Res::Done((elifs, None), l, p)
        }
    } else {
        let u = fold_upper(l[p]);
        if starts_with(u, "ELIF "@) {
            let c0 = trim(part(l[p], 5, l[p].len() as int));
            let eb = ends_with_char(c0, '{');
            let c = cond_spec(strip_colon(if eb { strip_brace(c0) } else { c0 }));
            let blk = if eb {
                block_brace(l, p + 1, 1, seq![])
            } else {
                block_until(l, p + 1, if_ends(), seq![])
            };
            match blk {
                Res::Done(b, l2, p2) => if past(l, p, l2, p2) {
                    if_tail(l2, p2, brace, elifs.push((c, b)))
                } else {
                    Res::Abort
                },
                Res::Fail(m) => Res::Fail(m),
                Res::Abort => Res::Abort,
            }
        } else if starts_with(u, "ELSE"@) {
            let else_line = if p + 1 < l.len() { l[p + 1] } else { l[p] };
            let eb = ends_with_char(trim(else_line), '{');
            if eb {
                match block_brace(l, p + 2, 1, seq![]) {
                    Res::Done(b, l2, p2) => Res::Done((elifs, Some(b)), l2, p2),
                    Res::Fail(m) => Res::Fail(m),
                    Res::Abort => Res::Abort,
                }
            } else {
                match block_until(l, p + 1, seq!["ENDIF"@], seq![]) {
                    Res::Done(b, l2, p2) => Res::Done((elifs, Some(b)), l2, p2 + 1),
                    Res::Fail(m) => Res::Fail(m),
                    Res::Abort => Res::Abort,
                }
            }
        } else if starts_with(u, "ENDIF"@) {
            Res::Done((elifs, None), l, p + 1)
        } else {
            Res::Fail("Unexpected token in IF statement"@)
        }
    }
}

pub open spec fn wrap_body(r: Res<Seq<Stmt>>, f: spec_fn(Seq<Stmt>) -> Stmt) -> Res<Option<Stmt>> {
    match r {
        Res::Done(b, l2, p2) => Res::Done(Some(f(b)), l2, p2),
        Res::Fail(m) => Res::Fail(m),
        Res::Abort => Res::Abort,
    }
}

/// `WHILE condition` with its body.
#[verifier::opaque]
pub open spec fn while_spec(l: Seq<Seq<char>>, p: int) -> Res<Option<Stmt>>
    decreases rem(l, p), cl(l, p), 2nat,
{
    if !(0 <= p < l.len() && l[p].len() >= 6) {
        Res::Abort
    } else {
        let c0 = trim(skip(l[p], 6));
        let brace = ends_with_char(c0, '{');
        let cond = cond_spec(strip_colon(if brace { strip_brace(c0) } else { c0 }));
        wrap_body(body_spec(l, p + 1, brace, "ENDWHILE"@), |b: Seq<Stmt>| Stmt::While(cond, b))
    }
}

/// `FOREACH var IN iterable` with its body.
#[verifier::opaque]
pub open spec fn foreach_spec(l: Seq<Seq<char>>, p: int) -> Res<Option<Stmt>>
    decreases rem(l, p), cl(l, p), 2nat,
{
    if !(0 <= p < l.len() && l[p].len() >= 7) {
        Res::Abort
    } else {
        let f = strip_colon(trim(skip(l[p], 7)));
        match find_seq(fold_upper(f), " IN "@) {
            None => Res::Fail("FOREACH syntax: FOREACH var IN iterable"@),
            Some(k) => {
                let var = trim(part(f, 0, k as int));
                let it = strip_brace(trim(part(f, (k + 4) as int, f.len() as int)));
                let brace = ends_with_char(trim_right(l[p]), '{');
                wrap_body(
                    body_spec(l, p + 1, brace, "ENDFOREACH"@),
                    |b: Seq<Stmt>| Stmt::Foreach(var, it, b),
                )
            },
        }
    }
}

/// `FOR (init, condition, update)` or `FOR var IN items`, with its body.
#[verifier::opaque]
pub open spec fn for_spec(l: Seq<Seq<char>>, p: int) -> Res<Option<Stmt>>
    decreases rem(l, p), cl(l, p), 2nat,
{
    if !(0 <= p < l.len() && l[p].len() >= 4) {
        Res::Abort
    } else {
        let f = strip_colon(trim(skip(l[p], 4)));
        if starts_with(f, "("@) {
            match rfind_char(f, ')') {
                None => Res::Fail("Invalid FOR syntax"@),
                Some(c) => {
                    let parts = split_char(trim(f.subrange(1, c as int)), ',');
                    if parts.len() != 3 {
                        Res::Fail("FOR syntax: for(init, condition, update)"@)
                    } else {
                        let init = opt_nonempty(trim(parts[0]));
                        let cond = cond_spec(trim(parts[1]));
                        let upd = opt_nonempty(trim(parts[2]));
                        wrap_body(
                            body_spec(l, p + 1, ends_with_char(f, '{'), "ENDFOR"@),
                            |b: Seq<Stmt>| Stmt::ForLoop(init, cond, upd, b),
                        )
                    }
                },
            }
        } else {
            let g = strip_brace(f);
            match find_seq(fold_upper(g), " IN "@) {
                None => Res::Fail("FOR syntax: FOR var IN item1 item2 ..."@),
                Some(k) => {
                    let var = trim(part(g, 0, k as int));
                    let items = split_ws(trim(part(g, (k + 4) as int, g.len() as int)));
                    wrap_body(
                        body_spec(l, p + 1, ends_with_char(trim_right(l[p]), '{'), "ENDFOR"@),
                        |b: Seq<Stmt>| Stmt::For(var, items, b),
                    )
                },
            }
        }
    }
}

/// `LOOP [count N | interval N]` with its body.
#[verifier::opaque]
pub open spec fn loop_spec(l: Seq<Seq<char>>, p: int) -> Res<Option<Stmt>>
    decreases rem(l, p), cl(l, p), 2nat,
{
    if !(0 <= p < l.len()) {
        Res::Abort
    } else {
        let t = if l[p].len() >= 5 { trim(skip(l[p], 5)) } else { seq![] };
        let brace = ends_with_char(t, '{');
        let parts = split_ws(if brace { strip_brace(t) } else { t });
        if parts.len() >= 2 && parts[0] != "count"@ && parts[0] != "interval"@ {
            Res::Fail("Invalid loop specifier: "@ + parts[0])
        } else {
            let count = if parts.len() >= 2 && parts[0] == "count"@ {
                parse_u64_spec(parts[1])
            } else {
                None
            };
            let interval = if parts.len() >= 2 && parts[0] == "interval"@ {
                parse_u64_spec(parts[1])
            } else {
                None
            };
            wrap_body(body_spec(l, p + 1, brace, "ENDLOOP"@), |b: Seq<Stmt>| Stmt::Loop(count, interval, b))
        }
    }
}

/// `TRY` with its block, an optional `CATCH` block, and `ENDTRY`.
#[verifier::opaque]
pub open spec fn try_spec(l: Seq<Seq<char>>, p: int) -> Res<Option<Stmt>>
    decreases rem(l, p), cl(l, p), 2nat,
{
    if !(0 <= p < l.len()) {
        Res::Abort
    } else {
        let blk = if ends_with_char(trim(l[p]), '{') {
            block_brace(l, p + 1, 1, seq![])
        } else {
            block_until(l, p + 1, seq!["CATCH"@, "ENDTRY"@], seq![])
        };
        match blk {
            Res::Done(tb, l2, p2) => if past(l, p, l2, p2) {
                let cres: Res<Option<Seq<Stmt>>> = if 0 <= p2 < l2.len() && starts_with(
                    fold_upper(trim(l2[p2])),
                    "CATCH"@,
                ) {
                    let b = if ends_with_char(trim(l2[p2]), '{') {
                        block_brace(l2, p2 + 1, 1, seq![])
                    } else {
                        block_until(l2, p2 + 1, seq!["ENDTRY"@], seq![])
                    };
                    match b {
                        Res::Done(cb, l3, p3) => Res::Done(Some(cb), l3, p3),
                        Res::Fail(m) => Res::Fail(m),
                        Res::Abort => Res::Abort,
                    }
                } else {
                    Res::Done(None, l2, p2)
                };
                match cres {
                    Res::Done(cb, l3, p3) => if 0 <= p3 < l3.len() && starts_with(
                        fold_upper(trim(l3[p3])),
                        "ENDTRY"@,
                    ) {
                        Res::Done(Some(Stmt::Try(tb, cb)), l3, p3 + 1)
                    } else if cb is None {
                        Res::Fail("Expected ENDTRY"@)
                    } else {
                        Res::Done(Some(Stmt::Try(tb, cb)), l3, p3)
                    },
                    Res::Fail(m) => Res::Fail(m),
                    Res::Abort => Res::Abort,
                }
            } else {
                Res::Abort
            },
            Res::Fail(m) => Res::Fail(m),
            Res::Abort => Res::Abort,
        }
    }
}

/// The name and parameters of a function header (`name(a, b)` or `name a b`).
#[verifier::opaque]
pub open spec fn fn_header(r: Seq<char>) -> Res<(Seq<char>, Seq<Seq<char>>)> {
    match find_seq(r, "("@) {
        Some(o) => match rfind_char(r, ')') {
            None => Res::Fail("Invalid function parameter list"@),
            Some(c) => if c < o + 1 {
                Res::Abort
            } else {
                let pt = trim(r.subrange((o + 1) as int, c as int));
                let params = if pt.len() == 0 {
                    seq![]
                } else {
                    drop_empty(split_char(pt, ',').map_values(|x: Seq<char>| trim(x)))
                };
                Res::Done((trim(take(r, o as int)), params), seq![], 0)
            },
        },
        None => {
            let parts = split_ws(r);
            if parts.len() == 0 {
                Res::Fail("FUNCTION syntax: FUNCTION name [arg1 arg2 ...]"@)
            } else {
                Res::Done((parts[0], parts.drop_first()), seq![], 0)
            }
        },
    }
}

/// `FUNCTION name ...` or `FN name ...` with its body.
#[verifier::opaque]
pub open spec fn function_spec(l: Seq<Seq<char>>, p: int) -> Res<Option<Stmt>>
    decreases rem(l, p), cl(l, p), 2nat,
{
    if !(0 <= p < l.len()) {
        Res::Abort
    } else {
        let t = trim(l[p]);
        let u = fold_upper(t);
        if !(starts_with(u, "FUNCTION "@) || starts_with(u, "FN "@)) {
            Res::Fail("FUNCTION syntax: FUNCTION name [arg1 arg2 ...] or FUNCTION name(params) {"@)
        } else {
            let r0 = trim(part(t, if starts_with(u, "FUNCTION "@) { 8 } else { 2 }, t.len() as int));
            let r1 = trim_right(strip_comment(r0));
            let brace = ends_with_char(r1, '{');
            let r = if brace { trim_right(take(r1, r1.len() - 1)) } else { r1 };
            match fn_header(r) {
                Res::Done((name, params), _, _) => if brace {
                    wrap_body(block_brace(l, p + 1, 1, seq![]), |b: Seq<Stmt>| Stmt::Function(name, params, b))
                } else {
                    match block_until(l, p + 1, seq!["ENDFUNCTION"@, "ENDFN"@], seq![]) {
                        Res::Done(b, l2, p2) => if 0 <= p2 < l2.len() && (starts_with(
                            fold_upper(l2[p2]),
                            "ENDFUNCTION"@,
                        ) || starts_with(fold_upper(l2[p2]), "ENDFN"@)) {
                            Res::Done(Some(Stmt::Function(name, params, b)), l2, p2 + 1)
                        } else {
                            Res::Fail("Expected ENDFUNCTION"@)
                        },
                        Res::Fail(m) => Res::Fail(m),
                        Res::Abort => Res::Abort,
                    }
                },
                Res::Fail(m) => Res::Fail(m),
                Res::Abort => Res::Abort,
            }
        }
    }
}

/// The branch body after a label: the first statement that parsing `body` as a script
/// gives (none for an empty body).
#[verifier::opaque]
pub open spec fn branch_body(l: Seq<Seq<char>>, p: int, body: Seq<char>) -> Res<Seq<Stmt>>
    decreases rem(l, p), cl(l, p), 5nat,
{
    if body.len() == 0 {
        Res::Done(seq![], l, p)
    } else {
        let sl = lines_of(body);
        if 0 <= p < l.len() && sl.len() <= 1 && (sl.len() == 0 || sl[0].len() < l[p].len()) {
            match parse_all(sl, 0, seq![]) {
                Res::Done(ss, _, _) => Res::Done(if ss.len() > 0 { seq![ss[0]] } else { seq![] }, l, p),
                Res::Fail(m) => Res::Fail(m),
                Res::Abort => Res::Abort,
            }
        } else {
            Res::Abort
        }
    }
}

/// The labelled branches of a `SCAN` or `SWITCH` body from `p` on (after `brs`, with the
/// `default` branch of a `SWITCH` so far), up to the line that closes it.
pub open spec fn branches_loop(
    l: Seq<Seq<char>>,
    p: int,
    in_body: bool,
    depth: nat,
    brs: Seq<(Seq<char>, Seq<Stmt>)>,
    dflt: Option<Seq<Stmt>>,
    sw: bool,
) -> Res<(Seq<(Seq<char>, Seq<Stmt>)>, Option<Seq<Stmt>>)>
    decreases rem(l, p), cl(l, p), 6nat,
{
    if !(0 <= p < l.len()) {
        Res::Done((brs, dflt), l, p)
    } else {
        let t = trim(l[p]);
        if t.len() == 0 {
            branches_loop(l, p + 1, in_body, depth, brs, dflt, sw)
        } else if !in_body {
            if t == "{"@ {
                branches_loop(l, p + 1, true, 1, brs, dflt, sw)
            } else if sw {
                Res::Fail("Expected '{' after SWITCH header"@)
            } else {
                Res::Fail("Expected '{' after SCAN header"@)
            }
        } else if count_char(t, '}') > 0 {
            if depth_after(depth, t) == 0 {
                Res::Done((brs, dflt), l, p + 1)
            } else {
                branches_loop(l, p + 1, true, depth_after(depth, t), brs, dflt, sw)
            }
        } else {
            let d1 = depth + count_char(t, '{');
            match find_seq(t, ":"@) {
                Some(c) => {
                    let label = trim(take(t, c as int));
                    match branch_body(l, p, trim(skip(t, (c + 1) as int))) {
                        Res::Done(bs, _, _) => if sw && fold_lower(label) == "default"@ {
                            branches_loop(l, p + 1, true, d1, brs, Some(bs), sw)
                        } else {
                            branches_loop(l, p + 1, true, d1, brs.push((label, bs)), dflt, sw)
                        },
                        Res::Fail(m) => Res::Fail(m),
                        Res::Abort => Res::Abort,
                    }
                },
                None => branches_loop(l, p + 1, true, d1, brs, dflt, sw),
            }
        }
    }
}

/// `SCAN [expr] OF EnumType` with its branches.
#[verifier::opaque]
pub open spec fn scan_spec(l: Seq<Seq<char>>, p: int) -> Res<Option<Stmt>>
    decreases rem(l, p), cl(l, p), 2nat,
{
    if !(0 <= p < l.len() && trim(l[p]).len() >= 4) {
        Res::Abort
    } else {
        let r = trim(skip(trim(l[p]), 4));
        let lw = fold_lower(r);
        let head: Option<(Option<Seq<char>>, Seq<char>)> = if starts_with(lw, "of "@) {
            Some((None, strip_brace(trim(part(r, 3, r.len() as int)))))
        } else {
            match find_seq(lw, " of "@) {
                Some(k) => Some(
                    (Some(trim(part(r, 0, k as int))), strip_brace(trim(part(r, (k + 4) as int, r.len() as int)))),
                ),
                None => None,
            }
        };
        match head {
            None => Res::Fail("SCAN syntax: SCAN [expr] OF EnumType {"@),
            Some((expr, ety)) => match branches_loop(l, p + 1, ends_with_char(r, '{'), 0, seq![], None, false) {
                Res::Done((brs, _), l2, p2) => Res::Done(Some(Stmt::Scan(expr, ety, brs)), l2, p2),
                Res::Fail(m) => Res::Fail(m),
                Res::Abort => Res::Abort,
            },
        }
    }
}

/// `SWITCH ON expr` with its branches and an optional `default` branch.
#[verifier::opaque]
pub open spec fn switch_spec(l: Seq<Seq<char>>, p: int) -> Res<Option<Stmt>>
    decreases rem(l, p), cl(l, p), 2nat,
{
    if !(0 <= p < l.len()) {
        Res::Abort
    } else {
        let t = trim(l[p]);
        if !starts_with(fold_lower(t), "switch on "@) {
            Res::Fail("SWITCH syntax: SWITCH ON expr {"@)
        } else {
            let expr = strip_brace(trim(part(t, 9, t.len() as int)));
            match branches_loop(l, p + 1, ends_with_char(t, '{'), 0, seq![], None, true) {
                Res::Done((brs, df), l2, p2) => Res::Done(Some(Stmt::Switch(expr, brs, df)), l2, p2),
                Res::Fail(m) => Res::Fail(m),
                Res::Abort => Res::Abort,
            }
        }
    }
}

} // verus!

verus! {

/// One step of `parse_all`.
pub proof fn lemma_parse_all_step(l: Seq<Seq<char>>, p: int, acc: Seq<Stmt>)
    requires
        0 <= p < l.len(),
    ensures
        parse_all(l, p, acc) == match stmt_spec(l, p) {
            Res::Done(o, l2, p2) => if past(l, p, l2, p2) {
                parse_all(l2, p2, push_opt(acc, o))
            } else {
                Res::Abort
            },
            Res::Fail(m) => Res::Fail(m),
            Res::Abort => Res::Abort,
        },
{
    reveal_with_fuel(parse_all, 2);
    reveal(stmt_spec);
}

/// One step of `block_until` on a line that does not end the block.
pub proof fn lemma_block_until_step(l: Seq<Seq<char>>, p: int, ends: Seq<Seq<char>>, acc: Seq<Stmt>)
    requires
        0 <= p < l.len(),
        !any_prefix(fold_upper(l[p]), ends),
    ensures
        block_until(l, p, ends, acc) == match stmt_spec(l, p) {
            Res::Done(o, l2, p2) => if past(l, p, l2, p2) {
                block_until(l2, p2, ends, push_opt(acc, o))
            } else {
                Res::Abort
            },
            Res::Fail(m) => Res::Fail(m),
            Res::Abort => Res::Abort,
        },
{
    reveal_with_fuel(block_until, 2);
    reveal(stmt_spec);
}

/// One step of `block_brace` on a line that does not start with `}`.
pub proof fn lemma_block_brace_step(l: Seq<Seq<char>>, p: int, depth: nat, acc: Seq<Stmt>)
    requires
        0 <= p < l.len(),
        !starts_with(trim(l[p]), "}"@),
    ensures
        block_brace(l, p, depth, acc) == match stmt_spec(l, p) {
            Res::Done(o, l2, p2) => if past(l, p, l2, p2) {
                block_brace(l2, p2, depth, push_opt(acc, o))
            } else {
                Res::Abort
            },
            Res::Fail(m) => Res::Fail(m),
            Res::Abort => Res::Abort,
        },
{
    reveal_with_fuel(block_brace, 2);
    reveal(stmt_spec);
    reveal_strlit("}");
    if trim(l[p]) == "}"@ {
        assert(trim(l[p]).subrange(0, 1) =~= "}"@);
        assert(starts_with(trim(l[p]), "}"@));
    }
}

} // verus!

verus! {

/// One step of `branches_loop` on a labelled line of the body.
pub proof fn lemma_branches_step(
    l: Seq<Seq<char>>,
    p: int,
    depth: nat,
    brs: Seq<(Seq<char>, Seq<Stmt>)>,
    dflt: Option<Seq<Stmt>>,
    sw: bool,
    c: nat,
)
    requires
        0 <= p < l.len(),
        trim(l[p]).len() > 0,
        count_char(trim(l[p]), '}') == 0,
        find_seq(trim(l[p]), ":"@) == Some(c),
    ensures
        branches_loop(l, p, true, depth, brs, dflt, sw) == match branch_body(
            l,
            p,
            trim(skip(trim(l[p]), (c + 1) as int)),
        ) {
            Res::Done(bs, _, _) => if sw && fold_lower(trim(take(trim(l[p]), c as int))) == "default"@ {
                branches_loop(l, p + 1, true, depth + count_char(trim(l[p]), '{'), brs, Some(bs), sw)
            } else {
                branches_loop(
                    l,
                    p + 1,
                    true,
                    depth + count_char(trim(l[p]), '{'),
                    brs.push((trim(take(trim(l[p]), c as int)), bs)),
                    dflt,
                    sw,
                )
            },
            Res::Fail(m) => Res::Fail(m),
            Res::Abort => Res::Abort,
        },
{
    reveal_with_fuel(branches_loop, 2);
    reveal(branch_body);
}

} // verus!

verus! {

// ---------------------------------------------------------------------------
// Laws
// ---------------------------------------------------------------------------

/// A script whose lines from `p` on are all empty parses, from `p` on, to no more
/// statements, and reads to its end.
pub proof fn law_blank_lines_parse_to_nothing(l: Seq<Seq<char>>, p: int, acc: Seq<Stmt>)
    requires
        0 <= p <= l.len(),
        forall|i: int| p <= i < l.len() ==> (#[trigger] l[i]).len() == 0,
    ensures
        parse_all(l, p, acc) == Res::Done(acc, l, l.len() as int),
    decreases l.len() - p,
{
    reveal_with_fuel(parse_all, 2);
    reveal(stmt_spec);
    if p < l.len() {
        lemma_parse_all_step(l, p, acc);
        law_blank_lines_parse_to_nothing(l, p + 1, acc);
    }
}

/// A line that holds only a comment (it starts with `#` or `//`, `#!` included) gives no
/// statement: parsing goes on at the next line, and the script parses as if the line
/// were not there.
pub proof fn law_comment_line_gives_no_statement(l: Seq<Seq<char>>, p: int, acc: Seq<Stmt>)
    requires
        0 <= p < l.len(),
        l[p].len() > 0,
        l[p][0] == '#' || (l[p].len() > 1 && l[p][0] == '/' && l[p][1] == '/'),
    ensures
        stmt_spec(l, p) == Res::Done(None::<Stmt>, l, p + 1),
        parse_all(l, p, acc) == parse_all(l, p + 1, acc),
{
    reveal(stmt_spec);
    assert(strip_comment(l[p]) =~= seq![]);
    assert(trim_left(seq![]) =~= seq![]);
    assert(trim(seq![]) =~= seq![]);
    lemma_parse_all_step(l, p, acc);
}

} // verus!

verus! {

// ---------------------------------------------------------------------------
// Progress: every statement reads at least its first line
// ---------------------------------------------------------------------------

/// A successful `r` leaves the parser past position `p` of `l`, with as many lines.
pub open spec fn moves_past<T>(r: Res<T>, l: Seq<Seq<char>>, p: int) -> bool {
    r matches Res::Done(_, l2, p2) ==> past(l, p, l2, p2)
}

/// A successful `r` leaves the parser at a position from `p` to `hi`, with as many lines.
pub open spec fn within<T>(r: Res<T>, l: Seq<Seq<char>>, p: int, hi: int) -> bool {
    r matches Res::Done(_, l2, p2) ==> l2.len() == l.len() && p <= p2 <= hi
}

proof fn lemma_collect_within(l: Seq<Seq<char>>, p: int, text: Seq<char>, depth: nat)
    requires
        0 <= p,
    ensures
        collect_braces(l, p, text, depth) matches Some((_, q)) ==> p <= q && (p <= l.len() ==> q
            <= l.len()),
    decreases l.len() - p,
{
    if depth > 0 && 0 <= p < l.len() {
        lemma_collect_within(l, p + 1, text + seq!['\n'] + l[p], depth_after(depth, trim(l[p])));
    }
}

proof fn lemma_items_within(
    l: Seq<Seq<char>>,
    p: int,
    brace: bool,
    depth: nat,
    acc: Seq<Seq<char>>,
    is_enum: bool,
)
    requires
        0 <= p <= l.len(),
    ensures
        p <= items_loop(l, p, brace, depth, acc, is_enum).1 <= l.len(),
    decreases l.len() - p,
{
    if p < l.len() {
        let t = trim(l[p]);
        let item = if is_enum {
            trim(trim_end_char(t, ','))
        } else {
            match find_seq(t, ":"@) {
                Some(c) => trim(take(t, c as int)),
                None => seq![],
            }
        };
        lemma_items_within(l, p + 1, brace, depth, acc, is_enum);
        lemma_items_within(l, p + 1, true, 1, acc, is_enum);
        lemma_items_within(l, p + 1, true, depth_after(depth, t), acc, is_enum);
        lemma_items_within(
            l,
            p + 1,
            true,
            depth + count_char(t, '{'),
            if item.len() > 0 { acc.push(item) } else { acc },
            is_enum,
        );
    }
}

proof fn lemma_chain_block_within(l: Seq<Seq<char>>, p: int, steps: Seq<Seq<char>>)
    requires
        0 <= p,
    ensures
        within(chain_block(l, p, steps), l, p, l.len() as int),
    decreases l.len() - p,
{
    if 0 <= p < l.len() {
        let t = trim(l[p]);
        lemma_chain_block_within(l, p + 1, if t.len() > 0 { steps.push(l[p]) } else { steps });
    }
}

proof fn lemma_chain_lines_within(l: Seq<Seq<char>>, p: int, steps: Seq<Seq<char>>)
    requires
        0 <= p,
    ensures
        within(chain_lines(l, p, steps), l, p, l.len() as int),
    decreases l.len() - p,
{
    if 0 <= p < l.len() {
        let t = trim(l[p]);
        lemma_chain_lines_within(l, p + 1, if t.len() > 0 { steps.push(l[p]) } else { steps });
    }
}

proof fn lemma_simple_statements_move(l: Seq<Seq<char>>, p: int)
    requires
        0 <= p < l.len(),
    ensures
        moves_past(let_spec(l, p), l, p),
        moves_past(items_spec(l, p, false), l, p),
        moves_past(items_spec(l, p, true), l, p),
        moves_past(return_spec(l, p), l, p),
        moves_past(break_spec(l, p), l, p),
        moves_past(chain_spec(l, p), l, p),
        forall|line: Seq<char>|
            #![trigger assign_spec(l, p, line)]
            match assign_spec(l, p, line) {
                Res::Done(Some(_), l2, p2) => past(l, p, l2, p2),
                Res::Done(None, l2, p2) => l2 == l && p2 == p,
                _ => true,
            },
{
    reveal(let_spec);
    reveal(items_spec);
    reveal(return_spec);
    reveal(break_spec);
    reveal(chain_spec);
    reveal(assign_spec);
    if strip_comment(l[p]).len() >= 3 {
        let r = trim(skip(strip_comment(l[p]), 3));
        match find_seq(r, "="@) {
            Some(e) => {
                let rhs = trim(skip(r, (e + 1) as int));
                lemma_collect_within(
                    l,
                    p + 1,
                    rhs,
                    sat_sub(count_char(rhs, '{'), count_char(rhs, '}')),
                );
            },
            None => {},
        }
    }
    assert forall|line: Seq<char>|
        #![trigger assign_spec(l, p, line)]
        match assign_spec(l, p, line) {
            Res::Done(Some(_), l2, p2) => past(l, p, l2, p2),
            Res::Done(None, l2, p2) => l2 == l && p2 == p,
            _ => true,
        } by {
        let t = trim(line);
        let n = name_end(t, 1);
        let rest = trim_left(if n < t.len() { skip(t, (n + 1) as int) } else { seq![] });
        let rhs = trim(skip(rest, 1));
        lemma_collect_within(l, p, rhs, sat_sub(count_char(rhs, '{'), count_char(rhs, '}')));
    }
    let k4: int = 4;
    let k6: int = 6;
    if l[p].len() >= 4 {
        let r = trim(skip(l[p], k4));
        let brace = ends_with_char(r, '{');
        lemma_items_within(l, p + 1, brace, if brace { 1 } else { 0 }, seq![], true);
    }
    if l[p].len() >= 6 {
        let r = trim(skip(l[p], k6));
        let brace = ends_with_char(r, '{');
        lemma_items_within(l, p + 1, brace, if brace { 1 } else { 0 }, seq![], false);
    }
    lemma_chain_block_within(l, p + 2, seq![]);
    lemma_chain_block_within(l, p + 1, seq![]);
    if trim(l[p]).len() >= 5 {
        let r = trim(skip(trim(l[p]), 5));
        let after = trim(skip(r, 1));
        lemma_chain_block_within(l, p + 1, if after.len() > 0 { seq![after] } else { seq![] });
    }
    lemma_chain_lines_within(l, p + 1, seq![]);
}

} // verus!

verus! {

/// Every statement that parses reads at least its first line and no more than one line
/// past the end of the script, and leaves as many lines as there were.
#[verifier::spinoff_prover]
pub proof fn law_statements_consume_their_first_line(l: Seq<Seq<char>>, p: int)
    requires
        0 <= p < l.len(),
    ensures
        moves_past(stmt_spec(l, p), l, p),
    decreases rem(l, p), cl(l, p), 3nat,
{
    reveal(stmt_spec);
    lemma_simple_statements_move(l, p);
    lemma_if_moves(l, p);
    lemma_while_moves(l, p);
    lemma_foreach_moves(l, p);
    lemma_for_moves(l, p);
    lemma_loop_moves(l, p);
    lemma_try_moves(l, p);
    lemma_function_moves(l, p);
    lemma_scan_moves(l, p);
    lemma_switch_moves(l, p);
    let line = strip_comment(l[p]);
    assert(match assign_spec(l, p, line) {
        Res::Done(Some(_), l2, p2) => past(l, p, l2, p2),
        Res::Done(None, l2, p2) => l2 == l && p2 == p,
        _ => true,
    });
    let u = fold_upper(line);
    if l[p].len() > 0 && !(trim(line).len() == 0 || starts_with(trim(line), "//"@) || starts_with(
        u,
        "#"@,
    )) && !starts_with(u, "IF "@)
        && !starts_with(u, "WHILE "@) && !starts_with(u, "FOREACH "@) && !starts_with(u, "FOR "@)
        && !starts_with(u, "LOOP"@) && !starts_with(u, "BREAK"@) && !starts_with(u, "CONTINUE"@)
        && !starts_with(u, "RETURN"@) && !starts_with(u, "TRY"@) && !starts_with(u, "STRUCT "@)
        && !starts_with(u, "ENUM "@) && !starts_with(u, "SCAN"@) && !starts_with(u, "SWITCH"@)
        && !starts_with(u, "CHAIN"@) && !(starts_with(u, "FUNCTION "@) || starts_with(u, "FN "@))
        && !starts_with(u, "LET "@) {
        match assign_spec(l, p, line) {
            Res::Done(Some(s), l2, p2) => {
                assert(stmt_spec(l, p) == Res::Done(Some(s), l2, p2));
            },
            Res::Done(None, _, _) => {
                assert(stmt_spec(l, p) matches Res::Done(_, l2, p2) && l2 == l && p2 == p + 1);
            },
            _ => {},
        }
    }
}

proof fn lemma_block_until_within(l: Seq<Seq<char>>, p: int, ends: Seq<Seq<char>>, acc: Seq<Stmt>)
    requires
        0 <= p,
    ensures
        within(block_until(l, p, ends, acc), l, p, l.len() - 1),
    decreases rem(l, p), cl(l, p), 4nat,
{
    reveal_with_fuel(block_until, 2);
    reveal(stmt_spec);
    if 0 <= p < l.len() && !any_prefix(fold_upper(l[p]), ends) {
        lemma_block_until_step(l, p, ends, acc);
        law_statements_consume_their_first_line(l, p);
        match stmt_spec(l, p) {
            Res::Done(o, l2, p2) => if past(l, p, l2, p2) {
                lemma_block_until_within(l2, p2, ends, push_opt(acc, o));
            },
            _ => {},
        }
    }
}

proof fn lemma_block_brace_within(l: Seq<Seq<char>>, p: int, depth: nat, acc: Seq<Stmt>)
    requires
        0 <= p,
    ensures
        within(block_brace(l, p, depth, acc), l, p, l.len() as int),
    decreases rem(l, p), cl(l, p), 4nat,
{
    reveal_with_fuel(block_brace, 2);
    reveal(stmt_spec);
    if 0 <= p < l.len() {
        let t = trim(l[p]);
        if t == "}"@ {
            if depth > 1 {
                lemma_block_brace_within(l, p + 1, (depth - 1) as nat, acc);
            }
        } else if starts_with(t, "}"@) {
            let k = lead_count(t, '}', 0);
            let r = if k <= t.len() { trim(skip(t, k as int)) } else { t };
            let d2 = sat_sub(depth, k);
            let l2 = l.update(p, r);
            if r.len() < l[p].len() {
                assert(cl(l2, p) < cl(l, p));
                lemma_block_brace_within(l2, p, d2, acc);
            }
        } else {
            lemma_block_brace_step(l, p, depth, acc);
            law_statements_consume_their_first_line(l, p);
            match stmt_spec(l, p) {
                Res::Done(o, l2, p2) => if past(l, p, l2, p2) {
                    lemma_block_brace_within(l2, p2, depth, push_opt(acc, o));
                },
                _ => {},
            }
        }
    }
}

proof fn lemma_body_within(l: Seq<Seq<char>>, p: int, brace: bool, end: Seq<char>)
    requires
        0 <= p,
    ensures
        within(body_spec(l, p, brace, end), l, p, l.len() as int),
    decreases rem(l, p), cl(l, p), 5nat,
{
    reveal_with_fuel(body_spec, 1);
    lemma_block_brace_within(l, p, 1, seq![]);
    lemma_block_until_within(l, p, seq![end], seq![]);
}

proof fn lemma_if_tail_within(l: Seq<Seq<char>>, p: int, brace: bool, elifs: Seq<(Cond, Seq<Stmt>)>)
    requires
        0 <= p,
    ensures
        within(if_tail(l, p, brace, elifs), l, p, if p <= l.len() { l.len() as int } else { p }),
    decreases rem(l, p), cl(l, p), 2nat,
{
    reveal_with_fuel(if_tail, 2);
    reveal(stmt_spec);
    if 0 <= p < l.len() {
        lemma_block_brace_within(l, p + 1, 1, seq![]);
        lemma_block_brace_within(l, p + 2, 1, seq![]);
        lemma_block_until_within(l, p + 1, if_ends(), seq![]);
        lemma_block_until_within(l, p + 1, seq!["ENDIF"@], seq![]);
        if brace {
            let t0 = trim(l[p]);
            let t = if starts_with(t0, "}"@) { trim_left(skip(t0, 1)) } else { t0 };
            if starts_with(t, "else if"@) || starts_with(t, "ELSE IF"@) || starts_with(t, "elif"@)
                || starts_with(t, "ELIF"@) {
                let n: int = if starts_with(t, "else if"@) {
                    7
                } else if starts_with(t, "ELSE IF"@) {
                    8
                } else {
                    4
                };
                if t.len() >= n {
                    let r0 = trim(skip(t, n));
                    let c = cond_spec(if ends_with_char(r0, '{') { strip_brace(r0) } else { r0 });
                    match block_brace(l, p + 1, 1, seq![]) {
                        Res::Done(b, l2, p2) => if past(l, p, l2, p2) {
                            lemma_if_tail_within(l2, p2, brace, elifs.push((c, b)));
                        },
                        _ => {},
                    }
                }
            }
        } else {
            let u = fold_upper(l[p]);
            if starts_with(u, "ELIF "@) {
                let c0 = trim(part(l[p], 5, l[p].len() as int));
                let eb = ends_with_char(c0, '{');
                let c = cond_spec(strip_colon(if eb { strip_brace(c0) } else { c0 }));
                let blk = if eb {
                    block_brace(l, p + 1, 1, seq![])
                } else {
                    block_until(l, p + 1, if_ends(), seq![])
                };
                match blk {
                    Res::Done(b, l2, p2) => if past(l, p, l2, p2) {
                        lemma_if_tail_within(l2, p2, brace, elifs.push((c, b)));
                    },
                    _ => {},
                }
            }
        }
    }
}

proof fn lemma_if_moves(l: Seq<Seq<char>>, p: int)
    requires
        0 <= p < l.len(),
    ensures
        moves_past(if_spec(l, p), l, p),
    decreases rem(l, p), cl(l, p), 2nat,
{
    reveal(if_spec);
    lemma_block_brace_within(l, p + 1, 1, seq![]);
    lemma_block_until_within(l, p + 1, if_ends(), seq![]);
    if l[p].len() >= 3 {
        let c0 = trim(skip(l[p], 3));
        let brace = ends_with_char(c0, '{');
        let blk = if brace {
            block_brace(l, p + 1, 1, seq![])
        } else {
            block_until(l, p + 1, if_ends(), seq![])
        };
        match blk {
            Res::Done(then_b, l2, p2) => if past(l, p, l2, p2) {
                lemma_if_tail_within(l2, p2, brace, seq![]);
            },
            _ => {},
        }
    }
}

proof fn lemma_while_moves(l: Seq<Seq<char>>, p: int)
    requires
        0 <= p < l.len(),
    ensures
        moves_past(while_spec(l, p), l, p),
    decreases rem(l, p), cl(l, p), 2nat,
{
    reveal(while_spec);
    lemma_body_within(l, p + 1, true, "ENDWHILE"@);
    lemma_body_within(l, p + 1, false, "ENDWHILE"@);
}

proof fn lemma_foreach_moves(l: Seq<Seq<char>>, p: int)
    requires
        0 <= p < l.len(),
    ensures
        moves_past(foreach_spec(l, p), l, p),
    decreases rem(l, p), cl(l, p), 2nat,
{
    reveal(foreach_spec);
    lemma_body_within(l, p + 1, true, "ENDFOREACH"@);
    lemma_body_within(l, p + 1, false, "ENDFOREACH"@);
}

proof fn lemma_for_moves(l: Seq<Seq<char>>, p: int)
    requires
        0 <= p < l.len(),
    ensures
        moves_past(for_spec(l, p), l, p),
    decreases rem(l, p), cl(l, p), 2nat,
{
    reveal(for_spec);
    lemma_body_within(l, p + 1, true, "ENDFOR"@);
    lemma_body_within(l, p + 1, false, "ENDFOR"@);
}

proof fn lemma_loop_moves(l: Seq<Seq<char>>, p: int)
    requires
        0 <= p < l.len(),
    ensures
        moves_past(loop_spec(l, p), l, p),
    decreases rem(l, p), cl(l, p), 2nat,
{
    reveal(loop_spec);
    lemma_body_within(l, p + 1, true, "ENDLOOP"@);
    lemma_body_within(l, p + 1, false, "ENDLOOP"@);
}

proof fn lemma_try_moves(l: Seq<Seq<char>>, p: int)
    requires
        0 <= p < l.len(),
    ensures
        moves_past(try_spec(l, p), l, p),
    decreases rem(l, p), cl(l, p), 2nat,
{
    reveal(try_spec);
    lemma_block_brace_within(l, p + 1, 1, seq![]);
    lemma_block_until_within(l, p + 1, seq!["CATCH"@, "ENDTRY"@], seq![]);
    let blk = if ends_with_char(trim(l[p]), '{') {
        block_brace(l, p + 1, 1, seq![])
    } else {
        block_until(l, p + 1, seq!["CATCH"@, "ENDTRY"@], seq![])
    };
    match blk {
        Res::Done(tb, l2, p2) => if past(l, p, l2, p2) {
            lemma_block_brace_within(l2, p2 + 1, 1, seq![]);
            lemma_block_until_within(l2, p2 + 1, seq!["ENDTRY"@], seq![]);
        },
        _ => {},
    }
}

proof fn lemma_function_moves(l: Seq<Seq<char>>, p: int)
    requires
        0 <= p < l.len(),
    ensures
        moves_past(function_spec(l, p), l, p),
    decreases rem(l, p), cl(l, p), 2nat,
{
    reveal(function_spec);
    lemma_block_brace_within(l, p + 1, 1, seq![]);
    lemma_block_until_within(l, p + 1, seq!["ENDFUNCTION"@, "ENDFN"@], seq![]);
}

proof fn lemma_branches_within(
    l: Seq<Seq<char>>,
    p: int,
    in_body: bool,
    depth: nat,
    brs: Seq<(Seq<char>, Seq<Stmt>)>,
    dflt: Option<Seq<Stmt>>,
    sw: bool,
)
    requires
        0 <= p <= l.len(),
    ensures
        within(branches_loop(l, p, in_body, depth, brs, dflt, sw), l, p, l.len() as int),
    decreases rem(l, p), cl(l, p), 6nat,
{
    reveal_with_fuel(branches_loop, 2);
    reveal(branch_body);
    if p < l.len() {
        let t = trim(l[p]);
        lemma_branches_within(l, p + 1, in_body, depth, brs, dflt, sw);
        lemma_branches_within(l, p + 1, true, 1, brs, dflt, sw);
        lemma_branches_within(l, p + 1, true, depth_after(depth, t), brs, dflt, sw);
        let d1 = depth + count_char(t, '{');
        match find_seq(t, ":"@) {
            Some(c) => {
                let label = trim(take(t, c as int));
                match branch_body(l, p, trim(skip(t, (c + 1) as int))) {
                    Res::Done(bs, _, _) => {
                        lemma_branches_within(l, p + 1, true, d1, brs, Some(bs), sw);
                        lemma_branches_within(l, p + 1, true, d1, brs.push((label, bs)), dflt, sw);
                    },
                    _ => {},
                }
            },
            None => {
                lemma_branches_within(l, p + 1, true, d1, brs, dflt, sw);
            },
        }
    }
}

proof fn lemma_scan_moves(l: Seq<Seq<char>>, p: int)
    requires
        0 <= p < l.len(),
    ensures
        moves_past(scan_spec(l, p), l, p),
    decreases rem(l, p), cl(l, p), 2nat,
{
    reveal(scan_spec);
    lemma_branches_within(l, p + 1, true, 0, seq![], None, false);
    lemma_branches_within(l, p + 1, false, 0, seq![], None, false);
}

proof fn lemma_switch_moves(l: Seq<Seq<char>>, p: int)
    requires
        0 <= p < l.len(),
    ensures
        moves_past(switch_spec(l, p), l, p),
    decreases rem(l, p), cl(l, p), 2nat,
{
    reveal(switch_spec);
    lemma_branches_within(l, p + 1, true, 0, seq![], None, true);
    lemma_branches_within(l, p + 1, false, 0, seq![], None, true);
}

} // verus!

verus! {

// ---------------------------------------------------------------------------
// Reassignment reads as `LET`
// ---------------------------------------------------------------------------

proof fn lemma_name_end_at(t: Seq<char>, i: nat, e: nat)
    requires
        i <= e < t.len(),
        forall|k: int| i <= k < e ==> name_char(#[trigger] t[k]),
        !name_char(t[e as int]),
    ensures
        name_end(t, i) == e,
    decreases e - i,
{
    if i < e {
        lemma_name_end_at(t, i + 1, e);
    }
}

proof fn lemma_find_equals(s: Seq<char>, i: nat, k: nat)
    requires
        i <= k < s.len(),
        forall|j: int| i <= j < k ==> #[trigger] s[j] != '=',
        s[k as int] == '=',
    ensures
        find_from(s, seq!['='], i) == Some(k),
    decreases k - i,
{
    if i < k {
        assert(s.subrange(i as int, (i + 1) as int)[0] == s[i as int]);
        lemma_find_equals(s, i + 1, k);
    } else {
        assert(s.subrange(i as int, (i + 1) as int) =~= seq!['=']);
    }
}

/// `v` trimmed is `v` itself.
proof fn lemma_trimmed(v: Seq<char>)
    requires
        v.len() > 0,
        !is_ws(v[0]),
        !is_ws(v.last()),
    ensures
        trim(v) == v,
{
}

/// What the law needs of a name.
pub open spec fn plain_name(x: Seq<char>) -> bool {
    &&& x.len() > 0
    &&& forall|j: int| 0 <= j < x.len() ==> name_char(#[trigger] x[j]) && !is_ws(x[j])
}

/// How the right-hand side `r` splits: without its comment it is whitespace `w`, then `tl`,
/// which trims on the right to the value `v`.
spec fn rhs_split(r: Seq<char>, w: Seq<char>, tl: Seq<char>, v: Seq<char>) -> bool {
    &&& strip_comment(r) == w + tl
    &&& trim_right(tl) == v
    &&& v.len() > 0
    &&& trim(seq![' '] + w + v) == v
    &&& trim(strip_comment(r)) == v
    &&& count_char(v, '{') <= count_char(v, '}')
}

proof fn lemma_rhs_split(r: Seq<char>) -> (res: (Seq<char>, Seq<char>))
    requires
        trim(strip_comment(r)).len() > 0,
        count_char(trim(strip_comment(r)), '{') <= count_char(trim(strip_comment(r)), '}'),
    ensures
        rhs_split(r, res.0, res.1, trim(strip_comment(r))),
{
    let s = strip_comment(r);
    let v = trim(s);
    lemma_trim_left_shape(s);
    let tl = trim_left(s);
    let w = s.take(s.len() - tl.len());
    assert(s =~= w + tl);
    lemma_trim_right_shape(tl);
    assert(v == tl.take(v.len() as int));
    assert(v[0] == tl[0]);
    lemma_trimmed(v);
    assert(seq![' '] + w + v =~= (seq![' '] + w) + v);
    assert forall|j: int| 0 <= j < (seq![' '] + w).len() implies is_ws(#[trigger] (seq![' '] + w)[j]) by {
        if j > 0 {
            assert((seq![' '] + w)[j] == s[j - 1]);
        }
    }
    lemma_trim_left_after_ws(seq![' '] + w, v);
    (w, tl)
}

proof fn lemma_assign_side(l1: Seq<Seq<char>>, p: int, x: Seq<char>, r: Seq<char>, w: Seq<char>, tl: Seq<char>, v: Seq<char>)
    requires
        0 <= p < l1.len(),
        l1[p] == seq!['$'] + x + seq![' ', '=', ' '] + r,
        plain_name(x),
        rhs_split(r, w, tl, v),
    ensures
        assign_spec(l1, p, strip_comment(l1[p])) == Res::Done(Some(Stmt::Let(x, v)), l1, p + 1),
        trim(strip_comment(l1[p])).len() > 0,
        trim(strip_comment(l1[p]))[0] == '$',
        strip_comment(l1[p]).len() > 0,
        strip_comment(l1[p])[0] == '$',
{
    reveal(assign_spec);
    reveal_strlit("$");
    reveal_strlit("=");
    assert("$"@ =~= seq!['$']);
    assert("="@ =~= seq!['=']);
    let a1 = seq!['$'] + x + seq![' ', '=', ' '];
    assert(l1[p] =~= a1 + r);
    assert forall|j: int| 0 <= j < a1.len() implies #[trigger] a1[j] != '"' && a1[j] != '\''
        && a1[j] != '#' && a1[j] != '/' by {
        if 1 <= j <= x.len() {
            assert(a1[j] == x[j - 1]);
        }
    }
    lemma_strip_comment_after(a1, r);
    let line1 = a1 + (w + tl);
    assert(strip_comment(l1[p]) == line1);
    assert(line1[0] == '$');
    assert(trim_left(line1) == line1);
    lemma_trim_right_after(a1 + w, tl);
    assert(line1 =~= (a1 + w) + tl);
    let t = (a1 + w) + v;
    assert(trim(line1) == t);
    assert(t.subrange(0, 1) =~= seq!['$']);
    assert(starts_with(t, "$"@));
    assert forall|k: int| 1 <= k < x.len() + 1 implies name_char(#[trigger] t[k]) by {
        assert(t[k] == x[k - 1]);
    }
    assert(t[(x.len() + 1) as int] == ' ');
    lemma_name_end_at(t, 1, (x.len() + 1) as nat);
    let n = name_end(t, 1);
    assert(t.subrange(1, n as int) =~= x);
    let rest0 = t.subrange((n + 1) as int, t.len() as int);
    assert(rest0 =~= seq!['=', ' '] + w + v);
    assert(trim_left(rest0) == rest0);
    assert(rest0.subrange(0, 1) =~= seq!['=']);
    assert(starts_with(rest0, "="@));
    assert(rest0.subrange(1, rest0.len() as int) =~= seq![' '] + w + v);
    assert(value_spec(l1, p, v) == Some((v, p)));
}

proof fn lemma_let_side(l2: Seq<Seq<char>>, p: int, x: Seq<char>, r: Seq<char>, w: Seq<char>, tl: Seq<char>, v: Seq<char>)
    requires
        0 <= p < l2.len(),
        l2[p] == seq!['l', 'e', 't', ' '] + x + seq![' ', '=', ' '] + r,
        plain_name(x),
        rhs_split(r, w, tl, v),
    ensures
        let_spec(l2, p) == Res::Done(Some(Stmt::Let(x, v)), l2, p + 1),
        trim(strip_comment(l2[p])).len() > 0,
        trim(strip_comment(l2[p]))[0] == 'l',
        strip_comment(l2[p]).len() >= 4,
        strip_comment(l2[p]).subrange(0, 4) =~= seq!['l', 'e', 't', ' '],
{
    reveal(let_spec);
    reveal_strlit("$");
    reveal_strlit("=");
    assert("$"@ =~= seq!['$']);
    assert("="@ =~= seq!['=']);
    let sp = seq![' ', '=', ' '];
    let a2 = seq!['l', 'e', 't', ' '] + x + sp;
    assert(l2[p] =~= a2 + r);
    assert forall|j: int| 0 <= j < a2.len() implies #[trigger] a2[j] != '"' && a2[j] != '\''
        && a2[j] != '#' && a2[j] != '/' by {
        if 4 <= j < x.len() + 4 {
            assert(a2[j] == x[j - 4]);
        }
    }
    lemma_strip_comment_after(a2, r);
    let line2 = a2 + (w + tl);
    assert(strip_comment(l2[p]) == line2);
    let b = x + sp + w;
    assert(skip(line2, 3) =~= seq![' '] + (b + tl));
    lemma_trim_left_after_ws(seq![' '], b + tl);
    assert((b + tl)[0] == x[0]);
    assert(trim_left(b + tl) == b + tl);
    lemma_trim_right_after(b, tl);
    let rr = b + v;
    assert(trim(skip(line2, 3)) == rr);
    assert forall|j: int| 0 <= j < x.len() + 1 implies #[trigger] rr[j] != '=' by {
        if j < x.len() {
            assert(rr[j] == x[j]);
        }
    }
    lemma_find_equals(rr, 0, (x.len() + 1) as nat);
    assert(find_seq(rr, "="@) == Some((x.len() + 1) as nat));
    let nm = take(rr, (x.len() + 1) as int);
    assert(nm =~= x + seq![' ']);
    assert(nm[0] == x[0]);
    assert(trim_left(nm) == nm);
    assert(nm.drop_last() =~= x);
    assert(trim_right(nm) == trim_right(x));
    assert(trim_right(x) == x);
    assert(trim(nm) == x);
    assert(x.subrange(0, 1)[0] == x[0]);
    assert(!starts_with(x, "$"@));
    assert(skip(rr, (x.len() + 2) as int) =~= seq![' '] + w + v);
    assert(value_spec(l2, p + 1, v) == Some((v, p + 1)));
    assert(line2[0] == 'l');
    assert(trim_left(line2) == line2);
    lemma_trim_right_after(a2 + w, tl);
    assert(line2 =~= (a2 + w) + tl);
    assert(trim(line2) == (a2 + w) + v);
}

/// A reassignment reads as the matching `LET`: for a name `x` and a right-hand side `r`
/// whose value (`r` without its comment, trimmed) is not empty and opens no more braces
/// than it closes, the line `$x = r` read as an assignment and the line `let x = r` read as
/// a `LET` both give `Let(x, value)`, and both go on at the next line.
pub proof fn law_reassignment_is_let(
    l1: Seq<Seq<char>>,
    l2: Seq<Seq<char>>,
    p: int,
    x: Seq<char>,
    r: Seq<char>,
)
    requires
        0 <= p < l1.len(),
        0 <= p < l2.len(),
        l1[p] == seq!['$'] + x + seq![' ', '=', ' '] + r,
        l2[p] == seq!['l', 'e', 't', ' '] + x + seq![' ', '=', ' '] + r,
        plain_name(x),
        trim(strip_comment(r)).len() > 0,
        count_char(trim(strip_comment(r)), '{') <= count_char(trim(strip_comment(r)), '}'),
    ensures
        assign_spec(l1, p, strip_comment(l1[p])) == Res::Done(
            Some(Stmt::Let(x, trim(strip_comment(r)))),
            l1,
            p + 1,
        ),
        let_spec(l2, p) == Res::Done(Some(Stmt::Let(x, trim(strip_comment(r)))), l2, p + 1),
{
    let (w, tl) = lemma_rhs_split(r);
    lemma_assign_side(l1, p, x, r, w, tl, trim(strip_comment(r)));
    lemma_let_side(l2, p, x, r, w, tl, trim(strip_comment(r)));
}

proof fn lemma_not_prefix(u: Seq<char>, k: Seq<char>)
    requires
        u.len() > 0,
        k.len() > 0,
        u[0] != k[0],
    ensures
        !starts_with(u, k),
{
    lemma_not_prefix_at(u, k, 0);
}

proof fn lemma_not_prefix_at(u: Seq<char>, k: Seq<char>, i: int)
    requires
        0 <= i < u.len(),
        i < k.len(),
        u[i] != k[i],
    ensures
        !starts_with(u, k),
{
    if starts_with(u, k) {
        assert(u.subrange(0, k.len() as int)[i] == u[i]);
    }
}

/// An ASCII line that, without its comment, is `$` and more starts no keyword statement
/// and is read as an assignment.
#[verifier::rlimit(40)]
proof fn lemma_dollar_line(l: Seq<Seq<char>>, p: int)
    requires
        0 <= p < l.len(),
        is_ascii_text(l[p]),
        strip_comment(l[p]).len() > 0,
        strip_comment(l[p])[0] == '$',
        trim(strip_comment(l[p])).len() > 0,
        trim(strip_comment(l[p]))[0] == '$',
        assign_spec(l, p, strip_comment(l[p])) is Done,
        assign_spec(l, p, strip_comment(l[p]))->Done_0 is Some,
    ensures
        stmt_spec(l, p) == assign_spec(l, p, strip_comment(l[p])),
{
    reveal(stmt_spec);
    reveal_strlit("//");
    reveal_strlit("#");
    reveal_strlit("IF ");
    reveal_strlit("WHILE ");
    reveal_strlit("FOREACH ");
    reveal_strlit("FOR ");
    reveal_strlit("LOOP");
    reveal_strlit("BREAK");
    reveal_strlit("CONTINUE");
    reveal_strlit("RETURN");
    reveal_strlit("TRY");
    reveal_strlit("STRUCT ");
    reveal_strlit("ENUM ");
    reveal_strlit("SCAN");
    reveal_strlit("SWITCH");
    reveal_strlit("CHAIN");
    reveal_strlit("FUNCTION ");
    reveal_strlit("FN ");
    reveal_strlit("LET ");
    let line = strip_comment(l[p]);
    law_strip_comment(l[p]);
    assert(line == l[p].take(line.len() as int));
    assert(is_ascii_text(line)) by {
        assert forall|i: int| 0 <= i < line.len() implies (#[trigger] line[i] as u32) < 0x80 by {
            assert(line[i] == l[p][i]);
        }
    }
    let u = fold_upper(line);
    assert(u == ascii_upper(line));
    assert(u[0] == '$');
    lemma_not_prefix(trim(line), "//"@);
    lemma_not_prefix(u, "#"@);
    lemma_not_prefix(u, "IF "@);
    lemma_not_prefix(u, "WHILE "@);
    lemma_not_prefix(u, "FOREACH "@);
    lemma_not_prefix(u, "FOR "@);
    lemma_not_prefix(u, "LOOP"@);
    lemma_not_prefix(u, "BREAK"@);
    lemma_not_prefix(u, "CONTINUE"@);
    lemma_not_prefix(u, "RETURN"@);
    lemma_not_prefix(u, "TRY"@);
    lemma_not_prefix(u, "STRUCT "@);
    lemma_not_prefix(u, "ENUM "@);
    lemma_not_prefix(u, "SCAN"@);
    lemma_not_prefix(u, "SWITCH"@);
    lemma_not_prefix(u, "CHAIN"@);
    lemma_not_prefix(u, "FUNCTION "@);
    lemma_not_prefix(u, "FN "@);
    lemma_not_prefix(u, "LET "@);
}

/// An ASCII line that, without its comment, starts with `let ` is read as a `LET`.
#[verifier::rlimit(40)]
proof fn lemma_let_line(l: Seq<Seq<char>>, p: int)
    requires
        0 <= p < l.len(),
        is_ascii_text(l[p]),
        strip_comment(l[p]).len() >= 4,
        strip_comment(l[p]).subrange(0, 4) =~= seq!['l', 'e', 't', ' '],
        trim(strip_comment(l[p])).len() > 0,
        trim(strip_comment(l[p]))[0] == 'l',
    ensures
        stmt_spec(l, p) == let_spec(l, p),
{
    reveal(stmt_spec);
    reveal_strlit("//");
    reveal_strlit("#");
    reveal_strlit("IF ");
    reveal_strlit("WHILE ");
    reveal_strlit("FOREACH ");
    reveal_strlit("FOR ");
    reveal_strlit("LOOP");
    reveal_strlit("BREAK");
    reveal_strlit("CONTINUE");
    reveal_strlit("RETURN");
    reveal_strlit("TRY");
    reveal_strlit("STRUCT ");
    reveal_strlit("ENUM ");
    reveal_strlit("SCAN");
    reveal_strlit("SWITCH");
    reveal_strlit("CHAIN");
    reveal_strlit("FUNCTION ");
    reveal_strlit("FN ");
    reveal_strlit("LET ");
    let line = strip_comment(l[p]);
    law_strip_comment(l[p]);
    assert(line == l[p].take(line.len() as int));
    assert(is_ascii_text(line)) by {
        assert forall|i: int| 0 <= i < line.len() implies (#[trigger] line[i] as u32) < 0x80 by {
            assert(line[i] == l[p][i]);
        }
    }
    let u = fold_upper(line);
    assert(u == ascii_upper(line));
    assert(line[0] == 'l' && line[1] == 'e' && line[2] == 't' && line[3] == ' ');
    assert(u[0] == 'L' && u[1] == 'E' && u[2] == 'T' && u[3] == ' ');
    assert(u.subrange(0, 4) =~= "LET "@);
    lemma_not_prefix(trim(line), "//"@);
    lemma_not_prefix(u, "#"@);
    lemma_not_prefix_at(u, "LOOP"@, 1);
    lemma_not_prefix(u, "IF "@);
    lemma_not_prefix(u, "WHILE "@);
    lemma_not_prefix(u, "FOREACH "@);
    lemma_not_prefix(u, "FOR "@);
    lemma_not_prefix(u, "BREAK"@);
    lemma_not_prefix(u, "CONTINUE"@);
    lemma_not_prefix(u, "RETURN"@);
    lemma_not_prefix(u, "TRY"@);
    lemma_not_prefix(u, "STRUCT "@);
    lemma_not_prefix(u, "ENUM "@);
    lemma_not_prefix(u, "SCAN"@);
    lemma_not_prefix(u, "SWITCH"@);
    lemma_not_prefix(u, "CHAIN"@);
    lemma_not_prefix(u, "FUNCTION "@);
    lemma_not_prefix(u, "FN "@);
}

/// On ASCII lines the law holds of whole statements too: the statement read at `p` from
/// `$x = r` and the one read from `let x = r` are both `Let(x, value)`, and both go on at the
/// next line. (On other lines, which statement a line starts is decided by `to_upper`, the
/// name of `str::to_uppercase`, of which nothing more is stated.)
pub proof fn law_reassignment_statement_is_let(
    l1: Seq<Seq<char>>,
    l2: Seq<Seq<char>>,
    p: int,
    x: Seq<char>,
    r: Seq<char>,
)
    requires
        0 <= p < l1.len(),
        0 <= p < l2.len(),
        l1[p] == seq!['$'] + x + seq![' ', '=', ' '] + r,
        l2[p] == seq!['l', 'e', 't', ' '] + x + seq![' ', '=', ' '] + r,
        is_ascii_text(l1[p]),
        is_ascii_text(l2[p]),
        plain_name(x),
        trim(strip_comment(r)).len() > 0,
        count_char(trim(strip_comment(r)), '{') <= count_char(trim(strip_comment(r)), '}'),
    ensures
        stmt_spec(l1, p) == Res::Done(Some(Stmt::Let(x, trim(strip_comment(r)))), l1, p + 1),
        stmt_spec(l2, p) == Res::Done(Some(Stmt::Let(x, trim(strip_comment(r)))), l2, p + 1),
{
    let (w, tl) = lemma_rhs_split(r);
    let v = trim(strip_comment(r));
    lemma_assign_side(l1, p, x, r, w, tl, v);
    lemma_let_side(l2, p, x, r, w, tl, v);
    lemma_trim_left_shape(strip_comment(l1[p]));
    lemma_dollar_line(l1, p);
    lemma_let_line(l2, p);
}

} // verus!

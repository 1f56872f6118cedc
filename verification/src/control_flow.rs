//! The line-oriented control-flow parser. A script is read line by line (each line
//! trimmed); a statement starts with a keyword, compared without regard to the case of
//! ASCII letters, and blocks end either at a closing `}` or at a legacy `END...` line.
use vstd::prelude::*;
use crate::flow_model::{
    and_pos, assign_spec, collect_braces, cond_matches, cond_spec, find_compare,
    find_top_level, let_spec, name_end, op_order, op_text, opt_stmt_matches, or_pos,
    parens_close_at_end, push_opt, stmt_matches, stmts_match, strip_parens, top_level,
    value_spec, Cond, Res, Stmt, items_loop, items_spec, return_spec, break_spec, strip_brace,
    strip_colon, drop_empty, chain_block, chain_lines, chain_spec, chain_stmt, rem, cl,
    stmt_spec, parse_all, block_until, block_brace, body_spec, if_ends, any_prefix, join_comma,
    lead_count, elifs_match, branches_match, opt_block_matches, if_spec, if_tail, while_spec,
    foreach_spec, for_spec, loop_spec, try_spec, function_spec, fn_header, branch_body,
    branches_loop, scan_spec, switch_spec, if_wrap, skip, take, lemma_parse_all_step,
    lemma_block_until_step, lemma_block_brace_step, lemma_branches_step,
};
use crate::text::{
    count_char, fold_upper, upper_vec, lower_vec, part, part_chars, char_is_alphanumeric, chars_eq, chars_to_string, count,
    find_chars, find_seq, lemma_count_le, lemma_find_seq, lemma_lines_len, lemma_trim_len,
    lines_of, push_all, script_lines, ends_with, trim_end_matches, lemma_strings_view_push,
    split_char, trim_end_ws, rfind, lemma_rfind_char, split_on, split_whitespace, parse_u64, starts_with, starts_with_at, starts_with_chars, str_chars,
    strings_view, strip_inline_comment, sub_chars, sub_string, trim, trim_chars,
    trim_start_chars,
};

verus! {

#[derive(Debug)]
pub enum Statement {
    Command(String),
    Let { name: String, value: String },
    If {
        condition: Condition,
        then_block: Vec<Statement>,
        elif_blocks: Vec<(Condition, Vec<Statement>)>,
        else_block: Option<Vec<Statement>>,
    },
    While { condition: Condition, body: Vec<Statement> },
    For { var: String, items: Vec<String>, body: Vec<Statement> },
    Loop { count: Option<u64>, interval: Option<u64>, body: Vec<Statement> },
    Break { condition: Option<Condition> },
    Continue,
    Try { try_block: Vec<Statement>, catch_block: Option<Vec<Statement>> },
    FunctionDef { name: String, params: Vec<String>, body: Vec<Statement> },
    Foreach { var: String, iterable: String, body: Vec<Statement> },
    ForLoop {
        init: Option<String>,
        condition: Condition,
        update: Option<String>,
        body: Vec<Statement>,
    },
    Return { value: Option<String> },
    Chain { steps: Vec<String> },
    StructDef { name: String, fields: Vec<String> },
    EnumDef { name: String, variants: Vec<String> },
    Scan { expr: Option<String>, enum_type: String, branches: Vec<(String, Vec<Statement>)> },
    Switch {
        expr: String,
        branches: Vec<(String, Vec<Statement>)>,
        default_branch: Option<Vec<Statement>>,
    },
}

#[derive(Debug)]
pub struct FunctionDef {
    pub params: Vec<String>,
    pub body: Vec<Statement>,
}

#[derive(Debug)]
pub enum Condition {
    Command(String),
    Is(String, String),
    IsNot(String, String),
    And(Box<Condition>, Box<Condition>),
    Or(Box<Condition>, Box<Condition>),
    Compare(String, CompareOp, String),
}

#[derive(Debug, Clone, Copy, PartialEq, Eq)]
pub enum CompareOp {
    Eq,
    Ne,
    Lt,
    Gt,
    Le,
    Ge,
}

/// A parser over the trimmed lines of a script, with the position of the next line.
pub struct ControlFlowParser {
    lines: Vec<Vec<char>>,
    pos: usize,
}

} // verus!

verus! {

// ---------------------------------------------------------------------------
// Conditions
// ---------------------------------------------------------------------------

/// Whether the `)` that closes the `(` at the start of `c` is its last character.
fn closes_at_end(c: &Vec<char>) -> (b: bool)
    requires
        c@.len() >= 1,
        c@[0] == '(',
    ensures
        b == parens_close_at_end(c@, 0, 0),
{
    let n = c.len();
    let mut i: usize = 1;
    let mut depth: usize = 1;
    assert(parens_close_at_end(c@, 0, 0) == parens_close_at_end(c@, 1, 1));
    while i < n
        invariant
            n == c@.len(),
            1 <= i <= n,
            1 <= depth <= i,
            parens_close_at_end(c@, i as nat, depth as int) == parens_close_at_end(c@, 0, 0),
        decreases n - i,
    {
        let ch = c[i];
        if ch == ')' {
            if depth == 1 {
                return i + 1 == n;
            }
            depth = depth - 1;
        } else if ch == '(' {
            depth = depth + 1;
        }
        i = i + 1;
    }
    false
}

/// `c` without enclosing parentheses that span all of it.
fn strip_parens_exec(c: &Vec<char>) -> (r: Vec<char>)
    ensures
        r@ == strip_parens(c@),
{
    let mut cur = sub_chars(c, 0, c.len());
    assert(cur@ =~= c@);
    loop
        invariant
            strip_parens(cur@) == strip_parens(c@),
        decreases cur@.len(),
    {
        let n = cur.len();
        if n >= 2 && cur[0] == '(' && cur[n - 1] == ')' && closes_at_end(&cur) {
            let inner = trim_chars(&sub_chars(&cur, 1, n - 1));
            if inner.len() < n {
                cur = inner;
            } else {
                return cur;
            }
        } else {
            return cur;
        }
    }
}

/// Where `pat` first occurs in `c` outside quotes and parentheses.
fn find_top(c: &Vec<char>, pat: &str) -> (r: Option<usize>)
    ensures
        match r {
            Some(i) => top_level(c@, pat@) == Some(i as nat),
            None => top_level(c@, pat@) is None,
        },
{
    let p = str_chars(pat);
    let n = c.len();
    let mut i: usize = 0;
    let mut depth: usize = 0;
    let mut quote: Option<char> = None;
    while i < n
        invariant
            n == c@.len(),
            p@ == pat@,
            i <= n,
            depth <= i,
            find_top_level(c@, pat@, i as nat, depth as int, quote) == top_level(c@, pat@),
        decreases n - i,
    {
        let ch = c[i];
        match quote {
            Some(q) => {
                if ch == q {
                    quote = None;
                }
            },
            None => {
                if ch == '"' || ch == '\'' {
                    quote = Some(ch);
                } else {
                    if ch == '(' {
                        depth = depth + 1;
                    } else if ch == ')' {
                        if depth > 0 {
                            depth = depth - 1;
                        }
                    }
                    if depth == 0 && starts_with_at(c, &p, i) {
                        return Some(i);
                    }
                }
            },
        }
        i = i + 1;
    }
    None
}

fn and_pos_exec(c: &Vec<char>) -> (r: Option<usize>)
    ensures
        match r {
            Some(i) => and_pos(c@) == Some(i as nat),
            None => and_pos(c@) is None,
        },
{
    match find_top(c, " AND ") {
        Some(i) => Some(i),
        None => find_top(c, "&&"),
    }
}

fn or_pos_exec(c: &Vec<char>) -> (r: Option<usize>)
    ensures
        match r {
            Some(i) => or_pos(c@) == Some(i as nat),
            None => or_pos(c@) is None,
        },
{
    match find_top(c, " OR ") {
        Some(i) => Some(i),
        None => find_top(c, "||"),
    }
}

/// The operator at place `k` of the search order, and its text.
fn op_at(k: usize) -> (r: (CompareOp, Vec<char>))
    requires
        k < 6,
    ensures
        r.0 == op_order()[k as int],
        r.1@ == op_text(r.0),
{
    if k == 0 {
        (CompareOp::Eq, str_chars("=="))
    } else if k == 1 {
        (CompareOp::Ne, str_chars("!="))
    } else if k == 2 {
        (CompareOp::Le, str_chars("<="))
    } else if k == 3 {
        (CompareOp::Ge, str_chars(">="))
    } else if k == 4 {
        (CompareOp::Lt, str_chars("<"))
    } else {
        (CompareOp::Gt, str_chars(">"))
    }
}

/// The first comparison operator (in the search order) that occurs in `c`.
fn find_compare_exec(c: &Vec<char>) -> (r: Option<(CompareOp, usize, usize)>)
    ensures
        match r {
            Some((op, p, n)) => find_compare(c@, 0) == Some((op, p as nat)) && n == op_text(op).len(),
            None => find_compare(c@, 0) is None,
        },
{
    let mut k: usize = 0;
    while k < 6
        invariant
            k <= 6,
            find_compare(c@, k as nat) == find_compare(c@, 0),
        decreases 6 - k,
    {
        let (op, t) = op_at(k);
        match find_chars(c, &t) {
            Some(p) => {
                return Some((op, p, t.len()));
            },
            None => {},
        }
        k = k + 1;
    }
    None
}

/// The condition that `s` states (see `cond_spec`).
pub fn parse_condition(s: &Vec<char>) -> (c: Condition)
    ensures
        cond_matches(c, cond_spec(s@)),
    decreases s@.len(),
{
    let t = trim_chars(s);
    let c = strip_parens_exec(&t);
    let n = c.len();
    if n > s.len() {
        return Condition::Command(chars_to_string(&c));
    }
    proof {
        lemma_top_level_bound(c@, " AND "@, 0, 0, None);
        lemma_top_level_bound(c@, "&&"@, 0, 0, None);
        lemma_top_level_bound(c@, " OR "@, 0, 0, None);
        lemma_top_level_bound(c@, "||"@, 0, 0, None);
    }
    match and_pos_exec(&c) {
        Some(a) => {
            let k: usize = if starts_with_at(&c, &str_chars("&&"), a) {
                2
            } else {
                5
            };
            if a < n && k <= n - a {
                let left = parse_condition(&sub_chars(&c, 0, a));
                let right = parse_condition(&sub_chars(&c, a + k, n));
                return Condition::And(Box::new(left), Box::new(right));
            }
            return Condition::Command(chars_to_string(&c));
        },
        None => {},
    }
    match or_pos_exec(&c) {
        Some(a) => {
            let k: usize = if starts_with_at(&c, &str_chars("||"), a) {
                2
            } else {
                4
            };
            if a < n && k <= n - a {
                let left = parse_condition(&sub_chars(&c, 0, a));
                let right = parse_condition(&sub_chars(&c, a + k, n));
                return Condition::Or(Box::new(left), Box::new(right));
            }
            return Condition::Command(chars_to_string(&c));
        },
        None => {},
    }
    let u = upper_vec(&c);
    proof {
        reveal_strlit(" IS NOT ");
        reveal_strlit(" IS ");
        lemma_find_seq(fold_upper(c@), " IS NOT "@);
        lemma_find_seq(fold_upper(c@), " IS "@);
    }
    let ul = u.len();
    match find_chars(&u, &str_chars(" IS NOT ")) {
        Some(k) => {
            assert(k + 8 <= ul);
            let var = trim_chars(&part_chars(&c, 0, k));
            let value = trim_chars(&part_chars(&c, k + 8, n));
            return Condition::IsNot(chars_to_string(&var), chars_to_string(&value));
        },
        None => {},
    }
    match find_chars(&u, &str_chars(" IS ")) {
        Some(k) => {
            assert(k + 4 <= ul);
            let var = trim_chars(&part_chars(&c, 0, k));
            let value = trim_chars(&part_chars(&c, k + 4, n));
            return Condition::Is(chars_to_string(&var), chars_to_string(&value));
        },
        None => {},
    }
    proof {
        lemma_find_compare(c@, 0);
    }
    match find_compare_exec(&c) {
        Some((op, p, len)) => {
            let left = trim_chars(&sub_chars(&c, 0, p));
            let right = trim_chars(&sub_chars(&c, p + len, n));
            Condition::Compare(chars_to_string(&left), op, chars_to_string(&right))
        },
        None => Condition::Command(chars_to_string(&c)),
    }
}

proof fn lemma_top_level_bound(c: Seq<char>, pat: Seq<char>, i: nat, depth: int, quote: Option<char>)
    ensures
        find_top_level(c, pat, i, depth, quote) matches Some(k) ==> k < c.len(),
    decreases c.len() - i,
{
    if i < c.len() {
        let ch = c[i as int];
        let d = if ch == '(' {
            depth + 1
        } else if ch == ')' {
            if depth > 0 {
                depth - 1
            } else {
                depth
            }
        } else {
            depth
        };
        lemma_top_level_bound(c, pat, i + 1, depth, None);
        lemma_top_level_bound(c, pat, i + 1, depth, Some(ch));
        lemma_top_level_bound(c, pat, i + 1, d, None);
        if quote is Some {
            lemma_top_level_bound(c, pat, i + 1, depth, quote);
        }
    }
}

proof fn lemma_find_compare(c: Seq<char>, k: nat)
    ensures
        find_compare(c, k) matches Some((op, p)) ==> p + op_text(op).len() <= c.len(),
    decreases 6 - k,
{
    if k < 6 {
        lemma_find_seq(c, op_text(op_order()[k as int]));
        lemma_find_compare(c, k + 1);
    }
}

} // verus!

verus! {

// ---------------------------------------------------------------------------
// The parser's state
// ---------------------------------------------------------------------------

/// Why parsing stopped: a message, or an input that the parser does not accept.
enum Fail {
    Msg(String),
    Abort,
}

/// `e` is the failure that `s` describes.
spec fn fails_as<D>(e: Fail, s: Res<D>) -> bool {
    match e {
        Fail::Msg(t) => s == Res::<D>::Fail(t@),
        Fail::Abort => s is Abort,
    }
}

/// `r` is what `s` describes for a statement, the parser being left at `(l2, p2)`.
spec fn stmt_out(r: Result<Option<Statement>, Fail>, s: Res<Option<Stmt>>, l2: Seq<Seq<char>>, p2: int) -> bool {
    match r {
        Ok(x) => s matches Res::Done(d, sl, sp) && opt_stmt_matches(x, d) && sl == l2 && sp == p2,
        Err(e) => fails_as(e, s),
    }
}

/// `r` is what `s` describes for a block, the parser being left at `(l2, p2)`.
spec fn block_out(r: Result<Vec<Statement>, Fail>, s: Res<Seq<Stmt>>, l2: Seq<Seq<char>>, p2: int) -> bool {
    match r {
        Ok(x) => s matches Res::Done(d, sl, sp) && stmts_match(x@, d) && sl == l2 && sp == p2,
        Err(e) => fails_as(e, s),
    }
}

/// `r` is what `s` describes for a list of texts, the parser being left at `(l2, p2)`.
spec fn texts_out(r: Result<Vec<String>, Fail>, s: Res<Seq<Seq<char>>>, l2: Seq<Seq<char>>, p2: int) -> bool {
    match r {
        Ok(x) => s matches Res::Done(d, sl, sp) && strings_view(x@) == d && sl == l2 && sp == p2,
        Err(e) => fails_as(e, s),
    }
}

fn msg(m: &str) -> (f: Fail)
    ensures
        f matches Fail::Msg(t) && t@ == m@,
{
    Fail::Msg(String::from_str(m))
}

/// Whether `t` holds exactly the characters of `k`.
fn is_text(t: &Vec<char>, k: &str) -> (b: bool)
    ensures
        b == (t@ == k@),
{
    chars_eq(t, &str_chars(k))
}

/// Whether `t` starts with the characters of `k`.
fn has_prefix(t: &Vec<char>, k: &str) -> (b: bool)
    ensures
        b == starts_with(t@, k@),
{
    starts_with_chars(t, &str_chars(k))
}

proof fn lemma_stmts_push(v: Seq<Statement>, ds: Seq<Stmt>, s: Statement, d: Stmt)
    requires
        stmts_match(v, ds),
        stmt_matches(s, d),
    ensures
        stmts_match(v.push(s), ds.push(d)),
{
    let v2 = v.push(s);
    let d2 = ds.push(d);
    assert forall|i: int| 0 <= i < d2.len() implies stmt_matches(#[trigger] v2[i], d2[i]) by {
        if i < ds.len() {
            assert(v2[i] == v[i]);
            assert(d2[i] == ds[i]);
            assert(stmt_matches(v[i], ds[i]));
        } else {
            assert(v2[i] == s);
            assert(d2[i] == d);
        }
    }
    assert(v2.len() == d2.len());
}

proof fn lemma_stmts_push_opt(v: Seq<Statement>, ds: Seq<Stmt>, s: Option<Statement>, d: Option<Stmt>)
    requires
        stmts_match(v, ds),
        opt_stmt_matches(s, d),
    ensures
        stmts_match(
            match s {
                Some(x) => v.push(x),
                None => v,
            },
            push_opt(ds, d),
        ),
{
    match d {
        Some(e) => {
            lemma_stmts_push(v, ds, s->Some_0, e);
        },
        None => {},
    }
}

impl ControlFlowParser {
    /// The lines of the script (each trimmed when the parser was made).
    pub closed spec fn script(&self) -> Seq<Seq<char>> {
        self.lines@.map_values(|v: Vec<char>| v@)
    }

    /// The position of the next line to read.
    pub closed spec fn at(&self) -> int {
        self.pos as int
    }

    /// The position lies at most one past the end of the script.
    pub closed spec fn wf(&self) -> bool {
        &&& self.lines@.len() < usize::MAX
        &&& self.pos <= self.lines@.len() + 1
    }

    /// A parser at the first line of `input`'s trimmed lines.
    pub fn new(input: &str) -> (r: Self)
        requires
            input@.len() + 1 < usize::MAX,
        ensures
            r.wf(),
            r.script() == lines_of(input@),
            r.at() == 0,
    {
        let chars = str_chars(input);
        let lines = script_lines(&chars);
        proof {
            lemma_lines_len(input@);
            assert(lines@.len() == lines@.map_values(|v: Vec<char>| v@).len());
        }
        ControlFlowParser { lines, pos: 0 }
    }

    /// The text that a braced value collects from line `p` on (see `collect_braces`).
    fn collect(&self, p: usize, rhs: Vec<char>) -> (r: Option<(Vec<char>, usize)>)
        requires
            self.wf(),
            p <= self.lines@.len() + 1,
        ensures
            match value_spec(self.script(), p as int, rhs@) {
                Some((v, q)) => r matches Some((w, k)) && w@ == v && k == q,
                None => r is None,
            },
            r matches Some((_, k)) ==> k <= self.lines@.len() + 1,
            p <= self.lines@.len() ==> (r matches Some((_, k)) ==> k <= self.lines@.len()),
    {
        let open = count(&rhs, '{');
        if open == 0 {
            return Some((rhs, p));
        }
        let mut depth: usize = if open >= count(&rhs, '}') {
            open - count(&rhs, '}')
        } else {
            0
        };
        let mut text = rhs;
        let mut q = p;
        let ghost l = self.script();
        proof {
            lemma_count_le(rhs@, '{');
        }
        while depth > 0
            invariant
                self.wf(),
                l == self.script(),
                p <= q,
                q <= self.lines@.len() + 1,
                q > p ==> q <= self.lines@.len(),
                depth <= text@.len(),
                collect_braces(l, q as int, text@, depth as nat) == value_spec(l, p as int, rhs@),
            decreases self.lines@.len() + 1 - q,
        {
            if q >= self.lines.len() {
                return None;
            }
            let line = &self.lines[q];
            let t = trim_chars(line);
            let ghost text0 = text@;
            text.push('\n');
            push_all(&mut text, line);
            let tl = text.len();
            proof {
                lemma_trim_len(line@);
                lemma_count_le(t@, '{');
                assert(line@ == l[q as int]);
                assert(text@ == text0 + seq!['\n'] + l[q as int]);
            }
            let d1 = depth + count(&t, '{');
            let c = count(&t, '}');
            depth = if d1 >= c {
                d1 - c
            } else {
                0
            };
            q = q + 1;
        }
        Some((text, q))
    }

    /// `LET name = value` at the current line.
    fn parse_let(&mut self) -> (r: Result<Option<Statement>, Fail>)
        requires
            old(self).wf(),
            old(self).pos < old(self).lines@.len(),
        ensures
            final(self).wf(),
            stmt_out(r, let_spec(old(self).script(), old(self).at()), final(self).script(), final(self).at()),
    {
        proof {
            reveal(let_spec);
        }
        let p = self.pos;
        let line = strip_inline_comment(&self.lines[p]);
        if line.len() < 3 {
            return Err(Fail::Abort);
        }
        let r = trim_chars(&sub_chars(&line, 3, line.len()));
        proof {
            reveal_strlit("=");
            lemma_find_seq(r@, "="@);
        }
        match find_chars(&r, &str_chars("=")) {
            None => Err(msg("LET syntax: LET name = value")),
            Some(e) => {
                let rl = r.len();
                assert(e + 1 <= rl);
                let name = trim_chars(&sub_chars(&r, 0, e));
                if has_prefix(&name, "$") {
                    return Err(msg("LET syntax: variable name must not start with '$'"));
                }
                if name.len() == 0 {
                    return Err(msg("LET syntax: missing variable name"));
                }
                let rhs = trim_chars(&sub_chars(&r, e + 1, rl));
                match self.collect(p + 1, rhs) {
                    Some((v, q)) => {
                        self.pos = q;
                        Ok(Some(Statement::Let { name: chars_to_string(&name), value: chars_to_string(&v) }))
                    },
                    None => Err(Fail::Abort),
                }
            },
        }
    }

    /// An assignment `$name = value` on `line`, the current line without its comment;
    /// `Ok(None)` where it is none.
    fn parse_assignment(&mut self, line: &Vec<char>) -> (r: Result<Option<Statement>, Fail>)
        requires
            old(self).wf(),
            old(self).pos < old(self).lines@.len(),
        ensures
            final(self).wf(),
            stmt_out(
                r,
                assign_spec(old(self).script(), old(self).at(), line@),
                final(self).script(),
                final(self).at(),
            ),
            r matches Ok(None) ==> final(self).pos == old(self).pos && final(self).lines == old(self).lines,
    {
        proof {
            reveal(assign_spec);
        }
        let t = trim_chars(line);
        if !has_prefix(&t, "$") {
            return Ok(None);
        }
        proof {
            reveal_strlit("$");
        }
        let n = t.len();
        let mut e: usize = 1;
        while e < n && (char_is_alphanumeric(t[e]) || t[e] == '_' || t[e] == '.')
            invariant
                n == t@.len(),
                1 <= e <= n,
                name_end(t@, e as nat) == name_end(t@, 1),
            decreases n - e,
        {
            e = e + 1;
        }
        let name = sub_chars(&t, 1, e);
        let after = if e < n {
            sub_chars(&t, e + 1, n)
        } else {
            Vec::new()
        };
        let rest = trim_start_chars(&after);
        if name.len() == 0 || !has_prefix(&rest, "=") {
            return Ok(None);
        }
        proof {
            reveal_strlit("=");
        }
        let rhs = trim_chars(&sub_chars(&rest, 1, rest.len()));
        if rhs.len() == 0 {
            return Err(msg("Assignment syntax: $var = expression"));
        }
        let p = self.pos;
        match self.collect(p, rhs) {
            Some((v, q)) => {
                self.pos = q + 1;
                Ok(Some(Statement::Let { name: chars_to_string(&name), value: chars_to_string(&v) }))
            },
            None => Err(Fail::Abort),
        }
    }
}

} // verus!

verus! {

/// `t` without trailing `{`, trimmed.
fn strip_brace_exec(t: &Vec<char>) -> (r: Vec<char>)
    ensures
        r@ == strip_brace(t@),
{
    trim_chars(&trim_end_matches(t, '{'))
}

/// `t` without trailing `:`, trimmed.
fn strip_colon_exec(t: &Vec<char>) -> (r: Vec<char>)
    ensures
        r@ == strip_colon(t@),
{
    trim_chars(&trim_end_matches(t, ':'))
}

/// The brace depth stays below `q` times the largest `usize` after line `q`.
proof fn lemma_depth_bound(depth: int, c: int, q: int, m: int)
    by (nonlinear_arith)
    requires
        0 <= depth <= q * m,
        0 <= c <= m,
        0 <= q,
        q + 1 <= m,
        m <= 0xffff_ffff_ffff_ffff,
    ensures
        depth + c <= (q + 1) * m,
        (q + 1) * m <= 0xffff_ffff_ffff_fffe_0000_0000_0000_0001,
{
}

impl ControlFlowParser {
    /// `STRUCT name` or `ENUM name` with its body, at the current line.
    fn parse_items(&mut self, is_enum: bool) -> (r: Result<Option<Statement>, Fail>)
        requires
            old(self).wf(),
            old(self).pos < old(self).lines@.len(),
        ensures
            final(self).wf(),
            stmt_out(
                r,
                items_spec(old(self).script(), old(self).at(), is_enum),
                final(self).script(),
                final(self).at(),
            ),
    {
        proof {
            reveal(items_spec);
        }
        let p = self.pos;
        let k: usize = if is_enum {
            4
        } else {
            6
        };
        let n = self.lines.len();
        let ghost l = self.script();
        assert(self.lines@[p as int]@ == l[p as int]);
        if self.lines[p].len() < k {
            return Err(Fail::Abort);
        }
        let r = trim_chars(&sub_chars(&self.lines[p], k, self.lines[p].len()));
        let brace = ends_with(&r, '{');
        let name = if brace {
            strip_brace_exec(&r)
        } else {
            r
        };
        let mut q = p + 1;
        let mut br = brace;
        let mut depth: u128 = if brace {
            1
        } else {
            0
        };
        let mut items: Vec<String> = Vec::new();
        let ghost target = items_loop(l, p + 1, brace, if brace { 1 } else { 0 }, seq![], is_enum);
        assert(strings_view(items@) =~= seq![]);
        loop
            invariant_except_break
                items_loop(l, q as int, br, depth as nat, strings_view(items@), is_enum) == target,
            invariant
                n == self.lines@.len(),
                l == self.script(),
                p < n < usize::MAX,
                p + 1 <= q <= n,
                depth <= q * usize::MAX,
            ensures
                p + 1 <= q <= n,
                target == (strings_view(items@), q as int),
            decreases n - q,
        {
            if q >= n {
                break;
            }
            assert(self.lines@[q as int]@ == l[q as int]);
            let t = trim_chars(&self.lines[q]);
            if t.len() == 0 {
                q = q + 1;
                continue;
            }
            if !br && is_text(&t, "{") {
                br = true;
                depth = 1;
                q = q + 1;
                continue;
            }
            if !br {
                break;
            }
            let c = count(&t, '{');
            proof {
                lemma_depth_bound(depth as int, c as int, q as int, usize::MAX as int);
            }
            let d1 = depth + c as u128;
            let cc = count(&t, '}');
            if cc > 0 {
                let d2 = if d1 >= cc as u128 {
                    d1 - cc as u128
                } else {
                    0
                };
                q = q + 1;
                if d2 == 0 {
                    break;
                }
                depth = d2;
                continue;
            }
            let item = if is_enum {
                trim_chars(&trim_end_matches(&t, ','))
            } else {
                match find_chars(&t, &str_chars(":")) {
                    Some(ci) => {
                        proof {
                            lemma_find_seq(t@, ":"@);
                        }
                        trim_chars(&sub_chars(&t, 0, ci))
                    },
                    None => Vec::new(),
                }
            };
            if item.len() > 0 {
                let ghost before = items@;
                items.push(chars_to_string(&item));
                proof {
                    lemma_strings_view_push(before, items@.last());
                    assert(items@ == before.push(items@.last()));
                }
            }
            depth = d1;
            q = q + 1;
        }
        self.pos = q;
        let st = if is_enum {
            Statement::EnumDef { name: chars_to_string(&name), variants: items }
        } else {
            Statement::StructDef { name: chars_to_string(&name), fields: items }
        };
        Ok(Some(st))
    }

    /// `RETURN [value]` at the current line.
    fn parse_return(&mut self) -> (r: Result<Option<Statement>, Fail>)
        requires
            old(self).wf(),
            old(self).pos < old(self).lines@.len(),
        ensures
            final(self).wf(),
            stmt_out(r, return_spec(old(self).script(), old(self).at()), final(self).script(), final(self).at()),
    {
        proof {
            reveal(return_spec);
        }
        let p = self.pos;
        assert(self.lines@[p as int]@ == self.script()[p as int]);
        let line = &self.lines[p];
        if line.len() < 6 {
            return Err(Fail::Abort);
        }
        let v = trim_chars(&sub_chars(line, 6, line.len()));
        self.pos = p + 1;
        let value = if v.len() == 0 {
            None
        } else {
            Some(chars_to_string(&v))
        };
        Ok(Some(Statement::Return { value }))
    }

    /// `BREAK [condition]` at the current line.
    fn parse_break(&mut self) -> (r: Result<Option<Statement>, Fail>)
        requires
            old(self).wf(),
            old(self).pos < old(self).lines@.len(),
        ensures
            final(self).wf(),
            stmt_out(r, break_spec(old(self).script(), old(self).at()), final(self).script(), final(self).at()),
    {
        proof {
            reveal(break_spec);
        }
        let p = self.pos;
        assert(self.lines@[p as int]@ == self.script()[p as int]);
        let line = &self.lines[p];
        if line.len() < 5 {
            return Err(Fail::Abort);
        }
        let b = trim_chars(&sub_chars(line, 5, line.len()));
        let condition = if b.len() == 0 {
            None
        } else {
            Some(parse_condition(&b))
        };
        self.pos = p + 1;
        Ok(Some(Statement::Break { condition }))
    }
}

} // verus!

verus! {

/// The pieces of `v` that are not empty, as strings.
fn nonempty_strings(v: &Vec<Vec<char>>) -> (r: Vec<String>)
    ensures
        strings_view(r@) == drop_empty(v@.map_values(|x: Vec<char>| x@)),
{
    let ghost s = v@.map_values(|x: Vec<char>| x@);
    let mut r: Vec<String> = Vec::new();
    let mut i: usize = 0;
    assert(s.subrange(0, 0) =~= seq![]);
    assert(strings_view(r@) =~= seq![]);
    while i < v.len()
        invariant
            i <= v@.len(),
            s == v@.map_values(|x: Vec<char>| x@),
            strings_view(r@) == drop_empty(s.subrange(0, i as int)),
        decreases v@.len() - i,
    {
        assert(s.subrange(0, i + 1).drop_last() =~= s.subrange(0, i as int));
        assert(s.subrange(0, i + 1).last() == v@[i as int]@);
        if v[i].len() > 0 {
            let ghost before = r@;
            r.push(chars_to_string(&v[i]));
            proof {
                lemma_strings_view_push(before, r@.last());
                assert(r@ == before.push(r@.last()));
            }
        }
        i = i + 1;
    }
    assert(s.subrange(0, v@.len() as int) =~= s);
    r
}

/// Each piece of `v`, trimmed.
fn trim_all(v: &Vec<Vec<char>>) -> (r: Vec<Vec<char>>)
    ensures
        r@.map_values(|x: Vec<char>| x@) == v@.map_values(|x: Vec<char>| x@).map_values(
            |x: Seq<char>| trim(x),
        ),
{
    let mut r: Vec<Vec<char>> = Vec::new();
    let mut i: usize = 0;
    while i < v.len()
        invariant
            i <= v@.len(),
            r@.len() == i,
            forall|j: int| 0 <= j < i ==> (#[trigger] r@[j])@ == trim(v@[j]@),
        decreases v@.len() - i,
    {
        r.push(trim_chars(&v[i]));
        i = i + 1;
    }
    assert(r@.map_values(|x: Vec<char>| x@) =~= v@.map_values(|x: Vec<char>| x@).map_values(
        |x: Seq<char>| trim(x),
    ));
    r
}

impl ControlFlowParser {
    /// The steps of a braced `CHAIN` block from the current line on, after `steps`.
    fn chain_block_exec(&mut self, init: Vec<String>) -> (r: Result<Vec<String>, Fail>)
        requires
            old(self).wf(),
            old(self).pos <= old(self).lines@.len(),
        ensures
            final(self).wf(),
            r is Ok ==> final(self).lines@.len() == old(self).lines@.len(),
            texts_out(
                r,
                chain_block(old(self).script(), old(self).at(), strings_view(init@)),
                final(self).script(),
                final(self).at(),
            ),
    {
        let ghost l = self.script();
        let ghost target = chain_block(l, self.pos as int, strings_view(init@));
        let mut steps = init;
        let n = self.lines.len();
        let mut q = self.pos;
        loop
            invariant
                n == self.lines@.len(),
                n == old(self).lines@.len(),
                l == self.script(),
                self.wf(),
                q <= n,
                chain_block(l, q as int, strings_view(steps@)) == target,
                target == chain_block(old(self).script(), old(self).at(), strings_view(init@)),
            decreases n - q,
        {
            if q >= n {
                return Err(msg("Expected matching '}' for CHAIN block"));
            }
            assert(self.lines@[q as int]@ == l[q as int]);
            let t = trim_chars(&self.lines[q]);
            if is_text(&t, "}") {
                self.pos = q + 1;
                return Ok(steps);
            }
            if has_prefix(&t, "}") {
                proof {
                    reveal_strlit("}");
                }
                let r = trim_chars(&sub_chars(&t, 1, t.len()));
                if r.len() > 0 {
                    let ghost rv = r@;
                    self.lines.set(q, r);
                    self.pos = q;
                    assert(self.script() =~= l.update(q as int, rv));
                } else {
                    self.pos = q + 1;
                }
                return Ok(steps);
            }
            if t.len() > 0 {
                let ghost before = steps@;
                steps.push(chars_to_string(&self.lines[q]));
                proof {
                    lemma_strings_view_push(before, steps@.last());
                    assert(steps@ == before.push(steps@.last()));
                }
            }
            q = q + 1;
        }
    }

    /// The steps of a `CHAIN` block from the current line on, up to `ENDCHAIN`.
    fn chain_lines_exec(&mut self) -> (r: Result<Vec<String>, Fail>)
        requires
            old(self).wf(),
            old(self).pos <= old(self).lines@.len(),
        ensures
            final(self).wf(),
            r is Ok ==> final(self).lines@.len() == old(self).lines@.len(),
            texts_out(
                r,
                chain_lines(old(self).script(), old(self).at(), seq![]),
                final(self).script(),
                final(self).at(),
            ),
    {
        let ghost l = self.script();
        let ghost target = chain_lines(l, self.pos as int, seq![]);
        let mut steps: Vec<String> = Vec::new();
        assert(strings_view(steps@) =~= seq![]);
        let n = self.lines.len();
        let mut q = self.pos;
        loop
            invariant
                n == self.lines@.len(),
                n == old(self).lines@.len(),
                l == self.script(),
                self.wf(),
                q <= n,
                chain_lines(l, q as int, strings_view(steps@)) == target,
                target == chain_lines(old(self).script(), old(self).at(), seq![]),
            decreases n - q,
        {
            if q >= n {
                return Err(msg("Expected ENDCHAIN to terminate CHAIN block"));
            }
            assert(self.lines@[q as int]@ == l[q as int]);
            let t = trim_chars(&self.lines[q]);
            if is_text(&upper_vec(&t), "ENDCHAIN") {
                self.pos = q + 1;
                return Ok(steps);
            }
            if t.len() > 0 {
                let ghost before = steps@;
                steps.push(chars_to_string(&self.lines[q]));
                proof {
                    lemma_strings_view_push(before, steps@.last());
                    assert(steps@ == before.push(steps@.last()));
                }
            }
            q = q + 1;
        }
    }

    /// `CHAIN` with its steps, at the current line.
    fn parse_chain(&mut self) -> (r: Result<Option<Statement>, Fail>)
        requires
            old(self).wf(),
            old(self).pos < old(self).lines@.len(),
        ensures
            final(self).wf(),
            stmt_out(r, chain_spec(old(self).script(), old(self).at()), final(self).script(), final(self).at()),
    {
        proof {
            reveal(chain_spec);
        }
        let p = self.pos;
        let n = self.lines.len();
        let ghost l = self.script();
        assert(self.lines@[p as int]@ == l[p as int]);
        let t = trim_chars(&self.lines[p]);
        if t.len() < 5 {
            return Err(Fail::Abort);
        }
        let r = trim_chars(&sub_chars(&t, 5, t.len()));
        let res = if r.len() == 0 {
            if p + 1 < n && is_text(&trim_chars(&self.lines[p + 1]), "{") {
                assert(self.lines@[p + 1]@ == l[p + 1]);
                self.pos = p + 2;
                let v: Vec<String> = Vec::new();
                assert(strings_view(v@) =~= seq![]);
                self.chain_block_exec(v)
            } else {
                proof {
                    if p + 1 < n {
                        assert(self.lines@[p + 1]@ == l[p + 1]);
                    }
                }
                return Err(msg("Expected '{' after CHAIN"));
            }
        } else if is_text(&r, "{") {
            self.pos = p + 1;
            let v: Vec<String> = Vec::new();
            assert(strings_view(v@) =~= seq![]);
            self.chain_block_exec(v)
        } else if has_prefix(&r, "{") {
            proof {
                reveal_strlit("{");
            }
            let after = trim_chars(&sub_chars(&r, 1, r.len()));
            if ends_with(&after, '}') {
                let body = trim_chars(&sub_chars(&after, 0, after.len() - 1));
                let sl = script_lines(&body);
                let steps = nonempty_strings(&sl);
                assert(strings_view(steps@) == drop_empty(lines_of(body@)));
                self.pos = p + 1;
                return Ok(Some(Statement::Chain { steps }));
            } else {
                let mut first: Vec<String> = Vec::new();
                if after.len() > 0 {
                    first.push(chars_to_string(&after));
                }
                assert(strings_view(first@) =~= (if after@.len() > 0 { seq![after@] } else { seq![] }));
                self.pos = p + 1;
                self.chain_block_exec(first)
            }
        } else {
            self.pos = p + 1;
            self.chain_lines_exec()
        };
        match res {
            Ok(steps) => Ok(Some(Statement::Chain { steps })),
            Err(e) => Err(e),
        }
    }
}

} // verus!

verus! {

// ---------------------------------------------------------------------------
// Statements and blocks
// ---------------------------------------------------------------------------

/// `r` is what `s` describes for the branches of an `IF`, the parser being left at `(l2, p2)`.
spec fn branches_out(
    r: Result<(Vec<(String, Vec<Statement>)>, Option<Vec<Statement>>), Fail>,
    s: Res<(Seq<(Seq<char>, Seq<Stmt>)>, Option<Seq<Stmt>>)>,
    l2: Seq<Seq<char>>,
    p2: int,
) -> bool {
    match r {
        Ok((b, df)) => s matches Res::Done((db, dd), sl, sp) && branches_match(b@, db)
            && opt_block_matches(df, dd) && sl == l2 && sp == p2,
        Err(e) => fails_as(e, s),
    }
}

proof fn lemma_elifs_push(
    v: Seq<(Condition, Vec<Statement>)>,
    ds: Seq<(Cond, Seq<Stmt>)>,
    c: Condition,
    b: Vec<Statement>,
    dc: Cond,
    db: Seq<Stmt>,
)
    requires
        elifs_match(v, ds),
        cond_matches(c, dc),
        stmts_match(b@, db),
    ensures
        elifs_match(v.push((c, b)), ds.push((dc, db))),
{
    assert forall|i: int| 0 <= i < ds.push((dc, db)).len() implies cond_matches(
        #[trigger] v.push((c, b))[i].0,
        ds.push((dc, db))[i].0,
    ) && stmts_match(v.push((c, b))[i].1@, ds.push((dc, db))[i].1) by {
        if i < ds.len() {
            assert(v.push((c, b))[i] == v[i]);
        }
    }
}

proof fn lemma_branches_push(
    v: Seq<(String, Vec<Statement>)>,
    ds: Seq<(Seq<char>, Seq<Stmt>)>,
    s: String,
    b: Vec<Statement>,
    db: Seq<Stmt>,
)
    requires
        branches_match(v, ds),
        stmts_match(b@, db),
    ensures
        branches_match(v.push((s, b)), ds.push((s@, db))),
{
    assert forall|i: int| 0 <= i < ds.push((s@, db)).len() implies (#[trigger] v.push((s, b))[i]).0@
        == ds.push((s@, db))[i].0 && stmts_match(v.push((s, b))[i].1@, ds.push((s@, db))[i].1) by {
        if i < ds.len() {
            assert(v.push((s, b))[i] == v[i]);
        }
    }
}

fn ends1(a: &str) -> (r: Vec<Vec<char>>)
    ensures
        r@.map_values(|v: Vec<char>| v@) == seq![a@],
{
    let mut r: Vec<Vec<char>> = Vec::new();
    r.push(str_chars(a));
    assert(r@.map_values(|v: Vec<char>| v@) =~= seq![a@]);
    r
}

fn ends2(a: &str, b: &str) -> (r: Vec<Vec<char>>)
    ensures
        r@.map_values(|v: Vec<char>| v@) == seq![a@, b@],
{
    let mut r: Vec<Vec<char>> = Vec::new();
    r.push(str_chars(a));
    r.push(str_chars(b));
    assert(r@.map_values(|v: Vec<char>| v@) =~= seq![a@, b@]);
    r
}

fn if_ends_exec() -> (r: Vec<Vec<char>>)
    ensures
        r@.map_values(|v: Vec<char>| v@) == if_ends(),
{
    let mut r: Vec<Vec<char>> = Vec::new();
    r.push(str_chars("ELIF"));
    r.push(str_chars("ELSE"));
    r.push(str_chars("ENDIF"));
    assert(r@.map_values(|v: Vec<char>| v@) =~= if_ends());
    r
}

/// Whether `u` starts with one of `ends`.
fn any_prefix_exec(u: &Vec<char>, ends: &Vec<Vec<char>>) -> (b: bool)
    ensures
        b == any_prefix(u@, ends@.map_values(|v: Vec<char>| v@)),
{
    let ghost e = ends@.map_values(|v: Vec<char>| v@);
    let mut i: usize = 0;
    while i < ends.len()
        invariant
            i <= ends@.len(),
            e == ends@.map_values(|v: Vec<char>| v@),
            forall|j: int| 0 <= j < i ==> !starts_with(u@, #[trigger] e[j]),
        decreases ends@.len() - i,
    {
        assert(e[i as int] == ends@[i as int]@);
        if starts_with_chars(u, &ends[i]) {
            return true;
        }
        i = i + 1;
    }
    false
}

/// The texts from `i` on joined by `", "`.
fn join_from(ends: &Vec<Vec<char>>, i: usize) -> (r: Vec<char>)
    requires
        i <= ends@.len(),
    ensures
        r@ == join_comma(ends@.map_values(|v: Vec<char>| v@).subrange(i as int, ends@.len() as int)),
    decreases ends@.len() - i,
{
    let ghost e = ends@.map_values(|v: Vec<char>| v@).subrange(i as int, ends@.len() as int);
    if i >= ends.len() {
        return Vec::new();
    }
    assert(e[0] == ends@[i as int]@);
    if i + 1 == ends.len() {
        return sub_chars(&ends[i], 0, ends[i].len());
    }
    let mut r = sub_chars(&ends[i], 0, ends[i].len());
    push_all(&mut r, &str_chars(", "));
    let rest = join_from(ends, i + 1);
    assert(e.drop_first() =~= ends@.map_values(|v: Vec<char>| v@).subrange(i + 1, ends@.len() as int));
    push_all(&mut r, &rest);
    r
}

impl ControlFlowParser {
    /// The statement at the current line (see `stmt_spec`).
    #[verifier::spinoff_prover]
    #[verifier::rlimit(40)]
    fn stmt(&mut self) -> (r: Result<Option<Statement>, Fail>)
        requires
            old(self).wf(),
            old(self).pos < old(self).lines@.len(),
        ensures
            final(self).wf(),
            stmt_out(r, stmt_spec(old(self).script(), old(self).at()), final(self).script(), final(self).at()),
        decreases rem(old(self).script(), old(self).at()), cl(old(self).script(), old(self).at()), 3nat,
    {
        proof {
            reveal(stmt_spec);
        }
        let p = self.pos;
        assert(self.lines@[p as int]@ == self.script()[p as int]);
        if self.lines[p].len() == 0 {
            self.pos = p + 1;
            return Ok(None);
        }
        let line = strip_inline_comment(&self.lines[p]);
        let u = upper_vec(&line);
        let tl = trim_chars(&line);
        if tl.len() == 0 || has_prefix(&tl, "//") || has_prefix(&u, "#") {
            self.pos = p + 1;
            return Ok(None);
        }
        if has_prefix(&u, "IF ") {
            self.parse_if()
        } else if has_prefix(&u, "WHILE ") {
            self.parse_while()
        } else if has_prefix(&u, "FOREACH ") {
            self.parse_foreach()
        } else if has_prefix(&u, "FOR ") {
            self.parse_for()
        } else if has_prefix(&u, "LOOP") {
            self.parse_loop()
        } else if has_prefix(&u, "BREAK") {
            self.parse_break()
        } else if has_prefix(&u, "CONTINUE") {
            self.pos = p + 1;
            assert(stmt_matches(Statement::Continue, Stmt::Continue));
            Ok(Some(Statement::Continue))
        } else if has_prefix(&u, "RETURN") {
            self.parse_return()
        } else if has_prefix(&u, "TRY") {
            self.parse_try()
        } else if has_prefix(&u, "STRUCT ") {
            self.parse_items(false)
        } else if has_prefix(&u, "ENUM ") {
            self.parse_items(true)
        } else if has_prefix(&u, "SCAN") {
            self.parse_scan()
        } else if has_prefix(&u, "SWITCH") {
            self.parse_switch()
        } else if has_prefix(&u, "CHAIN") {
            self.parse_chain()
        } else if has_prefix(&u, "FUNCTION ") || has_prefix(&u, "FN ") {
            self.parse_function()
        } else if has_prefix(&u, "LET ") {
            self.parse_let()
        } else {
            match self.parse_assignment(&line) {
                Ok(Some(s)) => Ok(Some(s)),
                Ok(None) => {
                    self.pos = p + 1;
                    if has_prefix(&u, "@") {
                        Ok(None)
                    } else {
                        let st = Statement::Command(chars_to_string(&line));
                        assert(stmt_matches(st, Stmt::Command(line@)));
                        Ok(Some(st))
                    }
                },
                Err(e) => Err(e),
            }
        }
    }

    /// The statements from the current line to the end of the script.
    fn parse_all_exec(&mut self) -> (r: Result<Vec<Statement>, Fail>)
        requires
            old(self).wf(),
        ensures
            final(self).wf(),
            r is Ok ==> final(self).lines@.len() == old(self).lines@.len(),
            block_out(r, parse_all(old(self).script(), old(self).at(), seq![]), final(self).script(), final(self).at()),
        decreases rem(old(self).script(), old(self).at()), cl(old(self).script(), old(self).at()), 4nat,
    {
        proof {
            reveal(parse_all);
        }
        let ghost l0 = self.script();
        let ghost p0 = self.at();
        let n = self.lines.len();
        let mut acc: Vec<Statement> = Vec::new();
        let ghost mut dacc: Seq<Stmt> = seq![];
        loop
            invariant
                self.wf(),
                n == self.lines@.len(),
                l0 == old(self).script(),
                p0 == old(self).at(),
                self.script().len() == l0.len(),
                parse_all(self.script(), self.at(), dacc) == parse_all(l0, p0, seq![]),
                stmts_match(acc@, dacc),
                rem(self.script(), self.at()) < rem(l0, p0) || (self.script() == l0 && self.at() == p0),
            decreases rem(self.script(), self.at()),
        {
            if self.pos >= n {
                return Ok(acc);
            }
            let p = self.pos;
            let ghost lc = self.script();
            proof {
                lemma_parse_all_step(lc, p as int, dacc);
            }
            match self.stmt() {
                Ok(o) => {
                    if self.pos <= p || self.lines.len() != n {
                        return Err(Fail::Abort);
                    }
                    let ghost d = stmt_spec(lc, p as int)->Done_0;
                    proof {
                        lemma_stmts_push_opt(acc@, dacc, o, d);
                        dacc = push_opt(dacc, d);
                    }
                    match o {
                        Some(s) => acc.push(s),
                        None => {},
                    }
                },
                Err(e) => {
                    return Err(e);
                },
            }
        }
    }

    /// The statements from the current line up to a line that starts with one of `ends`.
    fn block_until_exec(&mut self, ends: &Vec<Vec<char>>) -> (r: Result<Vec<Statement>, Fail>)
        requires
            old(self).wf(),
        ensures
            final(self).wf(),
            r is Ok ==> final(self).lines@.len() == old(self).lines@.len(),
            block_out(
                r,
                block_until(old(self).script(), old(self).at(), ends@.map_values(|v: Vec<char>| v@), seq![]),
                final(self).script(),
                final(self).at(),
            ),
            r is Ok ==> final(self).pos < final(self).lines@.len(),
        decreases rem(old(self).script(), old(self).at()), cl(old(self).script(), old(self).at()), 4nat,
    {
        proof {
            reveal(block_until);
        }
        let ghost l0 = self.script();
        let ghost p0 = self.at();
        let ghost e = ends@.map_values(|v: Vec<char>| v@);
        let n = self.lines.len();
        let mut acc: Vec<Statement> = Vec::new();
        let ghost mut dacc: Seq<Stmt> = seq![];
        loop
            invariant
                self.wf(),
                n == self.lines@.len(),
                l0 == old(self).script(),
                p0 == old(self).at(),
                e == ends@.map_values(|v: Vec<char>| v@),
                self.script().len() == l0.len(),
                block_until(self.script(), self.at(), e, dacc) == block_until(l0, p0, e, seq![]),
                stmts_match(acc@, dacc),
                rem(self.script(), self.at()) < rem(l0, p0) || (self.script() == l0 && self.at() == p0),
            decreases rem(self.script(), self.at()),
        {
            if self.pos >= n {
                let mut m = str_chars("Expected one of: ");
                let j = join_from(ends, 0);
                assert(e.subrange(0, e.len() as int) =~= e);
                push_all(&mut m, &j);
                return Err(Fail::Msg(chars_to_string(&m)));
            }
            let p = self.pos;
            assert(self.lines@[p as int]@ == self.script()[p as int]);
            if any_prefix_exec(&upper_vec(&self.lines[p]), ends) {
                return Ok(acc);
            }
            let ghost lc = self.script();
            proof {
                lemma_block_until_step(lc, p as int, e, dacc);
            }
            match self.stmt() {
                Ok(o) => {
                    if self.pos <= p || self.lines.len() != n {
                        return Err(Fail::Abort);
                    }
                    let ghost d = stmt_spec(lc, p as int)->Done_0;
                    proof {
                        lemma_stmts_push_opt(acc@, dacc, o, d);
                        dacc = push_opt(dacc, d);
                    }
                    match o {
                        Some(s) => acc.push(s),
                        None => {},
                    }
                },
                Err(e) => {
                    return Err(e);
                },
            }
        }
    }

    /// The statements of a braced block from the current line on (see `block_brace`).
    fn block_brace_exec(&mut self) -> (r: Result<Vec<Statement>, Fail>)
        requires
            old(self).wf(),
        ensures
            final(self).wf(),
            r is Ok ==> final(self).lines@.len() == old(self).lines@.len(),
            block_out(r, block_brace(old(self).script(), old(self).at(), 1, seq![]), final(self).script(), final(self).at()),
        decreases rem(old(self).script(), old(self).at()), cl(old(self).script(), old(self).at()), 4nat,
    {
        proof {
            reveal(block_brace);
        }
        let ghost l0 = self.script();
        let ghost p0 = self.at();
        let n = self.lines.len();
        let mut depth: usize = 1;
        let mut acc: Vec<Statement> = Vec::new();
        let ghost mut dacc: Seq<Stmt> = seq![];
        loop
            invariant
                self.wf(),
                n == self.lines@.len(),
                l0 == old(self).script(),
                p0 == old(self).at(),
                self.script().len() == l0.len(),
                depth >= 1,
                block_brace(self.script(), self.at(), depth as nat, dacc) == block_brace(l0, p0, 1, seq![]),
                stmts_match(acc@, dacc),
                rem(self.script(), self.at()) < rem(l0, p0) || (rem(self.script(), self.at()) == rem(
                    l0,
                    p0,
                ) && cl(self.script(), self.at()) <= cl(l0, p0)),
            decreases rem(self.script(), self.at()), cl(self.script(), self.at()),
        {
            if self.pos >= n {
                return Err(msg("Expected matching }"));
            }
            let p = self.pos;
            let ghost lc = self.script();
            assert(self.lines@[p as int]@ == lc[p as int]);
            let t = trim_chars(&self.lines[p]);
            if is_text(&t, "}") {
                self.pos = p + 1;
                if depth <= 1 {
                    return Ok(acc);
                }
                depth = depth - 1;
            } else if has_prefix(&t, "}") {
                let tn = t.len();
                let mut k: usize = 0;
                while k < tn && t[k] == '}'
                    invariant
                        tn == t@.len(),
                        k <= tn,
                        lead_count(t@, '}', k as nat) == lead_count(t@, '}', 0),
                    decreases tn - k,
                {
                    k = k + 1;
                }
                let r = trim_chars(&sub_chars(&t, k, tn));
                let d2: usize = if depth >= k {
                    depth - k
                } else {
                    0
                };
                let lower = lower_vec(&r);
                let stop = has_prefix(&lower, "catch") || has_prefix(&lower, "else") || has_prefix(
                    &lower,
                    "elif",
                ) || d2 == 0;
                let rl = r.len();
                let ol = self.lines[p].len();
                let ghost rv = r@;
                self.lines.set(p, r);
                assert(self.script() =~= lc.update(p as int, rv));
                if stop {
                    return Ok(acc);
                }
                if rl >= ol {
                    return Err(Fail::Abort);
                }
                depth = d2;
            } else {
                proof {
                    lemma_block_brace_step(lc, p as int, depth as nat, dacc);
                }
                match self.stmt() {
                    Ok(o) => {
                        if self.pos <= p || self.lines.len() != n {
                            return Err(Fail::Abort);
                        }
                        let ghost d = stmt_spec(lc, p as int)->Done_0;
                        proof {
                            lemma_stmts_push_opt(acc@, dacc, o, d);
                            dacc = push_opt(dacc, d);
                        }
                        match o {
                            Some(s) => acc.push(s),
                            None => {},
                        }
                    },
                    Err(e) => {
                        return Err(e);
                    },
                }
            }
        }
    }

    /// A body from the current line: braced, or up to a line that starts with `end`.
    fn body_exec(&mut self, brace: bool, end: &str) -> (r: Result<Vec<Statement>, Fail>)
        requires
            old(self).wf(),
        ensures
            final(self).wf(),
            r is Ok ==> final(self).lines@.len() == old(self).lines@.len(),
            block_out(r, body_spec(old(self).script(), old(self).at(), brace, end@), final(self).script(), final(self).at()),
        decreases rem(old(self).script(), old(self).at()), cl(old(self).script(), old(self).at()), 5nat,
    {
        proof {
            reveal(body_spec);
        }
        if brace {
            self.block_brace_exec()
        } else {
            let r = self.block_until_exec(&ends1(end));
            match r {
                Ok(b) => {
                    self.pos = self.pos + 1;
                    Ok(b)
                },
                Err(e) => Err(e),
            }
        }
    }
}

} // verus!

verus! {

impl ControlFlowParser {
    /// `IF condition` with its blocks, at the current line.
    #[verifier::rlimit(60)]
    fn parse_if(&mut self) -> (r: Result<Option<Statement>, Fail>)
        requires
            old(self).wf(),
            old(self).pos < old(self).lines@.len(),
        ensures
            final(self).wf(),
            stmt_out(r, if_spec(old(self).script(), old(self).at()), final(self).script(), final(self).at()),
        decreases rem(old(self).script(), old(self).at()), cl(old(self).script(), old(self).at()), 2nat,
    {
        proof {
            reveal(if_tail);
            reveal(if_spec);
        }
        let p = self.pos;
        let n = self.lines.len();
        let ghost l = self.script();
        assert(self.lines@[p as int]@ == l[p as int]);
        if self.lines[p].len() < 3 {
            return Err(Fail::Abort);
        }
        let c0 = trim_chars(&sub_chars(&self.lines[p], 3, self.lines[p].len()));
        let brace = ends_with(&c0, '{');
        let cs = if brace {
            strip_colon_exec(&strip_brace_exec(&c0))
        } else {
            strip_colon_exec(&c0)
        };
        let condition = parse_condition(&cs);
        self.pos = p + 1;
        let blk = if brace {
            self.block_brace_exec()
        } else {
            self.block_until_exec(&if_ends_exec())
        };
        let then_block = match blk {
            Ok(b) => b,
            Err(e) => {
                return Err(e);
            },
        };
        if self.pos <= p || self.lines.len() != n {
            return Err(Fail::Abort);
        }
        let ghost l2 = self.script();
        let ghost p2 = self.at();
        let ghost target = if_tail(l2, p2, brace, seq![]);
        let ghost dtb = (if brace {
            block_brace(l, p + 1, 1, seq![])
        } else {
            block_until(l, p + 1, if_ends(), seq![])
        })->Done_0;
        assert(if_spec(l, p as int) == if_wrap(cond_spec(cs@), dtb, target));
        let mut elif_blocks: Vec<(Condition, Vec<Statement>)> = Vec::new();
        let mut else_block: Option<Vec<Statement>> = None;
        let ghost mut delifs: Seq<(Cond, Seq<Stmt>)> = seq![];
        let ghost mut dels: Option<Seq<Stmt>> = None;
        loop
            invariant_except_break
                if_tail(self.script(), self.at(), brace, delifs) == target,
                dels is None,
                else_block is None,
                p < self.pos,
            invariant
                self.wf(),
                n == self.lines@.len(),
                l == old(self).script(),
                p == old(self).at(),
                if_spec(old(self).script(), old(self).at()) == if_wrap(cond_spec(cs@), dtb, target),
                self.script().len() == l.len(),
                elifs_match(elif_blocks@, delifs),
            ensures
                self.wf(),
                self.script().len() == l.len(),
                target == Res::Done((delifs, dels), self.script(), self.at()),
                opt_block_matches(else_block, dels),
                elifs_match(elif_blocks@, delifs),
            decreases rem(self.script(), self.at()),
        {
            let q = self.pos;
            let ghost lc = self.script();
            if q >= n {
                if brace {
                    break;
                }
                return Err(msg("Expected ENDIF"));
            }
            assert(self.lines@[q as int]@ == lc[q as int]);
            if brace {
                let t0 = trim_chars(&self.lines[q]);
                let t = if has_prefix(&t0, "}") {
                    proof {
                        reveal_strlit("}");
                    }
                    trim_start_chars(&sub_chars(&t0, 1, t0.len()))
                } else {
                    t0
                };
                if has_prefix(&t, "else if") || has_prefix(&t, "ELSE IF") || has_prefix(&t, "elif")
                    || has_prefix(&t, "ELIF") {
                    let m: usize = if has_prefix(&t, "else if") {
                        7
                    } else if has_prefix(&t, "ELSE IF") {
                        8
                    } else {
                        4
                    };
                    if t.len() < m {
                        return Err(Fail::Abort);
                    }
                    let r0 = trim_chars(&sub_chars(&t, m, t.len()));
                    let cs = if ends_with(&r0, '{') {
                        strip_brace_exec(&r0)
                    } else {
                        r0
                    };
                    let c = parse_condition(&cs);
                    self.pos = q + 1;
                    match self.block_brace_exec() {
                        Ok(b) => {
                            if self.pos <= q || self.lines.len() != n {
                                return Err(Fail::Abort);
                            }
                            let ghost db = block_brace(lc, q + 1, 1, seq![])->Done_0;
                            proof {
                                lemma_elifs_push(elif_blocks@, delifs, c, b, cond_spec(cs@), db);
                                delifs = delifs.push((cond_spec(cs@), db));
                            }
                            elif_blocks.push((c, b));
                        },
                        Err(e) => {
                            return Err(e);
                        },
                    }
                } else if has_prefix(&t, "else") {
                    proof {
                        reveal_strlit("else");
                    }
                    let rest = trim_chars(&sub_chars(&t, 4, t.len()));
                    let next_open = q + 1 < n && is_text(&trim_chars(&self.lines[q + 1]), "{");
                    proof {
                        if q + 1 < n {
                            assert(self.lines@[q + 1]@ == lc[q + 1]);
                        }
                    }
                    if is_text(&rest, "{") || (rest.len() == 0 && next_open) {
                        let qs: usize = if rest.len() == 0 && next_open {
                            q + 2
                        } else {
                            q + 1
                        };
                        self.pos = qs;
                        match self.block_brace_exec() {
                            Ok(b) => {
                                proof {
                                    dels = Some(block_brace(lc, qs as int, 1, seq![])->Done_0);
                                }
                                else_block = Some(b);
                                break;
                            },
                            Err(e) => {
                                return Err(e);
                            },
                        }
                    } else {
                        return Err(msg("Expected '{' after else"));
                    }
                } else {
                    break;
                }
            } else {
                let u = upper_vec(&self.lines[q]);
                if has_prefix(&u, "ELIF ") {
                    let ln = self.lines[q].len();
                    proof {
                        reveal_strlit("ELIF ");
                    }
                    let c0 = trim_chars(&part_chars(&self.lines[q], 5, ln));
                    let eb = ends_with(&c0, '{');
                    let cs = if eb {
                        strip_colon_exec(&strip_brace_exec(&c0))
                    } else {
                        strip_colon_exec(&c0)
                    };
                    let c = parse_condition(&cs);
                    self.pos = q + 1;
                    let blk = if eb {
                        self.block_brace_exec()
                    } else {
                        self.block_until_exec(&if_ends_exec())
                    };
                    match blk {
                        Ok(b) => {
                            if self.pos <= q || self.lines.len() != n {
                                return Err(Fail::Abort);
                            }
                            let ghost db = if eb {
                                block_brace(lc, q + 1, 1, seq![])->Done_0
                            } else {
                                block_until(lc, q + 1, if_ends(), seq![])->Done_0
                            };
                            proof {
                                lemma_elifs_push(elif_blocks@, delifs, c, b, cond_spec(cs@), db);
                                delifs = delifs.push((cond_spec(cs@), db));
                            }
                            elif_blocks.push((c, b));
                        },
                        Err(e) => {
                            return Err(e);
                        },
                    }
                } else if has_prefix(&u, "ELSE") {
                    let eb = if q + 1 < n {
                        assert(self.lines@[q + 1]@ == lc[q + 1]);
                        ends_with(&trim_chars(&self.lines[q + 1]), '{')
                    } else {
                        ends_with(&trim_chars(&self.lines[q]), '{')
                    };
                    let blk = if eb {
                        if q + 1 >= n {
                            return Err(msg("Expected matching }"));
                        }
                        self.pos = q + 2;
                        self.block_brace_exec()
                    } else {
                        self.pos = q + 1;
                        self.block_until_exec(&ends1("ENDIF"))
                    };
                    match blk {
                        Ok(b) => {
                            if !eb {
                                self.pos = self.pos + 1;
                            }
                            proof {
                                dels = Some(
                                    if eb {
                                        block_brace(lc, q + 2, 1, seq![])->Done_0
                                    } else {
                                        block_until(lc, q + 1, seq!["ENDIF"@], seq![])->Done_0
                                    },
                                );
                            }
                            else_block = Some(b);
                            break;
                        },
                        Err(e) => {
                            return Err(e);
                        },
                    }
                } else if has_prefix(&u, "ENDIF") {
                    self.pos = q + 1;
                    break;
                } else {
                    return Err(msg("Unexpected token in IF statement"));
                }
            }
        }
        Ok(Some(Statement::If { condition, then_block, elif_blocks, else_block }))
    }
}

} // verus!

verus! {

impl ControlFlowParser {
    /// `WHILE condition` with its body, at the current line.
    fn parse_while(&mut self) -> (r: Result<Option<Statement>, Fail>)
        requires
            old(self).wf(),
            old(self).pos < old(self).lines@.len(),
        ensures
            final(self).wf(),
            stmt_out(r, while_spec(old(self).script(), old(self).at()), final(self).script(), final(self).at()),
        decreases rem(old(self).script(), old(self).at()), cl(old(self).script(), old(self).at()), 2nat,
    {
        proof {
            reveal(while_spec);
        }
        let p = self.pos;
        assert(self.lines@[p as int]@ == self.script()[p as int]);
        if self.lines[p].len() < 6 {
            return Err(Fail::Abort);
        }
        let c0 = trim_chars(&sub_chars(&self.lines[p], 6, self.lines[p].len()));
        let brace = ends_with(&c0, '{');
        let cs = if brace {
            strip_colon_exec(&strip_brace_exec(&c0))
        } else {
            strip_colon_exec(&c0)
        };
        let condition = parse_condition(&cs);
        self.pos = p + 1;
        match self.body_exec(brace, "ENDWHILE") {
            Ok(body) => Ok(Some(Statement::While { condition, body })),
            Err(e) => Err(e),
        }
    }

    /// `FOREACH var IN iterable` with its body, at the current line.
    fn parse_foreach(&mut self) -> (r: Result<Option<Statement>, Fail>)
        requires
            old(self).wf(),
            old(self).pos < old(self).lines@.len(),
        ensures
            final(self).wf(),
            stmt_out(r, foreach_spec(old(self).script(), old(self).at()), final(self).script(), final(self).at()),
        decreases rem(old(self).script(), old(self).at()), cl(old(self).script(), old(self).at()), 2nat,
    {
        proof {
            reveal(foreach_spec);
        }
        let p = self.pos;
        assert(self.lines@[p as int]@ == self.script()[p as int]);
        if self.lines[p].len() < 7 {
            return Err(Fail::Abort);
        }
        let f = strip_colon_exec(&trim_chars(&sub_chars(&self.lines[p], 7, self.lines[p].len())));
        let fu = upper_vec(&f);
        proof {
            reveal_strlit(" IN ");
            lemma_find_seq(fu@, " IN "@);
        }
        match find_chars(&fu, &str_chars(" IN ")) {
            None => Err(msg("FOREACH syntax: FOREACH var IN iterable")),
            Some(k) => {
                let fl = f.len();
                let ful = fu.len();
                assert(k + 4 <= ful);
                let var = trim_chars(&part_chars(&f, 0, k));
                let it = strip_brace_exec(&trim_chars(&part_chars(&f, k + 4, fl)));
                let brace = ends_with(&trim_end_ws(&self.lines[p]), '{');
                self.pos = p + 1;
                match self.body_exec(brace, "ENDFOREACH") {
                    Ok(body) => Ok(
                        Some(
                            Statement::Foreach {
                                var: chars_to_string(&var),
                                iterable: chars_to_string(&it),
                                body,
                            },
                        ),
                    ),
                    Err(e) => Err(e),
                }
            },
        }
    }

    /// `FOR (init, condition, update)` or `FOR var IN items` with its body.
    #[verifier::rlimit(60)]
    fn parse_for(&mut self) -> (r: Result<Option<Statement>, Fail>)
        requires
            old(self).wf(),
            old(self).pos < old(self).lines@.len(),
        ensures
            final(self).wf(),
            stmt_out(r, for_spec(old(self).script(), old(self).at()), final(self).script(), final(self).at()),
        decreases rem(old(self).script(), old(self).at()), cl(old(self).script(), old(self).at()), 2nat,
    {
        proof {
            reveal(for_spec);
        }
        let p = self.pos;
        assert(self.lines@[p as int]@ == self.script()[p as int]);
        if self.lines[p].len() < 4 {
            return Err(Fail::Abort);
        }
        let f = strip_colon_exec(&trim_chars(&sub_chars(&self.lines[p], 4, self.lines[p].len())));
        if has_prefix(&f, "(") {
            proof {
                reveal_strlit("(");
            }
            match rfind(&f, ')') {
                None => Err(msg("Invalid FOR syntax")),
                Some(c) => {
                    proof {
                        lemma_rfind_char(f@, ')');
                        assert(f@.subrange(0, 1) == "("@);
                        assert(f@[0] == f@.subrange(0, 1)[0]);
                    }
                    let inner = trim_chars(&sub_chars(&f, 1, c));
                    let pieces = split_on(&inner, ',');
                    let parts = trim_all(&pieces);
                    let ghost sp = split_char(inner@, ',');
                    assert(pieces@.map_values(|v: Vec<char>| v@).len() == pieces@.len());
                    assert(parts@.map_values(|v: Vec<char>| v@).len() == parts@.len());
                    assert(parts@.len() == sp.len());
                    if parts.len() != 3 {
                        return Err(msg("FOR syntax: for(init, condition, update)"));
                    }
                    assert(parts@[0]@ == parts@.map_values(|v: Vec<char>| v@)[0]);
                    assert(parts@[1]@ == parts@.map_values(|v: Vec<char>| v@)[1]);
                    assert(parts@[2]@ == parts@.map_values(|v: Vec<char>| v@)[2]);
                    assert(pieces@.map_values(|v: Vec<char>| v@)[0] == pieces@[0]@);
                    assert(parts@[0]@ == trim(sp[0]) && parts@[1]@ == trim(sp[1]) && parts@[2]@ == trim(sp[2]));
                    let init = if parts[0].len() == 0 {
                        None
                    } else {
                        Some(chars_to_string(&parts[0]))
                    };
                    let condition = parse_condition(&parts[1]);
                    let update = if parts[2].len() == 0 {
                        None
                    } else {
                        Some(chars_to_string(&parts[2]))
                    };
                    self.pos = p + 1;
                    match self.body_exec(ends_with(&f, '{'), "ENDFOR") {
                        Ok(body) => Ok(Some(Statement::ForLoop { init, condition, update, body })),
                        Err(e) => Err(e),
                    }
                },
            }
        } else {
            let g = strip_brace_exec(&f);
            let gu = upper_vec(&g);
            proof {
                reveal_strlit(" IN ");
                lemma_find_seq(gu@, " IN "@);
            }
            match find_chars(&gu, &str_chars(" IN ")) {
                None => Err(msg("FOR syntax: FOR var IN item1 item2 ...")),
                Some(k) => {
                    let var = trim_chars(&part_chars(&g, 0, k));
                    let gl = g.len();
                    let gul = gu.len();
                    assert(k + 4 <= gul);
                    let words = split_whitespace(&trim_chars(&part_chars(&g, k + 4, gl)));
                    let items = to_strings(&words);
                    let brace = ends_with(&trim_end_ws(&self.lines[p]), '{');
                    self.pos = p + 1;
                    match self.body_exec(brace, "ENDFOR") {
                        Ok(body) => Ok(Some(Statement::For { var: chars_to_string(&var), items, body })),
                        Err(e) => Err(e),
                    }
                },
            }
        }
    }

    /// `LOOP [count N | interval N]` with its body, at the current line.
    #[verifier::rlimit(60)]
    fn parse_loop(&mut self) -> (r: Result<Option<Statement>, Fail>)
        requires
            old(self).wf(),
            old(self).pos < old(self).lines@.len(),
        ensures
            final(self).wf(),
            stmt_out(r, loop_spec(old(self).script(), old(self).at()), final(self).script(), final(self).at()),
        decreases rem(old(self).script(), old(self).at()), cl(old(self).script(), old(self).at()), 2nat,
    {
        proof {
            reveal(loop_spec);
        }
        let p = self.pos;
        assert(self.lines@[p as int]@ == self.script()[p as int]);
        let t = if self.lines[p].len() >= 5 {
            trim_chars(&sub_chars(&self.lines[p], 5, self.lines[p].len()))
        } else {
            Vec::new()
        };
        let brace = ends_with(&t, '{');
        let parts = if brace {
            split_whitespace(&strip_brace_exec(&t))
        } else {
            split_whitespace(&t)
        };
        let ghost pv = parts@.map_values(|v: Vec<char>| v@);
        let mut count: Option<u64> = None;
        let mut interval: Option<u64> = None;
        if parts.len() >= 2 {
            assert(pv[0] == parts@[0]@ && pv[1] == parts@[1]@);
            proof {
                reveal_strlit("count");
                reveal_strlit("interval");
            }
            if is_text(&parts[0], "count") {
                count = parse_u64(&parts[1]);
            } else if is_text(&parts[0], "interval") {
                interval = parse_u64(&parts[1]);
            } else {
                let mut m = str_chars("Invalid loop specifier: ");
                push_all(&mut m, &parts[0]);
                return Err(Fail::Msg(chars_to_string(&m)));
            }
        }
        assert(!(pv.len() >= 2 && pv[0] != "count"@ && pv[0] != "interval"@));
        self.pos = p + 1;
        match self.body_exec(brace, "ENDLOOP") {
            Ok(body) => Ok(Some(Statement::Loop { count, interval, body })),
            Err(e) => Err(e),
        }
    }

    /// `TRY` with its blocks, at the current line.
    #[verifier::rlimit(60)]
    fn parse_try(&mut self) -> (r: Result<Option<Statement>, Fail>)
        requires
            old(self).wf(),
            old(self).pos < old(self).lines@.len(),
        ensures
            final(self).wf(),
            stmt_out(r, try_spec(old(self).script(), old(self).at()), final(self).script(), final(self).at()),
        decreases rem(old(self).script(), old(self).at()), cl(old(self).script(), old(self).at()), 2nat,
    {
        proof {
            reveal(try_spec);
        }
        let p = self.pos;
        let n = self.lines.len();
        let ghost l = self.script();
        assert(self.lines@[p as int]@ == l[p as int]);
        let brace = ends_with(&trim_chars(&self.lines[p]), '{');
        self.pos = p + 1;
        let blk = if brace {
            self.block_brace_exec()
        } else {
            self.block_until_exec(&ends2("CATCH", "ENDTRY"))
        };
        let try_block = match blk {
            Ok(b) => b,
            Err(e) => {
                return Err(e);
            },
        };
        if self.pos <= p || self.lines.len() != n {
            return Err(Fail::Abort);
        }
        let q = self.pos;
        let ghost l2 = self.script();
        let mut catch_block: Option<Vec<Statement>> = None;
        if q < n {
            assert(self.lines@[q as int]@ == l2[q as int]);
        }
        if q < n && has_prefix(&upper_vec(&trim_chars(&self.lines[q])), "CATCH") {
            let cb = ends_with(&trim_chars(&self.lines[q]), '{');
            self.pos = q + 1;
            let b = if cb {
                self.block_brace_exec()
            } else {
                self.block_until_exec(&ends1("ENDTRY"))
            };
            match b {
                Ok(x) => {
                    catch_block = Some(x);
                },
                Err(e) => {
                    return Err(e);
                },
            }
        }
        let q3 = self.pos;
        let ghost l3 = self.script();
        if q3 < n {
            assert(self.lines@[q3 as int]@ == l3[q3 as int]);
        }
        if q3 < n && has_prefix(&upper_vec(&trim_chars(&self.lines[q3])), "ENDTRY") {
            self.pos = q3 + 1;
        } else if catch_block.is_none() {
            return Err(msg("Expected ENDTRY"));
        }
        Ok(Some(Statement::Try { try_block, catch_block }))
    }

    /// `FUNCTION name ...` or `FN name ...` with its body, at the current line.
    fn parse_function(&mut self) -> (r: Result<Option<Statement>, Fail>)
        requires
            old(self).wf(),
            old(self).pos < old(self).lines@.len(),
        ensures
            final(self).wf(),
            stmt_out(r, function_spec(old(self).script(), old(self).at()), final(self).script(), final(self).at()),
        decreases rem(old(self).script(), old(self).at()), cl(old(self).script(), old(self).at()), 2nat,
    {
        proof {
            reveal(function_spec);
        }
        let p = self.pos;
        let n = self.lines.len();
        let ghost l = self.script();
        assert(self.lines@[p as int]@ == l[p as int]);
        let t = trim_chars(&self.lines[p]);
        let u = upper_vec(&t);
        let long = has_prefix(&u, "FUNCTION ");
        if !(long || has_prefix(&u, "FN ")) {
            return Err(msg("FUNCTION syntax: FUNCTION name [arg1 arg2 ...] or FUNCTION name(params) {"));
        }
        proof {
            reveal_strlit("FUNCTION ");
            reveal_strlit("FN ");
        }
        let k: usize = if long {
            8
        } else {
            2
        };
        let r0 = trim_chars(&part_chars(&t, k, t.len()));
        let r1 = trim_end_ws(&strip_inline_comment(&r0));
        let brace = ends_with(&r1, '{');
        let r = if brace {
            trim_end_ws(&sub_chars(&r1, 0, r1.len() - 1))
        } else {
            r1
        };
        let (name, params) = match fn_header_exec(&r) {
            Ok(h) => h,
            Err(e) => {
                return Err(e);
            },
        };
        self.pos = p + 1;
        if brace {
            return match self.block_brace_exec() {
                Ok(body) => Ok(Some(Statement::FunctionDef { name, params, body })),
                Err(e) => Err(e),
            };
        }
        match self.block_until_exec(&ends2("ENDFUNCTION", "ENDFN")) {
            Ok(body) => {
                let q = self.pos;
                assert(self.lines@[q as int]@ == self.script()[q as int]);
                let uq = upper_vec(&self.lines[q]);
                if has_prefix(&uq, "ENDFUNCTION") || has_prefix(&uq, "ENDFN") {
                    self.pos = q + 1;
                    Ok(Some(Statement::FunctionDef { name, params, body }))
                } else {
                    Err(msg("Expected ENDFUNCTION"))
                }
            },
            Err(e) => Err(e),
        }
    }
}

/// The name and parameters of a function header (see `fn_header`).
fn fn_header_exec(r: &Vec<char>) -> (res: Result<(String, Vec<String>), Fail>)
    ensures
        match res {
            Ok((name, params)) => fn_header(r@) matches Res::Done((dn, dp), _, _) && name@ == dn
                && strings_view(params@) == dp,
            Err(e) => fails_as(e, fn_header(r@)),
        },
{
    proof {
        reveal(fn_header);
    }
    proof {
        lemma_find_seq(r@, "("@);
        reveal_strlit("(");
    }
    match find_chars(r, &str_chars("(")) {
        Some(o) => match rfind(r, ')') {
            None => Err(msg("Invalid function parameter list")),
            Some(c) => {
                proof {
                    lemma_rfind_char(r@, ')');
                }
                let rl = r.len();
                assert(o + 1 <= rl);
                if c < o + 1 {
                    return Err(Fail::Abort);
                }
                let pt = trim_chars(&sub_chars(r, o + 1, c));
                let params = if pt.len() == 0 {
                    let v: Vec<String> = Vec::new();
                    assert(strings_view(v@) =~= seq![]);
                    v
                } else {
                    nonempty_strings(&trim_all(&split_on(&pt, ',')))
                };
                let name = trim_chars(&sub_chars(r, 0, o));
                Ok((chars_to_string(&name), params))
            },
        },
        None => {
            let parts = split_whitespace(r);
            if parts.len() == 0 {
                return Err(msg("FUNCTION syntax: FUNCTION name [arg1 arg2 ...]"));
            }
            let mut rest: Vec<String> = Vec::new();
            let mut i: usize = 1;
            while i < parts.len()
                invariant
                    1 <= i <= parts@.len(),
                    strings_view(rest@) == parts@.map_values(|v: Vec<char>| v@).subrange(1, i as int),
                decreases parts@.len() - i,
            {
                let ghost before = rest@;
                rest.push(chars_to_string(&parts[i]));
                proof {
                    lemma_strings_view_push(before, rest@.last());
                    assert(rest@ == before.push(rest@.last()));
                    assert(parts@.map_values(|v: Vec<char>| v@).subrange(1, i + 1) =~= parts@.map_values(
                        |v: Vec<char>| v@,
                    ).subrange(1, i as int).push(parts@[i as int]@));
                }
                i = i + 1;
            }
            assert(parts@.map_values(|v: Vec<char>| v@).subrange(1, parts@.len() as int) =~= parts@.map_values(
                |v: Vec<char>| v@,
            ).drop_first());
            Ok((chars_to_string(&parts[0]), rest))
        },
    }
}

/// The pieces of `v` as strings.
fn to_strings(v: &Vec<Vec<char>>) -> (r: Vec<String>)
    ensures
        strings_view(r@) == v@.map_values(|x: Vec<char>| x@),
{
    let mut r: Vec<String> = Vec::new();
    let mut i: usize = 0;
    while i < v.len()
        invariant
            i <= v@.len(),
            r@.len() == i,
            forall|j: int| 0 <= j < i ==> (#[trigger] r@[j])@ == v@[j]@,
        decreases v@.len() - i,
    {
        r.push(chars_to_string(&v[i]));
        i = i + 1;
    }
    assert(strings_view(r@) =~= v@.map_values(|x: Vec<char>| x@));
    r
}

} // verus!

verus! {

impl ControlFlowParser {
    /// The body of a branch: the first statement of `body` parsed as a script.
    fn branch_body_exec(&self, body: &Vec<char>) -> (r: Result<Vec<Statement>, Fail>)
        requires
            self.wf(),
            self.pos < self.lines@.len(),
        ensures
            match r {
                Ok(x) => branch_body(self.script(), self.at(), body@) matches Res::Done(d, _, _)
                    && stmts_match(x@, d),
                Err(e) => fails_as(e, branch_body(self.script(), self.at(), body@)),
            },
        decreases rem(self.script(), self.at()), cl(self.script(), self.at()), 5nat,
    {
        proof {
            reveal(parse_all);
            reveal(branch_body);
        }
        if body.len() == 0 {
            let v: Vec<Statement> = Vec::new();
            assert(stmts_match(v@, seq![]));
            return Ok(v);
        }
        let p = self.pos;
        assert(self.lines@[p as int]@ == self.script()[p as int]);
        let sl = script_lines(body);
        let ghost slv = sl@.map_values(|v: Vec<char>| v@);
        if sl.len() > 1 {
            return Err(Fail::Abort);
        }
        if sl.len() == 1 {
            assert(slv[0] == sl@[0]@);
            if sl[0].len() >= self.lines[p].len() {
                return Err(Fail::Abort);
            }
        }
        let mut sub = ControlFlowParser { lines: sl, pos: 0 };
        assert(sub.script() == lines_of(body@));
        match sub.parse_all_exec() {
            Ok(ss) => {
                let ghost d = parse_all(lines_of(body@), 0, seq![])->Done_0;
                let mut ss = ss;
                if ss.len() > 0 {
                    ss.truncate(1);
                    assert(stmts_match(ss@, seq![d[0]])) by {
                        assert(stmt_matches(ss@[0], d[0]));
                    }
                } else {
                    assert(d =~= seq![]);
                }
                Ok(ss)
            },
            Err(e) => Err(e),
        }
    }

    /// The labelled branches of a `SCAN` or `SWITCH` body from the current line on.
    fn branches_exec(&mut self, in_body: bool, sw: bool) -> (r: Result<
        (Vec<(String, Vec<Statement>)>, Option<Vec<Statement>>),
        Fail,
    >)
        requires
            old(self).wf(),
            old(self).pos <= old(self).lines@.len(),
        ensures
            final(self).wf(),
            r is Ok ==> final(self).lines@.len() == old(self).lines@.len(),
            branches_out(
                r,
                branches_loop(old(self).script(), old(self).at(), in_body, 0, seq![], None, sw),
                final(self).script(),
                final(self).at(),
            ),
        decreases rem(old(self).script(), old(self).at()), cl(old(self).script(), old(self).at()), 6nat,
    {
        proof {
            reveal(branches_loop);
        }
        let ghost l = self.script();
        let ghost p0 = self.at();
        let n = self.lines.len();
        let mut ib = in_body;
        let mut depth: u128 = 0;
        let mut brs: Vec<(String, Vec<Statement>)> = Vec::new();
        let mut dflt: Option<Vec<Statement>> = None;
        let ghost mut dbrs: Seq<(Seq<char>, Seq<Stmt>)> = seq![];
        let ghost mut ddf: Option<Seq<Stmt>> = None;
        let ghost target = branches_loop(l, p0, in_body, 0, seq![], None, sw);
        loop
            invariant
                self.wf(),
                n == self.lines@.len(),
                l == self.script(),
                l == old(self).script(),
                p0 == old(self).at(),
                target == branches_loop(old(self).script(), old(self).at(), in_body, 0, seq![], None, sw),
                p0 <= self.pos <= n,
                depth <= self.pos * usize::MAX,
                branches_loop(l, self.at(), ib, depth as nat, dbrs, ddf, sw) == target,
                branches_match(brs@, dbrs),
                opt_block_matches(dflt, ddf),
            decreases n - self.pos,
        {
            let q = self.pos;
            if q >= n {
                return Ok((brs, dflt));
            }
            assert(self.lines@[q as int]@ == l[q as int]);
            let t = trim_chars(&self.lines[q]);
            if t.len() == 0 {
                self.pos = q + 1;
                continue;
            }
            if !ib {
                if is_text(&t, "{") {
                    ib = true;
                    depth = 1;
                    self.pos = q + 1;
                    continue;
                }
                if sw {
                    return Err(msg("Expected '{' after SWITCH header"));
                }
                return Err(msg("Expected '{' after SCAN header"));
            }
            let c = count(&t, '{');
            proof {
                lemma_depth_bound(depth as int, c as int, q as int, usize::MAX as int);
            }
            let d1 = depth + c as u128;
            let cc = count(&t, '}');
            if cc > 0 {
                let d2 = if d1 >= cc as u128 {
                    d1 - cc as u128
                } else {
                    0
                };
                self.pos = q + 1;
                if d2 == 0 {
                    return Ok((brs, dflt));
                }
                depth = d2;
                continue;
            }
            proof {
                reveal_strlit(":");
                lemma_find_seq(t@, ":"@);
            }
            match find_chars(&t, &str_chars(":")) {
                Some(ci) => {
                    let label = trim_chars(&sub_chars(&t, 0, ci));
                    let body = trim_chars(&sub_chars(&t, ci + 1, t.len()));
                    assert(t@ == trim(l[q as int]));
                    assert(ib);
                    assert(count_char(t@, '}') == 0);
                    assert(body@ == trim(skip(t@, (ci + 1) as int)));
                    assert(label@ == trim(take(t@, ci as int)));
                    assert(find_seq(t@, ":"@) == Some(ci as nat));
                    proof {
                        lemma_branches_step(l, q as int, depth as nat, dbrs, ddf, sw, ci as nat);
                    }
                    match self.branch_body_exec(&body) {
                        Ok(bs) => {
                            let ghost dbs = branch_body(l, q as int, body@)->Done_0;
                            if sw && is_text(&lower_vec(&label), "default") {
                                proof {
                                    ddf = Some(dbs);
                                }
                                dflt = Some(bs);
                            } else {
                                let ls = chars_to_string(&label);
                                proof {
                                    lemma_branches_push(brs@, dbrs, ls, bs, dbs);
                                    dbrs = dbrs.push((label@, dbs));
                                }
                                brs.push((ls, bs));
                            }
                        },
                        Err(e) => {
                            return Err(e);
                        },
                    }
                },
                None => {},
            }
            depth = d1;
            self.pos = q + 1;
        }
    }

    /// `SCAN [expr] OF EnumType` with its branches, at the current line.
    fn parse_scan(&mut self) -> (r: Result<Option<Statement>, Fail>)
        requires
            old(self).wf(),
            old(self).pos < old(self).lines@.len(),
        ensures
            final(self).wf(),
            stmt_out(r, scan_spec(old(self).script(), old(self).at()), final(self).script(), final(self).at()),
        decreases rem(old(self).script(), old(self).at()), cl(old(self).script(), old(self).at()), 2nat,
    {
        proof {
            reveal(scan_spec);
        }
        let p = self.pos;
        assert(self.lines@[p as int]@ == self.script()[p as int]);
        let t = trim_chars(&self.lines[p]);
        if t.len() < 4 {
            return Err(Fail::Abort);
        }
        let r = trim_chars(&sub_chars(&t, 4, t.len()));
        let lw = lower_vec(&r);
        proof {
            reveal_strlit("of ");
            reveal_strlit(" of ");
            lemma_find_seq(lw@, " of "@);
        }
        let (expr, enum_type) = if has_prefix(&lw, "of ") {
            (None, strip_brace_exec(&trim_chars(&part_chars(&r, 3, r.len()))))
        } else {
            match find_chars(&lw, &str_chars(" of ")) {
                Some(k) => {
                    let lwl = lw.len();
                    assert(k + 4 <= lwl);
                    (
                    Some(chars_to_string(&trim_chars(&part_chars(&r, 0, k)))),
                    strip_brace_exec(&trim_chars(&part_chars(&r, k + 4, r.len()))),
                    )
                },
                None => {
                    return Err(msg("SCAN syntax: SCAN [expr] OF EnumType {"));
                },
            }
        };
        self.pos = p + 1;
        match self.branches_exec(ends_with(&r, '{'), false) {
            Ok((branches, _)) => Ok(
                Some(Statement::Scan { expr, enum_type: chars_to_string(&enum_type), branches }),
            ),
            Err(e) => Err(e),
        }
    }

    /// `SWITCH ON expr` with its branches, at the current line.
    fn parse_switch(&mut self) -> (r: Result<Option<Statement>, Fail>)
        requires
            old(self).wf(),
            old(self).pos < old(self).lines@.len(),
        ensures
            final(self).wf(),
            stmt_out(r, switch_spec(old(self).script(), old(self).at()), final(self).script(), final(self).at()),
        decreases rem(old(self).script(), old(self).at()), cl(old(self).script(), old(self).at()), 2nat,
    {
        proof {
            reveal(switch_spec);
        }
        let p = self.pos;
        assert(self.lines@[p as int]@ == self.script()[p as int]);
        let t = trim_chars(&self.lines[p]);
        if !has_prefix(&lower_vec(&t), "switch on ") {
            return Err(msg("SWITCH syntax: SWITCH ON expr {"));
        }
        proof {
            reveal_strlit("switch on ");
        }
        let expr = strip_brace_exec(&trim_chars(&part_chars(&t, 9, t.len())));
        self.pos = p + 1;
        match self.branches_exec(ends_with(&t, '{'), true) {
            Ok((branches, default_branch)) => Ok(
                Some(Statement::Switch { expr: chars_to_string(&expr), branches, default_branch }),
            ),
            Err(e) => Err(e),
        }
    }
}

} // verus!

verus! {

impl ControlFlowParser {
    /// Parses the script from the current line to its end. The statements, or the first
    /// error's message, are what `parse_all` describes.
    pub fn parse(&mut self) -> (r: Result<Vec<Statement>, String>)
        requires
            old(self).wf(),
            !(parse_all(old(self).script(), old(self).at(), seq![]) is Abort),
        ensures
            final(self).wf(),
            match parse_all(old(self).script(), old(self).at(), seq![]) {
                Res::Done(d, l2, p2) => r matches Ok(v) && stmts_match(v@, d) && final(self).script() == l2
                    && final(self).at() == p2,
                Res::Fail(m) => r matches Err(e) && e@ == m,
                Res::Abort => false,
            },
    {
        match self.parse_all_exec() {
            Ok(v) => Ok(v),
            Err(Fail::Msg(m)) => Err(m),
            Err(Fail::Abort) => {
                assert(false);
                Err(String::new())
            },
        }
    }

    /// Like `parse`, for every script: `None` on the scripts that the parser does not
    /// accept (among them a braced value that the script ends inside, a function header
    /// whose `)` comes before its `(`, an `ELSE IF` with nothing after it).
    pub fn try_parse(&mut self) -> (r: Option<Result<Vec<Statement>, String>>)
        requires
            old(self).wf(),
        ensures
            final(self).wf(),
            match parse_all(old(self).script(), old(self).at(), seq![]) {
                Res::Done(d, l2, p2) => r matches Some(Ok(v)) && stmts_match(v@, d)
                    && final(self).script() == l2 && final(self).at() == p2,
                Res::Fail(m) => r matches Some(Err(e)) && e@ == m,
                Res::Abort => r is None,
            },
    {
        match self.parse_all_exec() {
            Ok(v) => Some(Ok(v)),
            Err(Fail::Msg(m)) => Some(Err(m)),
            Err(Fail::Abort) => None,
        }
    }
}

} // verus!

//! The syntax tree that the token parser builds (expressions, conditions and statements),
//! and its mathematical model: the same tree with characters and sequences in place of
//! strings and vectors, and the relation that ties a tree to its model.
use vstd::prelude::*;
use crate::control_flow::CompareOp;
use crate::text::strings_view;

verus! {

/// A literal value. A number with a fractional part is kept as its source text.
#[derive(Debug, Clone)]
pub enum Literal {
    Number(i64),
    Float(String),
    Bool(bool),
    Text(String),
}

#[derive(Debug, Clone, Copy, PartialEq, Eq)]
pub enum BinOp {
    Add,
    Sub,
    Mul,
    Div,
}

#[derive(Debug, Clone, Copy, PartialEq, Eq)]
pub enum UnOp {
    Neg,
    Not,
}

#[derive(Debug)]
pub enum StringPart {
    Literal(String),
    Interpolation(Expression),
}

#[derive(Debug)]
pub enum Expression {
    Literal(Literal),
    Variable(String),
    BinaryOp(Box<Expression>, BinOp, Box<Expression>),
    UnaryOp(UnOp, Box<Expression>),
    StringInterpolation(Vec<StringPart>),
    Array(Vec<Expression>),
    Block(Vec<Statement>),
    FunctionCall(String, Vec<Expression>),
    CCall(String, Vec<Expression>),
    StructLiteral(String, Vec<(String, Expression)>),
    EnumLiteral(String, String),
}

#[derive(Debug)]
pub enum Condition {
    Command(Expression),
    And(Box<Condition>, Box<Condition>),
    Or(Box<Condition>, Box<Condition>),
    Compare(Expression, CompareOp, Expression),
}

#[derive(Debug)]
pub enum Statement {
    Expression(Expression),
    Let { name: String, value: Expression },
    FunctionDef { name: String, params: Vec<String>, body: Vec<Statement> },
    If {
        condition: Condition,
        then_block: Vec<Statement>,
        elif_blocks: Vec<(Condition, Vec<Statement>)>,
        else_block: Option<Vec<Statement>>,
    },
    While { condition: Condition, body: Vec<Statement> },
    ForLoop {
        init: Option<Expression>,
        condition: Condition,
        update: Option<Expression>,
        body: Vec<Statement>,
    },
    For { var: String, items: Vec<Expression>, body: Vec<Statement> },
    Foreach { var: String, iterable: Expression, body: Vec<Statement> },
    Loop { count: Option<u64>, interval: Option<u64>, body: Vec<Statement> },
    Break { condition: Option<Condition> },
    Continue,
    Return { value: Option<Expression> },
    Try { try_block: Vec<Statement>, catch_block: Option<Vec<Statement>> },
    StructDef { name: String, fields: Vec<String> },
    EnumDef { name: String, variants: Vec<String> },
    Scan { expr: Option<Expression>, enum_type: String, branches: Vec<(String, Vec<Statement>)> },
    Switch {
        expr: Expression,
        branches: Vec<(String, Vec<Statement>)>,
        default_branch: Option<Vec<Statement>>,
    },
    Chain { steps: Vec<Expression> },
}

// ---------------------------------------------------------------------------
// Mathematical model
// ---------------------------------------------------------------------------

pub enum Lit {
    Number(i64),
    Float(Seq<char>),
    Bool(bool),
    Text(Seq<char>),
}

pub enum Part {
    Lit(Seq<char>),
    Interp(Expr),
}

pub enum Expr {
    Lit(Lit),
    Var(Seq<char>),
    Bin(Box<Expr>, BinOp, Box<Expr>),
    Un(UnOp, Box<Expr>),
    Interp(Seq<Part>),
    Array(Seq<Expr>),
    Block(Seq<Stm>),
    Call(Seq<char>, Seq<Expr>),
    CCall(Seq<char>, Seq<Expr>),
    StructLit(Seq<char>, Seq<(Seq<char>, Expr)>),
    EnumLit(Seq<char>, Seq<char>),
}

pub enum Cnd {
    Command(Expr),
    And(Box<Cnd>, Box<Cnd>),
    Or(Box<Cnd>, Box<Cnd>),
    Compare(Expr, CompareOp, Expr),
}

pub enum Stm {
    Expr(Expr),
    Let(Seq<char>, Expr),
    Function(Seq<char>, Seq<Seq<char>>, Seq<Stm>),
    If(Cnd, Seq<Stm>, Seq<(Cnd, Seq<Stm>)>, Option<Seq<Stm>>),
    While(Cnd, Seq<Stm>),
    ForLoop(Option<Expr>, Cnd, Option<Expr>, Seq<Stm>),
    For(Seq<char>, Seq<Expr>, Seq<Stm>),
    Foreach(Seq<char>, Expr, Seq<Stm>),
    Loop(Option<u64>, Option<u64>, Seq<Stm>),
    Break,
    Continue,
    Return(Option<Expr>),
    Try(Seq<Stm>, Option<Seq<Stm>>),
    StructDef(Seq<char>, Seq<Seq<char>>),
    EnumDef(Seq<char>, Seq<Seq<char>>),
    Scan(Option<Expr>, Seq<char>, Seq<(Seq<char>, Seq<Stm>)>),
    Switch(Expr, Seq<(Seq<char>, Seq<Stm>)>, Option<Seq<Stm>>),
    Chain(Seq<Expr>),
}

pub open spec fn lit_matches(l: Literal, d: Lit) -> bool {
    match d {
        Lit::Number(n) => l == Literal::Number(n),
        Lit::Float(s) => l matches Literal::Float(x) && x@ == s,
        Lit::Bool(b) => l == Literal::Bool(b),
        Lit::Text(s) => l matches Literal::Text(x) && x@ == s,
    }
}

pub open spec fn part_matches(p: StringPart, d: Part) -> bool
    decreases d,
{
    match d {
        Part::Lit(s) => p matches StringPart::Literal(x) && x@ == s,
        Part::Interp(e) => p matches StringPart::Interpolation(x) && expr_matches(x, e),
    }
}

pub open spec fn expr_matches(e: Expression, d: Expr) -> bool
    decreases d,
{
    match d {
        Expr::Lit(l) => e matches Expression::Literal(x) && lit_matches(x, l),
        Expr::Var(n) => e matches Expression::Variable(x) && x@ == n,
        Expr::Bin(a, op, b) => e matches Expression::BinaryOp(x, o, y) && o == op && expr_matches(
            *x,
            *a,
        ) && expr_matches(*y, *b),
        Expr::Un(op, a) => e matches Expression::UnaryOp(o, x) && o == op && expr_matches(*x, *a),
        Expr::Interp(ps) => e matches Expression::StringInterpolation(v) && parts_match(v@, ps),
        Expr::Array(es) => e matches Expression::Array(v) && exprs_match(v@, es),
        Expr::Block(b) => e matches Expression::Block(v) && stms_match(v@, b),
        Expr::Call(n, es) => e matches Expression::FunctionCall(x, v) && x@ == n && exprs_match(
            v@,
            es,
        ),
        Expr::CCall(n, es) => e matches Expression::CCall(x, v) && x@ == n && exprs_match(v@, es),
        Expr::StructLit(n, fs) => e matches Expression::StructLiteral(x, v) && x@ == n
            && fields_match(v@, fs),
        Expr::EnumLit(n, m) => e matches Expression::EnumLiteral(x, y) && x@ == n && y@ == m,
    }
}

pub open spec fn parts_match(v: Seq<StringPart>, ds: Seq<Part>) -> bool
    decreases ds,
{
    v.len() == ds.len() && forall|i: int| 0 <= i < ds.len() ==> part_matches(#[trigger] v[i], ds[i])
}

pub open spec fn fields_match(v: Seq<(String, Expression)>, ds: Seq<(Seq<char>, Expr)>) -> bool
    decreases ds,
{
    v.len() == ds.len() && forall|i: int|
        0 <= i < ds.len() ==> (#[trigger] v[i]).0@ == ds[i].0 && expr_matches(v[i].1, ds[i].1)
}

pub open spec fn exprs_match(v: Seq<Expression>, ds: Seq<Expr>) -> bool
    decreases ds,
{
    v.len() == ds.len() && forall|i: int| 0 <= i < ds.len() ==> expr_matches(#[trigger] v[i], ds[i])
}

pub open spec fn opt_expr_matches(v: Option<Expression>, d: Option<Expr>) -> bool
    decreases d,
{
    match d {
        Some(x) => v matches Some(y) && expr_matches(y, x),
        None => v is None,
    }
}

pub open spec fn cnd_matches(c: Condition, d: Cnd) -> bool
    decreases d,
{
    match d {
        Cnd::Command(e) => c matches Condition::Command(x) && expr_matches(x, e),
        Cnd::And(a, b) => c matches Condition::And(x, y) && cnd_matches(*x, *a) && cnd_matches(
            *y,
            *b,
        ),
        Cnd::Or(a, b) => c matches Condition::Or(x, y) && cnd_matches(*x, *a) && cnd_matches(*y, *b),
        Cnd::Compare(a, op, b) => c matches Condition::Compare(x, o, y) && o == op && expr_matches(
            x,
            a,
        ) && expr_matches(y, b),
    }
}

pub open spec fn stm_matches(s: Statement, d: Stm) -> bool
    decreases d,
{
    match d {
        Stm::Expr(e) => s matches Statement::Expression(x) && expr_matches(x, e),
        Stm::Let(n, v) => s matches Statement::Let { name, value } && name@ == n && expr_matches(
            value,
            v,
        ),
        Stm::Function(n, ps, b) => s matches Statement::FunctionDef { name, params, body } && name@
            == n && strings_view(params@) == ps && stms_match(body@, b),
        Stm::If(c, t, e, o) => s matches Statement::If {
            condition,
            then_block,
            elif_blocks,
            else_block,
        } && cnd_matches(condition, c) && stms_match(then_block@, t) && elifs_match(
            elif_blocks@,
            e,
        ) && opt_stms_match(else_block, o),
        Stm::While(c, b) => s matches Statement::While { condition, body } && cnd_matches(
            condition,
            c,
        ) && stms_match(body@, b),
        Stm::ForLoop(i, c, u, b) => s matches Statement::ForLoop { init, condition, update, body }
            && opt_expr_matches(init, i) && cnd_matches(condition, c) && opt_expr_matches(update, u)
            && stms_match(body@, b),
        Stm::For(v, its, b) => s matches Statement::For { var, items, body } && var@ == v
            && exprs_match(items@, its) && stms_match(body@, b),
        Stm::Foreach(v, it, b) => s matches Statement::Foreach { var, iterable, body } && var@ == v
            && expr_matches(iterable, it) && stms_match(body@, b),
        Stm::Loop(cn, iv, b) => s matches Statement::Loop { count, interval, body } && count == cn
            && interval == iv && stms_match(body@, b),
        Stm::Break => s matches Statement::Break { condition } && condition is None,
        Stm::Continue => s is Continue,
        Stm::Return(v) => s matches Statement::Return { value } && opt_expr_matches(value, v),
        Stm::Try(t, c) => s matches Statement::Try { try_block, catch_block } && stms_match(
            try_block@,
            t,
        ) && opt_stms_match(catch_block, c),
        Stm::StructDef(n, fs) => s matches Statement::StructDef { name, fields } && name@ == n
            && strings_view(fields@) == fs,
        Stm::EnumDef(n, vs) => s matches Statement::EnumDef { name, variants } && name@ == n
            && strings_view(variants@) == vs,
        Stm::Scan(e, n, bs) => s matches Statement::Scan { expr, enum_type, branches }
            && opt_expr_matches(expr, e) && enum_type@ == n && labelled_match(branches@, bs),
        Stm::Switch(e, bs, d) => s matches Statement::Switch { expr, branches, default_branch }
            && expr_matches(expr, e) && labelled_match(branches@, bs) && opt_stms_match(
            default_branch,
            d,
        ),
        Stm::Chain(es) => s matches Statement::Chain { steps } && exprs_match(steps@, es),
    }
}

pub open spec fn stms_match(v: Seq<Statement>, ds: Seq<Stm>) -> bool
    decreases ds,
{
    v.len() == ds.len() && forall|i: int| 0 <= i < ds.len() ==> stm_matches(#[trigger] v[i], ds[i])
}

pub open spec fn opt_stms_match(v: Option<Vec<Statement>>, d: Option<Seq<Stm>>) -> bool
    decreases d,
{
    match d {
        Some(ds) => v matches Some(x) && stms_match(x@, ds),
        None => v is None,
    }
}

pub open spec fn elifs_match(v: Seq<(Condition, Vec<Statement>)>, ds: Seq<(Cnd, Seq<Stm>)>) -> bool
    decreases ds,
{
    v.len() == ds.len() && forall|i: int|
        0 <= i < ds.len() ==> cnd_matches(#[trigger] v[i].0, ds[i].0) && stms_match(v[i].1@, ds[i].1)
}

pub open spec fn labelled_match(v: Seq<(String, Vec<Statement>)>, ds: Seq<(Seq<char>, Seq<Stm>)>) -> bool
    decreases ds,
{
    v.len() == ds.len() && forall|i: int|
        0 <= i < ds.len() ==> (#[trigger] v[i]).0@ == ds[i].0 && stms_match(v[i].1@, ds[i].1)
}

} // verus!

//! The plan language: straight-line statements, bounded loops and branches, with guards in a
//! small total predicate language. There is no `while`, no recursion and no definition of
//! functions.

use crate::json::Json;
use vstd::prelude::*;

verus! {

/// A plan: statements that run one after another.
#[derive(Debug)]
pub struct Plan {
    pub stmts: Vec<Stmt>,
}

/// A statement.
#[derive(Debug)]
pub enum Stmt {
    Let { var: String, expr: Expr },
    Effect { verb: String, args: Vec<Expr> },
    If { guard: Guard, then_: Vec<Stmt>, else_: Vec<Stmt> },
    Foreach { var: String, list: Expr, bound: u32, mode: Mode, body: Vec<Stmt> },
}

/// An expression.
#[derive(Debug)]
pub enum Expr {
    /// A read of the world: checked against a capability, labelled, never metered.
    Observe { verb: String, args: Vec<Expr> },
    /// A computation that holds no capability.
    Pure { func: String, args: Vec<Expr> },
    Const { value: Json },
    Var { name: String },
    /// An element of a list.
    Index { base: Box<Expr>, idx: u32 },
}

/// What a loop does when its list is longer than its bound, and what an effect does when its
/// budget is spent.
#[derive(Debug, Clone, Copy, PartialEq, Eq, Structural)]
pub enum Mode {
    /// Stop.
    Strict,
    /// Process the first elements and report how many were dropped.
    Truncate,
    /// Pause and ask for more consent.
    Escalate,
}

impl Default for Mode {
    fn default() -> (m: Self)
        ensures
            m == Mode::Strict,
    {
        Mode::Strict
    }
}

/// How a guard compares two values.
#[derive(Debug, Clone, Copy, PartialEq, Eq, Structural)]
pub enum CmpOp {
    Eq,
    Ne,
    Lt,
    Le,
    Gt,
    Ge,
}

/// The condition of a branch.
#[derive(Debug)]
pub enum Guard {
    /// Whether a list has an element.
    Exists { expr: Box<Expr> },
    /// Whether a string matches a regular expression.
    Matches { expr: Box<Expr>, regex: String },
    Cmp { lhs: Box<Expr>, op: CmpOp, rhs: Box<Expr> },
    And { l: Box<Guard>, r: Box<Guard> },
    Or { l: Box<Guard>, r: Box<Guard> },
    Not { g: Box<Guard> },
}

/// The number of nodes of an expression.
pub open spec fn expr_size(e: Expr) -> nat
    decreases e,
{
    match e {
        Expr::Observe { verb, args } => 1 + exprs_size(args@),
        Expr::Pure { func, args } => 1 + exprs_size(args@),
        Expr::Const { value } => 1,
        Expr::Var { name } => 1,
        Expr::Index { base, idx } => 1 + expr_size(*base),
    }
}

/// The number of nodes of a list of expressions.
pub open spec fn exprs_size(es: Seq<Expr>) -> nat
    decreases es,
{
    if es.len() == 0 {
        0
    } else {
        expr_size(es[0]) + exprs_size(es.drop_first())
    }
}

/// The number of expression nodes in a guard.
pub open spec fn guard_size(g: Guard) -> nat
    decreases g,
{
    match g {
        Guard::Exists { expr } => expr_size(*expr),
        Guard::Matches { expr, regex } => expr_size(*expr),
        Guard::Cmp { lhs, op, rhs } => expr_size(*lhs) + expr_size(*rhs),
        Guard::And { l, r } => guard_size(*l) + guard_size(*r),
        Guard::Or { l, r } => guard_size(*l) + guard_size(*r),
        Guard::Not { g } => guard_size(*g),
    }
}

/// The number of nodes of a statement.
pub open spec fn stmt_size(s: Stmt) -> nat
    decreases s,
{
    match s {
        Stmt::Let { var, expr } => 1 + expr_size(expr),
        Stmt::Effect { verb, args } => 1 + exprs_size(args@),
        Stmt::If { guard, then_, else_ } => 1 + guard_size(guard) + stmts_size(then_@) + stmts_size(
            else_@,
        ),
        Stmt::Foreach { var, list, bound, mode, body } => 1 + expr_size(list) + stmts_size(body@),
    }
}

/// The number of nodes of a sequence of statements.
pub open spec fn stmts_size(ss: Seq<Stmt>) -> nat
    decreases ss,
{
    if ss.len() == 0 {
        0
    } else {
        stmt_size(ss[0]) + stmts_size(ss.drop_first())
    }
}

} // verus!

//! The metering shapes of a plan: which verbs it performs, in which loops and branches.

use crate::plan::{Plan, Stmt};
use crate::plancheck::stmts_demand;
use vstd::prelude::*;

verus! {

/// A node of the metering shapes. A read or a binding bears no budget and is opaque.
#[derive(Debug, PartialEq, Eq)]
pub enum AstNode {
    Effect { verb: String },
    Loop { bound: u64, body: Vec<AstNode> },
    Branch { then_: Vec<AstNode>, else_: Vec<AstNode> },
    Opaque,
}

/// Whether a node is the shape of a statement.
pub open spec fn shapes(n: AstNode, s: Stmt) -> bool
    decreases s,
{
    match s {
        Stmt::Effect { verb, args } => n matches AstNode::Effect { verb: v } && v@ == verb@,
        Stmt::Foreach { var, list, bound, mode, body } => n matches AstNode::Loop {
            bound: b,
            body: nodes,
        } && b == bound && all_shape(nodes@, body@),
        Stmt::If { guard, then_, else_ } => n matches AstNode::Branch {
            then_: a,
            else_: b,
        } && all_shape(a@, then_@) && all_shape(b@, else_@),
        Stmt::Let { var, expr } => n is Opaque,
    }
}

/// Whether nodes are the shapes of statements, one for one.
pub open spec fn all_shape(ns: Seq<AstNode>, ss: Seq<Stmt>) -> bool
    decreases ss,
{
    &&& ns.len() == ss.len()
    &&& forall|i: int| 0 <= i < ss.len() ==> shapes(ns[i], #[trigger] ss[i])
}

/// How often a node performs a verb: the sum over the occurrences, loops multiplying.
pub open spec fn node_demand(n: AstNode, verb: Seq<char>) -> nat
    decreases n,
{
    match n {
        AstNode::Effect { verb: v } => if v@ == verb {
            1
        } else {
            0
        },
        AstNode::Loop { bound, body } => (bound as nat) * nodes_demand(body@, verb),
        AstNode::Branch { then_, else_ } => nodes_demand(then_@, verb) + nodes_demand(else_@, verb),
        AstNode::Opaque => 0,
    }
}

/// How often nodes perform a verb.
pub open spec fn nodes_demand(ns: Seq<AstNode>, verb: Seq<char>) -> nat
    decreases ns,
{
    if ns.len() == 0 {
        0
    } else {
        node_demand(ns[0], verb) + nodes_demand(ns.drop_first(), verb)
    }
}

/// The metering shapes of a plan, one node for each statement, with the nesting kept.
pub fn to_ast_nodes(plan: &Plan) -> (nodes: Vec<AstNode>)
    ensures
        all_shape(nodes@, plan.stmts@),
{
    nodes_of(&plan.stmts)
}

fn nodes_of(stmts: &Vec<Stmt>) -> (nodes: Vec<AstNode>)
    ensures
        all_shape(nodes@, stmts@),
    decreases stmts@,
{
    let mut nodes: Vec<AstNode> = Vec::new();
    let mut i: usize = 0;
    while i < stmts.len()
        invariant
            i <= stmts.len(),
            nodes@.len() == i,
            forall|k: int| 0 <= k < i ==> shapes(nodes@[k], #[trigger] stmts@[k]),
        decreases stmts.len() - i,
    {
        assert(decreases_to!(stmts@ => stmts@[i as int]));
        let n: AstNode = node_of(&stmts[i]);
        nodes.push(n);
        i = i + 1;
    }
    nodes
}

fn node_of(s: &Stmt) -> (n: AstNode)
    ensures
        shapes(n, *s),
    decreases s,
{
    match s {
        Stmt::Effect { verb, args } => AstNode::Effect { verb: verb.clone() },
        Stmt::Foreach { var, list, bound, mode, body } => {
            assert(decreases_to!(s => body@));
            AstNode::Loop { bound: *bound as u64, body: nodes_of(body) }
        },
        Stmt::If { guard, then_, else_ } => {
            assert(decreases_to!(s => then_@));
            assert(decreases_to!(s => else_@));
            AstNode::Branch { then_: nodes_of(then_), else_: nodes_of(else_) }
        },
        Stmt::Let { var, expr } => AstNode::Opaque,
    }
}

/// The shapes of statements demand what the statements do: the budget that admission derives
/// is the occurrence sum of the metering shapes.
pub proof fn shapes_keep_demand(ns: Seq<AstNode>, ss: Seq<Stmt>, verb: Seq<char>)
    requires
        all_shape(ns, ss),
    ensures
        nodes_demand(ns, verb) == stmts_demand(ss, verb),
    decreases ss,
{
    if ss.len() > 0 {
        reveal_with_fuel(nodes_demand, 2);
        reveal_with_fuel(stmts_demand, 2);
        reveal_with_fuel(shapes, 2);
        assert(shapes(ns[0], ss[0]));
        assert forall|i: int| 0 <= i < ss.drop_first().len() implies shapes(
            ns.drop_first()[i],
            #[trigger] ss.drop_first()[i],
        ) by {
            assert(shapes(ns[i + 1], ss[i + 1]));
        }
        shapes_keep_demand(ns.drop_first(), ss.drop_first(), verb);
        match ss[0] {
            Stmt::Foreach { var, list, bound, mode, body } => {
                shapes_keep_demand(ns[0]->body@, body@, verb);
            },
            Stmt::If { guard, then_, else_ } => {
                shapes_keep_demand(ns[0]->then_@, then_@, verb);
                shapes_keep_demand(ns[0]->else_@, else_@, verb);
            },
            _ => {},
        }
    }
}

} // verus!

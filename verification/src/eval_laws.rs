//! What holds of every evaluation of guards and expressions, and of the branches and loops that
//! go by them.

use crate::eval::{
    eval_all_out, eval_out, guard_out, Bindings, Dialect, Reply, Talk,
};
use crate::interp::{run_stmt, run_stmts, Declared, Machine};
use crate::json::{value_relation, Value};
use crate::label::{below, joined, Tags};
use crate::plan::{CmpOp, Expr, Guard, Mode, Stmt};
use crate::plan_interp::{go_stmt, go_stmts, Fiber};
use crate::text::{lex_lt, lex_total, Rel};
use vstd::prelude::*;

verus! {

/// A conjunction is true exactly when both of its sides are: its evaluation succeeds if and only
/// if those of its sides do, the right one after the left one, and where one side is false the
/// whole is false. It carries everything that either side carries.
pub proof fn a_conjunction_needs_both(
    d: Dialect,
    l: Box<Guard>,
    r: Box<Guard>,
    env: Bindings,
    obs: Map<Seq<char>, Tags>,
    rs: Seq<Reply>,
    at: Talk,
)
    ensures
        ({
            let whole = guard_out(d, Guard::And { l, r }, env, obs, rs, at);
            let left = guard_out(d, *l, env, obs, rs, at);
            let right = guard_out(d, *r, env, obs, rs, left.talk);
            &&& whole.end is Ok <==> left.end is Ok && right.end is Ok
            &&& whole.end matches Ok(t) ==> {
                &&& t.0 <==> left.end->Ok_0.0 && right.end->Ok_0.0
                &&& !left.end->Ok_0.0 ==> !t.0
                &&& !right.end->Ok_0.0 ==> !t.0
                &&& below(left.end->Ok_0.1, t.1)
                &&& below(right.end->Ok_0.1, t.1)
                &&& whole.talk == right.talk
            }
        }),
{
}

/// A disjunction is false exactly when both of its sides are: its evaluation succeeds if and only
/// if those of its sides do, the right one after the left one, and where one side is true the
/// whole is true. It carries everything that either side carries.
pub proof fn a_disjunction_needs_one(
    d: Dialect,
    l: Box<Guard>,
    r: Box<Guard>,
    env: Bindings,
    obs: Map<Seq<char>, Tags>,
    rs: Seq<Reply>,
    at: Talk,
)
    ensures
        ({
            let whole = guard_out(d, Guard::Or { l, r }, env, obs, rs, at);
            let left = guard_out(d, *l, env, obs, rs, at);
            let right = guard_out(d, *r, env, obs, rs, left.talk);
            &&& whole.end is Ok <==> left.end is Ok && right.end is Ok
            &&& whole.end matches Ok(t) ==> {
                &&& !t.0 <==> !left.end->Ok_0.0 && !right.end->Ok_0.0
                &&& left.end->Ok_0.0 ==> t.0
                &&& right.end->Ok_0.0 ==> t.0
                &&& below(left.end->Ok_0.1, t.1)
                &&& below(right.end->Ok_0.1, t.1)
                &&& whole.talk == right.talk
            }
        }),
{
}

/// A negation is true exactly when what it negates is false, it carries what that carries, and
/// negating twice changes nothing.
pub proof fn a_negation_turns(
    d: Dialect,
    g: Box<Guard>,
    env: Bindings,
    obs: Map<Seq<char>, Tags>,
    rs: Seq<Reply>,
    at: Talk,
)
    ensures
        ({
            let whole = guard_out(d, Guard::Not { g }, env, obs, rs, at);
            let inner = guard_out(d, *g, env, obs, rs, at);
            &&& whole.end is Ok <==> inner.end is Ok
            &&& whole.end matches Ok(t) ==> t.0 != inner.end->Ok_0.0 && t.1 == inner.end->Ok_0.1
            &&& whole.talk == inner.talk
        }),
        guard_out(
            d,
            Guard::Not { g: Box::new(Guard::Not { g }) },
            env,
            obs,
            rs,
            at,
        ) == guard_out(d, *g, env, obs, rs, at),
{
    reveal_with_fuel(guard_out, 3);
}

/// The connectives are dual: that not both sides hold says that one of them does not, and that
/// neither holds says that both do not.
pub proof fn connectives_are_dual(
    d: Dialect,
    l: Box<Guard>,
    r: Box<Guard>,
    env: Bindings,
    obs: Map<Seq<char>, Tags>,
    rs: Seq<Reply>,
    at: Talk,
)
    ensures
        ({
            let not_l = Box::new(Guard::Not { g: l });
            let not_r = Box::new(Guard::Not { g: r });
            let not_both = Guard::Not { g: Box::new(Guard::And { l, r }) };
            let not_either = Guard::Not { g: Box::new(Guard::Or { l, r }) };
            &&& guard_out(d, not_both, env, obs, rs, at) == guard_out(
                d,
                Guard::Or { l: not_l, r: not_r },
                env,
                obs,
                rs,
                at,
            )
            &&& guard_out(d, not_either, env, obs, rs, at) == guard_out(
                d,
                Guard::And { l: not_l, r: not_r },
                env,
                obs,
                rs,
                at,
            )
        }),
{
    reveal_with_fuel(guard_out, 3);
}

/// The truth of a comparison whose evaluation succeeds.
pub open spec fn compared(
    op: CmpOp,
    d: Dialect,
    lhs: Box<Expr>,
    rhs: Box<Expr>,
    env: Bindings,
    obs: Map<Seq<char>, Tags>,
    rs: Seq<Reply>,
    at: Talk,
) -> bool {
    guard_out(d, Guard::Cmp { lhs, op, rhs }, env, obs, rs, at).end matches Ok(t) && t.0
}

/// The six comparisons of two values agree with each other. Where the values are both numbers or
/// both strings, exactly one of before, same and after holds, the others are made of these, and
/// of two strings the same is said exactly where they are one string; any other two values
/// satisfy none of the six. A comparison carries what both sides carry.
pub proof fn comparisons_agree(
    d: Dialect,
    lhs: Box<Expr>,
    rhs: Box<Expr>,
    env: Bindings,
    obs: Map<Seq<char>, Tags>,
    rs: Seq<Reply>,
    at: Talk,
)
    ensures
        ({
            let left = eval_out(d, *lhs, env, obs, rs, at);
            let right = eval_out(d, *rhs, env, obs, rs, left.talk);
            let eq = compared(CmpOp::Eq, d, lhs, rhs, env, obs, rs, at);
            let ne = compared(CmpOp::Ne, d, lhs, rhs, env, obs, rs, at);
            let lt = compared(CmpOp::Lt, d, lhs, rhs, env, obs, rs, at);
            let le = compared(CmpOp::Le, d, lhs, rhs, env, obs, rs, at);
            let gt = compared(CmpOp::Gt, d, lhs, rhs, env, obs, rs, at);
            let ge = compared(CmpOp::Ge, d, lhs, rhs, env, obs, rs, at);
            &&& forall|op: CmpOp|
                (#[trigger] guard_out(
                    d,
                    Guard::Cmp { lhs, op, rhs },
                    env,
                    obs,
                    rs,
                    at,
                )).end is Ok <==> left.end is Ok && right.end is Ok
            &&& left.end is Ok && right.end is Ok ==> {
                let a = left.end->Ok_0.0;
                let b = right.end->Ok_0.0;
                let numbers = (a is Number || a is Real) && (b is Number || b is Real);
                let strings = a is Str && b is Str;
                &&& forall|op: CmpOp|
                    {
                        let t = (#[trigger] guard_out(
                            d,
                            Guard::Cmp { lhs, op, rhs },
                            env,
                            obs,
                            rs,
                            at,
                        )).end->Ok_0;
                        below(left.end->Ok_0.1, t.1) && below(right.end->Ok_0.1, t.1)
                    }
                &&& numbers || strings ==> {
                    &&& eq || lt || gt
                    &&& !(eq && lt) && !(eq && gt) && !(lt && gt)
                    &&& ne == !eq
                    &&& le == (lt || eq)
                    &&& ge == (gt || eq)
                }
                &&& !numbers && !strings ==> !eq && !ne && !lt && !le && !gt && !ge
                &&& strings ==> (eq <==> a == b) && (lt <==> lex_lt(a->Str_0, b->Str_0)) && (gt
                    <==> lex_lt(b->Str_0, a->Str_0))
                &&& a == b && (numbers || strings) ==> eq
            }
        }),
{
    let left = eval_out(d, *lhs, env, obs, rs, at);
    let right = eval_out(d, *rhs, env, obs, rs, left.talk);
    if left.end is Ok && right.end is Ok {
        let a = left.end->Ok_0.0;
        let b = right.end->Ok_0.0;
        if a is Str && b is Str {
            lex_total(a->Str_0, b->Str_0);
            crate::text::lex_irreflexive(a->Str_0);
        }
    }
}

/// Relating two values the other way round turns before and after, and leaves the rest.
pub proof fn relations_turn(a: Value, b: Value)
    ensures
        value_relation(a, b) == Some(Rel::Before) <==> value_relation(b, a) == Some(Rel::After),
        value_relation(a, b) == Some(Rel::Same) <==> value_relation(b, a) == Some(Rel::Same),
        value_relation(a, b) is None <==> value_relation(b, a) is None,
{
    if a is Str && b is Str {
        lex_total(a->Str_0, b->Str_0);
    }
}

/// Exactly null and the empty list do not exist.
pub proof fn only_nothing_is_absent(
    d: Dialect,
    expr: Box<Expr>,
    env: Bindings,
    obs: Map<Seq<char>, Tags>,
    rs: Seq<Reply>,
    at: Talk,
)
    ensures
        ({
            let whole = guard_out(d, Guard::Exists { expr }, env, obs, rs, at);
            let inner = eval_out(d, *expr, env, obs, rs, at);
            &&& whole.end is Ok <==> inner.end is Ok
            &&& whole.end matches Ok(t) ==> {
                let v = inner.end->Ok_0.0;
                &&& !t.0 <==> v == Value::Null || v == Value::Array(Seq::empty())
                &&& t.1 == inner.end->Ok_0.1
            }
        }),
{
    let inner = eval_out(d, *expr, env, obs, rs, at);
    if let Ok(vl) = inner.end {
        if let Value::Array(items) = vl.0 {
            if items.len() == 0 {
                assert(items =~= Seq::empty());
            }
        }
    }
}

/// Only a string matches a pattern, and a match carries what the string carries.
pub proof fn only_text_matches(
    d: Dialect,
    expr: Box<Expr>,
    regex: String,
    env: Bindings,
    obs: Map<Seq<char>, Tags>,
    rs: Seq<Reply>,
    at: Talk,
)
    ensures
        ({
            let whole = guard_out(d, Guard::Matches { expr, regex }, env, obs, rs, at);
            let inner = eval_out(d, *expr, env, obs, rs, at);
            whole.end matches Ok(t) ==> inner.end is Ok && t.1 == inner.end->Ok_0.1 && (t.0
                ==> inner.end->Ok_0.0 is Str && crate::pattern::regex_found(
                regex@,
                inner.end->Ok_0.0->Str_0,
            ))
        }),
{
}

/// A constant is itself and public, a variable is what it was bound to, and an element of a list
/// is the one at that place, or null where there is none; it carries what the list carries.
pub proof fn plain_expressions(
    d: Dialect,
    value: crate::json::Json,
    name: String,
    base: Box<Expr>,
    idx: u32,
    env: Bindings,
    obs: Map<Seq<char>, Tags>,
    rs: Seq<Reply>,
    at: Talk,
)
    ensures
        ({
            let c = eval_out(d, Expr::Const { value }, env, obs, rs, at);
            c.end matches Ok(vl) && vl.0 == value@ && vl.1.conf.is_empty() && vl.1.integ.is_empty()
                && c.talk == at
        }),
        ({
            let v = eval_out(d, Expr::Var { name }, env, obs, rs, at);
            &&& v.talk == at
            &&& v.end matches Ok(vl) ==> env.contains_pair(name@, vl)
            &&& v.end is Ok <==> env.contains_key(name@)
        }),
        ({
            let b = eval_out(d, *base, env, obs, rs, at);
            let e = eval_out(d, Expr::Index { base, idx }, env, obs, rs, at);
            &&& e.talk == b.talk
            &&& e.end is Ok <==> b.end is Ok
            &&& e.end matches Ok(vl) ==> {
                &&& vl.1 == b.end->Ok_0.1
                &&& match b.end->Ok_0.0 {
                    Value::Array(items) => if idx < items.len() {
                        vl.0 == items[idx as int]
                    } else {
                        vl.0 is Null
                    },
                    _ => vl.0 is Null,
                }
            }
        }),
{
}

/// Whether an expression comes, at some point of the conversation, to a value under a label that
/// another label holds.
pub open spec fn comes_to(
    d: Dialect,
    e: Expr,
    env: Bindings,
    obs: Map<Seq<char>, Tags>,
    rs: Seq<Reply>,
    value: Value,
    above: Tags,
) -> bool {
    exists|t: Talk|
        (#[trigger] eval_out(d, e, env, obs, rs, t)).end matches Ok(one) && one.0 == value && below(
            one.1,
            above,
        )
}

/// Whether an expression comes to some value under a label that another label holds.
pub open spec fn comes_under(
    d: Dialect,
    e: Expr,
    env: Bindings,
    obs: Map<Seq<char>, Tags>,
    rs: Seq<Reply>,
    above: Tags,
) -> bool {
    exists|v: Value| comes_to(d, e, env, obs, rs, v, above)
}

/// The arguments of a read are evaluated one by one, in order, and the label of the whole is at
/// or above the label that it started from and the label of each argument.
pub proof fn arguments_are_carried(
    d: Dialect,
    es: Seq<Expr>,
    vals: Seq<Value>,
    label: Tags,
    env: Bindings,
    obs: Map<Seq<char>, Tags>,
    rs: Seq<Reply>,
    at: Talk,
)
    ensures
        eval_all_out(d, es, vals, label, env, obs, rs, at).end matches Ok(vl) ==> {
            &&& below(label, vl.1)
            &&& vl.0.len() == vals.len() + es.len()
            &&& vals.is_prefix_of(vl.0)
            &&& forall|i: int|
                0 <= i < es.len() ==> comes_to(
                    d,
                    #[trigger] es[i],
                    env,
                    obs,
                    rs,
                    vl.0[vals.len() + i],
                    vl.1,
                )
        },
    decreases es.len(),
{
    if es.len() > 0 {
        let one = eval_out(d, es[0], env, obs, rs, at);
        if let Ok(first) = one.end {
            let rest = es.drop_first();
            let vals2 = vals.push(first.0);
            let label2 = joined(label, first.1);
            arguments_are_carried(d, rest, vals2, label2, env, obs, rs, one.talk);
            if let Ok(vl) = eval_all_out(d, es, vals, label, env, obs, rs, at).end {
                assert(below(label, label2));
                assert(below(first.1, label2));
                assert(vl.0[vals.len() as int] == vals2[vals.len() as int]);
                assert forall|i: int| 0 <= i < vals.len() implies vals[i] == vl.0[i] by {
                    assert(vals2[i] == vl.0[i]);
                }
                assert(vals.is_prefix_of(vl.0));
                assert forall|i: int| 0 <= i < es.len() implies comes_to(
                    d,
                    #[trigger] es[i],
                    env,
                    obs,
                    rs,
                    vl.0[vals.len() + i],
                    vl.1,
                ) by {
                    if i > 0 {
                        assert(rest[i - 1] == es[i]);
                        assert(comes_to(
                            d,
                            rest[i - 1],
                            env,
                            obs,
                            rs,
                            vl.0[vals2.len() + (i - 1)],
                            vl.1,
                        ));
                        assert(vals2.len() + (i - 1) == vals.len() + i);
                    }
                }
            }
        }
    }
}

/// Whether the world answered the last question of a conversation with a value.
pub open spec fn answered(t: Talk, rs: Seq<Reply>, v: Value) -> bool {
    t.asks.len() > 0 && rs[t.asks.len() - 1] == Reply::Got(v)
}

/// What an observation brings carries the label that is declared for it and those of its
/// arguments, what a computation brings carries those of its arguments, and each is the world's
/// own answer to the last question.
pub proof fn reads_are_carried(
    d: Dialect,
    name: String,
    args: Vec<Expr>,
    env: Bindings,
    obs: Map<Seq<char>, Tags>,
    rs: Seq<Reply>,
    at: Talk,
)
    ensures
        ({
            let out = eval_out(d, Expr::Observe { verb: name, args }, env, obs, rs, at);
            out.end matches Ok(vl) ==> {
                &&& obs.contains_key(name@)
                &&& below(obs[name@], vl.1)
                &&& answered(out.talk, rs, vl.0)
                &&& forall|i: int|
                    0 <= i < args@.len() ==> comes_under(
                        d,
                        #[trigger] args@[i],
                        env,
                        obs,
                        rs,
                        vl.1,
                    )
            }
        }),
        ({
            let out = eval_out(d, Expr::Pure { func: name, args }, env, obs, rs, at);
            out.end matches Ok(vl) ==> {
                &&& answered(out.talk, rs, vl.0)
                &&& forall|i: int|
                    0 <= i < args@.len() ==> comes_under(
                        d,
                        #[trigger] args@[i],
                        env,
                        obs,
                        rs,
                        vl.1,
                    )
            }
        }),
{
    if obs.contains_key(name@) {
        arguments_are_carried(d, args@, Seq::empty(), obs[name@], env, obs, rs, at);
        let all = eval_all_out(d, args@, Seq::empty(), obs[name@], env, obs, rs, at);
        let out = eval_out(d, Expr::Observe { verb: name, args }, env, obs, rs, at);
        if let Ok(vl) = out.end {
            assert(all.end is Ok);
            assert(all.end->Ok_0.1 == vl.1);
            assert(rs[all.talk.asks.len() as int] == Reply::Got(vl.0));
            assert forall|i: int| 0 <= i < args@.len() implies comes_under(
                d,
                #[trigger] args@[i],
                env,
                obs,
                rs,
                vl.1,
            ) by {
                let w = all.end->Ok_0.0[Seq::<Value>::empty().len() + i];
                assert(comes_to(d, args@[i], env, obs, rs, w, vl.1));
            }
        }
    }
    arguments_are_carried(d, args@, Seq::empty(), crate::label::bottom(), env, obs, rs, at);
    let all = eval_all_out(d, args@, Seq::empty(), crate::label::bottom(), env, obs, rs, at);
    let out = eval_out(d, Expr::Pure { func: name, args }, env, obs, rs, at);
    if let Ok(vl) = out.end {
        assert(all.end is Ok);
        assert(all.end->Ok_0.1 == vl.1);
        assert(rs[all.talk.asks.len() as int] == Reply::Got(vl.0));
        assert forall|i: int| 0 <= i < args@.len() implies comes_under(
            d,
            #[trigger] args@[i],
            env,
            obs,
            rs,
            vl.1,
        ) by {
            let w = all.end->Ok_0.0[Seq::<Value>::empty().len() + i];
            assert(comes_to(d, args@[i], env, obs, rs, w, vl.1));
        }
    }
}

/// A conditional runs exactly one of its branches, under the control of its guard: the one where
/// the guard holds, and the other one where it does not.
pub proof fn a_conditional_runs_one_branch(
    guard: Guard,
    then_: Vec<Stmt>,
    else_: Vec<Stmt>,
    m: Machine,
    pc: Tags,
    decl: Declared,
    rs: Seq<Reply>,
)
    ensures
        ({
            let out = guard_out(Dialect::Direct, guard, m.env, decl.observed, rs, m.talk);
            let ran = run_stmt(Stmt::If { guard, then_, else_ }, m, pc, decl, rs);
            let at = Machine { talk: out.talk, ..m };
            &&& out.end matches Ok(t) ==> {
                &&& t.0 ==> ran == run_stmts(then_@, at, joined(pc, t.1), decl, rs)
                &&& !t.0 ==> ran == run_stmts(else_@, at, joined(pc, t.1), decl, rs)
            }
            &&& out.end is Err ==> ran.stop is Some && ran.m == at
        }),
{
}

/// The same of a run that the host of plans performs.
pub proof fn a_hosted_conditional_runs_one_branch(
    guard: Guard,
    then_: Vec<Stmt>,
    else_: Vec<Stmt>,
    remaining: nat,
    f: Fiber,
    pc: Tags,
    mode: Mode,
    decl: Declared,
    rs: Seq<Reply>,
)
    ensures
        ({
            let out = guard_out(Dialect::Brokered, guard, f.env, decl.observed, rs, f.talk);
            let went = go_stmt(
                Stmt::If { guard, then_, else_ },
                remaining,
                f,
                pc,
                mode,
                decl,
                rs,
            );
            let at = Fiber { talk: out.talk, ..f };
            &&& out.end matches Ok(t) ==> {
                &&& t.0 ==> went == go_stmts(then_@, at, joined(pc, t.1), mode, decl, rs)
                &&& !t.0 ==> went == go_stmts(else_@, at, joined(pc, t.1), mode, decl, rs)
            }
            &&& out.end is Err ==> went.stop is Some && went.f == at
        }),
{
}

/// Where a side of a conjunction is false, a conditional on the conjunction runs its other branch,
/// in a run on its own and in a hosted one.
pub proof fn a_false_side_runs_the_other_branch(
    l: Box<Guard>,
    r: Box<Guard>,
    then_: Vec<Stmt>,
    else_: Vec<Stmt>,
    m: Machine,
    remaining: nat,
    f: Fiber,
    mode: Mode,
    pc: Tags,
    decl: Declared,
    rs: Seq<Reply>,
)
    ensures
        ({
            let one = guard_out(Dialect::Direct, *l, m.env, decl.observed, rs, m.talk);
            let two = guard_out(Dialect::Direct, *r, m.env, decl.observed, rs, one.talk);
            one.end is Ok && two.end is Ok && !(one.end->Ok_0.0 && two.end->Ok_0.0) ==> exists|
                pc2: Tags,
            |
                below(pc, pc2) && run_stmt(
                    Stmt::If { guard: Guard::And { l, r }, then_, else_ },
                    m,
                    pc,
                    decl,
                    rs,
                ) == #[trigger] run_stmts(else_@, Machine { talk: two.talk, ..m }, pc2, decl, rs)
        }),
        ({
            let one = guard_out(Dialect::Brokered, *l, f.env, decl.observed, rs, f.talk);
            let two = guard_out(Dialect::Brokered, *r, f.env, decl.observed, rs, one.talk);
            one.end is Ok && two.end is Ok && !(one.end->Ok_0.0 && two.end->Ok_0.0) ==> exists|
                pc2: Tags,
            |
                below(pc, pc2) && go_stmt(
                    Stmt::If { guard: Guard::And { l, r }, then_, else_ },
                    remaining,
                    f,
                    pc,
                    mode,
                    decl,
                    rs,
                ) == #[trigger] go_stmts(
                    else_@,
                    Fiber { talk: two.talk, ..f },
                    pc2,
                    mode,
                    decl,
                    rs,
                )
        }),
{
    let guard = Guard::And { l, r };
    a_conjunction_needs_both(Dialect::Direct, l, r, m.env, decl.observed, rs, m.talk);
    a_conjunction_needs_both(Dialect::Brokered, l, r, f.env, decl.observed, rs, f.talk);
    a_conditional_runs_one_branch(guard, then_, else_, m, pc, decl, rs);
    a_hosted_conditional_runs_one_branch(guard, then_, else_, remaining, f, pc, mode, decl, rs);
    let a = guard_out(Dialect::Direct, guard, m.env, decl.observed, rs, m.talk);
    let b = guard_out(Dialect::Brokered, guard, f.env, decl.observed, rs, f.talk);
    if let Ok(t) = a.end {
        assert(below(pc, joined(pc, t.1)));
    }
    if let Ok(t) = b.end {
        assert(below(pc, joined(pc, t.1)));
    }
}

} // verus!

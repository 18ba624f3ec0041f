//! What holds of every run of a plan, whatever the world replies.

use crate::eval::{eval_all_out, eval_out, guard_out, Ask, Bindings, Dialect, Reply, Talk};
use crate::interp::{
    effect_failure, is_external, items_of, left, loop_entry, noted, run_effect, run_items,
    run_stmt, run_stmts, truncate_note, Declared, Ending, Machine,
};
use crate::json::Value;
use crate::label::{bottom, joined, Tags};
use crate::plan::{Expr, Guard, Mode, Stmt};
use crate::plancheck::{sat, stmt_demand, stmts_demand};
use vstd::prelude::*;

verus! {

/// How often a verb was put to the world as an effect.
pub open spec fn performed(asks: Seq<Ask>, verb: Seq<char>) -> nat
    decreases asks.len(),
{
    if asks.len() == 0 {
        0
    } else {
        performed(asks.drop_last(), verb) + if asks.last() matches Ask::Effect { verb: v, .. } && v
            == verb {
            1nat
        } else {
            0nat
        }
    }
}

/// How many effects the world reported as done.
pub open spec fn executed(asks: Seq<Ask>, rs: Seq<Reply>) -> nat
    decreases asks.len(),
{
    if asks.len() == 0 {
        0
    } else {
        executed(asks.drop_last(), rs) + if asks.last() is Effect && effect_failure(
            rs[asks.len() - 1],
        ) is None {
            1nat
        } else {
            0nat
        }
    }
}

/// Whether one conversation goes on from another without an effect.
pub open spec fn only_reads(a: Seq<Ask>, b: Seq<Ask>, rs: Seq<Reply>) -> bool {
    &&& a.is_prefix_of(b)
    &&& forall|v: Seq<char>| #[trigger] performed(b, v) == performed(a, v)
    &&& executed(b, rs) == executed(a, rs)
}

/// Evaluation of expressions performs no effect: reading and computing are not metered.
pub proof fn expressions_are_free(
    e: Expr,
    env: Bindings,
    obs: Map<Seq<char>, Tags>,
    rs: Seq<Reply>,
    at: Talk,
)
    ensures
        only_reads(at.asks, eval_out(Dialect::Direct, e, env, obs, rs, at).talk.asks, rs),
    decreases e,
{
    let d = Dialect::Direct;
    let after = eval_out(d, e, env, obs, rs, at).talk.asks;
    match e {
        Expr::Observe { verb, args } => {
            if obs.contains_key(verb@) {
                lists_are_free(args@, Seq::empty(), obs[verb@], env, obs, rs, at);
                let all = eval_all_out(d, args@, Seq::empty(), obs[verb@], env, obs, rs, at);
                if all.end is Ok {
                    assert(after.drop_last() =~= all.talk.asks);
                    one_more_read(at.asks, all.talk.asks, after, rs);
                }
            }
        },
        Expr::Pure { func, args } => {
            lists_are_free(args@, Seq::empty(), bottom(), env, obs, rs, at);
            let all = eval_all_out(d, args@, Seq::empty(), bottom(), env, obs, rs, at);
            if all.end is Ok {
                assert(after.drop_last() =~= all.talk.asks);
                one_more_read(at.asks, all.talk.asks, after, rs);
            }
        },
        Expr::Index { base, idx } => {
            expressions_are_free(*base, env, obs, rs, at);
        },
        _ => {},
    }
}

proof fn one_more_read(a: Seq<Ask>, b: Seq<Ask>, c: Seq<Ask>, rs: Seq<Reply>)
    requires
        only_reads(a, b, rs),
        c.len() == b.len() + 1,
        c.drop_last() == b,
        c.last() is Read,
    ensures
        only_reads(a, c, rs),
{
    assert(a.is_prefix_of(c)) by {
        assert forall|i: int| 0 <= i < a.len() implies a[i] == c[i] by {
            assert(a[i] == b[i]);
            assert(b[i] == c[i]);
        }
    }
    assert forall|v: Seq<char>| #[trigger] performed(c, v) == performed(a, v) by {
        assert(performed(b, v) == performed(a, v));
    }
}

/// Evaluation of a list of expressions performs no effect.
pub proof fn lists_are_free(
    es: Seq<Expr>,
    vals: Seq<Value>,
    label: Tags,
    env: Bindings,
    obs: Map<Seq<char>, Tags>,
    rs: Seq<Reply>,
    at: Talk,
)
    ensures
        only_reads(
            at.asks,
            eval_all_out(Dialect::Direct, es, vals, label, env, obs, rs, at).talk.asks,
            rs,
        ),
    decreases es,
{
    if es.len() > 0 {
        expressions_are_free(es[0], env, obs, rs, at);
        let one = eval_out(Dialect::Direct, es[0], env, obs, rs, at);
        if one.end is Ok {
            let vl = one.end->Ok_0;
            lists_are_free(
                es.drop_first(),
                vals.push(vl.0),
                joined(label, vl.1),
                env,
                obs,
                rs,
                one.talk,
            );
        }
    }
}

/// Evaluation of a guard performs no effect.
pub proof fn guards_are_free(
    g: Guard,
    env: Bindings,
    obs: Map<Seq<char>, Tags>,
    rs: Seq<Reply>,
    at: Talk,
)
    ensures
        only_reads(at.asks, guard_out(Dialect::Direct, g, env, obs, rs, at).talk.asks, rs),
    decreases g,
{
    let d = Dialect::Direct;
    match g {
        Guard::Exists { expr } => {
            expressions_are_free(*expr, env, obs, rs, at);
        },
        Guard::Matches { expr, regex } => {
            expressions_are_free(*expr, env, obs, rs, at);
        },
        Guard::Cmp { lhs, op, rhs } => {
            expressions_are_free(*lhs, env, obs, rs, at);
            let one = eval_out(d, *lhs, env, obs, rs, at);
            expressions_are_free(*rhs, env, obs, rs, one.talk);
        },
        Guard::And { l, r } => {
            guards_are_free(*l, env, obs, rs, at);
            let one = guard_out(d, *l, env, obs, rs, at);
            guards_are_free(*r, env, obs, rs, one.talk);
        },
        Guard::Or { l, r } => {
            guards_are_free(*l, env, obs, rs, at);
            let one = guard_out(d, *l, env, obs, rs, at);
            guards_are_free(*r, env, obs, rs, one.talk);
        },
        Guard::Not { g } => {
            guards_are_free(*g, env, obs, rs, at);
        },
    }
}

/// Whether the budget of one state has paid for exactly the effects that were performed since
/// another one, and the count of executed effects says how many were done.
pub open spec fn accounted(a: Machine, b: Machine, rs: Seq<Reply>) -> bool {
    &&& a.talk.asks.is_prefix_of(b.talk.asks)
    &&& forall|v: Seq<char>| #![trigger left(b.budget, v)]
        left(a.budget, v) + performed(a.talk.asks, v) == left(b.budget, v) + performed(
            b.talk.asks,
            v,
        )
    &&& executed(a.talk.asks, rs) <= executed(b.talk.asks, rs)
    &&& b.effects == sat(
        a.effects + executed(b.talk.asks, rs) - executed(a.talk.asks, rs),
    )
}

proof fn accounted_reads(a: Machine, b: Machine, rs: Seq<Reply>)
    requires
        only_reads(a.talk.asks, b.talk.asks, rs),
        a.budget == b.budget,
        a.effects == b.effects,
    ensures
        accounted(a, b, rs),
{
    assert forall|v: Seq<char>| #![trigger left(b.budget, v)]
        left(a.budget, v) + performed(a.talk.asks, v) == left(b.budget, v) + performed(
            b.talk.asks,
            v,
        ) by {
        assert(performed(b.talk.asks, v) == performed(a.talk.asks, v));
    }
}

proof fn accounted_chain(a: Machine, b: Machine, c: Machine, rs: Seq<Reply>)
    requires
        accounted(a, b, rs),
        accounted(b, c, rs),
    ensures
        accounted(a, c, rs),
{
    assert forall|v: Seq<char>| #![trigger left(c.budget, v)]
        left(a.budget, v) + performed(a.talk.asks, v) == left(c.budget, v) + performed(
            c.talk.asks,
            v,
        ) by {
        assert(left(a.budget, v) + performed(a.talk.asks, v) == left(b.budget, v) + performed(
            b.talk.asks,
            v,
        ));
    }
}

/// The monitor accounts for an effect.
pub proof fn effect_accounted(
    verb: Seq<char>,
    vals: Seq<Value>,
    label: Tags,
    m: Machine,
    decl: Declared,
    rs: Seq<Reply>,
)
    ensures
        accounted(m, run_effect(verb, vals, label, m, decl, rs).m, rs),
{
    let b = run_effect(verb, vals, label, m, decl, rs).m;
    let refused = is_external(decl, verb) && label.conf != Set::<Seq<char>>::empty();
    if !refused && left(m.budget, verb) > 0 {
        assert(b.talk.asks.drop_last() =~= m.talk.asks);
        assert(m.talk.asks.is_prefix_of(b.talk.asks));
    }
}

/// The budget of a run is conserved: what has been performed of a verb and what is left of its
/// budget always make up the same sum, so that no run performs a verb more often than was
/// granted; and the count of executed effects is the number of those that the world reported
/// as done.
pub proof fn budget_is_conserved(
    ss: Seq<Stmt>,
    m: Machine,
    pc: Tags,
    decl: Declared,
    rs: Seq<Reply>,
)
    ensures
        accounted(m, run_stmts(ss, m, pc, decl, rs).m, rs),
    decreases ss, 0nat,
{
    if ss.len() == 0 {
        accounted_reads(m, m, rs);
    } else {
        stmt_is_conserved(ss[0], m, pc, decl, rs);
        let one = run_stmt(ss[0], m, pc, decl, rs);
        if one.stop is None {
            budget_is_conserved(ss.drop_first(), one.m, pc, decl, rs);
            accounted_chain(m, one.m, run_stmts(ss, m, pc, decl, rs).m, rs);
        }
    }
}

proof fn stmt_is_conserved(s: Stmt, m: Machine, pc: Tags, decl: Declared, rs: Seq<Reply>)
    ensures
        accounted(m, run_stmt(s, m, pc, decl, rs).m, rs),
    decreases s, 0nat,
{
    let d = Dialect::Direct;
    let after = run_stmt(s, m, pc, decl, rs).m;
    match s {
        Stmt::Let { var, expr } => {
            expressions_are_free(expr, m.env, decl.observed, rs, m.talk);
            accounted_reads(m, after, rs);
        },
        Stmt::Effect { verb, args } => {
            lists_are_free(args@, Seq::empty(), pc, m.env, decl.observed, rs, m.talk);
            let all = eval_all_out(
                d,
                args@,
                Seq::empty(),
                pc,
                m.env,
                decl.observed,
                rs,
                m.talk,
            );
            let m1 = Machine { talk: all.talk, ..m };
            accounted_reads(m, m1, rs);
            if all.end is Ok {
                let vl = all.end->Ok_0;
                effect_accounted(verb@, vl.0, vl.1, m1, decl, rs);
                accounted_chain(m, m1, after, rs);
            }
        },
        Stmt::If { guard, then_, else_ } => {
            guards_are_free(guard, m.env, decl.observed, rs, m.talk);
            let one = guard_out(d, guard, m.env, decl.observed, rs, m.talk);
            let m1 = Machine { talk: one.talk, ..m };
            accounted_reads(m, m1, rs);
            if one.end is Ok {
                let bl = one.end->Ok_0;
                if bl.0 {
                    budget_is_conserved(then_@, m1, joined(pc, bl.1), decl, rs);
                } else {
                    budget_is_conserved(else_@, m1, joined(pc, bl.1), decl, rs);
                }
                accounted_chain(m, m1, after, rs);
            }
        },
        Stmt::Foreach { var, list, bound, mode, body } => {
            expressions_are_free(list, m.env, decl.observed, rs, m.talk);
            let one = eval_out(d, list, m.env, decl.observed, rs, m.talk);
            let m1 = Machine { talk: one.talk, ..m };
            accounted_reads(m, m1, rs);
            if one.end is Ok {
                let vl = one.end->Ok_0;
                let items = items_of(vl.0);
                let pc2 = joined(pc, vl.1);
                if items.len() <= bound {
                    items_are_conserved(items, var@, vl.1, body, m1, pc2, decl, rs);
                    accounted_chain(m, m1, after, rs);
                } else {
                    match mode {
                        Mode::Strict => {
                            accounted_reads(m, after, rs);
                        },
                        Mode::Truncate => {
                            let m2 = Machine {
                                talk: noted(
                                    one.talk,
                                    loop_entry(
                                        true,
                                        truncate_note(bound, items.len()),
                                    ),
                                ),
                                ..m
                            };
                            accounted_reads(m, m2, rs);
                            items_are_conserved(
                                items.take(bound as int),
                                var@,
                                vl.1,
                                body,
                                m2,
                                pc2,
                                decl,
                                rs,
                            );
                            accounted_chain(m, m2, after, rs);
                        },
                        Mode::Escalate => {},
                    }
                }
            }
        },
    }
}

proof fn items_are_conserved(
    items: Seq<Value>,
    var: Seq<char>,
    label: Tags,
    body: Vec<Stmt>,
    m: Machine,
    pc: Tags,
    decl: Declared,
    rs: Seq<Reply>,
)
    ensures
        accounted(m, run_items(items, var, label, body, m, pc, decl, rs).m, rs),
    decreases body, items.len(),
{
    if items.len() == 0 {
        accounted_reads(m, m, rs);
    } else {
        let m1 = Machine { env: m.env.insert(var, (items[0], label)), ..m };
        accounted_reads(m, m1, rs);
        budget_is_conserved(body@, m1, pc, decl, rs);
        let once = run_stmts(body@, m1, pc, decl, rs);
        accounted_chain(m, m1, once.m, rs);
        if once.stop is None {
            items_are_conserved(items.drop_first(), var, label, body, once.m, pc, decl, rs);
            accounted_chain(
                m,
                once.m,
                run_items(items, var, label, body, m, pc, decl, rs).m,
                rs,
            );
        }
    }
}

/// Whether a budget covers a number of runs of some statements.
pub open spec fn covers(budget: Map<Seq<char>, u64>, ss: Seq<Stmt>, times: nat) -> bool {
    forall|v: Seq<char>| #![trigger left(budget, v)]
        times * stmts_demand(ss, v) <= left(budget, v)
}

/// Whether one budget is another one after at most a number of runs of some statements.
pub open spec fn drawn(
    before: Map<Seq<char>, u64>,
    after: Map<Seq<char>, u64>,
    ss: Seq<Stmt>,
    times: nat,
) -> bool {
    forall|v: Seq<char>| #![trigger left(after, v)]
        left(before, v) <= left(after, v) + times * stmts_demand(ss, v)
}

/// The derived budget is enough: a run whose budget covers what the statements can demand never
/// ends for want of budget, and draws no more than that.
pub proof fn derived_budget_suffices(
    ss: Seq<Stmt>,
    m: Machine,
    pc: Tags,
    decl: Declared,
    rs: Seq<Reply>,
)
    requires
        covers(m.budget, ss, 1),
    ensures
        !(run_stmts(ss, m, pc, decl, rs).stop matches Some(Ending::BudgetExhausted(_))),
        drawn(m.budget, run_stmts(ss, m, pc, decl, rs).m.budget, ss, 1),
    decreases ss, 0nat,
{
    if ss.len() > 0 {
        let rest = ss.drop_first();
        let one = run_stmt(ss[0], m, pc, decl, rs);
        assert forall|v: Seq<char>| stmt_demand(ss[0], v) <= left(m.budget, v) by {
            assert(1 * stmts_demand(ss, v) <= left(m.budget, v));
        }
        stmt_budget_suffices(ss[0], m, pc, decl, rs);
        let end = run_stmts(ss, m, pc, decl, rs);
        if one.stop is None {
            assert forall|v: Seq<char>| #![trigger left(one.m.budget, v)]
                1 * stmts_demand(rest, v) <= left(one.m.budget, v) by {
                assert(1 * stmts_demand(ss, v) <= left(m.budget, v));
                assert(left(m.budget, v) <= left(one.m.budget, v) + stmt_demand(ss[0], v));
            }
            derived_budget_suffices(rest, one.m, pc, decl, rs);
            assert forall|v: Seq<char>| #![trigger left(end.m.budget, v)]
                left(m.budget, v) <= left(end.m.budget, v) + 1 * stmts_demand(ss, v) by {
                assert(left(m.budget, v) <= left(one.m.budget, v) + stmt_demand(ss[0], v));
                assert(left(one.m.budget, v) <= left(end.m.budget, v) + 1 * stmts_demand(rest, v));
            }
        } else {
            assert forall|v: Seq<char>| #![trigger left(end.m.budget, v)]
                left(m.budget, v) <= left(end.m.budget, v) + 1 * stmts_demand(ss, v) by {
                assert(left(m.budget, v) <= left(one.m.budget, v) + stmt_demand(ss[0], v));
            }
        }
    }
}

proof fn stmt_budget_suffices(s: Stmt, m: Machine, pc: Tags, decl: Declared, rs: Seq<Reply>)
    requires
        forall|v: Seq<char>| stmt_demand(s, v) <= left(m.budget, v),
    ensures
        !(run_stmt(s, m, pc, decl, rs).stop matches Some(Ending::BudgetExhausted(_))),
        forall|v: Seq<char>| #![trigger left(run_stmt(s, m, pc, decl, rs).m.budget, v)]
            left(m.budget, v) <= left(run_stmt(s, m, pc, decl, rs).m.budget, v) + stmt_demand(s, v),
    decreases s, 0nat,
{
    let d = Dialect::Direct;
    let after = run_stmt(s, m, pc, decl, rs);
    match s {
        Stmt::Let { var, expr } => {},
        Stmt::Effect { verb, args } => {
            assert(stmt_demand(s, verb@) == 1);
        },
        Stmt::If { guard, then_, else_ } => {
            let one = guard_out(d, guard, m.env, decl.observed, rs, m.talk);
            let m1 = Machine { talk: one.talk, ..m };
            if one.end is Ok {
                let bl = one.end->Ok_0;
                let branch = if bl.0 {
                    then_@
                } else {
                    else_@
                };
                assert forall|v: Seq<char>| #![trigger left(m1.budget, v)]
                    1 * stmts_demand(branch, v) <= left(m1.budget, v) by {
                    assert(stmt_demand(s, v) <= left(m.budget, v));
                }
                derived_budget_suffices(branch, m1, joined(pc, bl.1), decl, rs);
                assert forall|v: Seq<char>| #![trigger left(after.m.budget, v)]
                    left(m.budget, v) <= left(after.m.budget, v) + stmt_demand(s, v) by {
                    assert(left(m1.budget, v) <= left(after.m.budget, v) + 1 * stmts_demand(
                        branch,
                        v,
                    ));
                }
            }
        },
        Stmt::Foreach { var, list, bound, mode, body } => {
            let one = eval_out(d, list, m.env, decl.observed, rs, m.talk);
            if one.end is Ok {
                let vl = one.end->Ok_0;
                let items = items_of(vl.0);
                let pc2 = joined(pc, vl.1);
                let m1 = Machine { talk: one.talk, ..m };
                let m2 = Machine {
                    talk: noted(
                        one.talk,
                        loop_entry(
                            true,
                            truncate_note(bound, items.len()),
                        ),
                    ),
                    ..m
                };
                let few = items.take(bound as int);
                let (its, mm) = if items.len() <= bound {
                    (items, m1)
                } else {
                    (few, m2)
                };
                if items.len() <= bound || mode == Mode::Truncate {
                    assert forall|v: Seq<char>| #![trigger left(mm.budget, v)]
                        its.len() * stmts_demand(body@, v) <= left(mm.budget, v) by {
                        assert(stmt_demand(s, v) <= left(m.budget, v));
                        scaled(its.len(), bound as nat, stmts_demand(body@, v));
                    }
                    items_budget_suffices(its, var@, vl.1, body, mm, pc2, decl, rs);
                    assert forall|v: Seq<char>| #![trigger left(after.m.budget, v)]
                        left(m.budget, v) <= left(after.m.budget, v) + stmt_demand(s, v) by {
                        assert(left(mm.budget, v) <= left(after.m.budget, v) + its.len()
                            * stmts_demand(body@, v));
                        scaled(its.len(), bound as nat, stmts_demand(body@, v));
                    }
                }
            }
        },
    }
}

proof fn scaled(a: nat, b: nat, d: nat)
    requires
        a <= b,
    ensures
        a * d <= b * d,
{
    assert(a * d <= b * d) by (nonlinear_arith)
        requires
            a <= b,
    ;
}

proof fn items_budget_suffices(
    items: Seq<Value>,
    var: Seq<char>,
    label: Tags,
    body: Vec<Stmt>,
    m: Machine,
    pc: Tags,
    decl: Declared,
    rs: Seq<Reply>,
)
    requires
        covers(m.budget, body@, items.len()),
    ensures
        !(run_items(items, var, label, body, m, pc, decl, rs).stop matches Some(
            Ending::BudgetExhausted(_),
        )),
        drawn(
            m.budget,
            run_items(items, var, label, body, m, pc, decl, rs).m.budget,
            body@,
            items.len(),
        ),
    decreases body, items.len(),
{
    let end = run_items(items, var, label, body, m, pc, decl, rs);
    if items.len() == 0 {
        assert forall|v: Seq<char>| #![trigger left(end.m.budget, v)]
            left(m.budget, v) <= left(end.m.budget, v) + 0 * stmts_demand(body@, v) by {}
    } else {
        let n = items.len();
        let m1 = Machine { env: m.env.insert(var, (items[0], label)), ..m };
        assert forall|v: Seq<char>| #![trigger left(m1.budget, v)]
            1 * stmts_demand(body@, v) <= left(m1.budget, v) by {
            assert(n * stmts_demand(body@, v) <= left(m.budget, v));
            scaled(1, n, stmts_demand(body@, v));
        }
        derived_budget_suffices(body@, m1, pc, decl, rs);
        let once = run_stmts(body@, m1, pc, decl, rs);
        if once.stop is None {
            assert forall|v: Seq<char>| #![trigger left(once.m.budget, v)]
                (n - 1) as nat * stmts_demand(body@, v) <= left(once.m.budget, v) by {
                assert(n * stmts_demand(body@, v) <= left(m.budget, v));
                assert(left(m1.budget, v) <= left(once.m.budget, v) + 1 * stmts_demand(body@, v));
                let d = stmts_demand(body@, v);
                assert((n - 1) as nat * d + d == n * d) by (nonlinear_arith)
                    requires
                        n >= 1,
                ;
            }
            items_budget_suffices(items.drop_first(), var, label, body, once.m, pc, decl, rs);
            assert forall|v: Seq<char>| #![trigger left(end.m.budget, v)]
                left(m.budget, v) <= left(end.m.budget, v) + n * stmts_demand(body@, v) by {
                assert(left(m1.budget, v) <= left(once.m.budget, v) + 1 * stmts_demand(body@, v));
                assert(left(once.m.budget, v) <= left(end.m.budget, v) + (n - 1) as nat
                    * stmts_demand(body@, v));
                let d = stmts_demand(body@, v);
                assert((n - 1) as nat * d + d == n * d) by (nonlinear_arith)
                    requires
                        n >= 1,
                ;
            }
        } else {
            assert forall|v: Seq<char>| #![trigger left(end.m.budget, v)]
                left(m.budget, v) <= left(end.m.budget, v) + n * stmts_demand(body@, v) by {
                assert(left(m1.budget, v) <= left(once.m.budget, v) + 1 * stmts_demand(body@, v));
                scaled(1, n, stmts_demand(body@, v));
            }
        }
    }
}

} // verus!

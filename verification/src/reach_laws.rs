//! A hosted run asks the broker only for verbs that its plan reaches.

use crate::eval::{
    asked, eval_all_out, eval_out, guard_out, Ask, Bindings, Dialect, Read, ReadKind, Reply, Talk,
};
use crate::interp::{is_external, items_of, Declared};
use crate::json::Value;
use crate::label::{bottom, joined, Tags};
use crate::plan::{Expr, Guard, Mode, Stmt};
use crate::plan_demand::{
    expr_reaches, exprs_reach, guard_reaches, stmt_reaches, stmts_reach, Order,
};
use crate::plan_interp::{
    effect_args, effect_event, effect_out, fresh_orders, go_items, go_stmt, go_stmts, lacks_budget,
    loop_event, loop_extra, mint_all_out, park_out, parking_asks, paused_event, perform_out,
    policy_of, signal_of, tell, unheard, Fiber,
};
use crate::plan_runtime::{HostAsk, SignalView};
use crate::plan_types::RunState;
use crate::plancheck::{stmt_names, stmts_name};
use vstd::prelude::*;

verus! {

/// Whether one conversation goes on from another without asking the broker for any but some verbs.
pub open spec fn asks_within(a: Seq<Ask>, b: Seq<Ask>, ok: Set<Seq<char>>) -> bool {
    &&& a.is_prefix_of(b)
    &&& forall|i: int|
        a.len() <= i < b.len() ==> (#[trigger] b[i] matches Ask::Invoke { verb, .. } ==> ok.contains(
            verb,
        ))
}

proof fn within_on(a: Seq<Ask>, b: Seq<Ask>, c: Seq<Ask>, ok: Set<Seq<char>>)
    requires
        asks_within(a, b, ok),
        asks_within(b, c, ok),
    ensures
        asks_within(a, c, ok),
{
    assert forall|i: int| 0 <= i < a.len() implies a[i] == c[i] by {
        assert(a[i] == b[i]);
        assert(b[i] == c[i]);
    }
    assert(a.is_prefix_of(c));
    assert forall|i: int| a.len() <= i < c.len() implies (#[trigger] c[i] matches Ask::Invoke {
        verb,
        ..
    } ==> ok.contains(verb)) by {
        if i < b.len() {
            assert(b[i] == c[i]);
        }
    }
}

proof fn told_within(t: Talk, ask: HostAsk, ok: Set<Seq<char>>)
    ensures
        asks_within(t.asks, tell(t, ask).asks, ok),
{
}

proof fn put_within(a: Seq<Ask>, verb: Seq<char>, args: Value, ok: Set<Seq<char>>)
    requires
        ok.contains(verb),
    ensures
        asks_within(a, a.push(Ask::Invoke { verb, args }), ok),
{
}

/// An expression asks the broker only for verbs that it reaches.
pub proof fn expressions_ask_within(
    e: Expr,
    env: Bindings,
    obs: Map<Seq<char>, Tags>,
    rs: Seq<Reply>,
    at: Talk,
    ok: Set<Seq<char>>,
)
    requires
        forall|v: Seq<char>| #[trigger] expr_reaches(e, v) ==> ok.contains(v),
    ensures
        asks_within(at.asks, eval_out(Dialect::Brokered, e, env, obs, rs, at).talk.asks, ok),
    decreases e,
{
    let d = Dialect::Brokered;
    let out = eval_out(d, e, env, obs, rs, at);
    match e {
        Expr::Observe { verb, args } => {
            assert(expr_reaches(e, verb@));
            assert forall|v: Seq<char>| #[trigger] exprs_reach(args@, v) implies ok.contains(v) by {
                assert(expr_reaches(e, v));
            }
            if obs.contains_key(verb@) {
                lists_ask_within(args@, Seq::empty(), obs[verb@], env, obs, rs, at, ok);
                let all = eval_all_out(d, args@, Seq::empty(), obs[verb@], env, obs, rs, at);
                if let Ok(vl) = all.end {
                    let r = Read { kind: ReadKind::Observe, name: verb@, args: vl.0 };
                    assert(out.talk.asks == all.talk.asks.push(asked(d, r)));
                    assert(asks_within(all.talk.asks, out.talk.asks, ok));
                    within_on(at.asks, all.talk.asks, out.talk.asks, ok);
                }
            }
        },
        Expr::Pure { func, args } => {
            assert(expr_reaches(e, "compute::run"@));
            assert forall|v: Seq<char>| #[trigger] exprs_reach(args@, v) implies ok.contains(v) by {
                assert(expr_reaches(e, v));
            }
            lists_ask_within(args@, Seq::empty(), bottom(), env, obs, rs, at, ok);
            let all = eval_all_out(d, args@, Seq::empty(), bottom(), env, obs, rs, at);
            if let Ok(vl) = all.end {
                let r = Read { kind: ReadKind::Pure, name: func@, args: vl.0 };
                assert(out.talk.asks == all.talk.asks.push(asked(d, r)));
                assert(asks_within(all.talk.asks, out.talk.asks, ok));
                within_on(at.asks, all.talk.asks, out.talk.asks, ok);
            }
        },
        Expr::Index { base, idx } => {
            assert forall|v: Seq<char>| #[trigger] expr_reaches(*base, v) implies ok.contains(
                v,
            ) by {
                assert(expr_reaches(e, v));
            }
            expressions_ask_within(*base, env, obs, rs, at, ok);
        },
        _ => {},
    }
}

proof fn lists_ask_within(
    es: Seq<Expr>,
    vals: Seq<Value>,
    label: Tags,
    env: Bindings,
    obs: Map<Seq<char>, Tags>,
    rs: Seq<Reply>,
    at: Talk,
    ok: Set<Seq<char>>,
)
    requires
        forall|v: Seq<char>| #[trigger] exprs_reach(es, v) ==> ok.contains(v),
    ensures
        asks_within(
            at.asks,
            eval_all_out(Dialect::Brokered, es, vals, label, env, obs, rs, at).talk.asks,
            ok,
        ),
    decreases es,
{
    let d = Dialect::Brokered;
    if es.len() > 0 {
        let rest = es.drop_first();
        assert forall|v: Seq<char>| #[trigger] expr_reaches(es[0], v) implies ok.contains(v) by {
            assert(exprs_reach(es, v));
        }
        assert forall|v: Seq<char>| #[trigger] exprs_reach(rest, v) implies ok.contains(v) by {
            let i = choose|i: int| 0 <= i < rest.len() && expr_reaches(#[trigger] rest[i], v);
            assert(es[i + 1] == rest[i]);
            assert(exprs_reach(es, v));
        }
        expressions_ask_within(es[0], env, obs, rs, at, ok);
        let one = eval_out(d, es[0], env, obs, rs, at);
        if let Ok(vl) = one.end {
            lists_ask_within(
                rest,
                vals.push(vl.0),
                joined(label, vl.1),
                env,
                obs,
                rs,
                one.talk,
                ok,
            );
            let out = eval_all_out(d, es, vals, label, env, obs, rs, at);
            within_on(at.asks, one.talk.asks, out.talk.asks, ok);
        }
    }
}

/// A guard asks the broker only for verbs that it reaches.
pub proof fn guards_ask_within(
    g: Guard,
    env: Bindings,
    obs: Map<Seq<char>, Tags>,
    rs: Seq<Reply>,
    at: Talk,
    ok: Set<Seq<char>>,
)
    requires
        forall|v: Seq<char>| #[trigger] guard_reaches(g, v) ==> ok.contains(v),
    ensures
        asks_within(at.asks, guard_out(Dialect::Brokered, g, env, obs, rs, at).talk.asks, ok),
    decreases g,
{
    let d = Dialect::Brokered;
    let out = guard_out(d, g, env, obs, rs, at);
    match g {
        Guard::Exists { expr } => {
            assert forall|v: Seq<char>| #[trigger] expr_reaches(*expr, v) implies ok.contains(
                v,
            ) by {
                assert(guard_reaches(g, v));
            }
            expressions_ask_within(*expr, env, obs, rs, at, ok);
        },
        Guard::Matches { expr, regex } => {
            assert forall|v: Seq<char>| #[trigger] expr_reaches(*expr, v) implies ok.contains(
                v,
            ) by {
                assert(guard_reaches(g, v));
            }
            expressions_ask_within(*expr, env, obs, rs, at, ok);
        },
        Guard::Cmp { lhs, op, rhs } => {
            assert forall|v: Seq<char>| #[trigger] expr_reaches(*lhs, v) implies ok.contains(
                v,
            ) by {
                assert(guard_reaches(g, v));
            }
            assert forall|v: Seq<char>| #[trigger] expr_reaches(*rhs, v) implies ok.contains(
                v,
            ) by {
                assert(guard_reaches(g, v));
            }
            expressions_ask_within(*lhs, env, obs, rs, at, ok);
            let one = eval_out(d, *lhs, env, obs, rs, at);
            if one.end is Ok {
                expressions_ask_within(*rhs, env, obs, rs, one.talk, ok);
                within_on(at.asks, one.talk.asks, out.talk.asks, ok);
            }
        },
        Guard::And { l, r } => {
            assert forall|v: Seq<char>| #[trigger] guard_reaches(*l, v) implies ok.contains(v) by {
                assert(guard_reaches(g, v));
            }
            assert forall|v: Seq<char>| #[trigger] guard_reaches(*r, v) implies ok.contains(v) by {
                assert(guard_reaches(g, v));
            }
            guards_ask_within(*l, env, obs, rs, at, ok);
            let one = guard_out(d, *l, env, obs, rs, at);
            if one.end is Ok {
                guards_ask_within(*r, env, obs, rs, one.talk, ok);
                within_on(at.asks, one.talk.asks, out.talk.asks, ok);
            }
        },
        Guard::Or { l, r } => {
            assert forall|v: Seq<char>| #[trigger] guard_reaches(*l, v) implies ok.contains(v) by {
                assert(guard_reaches(g, v));
            }
            assert forall|v: Seq<char>| #[trigger] guard_reaches(*r, v) implies ok.contains(v) by {
                assert(guard_reaches(g, v));
            }
            guards_ask_within(*l, env, obs, rs, at, ok);
            let one = guard_out(d, *l, env, obs, rs, at);
            if one.end is Ok {
                guards_ask_within(*r, env, obs, rs, one.talk, ok);
                within_on(at.asks, one.talk.asks, out.talk.asks, ok);
            }
        },
        Guard::Not { g: inner } => {
            assert forall|v: Seq<char>| #[trigger] guard_reaches(*inner, v) implies ok.contains(
                v,
            ) by {
                assert(guard_reaches(g, v));
            }
            guards_ask_within(*inner, env, obs, rs, at, ok);
        },
    }
}

proof fn minting_within(orders: Seq<Order>, at: Talk, rs: Seq<Reply>, ok: Set<Seq<char>>)
    ensures
        asks_within(at.asks, mint_all_out(orders, at, rs).0.asks, ok),
    decreases orders.len(),
{
    if orders.len() > 0 {
        let t = tell(at, HostAsk::Mint(orders[0]));
        told_within(at, HostAsk::Mint(orders[0]), ok);
        minting_within(orders.drop_first(), t, rs, ok);
        within_on(at.asks, t.asks, mint_all_out(orders.drop_first(), t, rs).0.asks, ok);
    }
}

proof fn parking_within(f: Fiber, rs: Seq<Reply>, ok: Set<Seq<char>>)
    ensures
        asks_within(f.talk.asks, park_out(f, rs).f.talk.asks, ok),
{
    let a1 = HostAsk::SetState(RunState::Paused);
    let a2 = HostAsk::Audit { event: "plan.paused"@, extra: Value::Object(Seq::empty()) };
    let a3 = HostAsk::Emit(paused_event());
    let t1 = tell(f.talk, a1);
    let t2 = tell(t1, a2);
    let t3 = tell(t2, a3);
    let t4 = tell(t3, HostAsk::Await);
    told_within(f.talk, a1, ok);
    told_within(t1, a2, ok);
    told_within(t2, a3, ok);
    told_within(t3, HostAsk::Await, ok);
    within_on(f.talk.asks, t1.asks, t2.asks, ok);
    within_on(f.talk.asks, t2.asks, t3.asks, ok);
    within_on(f.talk.asks, t3.asks, t4.asks, ok);
    if let SignalView::Resume(c) = signal_of(rs[t3.asks.len() as int]) {
        minting_within(fresh_orders(c), t4, rs, ok);
        let m = mint_all_out(fresh_orders(c), t4, rs);
        within_on(f.talk.asks, t4.asks, m.0.asks, ok);
        told_within(m.0, HostAsk::SetState(RunState::Running), ok);
        within_on(
            f.talk.asks,
            m.0.asks,
            tell(m.0, HostAsk::SetState(RunState::Running)).asks,
            ok,
        );
    }
}

proof fn performing_within(
    verb: Seq<char>,
    args: Value,
    target: Seq<char>,
    remaining: nat,
    mode: Mode,
    f: Fiber,
    rs: Seq<Reply>,
    ok: Set<Seq<char>>,
)
    requires
        ok.contains(verb),
    ensures
        asks_within(
            f.talk.asks,
            perform_out(verb, args, target, remaining, mode, f, rs).f.talk.asks,
            ok,
        ),
    decreases unheard(f.talk, rs),
{
    if unheard(f.talk, rs) > 0 {
        let out = perform_out(verb, args, target, remaining, mode, f, rs);
        let t1 = Talk { asks: f.talk.asks.push(Ask::Invoke { verb, args }), trace: f.talk.trace };
        put_within(f.talk.asks, verb, args, ok);
        match rs[f.talk.asks.len() as int] {
            Reply::Got(_) => {
                assert(out.f.talk.asks.len() == t1.asks.len() + 3);
                assert(asks_within(t1.asks, out.f.talk.asks, ok));
                within_on(f.talk.asks, t1.asks, out.f.talk.asks, ok);
            },
            Reply::Refused(e) => {
                let told = HostAsk::Emit(
                    effect_event(verb, target, Some(crate::error::refusal_text(e))),
                );
                let t2 = tell(t1, told);
                told_within(t1, told, ok);
                within_on(f.talk.asks, t1.asks, t2.asks, ok);
                let f2 = Fiber { talk: t2, ..f };
                if lacks_budget(e) {
                    match mode {
                        Mode::Strict => {},
                        Mode::Truncate => {
                            assert(out.f.talk.asks.len() == t2.asks.len() + 2);
                            assert(asks_within(t2.asks, out.f.talk.asks, ok));
                            within_on(f.talk.asks, t2.asks, out.f.talk.asks, ok);
                        },
                        Mode::Escalate => {
                            let p = park_out(f2, rs);
                            parking_within(f2, rs, ok);
                            parking_asks(f2, rs);
                            within_on(f.talk.asks, t2.asks, p.f.talk.asks, ok);
                            if p.stop is None {
                                performing_within(
                                    verb,
                                    args,
                                    target,
                                    remaining,
                                    mode,
                                    p.f,
                                    rs,
                                    ok,
                                );
                                within_on(
                                    f.talk.asks,
                                    p.f.talk.asks,
                                    out.f.talk.asks,
                                    ok,
                                );
                            }
                        },
                    }
                }
            },
            _ => {},
        }
    }
}

proof fn effects_ask_within(
    verb: Seq<char>,
    vals: Seq<Value>,
    label: Tags,
    remaining: nat,
    mode: Mode,
    f: Fiber,
    decl: Declared,
    rs: Seq<Reply>,
    ok: Set<Seq<char>>,
)
    requires
        ok.contains(verb),
    ensures
        asks_within(
            f.talk.asks,
            effect_out(verb, vals, label, remaining, mode, f, decl, rs).f.talk.asks,
            ok,
        ),
{
    let args = effect_args(vals);
    let out = effect_out(verb, vals, label, remaining, mode, f, decl, rs);
    if !(is_external(decl, verb) && label.conf != Set::<Seq<char>>::empty()) {
        let t1 = tell(f.talk, HostAsk::Policy { verb, args });
        told_within(f.talk, HostAsk::Policy { verb, args }, ok);
        let p = policy_of(rs[f.talk.asks.len() as int]);
        if p.1 {
            assert(asks_within(t1.asks, out.f.talk.asks, ok));
            within_on(f.talk.asks, t1.asks, out.f.talk.asks, ok);
        } else {
            let f1 = Fiber { talk: t1, ..f };
            performing_within(verb, args, p.0, remaining, mode, f1, rs, ok);
            within_on(f.talk.asks, t1.asks, out.f.talk.asks, ok);
        }
    }
}

/// A hosted run asks the broker only for verbs that its statements reach: as effects, as observations,
/// or as computations. What the plan does not reach, no run of it invokes, whatever the world
/// replies.
pub proof fn a_run_asks_within_its_reach(
    ss: Seq<Stmt>,
    f: Fiber,
    pc: Tags,
    mode: Mode,
    decl: Declared,
    rs: Seq<Reply>,
    ok: Set<Seq<char>>,
)
    requires
        forall|v: Seq<char>| #[trigger] stmts_reach(ss, v) ==> ok.contains(v),
    ensures
        asks_within(f.talk.asks, go_stmts(ss, f, pc, mode, decl, rs).f.talk.asks, ok),
    decreases ss, 0nat,
{
    if ss.len() > 0 {
        let rest = ss.drop_first();
        assert forall|v: Seq<char>| #[trigger] stmt_reaches(ss[0], v) implies ok.contains(v) by {
            assert(stmts_reach(ss, v));
        }
        assert forall|v: Seq<char>| #[trigger] stmts_reach(rest, v) implies ok.contains(v) by {
            let i = choose|i: int| 0 <= i < rest.len() && stmt_reaches(#[trigger] rest[i], v);
            assert(ss[i + 1] == rest[i]);
            assert(stmts_reach(ss, v));
        }
        let one = go_stmt(ss[0], ss.len(), f, pc, mode, decl, rs);
        statement_asks_within(ss[0], ss.len(), f, pc, mode, decl, rs, ok);
        if one.stop is None {
            a_run_asks_within_its_reach(rest, one.f, pc, mode, decl, rs, ok);
            within_on(
                f.talk.asks,
                one.f.talk.asks,
                go_stmts(rest, one.f, pc, mode, decl, rs).f.talk.asks,
                ok,
            );
        }
    }
}

proof fn statement_asks_within(
    s: Stmt,
    remaining: nat,
    f: Fiber,
    pc: Tags,
    mode: Mode,
    decl: Declared,
    rs: Seq<Reply>,
    ok: Set<Seq<char>>,
)
    requires
        forall|v: Seq<char>| #[trigger] stmt_reaches(s, v) ==> ok.contains(v),
    ensures
        asks_within(f.talk.asks, go_stmt(s, remaining, f, pc, mode, decl, rs).f.talk.asks, ok),
    decreases s, 0nat,
{
    let d = Dialect::Brokered;
    let out = go_stmt(s, remaining, f, pc, mode, decl, rs);
    match s {
        Stmt::Let { var, expr } => {
            assert forall|v: Seq<char>| #[trigger] expr_reaches(expr, v) implies ok.contains(v) by {
                assert(stmt_reaches(s, v));
            }
            expressions_ask_within(expr, f.env, decl.observed, rs, f.talk, ok);
        },
        Stmt::Effect { verb, args } => {
            assert(stmt_reaches(s, verb@));
            assert forall|v: Seq<char>| #[trigger] exprs_reach(args@, v) implies ok.contains(v) by {
                assert(stmt_reaches(s, v));
            }
            lists_ask_within(args@, Seq::empty(), pc, f.env, decl.observed, rs, f.talk, ok);
            let all = eval_all_out(
                d,
                args@,
                Seq::empty(),
                pc,
                f.env,
                decl.observed,
                rs,
                f.talk,
            );
            if let Ok(vl) = all.end {
                let f1 = Fiber { talk: all.talk, ..f };
                effects_ask_within(verb@, vl.0, vl.1, remaining, mode, f1, decl, rs, ok);
                within_on(f.talk.asks, all.talk.asks, out.f.talk.asks, ok);
            }
        },
        Stmt::If { guard, then_, else_ } => {
            assert forall|v: Seq<char>| #[trigger] guard_reaches(guard, v) implies ok.contains(
                v,
            ) by {
                assert(stmt_reaches(s, v));
            }
            assert forall|v: Seq<char>| #[trigger] stmts_reach(then_@, v) implies ok.contains(
                v,
            ) by {
                assert(stmt_reaches(s, v));
            }
            assert forall|v: Seq<char>| #[trigger] stmts_reach(else_@, v) implies ok.contains(
                v,
            ) by {
                assert(stmt_reaches(s, v));
            }
            guards_ask_within(guard, f.env, decl.observed, rs, f.talk, ok);
            let one = guard_out(d, guard, f.env, decl.observed, rs, f.talk);
            if let Ok(bl) = one.end {
                let f1 = Fiber { talk: one.talk, ..f };
                if bl.0 {
                    a_run_asks_within_its_reach(then_@, f1, joined(pc, bl.1), mode, decl, rs, ok);
                } else {
                    a_run_asks_within_its_reach(else_@, f1, joined(pc, bl.1), mode, decl, rs, ok);
                }
                within_on(f.talk.asks, one.talk.asks, out.f.talk.asks, ok);
            }
        },
        Stmt::Foreach { var, list, bound, mode: own, body } => {
            assert forall|v: Seq<char>| #[trigger] expr_reaches(list, v) implies ok.contains(v) by {
                assert(stmt_reaches(s, v));
            }
            assert forall|v: Seq<char>| #[trigger] stmts_reach(body@, v) implies ok.contains(v) by {
                assert(stmt_reaches(s, v));
            }
            expressions_ask_within(list, f.env, decl.observed, rs, f.talk, ok);
            let one = eval_out(d, list, f.env, decl.observed, rs, f.talk);
            if let Ok(vl) = one.end {
                let items = items_of(vl.0);
                let n = items.len();
                let f1 = Fiber { talk: one.talk, ..f };
                let pc2 = joined(pc, vl.1);
                if n <= bound {
                    items_ask_within(items, var@, vl.1, body, f1, pc2, own, decl, rs, ok);
                    within_on(f.talk.asks, one.talk.asks, out.f.talk.asks, ok);
                } else {
                    match own {
                        Mode::Strict => {},
                        Mode::Truncate => {
                            let note = HostAsk::Audit {
                                event: "plan.truncated"@,
                                extra: loop_extra(bound, n),
                            };
                            let news = HostAsk::Emit(loop_event((n - bound) as u64));
                            let t2 = tell(one.talk, note);
                            let t3 = tell(t2, news);
                            told_within(one.talk, note, ok);
                            told_within(t2, news, ok);
                            within_on(f.talk.asks, one.talk.asks, t2.asks, ok);
                            within_on(f.talk.asks, t2.asks, t3.asks, ok);
                            items_ask_within(
                                items.take(bound as int),
                                var@,
                                vl.1,
                                body,
                                Fiber { talk: t3, ..f },
                                pc2,
                                own,
                                decl,
                                rs,
                                ok,
                            );
                            within_on(f.talk.asks, t3.asks, out.f.talk.asks, ok);
                        },
                        Mode::Escalate => {
                            let p = park_out(f1, rs);
                            parking_within(f1, rs, ok);
                            within_on(f.talk.asks, one.talk.asks, p.f.talk.asks, ok);
                            if p.stop is None {
                                items_ask_within(
                                    items,
                                    var@,
                                    vl.1,
                                    body,
                                    p.f,
                                    pc2,
                                    own,
                                    decl,
                                    rs,
                                    ok,
                                );
                                within_on(f.talk.asks, p.f.talk.asks, out.f.talk.asks, ok);
                            }
                        },
                    }
                }
            }
        },
    }
}

proof fn items_ask_within(
    items: Seq<Value>,
    var: Seq<char>,
    label: Tags,
    body: Vec<Stmt>,
    f: Fiber,
    pc: Tags,
    mode: Mode,
    decl: Declared,
    rs: Seq<Reply>,
    ok: Set<Seq<char>>,
)
    requires
        forall|v: Seq<char>| #[trigger] stmts_reach(body@, v) ==> ok.contains(v),
    ensures
        asks_within(
            f.talk.asks,
            go_items(items, var, label, body, f, pc, mode, decl, rs).f.talk.asks,
            ok,
        ),
    decreases body, items.len(),
{
    if items.len() > 0 {
        let f1 = Fiber { env: f.env.insert(var, (items[0], label)), ..f };
        a_run_asks_within_its_reach(body@, f1, pc, mode, decl, rs, ok);
        let once = go_stmts(body@, f1, pc, mode, decl, rs);
        if once.stop is None {
            items_ask_within(
                items.drop_first(),
                var,
                label,
                body,
                once.f,
                pc,
                mode,
                decl,
                rs,
                ok,
            );
            within_on(
                f.talk.asks,
                once.f.talk.asks,
                go_items(items, var, label, body, f, pc, mode, decl, rs).f.talk.asks,
                ok,
            );
        }
    }
}

/// Whatever a plan names as an effect it reaches.
pub proof fn what_is_named_is_reached(ss: Seq<Stmt>, verb: Seq<char>)
    ensures
        stmts_name(ss, verb) ==> stmts_reach(ss, verb),
    decreases ss,
{
    if ss.len() > 0 && stmts_name(ss, verb) {
        let rest = ss.drop_first();
        what_is_named_is_reached(rest, verb);
        if stmt_names(ss[0], verb) {
            match ss[0] {
                Stmt::If { guard, then_, else_ } => {
                    what_is_named_is_reached(then_@, verb);
                    what_is_named_is_reached(else_@, verb);
                },
                Stmt::Foreach { var, list, bound, mode, body } => {
                    what_is_named_is_reached(body@, verb);
                },
                _ => {},
            }
            assert(stmt_reaches(ss[0], verb));
        } else {
            let i = choose|i: int| 0 <= i < rest.len() && stmt_reaches(#[trigger] rest[i], verb);
            assert(ss[i + 1] == rest[i]);
        }
    }
}

} // verus!

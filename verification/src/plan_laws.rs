//! What holds of every run that the host of plans performs, whatever the host replies.

use crate::error::refusal_text;
use crate::eval::{
    asked, eval_all_out, eval_out, guard_out, Ask, Bindings, Dialect, Read, ReadKind, Reply, Talk,
};
use crate::interp::{is_external, items_of, run_effect, Declared, Machine};
use crate::json::Value;
use crate::label::{bottom, joined, Tags};
use crate::plan::{Expr, Guard, Mode, Stmt};
use crate::plan_approval::invoked;
use crate::plan_demand::Order;
use crate::plan_interp::{
    done_of, dropped_event, dropped_extra, effect_args, effect_event, effect_out, fresh_orders,
    go_items, go_stmt, go_stmts, lacks_budget, loop_event, loop_extra, mint_all_out, number_of,
    park_out, parking_asks, paused_event, perform_out, policy_of, signal_of, tell, unheard,
    withheld_event, withheld_extra, Fiber,
};
use crate::plan_runtime::{HostAsk, SignalView};
use crate::plan_types::RunState;
use crate::plancheck::{counted, sat};
use vstd::prelude::*;

verus! {

/// How many effects the host took into its keeping.
pub open spec fn kept(asks: Seq<Ask>, rs: Seq<Reply>) -> nat
    decreases asks.len(),
{
    if asks.len() == 0 {
        0
    } else {
        kept(asks.drop_last(), rs) + if asks.last() matches Ask::Host(HostAsk::Hold { .. })
            && done_of(rs[asks.len() - 1]) {
            1nat
        } else {
            0nat
        }
    }
}

/// Whether what is logged at a place was performed just before.
pub open spec fn logs_truly(asks: Seq<Ask>, rs: Seq<Reply>, i: int) -> bool {
    asks[i] matches Ask::Host(HostAsk::Log { verb, .. }) ==> {
        &&& i >= 2
        &&& asks[i - 2] matches Ask::Invoke { verb: v, .. } && v == verb
        &&& rs[i - 2] is Got
    }
}

/// Whether one state of a run goes on from another with its books in order: the effects that were
/// withheld since are those that the host keeps, and what was logged since was performed.
pub open spec fn in_order(a: Fiber, b: Fiber, rs: Seq<Reply>) -> bool {
    &&& a.talk.asks.is_prefix_of(b.talk.asks)
    &&& kept(a.talk.asks, rs) <= kept(b.talk.asks, rs)
    &&& b.withheld == counted(
        a.withheld + kept(b.talk.asks, rs) - kept(a.talk.asks, rs),
    )
    &&& forall|i: int|
        a.talk.asks.len() <= i < b.talk.asks.len() ==> #[trigger] logs_truly(b.talk.asks, rs, i)
}

proof fn in_order_here(a: Fiber, rs: Seq<Reply>)
    ensures
        in_order(a, a, rs),
{
}

proof fn in_order_on(a: Fiber, b: Fiber, c: Fiber, rs: Seq<Reply>)
    requires
        in_order(a, b, rs),
        in_order(b, c, rs),
    ensures
        in_order(a, c, rs),
{
    assert forall|i: int| a.talk.asks.len() <= i < c.talk.asks.len() implies #[trigger] logs_truly(
        c.talk.asks,
        rs,
        i,
    ) by {
        if i < b.talk.asks.len() {
            assert(logs_truly(b.talk.asks, rs, i));
            assert(b.talk.asks[i] == c.talk.asks[i]);
            if i >= 2 {
                assert(b.talk.asks[i - 2] == c.talk.asks[i - 2]);
            }
        }
    }
    assert forall|i: int| 0 <= i < a.talk.asks.len() implies a.talk.asks[i] == c.talk.asks[i] by {
        assert(a.talk.asks[i] == b.talk.asks[i]);
    }
    assert(a.talk.asks.is_prefix_of(c.talk.asks));
}

/// A state with another conversation.
pub open spec fn with_talk(f: Fiber, t: Talk) -> Fiber {
    Fiber { talk: t, ..f }
}

/// A question that withholds nothing and logs nothing untrue.
proof fn one_more(a: Fiber, t: Talk, ask: Ask, rs: Seq<Reply>)
    requires
        t.asks == a.talk.asks.push(ask),
        !(ask matches Ask::Host(HostAsk::Hold { .. })),
        logs_truly(t.asks, rs, a.talk.asks.len() as int),
    ensures
        in_order(a, with_talk(a, t), rs),
{
    assert(t.asks.drop_last() =~= a.talk.asks);
    assert(kept(t.asks, rs) == kept(a.talk.asks, rs));
}

proof fn told(a: Fiber, ask: HostAsk, rs: Seq<Reply>)
    requires
        !(ask is Hold),
        !(ask is Log),
    ensures
        in_order(a, with_talk(a, tell(a.talk, ask)), rs),
{
    one_more(a, tell(a.talk, ask), Ask::Host(ask), rs);
}

proof fn expressions_keep_order(
    e: Expr,
    env: Bindings,
    obs: Map<Seq<char>, Tags>,
    rs: Seq<Reply>,
    f: Fiber,
)
    ensures
        in_order(f, with_talk(f, eval_out(Dialect::Brokered, e, env, obs, rs, f.talk).talk), rs),
    decreases e,
{
    let d = Dialect::Brokered;
    let out = eval_out(d, e, env, obs, rs, f.talk);
    match e {
        Expr::Observe { verb, args } => {
            if obs.contains_key(verb@) {
                lists_keep_order(args@, Seq::empty(), obs[verb@], env, obs, rs, f);
                let all = eval_all_out(d, args@, Seq::empty(), obs[verb@], env, obs, rs, f.talk);
                if all.end is Ok {
                    let r = Read { kind: ReadKind::Observe, name: verb@, args: all.end->Ok_0.0 };
                    let f1 = with_talk(f, all.talk);
                    one_more(f1, out.talk, asked(d, r), rs);
                    in_order_on(f, f1, with_talk(f, out.talk), rs);
                }
            } else {
                in_order_here(f, rs);
            }
        },
        Expr::Pure { func, args } => {
            lists_keep_order(args@, Seq::empty(), bottom(), env, obs, rs, f);
            let all = eval_all_out(d, args@, Seq::empty(), bottom(), env, obs, rs, f.talk);
            if all.end is Ok {
                let r = Read { kind: ReadKind::Pure, name: func@, args: all.end->Ok_0.0 };
                let f1 = with_talk(f, all.talk);
                one_more(f1, out.talk, asked(d, r), rs);
                in_order_on(f, f1, with_talk(f, out.talk), rs);
            }
        },
        Expr::Index { base, idx } => {
            expressions_keep_order(*base, env, obs, rs, f);
        },
        _ => {
            in_order_here(f, rs);
        },
    }
}

proof fn lists_keep_order(
    es: Seq<Expr>,
    vals: Seq<Value>,
    label: Tags,
    env: Bindings,
    obs: Map<Seq<char>, Tags>,
    rs: Seq<Reply>,
    f: Fiber,
)
    ensures
        in_order(
            f,
            with_talk(
                f,
                eval_all_out(Dialect::Brokered, es, vals, label, env, obs, rs, f.talk).talk,
            ),
            rs,
        ),
    decreases es,
{
    let d = Dialect::Brokered;
    if es.len() > 0 {
        expressions_keep_order(es[0], env, obs, rs, f);
        let one = eval_out(d, es[0], env, obs, rs, f.talk);
        if one.end is Ok {
            let vl = one.end->Ok_0;
            let f1 = with_talk(f, one.talk);
            lists_keep_order(
                es.drop_first(),
                vals.push(vl.0),
                joined(label, vl.1),
                env,
                obs,
                rs,
                f1,
            );
            let out = eval_all_out(d, es, vals, label, env, obs, rs, f.talk);
            in_order_on(f, f1, with_talk(f, out.talk), rs);
        }
    } else {
        in_order_here(f, rs);
    }
}

proof fn guards_keep_order(
    g: Guard,
    env: Bindings,
    obs: Map<Seq<char>, Tags>,
    rs: Seq<Reply>,
    f: Fiber,
)
    ensures
        in_order(f, with_talk(f, guard_out(Dialect::Brokered, g, env, obs, rs, f.talk).talk), rs),
    decreases g,
{
    let d = Dialect::Brokered;
    let out = guard_out(d, g, env, obs, rs, f.talk);
    match g {
        Guard::Exists { expr } => {
            expressions_keep_order(*expr, env, obs, rs, f);
        },
        Guard::Matches { expr, regex } => {
            expressions_keep_order(*expr, env, obs, rs, f);
        },
        Guard::Cmp { lhs, op, rhs } => {
            expressions_keep_order(*lhs, env, obs, rs, f);
            let one = eval_out(d, *lhs, env, obs, rs, f.talk);
            let f1 = with_talk(f, one.talk);
            expressions_keep_order(*rhs, env, obs, rs, f1);
            let two = eval_out(d, *rhs, env, obs, rs, one.talk);
            in_order_on(f, f1, with_talk(f, two.talk), rs);
        },
        Guard::And { l, r } => {
            guards_keep_order(*l, env, obs, rs, f);
            let one = guard_out(d, *l, env, obs, rs, f.talk);
            let f1 = with_talk(f, one.talk);
            guards_keep_order(*r, env, obs, rs, f1);
            let two = guard_out(d, *r, env, obs, rs, one.talk);
            in_order_on(f, f1, with_talk(f, two.talk), rs);
        },
        Guard::Or { l, r } => {
            guards_keep_order(*l, env, obs, rs, f);
            let one = guard_out(d, *l, env, obs, rs, f.talk);
            let f1 = with_talk(f, one.talk);
            guards_keep_order(*r, env, obs, rs, f1);
            let two = guard_out(d, *r, env, obs, rs, one.talk);
            in_order_on(f, f1, with_talk(f, two.talk), rs);
        },
        Guard::Not { g } => {
            guards_keep_order(*g, env, obs, rs, f);
        },
    }
}

proof fn minting_keeps_order(orders: Seq<Order>, f: Fiber, rs: Seq<Reply>)
    ensures
        in_order(f, with_talk(f, mint_all_out(orders, f.talk, rs).0), rs),
    decreases orders.len(),
{
    if orders.len() == 0 {
        in_order_here(f, rs);
    } else {
        told(f, HostAsk::Mint(orders[0]), rs);
        let f1 = with_talk(f, tell(f.talk, HostAsk::Mint(orders[0])));
        if done_of(rs[f.talk.asks.len() as int]) {
            minting_keeps_order(orders.drop_first(), f1, rs);
            in_order_on(f, f1, with_talk(f, mint_all_out(orders, f.talk, rs).0), rs);
        }
    }
}

/// Who pays does not matter to the books.
proof fn in_order_whoever_pays(a: Fiber, b: Fiber, c: Fiber, rs: Seq<Reply>)
    requires
        in_order(a, b, rs),
        c.talk == b.talk,
        c.withheld == b.withheld,
    ensures
        in_order(a, c, rs),
{
}

proof fn parking_keeps_order(f: Fiber, rs: Seq<Reply>)
    ensures
        in_order(f, park_out(f, rs).f, rs),
{
    let a1 = HostAsk::SetState(RunState::Paused);
    let a2 = HostAsk::Audit { event: "plan.paused"@, extra: Value::Object(Seq::empty()) };
    let a3 = HostAsk::Emit(paused_event());
    let f1 = with_talk(f, tell(f.talk, a1));
    let f2 = with_talk(f, tell(f1.talk, a2));
    let f3 = with_talk(f, tell(f2.talk, a3));
    let f4 = with_talk(f, tell(f3.talk, HostAsk::Await));
    told(f, a1, rs);
    told(f1, a2, rs);
    told(f2, a3, rs);
    told(f3, HostAsk::Await, rs);
    in_order_on(f, f1, f2, rs);
    in_order_on(f, f2, f3, rs);
    in_order_on(f, f3, f4, rs);
    match signal_of(rs[f3.talk.asks.len() as int]) {
        SignalView::Abort(expired) => {},
        SignalView::Resume(c) => {
            let m = mint_all_out(fresh_orders(c), f4.talk, rs);
            minting_keeps_order(fresh_orders(c), f4, rs);
            let f5 = with_talk(f, m.0);
            in_order_on(f, f4, f5, rs);
            if m.1 {
                let last = HostAsk::SetState(RunState::Running);
                told(f5, last, rs);
                let f6 = with_talk(f, tell(m.0, last));
                in_order_on(f, f5, f6, rs);
                in_order_whoever_pays(f, f6, park_out(f, rs).f, rs);
            }
        },
    }
}

proof fn performing_keeps_order(
    verb: Seq<char>,
    args: Value,
    target: Seq<char>,
    remaining: nat,
    mode: Mode,
    f: Fiber,
    rs: Seq<Reply>,
)
    ensures
        in_order(f, perform_out(verb, args, target, remaining, mode, f, rs).f, rs),
    decreases unheard(f.talk, rs),
{
    let out = perform_out(verb, args, target, remaining, mode, f, rs);
    if unheard(f.talk, rs) == 0 {
        in_order_here(f, rs);
    } else {
        let n = f.talk.asks.len();
        let t1 = Talk { asks: f.talk.asks.push(Ask::Invoke { verb, args }), trace: f.talk.trace };
        let f1 = with_talk(f, t1);
        one_more(f, t1, Ask::Invoke { verb, args }, rs);
        match rs[n as int] {
            Reply::Got(_) => {
                let seq = sat(number_of(rs[t1.asks.len() as int]) + 1);
                let log = HostAsk::Log { seq, verb, target, nonce: f.nonce };
                let event = HostAsk::Emit(effect_event(verb, target, None));
                let f2 = with_talk(f, tell(t1, HostAsk::Emissions));
                let f3 = with_talk(f, tell(f2.talk, log));
                let f4 = with_talk(f, tell(f3.talk, event));
                told(f1, HostAsk::Emissions, rs);
                assert(f3.talk.asks[n as int] == Ask::Invoke { verb, args });
                one_more(f2, f3.talk, Ask::Host(log), rs);
                told(f3, event, rs);
                in_order_on(f, f1, f2, rs);
                in_order_on(f, f2, f3, rs);
                in_order_on(f, f3, f4, rs);
            },
            Reply::Refused(e) => {
                let event = HostAsk::Emit(effect_event(verb, target, Some(refusal_text(e))));
                let f2 = with_talk(f, tell(t1, event));
                told(f1, event, rs);
                in_order_on(f, f1, f2, rs);
                if lacks_budget(e) {
                    match mode {
                        Mode::Strict => {},
                        Mode::Truncate => {
                            let note = HostAsk::Audit {
                                event: "plan.truncated"@,
                                extra: dropped_extra(verb, remaining as u64),
                            };
                            let news = HostAsk::Emit(dropped_event(verb, remaining as u64));
                            let f3 = with_talk(f, tell(f2.talk, note));
                            let f4 = with_talk(f, tell(f3.talk, news));
                            told(f2, note, rs);
                            told(f3, news, rs);
                            in_order_on(f, f2, f3, rs);
                            in_order_on(f, f3, f4, rs);
                        },
                        Mode::Escalate => {
                            let p = park_out(f2, rs);
                            parking_asks(f2, rs);
                            parking_keeps_order(f2, rs);
                            in_order_on(f, f2, p.f, rs);
                            if p.stop is None {
                                performing_keeps_order(
                                    verb,
                                    args,
                                    target,
                                    remaining,
                                    mode,
                                    p.f,
                                    rs,
                                );
                                in_order_on(f, p.f, out.f, rs);
                            }
                        },
                    }
                }
            },
            _ => {},
        }
    }
}

proof fn effects_keep_order(
    verb: Seq<char>,
    vals: Seq<Value>,
    label: Tags,
    remaining: nat,
    mode: Mode,
    f: Fiber,
    decl: Declared,
    rs: Seq<Reply>,
)
    ensures
        in_order(f, effect_out(verb, vals, label, remaining, mode, f, decl, rs).f, rs),
{
    let args = effect_args(vals);
    let out = effect_out(verb, vals, label, remaining, mode, f, decl, rs);
    if is_external(decl, verb) && label.conf != Set::<Seq<char>>::empty() {
        in_order_here(f, rs);
    } else {
        let p = policy_of(rs[f.talk.asks.len() as int]);
        let question = HostAsk::Policy { verb, args };
        let f1 = with_talk(f, tell(f.talk, question));
        told(f, question, rs);
        if p.1 {
            let hold = HostAsk::Hold { verb, target: p.0, args, cost: 1 };
            let t2 = tell(f1.talk, hold);
            assert(t2.asks.drop_last() =~= f1.talk.asks);
            if done_of(rs[f1.talk.asks.len() as int]) {
                let note = HostAsk::Audit {
                    event: "plan.withheld"@,
                    extra: withheld_extra(verb, p.0),
                };
                let news = HostAsk::Emit(withheld_event(verb, p.0));
                let f2 = Fiber { withheld: counted(f.withheld + 1), talk: t2, ..f };
                let f3 = with_talk(f2, tell(t2, note));
                let f4 = with_talk(f2, tell(f3.talk, news));
                assert(in_order(f1, f2, rs));
                told(f2, note, rs);
                told(f3, news, rs);
                in_order_on(f, f1, f2, rs);
                in_order_on(f, f2, f3, rs);
                in_order_on(f, f3, f4, rs);
            } else {
                let f2 = with_talk(f, t2);
                assert(in_order(f1, f2, rs));
                in_order_on(f, f1, f2, rs);
            }
        } else {
            performing_keeps_order(verb, args, p.0, remaining, mode, f1, rs);
            in_order_on(f, f1, out.f, rs);
        }
    }
}

/// The books of a run are in order, wherever it stands: what it counts as withheld is what the
/// host keeps for approval, and nothing is logged as emitted that was not performed.
pub proof fn books_are_in_order(
    ss: Seq<Stmt>,
    f: Fiber,
    pc: Tags,
    mode: Mode,
    decl: Declared,
    rs: Seq<Reply>,
)
    ensures
        in_order(f, go_stmts(ss, f, pc, mode, decl, rs).f, rs),
    decreases ss, 0nat,
{
    if ss.len() == 0 {
        in_order_here(f, rs);
    } else {
        stmt_keeps_order(ss[0], ss.len(), f, pc, mode, decl, rs);
        let one = go_stmt(ss[0], ss.len(), f, pc, mode, decl, rs);
        if one.stop is None {
            books_are_in_order(ss.drop_first(), one.f, pc, mode, decl, rs);
            in_order_on(f, one.f, go_stmts(ss, f, pc, mode, decl, rs).f, rs);
        }
    }
}

proof fn items_keep_order(
    items: Seq<Value>,
    var: Seq<char>,
    label: Tags,
    body: Vec<Stmt>,
    f: Fiber,
    pc: Tags,
    mode: Mode,
    decl: Declared,
    rs: Seq<Reply>,
)
    ensures
        in_order(f, go_items(items, var, label, body, f, pc, mode, decl, rs).f, rs),
    decreases body, items.len(),
{
    if items.len() == 0 {
        in_order_here(f, rs);
    } else {
        let f1 = Fiber { env: f.env.insert(var, (items[0], label)), ..f };
        books_are_in_order(body@, f1, pc, mode, decl, rs);
        let once = go_stmts(body@, f1, pc, mode, decl, rs);
        if once.stop is None {
            items_keep_order(
                items.drop_first(),
                var,
                label,
                body,
                once.f,
                pc,
                mode,
                decl,
                rs,
            );
            in_order_on(
                f1,
                once.f,
                go_items(items, var, label, body, f, pc, mode, decl, rs).f,
                rs,
            );
        }
    }
}

proof fn stmt_keeps_order(
    s: Stmt,
    remaining: nat,
    f: Fiber,
    pc: Tags,
    mode: Mode,
    decl: Declared,
    rs: Seq<Reply>,
)
    ensures
        in_order(f, go_stmt(s, remaining, f, pc, mode, decl, rs).f, rs),
    decreases s, 0nat,
{
    let d = Dialect::Brokered;
    let out = go_stmt(s, remaining, f, pc, mode, decl, rs);
    match s {
        Stmt::Let { var, expr } => {
            expressions_keep_order(expr, f.env, decl.observed, rs, f);
            let one = eval_out(d, expr, f.env, decl.observed, rs, f.talk);
            in_order_whoever_pays(f, with_talk(f, one.talk), out.f, rs);
        },
        Stmt::Effect { verb, args } => {
            lists_keep_order(args@, Seq::empty(), pc, f.env, decl.observed, rs, f);
            let all = eval_all_out(d, args@, Seq::empty(), pc, f.env, decl.observed, rs, f.talk);
            if all.end is Ok {
                let vl = all.end->Ok_0;
                let f1 = with_talk(f, all.talk);
                effects_keep_order(verb@, vl.0, vl.1, remaining, mode, f1, decl, rs);
                in_order_on(f, f1, out.f, rs);
            }
        },
        Stmt::If { guard, then_, else_ } => {
            guards_keep_order(guard, f.env, decl.observed, rs, f);
            let one = guard_out(d, guard, f.env, decl.observed, rs, f.talk);
            if one.end is Ok {
                let bl = one.end->Ok_0;
                let f1 = with_talk(f, one.talk);
                if bl.0 {
                    books_are_in_order(then_@, f1, joined(pc, bl.1), mode, decl, rs);
                } else {
                    books_are_in_order(else_@, f1, joined(pc, bl.1), mode, decl, rs);
                }
                in_order_on(f, f1, out.f, rs);
            }
        },
        Stmt::Foreach { var, list, bound, mode: own, body } => {
            expressions_keep_order(list, f.env, decl.observed, rs, f);
            let one = eval_out(d, list, f.env, decl.observed, rs, f.talk);
            if one.end is Ok {
                let vl = one.end->Ok_0;
                let items = items_of(vl.0);
                let n = items.len();
                let f1 = with_talk(f, one.talk);
                let pc2 = joined(pc, vl.1);
                if n <= bound {
                    items_keep_order(items, var@, vl.1, body, f1, pc2, own, decl, rs);
                    in_order_on(f, f1, out.f, rs);
                } else {
                    match own {
                        Mode::Strict => {},
                        Mode::Truncate => {
                            let note = HostAsk::Audit {
                                event: "plan.truncated"@,
                                extra: loop_extra(bound, n),
                            };
                            let news = HostAsk::Emit(loop_event((n - bound) as u64));
                            let f2 = with_talk(f, tell(one.talk, note));
                            let f3 = with_talk(f, tell(f2.talk, news));
                            told(f1, note, rs);
                            told(f2, news, rs);
                            in_order_on(f, f1, f2, rs);
                            in_order_on(f, f2, f3, rs);
                            items_keep_order(
                                items.take(bound as int),
                                var@,
                                vl.1,
                                body,
                                f3,
                                pc2,
                                own,
                                decl,
                                rs,
                            );
                            in_order_on(f, f3, out.f, rs);
                        },
                        Mode::Escalate => {
                            let p = park_out(f1, rs);
                            parking_keeps_order(f1, rs);
                            in_order_on(f, f1, p.f, rs);
                            if p.stop is None {
                                items_keep_order(items, var@, vl.1, body, p.f, pc2, own, decl, rs);
                                in_order_on(f, p.f, out.f, rs);
                            }
                        },
                    }
                }
            }
        },
    }
}

/// What is confidential does not leave: an effect that goes outside, on values or under control
/// that carry a confidential mark, ends the run before the world hears of it, and nothing is
/// spent.
pub proof fn secrets_stay(
    verb: Seq<char>,
    vals: Seq<Value>,
    label: Tags,
    remaining: nat,
    mode: Mode,
    f: Fiber,
    m: Machine,
    decl: Declared,
    rs: Seq<Reply>,
)
    requires
        is_external(decl, verb),
        label.conf != Set::<Seq<char>>::empty(),
    ensures
        effect_out(verb, vals, label, remaining, mode, f, decl, rs).stop is Some,
        effect_out(verb, vals, label, remaining, mode, f, decl, rs).f == f,
        run_effect(verb, vals, label, m, decl, rs).stop is Some,
        run_effect(verb, vals, label, m, decl, rs).m.talk.asks == m.talk.asks,
        run_effect(verb, vals, label, m, decl, rs).m.budget == m.budget,
{
}

/// A withheld effect is unseen: where the host withholds an effect, nothing is put to the broker.
pub proof fn the_withheld_is_unseen(
    verb: Seq<char>,
    vals: Seq<Value>,
    label: Tags,
    remaining: nat,
    mode: Mode,
    f: Fiber,
    decl: Declared,
    rs: Seq<Reply>,
)
    requires
        policy_of(rs[f.talk.asks.len() as int]).1,
    ensures
        invoked(effect_out(verb, vals, label, remaining, mode, f, decl, rs).f.talk.asks) == invoked(
            f.talk.asks,
        ),
{
    let args = effect_args(vals);
    let p = policy_of(rs[f.talk.asks.len() as int]);
    if !(is_external(decl, verb) && label.conf != Set::<Seq<char>>::empty()) {
        let t1 = tell(f.talk, HostAsk::Policy { verb, args });
        let t2 = tell(t1, HostAsk::Hold { verb, target: p.0, args, cost: 1 });
        let t3 = tell(
            t2,
            HostAsk::Audit { event: "plan.withheld"@, extra: withheld_extra(verb, p.0) },
        );
        let t4 = tell(t3, HostAsk::Emit(withheld_event(verb, p.0)));
        assert(t1.asks.drop_last() =~= f.talk.asks);
        assert(t2.asks.drop_last() =~= t1.asks);
        assert(t3.asks.drop_last() =~= t2.asks);
        assert(t4.asks.drop_last() =~= t3.asks);
        assert(invoked(t1.asks) == invoked(f.talk.asks));
        assert(invoked(t2.asks) == invoked(t1.asks));
        assert(invoked(t3.asks) == invoked(t2.asks));
        assert(invoked(t4.asks) == invoked(t3.asks));
    }
}

} // verus!

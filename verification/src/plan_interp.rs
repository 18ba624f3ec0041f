//! The interpreter of plan runs: it reads and acts through the host, withholds effects that
//! need approval, and suspends a run that asks for more consent.

use crate::error::{joined_text, refusal_text, KernelError, Refusal};
use crate::eval::{
    bindings, eval, eval_all, eval_all_out, eval_guard, eval_out, guard_out, hears, hears_prefix,
    questions, talk_of, Ask, Bindings, Dialect, Halt, Reply, Stop, Talk, TraceEntry,
};
use crate::interp::{declared, is_external, items_of, Declared};
use crate::json::{named_values, no_members, number, put, text, values, Json, Num, Value};
use crate::label::{bottom, joined, Label, Tags};
use crate::plan::{Mode, Plan, Stmt};
use crate::plan_demand::{
    budget_orders, counted_verbs, order_views, orders_for, pools_of, MintOrder, Order,
};
use crate::plan_runtime::{
    done_reply, Fresh, HostAsk, HostReply, PlanRuntime, SignalView, ThroughBroker,
};
use crate::plan_types::{EffectPolicy, End, Outcome, RunSignal, RunState};
use crate::plancheck::{counted, sat, VerbSchemas};
use crate::strmap::{listing_of, StrMap};
use crate::text::{decimal, push_decimal};
use vstd::prelude::*;

verus! {

/// The state of a run.
#[verifier::ext_equal]
pub struct Fiber {
    pub env: Bindings,
    /// How many effects have been withheld.
    pub withheld: usize,
    /// The nonce of the consent that pays.
    pub nonce: Seq<char>,
    pub talk: Talk,
}

/// The state after some statements, and the end if there was one.
#[verifier::ext_equal]
pub struct Went {
    pub f: Fiber,
    pub stop: Option<End>,
}

/// The conversation with one more question to the host.
pub open spec fn tell(t: Talk, ask: HostAsk) -> Talk {
    Talk { asks: t.asks.push(Ask::Host(ask)), trace: t.trace }
}

/// Whether the host did what it was asked to.
pub open spec fn done_of(reply: Reply) -> bool {
    reply == Reply::Host(HostReply::Done)
}

/// The number that the host told, or zero.
pub open spec fn number_of(reply: Reply) -> u64 {
    match reply {
        Reply::Host(HostReply::Number(n)) => n,
        _ => 0,
    }
}

/// The signal that the host delivered.
pub open spec fn signal_of(reply: Reply) -> SignalView {
    match reply {
        Reply::Host(HostReply::Signal(s)) => s,
        _ => SignalView::Abort(false),
    }
}

/// The treatment of an effect that the host told.
pub open spec fn policy_of(reply: Reply) -> (Seq<char>, bool) {
    match reply {
        Reply::Host(HostReply::Policy { target, withhold }) => (target, withhold),
        _ => (Seq::empty(), false),
    }
}

/// Asks for several grants, up to the first that is refused.
pub open spec fn mint_all_out(orders: Seq<Order>, at: Talk, rs: Seq<Reply>) -> (Talk, bool)
    decreases orders.len(),
{
    if orders.len() == 0 {
        (at, true)
    } else {
        let t = tell(at, HostAsk::Mint(orders[0]));
        if done_of(rs[at.asks.len() as int]) {
            mint_all_out(orders.drop_first(), t, rs)
        } else {
            (t, false)
        }
    }
}

proof fn minting_asks(orders: Seq<Order>, at: Talk, rs: Seq<Reply>)
    ensures
        mint_all_out(orders, at, rs).0.asks.len() >= at.asks.len(),
    decreases orders.len(),
{
    if orders.len() > 0 && done_of(rs[at.asks.len() as int]) {
        minting_asks(orders.drop_first(), tell(at, HostAsk::Mint(orders[0])), rs);
    }
}

/// The grants of a consent that reached a suspended run.
pub open spec fn fresh_orders(c: Fresh) -> Seq<Order> {
    orders_for(listing_of(pools_of(counted_verbs(c.budget))), sat(c.issued_at + c.ttl_secs))
}

/// What is announced when a run is suspended.
pub open spec fn paused_event() -> Value {
    Value::Object(seq![("kind"@, Value::Str("paused"@))])
}

/// Suspends a run until a consent or an abort arrives. The grants of a consent are minted
/// before the run goes on.
pub open spec fn park_out(f: Fiber, rs: Seq<Reply>) -> Went {
    let t1 = tell(
        tell(
            tell(f.talk, HostAsk::SetState(RunState::Paused)),
            HostAsk::Audit { event: "plan.paused"@, extra: Value::Object(Seq::empty()) },
        ),
        HostAsk::Emit(paused_event()),
    );
    let t2 = tell(t1, HostAsk::Await);
    match signal_of(rs[t1.asks.len() as int]) {
        SignalView::Abort(expired) => Went {
            f: Fiber { talk: t2, ..f },
            stop: Some(End::Aborted(expired)),
        },
        SignalView::Resume(c) => {
            let m = mint_all_out(fresh_orders(c), t2, rs);
            if m.1 {
                Went {
                    f: Fiber {
                        nonce: c.nonce,
                        talk: tell(m.0, HostAsk::SetState(RunState::Running)),
                        ..f
                    },
                    stop: None,
                }
            } else {
                Went {
                    f: Fiber { talk: m.0, ..f },
                    stop: Some(End::FailStop("resume pool mint failed"@)),
                }
            }
        },
    }
}

/// A suspension always talks to the host.
pub proof fn parking_asks(f: Fiber, rs: Seq<Reply>)
    ensures
        park_out(f, rs).f.talk.asks.len() > f.talk.asks.len(),
{
    let t1 = tell(
        tell(
            tell(f.talk, HostAsk::SetState(RunState::Paused)),
            HostAsk::Audit { event: "plan.paused"@, extra: Value::Object(Seq::empty()) },
        ),
        HostAsk::Emit(paused_event()),
    );
    let t2 = tell(t1, HostAsk::Await);
    match signal_of(rs[t1.asks.len() as int]) {
        SignalView::Abort(expired) => {},
        SignalView::Resume(c) => {
            minting_asks(fresh_orders(c), t2, rs);
        },
    }
}

/// Whether an error says that a budget is spent or a capability is wanting.
pub open spec fn lacks_budget(e: Refusal) -> bool {
    e is BudgetExhausted || e is NoCapability
}

/// What is told about an effect.
pub open spec fn effect_event(
    verb: Seq<char>,
    target: Seq<char>,
    error: Option<Seq<char>>,
) -> Value {
    match error {
        None => Value::Object(
            seq![
                ("kind"@, Value::Str("effect"@)),
                ("ok"@, Value::Bool(true)),
                ("target"@, Value::Str(target)),
                ("verb"@, Value::Str(verb)),
            ],
        ),
        Some(e) => Value::Object(
            seq![
                ("error"@, Value::Str(e)),
                ("kind"@, Value::Str("effect"@)),
                ("ok"@, Value::Bool(false)),
                ("target"@, Value::Str(target)),
                ("verb"@, Value::Str(verb)),
            ],
        ),
    }
}

/// What is recorded when a spent budget cuts a run short.
pub open spec fn dropped_extra(at: Seq<char>, dropped: u64) -> Value {
    Value::Object(
        seq![("at"@, Value::Str(at)), ("dropped"@, Value::Number(Num::Nat(dropped)))],
    )
}

/// What is announced when a spent budget cuts a run short.
pub open spec fn dropped_event(at: Seq<char>, dropped: u64) -> Value {
    Value::Object(
        seq![
            ("at"@, Value::Str(at)),
            ("dropped"@, Value::Number(Num::Nat(dropped))),
            ("kind"@, Value::Str("truncated"@)),
        ],
    )
}

/// How many replies of a stream have not been heard.
pub open spec fn unheard(t: Talk, rs: Seq<Reply>) -> nat {
    if t.asks.len() >= rs.len() {
        0
    } else {
        (rs.len() - t.asks.len()) as nat
    }
}

/// Performs an effect that is not withheld. Where the budget is spent, the mode of the loop
/// around it decides: stop, drop the rest, or suspend and try again.
pub open spec fn perform_out(
    verb: Seq<char>,
    args: Value,
    target: Seq<char>,
    remaining: nat,
    mode: Mode,
    f: Fiber,
    rs: Seq<Reply>,
) -> Went
    decreases unheard(f.talk, rs),
{
    if unheard(f.talk, rs) == 0 {
        Went { f, stop: None }
    } else {
        let t1 = Talk { asks: f.talk.asks.push(Ask::Invoke { verb, args }), trace: f.talk.trace };
        match rs[f.talk.asks.len() as int] {
            Reply::Got(_) => {
                let seq = sat(number_of(rs[t1.asks.len() as int]) + 1);
                let t2 = tell(t1, HostAsk::Emissions);
                let t3 = tell(t2, HostAsk::Log { seq, verb, target, nonce: f.nonce });
                let t4 = tell(t3, HostAsk::Emit(effect_event(verb, target, None)));
                Went { f: Fiber { talk: t4, ..f }, stop: None }
            },
            Reply::Refused(e) => {
                let t2 = tell(
                    t1,
                    HostAsk::Emit(effect_event(verb, target, Some(refusal_text(e)))),
                );
                let f2 = Fiber { talk: t2, ..f };
                if lacks_budget(e) {
                    match mode {
                        Mode::Strict => Went {
                            f: f2,
                            stop: Some(End::FailStop("budget exhausted: "@ + verb)),
                        },
                        Mode::Truncate => Went {
                            f: Fiber {
                                talk: tell(
                                    tell(
                                        t2,
                                        HostAsk::Audit {
                                            event: "plan.truncated"@,
                                            extra: dropped_extra(verb, remaining as u64),
                                        },
                                    ),
                                    HostAsk::Emit(dropped_event(verb, remaining as u64)),
                                ),
                                ..f
                            },
                            stop: Some(End::Truncated(remaining)),
                        },
                        Mode::Escalate => {
                            let p = park_out(f2, rs);
                            proof {
                                parking_asks(f2, rs);
                            }
                            match p.stop {
                                Some(_) => p,
                                None => perform_out(
                                    verb,
                                    args,
                                    target,
                                    remaining,
                                    mode,
                                    p.f,
                                    rs,
                                ),
                            }
                        },
                    }
                } else {
                    Went {
                        f: f2,
                        stop: Some(End::FailStop(verb + ": "@ + refusal_text(e))),
                    }
                }
            },
            _ => Went { f: Fiber { talk: t1, ..f }, stop: Some(End::FailStop(verb + ": "@)) },
        }
    }
}

/// What is recorded of a withheld effect.
pub open spec fn withheld_extra(verb: Seq<char>, target: Seq<char>) -> Value {
    Value::Object(seq![("target"@, Value::Str(target)), ("verb"@, Value::Str(verb))])
}

/// What is announced of a withheld effect.
pub open spec fn withheld_event(verb: Seq<char>, target: Seq<char>) -> Value {
    Value::Object(
        seq![
            ("kind"@, Value::Str("withheld"@)),
            ("target"@, Value::Str(target)),
            ("verb"@, Value::Str(verb)),
        ],
    )
}

/// The value that an effect is performed with: a single object stands bare, anything else is
/// listed.
pub open spec fn effect_args(vals: Seq<Value>) -> Value {
    if vals.len() == 1 && vals[0] is Object {
        vals[0]
    } else {
        Value::Array(vals)
    }
}

/// The monitor of an effect whose arguments have been evaluated: the sink first, then what must
/// be withheld, then the budget and the world.
pub open spec fn effect_out(
    verb: Seq<char>,
    vals: Seq<Value>,
    label: Tags,
    remaining: nat,
    mode: Mode,
    f: Fiber,
    decl: Declared,
    rs: Seq<Reply>,
) -> Went {
    let args = effect_args(vals);
    if is_external(decl, verb) && label.conf != Set::<Seq<char>>::empty() {
        Went { f, stop: Some(End::FailStop("sink denied: "@ + verb)) }
    } else {
        let p = policy_of(rs[f.talk.asks.len() as int]);
        let t1 = tell(f.talk, HostAsk::Policy { verb, args });
        if p.1 {
            let t2 = tell(t1, HostAsk::Hold { verb, target: p.0, args, cost: 1 });
            if done_of(rs[t1.asks.len() as int]) {
                let t3 = tell(
                    t2,
                    HostAsk::Audit {
                        event: "plan.withheld"@,
                        extra: withheld_extra(verb, p.0),
                    },
                );
                Went {
                    f: Fiber {
                        withheld: counted(f.withheld + 1),
                        talk: tell(t3, HostAsk::Emit(withheld_event(verb, p.0))),
                        ..f
                    },
                    stop: None,
                }
            } else {
                Went {
                    f: Fiber { talk: t2, ..f },
                    stop: Some(End::FailStop("buffer write failed: "@ + verb)),
                }
            }
        } else {
            perform_out(verb, args, p.0, remaining, mode, Fiber { talk: t1, ..f }, rs)
        }
    }
}

/// The end that a stopped evaluation brings.
pub open spec fn stop_end(h: Halt) -> End {
    match h {
        Halt::Fail(t) => End::FailStop(t),
        Halt::BadGuard(t) => End::FailStop("guard regex: "@ + t),
    }
}

/// The text about a list that is longer than the bound of its loop.
pub open spec fn bound_text(bound: u32, n: nat) -> Seq<char> {
    "foreach bound "@ + decimal(bound as nat) + " < "@ + decimal(n)
}

/// What is recorded of a list of which only a beginning is processed.
pub open spec fn loop_extra(bound: u32, n: nat) -> Value {
    Value::Object(
        seq![
            ("actual"@, Value::Number(Num::Nat(n as u64))),
            ("bound"@, Value::Number(Num::Nat(bound as u64))),
            ("dropped"@, Value::Number(Num::Nat((n - bound) as u64))),
        ],
    )
}

/// What is announced of a list of which only a beginning is processed.
pub open spec fn loop_event(dropped: u64) -> Value {
    Value::Object(
        seq![
            ("dropped"@, Value::Number(Num::Nat(dropped))),
            ("kind"@, Value::Str("truncated"@)),
        ],
    )
}

/// The run of one statement under the label `pc` of the control and the mode of the loop around
/// it; `remaining` statements of the block are left, with this one.
pub open spec fn go_stmt(
    s: Stmt,
    remaining: nat,
    f: Fiber,
    pc: Tags,
    mode: Mode,
    decl: Declared,
    rs: Seq<Reply>,
) -> Went
    decreases s, 0nat,
{
    let d = Dialect::Brokered;
    match s {
        Stmt::Let { var, expr } => {
            let one = eval_out(d, expr, f.env, decl.observed, rs, f.talk);
            match one.end {
                Err(h) => Went { f: Fiber { talk: one.talk, ..f }, stop: Some(stop_end(h)) },
                Ok(vl) => Went {
                    f: Fiber { env: f.env.insert(var@, vl), talk: one.talk, ..f },
                    stop: None,
                },
            }
        },
        Stmt::Effect { verb, args } => {
            let all = eval_all_out(
                d,
                args@,
                Seq::empty(),
                pc,
                f.env,
                decl.observed,
                rs,
                f.talk,
            );
            match all.end {
                Err(h) => Went { f: Fiber { talk: all.talk, ..f }, stop: Some(stop_end(h)) },
                Ok(vl) => effect_out(
                    verb@,
                    vl.0,
                    vl.1,
                    remaining,
                    mode,
                    Fiber { talk: all.talk, ..f },
                    decl,
                    rs,
                ),
            }
        },
        Stmt::If { guard, then_, else_ } => {
            let one = guard_out(d, guard, f.env, decl.observed, rs, f.talk);
            match one.end {
                Err(h) => Went { f: Fiber { talk: one.talk, ..f }, stop: Some(stop_end(h)) },
                Ok(bl) => go_stmts(
                    if bl.0 {
                        then_@
                    } else {
                        else_@
                    },
                    Fiber { talk: one.talk, ..f },
                    joined(pc, bl.1),
                    mode,
                    decl,
                    rs,
                ),
            }
        },
        Stmt::Foreach { var, list, bound, mode: own, body } => {
            let one = eval_out(d, list, f.env, decl.observed, rs, f.talk);
            match one.end {
                Err(h) => Went { f: Fiber { talk: one.talk, ..f }, stop: Some(stop_end(h)) },
                Ok(vl) => {
                    let items = items_of(vl.0);
                    let n = items.len();
                    let f1 = Fiber { talk: one.talk, ..f };
                    let pc2 = joined(pc, vl.1);
                    if n <= bound {
                        go_items(items, var@, vl.1, body, f1, pc2, own, decl, rs)
                    } else {
                        match own {
                            Mode::Strict => Went {
                                f: f1,
                                stop: Some(End::FailStop(bound_text(bound, n))),
                            },
                            Mode::Truncate => go_items(
                                items.take(bound as int),
                                var@,
                                vl.1,
                                body,
                                Fiber {
                                    talk: tell(
                                        tell(
                                            one.talk,
                                            HostAsk::Audit {
                                                event: "plan.truncated"@,
                                                extra: loop_extra(bound, n),
                                            },
                                        ),
                                        HostAsk::Emit(loop_event((n - bound) as u64)),
                                    ),
                                    ..f
                                },
                                pc2,
                                own,
                                decl,
                                rs,
                            ),
                            Mode::Escalate => {
                                let p = park_out(f1, rs);
                                match p.stop {
                                    Some(_) => p,
                                    None => go_items(
                                        items,
                                        var@,
                                        vl.1,
                                        body,
                                        p.f,
                                        pc2,
                                        own,
                                        decl,
                                        rs,
                                    ),
                                }
                            },
                        }
                    }
                },
            }
        },
    }
}

/// The run of the body of a loop, once for each element.
pub open spec fn go_items(
    items: Seq<Value>,
    var: Seq<char>,
    label: Tags,
    body: Vec<Stmt>,
    f: Fiber,
    pc: Tags,
    mode: Mode,
    decl: Declared,
    rs: Seq<Reply>,
) -> Went
    decreases body, items.len(),
{
    if items.len() == 0 {
        Went { f, stop: None }
    } else {
        let once = go_stmts(
            body@,
            Fiber { env: f.env.insert(var, (items[0], label)), ..f },
            pc,
            mode,
            decl,
            rs,
        );
        match once.stop {
            Some(_) => once,
            None => go_items(items.drop_first(), var, label, body, once.f, pc, mode, decl, rs),
        }
    }
}

/// The run of statements, one after the other.
pub open spec fn go_stmts(
    ss: Seq<Stmt>,
    f: Fiber,
    pc: Tags,
    mode: Mode,
    decl: Declared,
    rs: Seq<Reply>,
) -> Went
    decreases ss, 0nat,
{
    if ss.len() == 0 {
        Went { f, stop: None }
    } else {
        let one = go_stmt(ss[0], ss.len(), f, pc, mode, decl, rs);
        match one.stop {
            Some(_) => one,
            None => go_stmts(ss.drop_first(), one.f, pc, mode, decl, rs),
        }
    }
}

/// The state of a run in memory.
struct Interpreter {
    env: StrMap<(Json, Label)>,
    withheld: usize,
    active_nonce: String,
    trace: Vec<TraceEntry>,
}

spec fn fiber(rt: Interpreter, log: Seq<(Ask, Reply)>) -> Fiber {
    Fiber {
        env: bindings(rt.env),
        withheld: rt.withheld,
        nonce: rt.active_nonce@,
        talk: talk_of(log, rt.trace@),
    }
}

spec fn went_of(r: Result<(), Outcome>, rt: Interpreter, log: Seq<(Ask, Reply)>) -> Went {
    Went {
        f: fiber(rt, log),
        stop: match r {
            Ok(_) => None,
            Err(s) => Some(s@),
        },
    }
}

fn end_of_stop(s: Stop) -> (r: Outcome)
    ensures
        r@ == stop_end(s@),
{
    match s {
        Stop::Fail(t) => Outcome::FailStop { at: t },
        Stop::BadGuard(t) => Outcome::FailStop { at: joined_text("guard regex: ", t.as_str()) },
    }
}

/// One more question and reply.
proof fn said(log: Seq<(Ask, Reply)>, ask: HostAsk, reply: Reply, trace: Seq<TraceEntry>)
    ensures
        talk_of(log.push((Ask::Host(ask), reply)), trace) == tell(talk_of(log, trace), ask),
{
    assert(questions(log.push((Ask::Host(ask), reply))) =~= questions(log).push(Ask::Host(ask)));
}

fn mint_all<R: PlanRuntime>(rt: &mut R, orders: &Vec<MintOrder>, trace: &Vec<TraceEntry>) -> (ok:
    bool)
    ensures
        old(rt).log().is_prefix_of(final(rt).log()),
        final(rt).signals_left() == old(rt).signals_left(),
        forall|rs: Seq<Reply>| #[trigger]
            hears(rs, final(rt).log()) ==> mint_all_out(
                order_views(orders@),
                talk_of(old(rt).log(), trace@),
                rs,
            ) == (talk_of(final(rt).log(), trace@), ok),
{
    let ghost all = order_views(orders@);
    let ghost t0 = talk_of(rt.log(), trace@);
    let mut i: usize = 0;
    assert(all.skip(0) =~= all);
    while i < orders.len()
        invariant
            i <= orders@.len(),
            all == order_views(orders@),
            t0 == talk_of(old(rt).log(), trace@),
            old(rt).log().is_prefix_of(rt.log()),
            rt.signals_left() == old(rt).signals_left(),
            forall|rs: Seq<Reply>| #[trigger]
                hears(rs, rt.log()) ==> mint_all_out(all, t0, rs) == mint_all_out(
                    all.skip(i as int),
                    talk_of(rt.log(), trace@),
                    rs,
                ),
        decreases orders.len() - i,
    {
        let ghost rest = all.skip(i as int);
        let ghost log1 = rt.log();
        let ghost t1 = talk_of(log1, trace@);
        assert(rest[0] == orders@[i as int]@);
        assert(rest.drop_first() =~= all.skip(i + 1));
        let r = rt.mint(&orders[i]);
        proof {
            said(log1, HostAsk::Mint(rest[0]), done_reply(r), trace@);
            assert forall|rs: Seq<Reply>| #[trigger] hears(rs, rt.log()) implies mint_all_out(
                all,
                t0,
                rs,
            ) == mint_all_out(rest, t1, rs) && rs[log1.len() as int] == done_reply(r) by {
                hears_prefix(rs, log1, rt.log());
                assert(rs[log1.len() as int] == rt.log()[log1.len() as int].1);
            }
        }
        match r {
            Err(_) => {
                return false;
            },
            Ok(_) => {},
        }
        i = i + 1;
    }
    assert(all.skip(i as int).len() == 0);
    true
}

fn park_for_resume<R: PlanRuntime>(rt: &mut R, it: &mut Interpreter) -> (r: Result<(), Outcome>)
    ensures
        old(rt).log().is_prefix_of(final(rt).log()),
        final(rt).signals_left() < old(rt).signals_left(),
        forall|rs: Seq<Reply>| #[trigger]
            hears(rs, final(rt).log()) ==> park_out(fiber(*old(it), old(rt).log()), rs) == went_of(
                r,
                *final(it),
                final(rt).log(),
            ),
{
    let ghost f0 = fiber(*it, rt.log());
    let ghost log0 = rt.log();
    let ghost tr = it.trace@;
    rt.set_state(RunState::Paused);
    let ghost log1 = rt.log();
    let none: Vec<(String, Json)> = no_members();
    rt.audit("plan.paused", Json::Object(none));
    let ghost log2 = rt.log();
    let mut ms: Vec<(String, Json)> = no_members();
    put(&mut ms, "kind", text("paused"));
    proof {
        assert(named_values(ms@) =~= seq![("kind"@, Value::Str("paused"@))]);
    }
    rt.emit(Json::Object(ms));
    let ghost log3 = rt.log();
    let signal = rt.await_signal();
    let ghost log4 = rt.log();
    let ghost sv = signal@;
    proof {
        assert(log0 =~= log4.subrange(0, log0.len() as int));
        said(log0, HostAsk::SetState(RunState::Paused), Reply::Host(HostReply::Done), tr);
        said(
            log1,
            HostAsk::Audit { event: "plan.paused"@, extra: Value::Object(Seq::empty()) },
            Reply::Host(HostReply::Done),
            tr,
        );
        said(log2, HostAsk::Emit(paused_event()), Reply::Host(HostReply::Done), tr);
        said(log3, HostAsk::Await, Reply::Host(HostReply::Signal(sv)), tr);
        assert forall|rs: Seq<Reply>| #[trigger] hears(rs, log4) implies rs[log3.len() as int]
            == Reply::Host(HostReply::Signal(sv)) by {
            assert(rs[log3.len() as int] == log4[log3.len() as int].1);
        }
    }
    match signal {
        RunSignal::Abort { expired } => Err(Outcome::Aborted { expired }),
        RunSignal::Resume(consent) => {
            let ttl_at: u64 = consent.issued_at.saturating_add(consent.ttl_secs);
            let orders: Vec<MintOrder> = budget_orders(&consent.budget, ttl_at);
            let ok: bool = mint_all(rt, &orders, &it.trace);
            let ghost log5 = rt.log();
            proof {
                assert forall|rs: Seq<Reply>| #[trigger] hears(rs, log5) implies hears(
                    rs,
                    log4,
                ) by {
                    hears_prefix(rs, log4, log5);
                }
            }
            if !ok {
                return Err(Outcome::FailStop { at: "resume pool mint failed".to_owned() });
            }
            it.active_nonce = consent.nonce.clone();
            rt.set_state(RunState::Running);
            proof {
                said(log5, HostAsk::SetState(RunState::Running), Reply::Host(HostReply::Done), tr);
                assert forall|rs: Seq<Reply>| #[trigger] hears(rs, rt.log()) implies hears(
                    rs,
                    log5,
                ) by {
                    hears_prefix(rs, log5, rt.log());
                }
            }
            Ok(())
        },
    }
}

/// What is told about an effect.
fn effect_message(verb: &str, target: &str, error: Option<&String>) -> (j: Json)
    ensures
        j@ == effect_event(
            verb@,
            target@,
            match error {
                Some(e) => Some(e@),
                None => None,
            },
        ),
{
    let mut ms: Vec<(String, Json)> = no_members();
    match error {
        None => {
            put(&mut ms, "kind", text("effect"));
            put(&mut ms, "ok", Json::Bool(true));
            put(&mut ms, "target", text(target));
            put(&mut ms, "verb", text(verb));
            proof {
                assert(named_values(ms@) =~= effect_event(verb@, target@, None)->Object_0);
            }
        },
        Some(e) => {
            put(&mut ms, "error", text(e.as_str()));
            put(&mut ms, "kind", text("effect"));
            put(&mut ms, "ok", Json::Bool(false));
            put(&mut ms, "target", text(target));
            put(&mut ms, "verb", text(verb));
            proof {
                assert(named_values(ms@) =~= effect_event(verb@, target@, Some(e@))->Object_0);
            }
        },
    }
    Json::Object(ms)
}

/// Performs an effect that is not withheld.
fn perform<R: PlanRuntime>(
    rt: &mut R,
    it: &mut Interpreter,
    verb: &str,
    args: &Json,
    target: &str,
    remaining: usize,
    mode: Mode,
) -> (r: Result<(), Outcome>)
    ensures
        old(rt).log().is_prefix_of(final(rt).log()),
        forall|rs: Seq<Reply>| #[trigger]
            hears(rs, final(rt).log()) ==> perform_out(
                verb@,
                args@,
                target@,
                remaining as nat,
                mode,
                fiber(*old(it), old(rt).log()),
                rs,
            ) == went_of(r, *final(it), final(rt).log()),
{
    let ghost f0 = fiber(*it, rt.log());
    let ghost n = remaining as nat;
    loop
        invariant
            f0 == fiber(*old(it), old(rt).log()),
            n == remaining as nat,
            old(rt).log().is_prefix_of(rt.log()),
            forall|rs: Seq<Reply>| #[trigger]
                hears(rs, rt.log()) ==> perform_out(verb@, args@, target@, n, mode, f0, rs)
                    == perform_out(
                    verb@,
                    args@,
                    target@,
                    n,
                    mode,
                    fiber(*it, rt.log()),
                    rs,
                ),
        decreases rt.signals_left(),
    {
        let ghost log0 = rt.log();
        let ghost f1 = fiber(*it, log0);
        let ghost tr = it.trace@;
        let ghost t0 = talk_of(log0, tr);
        let got = rt.invoke(verb, args.clone());
        let ghost log1 = rt.log();
        let ghost t1 = Talk {
            asks: t0.asks.push(Ask::Invoke { verb: verb@, args: args@ }),
            trace: t0.trace,
        };
        proof {
            assert(questions(log1) =~= questions(log0).push(
                Ask::Invoke { verb: verb@, args: args@ },
            ));
            assert(talk_of(log1, tr) == t1);
        }
        match got {
            Ok(_) => {
                let counted_so_far: u64 = match rt.emission_count() {
                    Ok(k) => k,
                    Err(_) => 0,
                };
                let ghost log2 = rt.log();
                let seq: u64 = counted_so_far.saturating_add(1);
                let logged = rt.log_emission(seq, verb, target, it.active_nonce.as_str());
                let ghost log3 = rt.log();
                rt.emit(effect_message(verb, target, None));
                proof {
                    let log4 = rt.log();
                    let nr = log2[log1.len() as int].1;
                    said(log1, HostAsk::Emissions, nr, tr);
                    let la = HostAsk::Log {
                        seq,
                        verb: verb@,
                        target: target@,
                        nonce: it.active_nonce@,
                    };
                    said(log2, la, done_reply(logged), tr);
                    said(
                        log3,
                        HostAsk::Emit(effect_event(verb@, target@, None)),
                        Reply::Host(HostReply::Done),
                        tr,
                    );
                    assert forall|rs: Seq<Reply>| #[trigger] hears(rs, log4) implies perform_out(
                        verb@,
                        args@,
                        target@,
                        n,
                        mode,
                        f0,
                        rs,
                    ) == went_of(Ok(()), *it, log4) by {
                        hears_prefix(rs, log0, log4);
                        assert(rs[log0.len() as int] == log4[log0.len() as int].1);
                        assert(rs[log1.len() as int] == log4[log1.len() as int].1);
                        assert(number_of(nr) == counted_so_far);
                    }
                }
                return Ok(());
            },
            Err(e) => {
                let msg: String = e.message();
                rt.emit(effect_message(verb, target, Some(&msg)));
                let ghost log2 = rt.log();
                let ghost f2 = fiber(*it, log2);
                proof {
                    said(
                        log1,
                        HostAsk::Emit(effect_event(verb@, target@, Some(msg@))),
                        Reply::Host(HostReply::Done),
                        tr,
                    );
                    assert forall|rs: Seq<Reply>| #[trigger] hears(rs, log2) implies rs.len()
                        > log0.len() && rs[log0.len() as int] == Reply::Refused(e@)
                        && perform_out(verb@, args@, target@, n, mode, f0, rs) == perform_out(
                        verb@,
                        args@,
                        target@,
                        n,
                        mode,
                        f1,
                        rs,
                    ) by {
                        hears_prefix(rs, log0, log2);
                        assert(rs[log0.len() as int] == log2[log0.len() as int].1);
                    }
                }
                let short_of_budget: bool = match &e {
                    KernelError::BudgetExhausted(_) => true,
                    KernelError::NoCapability { .. } => true,
                    _ => false,
                };
                if !short_of_budget {
                    let mut at: String = joined_text(verb, ": ");
                    at.append(msg.as_str());
                    return Err(Outcome::FailStop { at });
                }
                match mode {
                    Mode::Strict => {
                        return Err(
                            Outcome::FailStop { at: joined_text("budget exhausted: ", verb) },
                        );
                    },
                    Mode::Truncate => {
                        let mut ms: Vec<(String, Json)> = no_members();
                        put(&mut ms, "at", text(verb));
                        put(&mut ms, "dropped", number(remaining as u64));
                        proof {
                            assert(named_values(ms@) =~= dropped_extra(
                                verb@,
                                remaining as u64,
                            )->Object_0);
                        }
                        rt.audit("plan.truncated", Json::Object(ms));
                        let ghost log3 = rt.log();
                        let mut es: Vec<(String, Json)> = no_members();
                        put(&mut es, "at", text(verb));
                        put(&mut es, "dropped", number(remaining as u64));
                        put(&mut es, "kind", text("truncated"));
                        proof {
                            assert(named_values(es@) =~= dropped_event(
                                verb@,
                                remaining as u64,
                            )->Object_0);
                        }
                        rt.emit(Json::Object(es));
                        proof {
                            said(
                                log2,
                                HostAsk::Audit {
                                    event: "plan.truncated"@,
                                    extra: dropped_extra(verb@, remaining as u64),
                                },
                                Reply::Host(HostReply::Done),
                                tr,
                            );
                            said(
                                log3,
                                HostAsk::Emit(dropped_event(verb@, remaining as u64)),
                                Reply::Host(HostReply::Done),
                                tr,
                            );
                            assert forall|rs: Seq<Reply>| #[trigger] hears(
                                rs,
                                rt.log(),
                            ) implies hears(rs, log2) by {
                                hears_prefix(rs, log2, rt.log());
                            }
                        }
                        return Err(Outcome::Truncated { dropped: remaining });
                    },
                    Mode::Escalate => {
                        let p = park_for_resume(rt, it);
                        proof {
                            assert forall|rs: Seq<Reply>| #[trigger] hears(
                                rs,
                                rt.log(),
                            ) implies hears(rs, log2) by {
                                hears_prefix(rs, log2, rt.log());
                            }
                        }
                        match p {
                            Err(o) => {
                                return Err(o);
                            },
                            Ok(_) => {},
                        }
                    },
                }
            },
        }
    }
}

/// The monitor of an effect whose arguments have been evaluated.
fn exec_effect<R: PlanRuntime>(
    rt: &mut R,
    it: &mut Interpreter,
    verb: &String,
    vals: Vec<Json>,
    label: &Label,
    remaining: usize,
    mode: Mode,
    schemas: &VerbSchemas,
) -> (r: Result<(), Outcome>)
    ensures
        old(rt).log().is_prefix_of(final(rt).log()),
        forall|rs: Seq<Reply>| #[trigger]
            hears(rs, final(rt).log()) ==> effect_out(
                verb@,
                values(vals@),
                label@,
                remaining as nat,
                mode,
                fiber(*old(it), old(rt).log()),
                declared(schemas),
                rs,
            ) == went_of(r, *final(it), final(rt).log()),
{
    let ghost argv = values(vals@);
    let bare: bool = vals.len() == 1 && vals[0].is_object();
    let mut vals = vals;
    let args: Json = if bare {
        match vals.pop() {
            Some(v) => v,
            None => Json::Null,
        }
    } else {
        Json::Array(vals)
    };
    assert(args@ == effect_args(argv));
    let external: bool = match schemas.external_effects.get(verb.as_str()) {
        Some(b) => *b,
        None => true,
    };
    if external && !label.conf.is_empty() {
        return Err(Outcome::FailStop { at: joined_text("sink denied: ", verb.as_str()) });
    }
    let ghost log0 = rt.log();
    let ghost tr = it.trace@;
    let policy: EffectPolicy = rt.effect_policy(verb.as_str(), &args);
    let ghost log1 = rt.log();
    let ghost pr = Reply::Host(
        HostReply::Policy { target: policy.target@, withhold: policy.withhold },
    );
    proof {
        said(log0, HostAsk::Policy { verb: verb@, args: args@ }, pr, tr);
        assert forall|rs: Seq<Reply>| #[trigger] hears(rs, log1) implies rs[log0.len() as int]
            == pr by {
            assert(rs[log0.len() as int] == log1[log0.len() as int].1);
        }
    }
    if policy.withhold {
        let held = rt.hold(verb.as_str(), policy.target.as_str(), &args, 1);
        let ghost log2 = rt.log();
        proof {
            said(
                log1,
                HostAsk::Hold { verb: verb@, target: policy.target@, args: args@, cost: 1 },
                done_reply(held),
                tr,
            );
            assert(log0 =~= log2.subrange(0, log0.len() as int));
            assert forall|rs: Seq<Reply>| #[trigger] hears(rs, log2) implies hears(rs, log1)
                && rs[log1.len() as int] == done_reply(held) by {
                hears_prefix(rs, log1, log2);
                assert(rs[log1.len() as int] == log2[log1.len() as int].1);
            }
        }
        match held {
            Err(_) => {
                return Err(
                    Outcome::FailStop { at: joined_text("buffer write failed: ", verb.as_str()) },
                );
            },
            Ok(_) => {},
        }
        it.withheld = it.withheld.saturating_add(1);
        let mut ms: Vec<(String, Json)> = no_members();
        put(&mut ms, "target", text(policy.target.as_str()));
        put(&mut ms, "verb", text(verb.as_str()));
        proof {
            assert(named_values(ms@) =~= withheld_extra(verb@, policy.target@)->Object_0);
        }
        rt.audit("plan.withheld", Json::Object(ms));
        let ghost log3 = rt.log();
        let mut es: Vec<(String, Json)> = no_members();
        put(&mut es, "kind", text("withheld"));
        put(&mut es, "target", text(policy.target.as_str()));
        put(&mut es, "verb", text(verb.as_str()));
        proof {
            assert(named_values(es@) =~= withheld_event(verb@, policy.target@)->Object_0);
        }
        rt.emit(Json::Object(es));
        proof {
            let log4 = rt.log();
            said(
                log2,
                HostAsk::Audit {
                    event: "plan.withheld"@,
                    extra: withheld_extra(verb@, policy.target@),
                },
                Reply::Host(HostReply::Done),
                tr,
            );
            said(
                log3,
                HostAsk::Emit(withheld_event(verb@, policy.target@)),
                Reply::Host(HostReply::Done),
                tr,
            );
            assert(log0 =~= log4.subrange(0, log0.len() as int));
            assert(log2 =~= log4.subrange(0, log2.len() as int));
            assert forall|rs: Seq<Reply>| #[trigger] hears(rs, log4) implies hears(rs, log2) by {
                hears_prefix(rs, log2, log4);
            }
        }
        return Ok(());
    }
    let r = perform(
        rt,
        it,
        verb.as_str(),
        &args,
        policy.target.as_str(),
        remaining,
        mode,
    );
    proof {
        assert forall|rs: Seq<Reply>| #[trigger] hears(rs, rt.log()) implies hears(rs, log1) by {
            hears_prefix(rs, log1, rt.log());
        }
        assert(log0 =~= rt.log().subrange(0, log0.len() as int));
    }
    r
}

fn exec_stmts<R: PlanRuntime>(
    rt: &mut R,
    it: &mut Interpreter,
    stmts: &Vec<Stmt>,
    pc: &Label,
    mode: Mode,
    schemas: &VerbSchemas,
) -> (r: Result<(), Outcome>)
    ensures
        old(rt).log().is_prefix_of(final(rt).log()),
        forall|rs: Seq<Reply>| #[trigger]
            hears(rs, final(rt).log()) ==> go_stmts(
                stmts@,
                fiber(*old(it), old(rt).log()),
                pc@,
                mode,
                declared(schemas),
                rs,
            ) == went_of(r, *final(it), final(rt).log()),
    decreases stmts@, 0nat,
{
    let ghost decl = declared(schemas);
    let ghost f0 = fiber(*it, rt.log());
    let mut i: usize = 0;
    assert(stmts@.skip(0) =~= stmts@);
    while i < stmts.len()
        invariant
            i <= stmts.len(),
            decl == declared(schemas),
            f0 == fiber(*old(it), old(rt).log()),
            old(rt).log().is_prefix_of(rt.log()),
            forall|rs: Seq<Reply>| #[trigger]
                hears(rs, rt.log()) ==> go_stmts(stmts@, f0, pc@, mode, decl, rs) == go_stmts(
                    stmts@.skip(i as int),
                    fiber(*it, rt.log()),
                    pc@,
                    mode,
                    decl,
                    rs,
                ),
        decreases stmts.len() - i,
    {
        let ghost rest = stmts@.skip(i as int);
        let ghost log1 = rt.log();
        let ghost f1 = fiber(*it, log1);
        assert(rest[0] == stmts@[i as int]);
        assert(rest.drop_first() =~= stmts@.skip(i + 1));
        assert(decreases_to!(stmts@ => stmts@[i as int]));
        let one = exec_stmt(rt, it, &stmts[i], stmts.len() - i, pc, mode, schemas);
        proof {
            assert forall|rs: Seq<Reply>| #[trigger] hears(rs, rt.log()) implies go_stmts(
                stmts@,
                f0,
                pc@,
                mode,
                decl,
                rs,
            ) == go_stmts(rest, f1, pc@, mode, decl, rs) && go_stmt(
                rest[0],
                rest.len(),
                f1,
                pc@,
                mode,
                decl,
                rs,
            ) == went_of(one, *it, rt.log()) by {
                hears_prefix(rs, log1, rt.log());
            }
        }
        match one {
            Err(s) => {
                return Err(s);
            },
            Ok(_) => {},
        }
        i = i + 1;
    }
    assert(stmts@.skip(i as int).len() == 0);
    Ok(())
}

fn exec_stmt<R: PlanRuntime>(
    rt: &mut R,
    it: &mut Interpreter,
    s: &Stmt,
    remaining: usize,
    pc: &Label,
    mode: Mode,
    schemas: &VerbSchemas,
) -> (r: Result<(), Outcome>)
    ensures
        old(rt).log().is_prefix_of(final(rt).log()),
        forall|rs: Seq<Reply>| #[trigger]
            hears(rs, final(rt).log()) ==> go_stmt(
                *s,
                remaining as nat,
                fiber(*old(it), old(rt).log()),
                pc@,
                mode,
                declared(schemas),
                rs,
            ) == went_of(r, *final(it), final(rt).log()),
    decreases s, 0nat,
{
    match s {
        Stmt::Let { var, expr } => match eval::<R, ThroughBroker>(
            rt,
            &mut it.trace,
            expr,
            &it.env,
            schemas,
        ) {
            Err(h) => Err(end_of_stop(h)),
            Ok((v, l)) => {
                let ghost env0 = bindings(it.env);
                let ghost vl = (v@, l@);
                it.env.insert(var.clone(), (v, l));
                assert(bindings(it.env) =~= env0.insert(var@, vl));
                Ok(())
            },
        },
        Stmt::Effect { verb, args } => match eval_all::<R, ThroughBroker>(
            rt,
            &mut it.trace,
            args,
            pc,
            &it.env,
            schemas,
        ) {
            Err(h) => Err(end_of_stop(h)),
            Ok((vals, label)) => {
                let ghost log1 = rt.log();
                let r = exec_effect(rt, it, verb, vals, &label, remaining, mode, schemas);
                proof {
                    assert forall|rs: Seq<Reply>| #[trigger] hears(rs, rt.log()) implies hears(
                        rs,
                        log1,
                    ) by {
                        hears_prefix(rs, log1, rt.log());
                    }
                }
                r
            },
        },
        Stmt::If { guard, then_, else_ } => match eval_guard::<R, ThroughBroker>(
            rt,
            &mut it.trace,
            guard,
            &it.env,
            schemas,
        ) {
            Err(h) => Err(end_of_stop(h)),
            Ok((b, l)) => {
                let ghost log1 = rt.log();
                let pc2 = pc.join(&l);
                assert(decreases_to!(s => then_@));
                assert(decreases_to!(s => else_@));
                let r = if b {
                    exec_stmts(rt, it, then_, &pc2, mode, schemas)
                } else {
                    exec_stmts(rt, it, else_, &pc2, mode, schemas)
                };
                proof {
                    assert forall|rs: Seq<Reply>| #[trigger] hears(rs, rt.log()) implies hears(
                        rs,
                        log1,
                    ) by {
                        hears_prefix(rs, log1, rt.log());
                    }
                }
                r
            },
        },
        Stmt::Foreach { var, list, bound, mode: own, body } => match eval::<R, ThroughBroker>(
            rt,
            &mut it.trace,
            list,
            &it.env,
            schemas,
        ) {
            Err(h) => Err(end_of_stop(h)),
            Ok((v, l)) => {
                let ghost log0 = rt.log();
                let ghost f1 = fiber(*it, log0);
                let ghost tr = it.trace@;
                let none: Vec<Json> = Vec::new();
                assert(values(none@) =~= Seq::<Value>::empty());
                let items: &Vec<Json> = match v.as_array() {
                    Some(items) => items,
                    None => &none,
                };
                let n: usize = items.len();
                let pc2 = pc.join(&l);
                assert(values(items@) == items_of(v@));
                let mut take: usize = n;
                if n > *bound as usize {
                    match own {
                        Mode::Strict => {
                            let mut at: String = "foreach bound ".to_owned();
                            push_decimal(&mut at, *bound as u64);
                            at.append(" < ");
                            push_decimal(&mut at, n as u64);
                            return Err(Outcome::FailStop { at });
                        },
                        Mode::Truncate => {
                            let dropped: u64 = (n - *bound as usize) as u64;
                            let mut ms: Vec<(String, Json)> = no_members();
                            put(&mut ms, "actual", number(n as u64));
                            put(&mut ms, "bound", number(*bound as u64));
                            put(&mut ms, "dropped", number(dropped));
                            proof {
                                assert(named_values(ms@) =~= loop_extra(
                                    *bound,
                                    n as nat,
                                )->Object_0);
                            }
                            rt.audit("plan.truncated", Json::Object(ms));
                            let ghost log1 = rt.log();
                            let mut es: Vec<(String, Json)> = no_members();
                            put(&mut es, "dropped", number(dropped));
                            put(&mut es, "kind", text("truncated"));
                            proof {
                                assert(named_values(es@) =~= loop_event(dropped)->Object_0);
                            }
                            rt.emit(Json::Object(es));
                            proof {
                                said(
                                    log0,
                                    HostAsk::Audit {
                                        event: "plan.truncated"@,
                                        extra: loop_extra(*bound, n as nat),
                                    },
                                    Reply::Host(HostReply::Done),
                                    tr,
                                );
                                said(
                                    log1,
                                    HostAsk::Emit(loop_event(dropped)),
                                    Reply::Host(HostReply::Done),
                                    tr,
                                );
                                assert(log0 =~= rt.log().subrange(0, log0.len() as int));
                            }
                            take = *bound as usize;
                        },
                        Mode::Escalate => {
                            let p = park_for_resume(rt, it);
                            proof {
                                assert forall|rs: Seq<Reply>| #[trigger] hears(
                                    rs,
                                    rt.log(),
                                ) implies hears(rs, log0) by {
                                    hears_prefix(rs, log0, rt.log());
                                }
                            }
                            match p {
                                Err(o) => {
                                    return Err(o);
                                },
                                Ok(_) => {},
                            }
                        },
                    }
                }
                let ghost log2 = rt.log();
                let ghost f2 = fiber(*it, log2);
                assert(values(items@).take(n as int) =~= values(items@));
                assert(decreases_to!(s => body));
                assert(log0.is_prefix_of(log2));
                let r = exec_items(rt, it, items, take, var, &l, body, &pc2, *own, schemas);
                proof {
                    assert forall|rs: Seq<Reply>| #[trigger] hears(rs, rt.log()) implies hears(
                        rs,
                        log0,
                    ) && hears(rs, log2) by {
                        hears_prefix(rs, log2, rt.log());
                        hears_prefix(rs, log0, log2);
                    }
                    assert(log0 =~= rt.log().subrange(0, log0.len() as int));
                }
                r
            },
        },
    }
}

fn exec_items<R: PlanRuntime>(
    rt: &mut R,
    it: &mut Interpreter,
    items: &Vec<Json>,
    take: usize,
    var: &String,
    label: &Label,
    body: &Vec<Stmt>,
    pc: &Label,
    mode: Mode,
    schemas: &VerbSchemas,
) -> (r: Result<(), Outcome>)
    requires
        take <= items@.len(),
    ensures
        old(rt).log().is_prefix_of(final(rt).log()),
        forall|rs: Seq<Reply>| #[trigger]
            hears(rs, final(rt).log()) ==> go_items(
                values(items@).take(take as int),
                var@,
                label@,
                *body,
                fiber(*old(it), old(rt).log()),
                pc@,
                mode,
                declared(schemas),
                rs,
            ) == went_of(r, *final(it), final(rt).log()),
    decreases body, 1nat,
{
    let ghost decl = declared(schemas);
    let ghost f0 = fiber(*it, rt.log());
    let ghost all = values(items@).take(take as int);
    let mut i: usize = 0;
    assert(all.skip(0) =~= all);
    while i < take
        invariant
            i <= take <= items@.len(),
            decl == declared(schemas),
            all == values(items@).take(take as int),
            f0 == fiber(*old(it), old(rt).log()),
            old(rt).log().is_prefix_of(rt.log()),
            forall|rs: Seq<Reply>| #[trigger]
                hears(rs, rt.log()) ==> go_items(
                    all,
                    var@,
                    label@,
                    *body,
                    f0,
                    pc@,
                    mode,
                    decl,
                    rs,
                ) == go_items(
                    all.skip(i as int),
                    var@,
                    label@,
                    *body,
                    fiber(*it, rt.log()),
                    pc@,
                    mode,
                    decl,
                    rs,
                ),
        decreases take - i,
    {
        let ghost rest = all.skip(i as int);
        let ghost log1 = rt.log();
        let ghost f1 = fiber(*it, log1);
        assert(rest[0] == items@[i as int]@);
        assert(rest.drop_first() =~= all.skip(i + 1));
        let v = items[i].clone();
        let l = label.clone();
        let ghost vl = (v@, l@);
        it.env.insert(var.clone(), (v, l));
        let ghost f2 = fiber(*it, log1);
        assert(f2.env =~= f1.env.insert(var@, vl));
        assert(decreases_to!(body => body@));
        let one = exec_stmts(rt, it, body, pc, mode, schemas);
        proof {
            assert forall|rs: Seq<Reply>| #[trigger] hears(rs, rt.log()) implies go_items(
                all,
                var@,
                label@,
                *body,
                f0,
                pc@,
                mode,
                decl,
                rs,
            ) == go_items(rest, var@, label@, *body, f1, pc@, mode, decl, rs) && go_stmts(
                body@,
                f2,
                pc@,
                mode,
                decl,
                rs,
            ) == went_of(one, *it, rt.log()) by {
                hears_prefix(rs, log1, rt.log());
            }
        }
        match one {
            Err(s) => {
                return Err(s);
            },
            Ok(_) => {},
        }
        i = i + 1;
    }
    assert(all.skip(i as int).len() == 0);
    Ok(())
}

/// How a run is to be settled when its interpreter has ended.
#[derive(Debug, PartialEq, Eq)]
pub enum Settlement {
    /// It reached the end and withheld nothing: the segment is handed over to the run.
    Commit,
    /// It reached the end and withheld effects: they wait for approval.
    AwaitApproval { withheld: usize },
    /// It ended otherwise: withheld effects are dropped and the segment is torn down.
    RollBack(Outcome),
}

/// The state in which a run starts.
pub open spec fn fiber_start(nonce: Seq<char>, log: Seq<(Ask, Reply)>) -> Fiber {
    Fiber {
        env: Map::empty(),
        withheld: 0,
        nonce,
        talk: Talk { asks: questions(log), trace: Seq::empty() },
    }
}

/// Whether a run that went one way is settled in another.
pub open spec fn settles(s: Settlement, w: Went) -> bool {
    match w.stop {
        None => if w.f.withheld == 0 {
            s == Settlement::Commit
        } else {
            s == Settlement::AwaitApproval { withheld: w.f.withheld }
        },
        Some(e) => s matches Settlement::RollBack(o) && o@ == e,
    }
}

/// Runs the statements of a plan under the consent that pays for it, and tells how the run is
/// to be settled.
pub fn exec_thread<R: PlanRuntime>(
    rt: &mut R,
    plan: &Plan,
    nonce: &str,
    schemas: &VerbSchemas,
) -> (s: Settlement)
    ensures
        old(rt).log().is_prefix_of(final(rt).log()),
        forall|rs: Seq<Reply>| #[trigger]
            hears(rs, final(rt).log()) ==> {
                let went = go_stmts(
                    plan.stmts@,
                    fiber_start(nonce@, old(rt).log()),
                    bottom(),
                    Mode::Strict,
                    declared(schemas),
                    rs,
                );
                &&& went.f.talk.asks == questions(final(rt).log())
                &&& settles(s, went)
            },
{
    let mut it = Interpreter {
        env: StrMap::new(),
        withheld: 0,
        active_nonce: nonce.to_owned(),
        trace: Vec::new(),
    };
    proof {
        assert(talk_of(rt.log(), it.trace@) =~= Talk {
            asks: questions(rt.log()),
            trace: Seq::empty(),
        });
        assert(fiber(it, rt.log()) =~= fiber_start(nonce@, rt.log()));
    }
    match exec_stmts(
        rt,
        &mut it,
        &plan.stmts,
        &Label::public_trusted(),
        Mode::Strict,
        schemas,
    ) {
        Ok(_) => if it.withheld == 0 {
            Settlement::Commit
        } else {
            Settlement::AwaitApproval { withheld: it.withheld }
        },
        Err(o) => Settlement::RollBack(o),
    }
}

} // verus!

//! What the steps of a run do: statements follow each other, loops go over their elements within
//! their bounds, and effects are put to the world as they stand.

use crate::eval::{eval_out, Ask, Dialect, Reply};
use crate::interp::{
    effect_failure, is_external, items_of, loop_entry, noted, run_effect, run_items, run_stmt,
    run_stmts, truncate_note, Declared, Ending, Machine, Ran,
};
use crate::json::Value;
use crate::label::{joined, Tags};
use crate::plan::{Expr, Mode, Stmt};
use crate::plan_interp::{
    effect_args, effect_out, fresh_orders, go_items, go_stmt, go_stmts, lacks_budget, loop_event,
    loop_extra, mint_all_out, park_out, perform_out, policy_of, signal_of, tell, unheard, Fiber, Went,
};
use crate::plan_runtime::{HostAsk, HostReply, SignalView};
use crate::plan_types::{End, RunState};
use vstd::prelude::*;

verus! {

/// Whether a run ended with a failure.
pub open spec fn failed(stop: Option<End>) -> bool {
    stop matches Some(End::FailStop(_))
}

/// Statements follow each other: a run of some statements and then others is a run of the first
/// and, unless that came to an end, of the others from the state that it left. A run of none
/// changes nothing.
pub proof fn statements_follow_each_other(
    a: Seq<Stmt>,
    b: Seq<Stmt>,
    m: Machine,
    pc: Tags,
    decl: Declared,
    rs: Seq<Reply>,
)
    ensures
        run_stmts(Seq::empty(), m, pc, decl, rs) == (Ran { m, stop: None }),
        ({
            let first = run_stmts(a, m, pc, decl, rs);
            &&& first.stop is Some ==> run_stmts(a + b, m, pc, decl, rs) == first
            &&& first.stop is None ==> run_stmts(a + b, m, pc, decl, rs) == run_stmts(
                b,
                first.m,
                pc,
                decl,
                rs,
            )
        }),
    decreases a.len(),
{
    if a.len() == 0 {
        assert(a + b =~= b);
    } else {
        let one = run_stmt(a[0], m, pc, decl, rs);
        assert((a + b)[0] == a[0]);
        assert((a + b).drop_first() =~= a.drop_first() + b);
        statements_follow_each_other(a.drop_first(), b, one.m, pc, decl, rs);
    }
}

/// A run of one statement alone is the run of that statement.
pub proof fn a_statement_alone(s: Stmt, m: Machine, pc: Tags, decl: Declared, rs: Seq<Reply>)
    ensures
        run_stmts(seq![s], m, pc, decl, rs) == run_stmt(s, m, pc, decl, rs),
{
    let one = run_stmt(s, m, pc, decl, rs);
    assert(seq![s].drop_first() =~= Seq::<Stmt>::empty());
    assert(run_stmts(Seq::<Stmt>::empty(), one.m, pc, decl, rs) == (Ran { m: one.m, stop: None }));
    assert(seq![s][0] == s);
    if one.stop is None {
        assert(run_stmts(seq![s], m, pc, decl, rs) =~= one);
    }
}

/// A loop goes over its elements one after the other: over some and then others is over the first
/// and, unless that came to an end, over the others; over one element it is a run of its body with
/// the variable bound to that element under the label of the list; over none it changes nothing.
pub proof fn elements_follow_each_other(
    a: Seq<Value>,
    b: Seq<Value>,
    v: Value,
    var: Seq<char>,
    label: Tags,
    body: Vec<Stmt>,
    m: Machine,
    pc: Tags,
    decl: Declared,
    rs: Seq<Reply>,
)
    ensures
        run_items(Seq::empty(), var, label, body, m, pc, decl, rs) == (Ran { m, stop: None }),
        run_items(seq![v], var, label, body, m, pc, decl, rs) == run_stmts(
            body@,
            Machine { env: m.env.insert(var, (v, label)), ..m },
            pc,
            decl,
            rs,
        ),
        ({
            let first = run_items(a, var, label, body, m, pc, decl, rs);
            let all = run_items(a + b, var, label, body, m, pc, decl, rs);
            &&& first.stop is Some ==> all == first
            &&& first.stop is None ==> all == run_items(
                b,
                var,
                label,
                body,
                first.m,
                pc,
                decl,
                rs,
            )
        }),
    decreases a.len(),
{
    let once = run_stmts(
        body@,
        Machine { env: m.env.insert(var, (v, label)), ..m },
        pc,
        decl,
        rs,
    );
    assert(seq![v].drop_first() =~= Seq::<Value>::empty());
    assert(seq![v][0] == v);
    assert(run_items(Seq::<Value>::empty(), var, label, body, once.m, pc, decl, rs) == (Ran {
        m: once.m,
        stop: None,
    }));
    if once.stop is None {
        assert(run_items(seq![v], var, label, body, m, pc, decl, rs) =~= once);
    }
    if a.len() == 0 {
        assert(a + b =~= b);
    } else {
        let one = run_stmts(
            body@,
            Machine { env: m.env.insert(var, (a[0], label)), ..m },
            pc,
            decl,
            rs,
        );
        assert((a + b)[0] == a[0]);
        assert((a + b).drop_first() =~= a.drop_first() + b);
        elements_follow_each_other(
            a.drop_first(),
            b,
            v,
            var,
            label,
            body,
            one.m,
            pc,
            decl,
            rs,
        );
    }
}

/// The elements of a list; what is no list has none.
pub open spec fn elements_in(v: Value) -> Seq<Value> {
    match v {
        Value::Array(items) => items,
        _ => Seq::empty(),
    }
}

/// A loop keeps its bound. A list that fits is gone over in full. Of a longer one a strict loop does
/// nothing and ends the run, a loop that escalates does nothing and asks, and a loop that
/// truncates goes over the first elements, as many as the bound says. What is not a list has no
/// elements.
pub proof fn a_loop_keeps_its_bound(
    var: String,
    list: Expr,
    bound: u32,
    mode: Mode,
    body: Vec<Stmt>,
    m: Machine,
    pc: Tags,
    decl: Declared,
    rs: Seq<Reply>,
)
    ensures
        ({
            let s = Stmt::Foreach { var, list, bound, mode, body };
            let out = run_stmt(s, m, pc, decl, rs);
            let read = eval_out(Dialect::Direct, list, m.env, decl.observed, rs, m.talk);
            let at = Machine { talk: read.talk, ..m };
            read.end matches Ok(vl) ==> {
                let items = elements_in(vl.0);
                let pc2 = joined(pc, vl.1);
                &&& items.len() <= bound ==> out == run_items(
                    items,
                    var@,
                    vl.1,
                    body,
                    at,
                    pc2,
                    decl,
                    rs,
                )
                &&& items.len() > bound && mode == Mode::Strict ==> {
                    &&& out.stop == Some(Ending::BoundExceeded { bound, actual: items.len() })
                    &&& out.m.talk.asks == read.talk.asks
                    &&& out.m.env == m.env && out.m.budget == m.budget && out.m.effects
                        == m.effects
                }
                &&& items.len() > bound && mode == Mode::Escalate ==> {
                    &&& out.stop == Some(Ending::EscalateRequested { bound, actual: items.len() })
                    &&& out.m == at
                }
                &&& items.len() > bound && mode == Mode::Truncate ==> exists|at2: Machine|
                    out == #[trigger] run_items(
                        items.take(bound as int),
                        var@,
                        vl.1,
                        body,
                        at2,
                        pc2,
                        decl,
                        rs,
                    ) && at2.env == m.env && at2.budget == m.budget && at2.talk.asks
                        == read.talk.asks && at2.talk.trace.len() == read.talk.trace.len() + 1
            }
        }),
{
    let read = eval_out(Dialect::Direct, list, m.env, decl.observed, rs, m.talk);
    if let Ok(vl) = read.end {
        let items = elements_in(vl.0);
        assert(items_of(vl.0) == items);
        let at2 = Machine {
            talk: noted(read.talk, loop_entry(true, truncate_note(bound, items.len()))),
            ..m
        };
        if items.len() > bound && mode == Mode::Truncate {
            assert(run_stmt(Stmt::Foreach { var, list, bound, mode, body }, m, pc, decl, rs)
                == run_items(
                items.take(bound as int),
                var@,
                vl.1,
                body,
                at2,
                joined(pc, vl.1),
                decl,
                rs,
            ));
        }
    }
}

/// An effect that goes through is put to the world once, as it stands: the verb with the values of
/// its arguments in order; it costs one unit of its own verb's budget and nothing of any other's.
/// Where the world fails it the run ends with the failure, and the effect is not counted.
pub proof fn an_effect_is_put_as_it_stands(
    verb: Seq<char>,
    vals: Seq<Value>,
    label: Tags,
    m: Machine,
    decl: Declared,
    rs: Seq<Reply>,
    other: Seq<char>,
)
    ensures
        ({
            let out = run_effect(verb, vals, label, m, decl, rs);
            let open = !is_external(decl, verb) || label.conf.is_empty();
            let funded = m.budget.contains_key(verb) && m.budget[verb] > 0;
            &&& open && funded ==> {
                &&& out.m.talk.asks == m.talk.asks.push(Ask::Effect { verb, args: vals })
                &&& out.m.budget.contains_key(verb) && out.m.budget[verb] + 1 == m.budget[verb]
                &&& other != verb && m.budget.contains_key(other)
                    ==> out.m.budget.contains_key(other) && out.m.budget[other]
                    == m.budget[other]
                &&& out.stop is None <==> effect_failure(rs[m.talk.asks.len() as int]) is None
                &&& out.stop is Some ==> out.m.effects == m.effects && out.stop == Some(
                    Ending::ExecFailed(effect_failure(rs[m.talk.asks.len() as int])->0),
                )
                &&& out.stop is None && m.effects < u64::MAX ==> out.m.effects == m.effects + 1
            }
            &&& open && !funded ==> out.stop == Some(Ending::BudgetExhausted(verb))
            &&& !(open && funded) ==> {
                &&& out.stop is Some
                &&& out.m.talk.asks == m.talk.asks
                &&& out.m.budget == m.budget
                &&& out.m.effects == m.effects
            }
            &&& out.m.env == m.env
        }),
{
    if label.conf.is_empty() {
        assert(label.conf =~= Set::<Seq<char>>::empty());
    }
}

/// A verb that nothing is declared of counts as external: data that is confidential reaches only
/// verbs that are declared as internal.
pub proof fn the_undeclared_is_external(decl: Declared, verb: Seq<char>)
    ensures
        is_external(decl, verb) <==> !decl.external.contains_pair(verb, false),
{
}

/// Binding a variable makes it what the expression came to, with its label, and leaves every other
/// variable and the budget alone.
pub proof fn a_binding_binds_one(
    var: String,
    expr: Expr,
    m: Machine,
    pc: Tags,
    decl: Declared,
    rs: Seq<Reply>,
    other: Seq<char>,
)
    ensures
        ({
            let out = run_stmt(Stmt::Let { var, expr }, m, pc, decl, rs);
            let read = eval_out(Dialect::Direct, expr, m.env, decl.observed, rs, m.talk);
            &&& out.m.talk == read.talk
            &&& out.m.budget == m.budget
            &&& out.m.effects == m.effects
            &&& out.stop is None <==> read.end is Ok
            &&& read.end matches Ok(vl) ==> out.m.env.contains_pair(var@, vl)
            &&& read.end is Err ==> out.m.env == m.env
            &&& other != var@ ==> (out.m.env.contains_key(other) <==> m.env.contains_key(other))
                && out.m.env[other] == m.env[other]
        }),
{
}

/// The same of a run that the host performs: statements follow each other, and none change nothing.
pub proof fn hosted_statements_follow_each_other(
    s: Stmt,
    b: Seq<Stmt>,
    f: Fiber,
    pc: Tags,
    mode: Mode,
    decl: Declared,
    rs: Seq<Reply>,
)
    ensures
        go_stmts(Seq::empty(), f, pc, mode, decl, rs) == (Went { f, stop: None }),
        ({
            let all = go_stmts(seq![s] + b, f, pc, mode, decl, rs);
            let first = go_stmt(s, b.len() + 1, f, pc, mode, decl, rs);
            &&& first.stop is Some ==> all == first
            &&& first.stop is None ==> all == go_stmts(b, first.f, pc, mode, decl, rs)
        }),
{
    let ss = seq![s] + b;
    assert(ss[0] == s);
    assert(ss.drop_first() =~= b);
}

/// The same of a loop that the host performs.
pub proof fn hosted_elements_follow_each_other(
    a: Seq<Value>,
    b: Seq<Value>,
    v: Value,
    var: Seq<char>,
    label: Tags,
    body: Vec<Stmt>,
    f: Fiber,
    pc: Tags,
    mode: Mode,
    decl: Declared,
    rs: Seq<Reply>,
)
    ensures
        go_items(Seq::empty(), var, label, body, f, pc, mode, decl, rs) == (Went { f, stop: None }),
        go_items(seq![v], var, label, body, f, pc, mode, decl, rs) == go_stmts(
            body@,
            Fiber { env: f.env.insert(var, (v, label)), ..f },
            pc,
            mode,
            decl,
            rs,
        ),
        ({
            let first = go_items(a, var, label, body, f, pc, mode, decl, rs);
            let all = go_items(a + b, var, label, body, f, pc, mode, decl, rs);
            &&& first.stop is Some ==> all == first
            &&& first.stop is None ==> all == go_items(
                b,
                var,
                label,
                body,
                first.f,
                pc,
                mode,
                decl,
                rs,
            )
        }),
    decreases a.len(),
{
    let once = go_stmts(
        body@,
        Fiber { env: f.env.insert(var, (v, label)), ..f },
        pc,
        mode,
        decl,
        rs,
    );
    assert(seq![v].drop_first() =~= Seq::<Value>::empty());
    assert(seq![v][0] == v);
    assert(go_items(Seq::<Value>::empty(), var, label, body, once.f, pc, mode, decl, rs) == (Went {
        f: once.f,
        stop: None,
    }));
    if once.stop is None {
        assert(go_items(seq![v], var, label, body, f, pc, mode, decl, rs) =~= once);
    }
    if a.len() == 0 {
        assert(a + b =~= b);
    } else {
        let one = go_stmts(
            body@,
            Fiber { env: f.env.insert(var, (a[0], label)), ..f },
            pc,
            mode,
            decl,
            rs,
        );
        assert((a + b)[0] == a[0]);
        assert((a + b).drop_first() =~= a.drop_first() + b);
        hosted_elements_follow_each_other(
            a.drop_first(),
            b,
            v,
            var,
            label,
            body,
            one.f,
            pc,
            mode,
            decl,
            rs,
        );
    }
}

/// A loop of a hosted run keeps its bound in the same way, except that one that escalates suspends
/// the run first and goes over the whole list once more consent has come. Its own mode governs
/// what is in it.
pub proof fn a_hosted_loop_keeps_its_bound(
    var: String,
    list: Expr,
    bound: u32,
    own: Mode,
    body: Vec<Stmt>,
    remaining: nat,
    f: Fiber,
    pc: Tags,
    mode: Mode,
    decl: Declared,
    rs: Seq<Reply>,
)
    ensures
        ({
            let s = Stmt::Foreach { var, list, bound, mode: own, body };
            let out = go_stmt(s, remaining, f, pc, mode, decl, rs);
            let read = eval_out(Dialect::Brokered, list, f.env, decl.observed, rs, f.talk);
            let at = Fiber { talk: read.talk, ..f };
            read.end matches Ok(vl) ==> {
                let items = elements_in(vl.0);
                let pc2 = joined(pc, vl.1);
                &&& items.len() <= bound ==> out == go_items(
                    items,
                    var@,
                    vl.1,
                    body,
                    at,
                    pc2,
                    own,
                    decl,
                    rs,
                )
                &&& items.len() > bound && own == Mode::Strict ==> out.f == at && failed(out.stop)
                &&& items.len() > bound && own == Mode::Escalate ==> {
                    let p = park_out(at, rs);
                    &&& p.stop is Some ==> out == p
                    &&& p.stop is None ==> out == go_items(
                        items,
                        var@,
                        vl.1,
                        body,
                        p.f,
                        pc2,
                        own,
                        decl,
                        rs,
                    )
                }
                &&& items.len() > bound && own == Mode::Truncate ==> exists|at2: Fiber|
                    out == #[trigger] go_items(
                        items.take(bound as int),
                        var@,
                        vl.1,
                        body,
                        at2,
                        pc2,
                        own,
                        decl,
                        rs,
                    ) && at2.env == f.env && at2.withheld == f.withheld && at2.nonce == f.nonce
                        && at2.talk.asks.len() == read.talk.asks.len() + 2
            }
        }),
{
    let read = eval_out(Dialect::Brokered, list, f.env, decl.observed, rs, f.talk);
    if let Ok(vl) = read.end {
        let items = elements_in(vl.0);
        assert(items_of(vl.0) == items);
        let n = items.len();
        let at2 = Fiber {
            talk: tell(
                tell(
                    read.talk,
                    HostAsk::Audit { event: "plan.truncated"@, extra: loop_extra(bound, n) },
                ),
                HostAsk::Emit(loop_event((n - bound) as u64)),
            ),
            ..f
        };
        if n > bound && own == Mode::Truncate {
            let s = Stmt::Foreach { var, list, bound, mode: own, body };
            assert(go_stmt(s, remaining, f, pc, mode, decl, rs) == go_items(
                items.take(bound as int),
                var@,
                vl.1,
                body,
                at2,
                joined(pc, vl.1),
                own,
                decl,
                rs,
            ));
        }
    }
}

/// An effect of a hosted run that is neither confidential outside nor withheld goes to the broker
/// first of all: its verb, with a single object bare and anything else as a list. Where the broker
/// performs it the run goes on; where a budget is wanting the mode of the loop decides; any other
/// refusal ends the run.
pub proof fn a_hosted_effect_goes_to_the_broker(
    verb: Seq<char>,
    args: Value,
    target: Seq<char>,
    remaining: nat,
    mode: Mode,
    f: Fiber,
    rs: Seq<Reply>,
)
    requires
        f.talk.asks.len() < rs.len(),
    ensures
        ({
            let out = perform_out(verb, args, target, remaining, mode, f, rs);
            let reply = rs[f.talk.asks.len() as int];
            &&& out.f.talk.asks.len() > f.talk.asks.len()
            &&& reply is Got ==> out.stop is None && out.f.nonce == f.nonce && out.f.withheld
                == f.withheld && out.f.env == f.env && out.f.talk.asks[f.talk.asks.len() as int]
                == (Ask::Invoke { verb, args })
            &&& reply matches Reply::Refused(e) ==> {
                &&& !(e is BudgetExhausted || e is NoCapability) ==> failed(out.stop)
                &&& (e is BudgetExhausted || e is NoCapability) && mode == Mode::Strict
                    ==> failed(out.stop)
                &&& (e is BudgetExhausted || e is NoCapability) && mode == Mode::Truncate
                    ==> out.stop == Some(End::Truncated(remaining))
            }
        }),
    decreases unheard(f.talk, rs),
{
    reveal_with_fuel(perform_out, 2);
    if let Reply::Refused(e) = rs[f.talk.asks.len() as int] {
        if lacks_budget(e) && mode == Mode::Escalate {
            let t1 = crate::eval::Talk {
                asks: f.talk.asks.push(Ask::Invoke { verb, args }),
                trace: f.talk.trace,
            };
            let t2 = tell(
                t1,
                HostAsk::Emit(
                    crate::plan_interp::effect_event(
                        verb,
                        target,
                        Some(crate::error::refusal_text(e)),
                    ),
                ),
            );
            let f2 = Fiber { talk: t2, ..f };
            let p = park_out(f2, rs);
            crate::plan_interp::parking_asks(f2, rs);
            if p.stop is None && p.f.talk.asks.len() < rs.len() {
                a_hosted_effect_goes_to_the_broker(verb, args, target, remaining, mode, p.f, rs);
            }
        }
    }
}

/// A single object is handed to the broker bare; anything else, and several values, as a list in
/// order.
pub proof fn arguments_are_handed_on(vals: Seq<Value>)
    ensures
        vals.len() == 1 && vals[0] is Object ==> effect_args(vals) == vals[0],
        vals.len() != 1 ==> effect_args(vals) == Value::Array(vals),
        vals.len() == 1 && !(vals[0] is Object) ==> effect_args(vals) == Value::Array(
            seq![vals[0]],
        ),
{
    if vals.len() == 1 {
        assert(vals =~= seq![vals[0]]);
    }
}

/// An effect that the host withholds is counted and held, and not performed: the run goes on with
/// one withheld effect more, or fails because the host could not keep it; the run's consent and
/// variables stay.
pub proof fn what_is_withheld_is_held(
    verb: Seq<char>,
    vals: Seq<Value>,
    label: Tags,
    remaining: nat,
    mode: Mode,
    f: Fiber,
    decl: Declared,
    rs: Seq<Reply>,
)
    requires
        !is_external(decl, verb) || label.conf.is_empty(),
        policy_of(rs[f.talk.asks.len() as int]).1,
    ensures
        ({
            let out = effect_out(verb, vals, label, remaining, mode, f, decl, rs);
            let n = f.talk.asks.len() as int;
            let kept = rs[n + 1] == Reply::Host(HostReply::Done);
            &&& out.f.nonce == f.nonce && out.f.env == f.env
            &&& out.f.talk.asks[n + 1] == Ask::Host(
                HostAsk::Hold {
                    verb,
                    target: policy_of(rs[n]).0,
                    args: effect_args(vals),
                    cost: 1,
                },
            )
            &&& kept ==> out.stop is None && (f.withheld < usize::MAX ==> out.f.withheld
                == f.withheld + 1)
            &&& !kept ==> out.stop is Some && out.f.withheld == f.withheld
        }),
{
    if label.conf.is_empty() {
        assert(label.conf =~= Set::<Seq<char>>::empty());
    }
}

/// A suspended run goes on only with a new consent whose grants were all minted, and then under the
/// nonce of that consent; an abort ends it; and whatever happens its variables and the count of
/// withheld effects stay.
pub proof fn a_suspension_ends_by_consent_or_abort(f: Fiber, rs: Seq<Reply>)
    ensures
        ({
            let out = park_out(f, rs);
            let signal = signal_of(rs[f.talk.asks.len() as int + 3]);
            &&& out.f.env == f.env && out.f.withheld == f.withheld
            &&& signal matches SignalView::Abort(expired) ==> out.stop == Some(
                End::Aborted(expired),
            ) && out.f.nonce == f.nonce
            &&& out.stop is None ==> (signal matches SignalView::Resume(c) && out.f.nonce
                == c.nonce && mint_all_out(
                fresh_orders(c),
                tell(
                    tell(
                        tell(
                            tell(f.talk, HostAsk::SetState(RunState::Paused)),
                            HostAsk::Audit {
                                event: "plan.paused"@,
                                extra: Value::Object(Seq::empty()),
                            },
                        ),
                        HostAsk::Emit(crate::plan_interp::paused_event()),
                    ),
                    HostAsk::Await,
                ),
                rs,
            ).1)
            &&& out.stop is Some ==> out.f.nonce == f.nonce
        }),
{
}

/// Grants are asked for one by one, in order; all of them were minted exactly when the host did each
/// one, and nothing is asked after the first that it did not.
pub proof fn grants_are_minted_in_order(
    orders: Seq<crate::plan_demand::Order>,
    at: crate::eval::Talk,
    rs: Seq<Reply>,
)
    ensures
        ({
            let out = mint_all_out(orders, at, rs);
            let k = out.0.asks.len() - at.asks.len();
            &&& at.asks.is_prefix_of(out.0.asks)
            &&& 0 <= k <= orders.len()
            &&& out.1 ==> k == orders.len()
            &&& forall|i: int|
                0 <= i < k ==> #[trigger] out.0.asks[at.asks.len() + i] == Ask::Host(
                    HostAsk::Mint(orders[i]),
                )
            &&& out.1 <==> forall|i: int|
                0 <= i < orders.len() ==> #[trigger] rs[at.asks.len() + i] == Reply::Host(
                    HostReply::Done,
                )
        }),
    decreases orders.len(),
{
    if orders.len() > 0 {
        let t = tell(at, HostAsk::Mint(orders[0]));
        let n = at.asks.len() as int;
        let out = mint_all_out(orders, at, rs);
        assert(t.asks[n] == Ask::Host(HostAsk::Mint(orders[0])));
        if rs[n] == Reply::Host(HostReply::Done) {
            let rest = orders.drop_first();
            grants_are_minted_in_order(rest, t, rs);
            let k = out.0.asks.len() - at.asks.len();
            assert forall|i: int| 0 <= i < n implies at.asks[i] == out.0.asks[i] by {
                assert(t.asks[i] == out.0.asks[i]);
            }
            assert forall|i: int| 0 <= i < k implies #[trigger] out.0.asks[n + i] == Ask::Host(
                HostAsk::Mint(orders[i]),
            ) by {
                if i == 0 {
                    assert(t.asks[n] == out.0.asks[n]);
                } else {
                    assert(out.0.asks[t.asks.len() + (i - 1)] == Ask::Host(
                        HostAsk::Mint(rest[i - 1]),
                    ));
                    assert(t.asks.len() + (i - 1) == n + i);
                }
            }
            if out.1 {
                assert forall|i: int| 0 <= i < orders.len() implies #[trigger] rs[n + i]
                    == Reply::Host(HostReply::Done) by {
                    if i > 0 {
                        assert(rs[t.asks.len() + (i - 1)] == Reply::Host(HostReply::Done));
                        assert(t.asks.len() + (i - 1) == n + i);
                    }
                }
            }
            if forall|i: int|
                0 <= i < orders.len() ==> #[trigger] rs[n + i] == Reply::Host(HostReply::Done) {
                assert forall|i: int| 0 <= i < rest.len() implies #[trigger] rs[t.asks.len() + i]
                    == Reply::Host(HostReply::Done) by {
                    assert(rs[n + (i + 1)] == Reply::Host(HostReply::Done));
                    assert(t.asks.len() + i == n + (i + 1));
                }
            }
        } else {
            assert(rs[n + 0] != Reply::Host(HostReply::Done));
        }
    }
}

} // verus!

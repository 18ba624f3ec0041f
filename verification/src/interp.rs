//! The interpreter of plans under a monitor, in direct talk with the world.
//!
//! A run executes a prefix of the plan: the first denial or failure stops it, and what was done
//! until then is returned. The monitor checks sinks and counts effects at every step, although
//! admission has bounded them before.

use crate::artifact::{address, id_for_bytes};
use crate::consent::{consent_fault, ConsentKey, ConsentRecord};
use crate::error::{joined_text, refusal_text};
use crate::eval::{
    asked, bindings, entries, eval, eval_all, eval_all_out, eval_guard, eval_out, guard_out, hears,
    hears_prefix, questions, talk_of, Ask, Bindings, Dialect, Entry, Halt, Read, ReadKind, Reader,
    Reply, Stop, Talk, TraceEntry,
};
use crate::json::{
    elements_of, named_values, no_members, number, put, text, values, Json, Num, Value,
};
use crate::label::{bottom, joined, Label, Tags};
use crate::plan::{Mode, Plan, Stmt};
use crate::plancheck::{
    admission_fault, admit_plan, admit_text, observed, sat, stmts_demand, stmts_name, stmts_steps,
    Admission, AdmitError, VerbSchemas,
};
use crate::strmap::{increasing, listed_at, listing_of, StrMap};
use crate::text::{debug_of, debug_text, decimal, lex_lt, push_decimal, same};
use vstd::prelude::*;

verus! {

/// The boundary to the world that a run acts on. An implementation keeps no state that this
/// library looks at; the conversation with it is the only thing that specifications speak of.
pub trait EffectExec {
    /// The conversation so far.
    closed spec fn log(&self) -> Seq<(Ask, Reply)> {
        arbitrary()
    }

    fn observe(&mut self, verb: &str, args: &Vec<Json>) -> (r: Result<Json, String>)
        ensures
            final(self).log() == old(self).log().push(
                (
                    Ask::Read(Read { kind: ReadKind::Observe, name: verb@, args: values(args@) }),
                    value_reply(r),
                ),
            ),
    ;

    fn effect(&mut self, verb: &str, args: &Vec<Json>) -> (r: Result<(), String>)
        ensures
            final(self).log() == old(self).log().push(
                (Ask::Effect { verb: verb@, args: values(args@) }, effect_reply(r)),
            ),
    ;

    fn pure(&mut self, func: &str, args: &Vec<Json>) -> (r: Result<Json, String>)
        ensures
            final(self).log() == old(self).log().push(
                (
                    Ask::Read(Read { kind: ReadKind::Pure, name: func@, args: values(args@) }),
                    value_reply(r),
                ),
            ),
    ;
}

/// The reply that a result of a read is.
pub open spec fn value_reply(r: Result<Json, String>) -> Reply {
    match r {
        Ok(v) => Reply::Got(v@),
        Err(e) => Reply::Failed(e@),
    }
}

/// The reply that a result of an effect is.
pub open spec fn effect_reply(r: Result<(), String>) -> Reply {
    match r {
        Ok(_) => Reply::Got(Value::Null),
        Err(e) => Reply::Failed(e@),
    }
}

/// What an effect makes of a reply: done, or the text of a failure.
pub open spec fn effect_failure(reply: Reply) -> Option<Seq<char>> {
    match reply {
        Reply::Got(_) => None,
        Reply::Failed(t) => Some(t),
        Reply::Refused(e) => Some(refusal_text(e)),
        Reply::Host(_) => Some(Seq::empty()),
    }
}

/// Reads go to the world as they stand.
pub struct Directly;

impl<E: EffectExec> Reader<E> for Directly {
    open spec fn dialect() -> Dialect {
        Dialect::Direct
    }

    open spec fn log(w: E) -> Seq<(Ask, Reply)> {
        w.log()
    }

    fn direct() -> (r: bool) {
        true
    }

    fn read(w: &mut E, kind: ReadKind, name: &str, args: Vec<Json>) -> (r: Result<Json, String>) {
        match kind {
            ReadKind::Observe => w.observe(name, &args),
            ReadKind::Pure => w.pure(name, &args),
        }
    }
}

/// Why a run ended.
#[derive(Debug, PartialEq, Eq)]
pub enum StopReason {
    Completed,
    ConsentMismatch(String),
    AdmissionRejected(String),
    BudgetExhausted(String),
    BoundExceeded { bound: u32, actual: usize },
    EscalateRequested { bound: u32, actual: usize },
    ExecFailed(String),
    GuardError(String),
}

/// What the reason of an end says.
pub enum Ending {
    Completed,
    ConsentMismatch(Seq<char>),
    AdmissionRejected(Seq<char>),
    BudgetExhausted(Seq<char>),
    BoundExceeded { bound: u32, actual: nat },
    EscalateRequested { bound: u32, actual: nat },
    ExecFailed(Seq<char>),
    GuardError(Seq<char>),
}

impl View for StopReason {
    type V = Ending;

    open spec fn view(&self) -> Ending {
        match self {
            StopReason::Completed => Ending::Completed,
            StopReason::ConsentMismatch(s) => Ending::ConsentMismatch(s@),
            StopReason::AdmissionRejected(s) => Ending::AdmissionRejected(s@),
            StopReason::BudgetExhausted(s) => Ending::BudgetExhausted(s@),
            StopReason::BoundExceeded { bound, actual } => Ending::BoundExceeded {
                bound: *bound,
                actual: *actual as nat,
            },
            StopReason::EscalateRequested { bound, actual } => Ending::EscalateRequested {
                bound: *bound,
                actual: *actual as nat,
            },
            StopReason::ExecFailed(s) => Ending::ExecFailed(s@),
            StopReason::GuardError(s) => Ending::GuardError(s@),
        }
    }
}

/// What a run did and why it ended.
#[derive(Debug)]
pub struct RunOutcome {
    pub status: StopReason,
    pub trace: Vec<TraceEntry>,
    pub effects_executed: u64,
}

/// The end that a stopped evaluation brings.
pub open spec fn halted(h: Halt) -> Ending {
    match h {
        Halt::Fail(t) => Ending::ExecFailed(t),
        Halt::BadGuard(t) => Ending::GuardError(t),
    }
}

fn stopped(s: Stop) -> (r: StopReason)
    ensures
        r@ == halted(s@),
{
    match s {
        Stop::Fail(t) => StopReason::ExecFailed(t),
        Stop::BadGuard(t) => StopReason::GuardError(t),
    }
}

/// The state of a run.
#[verifier::ext_equal]
pub struct Machine {
    pub env: Bindings,
    pub budget: Map<Seq<char>, u64>,
    pub effects: u64,
    pub talk: Talk,
}

/// The state after some statements, and the end if there was one.
#[verifier::ext_equal]
pub struct Ran {
    pub m: Machine,
    pub stop: Option<Ending>,
}

/// What is declared about verbs.
pub struct Declared {
    pub observed: Map<Seq<char>, Tags>,
    pub external: Map<Seq<char>, bool>,
}

/// What the schemas declare.
pub open spec fn declared(schemas: &VerbSchemas) -> Declared {
    Declared { observed: observed(schemas), external: schemas.external_effects@ }
}

/// Whether a verb is an external sink; a verb that is not declared is.
pub open spec fn is_external(decl: Declared, verb: Seq<char>) -> bool {
    decl.external.contains_key(verb) ==> decl.external[verb]
}

/// What is left of the budget of a verb.
pub open spec fn left(budget: Map<Seq<char>, u64>, verb: Seq<char>) -> u64 {
    if budget.contains_key(verb) {
        budget[verb]
    } else {
        0
    }
}

/// A line about an effect.
pub open spec fn effect_entry(verb: Seq<char>, failure: Option<Seq<char>>) -> Entry {
    Entry { kind: "effect"@, verb, ok: failure is None, detail: failure }
}

/// A line about a loop.
pub open spec fn loop_entry(ok: bool, detail: Seq<char>) -> Entry {
    Entry { kind: "note"@, verb: "foreach"@, ok, detail: Some(detail) }
}

/// A conversation with one more line in its trace.
pub open spec fn noted(t: Talk, e: Entry) -> Talk {
    Talk { asks: t.asks, trace: t.trace.push(e) }
}

/// The monitor of one effect whose arguments have been evaluated: the sink first, then the
/// budget, then the world.
pub open spec fn run_effect(
    verb: Seq<char>,
    vals: Seq<Value>,
    label: Tags,
    m: Machine,
    decl: Declared,
    rs: Seq<Reply>,
) -> Ran {
    if is_external(decl, verb) && label.conf != Set::<Seq<char>>::empty() {
        Ran {
            m: Machine {
                talk: noted(m.talk, effect_entry(verb, Some("sink denied"@))),
                ..m
            },
            stop: Some(Ending::ExecFailed("sink denied: "@ + verb)),
        }
    } else if left(m.budget, verb) == 0 {
        Ran {
            m: Machine {
                talk: noted(m.talk, effect_entry(verb, Some("budget exhausted"@))),
                ..m
            },
            stop: Some(Ending::BudgetExhausted(verb)),
        }
    } else {
        let failure = effect_failure(rs[m.talk.asks.len() as int]);
        let asks = m.talk.asks.push(Ask::Effect { verb, args: vals });
        let paid = m.budget.insert(verb, (m.budget[verb] - 1) as u64);
        let talk = noted(Talk { asks, trace: m.talk.trace }, effect_entry(verb, failure));
        match failure {
            None => Ran {
                m: Machine { env: m.env, budget: paid, effects: sat(m.effects + 1), talk },
                stop: None,
            },
            Some(t) => Ran {
                m: Machine { env: m.env, budget: paid, effects: m.effects, talk },
                stop: Some(Ending::ExecFailed(t)),
            },
        }
    }
}

/// The elements that a loop goes over.
pub open spec fn items_of(v: Value) -> Seq<Value> {
    match elements_of(v) {
        Some(items) => items,
        None => Seq::empty(),
    }
}

/// The run of one statement under the label `pc` of the control that led to it.
pub open spec fn run_stmt(s: Stmt, m: Machine, pc: Tags, decl: Declared, rs: Seq<Reply>) -> Ran
    decreases s, 0nat,
{
    match s {
        Stmt::Let { var, expr } => {
            let one = eval_out(Dialect::Direct, expr, m.env, decl.observed, rs, m.talk);
            match one.end {
                Err(h) => Ran { m: Machine { talk: one.talk, ..m }, stop: Some(halted(h)) },
                Ok(vl) => Ran {
                    m: Machine { env: m.env.insert(var@, vl), talk: one.talk, ..m },
                    stop: None,
                },
            }
        },
        Stmt::Effect { verb, args } => {
            let all = eval_all_out(
                Dialect::Direct,
                args@,
                Seq::empty(),
                pc,
                m.env,
                decl.observed,
                rs,
                m.talk,
            );
            match all.end {
                Err(h) => Ran { m: Machine { talk: all.talk, ..m }, stop: Some(halted(h)) },
                Ok(vl) => run_effect(
                    verb@,
                    vl.0,
                    vl.1,
                    Machine { talk: all.talk, ..m },
                    decl,
                    rs,
                ),
            }
        },
        Stmt::If { guard, then_, else_ } => {
            let one = guard_out(Dialect::Direct, guard, m.env, decl.observed, rs, m.talk);
            match one.end {
                Err(h) => Ran { m: Machine { talk: one.talk, ..m }, stop: Some(halted(h)) },
                Ok(bl) => run_stmts(
                    if bl.0 {
                        then_@
                    } else {
                        else_@
                    },
                    Machine { talk: one.talk, ..m },
                    joined(pc, bl.1),
                    decl,
                    rs,
                ),
            }
        },
        Stmt::Foreach { var, list, bound, mode, body } => {
            let one = eval_out(Dialect::Direct, list, m.env, decl.observed, rs, m.talk);
            match one.end {
                Err(h) => Ran { m: Machine { talk: one.talk, ..m }, stop: Some(halted(h)) },
                Ok(vl) => {
                    let items = items_of(vl.0);
                    let n = items.len();
                    if n <= bound {
                        run_items(
                            items,
                            var@,
                            vl.1,
                            body,
                            Machine { talk: one.talk, ..m },
                            joined(pc, vl.1),
                            decl,
                            rs,
                        )
                    } else {
                        match mode {
                            Mode::Strict => Ran {
                                m: Machine {
                                    talk: noted(
                                        one.talk,
                                        loop_entry(false, strict_note(bound, n)),
                                    ),
                                    ..m
                                },
                                stop: Some(Ending::BoundExceeded { bound, actual: n }),
                            },
                            Mode::Truncate => run_items(
                                items.take(bound as int),
                                var@,
                                vl.1,
                                body,
                                Machine {
                                    talk: noted(
                                        one.talk,
                                        loop_entry(true, truncate_note(bound, n)),
                                    ),
                                    ..m
                                },
                                joined(pc, vl.1),
                                decl,
                                rs,
                            ),
                            Mode::Escalate => Ran {
                                m: Machine { talk: one.talk, ..m },
                                stop: Some(Ending::EscalateRequested { bound, actual: n }),
                            },
                        }
                    }
                },
            }
        },
    }
}

/// The line about a list that is longer than a strict bound.
pub open spec fn strict_note(bound: u32, n: nat) -> Seq<char> {
    "strict bound "@ + decimal(bound as nat) + " < "@ + decimal(n)
}

/// The line about a list of which only a beginning was processed.
pub open spec fn truncate_note(bound: u32, n: nat) -> Seq<char> {
    "truncated to "@ + decimal(bound as nat) + " of "@ + decimal(n)
        + " — reported, never silent"@
}

/// The run of the body of a loop, once for each element.
pub open spec fn run_items(
    items: Seq<Value>,
    var: Seq<char>,
    label: Tags,
    body: Vec<Stmt>,
    m: Machine,
    pc: Tags,
    decl: Declared,
    rs: Seq<Reply>,
) -> Ran
    decreases body, items.len(),
{
    if items.len() == 0 {
        Ran { m, stop: None }
    } else {
        let once = run_stmts(
            body@,
            Machine { env: m.env.insert(var, (items[0], label)), ..m },
            pc,
            decl,
            rs,
        );
        match once.stop {
            Some(_) => once,
            None => run_items(items.drop_first(), var, label, body, once.m, pc, decl, rs),
        }
    }
}

/// The run of statements, one after the other.
pub open spec fn run_stmts(
    ss: Seq<Stmt>,
    m: Machine,
    pc: Tags,
    decl: Declared,
    rs: Seq<Reply>,
) -> Ran
    decreases ss, 0nat,
{
    if ss.len() == 0 {
        Ran { m, stop: None }
    } else {
        let one = run_stmt(ss[0], m, pc, decl, rs);
        match one.stop {
            Some(_) => one,
            None => run_stmts(ss.drop_first(), one.m, pc, decl, rs),
        }
    }
}

/// The state of a run in memory.
struct Rt {
    env: StrMap<(Json, Label)>,
    budget: StrMap<u64>,
    trace: Vec<TraceEntry>,
    effects_executed: u64,
}

spec fn machine(rt: Rt, log: Seq<(Ask, Reply)>) -> Machine {
    Machine {
        env: bindings(rt.env),
        budget: rt.budget@,
        effects: rt.effects_executed,
        talk: talk_of(log, rt.trace@),
    }
}

spec fn ran_of(r: Result<(), StopReason>, rt: Rt, log: Seq<(Ask, Reply)>) -> Ran {
    Ran {
        m: machine(rt, log),
        stop: match r {
            Ok(_) => None,
            Err(s) => Some(s@),
        },
    }
}

fn note(rt: &mut Rt, kind: &str, verb: &str, ok: bool, detail: Option<String>)
    ensures
        final(rt).env == old(rt).env,
        final(rt).budget == old(rt).budget,
        final(rt).effects_executed == old(rt).effects_executed,
        entries(final(rt).trace@) == entries(old(rt).trace@).push(
            Entry {
                kind: kind@,
                verb: verb@,
                ok,
                detail: match detail {
                    Some(d) => Some(d@),
                    None => None,
                },
            },
        ),
{
    let ghost trace0 = rt.trace@;
    let entry = TraceEntry { kind: kind.to_owned(), verb: verb.to_owned(), ok, detail };
    rt.trace.push(entry);
    assert(entries(rt.trace@) =~= entries(trace0).push(entry@));
}

/// The monitor of one effect whose arguments have been evaluated.
fn monitor<E: EffectExec>(
    exec: &mut E,
    rt: &mut Rt,
    verb: &String,
    vals: Vec<Json>,
    label: &Label,
    schemas: &VerbSchemas,
) -> (r: Result<(), StopReason>)
    ensures
        old(exec).log().is_prefix_of(final(exec).log()),
        forall|rs: Seq<Reply>| #[trigger]
            hears(rs, final(exec).log()) ==> run_effect(
                verb@,
                values(vals@),
                label@,
                machine(*old(rt), old(exec).log()),
                declared(schemas),
                rs,
            ) == ran_of(r, *final(rt), final(exec).log()),
{
    let external: bool = match schemas.external_effects.get(verb.as_str()) {
        Some(b) => *b,
        None => true,
    };
    if external && !label.conf.is_empty() {
        note(rt, "effect", verb.as_str(), false, Some("sink denied".to_owned()));
        return Err(StopReason::ExecFailed(joined_text("sink denied: ", verb.as_str())));
    }
    let n: u64 = match rt.budget.get(verb.as_str()) {
        Some(n) => *n,
        None => 0,
    };
    if n == 0 {
        note(rt, "effect", verb.as_str(), false, Some("budget exhausted".to_owned()));
        return Err(StopReason::BudgetExhausted(verb.clone()));
    }
    rt.budget.insert(verb.clone(), n - 1);
    let ghost log0 = exec.log();
    let ghost rt1 = *rt;
    let done = exec.effect(verb.as_str(), &vals);
    let ghost log1 = exec.log();
    proof {
        assert(questions(log1) =~= questions(log0).push(
            Ask::Effect { verb: verb@, args: values(vals@) },
        ));
        assert forall|rs: Seq<Reply>| #[trigger] hears(rs, log1) implies rs[log0.len() as int]
            == log1.last().1 by {
            assert(rs[log0.len() as int] == log1[log0.len() as int].1);
        }
    }
    match done {
        Ok(_) => {
            rt.effects_executed = rt.effects_executed.saturating_add(1);
            note(rt, "effect", verb.as_str(), true, None);
            Ok(())
        },
        Err(e) => {
            note(rt, "effect", verb.as_str(), false, Some(e.clone()));
            Err(StopReason::ExecFailed(e))
        },
    }
}

fn exec_stmts<E: EffectExec>(
    exec: &mut E,
    rt: &mut Rt,
    stmts: &Vec<Stmt>,
    pc: &Label,
    schemas: &VerbSchemas,
) -> (r: Result<(), StopReason>)
    ensures
        old(exec).log().is_prefix_of(final(exec).log()),
        forall|rs: Seq<Reply>| #[trigger]
            hears(rs, final(exec).log()) ==> run_stmts(
                stmts@,
                machine(*old(rt), old(exec).log()),
                pc@,
                declared(schemas),
                rs,
            ) == ran_of(r, *final(rt), final(exec).log()),
    decreases stmts@, 0nat,
{
    let ghost decl = declared(schemas);
    let ghost m0 = machine(*rt, exec.log());
    let mut i: usize = 0;
    assert(stmts@.skip(0) =~= stmts@);
    while i < stmts.len()
        invariant
            i <= stmts.len(),
            decl == declared(schemas),
            m0 == machine(*old(rt), old(exec).log()),
            old(exec).log().is_prefix_of(exec.log()),
            forall|rs: Seq<Reply>| #[trigger]
                hears(rs, exec.log()) ==> run_stmts(stmts@, m0, pc@, decl, rs) == run_stmts(
                    stmts@.skip(i as int),
                    machine(*rt, exec.log()),
                    pc@,
                    decl,
                    rs,
                ),
        decreases stmts.len() - i,
    {
        let ghost rest = stmts@.skip(i as int);
        let ghost log1 = exec.log();
        let ghost m1 = machine(*rt, log1);
        assert(rest[0] == stmts@[i as int]);
        assert(rest.drop_first() =~= stmts@.skip(i + 1));
        assert(decreases_to!(stmts@ => stmts@[i as int]));
        let one = exec_stmt(exec, rt, &stmts[i], pc, schemas);
        proof {
            assert forall|rs: Seq<Reply>| #[trigger] hears(rs, exec.log()) implies run_stmts(
                stmts@,
                m0,
                pc@,
                decl,
                rs,
            ) == run_stmts(rest, m1, pc@, decl, rs) && run_stmt(rest[0], m1, pc@, decl, rs)
                == ran_of(one, *rt, exec.log()) by {
                hears_prefix(rs, log1, exec.log());
            }
        }
        match one {
            Err(s) => {
                return Err(s);
            },
            Ok(_) => {},
        }
        i = i + 1;
    }
    assert(stmts@.skip(i as int).len() == 0);
    Ok(())
}

fn exec_stmt<E: EffectExec>(
    exec: &mut E,
    rt: &mut Rt,
    s: &Stmt,
    pc: &Label,
    schemas: &VerbSchemas,
) -> (r: Result<(), StopReason>)
    ensures
        old(exec).log().is_prefix_of(final(exec).log()),
        forall|rs: Seq<Reply>| #[trigger]
            hears(rs, final(exec).log()) ==> run_stmt(
                *s,
                machine(*old(rt), old(exec).log()),
                pc@,
                declared(schemas),
                rs,
            ) == ran_of(r, *final(rt), final(exec).log()),
    decreases s, 0nat,
{
    match s {
        Stmt::Let { var, expr } => match eval::<E, Directly>(
            exec,
            &mut rt.trace,
            expr,
            &rt.env,
            schemas,
        ) {
            Err(h) => Err(stopped(h)),
            Ok((v, l)) => {
                let ghost env0 = bindings(rt.env);
                let ghost vl = (v@, l@);
                rt.env.insert(var.clone(), (v, l));
                assert(bindings(rt.env) =~= env0.insert(var@, vl));
                Ok(())
            },
        },
        Stmt::Effect { verb, args } => match eval_all::<E, Directly>(
            exec,
            &mut rt.trace,
            args,
            pc,
            &rt.env,
            schemas,
        ) {
            Err(h) => Err(stopped(h)),
            Ok((vals, label)) => {
                let ghost log1 = exec.log();
                let r = monitor(exec, rt, verb, vals, &label, schemas);
                proof {
                    assert forall|rs: Seq<Reply>| #[trigger] hears(rs, exec.log()) implies hears(
                        rs,
                        log1,
                    ) by {
                        hears_prefix(rs, log1, exec.log());
                    }
                }
                r
            },
        },
        Stmt::If { guard, then_, else_ } => match eval_guard::<E, Directly>(
            exec,
            &mut rt.trace,
            guard,
            &rt.env,
            schemas,
        ) {
            Err(h) => Err(stopped(h)),
            Ok((b, l)) => {
                let ghost log1 = exec.log();
                let pc2 = pc.join(&l);
                assert(decreases_to!(s => then_@));
                assert(decreases_to!(s => else_@));
                let r = if b {
                    exec_stmts(exec, rt, then_, &pc2, schemas)
                } else {
                    exec_stmts(exec, rt, else_, &pc2, schemas)
                };
                proof {
                    assert forall|rs: Seq<Reply>| #[trigger] hears(rs, exec.log()) implies hears(
                        rs,
                        log1,
                    ) by {
                        hears_prefix(rs, log1, exec.log());
                    }
                }
                r
            },
        },
        Stmt::Foreach { var, list, bound, mode, body } => match eval::<E, Directly>(
            exec,
            &mut rt.trace,
            list,
            &rt.env,
            schemas,
        ) {
            Err(h) => Err(stopped(h)),
            Ok((v, l)) => {
                let ghost log1 = exec.log();
                let none: Vec<Json> = Vec::new();
                assert(values(none@) =~= Seq::<Value>::empty());
                let items: &Vec<Json> = match v.as_array() {
                    Some(items) => items,
                    None => &none,
                };
                let n: usize = items.len();
                let pc2 = pc.join(&l);
                assert(values(items@) == items_of(v@));
                let take: usize = if n > *bound as usize {
                    match mode {
                        Mode::Strict => {
                            let mut d: String = "strict bound ".to_owned();
                            push_decimal(&mut d, *bound as u64);
                            d.append(" < ");
                            push_decimal(&mut d, n as u64);
                            note(rt, "note", "foreach", false, Some(d));
                            return Err(
                                StopReason::BoundExceeded { bound: *bound, actual: n },
                            );
                        },
                        Mode::Truncate => {
                            let mut d: String = "truncated to ".to_owned();
                            push_decimal(&mut d, *bound as u64);
                            d.append(" of ");
                            push_decimal(&mut d, n as u64);
                            d.append(" — reported, never silent");
                            note(rt, "note", "foreach", true, Some(d));
                            *bound as usize
                        },
                        Mode::Escalate => {
                            return Err(
                                StopReason::EscalateRequested { bound: *bound, actual: n },
                            );
                        },
                    }
                } else {
                    n
                };
                assert(values(items@).take(n as int) =~= values(items@));
                assert(decreases_to!(s => body));
                let r = exec_items(exec, rt, items, take, var, &l, body, &pc2, schemas);
                proof {
                    assert forall|rs: Seq<Reply>| #[trigger] hears(rs, exec.log()) implies hears(
                        rs,
                        log1,
                    ) by {
                        hears_prefix(rs, log1, exec.log());
                    }
                }
                r
            },
        },
    }
}

fn exec_items<E: EffectExec>(
    exec: &mut E,
    rt: &mut Rt,
    items: &Vec<Json>,
    take: usize,
    var: &String,
    label: &Label,
    body: &Vec<Stmt>,
    pc: &Label,
    schemas: &VerbSchemas,
) -> (r: Result<(), StopReason>)
    requires
        take <= items@.len(),
    ensures
        old(exec).log().is_prefix_of(final(exec).log()),
        forall|rs: Seq<Reply>| #[trigger]
            hears(rs, final(exec).log()) ==> run_items(
                values(items@).take(take as int),
                var@,
                label@,
                *body,
                machine(*old(rt), old(exec).log()),
                pc@,
                declared(schemas),
                rs,
            ) == ran_of(r, *final(rt), final(exec).log()),
    decreases body, 1nat,
{
    let ghost decl = declared(schemas);
    let ghost m0 = machine(*rt, exec.log());
    let ghost all = values(items@).take(take as int);
    let mut i: usize = 0;
    assert(all.skip(0) =~= all);
    while i < take
        invariant
            i <= take <= items@.len(),
            decl == declared(schemas),
            all == values(items@).take(take as int),
            m0 == machine(*old(rt), old(exec).log()),
            old(exec).log().is_prefix_of(exec.log()),
            forall|rs: Seq<Reply>| #[trigger]
                hears(rs, exec.log()) ==> run_items(all, var@, label@, *body, m0, pc@, decl, rs)
                    == run_items(
                    all.skip(i as int),
                    var@,
                    label@,
                    *body,
                    machine(*rt, exec.log()),
                    pc@,
                    decl,
                    rs,
                ),
        decreases take - i,
    {
        let ghost rest = all.skip(i as int);
        let ghost log1 = exec.log();
        let ghost m1 = machine(*rt, log1);
        assert(rest[0] == items@[i as int]@);
        assert(rest.drop_first() =~= all.skip(i + 1));
        let v = items[i].clone();
        let l = label.clone();
        let ghost vl = (v@, l@);
        rt.env.insert(var.clone(), (v, l));
        let ghost m2 = machine(*rt, log1);
        assert(m2.env =~= m1.env.insert(var@, vl));
        assert(decreases_to!(body => body@));
        let one = exec_stmts(exec, rt, body, pc, schemas);
        proof {
            assert forall|rs: Seq<Reply>| #[trigger] hears(rs, exec.log()) implies run_items(
                all,
                var@,
                label@,
                *body,
                m0,
                pc@,
                decl,
                rs,
            ) == run_items(rest, var@, label@, *body, m1, pc@, decl, rs) && run_stmts(
                body@,
                m2,
                pc@,
                decl,
                rs,
            ) == ran_of(one, *rt, exec.log()) by {
                hears_prefix(rs, log1, exec.log());
            }
        }
        match one {
            Err(s) => {
                return Err(s);
            },
            Ok(_) => {},
        }
        i = i + 1;
    }
    assert(all.skip(i as int).len() == 0);
    Ok(())
}

/// Whether a plan can perform a verb more often than a budget grants.
pub open spec fn over(plan: &Plan, granted: Map<Seq<char>, u64>, verb: Seq<char>) -> bool {
    stmts_name(plan.stmts@, verb) && stmts_demand(plan.stmts@, verb) > left(granted, verb)
}

/// Whether a verb is the first of those that a plan can perform too often.
pub open spec fn first_over(plan: &Plan, granted: Map<Seq<char>, u64>, verb: Seq<char>) -> bool {
    &&& over(plan, granted, verb)
    &&& forall|u: Seq<char>| #[trigger] over(plan, granted, u) ==> u == verb || lex_lt(verb, u)
}

/// Why a plan is not run at all, as far as it is settled before its demand is looked at.
pub open spec fn gate(
    plan_bytes: Seq<u8>,
    parsed: Result<Plan, String>,
    consent: &ConsentRecord,
    key: Seq<u8>,
    now: u64,
) -> Option<Ending> {
    match consent_fault(consent, key, now) {
        Some(e) => Some(Ending::ConsentMismatch(refusal_text(e))),
        None => if address(plan_bytes) != consent.plan_hash@ {
            Some(
                Ending::ConsentMismatch(
                    "plan hash "@ + address(plan_bytes) + " != consented "@ + consent.plan_hash@,
                ),
            )
        } else {
            match parsed {
                Err(e) => Some(Ending::AdmissionRejected("parse: "@ + e@)),
                Ok(_) => None,
            }
        },
    }
}

/// The state in which a run starts.
pub open spec fn start(budget: Map<Seq<char>, u64>, log: Seq<(Ask, Reply)>) -> Machine {
    Machine {
        env: Map::empty(),
        budget,
        effects: 0,
        talk: Talk { asks: questions(log), trace: Seq::empty() },
    }
}

/// Whether an outcome says that nothing was run.
pub open spec fn not_run(out: RunOutcome, why: Ending) -> bool {
    out.status@ == why && out.trace@.len() == 0 && out.effects_executed == 0
}

fn refused(status: StopReason) -> (out: RunOutcome)
    ensures
        not_run(out, status@),
{
    RunOutcome { status, trace: Vec::new(), effects_executed: 0 }
}

/// Whether a run ends for a reason before anything is executed: the consent or the bytes do not
/// fit, the plan is not admitted, or it can demand more than was consented to.
pub open spec fn run_refused(
    plan_bytes: Seq<u8>,
    parsed: Result<Plan, String>,
    consent: &ConsentRecord,
    key: Seq<u8>,
    now: u64,
    schemas: &VerbSchemas,
    why: Ending,
) -> bool {
    match gate(plan_bytes, parsed, consent, key, now) {
        Some(e) => why == e,
        None => match admission_fault(&parsed->Ok_0, schemas) {
            Some(f) => exists|e: AdmitError|
                e@ == f && why == Ending::AdmissionRejected(#[trigger] admit_text(e)),
            None => exists|v: Seq<char>| #[trigger]
                first_over(&parsed->Ok_0, consent.budget@, v) && why == Ending::AdmissionRejected(
                    "derived budget "@ + v + "="@ + decimal(stmts_demand(parsed->Ok_0.stmts@, v))
                        + " exceeds consent"@,
                ),
        },
    }
}

/// Whether a plan is run: nothing refuses it, and its demand fits into what was consented to.
pub open spec fn may_run(
    plan_bytes: Seq<u8>,
    parsed: Result<Plan, String>,
    consent: &ConsentRecord,
    key: Seq<u8>,
    now: u64,
    schemas: &VerbSchemas,
) -> bool {
    &&& gate(plan_bytes, parsed, consent, key, now) is None
    &&& admission_fault(&parsed->Ok_0, schemas) is None
    &&& forall|v: Seq<char>| !#[trigger] over(&parsed->Ok_0, consent.budget@, v)
}

/// The text of the reason of an end.
pub open spec fn status_text(e: Ending) -> Seq<char> {
    match e {
        Ending::Completed => "Completed"@,
        Ending::ConsentMismatch(s) => "ConsentMismatch("@ + debug_text(s) + ")"@,
        Ending::AdmissionRejected(s) => "AdmissionRejected("@ + debug_text(s) + ")"@,
        Ending::BudgetExhausted(s) => "BudgetExhausted("@ + debug_text(s) + ")"@,
        Ending::BoundExceeded { bound, actual } => "BoundExceeded { bound: "@ + decimal(
            bound as nat,
        ) + ", actual: "@ + decimal(actual) + " }"@,
        Ending::EscalateRequested { bound, actual } => "EscalateRequested { bound: "@ + decimal(
            bound as nat,
        ) + ", actual: "@ + decimal(actual) + " }"@,
        Ending::ExecFailed(s) => "ExecFailed("@ + debug_text(s) + ")"@,
        Ending::GuardError(s) => "GuardError("@ + debug_text(s) + ")"@,
    }
}

fn named_text(name: &str, s: &str) -> (t: String)
    ensures
        t@ == name@ + debug_text(s@) + ")"@,
{
    let mut t: String = joined_text(name, debug_of(s).as_str());
    t.append(")");
    t
}

fn bound_status(name: &str, bound: u32, actual: usize) -> (t: String)
    ensures
        t@ == name@ + decimal(bound as nat) + ", actual: "@ + decimal(actual as nat) + " }"@,
{
    let mut t: String = name.to_owned();
    push_decimal(&mut t, bound as u64);
    t.append(", actual: ");
    push_decimal(&mut t, actual as u64);
    t.append(" }");
    t
}

impl StopReason {
    /// The text of the reason.
    pub fn text(&self) -> (t: String)
        ensures
            t@ == status_text(self@),
    {
        match self {
            StopReason::Completed => "Completed".to_owned(),
            StopReason::ConsentMismatch(s) => named_text("ConsentMismatch(", s.as_str()),
            StopReason::AdmissionRejected(s) => named_text("AdmissionRejected(", s.as_str()),
            StopReason::BudgetExhausted(s) => named_text("BudgetExhausted(", s.as_str()),
            StopReason::BoundExceeded { bound, actual } => bound_status(
                "BoundExceeded { bound: ",
                *bound,
                *actual,
            ),
            StopReason::EscalateRequested { bound, actual } => bound_status(
                "EscalateRequested { bound: ",
                *bound,
                *actual,
            ),
            StopReason::ExecFailed(s) => named_text("ExecFailed(", s.as_str()),
            StopReason::GuardError(s) => named_text("GuardError(", s.as_str()),
        }
    }
}

/// What is recorded at the end of every run, whether or not it began.
pub open spec fn finished_value(status: Ending, effects: u64) -> Value {
    Value::Object(
        seq![
            ("event"@, Value::Str("plan.finished"@)),
            ("status"@, Value::Str(status_text(status))),
            ("effects"@, Value::Number(Num::Nat(effects))),
        ],
    )
}

/// What is recorded at the end of every run.
pub fn finished_record(out: &RunOutcome) -> (j: Json)
    ensures
        j@ == finished_value(out.status@, out.effects_executed),
{
    let mut ms: Vec<(String, Json)> = no_members();
    put(&mut ms, "event", text("plan.finished"));
    put(&mut ms, "status", text(out.status.text().as_str()));
    put(&mut ms, "effects", number(out.effects_executed));
    assert(named_values(ms@) =~= seq![
        ("event"@, Value::Str("plan.finished"@)),
        ("status"@, Value::Str(status_text(out.status@))),
        ("effects"@, Value::Number(Num::Nat(out.effects_executed))),
    ]);
    let j = Json::Object(ms);
    assert(j@ == Value::Object(named_values(ms@)));
    j
}

/// A budget as a value: its verbs in order, with their counts.
pub open spec fn budget_value(budget: Map<Seq<char>, u64>) -> Value {
    Value::Object(
        Seq::new(
            listing_of(budget).len(),
            |i: int|
                (listing_of(budget)[i].0, Value::Number(Num::Nat(listing_of(budget)[i].1))),
        ),
    )
}

fn budget_json(budget: &StrMap<u64>) -> (j: Json)
    ensures
        j@ == budget_value(budget@),
{
    let n: usize = budget.len();
    let ghost all = listing_of(budget@);
    let mut ms: Vec<(String, Json)> = no_members();
    let mut i: usize = 0;
    while i < n
        invariant
            i <= n,
            n == all.len(),
            all == budget.pairs(),
            named_values(ms@).len() == i,
            forall|k: int|
                0 <= k < i ==> #[trigger] named_values(ms@)[k] == (
                    all[k].0,
                    Value::Number(Num::Nat(all[k].1)),
                ),
        decreases n - i,
    {
        put(&mut ms, budget.key_at(i).as_str(), number(*budget.value_at(i)));
        i = i + 1;
    }
    let j = Json::Object(ms);
    assert(j@ == Value::Object(named_values(ms@)));
    assert(named_values(ms@) =~= budget_value(budget@)->Object_0);
    j
}

/// What a plan can demand of each verb.
pub open spec fn derived_budget(plan: &Plan) -> Map<Seq<char>, u64> {
    Map::new(
        |v: Seq<char>| stmts_name(plan.stmts@, v),
        |v: Seq<char>| stmts_demand(plan.stmts@, v) as u64,
    )
}

/// What is recorded of a plan before anything of it is executed.
pub open spec fn admitted_value(plan_hash: Seq<char>, plan: &Plan) -> Value {
    Value::Object(
        seq![
            ("event"@, Value::Str("plan.admitted"@)),
            ("plan"@, Value::Str(plan_hash)),
            ("budget"@, budget_value(derived_budget(plan))),
            ("worst_case_steps"@, Value::Number(Num::Nat(stmts_steps(plan.stmts@) as u64))),
        ],
    )
}

fn admitted_record(plan_hash: &str, adm: &Admission, plan: &Plan) -> (j: Json)
    requires
        adm.worst_case_steps == stmts_steps(plan.stmts@),
        forall|v: Seq<char>| #[trigger]
            adm.budget@.contains_key(v) <==> stmts_name(plan.stmts@, v),
        forall|v: Seq<char>| #[trigger]
            adm.budget@.contains_key(v) ==> adm.budget@[v] == stmts_demand(plan.stmts@, v),
    ensures
        j@ == admitted_value(plan_hash@, plan),
{
    proof {
        let want = derived_budget(plan);
        assert forall|v: Seq<char>| want.contains_key(v) == adm.budget@.contains_key(v) by {}
        assert(adm.budget@ =~= want);
    }
    let mut ms: Vec<(String, Json)> = no_members();
    put(&mut ms, "event", text("plan.admitted"));
    put(&mut ms, "plan", text(plan_hash));
    put(&mut ms, "budget", budget_json(&adm.budget));
    put(&mut ms, "worst_case_steps", number(adm.worst_case_steps));
    assert(named_values(ms@) =~= seq![
        ("event"@, Value::Str("plan.admitted"@)),
        ("plan"@, Value::Str(plan_hash@)),
        ("budget"@, budget_value(derived_budget(plan))),
        ("worst_case_steps"@, Value::Number(Num::Nat(adm.worst_case_steps))),
    ]);
    let j = Json::Object(ms);
    assert(j@ == Value::Object(named_values(ms@)));
    j
}

/// What is decided of a run before it begins, with the one record that is due then.
pub enum RunStart<'a> {
    /// It does not begin: the outcome, and the record of its end.
    Refused { out: RunOutcome, record: Json },
    /// It may begin once the record of its admission is kept.
    Admitted { plan: &'a Plan, record: Json },
}

fn refused_start<'a>(status: StopReason) -> (r: RunStart<'a>)
    ensures
        r matches RunStart::Refused { out, record } && not_run(out, status@) && record@
            == finished_value(status@, 0),
{
    let out = refused(status);
    let record: Json = finished_record(&out);
    RunStart::Refused { out, record }
}

/// Decides whether a plan that a user has consented to is run. The consent must be authentic,
/// unexpired and bound to exactly these bytes; the plan that they spell must be admitted, and what
/// it can demand must fit into what was consented to.
pub fn begin_run<'a>(
    plan_bytes: &[u8],
    parsed: &'a Result<Plan, String>,
    consent: &ConsentRecord,
    key: &ConsentKey,
    now: u64,
    schemas: &VerbSchemas,
) -> (r: RunStart<'a>)
    ensures
        match r {
            RunStart::Refused { out, record } => {
                &&& !may_run(plan_bytes@, *parsed, consent, key@, now, schemas)
                &&& run_refused(plan_bytes@, *parsed, consent, key@, now, schemas, out.status@)
                &&& not_run(out, out.status@)
                &&& record@ == finished_value(out.status@, 0)
            },
            RunStart::Admitted { plan, record } => {
                &&& may_run(plan_bytes@, *parsed, consent, key@, now, schemas)
                &&& *plan == parsed->Ok_0
                &&& record@ == admitted_value(address(plan_bytes@), plan)
            },
        },
{
    match consent.verify(key, now) {
        Err(e) => {
            return refused_start(StopReason::ConsentMismatch(e.message()));
        },
        Ok(_) => {},
    }
    let h: String = id_for_bytes(plan_bytes);
    if !same(h.as_str(), consent.plan_hash.as_str()) {
        let mut t: String = joined_text("plan hash ", h.as_str());
        t.append(" != consented ");
        t.append(consent.plan_hash.as_str());
        return refused_start(StopReason::ConsentMismatch(t));
    }
    let plan: &'a Plan = match parsed {
        Err(e) => {
            return refused_start(
                StopReason::AdmissionRejected(joined_text("parse: ", e.as_str())),
            );
        },
        Ok(p) => p,
    };
    let adm: Admission = match admit_plan(plan, schemas) {
        Err(e) => {
            return refused_start(StopReason::AdmissionRejected(e.message()));
        },
        Ok(a) => a,
    };
    match first_excess(&adm.budget, &consent.budget) {
        Some(i) => {
            let ghost v = adm.budget.pairs()[i as int].0;
            let mut t: String = joined_text("derived budget ", adm.budget.key_at(i).as_str());
            t.append("=");
            push_decimal(&mut t, *adm.budget.value_at(i));
            t.append(" exceeds consent");
            proof {
                budget_excess(plan, adm.budget, consent.budget@);
                assert(first_over(plan, consent.budget@, v)) by {
                    assert(excess(adm.budget@, consent.budget@, v));
                    assert forall|u: Seq<char>| #[trigger] over(plan, consent.budget@, u) implies u
                        == v || lex_lt(v, u) by {
                        assert(excess(adm.budget@, consent.budget@, u));
                    }
                }
                assert(over(plan, consent.budget@, v));
            }
            return refused_start(StopReason::AdmissionRejected(t));
        },
        None => {
            proof {
                budget_excess(plan, adm.budget, consent.budget@);
                assert forall|u: Seq<char>| !#[trigger] over(plan, consent.budget@, u) by {
                    assert(!excess(adm.budget@, consent.budget@, u));
                }
            }
        },
    }
    let record: Json = admitted_record(h.as_str(), &adm, plan);
    RunStart::Admitted { plan, record }
}

/// Whether an outcome is that of executing a plan under a budget, in a conversation that went on
/// from one log to another.
pub open spec fn executed_so(
    out: RunOutcome,
    plan: &Plan,
    budget: Map<Seq<char>, u64>,
    schemas: &VerbSchemas,
    before: Seq<(Ask, Reply)>,
    after: Seq<(Ask, Reply)>,
) -> bool {
    &&& before.is_prefix_of(after)
    &&& forall|rs: Seq<Reply>| #[trigger]
        hears(rs, after) ==> {
            let ran = run_stmts(
                plan.stmts@,
                start(budget, before),
                bottom(),
                declared(schemas),
                rs,
            );
            &&& ran.m.talk == talk_of(after, out.trace@)
            &&& ran.m.effects == out.effects_executed
            &&& out.status@ == match ran.stop {
                Some(e) => e,
                None => Ending::Completed,
            }
        }
}

/// Executes a plan under the monitor, with the budget that was consented to. Returns the outcome
/// and the record of the end.
pub fn execute_plan<E: EffectExec>(
    plan: &Plan,
    consent: &ConsentRecord,
    schemas: &VerbSchemas,
    exec: &mut E,
) -> (r: (RunOutcome, Json))
    ensures
        executed_so(r.0, plan, consent.budget@, schemas, old(exec).log(), final(exec).log()),
        r.1@ == finished_value(r.0.status@, r.0.effects_executed),
{
    let mut rt = Rt {
        env: StrMap::new(),
        budget: consent.budget.clone(),
        trace: Vec::new(),
        effects_executed: 0,
    };
    proof {
        assert(entries(rt.trace@) =~= Seq::<Entry>::empty());
        assert(machine(rt, exec.log()) =~= start(consent.budget@, exec.log()));
    }
    let status: StopReason = match exec_stmts(
        exec,
        &mut rt,
        &plan.stmts,
        &Label::public_trusted(),
        schemas,
    ) {
        Ok(_) => StopReason::Completed,
        Err(s) => s,
    };
    let out = RunOutcome { status, trace: rt.trace, effects_executed: rt.effects_executed };
    let record: Json = finished_record(&out);
    (out, record)
}

/// Runs a plan that a user has consented to, and keeps the records of the run: of its admission
/// before anything is executed, and of its end. A run that is refused leaves the record of its
/// end alone.
pub fn run_plan<E: EffectExec>(
    plan_bytes: &[u8],
    parsed: &Result<Plan, String>,
    consent: &ConsentRecord,
    key: &ConsentKey,
    now: u64,
    schemas: &VerbSchemas,
    exec: &mut E,
    audit: &mut Vec<Json>,
) -> (out: RunOutcome)
    ensures
        if may_run(plan_bytes@, *parsed, consent, key@, now, schemas) {
            &&& executed_so(
                out,
                &parsed->Ok_0,
                consent.budget@,
                schemas,
                old(exec).log(),
                final(exec).log(),
            )
            &&& values(final(audit)@) == values(old(audit)@) + seq![
                admitted_value(address(plan_bytes@), &parsed->Ok_0),
                finished_value(out.status@, out.effects_executed),
            ]
        } else {
            &&& run_refused(plan_bytes@, *parsed, consent, key@, now, schemas, out.status@)
            &&& not_run(out, out.status@)
            &&& final(exec).log() == old(exec).log()
            &&& values(final(audit)@) == values(old(audit)@).push(finished_value(out.status@, 0))
        },
{
    let ghost kept = values(audit@);
    match begin_run(plan_bytes, parsed, consent, key, now, schemas) {
        RunStart::Refused { out, record } => {
            let ghost last = record@;
            audit.push(record);
            assert(values(audit@) =~= kept.push(last));
            out
        },
        RunStart::Admitted { plan, record } => {
            let ghost first = record@;
            audit.push(record);
            let (out, record): (RunOutcome, Json) = execute_plan(plan, consent, schemas, exec);
            let ghost last = record@;
            audit.push(record);
            assert(values(audit@) =~= kept + seq![first, last]);
            out
        },
    }
}

/// Whether a budget asks for more of a verb than another one grants.
pub open spec fn excess(asked: Map<Seq<char>, u64>, granted: Map<Seq<char>, u64>, v: Seq<char>) -> bool {
    asked.contains_key(v) && asked[v] > left(granted, v)
}

/// What a derived budget asks for is what the plan can demand.
pub proof fn budget_excess(plan: &Plan, derived: StrMap<u64>, granted: Map<Seq<char>, u64>)
    requires
        forall|v: Seq<char>| #[trigger]
            derived@.contains_key(v) <==> stmts_name(plan.stmts@, v),
        forall|v: Seq<char>| #[trigger]
            derived@.contains_key(v) ==> derived@[v] == stmts_demand(plan.stmts@, v),
    ensures
        forall|v: Seq<char>| #[trigger]
            excess(derived@, granted, v) == over(plan, granted, v),
{
    assert forall|v: Seq<char>| #[trigger] excess(derived@, granted, v) == over(plan, granted, v) by {
        assert(derived@.contains_key(v) <==> stmts_name(plan.stmts@, v));
    }
}

/// The first entry of a budget that asks for more than another one grants.
pub fn first_excess(derived: &StrMap<u64>, granted: &StrMap<u64>) -> (r: Option<usize>)
    ensures
        match r {
            Some(i) => {
                &&& i < derived.pairs().len()
                &&& derived.pairs()[i as int].1 == derived@[derived.pairs()[i as int].0]
                &&& excess(derived@, granted@, derived.pairs()[i as int].0)
                &&& forall|u: Seq<char>| #[trigger]
                    excess(derived@, granted@, u) ==> u == derived.pairs()[i as int].0 || lex_lt(
                        derived.pairs()[i as int].0,
                        u,
                    )
            },
            None => forall|u: Seq<char>| !#[trigger] excess(derived@, granted@, u),
        },
{
    let n: usize = derived.len();
    let ghost p = derived.pairs();
    let mut i: usize = 0;
    while i < n
        invariant
            i <= n,
            n == p.len(),
            p == derived.pairs(),
            increasing(p),
            forall|j: int| 0 <= j < i ==> !excess(derived@, granted@, (#[trigger] p[j]).0),
        decreases n - i,
    {
        let have: u64 = match granted.get(derived.key_at(i).as_str()) {
            Some(g) => *g,
            None => 0,
        };
        proof {
            listed_at(p, i as int);
        }
        if have < *derived.value_at(i) {
            proof {
                assert forall|u: Seq<char>| #[trigger] excess(derived@, granted@, u) implies u
                    == p[i as int].0 || lex_lt(p[i as int].0, u) by {
                    let j = choose|j: int| 0 <= j < p.len() && (#[trigger] p[j]).0 == u;
                    assert(p[j].0 == u);
                    if j > i {
                        assert(lex_lt(p[i as int].0, p[j].0));
                    }
                }
            }
            return Some(i);
        }
        i = i + 1;
    }
    proof {
        assert forall|u: Seq<char>| !#[trigger] excess(derived@, granted@, u) by {
            if excess(derived@, granted@, u) {
                let j = choose|j: int| 0 <= j < p.len() && (#[trigger] p[j]).0 == u;
                assert(p[j].0 == u);
            }
        }
    }
    None
}

} // verus!

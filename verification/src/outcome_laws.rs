//! What a whole run comes to, how it is settled, and what is told of it.

use crate::artifact::address;
use crate::caps::{gate_refusal, GateError};
use crate::consent::{consent_fault, ConsentRecord};
use crate::error::{KernelError, Refusal};
use crate::eval::{hears, questions, Ask, Reply};
use crate::frag::frag_shape;
use crate::interp::{
    admitted_value, declared, derived_budget, excess, executed_so, finished_value, left, over,
    run_refused, run_stmts, start, status_text, Ending, RunOutcome,
};
use crate::json::{find_member, member, Num, Value};
use crate::label::bottom;
use crate::plan::{Plan, Stmt};
use crate::plan_approval::{
    approval_answer, approve_out, mint_each_out, release_out, ApprovalEnd, Released,
};
use crate::plan_demand::{counted_verbs, orders_for, pools_of, MintOrder, Order};
use crate::plan_interp::{effect_event, fiber_start, fresh_orders, settles, Settlement, Went};
use crate::plan_ir::{all_shape, node_demand, nodes_demand, shapes_keep_demand, AstNode};
use crate::plan_runtime::{Fresh, HostAsk, HostReply};
use crate::plan_service::{approval_refused, batch_need, fiber_name, start_answer, RunRecord};
use crate::plan_types::{shows, BufferState, Buffered, WithheldEffect};
use crate::plancheck::{
    admission_fault, demand_within_steps, sat, stmts_demand, stmts_name, VerbSchemas,
};
use crate::records::{kind_text, task_key, Capacity, Class, CleanupKind, FragView, Held};
use crate::recovery::{declaration, import_held, placed, pooled};
use crate::resources::{held_as, HoldStep};
use crate::routing::{emits, reads, Route};
use crate::run_laws::{budget_is_conserved, derived_budget_suffices, executed, performed};
use crate::strmap::listing_of;
use crate::substrate::generation_of;
use crate::text::{decimal, decimal_is_parsed, signed_decimal};
use vstd::prelude::*;

verus! {

/// A whole run stays within its consent: it performs no verb more often than the consent grants, the
/// effects that it counts are those that the world reported as done, and where the plan was let run
/// it never ends for want of budget.
pub proof fn a_run_stays_within_its_consent(
    out: RunOutcome,
    plan: &Plan,
    consent: &ConsentRecord,
    schemas: &VerbSchemas,
    before: Seq<(Ask, Reply)>,
    after: Seq<(Ask, Reply)>,
    rs: Seq<Reply>,
    verb: Seq<char>,
)
    requires
        executed_so(out, plan, consent.budget@, schemas, before, after),
        hears(rs, after),
    ensures
        performed(questions(after), verb) <= performed(questions(before), verb) + left(
            consent.budget@,
            verb,
        ),
        executed(questions(before), rs) <= executed(questions(after), rs),
        out.effects_executed == sat(
            executed(questions(after), rs) - executed(questions(before), rs),
        ),
        (forall|v: Seq<char>| !#[trigger] over(plan, consent.budget@, v)) ==> !(
        out.status@ is BudgetExhausted),
{
    let m = start(consent.budget@, before);
    let ran = run_stmts(plan.stmts@, m, bottom(), declared(schemas), rs);
    budget_is_conserved(plan.stmts@, m, bottom(), declared(schemas), rs);
    assert(left(m.budget, verb) + performed(m.talk.asks, verb) == left(ran.m.budget, verb)
        + performed(ran.m.talk.asks, verb));
    if forall|v: Seq<char>| !#[trigger] over(plan, consent.budget@, v) {
        assert forall|v: Seq<char>| #![trigger left(m.budget, v)]
            1 * stmts_demand(plan.stmts@, v) <= left(m.budget, v) by {
            assert(!over(plan, consent.budget@, v));
            demand_within_steps(plan.stmts@, v);
        }
        derived_budget_suffices(plan.stmts@, m, bottom(), declared(schemas), rs);
    }
}

/// A run starts with nothing bound, nothing performed, nothing withheld, and with what was granted.
pub proof fn a_run_starts_with_nothing(
    budget: Map<Seq<char>, u64>,
    nonce: Seq<char>,
    log: Seq<(Ask, Reply)>,
    v: Seq<char>,
)
    ensures
        start(budget, log).budget == budget,
        start(budget, log).effects == 0,
        !start(budget, log).env.contains_key(v),
        start(budget, log).talk.trace.len() == 0,
        fiber_start(nonce, log).withheld == 0,
        fiber_start(nonce, log).nonce == nonce,
        !fiber_start(nonce, log).env.contains_key(v),
        start(budget, log).talk.asks == fiber_start(nonce, log).talk.asks,
{
}

/// A run is committed exactly when it reached its end and withheld nothing, waits for approval exactly
/// when it reached its end and withheld something, and is rolled back otherwise.
pub proof fn how_a_run_is_settled(s: Settlement, w: Went)
    requires
        settles(s, w),
    ensures
        s is Commit <==> w.stop is None && w.f.withheld == 0,
        s is AwaitApproval <==> w.stop is None && w.f.withheld > 0,
        s is RollBack <==> w.stop is Some,
        s matches Settlement::AwaitApproval { withheld } ==> withheld == w.f.withheld,
{
}

/// A run is started only if its plan is admitted and can demand of no verb more than the consent grants,
/// and its grants end when the consent does.
pub proof fn what_is_started(
    r: Result<Vec<MintOrder>, KernelError>,
    consent: &ConsentRecord,
    plan: Plan,
    schemas: &VerbSchemas,
    v: Seq<char>,
    i: int,
)
    requires
        start_answer(r, consent, Ok(plan), schemas),
    ensures
        r is Ok ==> admission_fault(&plan, schemas) is None,
        r is Ok ==> stmts_demand(plan.stmts@, v) <= left(consent.budget@, v),
        r matches Ok(orders) ==> (0 <= i < orders@.len() ==> orders@[i].constraints.expires_at
            == Some(sat(consent.issued_at + consent.ttl_secs))),
        r is Err ==> admission_fault(&plan, schemas) is Some || exists|w: Seq<char>| #[trigger]
            over(&plan, consent.budget@, w),
{
    if let Ok(orders) = r {
        assert(!over(&plan, consent.budget@, v));
        demand_within_steps(plan.stmts@, v);
        if 0 <= i < orders@.len() {
            let verbs = choose|verbs: Seq<Seq<char>>| #[trigger]
                crate::plan_demand::lists_demand(verbs, &plan)
                    && crate::plan_demand::order_views(orders@) == orders_for(
                    listing_of(
                        pools_of(crate::plan_demand::granted_verbs(verbs, consent.budget@)),
                    ),
                    sat(consent.issued_at + consent.ttl_secs),
                );
            let wanted = orders_for(
                listing_of(pools_of(crate::plan_demand::granted_verbs(verbs, consent.budget@))),
                sat(consent.issued_at + consent.ttl_secs),
            );
            assert(crate::plan_demand::order_views(orders@) == wanted);
            assert(crate::plan_demand::order_views(orders@)[i] == orders@[i]@);
            assert(wanted[i].expires_at == Some(sat(consent.issued_at + consent.ttl_secs)));
        }
    } else if admission_fault(&plan, schemas) is None {
        let w = choose|w: Seq<char>| #[trigger]
            crate::interp::first_over(&plan, consent.budget@, w) && r->Err_0@ == Refusal::Denied(
                "derived budget "@ + w + "="@ + decimal(stmts_demand(plan.stmts@, w))
                    + " exceeds consent "@ + decimal(left(consent.budget@, w) as nat),
            );
        assert(over(&plan, consent.budget@, w));
    }
}

/// The grants of an approval are asked for one by one, in order, up to the first that is refused; none is
/// refused exactly when the host did each one.
pub proof fn approval_mints_in_order(orders: Seq<Order>, asks: Seq<Ask>, rs: Seq<Reply>)
    ensures
        ({
            let out = mint_each_out(orders, asks, rs);
            &&& asks.is_prefix_of(out.0)
            &&& out.1 is None ==> out.0.len() == asks.len() + orders.len()
            &&& out.0.len() <= asks.len() + orders.len()
            &&& out.1 is None <==> forall|i: int|
                0 <= i < orders.len() ==> #[trigger] rs[asks.len() + i] == Reply::Host(
                    HostReply::Done,
                )
        }),
    decreases orders.len(),
{
    if orders.len() > 0 {
        let a1 = crate::plan_approval::then_ask(asks, HostAsk::Mint(orders[0]));
        let n = asks.len() as int;
        let rest = orders.drop_first();
        let out = mint_each_out(orders, asks, rs);
        if rs[n] == Reply::Host(HostReply::Done) {
            approval_mints_in_order(rest, a1, rs);
            assert forall|i: int| 0 <= i < n implies asks[i] == out.0[i] by {
                assert(a1[i] == out.0[i]);
            }
            if out.1 is None {
                assert forall|i: int| 0 <= i < orders.len() implies #[trigger] rs[n + i]
                    == Reply::Host(HostReply::Done) by {
                    if i > 0 {
                        assert(rs[a1.len() + (i - 1)] == Reply::Host(HostReply::Done));
                        assert(a1.len() + (i - 1) == n + i);
                    }
                }
            }
            if forall|i: int|
                0 <= i < orders.len() ==> #[trigger] rs[n + i] == Reply::Host(HostReply::Done) {
                assert forall|i: int| 0 <= i < rest.len() implies #[trigger] rs[a1.len() + i]
                    == Reply::Host(HostReply::Done) by {
                    assert(rs[n + (i + 1)] == Reply::Host(HostReply::Done));
                    assert(a1.len() + i == n + (i + 1));
                }
            }
        } else {
            assert(rs[n + 0] != Reply::Host(HostReply::Done));
        }
    }
}

/// An approval releases only after all its grants were minted; it went through only if the whole batch
/// was released.
pub proof fn an_approval_releases_after_minting(
    orders: Seq<Order>,
    batch: Seq<Buffered>,
    nonce: Seq<char>,
    asks: Seq<Ask>,
    rs: Seq<Reply>,
)
    ensures
        match approve_out(orders, batch, nonce, asks, rs).1 {
            Released::Through(n) => n == batch.len() && mint_each_out(orders, asks, rs).1 is None,
            Released::Failed(n, _) => n < batch.len() && mint_each_out(orders, asks, rs).1 is None,
            Released::Broken(_) => true,
        },
        mint_each_out(orders, asks, rs).1 is Some ==> approve_out(
            orders,
            batch,
            nonce,
            asks,
            rs,
        ).0 == mint_each_out(orders, asks, rs).0,
{
    let m = mint_each_out(orders, asks, rs);
    if m.1 is None {
        if let Reply::Host(HostReply::Number(n)) = rs[m.0.len() as int] {
            let a1 = crate::plan_approval::then_ask(m.0, HostAsk::Emissions);
            crate::service_laws::a_release_counts(batch, 0, n, nonce, a1, rs);
        }
    }
}

/// The grants of a consent that reaches a suspended run end when that consent does.
pub proof fn fresh_grants_end_with_their_consent(c: Fresh, i: int)
    ensures
        0 <= i < fresh_orders(c).len() ==> fresh_orders(c)[i].expires_at == Some(
            sat(c.issued_at + c.ttl_secs),
        ),
{
}

/// A budget is granted verb by verb with its own number.
pub proof fn a_budget_is_counted_verb_by_verb(budget: Map<Seq<char>, u64>, i: int)
    requires
        0 <= i < listing_of(budget).len(),
    ensures
        counted_verbs(budget).len() == listing_of(budget).len(),
        counted_verbs(budget)[i].0 == listing_of(budget)[i].0,
        counted_verbs(budget)[i].1 == Some(listing_of(budget)[i].1),
{
}

/// What is recorded of a run says which plan was admitted, how it ended, and how many effects it
/// executed; what is told of an effect says its verb, its target and whether it was done.
pub proof fn records_of_a_run(
    plan_hash: Seq<char>,
    plan: &Plan,
    status: Ending,
    effects: u64,
    verb: Seq<char>,
    target: Seq<char>,
    error: Option<Seq<char>>,
)
    ensures
        member(admitted_value(plan_hash, plan), "event"@) == Some(Value::Str("plan.admitted"@)),
        member(admitted_value(plan_hash, plan), "plan"@) == Some(Value::Str(plan_hash)),
        member(finished_value(status, effects), "event"@) == Some(Value::Str("plan.finished"@)),
        member(finished_value(status, effects), "status"@) == Some(Value::Str(status_text(status))),
        member(finished_value(status, effects), "effects"@) == Some(
            Value::Number(Num::Nat(effects)),
        ),
        member(effect_event(verb, target, error), "kind"@) == Some(Value::Str("effect"@)),
        member(effect_event(verb, target, error), "ok"@) == Some(Value::Bool(error is None)),
        member(effect_event(verb, target, error), "target"@) == Some(Value::Str(target)),
        member(effect_event(verb, target, error), "verb"@) == Some(Value::Str(verb)),
        error matches Some(e) ==> member(effect_event(verb, target, error), "error"@) == Some(
            Value::Str(e),
        ),
{
    reveal_strlit("event");
    reveal_strlit("plan");
    reveal_strlit("status");
    reveal_strlit("effects");
    reveal_strlit("kind");
    reveal_strlit("ok");
    reveal_strlit("target");
    reveal_strlit("verb");
    reveal_strlit("error");
    assert("event"@.len() == 5 && "plan"@.len() == 4 && "status"@.len() == 6 && "effects"@.len()
        == 7 && "kind"@.len() == 4 && "ok"@.len() == 2 && "target"@.len() == 6 && "verb"@.len() == 4
        && "error"@.len() == 5);
    assert("kind"@[0] != "verb"@[0]);
    reveal_with_fuel(find_member, 6);
    let a = admitted_value(plan_hash, plan)->Object_0;
    let b = finished_value(status, effects)->Object_0;
    let c = effect_event(verb, target, error)->Object_0;
    assert(a.drop_first()[0] == a[1]);
    assert(b.drop_first()[0] == b[1] && b.drop_first().drop_first()[0] == b[2]);
    let c1 = c.drop_first();
    let c2 = c1.drop_first();
    let c3 = c2.drop_first();
    assert(c1[0] == c[1] && c2[0] == c[2] && c3[0] == c[3]);
    if error is Some {
        assert(c3.drop_first()[0] == c[4]);
    }
}

/// What was derived of a plan is what it can demand of each verb that it names.
pub proof fn what_is_derived_is_demanded(plan: &Plan, v: Seq<char>)
    ensures
        derived_budget(plan).contains_key(v) <==> stmts_name(plan.stmts@, v),
        derived_budget(plan).contains_key(v) && stmts_demand(plan.stmts@, v) <= u64::MAX
            ==> derived_budget(plan)[v] == stmts_demand(plan.stmts@, v),
{
}

/// No two reasons of the issuer are told in the same way, and what is not known is told as not found.
pub proof fn refusals_are_told_apart(a: GateError, b: GateError, id: Seq<char>, verb: Seq<char>)
    ensures
        gate_refusal(a, id, verb) == gate_refusal(b, id, verb) ==> a == b,
        gate_refusal(a, id, verb) is NotFound <==> a == GateError::Unknown,
{
    reveal_strlit("cap revoked");
    reveal_strlit("cap expired");
    reveal_strlit("verb not granted: ");
    reveal_strlit("budget exhausted: ");
    assert("cap revoked"@[4] != "cap expired"@[4]);
    let x = "verb not granted: "@ + verb;
    let y = "budget exhausted: "@ + verb;
    assert(x[0] == 'v' && y[0] == 'b');
    assert("cap revoked"@[0] == 'c' && "cap expired"@[0] == 'c');
}

/// A verb reads exactly when its character is repeatable, and acts outside exactly when it is emitting;
/// never both.
pub proof fn reading_is_not_acting(r: Route)
    ensures
        !(reads(r) && emits(r)),
        reads(r) ==> r.kind is Some,
        r.kind is None ==> !reads(r) && !emits(r),
        r.kind matches Some(k) ==> (reads(r) <==> k is Repeatable) && (emits(r) <==> k is Emitting),
{
}

/// A process is held under the mark of its own incarnation and with its own number and start; the owner
/// of a lock is recorded with the start that was seen.
pub proof fn what_is_held_is_marked(pid: u32, start_ticks: u64, substrate: Value, token: Seq<char>)
    ensures
        ({
            let h = held_as(HoldStep::Process(pid), substrate, Some(start_ticks), token);
            &&& h.1 == generation_of(pid, start_ticks)
            &&& member(h.0, "pid"@) == Some(Value::Number(Num::Nat(pid as u64)))
            &&& member(h.0, "start"@) == Some(Value::Number(Num::Nat(start_ticks)))
        }),
        substrate is Object ==> member(
            held_as(HoldStep::Owner(pid), substrate, Some(start_ticks), token).0,
            "owner_start"@,
        ) == Some(Value::Number(Num::Nat(start_ticks))),
        held_as(HoldStep::Owner(pid), substrate, None, token) == (substrate, token),
        held_as(HoldStep::Nothing, substrate, None, token) == (substrate, token),
{
    reveal_strlit("pid");
    reveal_strlit("start");
    assert("pid"@.len() == 3 && "start"@.len() == 5);
    reveal_with_fuel(find_member, 3);
    let ms = held_as(HoldStep::Process(pid), substrate, Some(start_ticks), token).0->Object_0;
    assert(ms.drop_first()[0] == ms[1]);
    if let Value::Object(m) = substrate {
        crate::cleanup_laws::setting_a_member_sets_one(
            m,
            "owner_start"@,
            Value::Number(Num::Nat(start_ticks)),
            "owner_start"@,
        );
    }
}

/// Every old holding of a class that is held by one has its pool, and no pool is lost.
pub proof fn what_is_held_by_one_has_a_pool(
    classes: Seq<Class>,
    hs: Seq<Held>,
    pools: Seq<Capacity>,
    n: nat,
    i: int,
)
    requires
        n <= hs.len(),
    ensures
        import_held(classes, hs, pools, n) matches Ok(out) ==> {
            &&& forall|p: Capacity| #[trigger] pools.contains(p) ==> out.contains(p)
            &&& 0 <= i < n ==> (declaration(classes, hs[i].class_id) matches Some(c) && (c.algebra
                is Exclusive ==> pooled(out, hs[i].class_id, hs[i].instance)))
        },
    decreases n,
{
    if n > 0 {
        what_is_held_by_one_has_a_pool(classes, hs, pools, (n - 1) as nat, i);
        if let Ok(at) = import_held(classes, hs, pools, (n - 1) as nat) {
            let h = hs[n - 1];
            let p = Capacity {
                class_id: h.class_id,
                instance: h.instance,
                capacity: crate::records::FragView::Ex(true),
            };
            assert forall|q: Capacity| at.contains(q) implies #[trigger] placed(
                at,
                p,
            ).contains(q) by {
                crate::migration_laws::a_placed_pool_is_among_them(at, p, q);
            }
            crate::migration_laws::a_placed_pool_is_among_them(at, p, p);
            if 0 <= i < n - 1 && pooled(at, hs[i].class_id, hs[i].instance) {
                let k = choose|k: int|
                    0 <= k < at.len() && (#[trigger] at[k]).class_id == hs[i].class_id
                        && at[k].instance == hs[i].instance;
                assert(at.contains(at[k]));
                let out = placed(at, p);
                crate::migration_laws::a_placed_pool_is_among_them(at, p, at[k]);
                let q = out.index_of(at[k]);
                assert(out[q] == at[k]);
            }
        }
    }
}

/// A number and its negative differ by the sign alone, and only a negative number has one.
pub proof fn a_sign_stands_before_the_negative(n: int)
    ensures
        n < 0 ==> signed_decimal(n) == seq!['-'] + decimal((-n) as nat),
        n >= 0 ==> signed_decimal(n) == decimal(n as nat) && signed_decimal(n)[0] != '-',
{
    reveal_strlit("-");
    assert("-"@ =~= seq!['-']);
    if n >= 0 {
        decimal_is_parsed(n as nat);
        assert(crate::text::is_digit(decimal(n as nat)[0]));
    }
}

/// Two runs of one plan have fibers of different names, and so have runs of two plans whose hashes are of
/// one length.
pub proof fn fibers_are_named_apart(p: Seq<char>, q: Seq<char>, r: Seq<char>, t: Seq<char>)
    requires
        p.len() == q.len(),
        fiber_name(p, r) == fiber_name(q, t),
    ensures
        p == q,
        r == t,
{
    let a = fiber_name(p, r);
    let b = fiber_name(q, t);
    let n = "plan:"@.len() as int;
    let k = n + p.len() + "#"@.len();
    assert(a.subrange(n, n + p.len()) =~= p);
    assert(b.subrange(n, n + p.len()) =~= q);
    assert(a.subrange(k, a.len() as int) =~= r);
    assert(b.subrange(k, b.len() as int) =~= t);
}

/// The obligations of two holdings of one realm have different names.
pub proof fn obligations_are_named_apart(realm: Seq<char>, a: u64, b: u64)
    requires
        task_key(realm, a) == task_key(realm, b),
    ensures
        a == b,
{
    let x = task_key(realm, a);
    let y = task_key(realm, b);
    let k = ("cleanup:"@ + realm + ":"@).len() as int;
    assert(x.subrange(k, x.len() as int) =~= decimal(a as nat));
    assert(y.subrange(k, y.len() as int) =~= decimal(b as nat));
    decimal_is_parsed(a as nat);
    decimal_is_parsed(b as nat);
}

/// No two kinds of obligations have one name.
pub proof fn kinds_are_named_apart(a: CleanupKind, b: CleanupKind)
    requires
        kind_text(a) == kind_text(b),
    ensures
        a == b,
{
    reveal_strlit("process");
    reveal_strlit("file_lock");
    reveal_strlit("port");
    reveal_strlit("subscription");
    reveal_strlit("plugin");
    reveal_strlit("provider");
    assert("process"@.len() == 7 && "file_lock"@.len() == 9 && "port"@.len() == 4
        && "subscription"@.len()
        == 12 && "plugin"@.len() == 6 && "provider"@.len() == 8);
}

/// A run is refused only for a reason: its consent does not hold or is that of another plan, which is told
/// as such, or the plan is not admitted, or it can demand more than was granted.
pub proof fn a_run_is_refused_for_a_reason(
    plan_bytes: Seq<u8>,
    plan: Plan,
    consent: &ConsentRecord,
    key: Seq<u8>,
    now: u64,
    schemas: &VerbSchemas,
    why: Ending,
)
    requires
        run_refused(plan_bytes, Ok(plan), consent, key, now, schemas, why),
    ensures
        address(plan_bytes) != consent.plan_hash@ ==> why is ConsentMismatch,
        consent_fault(consent, key, now) is Some ==> why is ConsentMismatch,
        why is ConsentMismatch || why is AdmissionRejected,
        why is AdmissionRejected ==> admission_fault(&plan, schemas) is Some || exists|v: Seq<char>|
         #[trigger] over(&plan, consent.budget@, v),
        why is AdmissionRejected ==> address(plan_bytes) == consent.plan_hash@ && consent_fault(
            consent,
            key,
            now,
        ) is None,
{
    if why is AdmissionRejected && admission_fault(&plan, schemas) is None {
        let v = choose|v: Seq<char>| #[trigger]
            crate::interp::first_over(&plan, consent.budget@, v) && why
                == Ending::AdmissionRejected(
                "derived budget "@ + v + "="@ + decimal(stmts_demand(plan.stmts@, v))
                    + " exceeds consent"@,
            );
        assert(over(&plan, consent.budget@, v));
    }
}

/// What is shown of a withheld effect is its own verb, target and cost.
pub proof fn what_is_shown_of_the_withheld(w: WithheldEffect, b: Buffered)
    requires
        shows(w, b),
    ensures
        w.verb@ == b.verb@,
        w.target@ == b.target@,
        w.cost == b.cost,
{
}

/// The tree of a plan performs each verb as often as the plan can: an effect once and only its own verb, a
/// loop as often as its bound allows.
pub proof fn the_tree_demands_as_the_plan(
    ns: Seq<AstNode>,
    ss: Seq<Stmt>,
    verb: Seq<char>,
    v: String,
    bound: u64,
    body: Vec<AstNode>,
)
    ensures
        all_shape(ns, ss) ==> nodes_demand(ns, verb) == stmts_demand(ss, verb),
        node_demand(AstNode::Effect { verb: v }, v@) == 1,
        v@ != verb ==> node_demand(AstNode::Effect { verb: v }, verb) == 0,
        node_demand(AstNode::Loop { bound, body }, verb) == bound * nodes_demand(body@, verb),
{
    if all_shape(ns, ss) {
        shapes_keep_demand(ns, ss, verb);
    }
}

/// A fragment says in its words what it is: the token or the invalid one, a number or none, and a range is
/// invalid only without spans.
pub proof fn a_fragment_says_what_it_is(n: u64, bot: bool)
    ensures
        frag_shape(Value::Object(seq![("ex"@, Value::Str("token"@))])) == Some(FragView::Ex(true)),
        frag_shape(Value::Object(seq![("ex"@, Value::Str("bot"@))])) == Some(FragView::Ex(false)),
        frag_shape(Value::Object(seq![("count"@, Value::Number(Num::Nat(n)))])) == Some(
            FragView::Count(Some(n)),
        ),
        frag_shape(Value::Object(seq![("count"@, Value::Str("invalid"@))])) == Some(
            FragView::Count(None),
        ),
        frag_shape(
            Value::Object(
                seq![("bot"@, Value::Bool(bot)), ("range"@, Value::Array(Seq::empty()))],
            ),
        ) == Some(FragView::Range(Seq::empty(), bot)),
        forall|v: Value| (#[trigger] frag_shape(v)) is Some ==> v is Object,
{
    reveal_strlit("ex");
    reveal_strlit("count");
    reveal_strlit("bot");
    reveal_strlit("range");
    reveal_strlit("token");
    reveal_strlit("invalid");
    assert("ex"@.len() == 2 && "count"@.len() == 5 && "bot"@.len() == 3 && "range"@.len() == 5
        && "token"@.len() == 5 && "invalid"@.len() == 7);
    assert("count"@[0] != "range"@[0]);
    reveal_with_fuel(find_member, 3);
    let r = seq![("bot"@, Value::Bool(bot)), ("range"@, Value::Array(Seq::empty()))];
    assert(r.drop_first()[0] == r[1]);
    let e: Seq<Value> = Seq::empty();
    assert(crate::frag::all_spans(e) == Some(Seq::<(u64, u64)>::empty()));
}

/// An approval that is refused asks the host for nothing and leaves its nonce unused; one that falls short
/// of the batch uses up the nonce and asks for nothing either.
pub proof fn a_refused_approval_asks_for_nothing(
    run_id: Seq<char>,
    run: &RunRecord,
    now: u64,
    consent: &ConsentRecord,
    key: Seq<u8>,
    batch: Seq<Buffered>,
    used: (Set<Seq<char>>, Set<Seq<char>>),
    logs: (Seq<(Ask, Reply)>, Seq<(Ask, Reply)>),
    r: Result<ApprovalEnd, KernelError>,
)
    requires
        approval_answer(run_id, run, now, consent, key, batch, used, logs, r),
    ensures
        approval_refused(run_id, run, now, consent, key, used.0) is Some ==> r is Err && used.1
            == used.0 && logs.1 == logs.0,
        approval_refused(run_id, run, now, consent, key, used.0) is None ==> used.1.contains(
            consent.nonce@,
        ),
        (exists|v: Seq<char>| #[trigger] excess(batch_need(batch), consent.budget@, v)) ==> r is Err
            && logs.1 == logs.0,
        logs.0.is_prefix_of(logs.1),
{
}

/// A release that went through has performed each effect of the batch once and in order, with its own
/// arguments; each was done before it was logged under the next number, each was logged before it was
/// marked, and the host took every log and mark.
pub proof fn a_release_performs_in_order(
    batch: Seq<Buffered>,
    done: nat,
    seq: u64,
    nonce: Seq<char>,
    asks: Seq<Ask>,
    rs: Seq<Reply>,
    i: int,
)
    requires
        release_out(batch, done, seq, nonce, asks, rs).1 is Through,
    ensures
        ({
            let out = release_out(batch, done, seq, nonce, asks, rs).0;
            let k = asks.len() + 4 * i;
            &&& out.len() == asks.len() + 4 * batch.len()
            &&& 0 <= i < batch.len() ==> {
                &&& out[k] == (Ask::Invoke { verb: batch[i].verb@, args: batch[i].args@ })
                &&& rs[k] is Got
                &&& out[k + 1] matches Ask::Host(
                    HostAsk::Log { seq: s, verb, target, nonce: n },
                ) && verb == batch[i].verb@ && target == batch[i].target@ && n == nonce && (seq + i
                    < u64::MAX ==> s == seq + i + 1)
                &&& rs[k + 1] == Reply::Host(HostReply::Done)
                &&& out[k + 2] == Ask::Host(
                    HostAsk::Mark { seq: batch[i].seq, state: BufferState::Inserted },
                )
                &&& rs[k + 2] == Reply::Host(HostReply::Done)
            }
        }),
    decreases batch.len(),
{
    if batch.len() > 0 {
        let item = batch[0];
        let out = release_out(batch, done, seq, nonce, asks, rs).0;
        let a1 = asks.push(Ask::Invoke { verb: item.verb@, args: item.args@ });
        let next = sat(seq + 1);
        let a2 = crate::plan_approval::then_ask(
            a1,
            HostAsk::Log { seq: next, verb: item.verb@, target: item.target@, nonce },
        );
        let a3 = crate::plan_approval::then_ask(
            a2,
            HostAsk::Mark { seq: item.seq, state: BufferState::Inserted },
        );
        let a4 = crate::plan_approval::then_ask(
            a3,
            HostAsk::Emit(effect_event(item.verb@, item.target@, None)),
        );
        let rest = batch.drop_first();
        assert(out == release_out(rest, done + 1, next, nonce, a4, rs).0);
        a_release_performs_in_order(rest, done + 1, next, nonce, a4, rs, i - 1);
        crate::service_laws::a_release_counts(rest, done + 1, next, nonce, a4, rs);
        let n = asks.len() as int;
        assert(out[n] == a4[n] && out[n + 1] == a4[n + 1] && out[n + 2] == a4[n + 2]);
        if 0 < i < batch.len() {
            assert(rest[i - 1] == batch[i]);
            assert(a4.len() + 4 * (i - 1) == asks.len() + 4 * i);
        }
    }
}

/// A release stops at the first effect that the world does not perform, and says how many were performed
/// before it.
pub proof fn a_release_stops_at_the_first_failure(
    batch: Seq<Buffered>,
    done: nat,
    seq: u64,
    nonce: Seq<char>,
    asks: Seq<Ask>,
    rs: Seq<Reply>,
)
    ensures
        ({
            let out = release_out(batch, done, seq, nonce, asks, rs);
            out.1 matches Released::Failed(n, _) ==> {
                let k = asks.len() + 4 * (n - done);
                &&& done <= n < done + batch.len()
                &&& out.0.len() == k + 1
                &&& !(rs[k] is Got)
                &&& out.0[k] == (Ask::Invoke {
                    verb: batch[n - done].verb@,
                    args: batch[n - done].args@,
                })
            }
        }),
    decreases batch.len(),
{
    if batch.len() > 0 {
        let item = batch[0];
        let a1 = asks.push(Ask::Invoke { verb: item.verb@, args: item.args@ });
        let next = sat(seq + 1);
        let a2 = crate::plan_approval::then_ask(
            a1,
            HostAsk::Log { seq: next, verb: item.verb@, target: item.target@, nonce },
        );
        let a3 = crate::plan_approval::then_ask(
            a2,
            HostAsk::Mark { seq: item.seq, state: BufferState::Inserted },
        );
        let a4 = crate::plan_approval::then_ask(
            a3,
            HostAsk::Emit(effect_event(item.verb@, item.target@, None)),
        );
        a_release_stops_at_the_first_failure(batch.drop_first(), done + 1, next, nonce, a4, rs);
    }
}

} // verus!

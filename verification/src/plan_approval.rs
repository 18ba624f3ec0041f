//! The release of a withheld batch, once it is approved.

use crate::consent::{ConsentKey, ConsentRecord};
use crate::error::{joined_text, refusal_text, KernelError, Refusal};
use crate::eval::{hears, hears_prefix, questions, Ask, Reply};
use crate::interp::{excess, left};
use crate::json::{named_values, no_members, put, text, Json, Value};
use crate::plan_demand::{counted_verbs, order_views, orders_for, pools_of, MintOrder, Order};
use crate::plan_interp::{done_of, effect_event};
use crate::plan_runtime::{done_reply, invoke_reply, number_reply, HostAsk, HostReply, PlanRuntime};
use crate::plan_service::{approval_refused, approve_gate, batch_need, first_short, RunRecord};
use crate::plan_types::{BufferState, Buffered, Outcome, RunState};
use crate::plancheck::sat;
use crate::strmap::{listing_of, StrSet};
use crate::text::decimal;
use vstd::prelude::*;

verus! {

/// The refusal that a reply brings.
pub open spec fn refusal_of(reply: Reply) -> Refusal {
    match reply {
        Reply::Refused(e) => e,
        _ => Refusal::Denied(Seq::empty()),
    }
}

/// The end of a release: how many effects were performed, and the failure that stopped it, if
/// any; or the refusal of the store.
pub enum Released {
    Through(nat),
    Failed(nat, Seq<char>),
    Broken(Refusal),
}

/// The questions of a conversation after one more.
pub open spec fn then_ask(asks: Seq<Ask>, ask: HostAsk) -> Seq<Ask> {
    asks.push(Ask::Host(ask))
}

/// Releases a batch in its order. Each effect is performed, recorded and marked before the next
/// one; the first failure stops the release.
pub open spec fn release_out(
    batch: Seq<Buffered>,
    done: nat,
    seq: u64,
    nonce: Seq<char>,
    asks: Seq<Ask>,
    rs: Seq<Reply>,
) -> (Seq<Ask>, Released)
    decreases batch.len(),
{
    if batch.len() == 0 {
        (asks, Released::Through(done))
    } else {
        let item = batch[0];
        let a1 = asks.push(Ask::Invoke { verb: item.verb@, args: item.args@ });
        match rs[asks.len() as int] {
            Reply::Got(_) => {
                let next = sat(seq + 1);
                let a2 = then_ask(
                    a1,
                    HostAsk::Log { seq: next, verb: item.verb@, target: item.target@, nonce },
                );
                if !done_of(rs[a1.len() as int]) {
                    (a2, Released::Broken(refusal_of(rs[a1.len() as int])))
                } else {
                    let a3 = then_ask(
                        a2,
                        HostAsk::Mark { seq: item.seq, state: BufferState::Inserted },
                    );
                    if !done_of(rs[a2.len() as int]) {
                        (a3, Released::Broken(refusal_of(rs[a2.len() as int])))
                    } else {
                        let a4 = then_ask(
                            a3,
                            HostAsk::Emit(effect_event(item.verb@, item.target@, None)),
                        );
                        release_out(batch.drop_first(), done + 1, next, nonce, a4, rs)
                    }
                }
            },
            Reply::Refused(e) => (
                a1,
                Released::Failed(done, item.verb@ + ": "@ + refusal_text(e)),
            ),
            _ => (a1, Released::Failed(done, item.verb@ + ": "@)),
        }
    }
}

/// Asks for several grants, up to the first that is refused.
pub open spec fn mint_each_out(orders: Seq<Order>, asks: Seq<Ask>, rs: Seq<Reply>) -> (
    Seq<Ask>,
    Option<Refusal>,
)
    decreases orders.len(),
{
    if orders.len() == 0 {
        (asks, None)
    } else {
        let a1 = then_ask(asks, HostAsk::Mint(orders[0]));
        if done_of(rs[asks.len() as int]) {
            mint_each_out(orders.drop_first(), a1, rs)
        } else {
            (a1, Some(refusal_of(rs[asks.len() as int])))
        }
    }
}

/// The work of an approval after its gate: the grants, the count of recorded effects, and the
/// release.
pub open spec fn approve_out(
    orders: Seq<Order>,
    batch: Seq<Buffered>,
    nonce: Seq<char>,
    asks: Seq<Ask>,
    rs: Seq<Reply>,
) -> (Seq<Ask>, Released) {
    let m = mint_each_out(orders, asks, rs);
    match m.1 {
        Some(e) => (m.0, Released::Broken(e)),
        None => {
            let a1 = then_ask(m.0, HostAsk::Emissions);
            match rs[m.0.len() as int] {
                Reply::Host(HostReply::Number(n)) => release_out(batch, 0, n, nonce, a1, rs),
                other => (a1, Released::Broken(refusal_of(other))),
            }
        },
    }
}

/// How an approved run is to be settled.
#[derive(Debug, PartialEq, Eq)]
pub enum ApprovalEnd {
    /// The whole batch was released: the segment is handed over to the run.
    Commit { released: usize },
    /// A release failed: what is still held is dropped and the segment is torn down.
    RollBack { released: usize, why: String },
}

impl ApprovalEnd {
    /// How the run ended.
    pub fn outcome(&self) -> (o: Outcome)
        ensures
            match self {
                ApprovalEnd::Commit { .. } => o is Completed,
                ApprovalEnd::RollBack { released, why } => o matches Outcome::FailStop { at } && at@
                    == why@,
            },
    {
        match self {
            ApprovalEnd::Commit { .. } => Outcome::Completed,
            ApprovalEnd::RollBack { released, why } => Outcome::FailStop { at: why.clone() },
        }
    }

    /// What the caller of the approval is told.
    pub fn answer(&self) -> (r: Result<(), KernelError>)
        ensures
            match self {
                ApprovalEnd::Commit { .. } => r is Ok,
                ApprovalEnd::RollBack { released, why } => r matches Err(e) && e@
                    == Refusal::Denied("approve release failed: "@ + why@),
            },
    {
        match self {
            ApprovalEnd::Commit { .. } => Ok(()),
            ApprovalEnd::RollBack { released, why } => Err(
                KernelError::Denied(joined_text("approve release failed: ", why.as_str())),
            ),
        }
    }
}

/// What the result of an approval says.
pub open spec fn released_view(r: Result<ApprovalEnd, KernelError>) -> Released {
    match r {
        Ok(ApprovalEnd::Commit { released }) => Released::Through(released as nat),
        Ok(ApprovalEnd::RollBack { released, why }) => Released::Failed(released as nat, why@),
        Err(e) => Released::Broken(e@),
    }
}

/// One more question.
proof fn asked_host(log: Seq<(Ask, Reply)>, ask: HostAsk, reply: Reply)
    ensures
        questions(log.push((Ask::Host(ask), reply))) == then_ask(questions(log), ask),
{
    assert(questions(log.push((Ask::Host(ask), reply))) =~= questions(log).push(Ask::Host(ask)));
}

/// What is told about a released effect.
fn released_message(verb: &str, target: &str) -> (j: Json)
    ensures
        j@ == effect_event(verb@, target@, None),
{
    let mut ms: Vec<(String, Json)> = no_members();
    put(&mut ms, "kind", text("effect"));
    put(&mut ms, "ok", Json::Bool(true));
    put(&mut ms, "target", text(target));
    put(&mut ms, "verb", text(verb));
    proof {
        assert(named_values(ms@) =~= effect_event(verb@, target@, None)->Object_0);
    }
    Json::Object(ms)
}

fn release<R: PlanRuntime>(rt: &mut R, batch: &Vec<Buffered>, seq: u64, nonce: &str) -> (r: Result<
    ApprovalEnd,
    KernelError,
>)
    ensures
        old(rt).log().is_prefix_of(final(rt).log()),
        forall|rs: Seq<Reply>| #[trigger]
            hears(rs, final(rt).log()) ==> release_out(
                batch@,
                0,
                seq,
                nonce@,
                questions(old(rt).log()),
                rs,
            ) == (questions(final(rt).log()), released_view(r)),
{
    let ghost q0 = questions(rt.log());
    let mut seq_now: u64 = seq;
    let mut i: usize = 0;
    assert(batch@.skip(0) =~= batch@);
    while i < batch.len()
        invariant
            i <= batch@.len(),
            q0 == questions(old(rt).log()),
            old(rt).log().is_prefix_of(rt.log()),
            forall|rs: Seq<Reply>| #[trigger]
                hears(rs, rt.log()) ==> release_out(batch@, 0, seq, nonce@, q0, rs) == release_out(
                    batch@.skip(i as int),
                    i as nat,
                    seq_now,
                    nonce@,
                    questions(rt.log()),
                    rs,
                ),
        decreases batch.len() - i,
    {
        let ghost rest = batch@.skip(i as int);
        let item: &Buffered = &batch[i];
        assert(rest[0] == *item);
        assert(rest.drop_first() =~= batch@.skip(i + 1));
        let ghost log0 = rt.log();
        let got = rt.invoke(item.verb.as_str(), item.args.clone());
        let ghost log1 = rt.log();
        let ghost gr = invoke_reply(got);
        let ghost so_far = seq_now;
        proof {
            assert(questions(log1) =~= questions(log0).push(
                Ask::Invoke { verb: item.verb@, args: item.args@ },
            ));
            assert forall|rs: Seq<Reply>| #[trigger] hears(rs, log1) implies rs[log0.len() as int]
                == gr && release_out(batch@, 0, seq, nonce@, q0, rs) == release_out(
                rest,
                i as nat,
                so_far,
                nonce@,
                questions(log0),
                rs,
            ) by {
                hears_prefix(rs, log0, log1);
                assert(rs[log0.len() as int] == log1[log0.len() as int].1);
            }
        }
        match got {
            Err(e) => {
                let mut why: String = joined_text(item.verb.as_str(), ": ");
                why.append(e.message().as_str());
                return Ok(ApprovalEnd::RollBack { released: i, why });
            },
            Ok(_) => {},
        }
        seq_now = seq_now.saturating_add(1);
        let logged = rt.log_emission(
            seq_now,
            item.verb.as_str(),
            item.target.as_str(),
            nonce,
        );
        let ghost log2 = rt.log();
        proof {
            asked_host(
                log1,
                HostAsk::Log {
                    seq: seq_now,
                    verb: item.verb@,
                    target: item.target@,
                    nonce: nonce@,
                },
                done_reply(logged),
            );
            assert forall|rs: Seq<Reply>| #[trigger] hears(rs, log2) implies hears(rs, log1)
                && rs[log1.len() as int] == done_reply(logged) by {
                hears_prefix(rs, log1, log2);
                assert(rs[log1.len() as int] == log2[log1.len() as int].1);
            }
            assert(old(rt).log() =~= log2.subrange(0, old(rt).log().len() as int));
        }
        match logged {
            Err(e) => {
                return Err(e);
            },
            Ok(_) => {},
        }
        let marked = rt.mark_buffer(item.seq, BufferState::Inserted);
        let ghost log3 = rt.log();
        proof {
            asked_host(
                log2,
                HostAsk::Mark { seq: item.seq, state: BufferState::Inserted },
                done_reply(marked),
            );
            assert forall|rs: Seq<Reply>| #[trigger] hears(rs, log3) implies hears(rs, log2)
                && rs[log2.len() as int] == done_reply(marked) by {
                hears_prefix(rs, log2, log3);
                assert(rs[log2.len() as int] == log3[log2.len() as int].1);
            }
            assert(old(rt).log() =~= log3.subrange(0, old(rt).log().len() as int));
        }
        match marked {
            Err(e) => {
                return Err(e);
            },
            Ok(_) => {},
        }
        rt.emit(released_message(item.verb.as_str(), item.target.as_str()));
        proof {
            let log4 = rt.log();
            asked_host(
                log3,
                HostAsk::Emit(effect_event(item.verb@, item.target@, None)),
                Reply::Host(HostReply::Done),
            );
            assert forall|rs: Seq<Reply>| #[trigger] hears(rs, log4) implies hears(rs, log3) by {
                hears_prefix(rs, log3, log4);
            }
            assert(old(rt).log() =~= log4.subrange(0, old(rt).log().len() as int));
        }
        i = i + 1;
    }
    assert(batch@.skip(i as int).len() == 0);
    Ok(ApprovalEnd::Commit { released: i })
}

fn mint_each<R: PlanRuntime>(rt: &mut R, orders: &Vec<MintOrder>) -> (r: Result<(), KernelError>)
    ensures
        old(rt).log().is_prefix_of(final(rt).log()),
        forall|rs: Seq<Reply>| #[trigger]
            hears(rs, final(rt).log()) ==> mint_each_out(
                order_views(orders@),
                questions(old(rt).log()),
                rs,
            ) == (
                questions(final(rt).log()),
                match r {
                    Ok(_) => None,
                    Err(e) => Some(e@),
                },
            ),
{
    let ghost all = order_views(orders@);
    let ghost q0 = questions(rt.log());
    let mut i: usize = 0;
    assert(all.skip(0) =~= all);
    while i < orders.len()
        invariant
            i <= orders@.len(),
            all == order_views(orders@),
            q0 == questions(old(rt).log()),
            old(rt).log().is_prefix_of(rt.log()),
            forall|rs: Seq<Reply>| #[trigger]
                hears(rs, rt.log()) ==> mint_each_out(all, q0, rs) == mint_each_out(
                    all.skip(i as int),
                    questions(rt.log()),
                    rs,
                ),
        decreases orders.len() - i,
    {
        let ghost rest = all.skip(i as int);
        let ghost log1 = rt.log();
        assert(rest[0] == orders@[i as int]@);
        assert(rest.drop_first() =~= all.skip(i + 1));
        let r = rt.mint(&orders[i]);
        proof {
            asked_host(log1, HostAsk::Mint(rest[0]), done_reply(r));
            assert forall|rs: Seq<Reply>| #[trigger] hears(rs, rt.log()) implies mint_each_out(
                all,
                q0,
                rs,
            ) == mint_each_out(rest, questions(log1), rs) && rs[log1.len() as int] == done_reply(
                r,
            ) by {
                hears_prefix(rs, log1, rt.log());
                assert(rs[log1.len() as int] == rt.log()[log1.len() as int].1);
            }
        }
        match r {
            Err(e) => {
                return Err(e);
            },
            Ok(_) => {},
        }
        i = i + 1;
    }
    assert(all.skip(i as int).len() == 0);
    Ok(())
}

/// Whether a run after an approval is the run before it: settled where the approval came to an end,
/// and unchanged where it was refused or its store failed.
pub open spec fn settled_by(
    before: RunRecord,
    after: RunRecord,
    r: Result<ApprovalEnd, KernelError>,
) -> bool {
    after == (RunRecord {
        state: if r is Ok {
            RunState::Done
        } else {
            before.state
        },
        ..before
    })
}

/// Whether an approval answers as it must: a refusal asks the host nothing, a budget that is short
/// of the batch only uses up the nonce, and otherwise the batch is released.
pub open spec fn approval_answer(
    run_id: Seq<char>,
    run: &RunRecord,
    now: u64,
    consent: &ConsentRecord,
    key: Seq<u8>,
    batch: Seq<Buffered>,
    used: (Set<Seq<char>>, Set<Seq<char>>),
    logs: (Seq<(Ask, Reply)>, Seq<(Ask, Reply)>),
    r: Result<ApprovalEnd, KernelError>,
) -> bool {
    match approval_refused(run_id, run, now, consent, key, used.0) {
        Some(e) => {
            &&& r matches Err(x) && x@ == e
            &&& used.1 == used.0
            &&& logs.1 == logs.0
        },
        None => {
            &&& used.1 == used.0.insert(consent.nonce@)
            &&& if exists|v: Seq<char>| #[trigger]
                excess(batch_need(batch), consent.budget@, v) {
                &&& logs.1 == logs.0
                &&& r is Err
                &&& exists|v: Seq<char>| #[trigger]
                    first_short(batch, consent.budget@, v) && r->Err_0@ == Refusal::Denied(
                        "approval budget short: "@ + v + " needs "@ + decimal(
                            batch_need(batch)[v] as nat,
                        ) + ", got "@ + decimal(left(consent.budget@, v) as nat),
                    )
            } else {
                &&& logs.0.is_prefix_of(logs.1)
                &&& forall|rs: Seq<Reply>| #[trigger]
                    hears(rs, logs.1) ==> approve_out(
                        orders_for(
                            listing_of(pools_of(counted_verbs(batch_need(batch)))),
                            sat(consent.issued_at + consent.ttl_secs),
                        ),
                        batch,
                        consent.nonce@,
                        questions(logs.0),
                        rs,
                    ) == (questions(logs.1), released_view(r))
            }
        },
    }
}

/// Approves a withheld batch under a fresh consent: checks that the approval covers the whole
/// batch, mints the grants, and releases the effects in their original order, each exactly once.
/// Tells how the run is to be settled; a run whose batch was released, or whose release failed,
/// is done.
pub fn approve<R: PlanRuntime>(
    rt: &mut R,
    run_id: &str,
    run: &mut RunRecord,
    now: u64,
    consent: &ConsentRecord,
    key: &ConsentKey,
    used: &mut StrSet,
    batch: &Vec<Buffered>,
) -> (r: Result<ApprovalEnd, KernelError>)
    ensures
        settled_by(*old(run), *final(run), r),
        approval_answer(
            run_id@,
            old(run),
            now,
            consent,
            key@,
            batch@,
            (old(used)@, final(used)@),
            (old(rt).log(), final(rt).log()),
            r,
        ),
{
    let orders: Vec<MintOrder> = match approve_gate(run_id, run, now, consent, key, used, batch) {
        Err(e) => {
            return Err(e);
        },
        Ok(o) => o,
    };
    let ghost log0 = rt.log();
    match mint_each(rt, &orders) {
        Err(e) => {
            return Err(e);
        },
        Ok(_) => {},
    }
    let ghost log1 = rt.log();
    let counted = rt.emission_count();
    let ghost log2 = rt.log();
    proof {
        asked_host(log1, HostAsk::Emissions, number_reply(counted));
        assert forall|rs: Seq<Reply>| #[trigger] hears(rs, log2) implies hears(rs, log1)
            && rs[log1.len() as int] == number_reply(counted) by {
            hears_prefix(rs, log1, log2);
            assert(rs[log1.len() as int] == log2[log1.len() as int].1);
        }
        assert(log0 =~= log2.subrange(0, log0.len() as int));
    }
    match counted {
        Err(e) => Err(e),
        Ok(seq) => {
            let r = release(rt, batch, seq, consent.nonce.as_str());
            proof {
                assert forall|rs: Seq<Reply>| #[trigger] hears(rs, rt.log()) implies hears(
                    rs,
                    log2,
                ) by {
                    hears_prefix(rs, log2, rt.log());
                }
                assert(log0 =~= rt.log().subrange(0, log0.len() as int));
            }
            if r.is_ok() {
                run.state = RunState::Done;
            }
            r
        },
    }
}

/// A run is approved once: after an approval that came to an end, every further one is refused,
/// whatever consent is offered, and asks the host nothing.
pub proof fn approved_once(
    run_id: Seq<char>,
    run: RunRecord,
    settled: RunRecord,
    first: Result<ApprovalEnd, KernelError>,
    now: u64,
    consent: &ConsentRecord,
    key: Seq<u8>,
    batch: Seq<Buffered>,
    used: (Set<Seq<char>>, Set<Seq<char>>),
    logs: (Seq<(Ask, Reply)>, Seq<(Ask, Reply)>),
    second: Result<ApprovalEnd, KernelError>,
)
    requires
        first is Ok,
        settled_by(run, settled, first),
        approval_answer(run_id, &settled, now, consent, key, batch, used, logs, second),
    ensures
        second is Err,
        logs.1 == logs.0,
        used.1 == used.0,
{
}

/// The verbs that a conversation put to the broker, in order.
pub open spec fn invoked(asks: Seq<Ask>) -> Seq<(Seq<char>, Value)>
    decreases asks.len(),
{
    if asks.len() == 0 {
        Seq::empty()
    } else {
        let before = invoked(asks.drop_last());
        match asks.last() {
            Ask::Invoke { verb, args } => before.push((verb, args)),
            _ => before,
        }
    }
}

/// The verbs of a batch, in order.
pub open spec fn batch_calls(batch: Seq<Buffered>) -> Seq<(Seq<char>, Value)> {
    Seq::new(batch.len(), |i: int| (batch[i].verb@, batch[i].args@))
}

/// A batch is released in its order and nothing in it twice: what a release puts to the broker is
/// a beginning of the batch, the whole of it when it ends well, and one effect more than were
/// performed when one fails.
pub proof fn release_is_in_order(
    batch: Seq<Buffered>,
    done: nat,
    seq: u64,
    nonce: Seq<char>,
    asks: Seq<Ask>,
    rs: Seq<Reply>,
)
    ensures
        ({
            let out = release_out(batch, done, seq, nonce, asks, rs);
            &&& exists|n: int|
                0 <= n <= batch.len() && invoked(out.0) == invoked(asks) + #[trigger] batch_calls(
                    batch,
                ).take(n)
            &&& out.1 matches Released::Through(n) ==> n == done + batch.len() && invoked(out.0)
                == invoked(asks) + batch_calls(batch)
            &&& out.1 matches Released::Failed(n, _) ==> done <= n < done + batch.len()
                && invoked(out.0) == invoked(asks) + batch_calls(batch).take(n - done + 1)
        }),
    decreases batch.len(),
{
    let out = release_out(batch, done, seq, nonce, asks, rs);
    let calls = batch_calls(batch);
    if batch.len() == 0 {
        assert(invoked(asks) + calls.take(0) =~= invoked(asks));
        assert(calls.take(0) =~= calls);
    } else {
        let item = batch[0];
        let call = (item.verb@, item.args@);
        let a1 = asks.push(Ask::Invoke { verb: item.verb@, args: item.args@ });
        assert(a1.drop_last() =~= asks);
        assert(invoked(a1) =~= invoked(asks).push(call));
        assert(calls.take(1) =~= seq![call]);
        assert(invoked(asks) + calls.take(1) =~= invoked(a1));
        let next = sat(seq + 1);
        let a2 = then_ask(
            a1,
            HostAsk::Log { seq: next, verb: item.verb@, target: item.target@, nonce },
        );
        let a3 = then_ask(a2, HostAsk::Mark { seq: item.seq, state: BufferState::Inserted });
        let a4 = then_ask(a3, HostAsk::Emit(effect_event(item.verb@, item.target@, None)));
        assert(a2.drop_last() =~= a1);
        assert(a3.drop_last() =~= a2);
        assert(a4.drop_last() =~= a3);
        assert(invoked(a2) == invoked(a1));
        assert(invoked(a3) == invoked(a2));
        assert(invoked(a4) == invoked(a3));
        if rs[asks.len() as int] is Got && done_of(rs[a1.len() as int]) && done_of(
            rs[a2.len() as int],
        ) {
            let rest = batch.drop_first();
            release_is_in_order(rest, done + 1, next, nonce, a4, rs);
            let n = choose|n: int|
                0 <= n <= rest.len() && invoked(out.0) == invoked(a4) + #[trigger] batch_calls(
                    rest,
                ).take(n);
            assert(batch_calls(rest) =~= calls.drop_first());
            assert(invoked(a4) + batch_calls(rest).take(n) =~= invoked(asks) + calls.take(n + 1));
            if out.1 is Through {
                assert(invoked(a4) + batch_calls(rest) =~= invoked(asks) + calls);
            }
            if out.1 is Failed {
                let k = out.1->Failed_0 - (done + 1) + 1;
                assert(invoked(a4) + batch_calls(rest).take(k) =~= invoked(asks) + calls.take(
                    k + 1,
                ));
            }
        }
    }
}

/// The places in the buffer that a conversation marked as performed, in order.
pub open spec fn inserted(asks: Seq<Ask>) -> Seq<u64>
    decreases asks.len(),
{
    if asks.len() == 0 {
        Seq::empty()
    } else {
        let before = inserted(asks.drop_last());
        match asks.last() {
            Ask::Host(HostAsk::Mark { seq, state: BufferState::Inserted }) => before.push(seq),
            _ => before,
        }
    }
}

/// The places of a batch, in order.
pub open spec fn batch_places(batch: Seq<Buffered>) -> Seq<u64> {
    Seq::new(batch.len(), |i: int| batch[i].seq)
}

proof fn release_marks(
    batch: Seq<Buffered>,
    done: nat,
    seq: u64,
    nonce: Seq<char>,
    asks: Seq<Ask>,
    rs: Seq<Reply>,
)
    ensures
        ({
            let out = release_out(batch, done, seq, nonce, asks, rs);
            out.1 is Through ==> inserted(out.0) == inserted(asks) + batch_places(batch)
        }),
    decreases batch.len(),
{
    let places = batch_places(batch);
    if batch.len() == 0 {
        assert(inserted(asks) + places =~= inserted(asks));
    } else {
        let item = batch[0];
        let a1 = asks.push(Ask::Invoke { verb: item.verb@, args: item.args@ });
        let next = sat(seq + 1);
        let a2 = then_ask(
            a1,
            HostAsk::Log { seq: next, verb: item.verb@, target: item.target@, nonce },
        );
        let a3 = then_ask(a2, HostAsk::Mark { seq: item.seq, state: BufferState::Inserted });
        let a4 = then_ask(a3, HostAsk::Emit(effect_event(item.verb@, item.target@, None)));
        assert(a1.drop_last() =~= asks);
        assert(a2.drop_last() =~= a1);
        assert(a3.drop_last() =~= a2);
        assert(a4.drop_last() =~= a3);
        assert(inserted(a1) == inserted(asks));
        assert(inserted(a2) == inserted(a1));
        assert(inserted(a3) == inserted(a2).push(item.seq));
        assert(inserted(a4) == inserted(a3));
        if rs[asks.len() as int] is Got && done_of(rs[a1.len() as int]) && done_of(
            rs[a2.len() as int],
        ) {
            let rest = batch.drop_first();
            release_marks(rest, done + 1, next, nonce, a4, rs);
            assert(places =~= seq![item.seq] + batch_places(rest));
            assert(inserted(a4) + batch_places(rest) =~= inserted(asks) + places);
        }
    }
}

proof fn minting_is_quiet(orders: Seq<Order>, asks: Seq<Ask>, rs: Seq<Reply>)
    ensures
        invoked(mint_each_out(orders, asks, rs).0) == invoked(asks),
        inserted(mint_each_out(orders, asks, rs).0) == inserted(asks),
    decreases orders.len(),
{
    if orders.len() > 0 {
        let a1 = then_ask(asks, HostAsk::Mint(orders[0]));
        assert(a1.drop_last() =~= asks);
        assert(invoked(a1) == invoked(asks));
        assert(inserted(a1) == inserted(asks));
        minting_is_quiet(orders.drop_first(), a1, rs);
    }
}

/// What an approval puts to the broker is a beginning of the batch, in its order and nothing twice:
/// nothing where it is refused or its budget is short, and the whole batch, every item of it
/// marked as performed, where it ends well.
pub proof fn approval_is_in_order(
    run_id: Seq<char>,
    run: &RunRecord,
    now: u64,
    consent: &ConsentRecord,
    key: Seq<u8>,
    batch: Seq<Buffered>,
    used: (Set<Seq<char>>, Set<Seq<char>>),
    logs: (Seq<(Ask, Reply)>, Seq<(Ask, Reply)>),
    r: Result<ApprovalEnd, KernelError>,
)
    requires
        approval_answer(run_id, run, now, consent, key, batch, used, logs, r),
    ensures
        exists|n: int|
            0 <= n <= batch.len() && invoked(questions(logs.1)) == invoked(questions(logs.0))
                + #[trigger] batch_calls(batch).take(n),
        approval_refused(run_id, run, now, consent, key, used.0) is Some || (exists|v: Seq<char>|
            #[trigger] excess(batch_need(batch), consent.budget@, v)) ==> logs.1 == logs.0
            && r is Err,
        r matches Ok(ApprovalEnd::Commit { released }) ==> {
            &&& released == batch.len()
            &&& invoked(questions(logs.1)) == invoked(questions(logs.0)) + batch_calls(batch)
            &&& inserted(questions(logs.1)) == inserted(questions(logs.0)) + batch_places(batch)
        },
{
    let before = questions(logs.0);
    let calls = batch_calls(batch);
    assert(invoked(before) + calls.take(0) =~= invoked(before));
    let refused = approval_refused(run_id, run, now, consent, key, used.0) is Some;
    let short = exists|v: Seq<char>| #[trigger] excess(batch_need(batch), consent.budget@, v);
    if !refused && !short {
        let rs = Seq::new(logs.1.len(), |i: int| logs.1[i].1);
        assert(hears(rs, logs.1));
        let orders = orders_for(
            listing_of(pools_of(counted_verbs(batch_need(batch)))),
            sat(consent.issued_at + consent.ttl_secs),
        );
        let m = mint_each_out(orders, before, rs);
        minting_is_quiet(orders, before, rs);
        if m.1 is None {
            let a1 = then_ask(m.0, HostAsk::Emissions);
            assert(a1.drop_last() =~= m.0);
            assert(invoked(a1) == invoked(before));
            assert(inserted(a1) == inserted(before));
            if let Reply::Host(HostReply::Number(n)) = rs[m.0.len() as int] {
                release_is_in_order(batch, 0, n, consent.nonce@, a1, rs);
                release_marks(batch, 0, n, consent.nonce@, a1, rs);
            }
        }
    }
}

} // verus!

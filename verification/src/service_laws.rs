//! What consents bind, and what the service of plans does with runs that wait.

use crate::consent::{budget_lines, consent_fault, due_mac, ConsentRecord};
use crate::error::Refusal;
use crate::artifact::address;
use crate::interp::{excess, first_over, left, may_run, over};
use crate::plan::Plan;
use crate::plan_approval::{release_out, settled_by, Released};
use crate::plan_demand::{grant_covers, stmts_reach};
use crate::plan_lifecycle::{lost_runs, outlived, resume_refused, to_settle, RunEntry};
use crate::plan_service::{
    approval_refused, batch_cost, batch_names, batch_need, consent_refused, missing_verbs,
    submit_accepted, submit_refused, RunRecord,
};
use crate::plan_types::{
    after_steps, buffer_name, end_name, BufferState, Buffered, End, RunSignal, RunState, Step,
};
use crate::plancheck::{
    admission_fault, listed_tags, sat, stmts_demand, stmts_name, VerbSchemas,
};
use crate::text::decimal;
use vstd::prelude::*;

verus! {

/// A consent holds exactly while its signature is the one that is due and its term lasts: from
/// its issue on for as many seconds as it says, the last one among them. A wrong signature is told
/// before an end, and an end is final.
pub proof fn a_consent_holds_for_its_term(c: &ConsentRecord, key: Seq<u8>, now: u64, later: u64)
    ensures
        consent_fault(c, key, now) is None <==> c.mac@ == due_mac(c, key) && now <= c.issued_at
            + c.ttl_secs,
        c.mac@ != due_mac(c, key) ==> consent_fault(c, key, now) == Some(
            Refusal::Denied("consent MAC mismatch"@),
        ),
        c.mac@ == due_mac(c, key) && consent_fault(c, key, now) is Some ==> consent_fault(
            c,
            key,
            now,
        ) == Some(Refusal::Denied("consent expired"@)) && now - c.issued_at > c.ttl_secs,
        now <= later && consent_fault(c, key, now) is Some ==> consent_fault(c, key, later) is Some,
        now <= later && consent_fault(c, key, later) is None ==> consent_fault(c, key, now) is None,
{
}

/// A consent is accepted exactly when it holds now, is for that very plan, and its nonce was never
/// used.
pub proof fn what_a_consent_must_be(
    c: &ConsentRecord,
    key: Seq<u8>,
    plan_hash: Seq<char>,
    now: u64,
    used: Set<Seq<char>>,
)
    ensures
        consent_refused(c, key, plan_hash, now, used) is None <==> {
            &&& c.mac@ == due_mac(c, key)
            &&& now <= c.issued_at + c.ttl_secs
            &&& c.plan_hash@ == plan_hash
            &&& !used.contains(c.nonce@)
        },
{
}

/// A run is resumed exactly when it is paused, and approved exactly when it awaits approval; in
/// both cases only while the consent that it was started with lasts, and only by a consent that
/// is accepted for its own plan.
pub proof fn who_may_go_on(
    run_id: Seq<char>,
    run: &RunRecord,
    now: u64,
    c: &ConsentRecord,
    key: Seq<u8>,
    used: Set<Seq<char>>,
)
    ensures
        resume_refused(run_id, run, now, c, key, used) is None <==> run.state == RunState::Paused
            && now <= run.original_ttl_at && c.mac@ == due_mac(c, key) && now <= c.issued_at
            + c.ttl_secs && c.plan_hash@ == run.plan_hash@ && !used.contains(c.nonce@),
        approval_refused(run_id, run, now, c, key, used) is None <==> run.state
            == RunState::AwaitingApproval && now <= run.original_ttl_at && c.mac@ == due_mac(
            c,
            key,
        ) && now <= c.issued_at + c.ttl_secs && c.plan_hash@ == run.plan_hash@ && !used.contains(
            c.nonce@,
        ),
        resume_refused(run_id, run, now, c, key, used) is Some || approval_refused(
            run_id,
            run,
            now,
            c,
            key,
            used,
        ) is Some,
{
}

/// A run outlives its consent only while it waits, and only after the end of that consent.
pub proof fn only_the_waiting_outlive(run: RunRecord, now: u64)
    ensures
        outlived(run, now) ==> now > run.original_ttl_at && run.original_ttl_at > 0,
        outlived(run, now) ==> run.state == RunState::AwaitingApproval || run.state
            == RunState::Paused,
        run.state == RunState::Running || run.state == RunState::Done || run.state
            == RunState::Admitted ==> !outlived(run, now),
        now <= run.original_ttl_at ==> !outlived(run, now),
{
}

/// The runs that are to be settled are those that await approval past the end of their consent,
/// each of them, in order, and no other.
pub proof fn the_settled_awaited_too_long(runs: Seq<RunEntry>, now: u64, id: Seq<char>)
    ensures
        to_settle(runs, now).contains(id) <==> exists|i: int|
            0 <= i < runs.len() && (#[trigger] runs[i]).run_id@ == id && runs[i].record.state
                == RunState::AwaitingApproval && 0 < runs[i].record.original_ttl_at < now,
        to_settle(runs, now).len() <= runs.len(),
    decreases runs.len(),
{
    if runs.len() > 0 {
        let init = runs.drop_last();
        the_settled_awaited_too_long(init, now, id);
        let last = runs.last();
        let n = runs.len() - 1;
        assert(runs[n] == last);
        assert(forall|i: int| 0 <= i < n ==> #[trigger] runs[i] == init[i]);
        let before = to_settle(init, now);
        in_push(before, last.run_id@, id);
        if exists|i: int|
            0 <= i < init.len() && (#[trigger] init[i]).run_id@ == id && init[i].record.state
                == RunState::AwaitingApproval && 0 < init[i].record.original_ttl_at < now {
            let i = choose|i: int|
                0 <= i < init.len() && (#[trigger] init[i]).run_id@ == id && init[i].record.state
                    == RunState::AwaitingApproval && 0 < init[i].record.original_ttl_at < now;
            assert(runs[i].run_id@ == id);
        }
    }
}

proof fn in_push<T>(s: Seq<T>, x: T, y: T)
    ensures
        s.push(x).contains(y) <==> s.contains(y) || x == y,
{
    if s.contains(y) {
        let i = s.index_of(y);
        assert(s.push(x)[i] == y);
    }
    if s.push(x).contains(y) {
        let i = s.push(x).index_of(y);
        if i < s.len() {
            assert(s[i] == y);
        }
    }
    assert(s.push(x)[s.len() as int] == x);
}

/// The runs that a restart lost are those that were running or paused, each of them, and no other.
pub proof fn the_lost_were_under_way(rows: Seq<(String, RunState)>, id: Seq<char>)
    ensures
        lost_runs(rows).contains(id) <==> exists|i: int|
            0 <= i < rows.len() && (#[trigger] rows[i]).0@ == id && (rows[i].1 == RunState::Running
                || rows[i].1 == RunState::Paused),
    decreases rows.len(),
{
    if rows.len() > 0 {
        let init = rows.drop_last();
        the_lost_were_under_way(init, id);
        let n = rows.len() - 1;
        assert(rows[n] == rows.last());
        assert(forall|i: int| 0 <= i < n ==> #[trigger] rows[i] == init[i]);
        in_push(lost_runs(init), rows.last().0@, id);
        if exists|i: int|
            0 <= i < init.len() && (#[trigger] init[i]).0@ == id && (init[i].1 == RunState::Running
                || init[i].1 == RunState::Paused) {
            let i = choose|i: int|
                0 <= i < init.len() && (#[trigger] init[i]).0@ == id && (init[i].1
                    == RunState::Running || init[i].1 == RunState::Paused);
            assert(rows[i].0@ == id);
        }
    }
}

/// What a batch of withheld effects needs of a verb is the sum of the costs of its effects: nothing
/// of a verb that it does not name, and the sum over two batches is the sum of the sums.
pub proof fn a_batch_needs_the_sum(a: Seq<Buffered>, b: Seq<Buffered>, verb: Seq<char>)
    ensures
        batch_cost(a + b, verb) == batch_cost(a, verb) + batch_cost(b, verb),
        !batch_names(a, verb) ==> batch_cost(a, verb) == 0,
        batch_need(a).contains_key(verb) <==> exists|i: int|
            0 <= i < a.len() && (#[trigger] a[i]).verb@ == verb,
        batch_need(a).contains_key(verb) ==> batch_need(a)[verb] == sat(
            batch_cost(a, verb) as int,
        ),
        forall|x: Buffered|
            batch_cost(seq![x], verb) == if (#[trigger] x.verb)@ == verb {
                x.cost as nat
            } else {
                0nat
            },
    decreases b.len(),
{
    costs_sum(a, b, verb);
    unnamed_costs_nothing(a, verb);
    assert forall|x: Buffered|
        batch_cost(seq![x], verb) == if (#[trigger] x.verb)@ == verb {
            x.cost as nat
        } else {
            0nat
        } by {
        assert(seq![x].drop_last() =~= Seq::<Buffered>::empty());
        assert(batch_cost(seq![x].drop_last(), verb) == 0);
        assert(seq![x].last() == x);
    }
}

proof fn costs_sum(a: Seq<Buffered>, b: Seq<Buffered>, verb: Seq<char>)
    ensures
        batch_cost(a + b, verb) == batch_cost(a, verb) + batch_cost(b, verb),
    decreases b.len(),
{
    if b.len() == 0 {
        assert(a + b =~= a);
    } else {
        costs_sum(a, b.drop_last(), verb);
        assert((a + b).drop_last() =~= a + b.drop_last());
        assert((a + b).last() == b.last());
    }
}

proof fn unnamed_costs_nothing(a: Seq<Buffered>, verb: Seq<char>)
    ensures
        !batch_names(a, verb) ==> batch_cost(a, verb) == 0,
    decreases a.len(),
{
    if a.len() > 0 && !batch_names(a, verb) {
        let init = a.drop_last();
        if batch_names(init, verb) {
            let i = choose|i: int| 0 <= i < init.len() && (#[trigger] init[i]).verb@ == verb;
            assert(a[i].verb@ == verb);
        }
        unnamed_costs_nothing(init, verb);
        assert(a[a.len() - 1].verb@ != verb);
    }
}

/// A budget falls short of a verb exactly when more of it is asked for than was granted, where a
/// verb that is not granted counts as none; the first one that a plan exceeds is the smallest of
/// those.
pub proof fn budgets_fall_short(
    asked: Map<Seq<char>, u64>,
    granted: Map<Seq<char>, u64>,
    plan: &Plan,
    v: Seq<char>,
)
    ensures
        granted.contains_key(v) ==> (excess(asked, granted, v) <==> asked.contains_key(v)
            && asked[v] > granted[v]),
        !granted.contains_key(v) ==> (excess(asked, granted, v) <==> asked.contains_key(v)
            && asked[v] > 0),
        over(plan, granted, v) ==> stmts_demand(plan.stmts@, v) > 0 && (granted.contains_key(v)
            ==> stmts_demand(plan.stmts@, v) > granted[v]),
        !over(plan, granted, v) && stmts_name(plan.stmts@, v) ==> stmts_demand(plan.stmts@, v)
            <= left(granted, v),
        first_over(plan, granted, v) ==> over(plan, granted, v),
{
}

/// A batch is released in order, one effect after the other, up to the first that fails: the number
/// that is told counts those that were released before, and all were exactly when it says so.
pub proof fn a_release_counts(
    batch: Seq<Buffered>,
    done: nat,
    seq: u64,
    nonce: Seq<char>,
    asks: Seq<crate::eval::Ask>,
    rs: Seq<crate::eval::Reply>,
)
    ensures
        match release_out(batch, done, seq, nonce, asks, rs).1 {
            Released::Through(n) => n == done + batch.len(),
            Released::Failed(n, _) => done <= n < done + batch.len(),
            Released::Broken(_) => batch.len() > 0,
        },
        asks.is_prefix_of(release_out(batch, done, seq, nonce, asks, rs).0),
    decreases batch.len(),
{
    if batch.len() > 0 {
        let item = batch[0];
        let out = release_out(batch, done, seq, nonce, asks, rs);
        let a1 = asks.push(crate::eval::Ask::Invoke { verb: item.verb@, args: item.args@ });
        if rs[asks.len() as int] is Got {
            let next = sat(seq + 1);
            let a2 = crate::plan_approval::then_ask(
                a1,
                crate::plan_runtime::HostAsk::Log {
                    seq: next,
                    verb: item.verb@,
                    target: item.target@,
                    nonce,
                },
            );
            let a3 = crate::plan_approval::then_ask(
                a2,
                crate::plan_runtime::HostAsk::Mark {
                    seq: item.seq,
                    state: BufferState::Inserted,
                },
            );
            let a4 = crate::plan_approval::then_ask(
                a3,
                crate::plan_runtime::HostAsk::Emit(
                    crate::plan_interp::effect_event(item.verb@, item.target@, None),
                ),
            );
            a_release_counts(batch.drop_first(), done + 1, next, nonce, a4, rs);
            assert(asks.is_prefix_of(a4));
            let deep = release_out(batch.drop_first(), done + 1, next, nonce, a4, rs).0;
            assert forall|i: int| 0 <= i < asks.len() implies asks[i] == deep[i] by {
                assert(a4[i] == deep[i]);
            }
        }
    }
}

/// An approval that went through makes a run done, a refused one leaves it as it was, and nothing
/// else of the run changes.
pub proof fn an_approval_settles_the_run(
    before: RunRecord,
    after: RunRecord,
    r: Result<crate::plan_approval::ApprovalEnd, crate::error::KernelError>,
)
    requires
        settled_by(before, after, r),
    ensures
        r is Ok ==> after.state == RunState::Done,
        r is Err ==> after.state == before.state,
        after.plan_hash == before.plan_hash,
        after.fiber == before.fiber,
        after.nonce == before.nonce,
        after.original_ttl_at == before.original_ttl_at,
{
}

/// The signals of a run: the last consent counts until there is an abort, and of several aborts the
/// last one.
pub proof fn signals_are_kept(s: Option<RunSignal>, steps: Seq<Step>, last: Step)
    ensures
        steps.len() == 0 ==> after_steps(s, steps) == s,
        last matches Step::Abort(expired) ==> after_steps(s, steps.push(last)) == Some(
            RunSignal::Abort { expired },
        ),
        last matches Step::Resume(c) ==> {
            let was = after_steps(s, steps);
            &&& was is None ==> after_steps(s, steps.push(last)) == Some(RunSignal::Resume(c))
            &&& was matches Some(RunSignal::Resume(_)) ==> after_steps(s, steps.push(last)) == Some(
                RunSignal::Resume(c),
            )
            &&& was matches Some(RunSignal::Abort { .. }) ==> after_steps(s, steps.push(last))
                == was
        },
{
    assert(steps.push(last).drop_last() =~= steps);
}

/// No two kinds of ends, and no two states of a withheld effect, have the same name.
pub proof fn names_tell_apart(a: End, b: End, x: BufferState, y: BufferState)
    ensures
        end_name(a) == end_name(b) ==> (a is Completed == b is Completed) && (a is FailStop
            == b is FailStop) && (a is Truncated == b is Truncated) && (a is Aborted
            == b is Aborted),
        buffer_name(x) == buffer_name(y) ==> x == y,
{
    reveal_strlit("Completed");
    reveal_strlit("FailStop");
    reveal_strlit("Truncated");
    reveal_strlit("Aborted");
    reveal_strlit("held");
    reveal_strlit("inserted");
    reveal_strlit("aborted");
    assert("Completed"@[0] != "Truncated"@[0]);
    assert("Completed"@.len() == 9 && "FailStop"@.len() == 8 && "Truncated"@.len() == 9
        && "Aborted"@.len() == 7);
    assert("held"@.len() != "inserted"@.len());
    assert("inserted"@[0] != "aborted"@[0]);
}

/// Whether a text holds a line about a verb and its number.
pub open spec fn has_line(s: Seq<char>, verb: Seq<char>, n: u64) -> bool {
    exists|before: Seq<char>, after: Seq<char>|
        s == #[trigger] (before + ("  - "@ + verb + " <= "@ + decimal(n as nat) + "\n"@) + after)
}

/// The text that a user consents to has a line for every verb of the budget, with its number.
pub proof fn every_budget_is_shown(pairs: Seq<(Seq<char>, u64)>, i: int)
    requires
        0 <= i < pairs.len(),
    ensures
        has_line(budget_lines(pairs), pairs[i].0, pairs[i].1),
    decreases pairs.len(),
{
    let init = pairs.drop_last();
    let last = pairs.last();
    let line = "  - "@ + last.0 + " <= "@ + decimal(last.1 as nat) + "\n"@;
    let none = Seq::<char>::empty();
    assert(budget_lines(pairs) =~= budget_lines(init) + line);
    if i == pairs.len() - 1 {
        assert(budget_lines(pairs) =~= budget_lines(init) + line + none);
    } else {
        every_budget_is_shown(init, i);
        let own = "  - "@ + pairs[i].0 + " <= "@ + decimal(pairs[i].1 as nat) + "\n"@;
        let (a, b) = choose|a: Seq<char>, b: Seq<char>|
            budget_lines(init) == #[trigger] (a + ("  - "@ + init[i].0 + " <= "@ + decimal(
                init[i].1 as nat,
            ) + "\n"@) + b);
        assert(budget_lines(pairs) =~= a + own + (b + line));
    }
}

/// A plan is run only under a consent that holds and is for the very bytes of the plan, only if it
/// is admitted, and only if it can demand of no verb more than the consent grants; and under such
/// a consent it is run.
pub proof fn what_may_run(
    plan_bytes: Seq<u8>,
    plan: Plan,
    consent: &ConsentRecord,
    key: Seq<u8>,
    now: u64,
    schemas: &VerbSchemas,
    v: Seq<char>,
)
    ensures
        may_run(plan_bytes, Ok(plan), consent, key, now, schemas) ==> {
            &&& consent.mac@ == due_mac(consent, key)
            &&& now <= consent.issued_at + consent.ttl_secs
            &&& consent.plan_hash@ == address(plan_bytes)
            &&& admission_fault(&plan, schemas) is None
            &&& stmts_demand(plan.stmts@, v) <= left(consent.budget@, v)
        },
        consent.mac@ == due_mac(consent, key) && now <= consent.issued_at + consent.ttl_secs
            && consent.plan_hash@ == address(plan_bytes) && admission_fault(&plan, schemas) is None
            && (forall|w: Seq<char>| #[trigger]
            stmts_demand(plan.stmts@, w) <= left(consent.budget@, w)) ==> may_run(
            plan_bytes,
            Ok(plan),
            consent,
            key,
            now,
            schemas,
        ),
{
    if may_run(plan_bytes, Ok(plan), consent, key, now, schemas) {
        assert(!over(&plan, consent.budget@, v));
        crate::plancheck::demand_within_steps(plan.stmts@, v);
    }
    if forall|w: Seq<char>| #[trigger]
        stmts_demand(plan.stmts@, w) <= left(consent.budget@, w) {
        assert forall|w: Seq<char>| !#[trigger] over(&plan, consent.budget@, w) by {
            assert(stmts_demand(plan.stmts@, w) <= left(consent.budget@, w));
        }
    }
}

/// A plan that is submitted is accepted only if it is admitted and, unless the user submits it,
/// every verb that it reaches is covered by a grant of the submitter; there is never a reason to
/// refuse what is accepted.
pub proof fn what_is_submitted(
    e: Refusal,
    subject: Seq<char>,
    plan: Plan,
    schemas: &VerbSchemas,
    caps: Seq<crate::cap::Capability>,
    v: Seq<char>,
)
    requires
        submit_accepted(subject, Ok(plan), schemas, caps),
    ensures
        admission_fault(&plan, schemas) is None,
        subject != "user"@ && stmts_reach(plan.stmts@, v) ==> exists|i: int|
            0 <= i < caps.len() && grant_covers((#[trigger] caps[i])@, v),
        !submit_refused(e, subject, Ok(plan), schemas, caps),
{
    if submit_refused(e, subject, Ok(plan), schemas, caps) {
        let missing = choose|missing: Seq<Seq<char>>|
            missing.len() > 0 && #[trigger] missing_verbs(missing, &plan, caps) && e
                == Refusal::Denied(
                "plan verbs outside the submitter's grants: ["@ + listed_tags(missing) + "]"@,
            );
        let w = missing[0];
        assert(missing.contains(w));
        assert(stmts_reach(plan.stmts@, w));
    }
}

} // verus!

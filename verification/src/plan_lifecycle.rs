//! How runs start, go on, and end: the registry of the runs of a process.

use crate::consent::{ConsentKey, ConsentRecord};
use crate::error::{KernelError, Refusal};
use crate::plan::Plan;
use crate::plan_demand::MintOrder;
use crate::plan_service::{
    approval_refused, check_and_consume_consent, consent_refused, ended_consent,
    lost_with_its_process, not_admitted, settles_without_interpreter, start_answer, start_orders,
    RunRecord,
};
use crate::plan_types::{after_step, state_name, RunControl, RunSignal, RunState, Step};
use crate::plancheck::{sat, VerbSchemas};
use crate::strmap::StrSet;
use crate::text::texts;
use vstd::prelude::*;

verus! {

/// A run of this process, with the signal that waits for its interpreter.
#[derive(Debug)]
pub struct RunEntry {
    pub run_id: String,
    pub record: RunRecord,
    pub control: RunControl,
}

/// Starts an admitted run under a consent, given what was read back of its plan. The nonce of a
/// good consent is used up even where the plan then does not run under it. Returns the grants
/// of the run.
pub fn start(
    run: &mut RunRecord,
    run_id: &str,
    consent: &ConsentRecord,
    key: &ConsentKey,
    now: u64,
    used: &mut StrSet,
    stored: Result<Result<Plan, String>, KernelError>,
    schemas: &VerbSchemas,
) -> (r: Result<Vec<MintOrder>, KernelError>)
    ensures
        final(run).plan_hash == old(run).plan_hash,
        final(run).fiber == old(run).fiber,
        if old(run).state != RunState::Admitted {
            &&& r matches Err(e) && e@ == not_admitted(run_id@, old(run).state)
            &&& *final(run) == *old(run)
            &&& final(used)@ == old(used)@
        } else {
            &&& final(run).state == RunState::Running
            &&& final(run).nonce@ == consent.nonce@
            &&& final(run).original_ttl_at == sat(consent.issued_at + consent.ttl_secs)
            &&& match consent_refused(consent, key@, old(run).plan_hash@, now, old(used)@) {
                Some(f) => r matches Err(e) && e@ == f && final(used)@ == old(used)@,
                None => {
                    &&& final(used)@ == old(used)@.insert(consent.nonce@)
                    &&& match stored {
                        Err(e) => r == Err::<Vec<MintOrder>, KernelError>(e),
                        Ok(parsed) => start_answer(r, consent, parsed, schemas),
                    }
                },
            }
        },
{
    match run.begin(run_id, consent) {
        Err(e) => {
            return Err(e);
        },
        Ok(_) => {},
    }
    match check_and_consume_consent(consent, key, run.plan_hash.as_str(), now, used) {
        Err(e) => {
            return Err(e);
        },
        Ok(_) => {},
    }
    match stored {
        Err(e) => Err(e),
        Ok(parsed) => start_orders(consent, &parsed, schemas),
    }
}

/// Why a suspended run is not resumed, if so.
pub open spec fn resume_refused(
    run_id: Seq<char>,
    run: &RunRecord,
    now: u64,
    consent: &ConsentRecord,
    key: Seq<u8>,
    used: Set<Seq<char>>,
) -> Option<Refusal> {
    if run.state != RunState::Paused {
        Some(
            Refusal::Denied(
                "plan run "@ + run_id + " is "@ + state_name(run.state) + ", not paused"@,
            ),
        )
    } else if now > run.original_ttl_at {
        Some(ended_consent())
    } else {
        consent_refused(consent, key, run.plan_hash@, now, used)
    }
}

/// Resumes a suspended run with a fresh consent, which its interpreter finds when it wakes.
pub fn resume(
    entry: &mut RunEntry,
    now: u64,
    consent: ConsentRecord,
    key: &ConsentKey,
    used: &mut StrSet,
) -> (r: Result<(), KernelError>)
    ensures
        final(entry).run_id == old(entry).run_id,
        final(entry).record == old(entry).record,
        match resume_refused(
            old(entry).run_id@,
            &old(entry).record,
            now,
            &consent,
            key@,
            old(used)@,
        ) {
            Some(f) => {
                &&& r matches Err(e) && e@ == f
                &&& final(entry).control == old(entry).control
                &&& final(used)@ == old(used)@
            },
            None => {
                &&& r is Ok
                &&& final(used)@ == old(used)@.insert(consent.nonce@)
                &&& final(entry).control.signal == after_step(
                    old(entry).control.signal,
                    Step::Resume(consent),
                )
            },
        },
{
    match entry.record.may_resume(entry.run_id.as_str(), now) {
        Err(e) => {
            return Err(e);
        },
        Ok(_) => {},
    }
    match check_and_consume_consent(&consent, key, entry.record.plan_hash.as_str(), now, used) {
        Err(e) => {
            return Err(e);
        },
        Ok(_) => {},
    }
    entry.control.resume(consent);
    Ok(())
}

/// Whether a run is suspended and has outlived the consent that it was started with.
pub open spec fn outlived(run: RunRecord, now: u64) -> bool {
    &&& run.state == RunState::AwaitingApproval || run.state == RunState::Paused
    &&& 0 < run.original_ttl_at < now
}

/// The runs among the given that have outlived their consent and have no interpreter.
pub open spec fn to_settle(runs: Seq<RunEntry>, now: u64) -> Seq<Seq<char>>
    decreases runs.len(),
{
    if runs.len() == 0 {
        Seq::empty()
    } else {
        let before = to_settle(runs.drop_last(), now);
        let last = runs.last();
        if outlived(last.record, now) && last.record.state == RunState::AwaitingApproval {
            before.push(last.run_id@)
        } else {
            before
        }
    }
}

/// Aborts every suspended run that has outlived the consent that it was started with. Returns
/// those that nothing but the caller will settle, in order.
pub fn expire(runs: &mut Vec<RunEntry>, now: u64) -> (ids: Vec<String>)
    ensures
        texts(ids@) == to_settle(old(runs)@, now),
        final(runs)@.len() == old(runs)@.len(),
        forall|i: int| 0 <= i < old(runs)@.len() ==> {
            let was = old(runs)@[i];
            let is = #[trigger] final(runs)@[i];
            &&& is.run_id == was.run_id
            &&& is.record == was.record
            &&& is.control.signal == if outlived(was.record, now) {
                Some(RunSignal::Abort { expired: true })
            } else {
                was.control.signal
            }
        },
{
    let ghost all = runs@;
    let mut ids: Vec<String> = Vec::new();
    let mut i: usize = 0;
    assert(texts(ids@) =~= to_settle(all.take(0), now));
    while i < runs.len()
        invariant
            i <= runs@.len(),
            runs@.len() == all.len(),
            texts(ids@) == to_settle(all.take(i as int), now),
            forall|k: int| i <= k < all.len() ==> #[trigger] runs@[k] == all[k],
            forall|k: int| 0 <= k < i ==> {
                let was = all[k];
                let is = #[trigger] runs@[k];
                &&& is.run_id == was.run_id
                &&& is.record == was.record
                &&& is.control.signal == if outlived(was.record, now) {
                    Some(RunSignal::Abort { expired: true })
                } else {
                    was.control.signal
                }
            },
        decreases runs.len() - i,
    {
        let ghost ids0 = ids@;
        if runs[i].record.expires(now) {
            if settles_without_interpreter(runs[i].record.state) {
                ids.push(runs[i].run_id.clone());
            }
            runs[i].control.abort(true);
        }
        proof {
            let q = all.take(i + 1);
            assert(q.drop_last() =~= all.take(i as int));
            assert(q.last() == all[i as int]);
            if ids@.len() > ids0.len() {
                assert(texts(ids@) =~= texts(ids0).push(all[i as int].run_id@));
            }
        }
        i = i + 1;
    }
    assert(all.take(i as int) =~= all);
    ids
}

/// The runs among the given that ended with the process that ran them.
pub open spec fn lost_runs(rows: Seq<(String, RunState)>) -> Seq<Seq<char>>
    decreases rows.len(),
{
    if rows.len() == 0 {
        Seq::empty()
    } else {
        let before = lost_runs(rows.drop_last());
        if rows.last().1 == RunState::Running || rows.last().1 == RunState::Paused {
            before.push(rows.last().0@)
        } else {
            before
        }
    }
}

/// The runs that an earlier process left behind and that are to be aborted now, in order.
pub fn recover(rows: &Vec<(String, RunState)>) -> (ids: Vec<String>)
    ensures
        texts(ids@) == lost_runs(rows@),
{
    let mut ids: Vec<String> = Vec::new();
    let mut i: usize = 0;
    assert(texts(ids@) =~= lost_runs(rows@.take(0)));
    while i < rows.len()
        invariant
            i <= rows@.len(),
            texts(ids@) == lost_runs(rows@.take(i as int)),
        decreases rows.len() - i,
    {
        let ghost ids0 = ids@;
        if lost_with_its_process(rows[i].1) {
            ids.push(rows[i].0.clone());
        }
        proof {
            let q = rows@.take(i + 1);
            assert(q.drop_last() =~= rows@.take(i as int));
            assert(q.last() == rows@[i as int]);
            if ids@.len() > ids0.len() {
                assert(texts(ids@) =~= texts(ids0).push(rows@[i as int].0@));
            }
        }
        i = i + 1;
    }
    assert(rows@.take(i as int) =~= rows@);
    ids
}

/// A consent is bound to its plan: it neither starts, nor resumes, nor approves a run of another.
pub proof fn consent_is_for_its_plan(
    run_id: Seq<char>,
    run: &RunRecord,
    now: u64,
    consent: &ConsentRecord,
    key: Seq<u8>,
    used: Set<Seq<char>>,
)
    requires
        consent.plan_hash@ != run.plan_hash@,
    ensures
        consent_refused(consent, key, run.plan_hash@, now, used) is Some,
        resume_refused(run_id, run, now, consent, key, used) is Some,
        approval_refused(run_id, run, now, consent, key, used) is Some,
{
}

/// The consent that a run was started with bounds every suspension of it: once it has ended, the
/// run is neither resumed nor approved, whatever consent is offered, and a suspended run expires.
pub proof fn suspension_is_bounded(
    run_id: Seq<char>,
    run: &RunRecord,
    now: u64,
    consent: &ConsentRecord,
    key: Seq<u8>,
    used: Set<Seq<char>>,
)
    requires
        0 < run.original_ttl_at < now,
    ensures
        resume_refused(run_id, run, now, consent, key, used) is Some,
        approval_refused(run_id, run, now, consent, key, used) is Some,
        run.state == RunState::Paused || run.state == RunState::AwaitingApproval ==> outlived(
            *run,
            now,
        ),
{
}

} // verus!

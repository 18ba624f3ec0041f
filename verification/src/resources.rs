//! The requests of plugins about holdings: what must be observed before a resource is held, whose
//! holding may be released or renewed, and what a release is answered.

use crate::cleanup::CleanupReport;
use crate::error::{joined_text, KernelError, Refusal};
use crate::json::{member, named_values, nat_of, no_members, number, put, Json, Num, Value};
use crate::records::{
    held_views, task_views, CleanupRecord, CleanupState, Held, HoldingRecord, Progress, Task,
};
use crate::recovery::{find_holding, holding_of};
use crate::substrate::{generation_of, process_generation, CLASS_FILE_LOCK, CLASS_PROCESS};
use crate::text::same;
use crate::wire::{
    release_in, renew_in, trouble_text, HoldRequest, HoldingRef, Ref, ReleaseRequest, RenewRequest,
};
use vstd::prelude::*;

verus! {

/// The subject of a plugin.
pub open spec fn plugin_subject(name: Seq<char>) -> Seq<char> {
    "plugin:"@ + name
}

/// The subject of a plugin.
pub fn subject_of(name: &str) -> (s: String)
    ensures
        s@ == plugin_subject(name@),
{
    joined_text("plugin:", name)
}

/// What must be observed before a resource is held.
#[derive(Debug, Clone, Copy, PartialEq, Eq, Structural)]
pub enum HoldStep {
    /// When the process of this number started.
    Process(u32),
    /// When the owner of a lock started, which is the process of this number.
    Owner(u32),
    Nothing,
}

/// The number of a process, if it is positive and fits.
pub open spec fn positive_pid(v: Option<Value>) -> Option<u32> {
    match v {
        Some(x) => match nat_of(x) {
            Some(n) => if 0 < n <= i32::MAX {
                Some(n as u32)
            } else {
                None
            },
            None => None,
        },
        None => None,
    }
}

fn read_pid(v: Option<&Json>) -> (r: Option<u32>)
    ensures
        r == positive_pid(
            match v {
                Some(x) => Some(x@),
                None => None,
            },
        ),
{
    match v {
        Some(x) => match x.as_u64() {
            Some(n) => if n > 0 && n <= 0x7fff_ffff {
                Some(n as u32)
            } else {
                None
            },
            None => None,
        },
        None => None,
    }
}

/// What must be observed before a resource is held, or why it cannot be held.
pub open spec fn hold_step(class: Seq<char>, instance: Seq<char>, substrate: Value) -> Result<
    HoldStep,
    Refusal,
> {
    if instance.len() == 0 {
        Err(Refusal::Denied("hold: instance required"@))
    } else if class == CLASS_PROCESS@ {
        match positive_pid(member(substrate, "pid"@)) {
            Some(pid) => Ok(HoldStep::Process(pid)),
            None => Err(Refusal::Denied("substrate pid must be a positive process ID"@)),
        }
    } else if class == CLASS_FILE_LOCK@ && member(substrate, "owner_pid"@) is Some {
        match positive_pid(member(substrate, "owner_pid"@)) {
            Some(pid) => Ok(HoldStep::Owner(pid)),
            None => Err(Refusal::Denied("substrate pid must be a positive process ID"@)),
        }
    } else {
        Ok(HoldStep::Nothing)
    }
}

/// What must be observed before a resource is held.
pub fn hold_start(request: &HoldRequest) -> (r: Result<HoldStep, KernelError>)
    ensures
        ({
            let out = hold_step(request.class@, request.instance@, request.substrate@);
            match r {
                Ok(s) => out == Ok::<HoldStep, Refusal>(s),
                Err(e) => out == Err::<HoldStep, Refusal>(e@),
            }
        }),
{
    if request.instance.as_str().unicode_len() == 0 {
        return Err(KernelError::Denied("hold: instance required".to_owned()));
    }
    if same(request.class.as_str(), CLASS_PROCESS) {
        match read_pid(request.substrate.get("pid")) {
            Some(pid) => Ok(HoldStep::Process(pid)),
            None => Err(
                KernelError::Denied("substrate pid must be a positive process ID".to_owned()),
            ),
        }
    } else if same(request.class.as_str(), CLASS_FILE_LOCK) && request.substrate.get(
        "owner_pid",
    ).is_some() {
        match read_pid(request.substrate.get("owner_pid")) {
            Some(pid) => Ok(HoldStep::Owner(pid)),
            None => Err(
                KernelError::Denied("substrate pid must be a positive process ID".to_owned()),
            ),
        }
    } else {
        Ok(HoldStep::Nothing)
    }
}

/// Members with one of them set: put in its place if it is there, and at the end otherwise.
pub open spec fn with_member(ms: Seq<(Seq<char>, Value)>, name: Seq<char>, v: Value) -> Seq<
    (Seq<char>, Value),
>
    decreases ms.len(),
{
    if ms.len() == 0 {
        seq![(name, v)]
    } else if ms[0].0 == name {
        seq![(name, v)] + ms.drop_first()
    } else {
        seq![ms[0]] + with_member(ms.drop_first(), name, v)
    }
}

/// An object with a member set; any other value stays as it is.
pub open spec fn set_in(j: Value, name: Seq<char>, v: Value) -> Value {
    match j {
        Value::Object(ms) => Value::Object(with_member(ms, name, v)),
        _ => j,
    }
}

fn set_member(j: Json, name: &str, n: u64) -> (r: Json)
    ensures
        r@ == set_in(j@, name@, Value::Number(Num::Nat(n))),
{
    match j {
        Json::Object(members) => {
            let ghost all = named_values(members@);
            let ghost v = Value::Number(Num::Nat(n));
            let mut ms: Vec<(String, Json)> = members;
            let mut i: usize = 0;
            assert(all.skip(0) =~= all);
            assert(all.take(0) + with_member(all, name@, v) =~= with_member(all, name@, v));
            while i < ms.len()
                invariant
                    i <= ms@.len(),
                    all == named_values(ms@),
                    all == named_values(members@),
                    j == Json::Object(members),
                    v == Value::Number(Num::Nat(n)),
                    with_member(all, name@, v) =~= all.take(i as int) + with_member(
                        all.skip(i as int),
                        name@,
                        v,
                    ),
                decreases ms.len() - i,
            {
                let ghost rest = all.skip(i as int);
                assert(rest[0] == (ms@[i as int].0@, ms@[i as int].1@));
                assert(rest.drop_first() =~= all.skip(i + 1));
                if same(ms[i].0.as_str(), name) {
                    ms[i].1 = number(n);
                    proof {
                        assert(named_values(ms@) =~= all.update(i as int, (name@, v)));
                        assert(all.update(i as int, (name@, v)) =~= all.take(i as int) + (seq![
                            (name@, v),
                        ] + rest.drop_first()));
                    }
                    let out = Json::Object(ms);
                    assert(out@ == Value::Object(named_values(ms@)));
                    assert(j@ == Value::Object(all));
                    return out;
                }
                proof {
                    assert(all.take(i as int) + (seq![rest[0]] + with_member(
                        rest.drop_first(),
                        name@,
                        v,
                    )) =~= all.take(i + 1) + with_member(all.skip(i + 1), name@, v));
                }
                i = i + 1;
            }
            assert(all.skip(i as int) =~= Seq::<(Seq<char>, Value)>::empty());
            assert(all.take(i as int) =~= all);
            put(&mut ms, name, number(n));
            assert(named_values(ms@) =~= all + seq![(name@, v)]);
            let out = Json::Object(ms);
            assert(out@ == Value::Object(named_values(ms@)));
            assert(j@ == Value::Object(all));
            out
        },
        other => other,
    }
}

/// A holding that is to be made.
pub struct HoldOrder {
    pub owner: String,
    pub class_id: String,
    pub instance: String,
    pub generation: String,
    pub parent: Option<u64>,
    pub lease_secs: Option<u64>,
    pub substrate: Json,
}

/// What is recorded of a process.
pub open spec fn process_substrate(pid: u32, start: u64) -> Value {
    Value::Object(
        seq![
            ("pid"@, Value::Number(Num::Nat(pid as u64))),
            ("start"@, Value::Number(Num::Nat(start))),
        ],
    )
}

/// What is recorded behind a holding, and its generation, once what had to be observed was: the
/// generation of a process names its incarnation, and any other is a fresh token.
pub open spec fn held_as(step: HoldStep, substrate: Value, start: Option<u64>, token: Seq<char>) -> (
    Value,
    Seq<char>,
) {
    match step {
        HoldStep::Process(pid) => (
            process_substrate(pid, start->0),
            generation_of(pid, start->0),
        ),
        HoldStep::Owner(pid) => (
            match start {
                Some(s) => set_in(substrate, "owner_start"@, Value::Number(Num::Nat(s))),
                None => substrate,
            },
            token,
        ),
        HoldStep::Nothing => (substrate, token),
    }
}

/// The holding that a plugin asks for, once what had to be observed was. A process that is not
/// there is refused; a lock whose owner is not there is held without its start.
pub fn op_hold(
    name: &str,
    request: HoldRequest,
    step: HoldStep,
    start: Option<u64>,
    token: String,
    parent: Option<u64>,
) -> (r: Result<HoldOrder, KernelError>)
    ensures
        match r {
            Ok(o) => {
                &&& !(step is Process && start is None)
                &&& o.owner@ == plugin_subject(name@)
                &&& o.class_id@ == request.class@
                &&& o.instance@ == request.instance@
                &&& o.parent == parent
                &&& o.lease_secs == request.lease_secs
                &&& (o.substrate@, o.generation@) == held_as(
                    step,
                    request.substrate@,
                    start,
                    token@,
                )
            },
            Err(e) => {
                &&& step is Process
                &&& start is None
                &&& e@ == Refusal::Denied("hold: process not found"@)
            },
        },
{
    let HoldRequest { class, instance, substrate, lease_secs } = request;
    let (made, generation): (Json, String) = match step {
        HoldStep::Process(pid) => match start {
            None => {
                return Err(KernelError::Denied("hold: process not found".to_owned()));
            },
            Some(s) => {
                let mut ms: Vec<(String, Json)> = no_members();
                put(&mut ms, "pid", number(pid as u64));
                put(&mut ms, "start", number(s));
                assert(named_values(ms@) =~= seq![
                    ("pid"@, Value::Number(Num::Nat(pid as u64))),
                    ("start"@, Value::Number(Num::Nat(s))),
                ]);
                let j = Json::Object(ms);
                assert(j@ == Value::Object(named_values(ms@)));
                (j, process_generation(pid, s))
            },
        },
        HoldStep::Owner(_) => match start {
            Some(s) => (set_member(substrate, "owner_start", s), token),
            None => (substrate, token),
        },
        HoldStep::Nothing => (substrate, token),
    };
    Ok(
        HoldOrder {
            owner: subject_of(name),
            class_id: class,
            instance,
            generation,
            parent,
            lease_secs,
            substrate: made,
        },
    )
}

/// Why a plugin may not do something with a holding: there is none, or it is not its own.
pub open spec fn owner_fault(
    op: Seq<char>,
    hs: Seq<Held>,
    id: u64,
    name: Seq<char>,
) -> Option<Refusal> {
    match holding_of(hs, id) {
        None => Some(Refusal::Denied(op + ": unknown holding"@)),
        Some(h) => if h.subject != plugin_subject(name) {
            Some(Refusal::Denied(op + ": not your holding"@))
        } else {
            None
        },
    }
}

/// Checks that a holding is a plugin's own.
pub fn check_owner(op: &str, holdings: &Vec<HoldingRecord>, id: u64, name: &str) -> (r: Result<
    (),
    KernelError,
>)
    ensures
        match r {
            Ok(_) => owner_fault(op@, held_views(holdings@), id, name@) is None,
            Err(e) => owner_fault(op@, held_views(holdings@), id, name@) == Some(e@),
        },
{
    match find_holding(holdings, id) {
        None => Err(KernelError::Denied(joined_text(op, ": unknown holding"))),
        Some(h) => if same(h.subject.as_str(), subject_of(name).as_str()) {
            Ok(())
        } else {
            Err(KernelError::Denied(joined_text(op, ": not your holding")))
        },
    }
}

/// The holding that a request names and that a plugin may release, or why it may not.
pub open spec fn own_holding(req: Value, hs: Seq<Held>, name: Seq<char>) -> Result<Ref, Refusal> {
    match release_in(req) {
        Err(t) => Err(Refusal::Denied("release request: "@ + trouble_text(t))),
        Ok(r) => match owner_fault("release"@, hs, r.id, name) {
            Some(e) => Err(e),
            None => Ok(r),
        },
    }
}

/// The holding that a plugin may release.
pub fn op_release(req: &Json, holdings: &Vec<HoldingRecord>, name: &str) -> (r: Result<
    HoldingRef,
    KernelError,
>)
    ensures
        ({
            let out = own_holding(req@, held_views(holdings@), name@);
            match r {
                Ok(h) => out == Ok::<Ref, Refusal>(h@),
                Err(e) => out == Err::<Ref, Refusal>(e@),
            }
        }),
{
    match ReleaseRequest::from_json(req) {
        Err(t) => Err(
            KernelError::Denied(joined_text("release request: ", t.message().as_str())),
        ),
        Ok(q) => match check_owner("release", holdings, q.holding.id, name) {
            Ok(_) => Ok(q.holding),
            Err(e) => Err(e),
        },
    }
}

/// What a release is answered: the holding is released, or what its first obligation waits for.
#[derive(Debug, PartialEq, Eq)]
pub enum ReleaseAnswer {
    Released,
    Pending { cleanup_id: u64 },
    Retryable { cleanup_id: u64, reason: String },
    Unknown { cleanup_id: u64, reason: String },
    Blocked { cleanup_id: u64, reason: String },
}

/// What a release is answered.
#[verifier::ext_equal]
pub enum Answer {
    Released,
    Pending(u64),
    Retryable(u64, Seq<char>),
    Unknown(u64, Seq<char>),
    Blocked(u64, Seq<char>),
}

impl View for ReleaseAnswer {
    type V = Answer;

    open spec fn view(&self) -> Answer {
        match self {
            ReleaseAnswer::Released => Answer::Released,
            ReleaseAnswer::Pending { cleanup_id } => Answer::Pending(*cleanup_id),
            ReleaseAnswer::Retryable { cleanup_id, reason } => Answer::Retryable(
                *cleanup_id,
                reason@,
            ),
            ReleaseAnswer::Unknown { cleanup_id, reason } => Answer::Unknown(*cleanup_id, reason@),
            ReleaseAnswer::Blocked { cleanup_id, reason } => Answer::Blocked(*cleanup_id, reason@),
        }
    }
}

/// What a release is answered, by the obligations that are left.
pub open spec fn answer_to(pending: Seq<Task>) -> Answer {
    if pending.len() == 0 {
        Answer::Released
    } else {
        match pending[0].state {
            Progress::Retryable(reason) => Answer::Retryable(pending[0].id, reason),
            Progress::Unknown(reason) => Answer::Unknown(pending[0].id, reason),
            Progress::Blocked(reason) => Answer::Blocked(pending[0].id, reason),
            _ => Answer::Pending(pending[0].id),
        }
    }
}

/// What a release is answered.
pub fn release_answer(report: &CleanupReport) -> (a: ReleaseAnswer)
    ensures
        a@ == answer_to(task_views(report.pending@)),
{
    let ghost ts = task_views(report.pending@);
    if report.pending.len() == 0 {
        return ReleaseAnswer::Released;
    }
    let t: &CleanupRecord = &report.pending[0];
    assert(ts[0] == t@);
    match &t.state {
        CleanupState::Retryable(reason) => ReleaseAnswer::Retryable {
            cleanup_id: t.id,
            reason: reason.clone(),
        },
        CleanupState::Unknown(reason) => ReleaseAnswer::Unknown {
            cleanup_id: t.id,
            reason: reason.clone(),
        },
        CleanupState::Blocked(reason) => ReleaseAnswer::Blocked {
            cleanup_id: t.id,
            reason: reason.clone(),
        },
        _ => ReleaseAnswer::Pending { cleanup_id: t.id },
    }
}

/// A release is answered as done only if nothing is left of it.
pub proof fn released_means_nothing_is_left(pending: Seq<Task>)
    ensures
        answer_to(pending) is Released <==> pending.len() == 0,
{
}

/// The holding that a plugin may renew, and for how long.
pub fn op_renew(req: &Json, holdings: &Vec<HoldingRecord>, name: &str) -> (r: Result<
    (HoldingRef, Option<u64>),
    KernelError,
>)
    ensures
        match renew_in(req@) {
            Err(t) => r is Err && r->Err_0@ == Refusal::Denied(
                "renew request: "@ + trouble_text(t),
            ),
            Ok((h, lease)) => match owner_fault("renew"@, held_views(holdings@), h.id, name@) {
                Some(e) => r is Err && r->Err_0@ == e,
                None => r is Ok && (r->Ok_0).0@ == h && (r->Ok_0).1 == lease,
            },
        },
{
    match RenewRequest::from_json(req) {
        Err(t) => Err(KernelError::Denied(joined_text("renew request: ", t.message().as_str()))),
        Ok(q) => match check_owner("renew", holdings, q.holding.id, name) {
            Ok(_) => Ok((q.holding, q.lease_secs)),
            Err(e) => Err(e),
        },
    }
}

} // verus!

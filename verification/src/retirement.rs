//! Retirement of holdings whose records are older than cleanup obligations. An old tombstone is no
//! receipt: what lacks evidence is kept as a blocked obligation, and only an observed absence
//! discharges a holding.

use crate::error::{KernelError, Refusal};
use crate::json::{member, nat_of, Json, Value};
use crate::records::{
    class_views, cleanup_key, corrupt, held_views, storage_fault, task_key, task_views, Class,
    ClassDecl, CleanupKind, CleanupPolicy, CleanupRecord, CleanupState, CleanupTarget, Completion,
    Held, HoldingRecord, HoldingState, Lease, Progress, Snapshot, Target, Task,
};
use crate::substrate::{generation_of, pid_in, port_of, port_target, process_generation};
use crate::text::{decimal, push_decimal, same};
use vstd::prelude::*;

verus! {

/// What is known of the thing behind an old holding: what was recorded of it, and whether it was
/// observed absent. The absence counts of locks, by their path, and of processes.
pub struct Evidence {
    pub detail: Option<Result<Json, String>>,
    pub absent: bool,
}

/// The process that an old record names.
pub open spec fn witness_in(v: Option<Value>) -> Option<(u32, u64)> {
    match v {
        None => None,
        Some(d) => match (pid_in(d, "pid"@), member(d, "start"@)) {
            (Some(pid), Some(raw)) => match nat_of(raw) {
                Some(start) => Some((pid, start)),
                None => None,
            },
            _ => None,
        },
    }
}

/// The process that an old record names: what must be observed.
pub fn legacy_witness(detail: &Json) -> (r: Option<(u32, u64)>)
    ensures
        r == witness_in(Some(detail@)),
{
    let pid: u32 = match detail.get("pid") {
        None => {
            return None;
        },
        Some(raw) => match raw.as_u64() {
            Some(n) => if n <= 0xffff_ffff {
                n as u32
            } else {
                return None;
            },
            None => {
                return None;
            },
        },
    };
    match detail.get("start") {
        None => None,
        Some(raw) => match raw.as_u64() {
            Some(start) => Some((pid, start)),
            None => None,
        },
    }
}

/// The policy of a class.
pub open spec fn policy_in(classes: Seq<Class>, id: Seq<char>) -> Option<CleanupPolicy>
    decreases classes.len(),
{
    if classes.len() == 0 {
        None
    } else if classes[0].class_id == id {
        Some(classes[0].cleanup)
    } else {
        policy_in(classes.drop_first(), id)
    }
}

/// The policy of a class.
pub fn policy_of(classes: &Vec<ClassDecl>, id: &str) -> (r: Option<CleanupPolicy>)
    ensures
        r == policy_in(class_views(classes@), id@),
{
    let ghost all = class_views(classes@);
    let mut i: usize = 0;
    assert(all.skip(0) =~= all);
    while i < classes.len()
        invariant
            i <= classes@.len(),
            all == class_views(classes@),
            policy_in(all.skip(i as int), id@) == policy_in(all, id@),
        decreases classes.len() - i,
    {
        let ghost rest = all.skip(i as int);
        assert(rest[0] == classes@[i as int]@);
        assert(rest.drop_first() =~= all.skip(i + 1));
        if same(classes[i].class_id.as_str(), id) {
            return Some(classes[i].cleanup);
        }
        i = i + 1;
    }
    None
}

/// Whether the thing behind a holding of a kind was observed absent, or why the record is refused.
pub open spec fn observed_absent(kind: CleanupKind, h: Held, e: Evidence) -> Result<bool, Refusal> {
    match e.detail {
        Some(Err(why)) => Err(
            storage_fault("legacy substrate "@ + decimal(h.id as nat) + ": "@ + why@),
        ),
        _ => match kind {
            CleanupKind::FileLock => Ok(e.absent),
            CleanupKind::Process => match witness_in(
                match e.detail {
                    Some(Ok(d)) => Some(d@),
                    _ => None,
                },
            ) {
                None => Err(
                    storage_fault(
                        "legacy process "@ + decimal(h.id as nat) + " has no valid witness"@,
                    ),
                ),
                Some((pid, start)) => if pid == 0 || pid > i32::MAX || start == 0 || h.generation
                    != generation_of(pid, start) {
                    Err(storage_fault("legacy process generation mismatch"@))
                } else {
                    Ok(e.absent)
                },
            },
            _ => Ok(false),
        },
    }
}

/// Whether the thing behind a holding of a kind was observed absent.
fn absence(kind: CleanupKind, h: &HoldingRecord, e: &Evidence) -> (r: Result<bool, KernelError>)
    ensures
        match r {
            Ok(b) => observed_absent(kind, h@, *e) == Ok::<bool, Refusal>(b),
            Err(x) => observed_absent(kind, h@, *e) == Err::<bool, Refusal>(x@),
        },
{
    if let Some(Err(why)) = &e.detail {
        let mut s: String = "legacy substrate ".to_owned();
        push_decimal(&mut s, h.id);
        s.append(": ");
        s.append(why.as_str());
        return Err(corrupt(s.as_str()));
    }
    match kind {
        CleanupKind::FileLock => Ok(e.absent),
        CleanupKind::Process => {
            let witness: Option<(u32, u64)> = match &e.detail {
                Some(Ok(d)) => legacy_witness(d),
                _ => None,
            };
            match witness {
                None => {
                    let mut s: String = "legacy process ".to_owned();
                    push_decimal(&mut s, h.id);
                    s.append(" has no valid witness");
                    Err(corrupt(s.as_str()))
                },
                Some((pid, start)) => {
                    let named: String = process_generation(pid, start);
                    if pid == 0 || pid > 0x7fff_ffff || start == 0 || !same(
                        h.generation.as_str(),
                        named.as_str(),
                    ) {
                        Err(corrupt("legacy process generation mismatch"))
                    } else {
                        Ok(e.absent)
                    }
                },
            }
        },
        _ => Ok(false),
    }
}

/// The target of an old holding. A port names itself; of other things the incarnation is not
/// known.
pub open spec fn legacy_target(kind: CleanupKind, instance: Seq<char>, absent: bool) -> Result<
    Target,
    Refusal,
> {
    if kind is Port {
        match port_of(instance) {
            Ok(p) => Ok(Target::Port { transport: p.0, port: p.1 }),
            Err(e) => Err(e),
        }
    } else {
        Ok(
            Target::Unresolved {
                kind,
                reason: if absent {
                    "legacy target was observed absent during migration"@
                } else {
                    "legacy record lacks a complete incarnation witness; external reconciliation required"@
                },
            },
        )
    }
}

/// A new obligation of a holding.
pub open spec fn new_task(h: Held, realm: Seq<char>, state: Progress, now: u64) -> Task {
    Task {
        id: h.id,
        key: task_key(realm, h.id),
        holding: h.id,
        generation: h.generation,
        state,
        attempts: 0,
        requested_at: now,
        updated_at: now,
    }
}

/// An old holding of a managed kind with its obligation: discharged if it was observed absent,
/// pending if it is a port, and blocked otherwise.
pub open spec fn retired_as(
    h: Held,
    kind: CleanupKind,
    absent: bool,
    target: Target,
    realm: Seq<char>,
    now: u64,
) -> (Held, Task) {
    let state = if absent {
        match h.state {
            HoldingState::Retired(t) => HoldingState::Retired(t),
            _ => HoldingState::Retired(now),
        }
    } else {
        HoldingState::Retiring(h.id)
    };
    let progress = if absent {
        Progress::Done(Completion::AlreadyAbsent)
    } else if kind is Port {
        Progress::Pending
    } else {
        Progress::Blocked("legacy incarnation requires external reconciliation"@)
    };
    (Held { target, state, ..h }, new_task(h, realm, progress, now))
}

/// An old holding after it was classified, with its obligation if it has one. A holding that
/// stands for nothing in the world stays as it is.
pub open spec fn classified(
    classes: Seq<Class>,
    h: Held,
    e: Evidence,
    realm: Seq<char>,
    now: u64,
) -> Result<(Held, Option<Task>), Refusal> {
    match policy_in(classes, h.class_id) {
        None => Err(storage_fault("unknown legacy holding class"@)),
        Some(CleanupPolicy::AccountingOnly) => Ok((h, None)),
        Some(CleanupPolicy::Managed(kind)) => match observed_absent(kind, h, e) {
            Err(x) => Err(x),
            Ok(absent) => match legacy_target(kind, h.instance, absent) {
                Err(x) => Err(x),
                Ok(target) => {
                    let r = retired_as(h, kind, absent, target, realm, now);
                    Ok((r.0, Some(r.1)))
                },
            },
        },
    }
}

/// The first holdings after they were classified, with their obligations; the refusal of the
/// first that is refused.
pub open spec fn classify(
    classes: Seq<Class>,
    hs: Seq<Held>,
    es: Seq<Evidence>,
    realm: Seq<char>,
    now: u64,
    n: nat,
) -> Result<(Seq<Held>, Seq<Task>), Refusal>
    decreases n,
{
    if n == 0 {
        Ok((Seq::empty(), Seq::empty()))
    } else {
        match classify(classes, hs, es, realm, now, (n - 1) as nat) {
            Err(x) => Err(x),
            Ok((done, tasks)) => match classified(classes, hs[n - 1], es[n - 1], realm, now) {
                Err(x) => Err(x),
                Ok((h, None)) => Ok((done.push(h), tasks)),
                Ok((h, Some(t))) => Ok((done.push(h), tasks.push(t))),
            },
        }
    }
}

proof fn classify_fails_on(
    classes: Seq<Class>,
    hs: Seq<Held>,
    es: Seq<Evidence>,
    realm: Seq<char>,
    now: u64,
    n: nat,
    m: nat,
)
    requires
        n <= m,
        classify(classes, hs, es, realm, now, n) is Err,
    ensures
        classify(classes, hs, es, realm, now, m) == classify(classes, hs, es, realm, now, n),
    decreases m - n,
{
    if n < m {
        classify_fails_on(classes, hs, es, realm, now, n, (m - 1) as nat);
    }
}

/// Whether a holding must be retired because of another: it counts as discharged while a holding
/// that depends on it still occupies its resource, or it is bound to a parent that is being
/// retired.
pub open spec fn forced(h: Held, hs: Seq<Held>) -> bool {
    ||| !h.state.spec_occupies() && exists|j: int|
        0 <= j < hs.len() && (#[trigger] hs[j]).state.spec_occupies() && hs[j].parent == Some(h.id)
    ||| h.state is Active && h.lease is ParentBound && h.parent is Some && exists|j: int|
        0 <= j < hs.len() && (#[trigger] hs[j]).state is Retiring && h.parent == Some(hs[j].id)
}

/// Whether no holding must be retired because of another.
pub open spec fn settled(hs: Seq<Held>) -> bool {
    forall|i: int| 0 <= i < hs.len() ==> !forced(#[trigger] hs[i], hs)
}

/// A holding after one round.
pub open spec fn advanced(h: Held, hs: Seq<Held>) -> Held {
    if forced(h, hs) {
        Held { state: HoldingState::Retiring(h.id), ..h }
    } else {
        h
    }
}

/// The holdings after one round: those that must be retired are being retired.
pub open spec fn advance(hs: Seq<Held>) -> Seq<Held> {
    Seq::new(hs.len(), |i: int| advanced(hs[i], hs))
}

/// Where the obligation of an identity stands, or how many there are.
pub open spec fn task_at(tasks: Seq<Task>, id: u64) -> nat
    decreases tasks.len(),
{
    if tasks.len() == 0 || tasks[0].id == id {
        0
    } else {
        1 + task_at(tasks.drop_first(), id)
    }
}

/// The obligations once a holding must be retired: its own is pending again, or a new one.
pub open spec fn obliged(tasks: Seq<Task>, h: Held, realm: Seq<char>, now: u64) -> Seq<Task> {
    let at = task_at(tasks, h.id) as int;
    if at < tasks.len() {
        tasks.update(at, Task { state: Progress::Pending, ..tasks[at] })
    } else {
        tasks.push(new_task(h, realm, Progress::Pending, now))
    }
}

/// The obligations after the first holdings of one round.
pub open spec fn oblige(
    hs: Seq<Held>,
    tasks: Seq<Task>,
    realm: Seq<char>,
    now: u64,
    n: nat,
) -> Seq<Task>
    decreases n,
{
    if n == 0 {
        tasks
    } else {
        let before = oblige(hs, tasks, realm, now, (n - 1) as nat);
        if forced(hs[n - 1], hs) {
            obliged(before, hs[n - 1], realm, now)
        } else {
            before
        }
    }
}

/// How many holdings are not being retired.
pub open spec fn unretired(hs: Seq<Held>) -> nat
    decreases hs.len(),
{
    if hs.len() == 0 {
        0
    } else {
        unretired(hs.drop_last()) + if hs.last().state is Retiring {
            0nat
        } else {
            1nat
        }
    }
}

proof fn fewer_unretired(a: Seq<Held>, b: Seq<Held>)
    requires
        a.len() == b.len(),
        forall|i: int| 0 <= i < a.len() && (#[trigger] a[i]).state is Retiring ==> b[i].state is Retiring,
    ensures
        unretired(b) <= unretired(a),
        (exists|i: int|
            0 <= i < a.len() && !((#[trigger] a[i]).state is Retiring) && b[i].state is Retiring)
            ==> unretired(b) < unretired(a),
    decreases a.len(),
{
    if a.len() > 0 {
        let n = a.len() - 1;
        assert(a[n].state is Retiring ==> b[n].state is Retiring);
        assert forall|i: int|
            0 <= i < a.drop_last().len()
                && (#[trigger] a.drop_last()[i]).state is Retiring implies b.drop_last()[i].state is Retiring by {
            assert(a[i].state is Retiring);
        }
        fewer_unretired(a.drop_last(), b.drop_last());
        if exists|i: int|
            0 <= i < a.len() && !((#[trigger] a[i]).state is Retiring) && b[i].state is Retiring {
            let i = choose|i: int|
                0 <= i < a.len() && !((#[trigger] a[i]).state is Retiring) && b[i].state is Retiring;
            if i < n {
                assert(!(a.drop_last()[i].state is Retiring) && b.drop_last()[i].state is Retiring);
            }
        }
    }
}

/// A round that changes anything leaves fewer holdings that are not being retired.
pub proof fn rounds_end(hs: Seq<Held>)
    ensures
        unretired(advance(hs)) <= unretired(hs),
        !settled(hs) ==> unretired(advance(hs)) < unretired(hs),
{
    let b = advance(hs);
    assert forall|i: int| 0 <= i < hs.len() && (#[trigger] hs[i]).state is Retiring implies
        b[i].state is Retiring by {
        assert(b[i] == advanced(hs[i], hs));
    }
    if !settled(hs) {
        let i = choose|i: int| 0 <= i < hs.len() && forced(#[trigger] hs[i], hs);
        assert(b[i] == advanced(hs[i], hs));
        assert(!(hs[i].state is Retiring) && b[i].state is Retiring);
    }
    fewer_unretired(hs, b);
}

/// The holdings and obligations after as many rounds as change anything.
pub open spec fn settle(hs: Seq<Held>, tasks: Seq<Task>, realm: Seq<char>, now: u64) -> (
    Seq<Held>,
    Seq<Task>,
)
    decreases unretired(hs),
{
    if settled(hs) {
        (hs, tasks)
    } else {
        proof {
            rounds_end(hs);
        }
        settle(advance(hs), oblige(hs, tasks, realm, now, hs.len()), realm, now)
    }
}

/// After a migration nothing counts as discharged while something that depends on it occupies its
/// resource, and nothing in use is bound to a parent that is being retired.
pub proof fn dependencies_are_kept(hs: Seq<Held>, tasks: Seq<Task>, realm: Seq<char>, now: u64)
    ensures
        ({
            let out = settle(hs, tasks, realm, now).0;
            &&& out.len() == hs.len()
            &&& forall|i: int, j: int|
                0 <= i < out.len() && 0 <= j < out.len() && (#[trigger] out[j]).parent == Some(
                    (#[trigger] out[i]).id,
                ) && out[j].state.spec_occupies() ==> out[i].state.spec_occupies()
            &&& forall|i: int, j: int|
                0 <= i < out.len() && 0 <= j < out.len() && (#[trigger] out[j]).parent == Some(
                    (#[trigger] out[i]).id,
                ) && out[j].state is Active && out[j].lease is ParentBound ==> !(
                out[i].state is Retiring)
        }),
    decreases unretired(hs),
{
    if !settled(hs) {
        rounds_end(hs);
        dependencies_are_kept(advance(hs), oblige(hs, tasks, realm, now, hs.len()), realm, now);
    } else {
        assert forall|i: int, j: int|
            0 <= i < hs.len() && 0 <= j < hs.len() && (#[trigger] hs[j]).parent == Some(
                (#[trigger] hs[i]).id,
            ) && hs[j].state.spec_occupies() implies hs[i].state.spec_occupies() by {
            assert(!forced(hs[i], hs));
        }
        assert forall|i: int, j: int|
            0 <= i < hs.len() && 0 <= j < hs.len() && (#[trigger] hs[j]).parent == Some(
                (#[trigger] hs[i]).id,
            ) && hs[j].state is Active && hs[j].lease is ParentBound implies !(
        hs[i].state is Retiring) by {
            assert(!forced(hs[j], hs));
        }
    }
}

/// Rounds only ever put holdings into retirement: what else a holding is, and a holding that is
/// being retired, stay.
pub proof fn rounds_only_retire(hs: Seq<Held>, tasks: Seq<Task>, realm: Seq<char>, now: u64)
    ensures
        ({
            let out = settle(hs, tasks, realm, now).0;
            &&& out.len() == hs.len()
            &&& forall|i: int|
                0 <= i < hs.len() ==> (#[trigger] out[i]) == hs[i] || out[i] == (Held {
                    state: HoldingState::Retiring(hs[i].id),
                    ..hs[i]
                })
        }),
    decreases unretired(hs),
{
    if !settled(hs) {
        rounds_end(hs);
        let next = advance(hs);
        let out = settle(hs, tasks, realm, now).0;
        rounds_only_retire(next, oblige(hs, tasks, realm, now, hs.len()), realm, now);
        assert forall|i: int| 0 <= i < hs.len() implies (#[trigger] out[i]) == hs[i] || out[i] == (
        Held { state: HoldingState::Retiring(hs[i].id), ..hs[i] }) by {
            assert(next[i] == advanced(hs[i], hs));
        }
    }
}

/// A holding that was not observed absent is never discharged by a migration.
pub proof fn uncertain_is_never_discharged(
    classes: Seq<Class>,
    h: Held,
    e: Evidence,
    realm: Seq<char>,
    now: u64,
)
    ensures
        classified(classes, h, e, realm, now) matches Ok((after, task)) ==> policy_in(
            classes,
            h.class_id,
        ) is Some && ((policy_in(classes, h.class_id)->0 is Managed && !e.absent) ==> (after.state
            == HoldingState::Retiring(h.id) && task is Some && !(task->0.state is Done))),
{
}

fn target_after(kind: CleanupKind, instance: &str, absent: bool) -> (r: Result<
    CleanupTarget,
    KernelError,
>)
    ensures
        match r {
            Ok(t) => legacy_target(kind, instance@, absent) == Ok::<Target, Refusal>(t@),
            Err(e) => legacy_target(kind, instance@, absent) == Err::<Target, Refusal>(e@),
        },
{
    match kind {
        CleanupKind::Port => match port_target(instance) {
            Ok(p) => Ok(CleanupTarget::Port { transport: p.0, port: p.1 }),
            Err(e) => Err(e),
        },
        _ => {
            let reason: String = if absent {
                "legacy target was observed absent during migration".to_owned()
            } else {
                "legacy record lacks a complete incarnation witness; external reconciliation required".to_owned()
            };
            Ok(CleanupTarget::Unresolved { kind, reason })
        },
    }
}

fn task_for(h: &HoldingRecord, realm: &str, state: CleanupState, now: u64) -> (t: CleanupRecord)
    ensures
        t@ == new_task(h@, realm@, state@, now),
{
    CleanupRecord {
        id: h.id,
        key: cleanup_key(realm, h.id),
        holding: h.id,
        generation: h.generation.clone(),
        state,
        attempts: 0,
        requested_at: now,
        updated_at: now,
    }
}

fn classify_all(
    classes: &Vec<ClassDecl>,
    holdings: Vec<HoldingRecord>,
    evidence: &Vec<Evidence>,
    realm: &str,
    now: u64,
) -> (r: Result<(Vec<HoldingRecord>, Vec<CleanupRecord>), KernelError>)
    requires
        evidence@.len() == holdings@.len(),
    ensures
        ({
            let out = classify(
                class_views(classes@),
                held_views(holdings@),
                evidence@,
                realm@,
                now,
                holdings@.len(),
            );
            match r {
                Ok((hs, tasks)) => out == Ok::<(Seq<Held>, Seq<Task>), Refusal>(
                    (held_views(hs@), task_views(tasks@)),
                ),
                Err(e) => out == Err::<(Seq<Held>, Seq<Task>), Refusal>(e@),
            }
        }),
{
    let ghost cs = class_views(classes@);
    let ghost all = held_views(holdings@);
    let ghost es = evidence@;
    let mut hs: Vec<HoldingRecord> = holdings;
    let mut tasks: Vec<CleanupRecord> = Vec::new();
    let mut i: usize = 0;
    assert(held_views(hs@).take(0) =~= Seq::<Held>::empty());
    assert(task_views(tasks@) =~= Seq::<Task>::empty());
    while i < hs.len()
        invariant
            i <= hs@.len(),
            cs == class_views(classes@),
            all == held_views(holdings@),
            es == evidence@,
            hs@.len() == all.len(),
            evidence@.len() == all.len(),
            classify(cs, all, es, realm@, now, i as nat) == Ok::<(Seq<Held>, Seq<Task>), Refusal>(
                (held_views(hs@).take(i as int), task_views(tasks@)),
            ),
            forall|k: int| i <= k < hs@.len() ==> (#[trigger] hs@[k])@ == all[k],
        decreases hs.len() - i,
    {
        let ghost before = held_views(hs@);
        let ghost old_tasks = task_views(tasks@);
        let ghost h0 = hs@[i as int]@;
        assert(h0 == all[i as int]);
        match policy_of(classes, hs[i].class_id.as_str()) {
            None => {
                proof {
                    classify_fails_on(cs, all, es, realm@, now, (i + 1) as nat, all.len());
                }
                return Err(corrupt("unknown legacy holding class"));
            },
            Some(CleanupPolicy::AccountingOnly) => {
                assert(before.take(i + 1) =~= before.take(i as int).push(h0));
            },
            Some(CleanupPolicy::Managed(kind)) => {
                let absent: bool = match absence(kind, &hs[i], &evidence[i]) {
                    Ok(b) => b,
                    Err(e) => {
                        proof {
                            classify_fails_on(cs, all, es, realm@, now, (i + 1) as nat, all.len());
                        }
                        return Err(e);
                    },
                };
                let target: CleanupTarget = match target_after(
                    kind,
                    hs[i].instance.as_str(),
                    absent,
                ) {
                    Ok(t) => t,
                    Err(e) => {
                        proof {
                            classify_fails_on(cs, all, es, realm@, now, (i + 1) as nat, all.len());
                        }
                        return Err(e);
                    },
                };
                let ghost tv = target@;
                let progress: CleanupState = if absent {
                    CleanupState::Done(Completion::AlreadyAbsent)
                } else {
                    match kind {
                        CleanupKind::Port => CleanupState::Pending,
                        _ => CleanupState::Blocked(
                            "legacy incarnation requires external reconciliation".to_owned(),
                        ),
                    }
                };
                let state: HoldingState = if absent {
                    match hs[i].state {
                        HoldingState::Retired(t) => HoldingState::Retired(t),
                        _ => HoldingState::Retired(now),
                    }
                } else {
                    HoldingState::Retiring(hs[i].id)
                };
                let ghost r = retired_as(h0, kind, absent, tv, realm@, now);
                let task: CleanupRecord = task_for(&hs[i], realm, progress, now);
                assert(task@ == r.1);
                hs[i].target = target;
                hs[i].state = state;
                tasks.push(task);
                proof {
                    assert(hs@[i as int]@ == r.0);
                    assert(held_views(hs@).take(i + 1) =~= before.take(i as int).push(r.0));
                    assert(task_views(tasks@) =~= old_tasks.push(r.1));
                }
            },
        }
        i = i + 1;
    }
    assert(held_views(hs@).take(i as int) =~= held_views(hs@));
    Ok((hs, tasks))
}

fn is_forced(hs: &Vec<HoldingRecord>, i: usize) -> (b: bool)
    requires
        i < hs@.len(),
    ensures
        b == forced(held_views(hs@)[i as int], held_views(hs@)),
{
    let ghost all = held_views(hs@);
    let h: &HoldingRecord = &hs[i];
    let gone: bool = !h.state.occupies();
    let bound: bool = h.state.is_active() && match h.lease {
        Lease::ParentBound => true,
        _ => false,
    };
    let mut j: usize = 0;
    while j < hs.len()
        invariant
            j <= hs@.len(),
            i < hs@.len(),
            *h == hs@[i as int],
            all == held_views(hs@),
            gone == !h.state.spec_occupies(),
            bound == (h.state is Active && h.lease is ParentBound),
            forall|k: int|
                0 <= k < j ==> !(gone && (#[trigger] all[k]).state.spec_occupies() && all[k].parent
                    == Some(h.id)),
            forall|k: int|
                0 <= k < j ==> !(bound && (#[trigger] all[k]).state is Retiring && h.parent == Some(
                    all[k].id,
                )),
        decreases hs.len() - j,
    {
        assert(all[j as int] == hs@[j as int]@);
        if gone && hs[j].state.occupies() {
            if let Some(p) = hs[j].parent {
                if p == h.id {
                    return true;
                }
            }
        }
        if bound && hs[j].state.is_retiring() {
            if let Some(p) = h.parent {
                if p == hs[j].id {
                    return true;
                }
            }
        }
        j = j + 1;
    }
    false
}

fn oblige_one(tasks: &mut Vec<CleanupRecord>, h: &HoldingRecord, realm: &str, now: u64)
    ensures
        task_views(final(tasks)@) == obliged(task_views(old(tasks)@), h@, realm@, now),
{
    let ghost all = task_views(tasks@);
    let mut i: usize = 0;
    assert(all.skip(0) =~= all);
    while i < tasks.len()
        invariant
            i <= tasks@.len(),
            *tasks == *old(tasks),
            all == task_views(tasks@),
            task_at(all, h.id) == i + task_at(all.skip(i as int), h.id),
        decreases tasks.len() - i,
    {
        let ghost rest = all.skip(i as int);
        assert(rest[0] == tasks@[i as int]@);
        assert(rest.drop_first() =~= all.skip(i + 1));
        if tasks[i].id == h.id {
            tasks[i].state = CleanupState::Pending;
            proof {
                assert(task_views(tasks@) =~= all.update(
                    i as int,
                    Task { state: Progress::Pending, ..all[i as int] },
                ));
            }
            return;
        }
        i = i + 1;
    }
    tasks.push(task_for(h, realm, CleanupState::Pending, now));
    proof {
        assert(task_views(tasks@) =~= all.push(new_task(h@, realm@, Progress::Pending, now)));
    }
}

fn round(
    hs: &mut Vec<HoldingRecord>,
    tasks: &mut Vec<CleanupRecord>,
    realm: &str,
    now: u64,
) -> (changed: bool)
    ensures
        changed == !settled(held_views(old(hs)@)),
        held_views(final(hs)@) == advance(held_views(old(hs)@)),
        task_views(final(tasks)@) == oblige(
            held_views(old(hs)@),
            task_views(old(tasks)@),
            realm@,
            now,
            old(hs)@.len(),
        ),
{
    let ghost all = held_views(hs@);
    let ghost ts = task_views(tasks@);
    let mut which: Vec<bool> = Vec::new();
    let mut i: usize = 0;
    while i < hs.len()
        invariant
            i <= hs@.len(),
            *hs == *old(hs),
            *tasks == *old(tasks),
            all == held_views(hs@),
            which@.len() == i,
            forall|k: int| 0 <= k < i ==> #[trigger] which@[k] == forced(all[k], all),
        decreases hs.len() - i,
    {
        let b: bool = is_forced(hs, i);
        which.push(b);
        i = i + 1;
    }
    let mut changed: bool = false;
    i = 0;
    while i < hs.len()
        invariant
            i <= hs@.len(),
            hs@.len() == all.len(),
            which@.len() == all.len(),
            forall|k: int| 0 <= k < which@.len() ==> #[trigger] which@[k] == forced(all[k], all),
            forall|k: int| 0 <= k < i ==> (#[trigger] hs@[k])@ == advanced(all[k], all),
            forall|k: int| i <= k < hs@.len() ==> (#[trigger] hs@[k])@ == all[k],
            task_views(tasks@) == oblige(all, ts, realm@, now, i as nat),
            changed == exists|k: int| 0 <= k < i && forced(#[trigger] all[k], all),
        decreases hs.len() - i,
    {
        let ghost before = hs@;
        if which[i] {
            oblige_one(tasks, &hs[i], realm, now);
            let id: u64 = hs[i].id;
            hs[i].state = HoldingState::Retiring(id);
            changed = true;
            assert(forced(all[i as int], all));
        }
        assert(hs@[i as int]@ == advanced(all[i as int], all));
        i = i + 1;
    }
    assert(held_views(hs@) =~= advance(all));
    changed
}

/// Retires the holdings of a ledger whose records are older than cleanup obligations. Each holding
/// of a managed class gets an obligation by the evidence of it; then whatever depends on an
/// uncertain holding is retired with it.
pub fn migrate_retirements(
    snapshot: Snapshot,
    evidence: &Vec<Evidence>,
    realm: &str,
    now: u64,
) -> (r: Result<Snapshot, KernelError>)
    requires
        evidence@.len() == snapshot.holdings@.len(),
    ensures
        ({
            let out = classify(
                class_views(snapshot.classes@),
                held_views(snapshot.holdings@),
                evidence@,
                realm@,
                now,
                snapshot.holdings@.len(),
            );
            match r {
                Ok(s) => {
                    &&& snapshot.cleanups@.len() == 0
                    &&& out is Ok
                    &&& (held_views(s.holdings@), task_views(s.cleanups@)) == settle(
                        out->Ok_0.0,
                        out->Ok_0.1,
                        realm@,
                        now,
                    )
                    &&& s.classes == snapshot.classes
                    &&& s.pools == snapshot.pools
                    &&& s.instantiations == snapshot.instantiations
                },
                Err(e) => if snapshot.cleanups@.len() > 0 {
                    e@ == storage_fault("unversioned cleanup records"@)
                } else {
                    out == Err::<(Seq<Held>, Seq<Task>), Refusal>(e@)
                },
            }
        }),
{
    if snapshot.cleanups.len() > 0 {
        return Err(corrupt("unversioned cleanup records"));
    }
    let Snapshot { classes, pools, instantiations, holdings, cleanups: _ } = snapshot;
    let (hs0, tasks0) = match classify_all(&classes, holdings, evidence, realm, now) {
        Ok(p) => p,
        Err(e) => {
            return Err(e);
        },
    };
    let mut hs: Vec<HoldingRecord> = hs0;
    let mut tasks: Vec<CleanupRecord> = tasks0;
    let ghost end = settle(held_views(hs@), task_views(tasks@), realm@, now);
    let mut changed: bool = true;
    while changed
        invariant
            settle(held_views(hs@), task_views(tasks@), realm@, now) == end,
            !changed ==> settled(held_views(hs@)),
        decreases
                unretired(held_views(hs@)) + if changed {
                    1nat
                } else {
                    0nat
                },
    {
        let ghost all = held_views(hs@);
        let ghost ts = task_views(tasks@);
        changed = round(&mut hs, &mut tasks, realm, now);
        proof {
            rounds_end(all);
            if !changed {
                assert(advance(all) =~= all);
                settled_obliges_nothing(all, ts, realm@, now, all.len());
            }
        }
    }
    Ok(Snapshot { classes, pools, instantiations, holdings: hs, cleanups: tasks })
}

proof fn settled_obliges_nothing(
    hs: Seq<Held>,
    tasks: Seq<Task>,
    realm: Seq<char>,
    now: u64,
    n: nat,
)
    requires
        settled(hs),
        n <= hs.len(),
    ensures
        oblige(hs, tasks, realm, now, n) == tasks,
    decreases n,
{
    if n > 0 {
        settled_obliges_nothing(hs, tasks, realm, now, (n - 1) as nat);
        assert(!forced(hs[n - 1], hs));
    }
}

} // verus!

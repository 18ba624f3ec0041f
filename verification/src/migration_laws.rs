//! What holds of stored records that are read back, of old ones that are brought up to date, and of
//! the host's own part in cleaning up.

use crate::cleanup_codec::{
    fits_task, state_in, stored_process, stored_session, target_in, task_in, valid_target, StateDto,
    TargetDto, TaskDto,
};
use crate::decode::{
    class_fault, classes_fault, decode_fault, holding_fault, holdings_fault, holds_holding,
    is_algebra, is_grade, is_policy, pools_fault, stored_lease, ClassRow, HoldingRow, PoolRow,
};
use crate::error::Refusal;
use crate::frag::frag_refusal;
use crate::host_cleanup::{
    host_deed, reclaim_record, recorded_pid_fault, releasable, stop_verdict, substrate_fault, Deed,
};
use crate::json::{member, Num, Value};
use crate::records::{
    Capacity, Class, CleanupKind, CleanupPolicy, Completion, FragView, Held, HoldingState, Lease,
    Progress, Session, Target, Task, Transport,
};
use crate::recovery::{
    auxiliary_refusal, builtin_class, builtin_policy_of, cap_refusal, declaration, holding_of,
    import_counts, journal_fault, journal_refusal, legacy_import, placed, pooled, AccountCheck,
    Imported, JournalRow, LegacyCap,
};
use crate::retirement::{
    advanced, classified, classify, forced, observed_absent, obliged, policy_in, task_at, Evidence,
};
use crate::segments::{associated, derived, known, RunRow, SegmentRow};
use crate::strmap::listing_of;
use crate::substrate::{
    generation_fits, generation_of, names_process, CLASS_CAP, CLASS_CAP_COUNT, CLASS_FILE_LOCK,
    CLASS_PLUGIN, CLASS_PORT, CLASS_PROCESS, CLASS_SUBSCRIPTION,
};
use crate::world::{discharges, RemovalSeen, Verdict};
use vstd::prelude::*;

verus! {

/// An old holding becomes retired only on evidence that its resource is gone; otherwise it is being
/// retired, under an obligation of its own. Nothing else of it changes, and what only stands in
/// the accounts is left as it is.
pub proof fn an_old_holding_is_retired_on_evidence(
    classes: Seq<Class>,
    h: Held,
    e: Evidence,
    realm: Seq<char>,
    now: u64,
)
    ensures
        classified(classes, h, e, realm, now) matches Ok(r) ==> {
            &&& r.0.id == h.id && r.0.subject == h.subject && r.0.class_id == h.class_id
                && r.0.instance == h.instance && r.0.generation == h.generation && r.0.parent
                == h.parent && r.0.frag == h.frag && r.0.lease == h.lease && r.0.acquired_at
                == h.acquired_at
            &&& r.1 is None <==> policy_in(classes, h.class_id) == Some(
                CleanupPolicy::AccountingOnly,
            )
            &&& r.1 is None ==> r.0 == h
            &&& r.1 matches Some(t) ==> {
                &&& t.holding == h.id && t.id == h.id && t.generation == h.generation && t.attempts
                    == 0 && t.requested_at == now
                &&& r.0.state is Retired ==> e.absent && t.state == Progress::Done(
                    Completion::AlreadyAbsent,
                )
                &&& !(r.0.state is Retired) ==> r.0.state == HoldingState::Retiring(h.id)
                    && !(t.state is Done)
            }
        },
        policy_in(classes, h.class_id) is None ==> classified(classes, h, e, realm, now) is Err,
{
}

/// An old process is taken to be gone only where its record names an incarnation that the holding's
/// mark confirms; ports and what others provide are never taken to be gone by an old record.
pub proof fn an_old_process_is_known_by_its_mark(kind: CleanupKind, h: Held, e: Evidence)
    ensures
        observed_absent(kind, h, e) == Ok::<bool, Refusal>(true) ==> e.absent && (kind is Process
            || kind is FileLock),
        kind is Process && observed_absent(kind, h, e) is Ok ==> exists|pid: u32, start: u64|
            1 <= pid <= 0x7fff_ffff && start >= 1 && h.generation == #[trigger] generation_of(
                pid,
                start,
            ),
        e.detail matches Some(Err(_)) ==> observed_absent(kind, h, e) is Err,
{
    if kind is Process && observed_absent(kind, h, e) is Ok {
        let d = match e.detail {
            Some(Ok(d)) => Some(d@),
            _ => None,
        };
        let w = crate::retirement::witness_in(d)->0;
        assert(h.generation == generation_of(w.0, w.1));
    }
}

/// Every old holding is accounted for, in order, each under its own identity; and each that is managed
/// has its obligation.
pub proof fn every_old_holding_is_classified(
    classes: Seq<Class>,
    hs: Seq<Held>,
    es: Seq<Evidence>,
    realm: Seq<char>,
    now: u64,
    n: nat,
    i: int,
)
    requires
        n <= hs.len(),
        n <= es.len(),
    ensures
        classify(classes, hs, es, realm, now, n) matches Ok(r) ==> {
            &&& r.0.len() == n
            &&& r.1.len() <= n
            &&& 0 <= i < n ==> r.0[i].id == hs[i].id && (classified(
                classes,
                hs[i],
                es[i],
                realm,
                now,
            ) matches Ok(one) && r.0[i] == one.0 && (one.1 matches Some(t) ==> r.1.contains(t)))
        },
    decreases n,
{
    if n > 0 {
        every_old_holding_is_classified(classes, hs, es, realm, now, (n - 1) as nat, i);
        if let Ok(r) = classify(classes, hs, es, realm, now, n) {
            let before = classify(classes, hs, es, realm, now, (n - 1) as nat)->Ok_0;
            if let Ok((h, Some(t))) = classified(classes, hs[n - 1], es[n - 1], realm, now) {
                assert(r.1 == before.1.push(t));
                assert(r.1[before.1.len() as int] == t);
                if 0 <= i < n - 1 {
                    if let Ok(one) = classified(classes, hs[i], es[i], realm, now) {
                        if let Some(own) = one.1 {
                            let q = before.1.index_of(own);
                            assert(r.1[q] == own);
                        }
                    }
                }
            }
        }
    }
}

/// A holding is forced to be retired exactly when it was given up while something under it is still
/// occupied, or when it lives only with its parent and the parent is being retired; a round then
/// changes its state and nothing else.
pub proof fn who_is_forced(h: Held, hs: Seq<Held>, j: int)
    requires
        0 <= j < hs.len(),
    ensures
        h.state is Retired && hs[j].parent == Some(h.id) && !(hs[j].state is Retired) ==> forced(
            h,
            hs,
        ),
        h.state is Active && h.lease is ParentBound && h.parent == Some(hs[j].id)
            && hs[j].state is Retiring ==> forced(h, hs),
        forced(h, hs) ==> !(h.state is Retiring),
        forced(h, hs) && h.state is Active ==> h.lease is ParentBound,
        advanced(h, hs).id == h.id && advanced(h, hs).subject == h.subject && advanced(h, hs).frag
            == h.frag && advanced(h, hs).parent == h.parent && advanced(h, hs).generation
            == h.generation && advanced(h, hs).instance == h.instance && advanced(h, hs).class_id
            == h.class_id && advanced(h, hs).lease == h.lease && advanced(h, hs).target
            == h.target,
        forced(h, hs) ==> advanced(h, hs).state == HoldingState::Retiring(h.id),
        !forced(h, hs) ==> advanced(h, hs) == h,
{
}

/// An obligation that is renewed is pending again, a new one is pending, and no other changes.
pub proof fn an_obligation_is_pending_again(
    tasks: Seq<Task>,
    h: Held,
    realm: Seq<char>,
    now: u64,
    i: int,
)
    ensures
        exists|k: int|
            0 <= k < obliged(tasks, h, realm, now).len() && (#[trigger] obliged(
                tasks,
                h,
                realm,
                now,
            )[k]).id == h.id && obliged(tasks, h, realm, now)[k].state is Pending,
        tasks.len() <= obliged(tasks, h, realm, now).len() <= tasks.len() + 1,
        0 <= i < tasks.len() && tasks[i].id != h.id ==> obliged(tasks, h, realm, now)[i]
            == tasks[i],
        (forall|k: int| 0 <= k < tasks.len() ==> (#[trigger] tasks[k]).id != h.id) ==> obliged(
            tasks,
            h,
            realm,
            now,
        ).len() == tasks.len() + 1,
{
    task_is_at(tasks, h.id);
    let at = task_at(tasks, h.id) as int;
    let out = obliged(tasks, h, realm, now);
    if at < tasks.len() {
        assert(out[at].id == h.id);
    } else {
        assert(out[tasks.len() as int].id == h.id);
    }
}

proof fn task_is_at(tasks: Seq<Task>, id: u64)
    ensures
        task_at(tasks, id) <= tasks.len(),
        task_at(tasks, id) < tasks.len() ==> tasks[task_at(tasks, id) as int].id == id,
        task_at(tasks, id) == tasks.len() ==> forall|i: int|
            0 <= i < tasks.len() ==> (#[trigger] tasks[i]).id != id,
    decreases tasks.len(),
{
    if tasks.len() > 0 && tasks[0].id != id {
        let rest = tasks.drop_first();
        task_is_at(rest, id);
        if task_at(rest, id) < rest.len() {
            assert(rest[task_at(rest, id) as int] == tasks[task_at(rest, id) as int + 1]);
        } else {
            assert forall|i: int| 0 <= i < tasks.len() implies (#[trigger] tasks[i]).id != id by {
                if i > 0 {
                    assert(tasks[i] == rest[i - 1]);
                }
            }
        }
    }
}

/// The host acts only for its own session: it removes its own subscriptions and stops its own plugins,
/// and leaves everything else to others.
pub proof fn a_host_acts_for_its_session(target: Target, own: Session)
    ensures
        host_deed(target, own) matches Deed::RemoveSub(s) ==> target == (Target::Subscription {
            host: own,
            subscription: s,
        }),
        host_deed(target, own) matches Deed::StopPlugin(p) ==> target == (Target::Plugin {
            host: own,
            process: p,
        }),
        target matches Target::Subscription { host, subscription } ==> (host_deed(target, own)
            is RemoveSub <==> host == own),
        target matches Target::Plugin { host, process } ==> (host_deed(target, own) is StopPlugin
            <==> host == own),
        target is Process || target is FileLock || target is Port ==> host_deed(target, own)
            is Elsewhere,
{
}

/// A plugin counts as stopped only when its process is: and where the host knew the plugin, only when
/// it was reaped too and its socket is not left behind.
pub proof fn a_stopped_plugin_leaves_nothing(
    stopped: Verdict,
    known: bool,
    reaped: Result<(), String>,
    socket: RemovalSeen,
)
    ensures
        discharges(stop_verdict(stopped, known, reaped, socket)) <==> discharges(stopped) && (known
            ==> reaped is Ok && !(socket is Failed)),
        !known ==> stop_verdict(stopped, known, reaped, socket) == stopped,
{
}

/// A reclaim is recorded exactly when something was released or is left.
pub proof fn a_reclaim_is_recorded(
    name: Seq<char>,
    reason: Seq<char>,
    released: u64,
    pending: Seq<u64>,
)
    ensures
        reclaim_record(name, reason, released, pending) is None <==> released == 0 && pending.len()
            == 0,
{
}

/// A holding can be released once nothing under it is occupied any more but what was released before.
pub proof fn what_can_be_released(hs: Seq<Held>, gone: Seq<u64>, id: u64, j: int)
    ensures
        releasable(hs, gone, id) ==> (holding_of(hs, id) matches Some(h) && !(h.state is Retired))
            && !gone.contains(id),
        releasable(hs, gone, id) && 0 <= j < hs.len() && hs[j].parent == Some(id) ==> hs[j].state
            is Retired || gone.contains(hs[j].id),
{
}

/// The record of a process names it by a number that fits one and by the time of its start; that of a
/// lock names an owner, where it does, in the same way; and no other class has a record.
pub proof fn what_a_record_must_say(class: Seq<char>, v: Value, field: Seq<char>)
    ensures
        recorded_pid_fault(v, field) is None <==> (member(v, field) matches Some(
            Value::Number(Num::Nat(n)),
        ) && 1 <= n <= 0x7fff_ffff),
        substrate_fault(class, v) is None ==> v is Object && (class == CLASS_PROCESS@ || class
            == CLASS_FILE_LOCK@ || class == CLASS_PORT@),
        class == CLASS_PROCESS@ && substrate_fault(class, v) is None ==> (member(v, "pid"@) matches
            Some(Value::Number(Num::Nat(n))) && 1 <= n <= 0x7fff_ffff) && (member(v, "start"@)
            matches Some(Value::Number(Num::Nat(_)))),
        v is Object && class == CLASS_PROCESS@ && (member(v, "pid"@) matches Some(
            Value::Number(Num::Nat(n)),
        ) && 1 <= n <= 0x7fff_ffff) && (member(v, "start"@) matches Some(
            Value::Number(Num::Nat(_)),
        )) ==> substrate_fault(class, v) is None,
{
}

/// The rows of the store are read exactly when each of them is in order: the classes, then the pools,
/// then the holdings.
pub proof fn rows_are_read_when_in_order(
    classes: Seq<ClassRow>,
    pools: Seq<PoolRow>,
    holdings: Seq<HoldingRow>,
    legacy: bool,
)
    ensures
        decode_fault(classes, pools, holdings, legacy) is None <==> {
            &&& forall|i: int| 0 <= i < classes.len() ==> class_fault(#[trigger] classes[i]) is None
            &&& forall|i: int|
                0 <= i < pools.len() ==> frag_refusal(
                    (#[trigger] pools[i]).capacity@,
                    pools[i].parsed,
                ) is None
            &&& forall|i: int|
                0 <= i < holdings.len() ==> holding_fault(#[trigger] holdings[i], legacy) is None
        },
{
    classes_in_order(classes);
    pools_in_order(pools);
    holdings_in_order(holdings, legacy);
}

proof fn classes_in_order(rows: Seq<ClassRow>)
    ensures
        classes_fault(rows) is None <==> forall|i: int|
            0 <= i < rows.len() ==> class_fault(#[trigger] rows[i]) is None,
    decreases rows.len(),
{
    if rows.len() > 0 {
        let rest = rows.drop_first();
        classes_in_order(rest);
        assert(forall|i: int| 0 < i < rows.len() ==> #[trigger] rows[i] == rest[i - 1]);
        assert(forall|i: int| 0 <= i < rest.len() ==> #[trigger] rest[i] == rows[i + 1]);
        assert(class_fault(rows[0]) is None || class_fault(rows[0]) is Some);
    }
}

proof fn pools_in_order(rows: Seq<PoolRow>)
    ensures
        pools_fault(rows) is None <==> forall|i: int|
            0 <= i < rows.len() ==> frag_refusal((#[trigger] rows[i]).capacity@, rows[i].parsed)
                is None,
    decreases rows.len(),
{
    if rows.len() > 0 {
        let rest = rows.drop_first();
        pools_in_order(rest);
        assert(forall|i: int| 0 < i < rows.len() ==> #[trigger] rows[i] == rest[i - 1]);
        assert(forall|i: int| 0 <= i < rest.len() ==> #[trigger] rest[i] == rows[i + 1]);
        assert(frag_refusal(rows[0].capacity@, rows[0].parsed) is None || frag_refusal(
            rows[0].capacity@,
            rows[0].parsed,
        ) is Some);
    }
}

proof fn holdings_in_order(rows: Seq<HoldingRow>, legacy: bool)
    ensures
        holdings_fault(rows, legacy) is None <==> forall|i: int|
            0 <= i < rows.len() ==> holding_fault(#[trigger] rows[i], legacy) is None,
    decreases rows.len(),
{
    if rows.len() > 0 {
        let rest = rows.drop_first();
        holdings_in_order(rest, legacy);
        assert(forall|i: int| 0 < i < rows.len() ==> #[trigger] rows[i] == rest[i - 1]);
        assert(forall|i: int| 0 <= i < rest.len() ==> #[trigger] rest[i] == rows[i + 1]);
        assert(holding_fault(rows[0], legacy) is None || holding_fault(rows[0], legacy) is Some);
    }
}

/// A class row is in order exactly when its flag is a flag, its duration is not negative, and its
/// names are names; a holding row when its numbers are in range, its lease can be read and its
/// fragment can.
pub proof fn when_a_row_is_in_order(c: ClassRow, r: HoldingRow, legacy: bool)
    ensures
        class_fault(c) is None <==> (c.release_idempotent == 0 || c.release_idempotent == 1) && (
        c.lease_secs matches Some(n) ==> n >= 0) && is_algebra(c.algebra@) && is_grade(
            c.revert_grade@,
        ) && (c.cleanup matches Some(p) ==> is_policy(p@)),
        holding_fault(r, legacy) is None <==> {
            &&& r.id >= 0
            &&& r.parent matches Some(p) ==> p >= 0
            &&& r.lease_expires_at matches Some(t) ==> t >= 0
            &&& r.acquired_at >= 0
            &&& r.released_at matches Some(t) ==> t >= 0
            &&& stored_lease(r, legacy) is Some
            &&& frag_refusal(r.frag@, r.parsed) is None
        },
{
}

/// How long a stored holding lasts: until its end where one is stored, with its parent only where it
/// has one, and without bound otherwise; only old rows may leave the kind of the lease out.
pub proof fn how_long_a_stored_holding_lasts(r: HoldingRow, legacy: bool)
    ensures
        stored_lease(r, legacy) matches Some(Lease::Until(t)) ==> (r.lease_expires_at matches Some(x)
            && t == x as u64),
        stored_lease(r, legacy) == Some(Lease::ParentBound) ==> r.parent is Some
            && r.lease_expires_at is None,
        stored_lease(r, legacy) == Some(Lease::Unbounded) ==> r.lease_expires_at is None,
        r.lease_kind is None && !legacy ==> stored_lease(r, legacy) is None,
        r.lease_kind is None && legacy && r.lease_expires_at is None && r.parent is None
            ==> stored_lease(r, legacy) == Some(Lease::Unbounded),
        r.lease_kind is None && legacy && r.lease_expires_at is None && r.parent is Some
            ==> stored_lease(r, legacy) == Some(Lease::ParentBound),
        r.lease_kind matches Some(k) ==> (k@ == "until"@ && r.lease_expires_at is Some
            ==> stored_lease(r, legacy) is Some),
        r.lease_kind matches Some(k) ==> (k@ == "parent"@ && r.lease_expires_at is None
            && r.parent is Some ==> stored_lease(r, legacy) == Some(Lease::ParentBound)),
{
}

/// A holding that was read is the one that was stored: under its own identity, subject, class,
/// instance and mark, and retired exactly when a time of release is stored.
pub proof fn a_stored_holding_is_itself(r: HoldingRow, legacy: bool, h: Held)
    requires
        holds_holding(r, legacy, h),
    ensures
        h.id == r.id && h.subject == r.subject@ && h.class_id == r.class_id@ && h.instance
            == r.instance@ && h.generation == r.generation@,
        h.parent is Some <==> r.parent is Some,
        h.state is Retired <==> r.released_at is Some,
        h.state is Active <==> r.released_at is None,
        h.target is AccountingOnly,
{
}

/// The classes that the kernel brings: only counts compose by counting, everything else is held by one;
/// capabilities and their counts stand in the accounts alone, and each other class is managed as
/// what it is.
pub proof fn what_the_kernel_declares()
    ensures
        builtin_policy_of(CLASS_CAP@) is AccountingOnly,
        builtin_policy_of(CLASS_CAP_COUNT@) is AccountingOnly,
        builtin_policy_of(CLASS_PROCESS@) == CleanupPolicy::Managed(CleanupKind::Process),
        builtin_policy_of(CLASS_FILE_LOCK@) == CleanupPolicy::Managed(CleanupKind::FileLock),
        builtin_policy_of(CLASS_PORT@) == CleanupPolicy::Managed(CleanupKind::Port),
        builtin_policy_of(CLASS_PLUGIN@) == CleanupPolicy::Managed(CleanupKind::Plugin),
        builtin_policy_of(CLASS_SUBSCRIPTION@) == CleanupPolicy::Managed(CleanupKind::Subscription),
        forall|id: Seq<char>|
            (#[trigger] builtin_class(id)).algebra is Counted <==> id == CLASS_CAP_COUNT@,
        forall|id: Seq<char>|
            id != CLASS_CAP@ && id != CLASS_CAP_COUNT@ ==> #[trigger] builtin_policy_of(id)
                is Managed,
{
    reveal_strlit("kernel/cap-count");
    reveal_strlit("kernel/plugin");
    reveal_strlit("kernel/subscription");
    reveal_strlit("kernel/process");
    reveal_strlit("kernel/port");
    reveal_strlit("kernel/file-lock");
    reveal_strlit("kernel/cap");
    assert(CLASS_CAP_COUNT@.len() == 16 && CLASS_PLUGIN@.len() == 13 && CLASS_SUBSCRIPTION@.len()
        == 19 && CLASS_PROCESS@.len() == 14 && CLASS_PORT@.len() == 11 && CLASS_FILE_LOCK@.len()
        == 16 && CLASS_CAP@.len() == 10);
    assert(CLASS_CAP_COUNT@[7] != CLASS_FILE_LOCK@[7]);
}

/// The declaration of a class, and its policy, are those of the first class of that name, and are
/// wanting only where no class has it.
pub proof fn the_declaration_is_of_the_class(classes: Seq<Class>, id: Seq<char>)
    ensures
        match declaration(classes, id) {
            Some(c) => classes.contains(c) && c.class_id == id && policy_in(classes, id) == Some(
                c.cleanup,
            ),
            None => policy_in(classes, id) is None && forall|i: int|
                0 <= i < classes.len() ==> (#[trigger] classes[i]).class_id != id,
        },
    decreases classes.len(),
{
    if classes.len() > 0 {
        let rest = classes.drop_first();
        the_declaration_is_of_the_class(rest, id);
        if classes[0].class_id == id {
            assert(classes[0] == classes[0]);
        } else {
            match declaration(rest, id) {
                Some(c) => {
                    let i = rest.index_of(c);
                    assert(classes[i + 1] == c);
                },
                None => {
                    assert forall|i: int| 0 <= i < classes.len() implies (
                    #[trigger] classes[i]).class_id != id by {
                        if i > 0 {
                            assert(classes[i] == rest[i - 1]);
                        }
                    }
                },
            }
        }
    }
}

/// The counts of an old capability become one pool and one account each: an account of the capability
/// for the verb, owned by its subject.
pub proof fn old_counts_become_accounts(
    cap: crate::cap::Grant,
    before: Imported,
    n: nat,
    i: int,
)
    requires
        n <= listing_of(cap.counts).len(),
        0 <= i < n,
    ensures
        import_counts(cap, before, n) matches Ok(at) ==> {
            let a = at.accounts[before.accounts.len() + i];
            &&& at.accounts.len() == before.accounts.len() + n
            &&& at.pools.len() == before.pools.len() + n
            &&& a.account == cap.cap_id && a.owner == cap.subject && a.effect == listing_of(
                cap.counts,
            )[i].0 && a.class_id == CLASS_CAP_COUNT@ && a.instance == cap.cap_id + "/"@ + a.effect
        },
    decreases n,
{
    counts_len(cap, before, (n - 1) as nat);
    counts_len(cap, before, n);
    if i < n - 1 {
        old_counts_become_accounts(cap, before, (n - 1) as nat, i);
    }
}

proof fn counts_len(cap: crate::cap::Grant, before: Imported, n: nat)
    ensures
        import_counts(cap, before, n) matches Ok(at) ==> at.accounts.len() == before.accounts.len()
            + n && at.pools.len() == before.pools.len() + n && before.accounts.is_prefix_of(
            at.accounts,
        ),
    decreases n,
{
    if n > 0 {
        counts_len(cap, before, (n - 1) as nat);
        if let Ok(mid) = import_counts(cap, before, (n - 1) as nat) {
            let pair = listing_of(cap.counts)[n - 1];
            let p = Capacity {
                class_id: CLASS_CAP_COUNT@,
                instance: crate::recovery::pool_name(cap.cap_id, pair.0),
                capacity: FragView::Count(
                    Some(
                        if cap.revoked {
                            0
                        } else {
                            pair.1
                        },
                    ),
                ),
            };
            place_fits(mid.pools, p);
        }
    }
}

proof fn place_fits(pools: Seq<Capacity>, p: Capacity)
    ensures
        crate::recovery::place_among(pools, p) <= pools.len(),
    decreases pools.len(),
{
    if pools.len() > 0 {
        place_fits(pools.drop_first(), p);
    }
}

/// A pool that is put among others is among them, with all that were there.
pub proof fn a_placed_pool_is_among_them(pools: Seq<Capacity>, p: Capacity, q: Capacity)
    ensures
        placed(pools, p).contains(q) <==> pools.contains(q) || q == p,
        placed(pools, p).len() == pools.len() + 1,
        pooled(placed(pools, p), p.class_id, p.instance),
{
    place_fits(pools, p);
    let k = crate::recovery::place_among(pools, p) as int;
    let out = placed(pools, p);
    assert(out[k] == p);
    if pools.contains(q) {
        let i = pools.index_of(q);
        if i < k {
            assert(out[i] == q);
        } else {
            assert(out[i + 1] == q);
        }
    }
    if out.contains(q) {
        let i = out.index_of(q);
        if i < k {
            assert(pools[i] == q);
        } else if i > k {
            assert(pools[i - 1] == q);
        }
    }
}

/// An old capability is brought over only if what is stored of it agrees with itself, and a revoked one
/// leaves nothing to spend; and nothing is brought over where pools are stored already.
pub proof fn what_is_brought_over(
    c: LegacyCap,
    caps: Seq<LegacyCap>,
    classes: Seq<Class>,
    hs: Seq<Held>,
    stored_pools: nat,
)
    ensures
        cap_refusal(c) is None ==> (c.parsed matches Ok(cap) && cap@.cap_id == c.id@ && (c.revoked
            == 0 || c.revoked == 1) && (cap@.revoked <==> c.revoked == 1)),
        c.parsed matches Ok(cap) ==> (cap@.cap_id == c.id@ && c.revoked == 0 && !cap@.revoked
            ==> cap_refusal(c) is None),
        stored_pools > 0 ==> legacy_import(caps, classes, hs, stored_pools) is Err,
{
}

/// The journal and the accounts are accepted exactly when each account has its pool, each entry is of
/// a known holding and of the grade of its class, and each process holding is of the incarnation
/// that its target names.
pub proof fn when_the_books_are_accepted(
    accounts: Seq<AccountCheck>,
    journal: Seq<JournalRow>,
    classes: Seq<Class>,
    hs: Seq<Held>,
)
    ensures
        auxiliary_refusal(accounts, journal, classes, hs) is None <==> {
            &&& forall|i: int| 0 <= i < accounts.len() ==> (#[trigger] accounts[i]).pool is Ok
            &&& forall|i: int|
                0 <= i < journal.len() ==> journal_refusal(classes, hs, #[trigger] journal[i])
                    is None
            &&& forall|i: int|
                0 <= i < hs.len() ==> generation_fits((#[trigger] hs[i]).target, hs[i].generation)
        },
        forall|row: JournalRow|
            (#[trigger] journal_refusal(classes, hs, row)) is None ==> row.holding >= 0 && holding_of(
                hs,
                row.holding as u64,
            ) is Some && row.updated_at >= 0,
    decreases accounts.len(),
{
    if accounts.len() > 0 {
        let rest = accounts.drop_first();
        when_the_books_are_accepted(rest, journal, classes, hs);
        assert(forall|i: int| 0 < i < accounts.len() ==> #[trigger] accounts[i] == rest[i - 1]);
        assert(forall|i: int| 0 <= i < rest.len() ==> #[trigger] rest[i] == accounts[i + 1]);
        assert(accounts[0].pool is Ok || accounts[0].pool is Err);
    } else {
        journal_in_order(journal, classes, hs);
    }
}

proof fn journal_in_order(journal: Seq<JournalRow>, classes: Seq<Class>, hs: Seq<Held>)
    ensures
        journal_fault(journal, classes, hs) is None <==> forall|i: int|
            0 <= i < journal.len() ==> journal_refusal(classes, hs, #[trigger] journal[i]) is None,
    decreases journal.len(),
{
    if journal.len() > 0 {
        let rest = journal.drop_first();
        journal_in_order(rest, classes, hs);
        assert(forall|i: int| 0 < i < journal.len() ==> #[trigger] journal[i] == rest[i - 1]);
        assert(forall|i: int| 0 <= i < rest.len() ==> #[trigger] rest[i] == journal[i + 1]);
        assert(journal_refusal(classes, hs, journal[0]) is None || journal_refusal(
            classes,
            hs,
            journal[0],
        ) is Some);
    }
}

/// A stored target is read as what it is, and only if every process and session that it names is a
/// proper one.
pub proof fn a_stored_target_is_valid(d: TargetDto)
    ensures
        target_in(d) matches Ok(t) ==> valid_target(t),
        target_in(d) matches Ok(t) ==> {
            &&& d is AccountingOnly <==> t is AccountingOnly
            &&& d matches TargetDto::Process { process } ==> t == Target::Process(
                stored_process(process),
            )
            &&& d matches TargetDto::FileLock { path, device, inode, owner } ==> (t matches
                Target::FileLock { path: p, device: v, inode: i, owner: o } && p == path@ && v
                == device && i == inode && (o is Some <==> owner is Some))
            &&& d matches TargetDto::Port { transport, port } ==> (t matches Target::Port {
                transport: tr,
                port: n,
            } && n == port && (tr == Transport::Udp ==> transport@ == "udp"@) && (tr
                == Transport::Tcp ==> transport@ == "tcp"@))
            &&& d matches TargetDto::Subscription { host, subscription } ==> t
                == (Target::Subscription { host: stored_session(host), subscription })
            &&& d matches TargetDto::Plugin { host, process } ==> t == (Target::Plugin {
                host: stored_session(host),
                process: stored_process(process),
            })
        },
        d matches TargetDto::Process { process } ==> (target_in(d) is Ok <==> names_process(
            stored_process(process),
        )),
{
}

/// A stored obligation is read as itself, and what is read can be stored again; its state is the one
/// that is stored.
pub proof fn a_stored_obligation_is_itself(d: TaskDto, s: StateDto)
    ensures
        task_in(d) matches Ok(t) ==> fits_task(t) && t.id == d.id && t.key == d.key@ && t.holding
            == d.holding && t.generation == d.generation@ && t.attempts == d.attempts
            && t.requested_at == d.requested_at && t.updated_at == d.updated_at && state_in(d.state)
            == Ok::<Progress, Refusal>(t.state),
        task_in(d) is Ok <==> d.id >= 0 && d.key@.len() > 0 && d.holding >= 0 && d.requested_at >= 0
            && d.updated_at >= 0 && state_in(d.state) is Ok,
        state_in(s) matches Ok(p) ==> {
            &&& s is Pending <==> p is Pending
            &&& s is Running <==> p is Running
            &&& s is Retryable <==> p is Retryable
            &&& s is Unknown <==> p is Unknown
            &&& s is Blocked <==> p is Blocked
            &&& s is Confirmed <==> p == Progress::Done(Completion::Confirmed)
            &&& s is AlreadyAbsent <==> p == Progress::Done(Completion::AlreadyAbsent)
        },
{
}

/// Each run has its segment under its own name: the subject of a segment that is derived is the fiber
/// of its run with a suffix, so that it is never the fiber itself.
pub proof fn a_segment_is_of_its_run(runs: Seq<RunRow>, segments: Seq<SegmentRow>, i: int)
    requires
        0 <= i < runs.len(),
        associated(runs, segments) || derived(runs, segments),
    ensures
        exists|k: int|
            0 <= k < segments.len() && (#[trigger] segments[k]).run@ == runs[i].run@
                && segments[k].subject@ != runs[i].fiber@,
        known(runs[i]) <==> runs[i].fiber@ == "plan:"@ + runs[i].plan@ + "#"@ + runs[i].run@,
{
    if derived(runs, segments) {
        reveal_strlit(":seg");
        assert(segments[i].run@ == runs[i].run@);
        assert(segments[i].subject@.len() == runs[i].fiber@.len() + 4);
    } else {
        assert(crate::segments::sound_for(runs[i], segments));
    }
}

} // verus!

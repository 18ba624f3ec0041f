//! What is concluded from what was seen of the world, which obligations are due, and whose a
//! holding is.

use crate::cleanup::{
    ancestor, count_fate, due, ended_owner, fate_of, left_of, next_due, permits, release_scoped,
    retiring_above, settled_without_world, swept, worker_gone, Fate, Run,
};
use crate::json::{find_member, Num, Value};
use crate::records::{Held, Incarnation, Progress, Target, Task};
use crate::recovery::holding_of;
use crate::resources::{
    answer_to, hold_step, own_holding, owner_fault, positive_pid, set_in, with_member, Answer,
    HoldStep,
};
use crate::substrate::{
    stat_of, CLASS_FILE_LOCK, CLASS_PLUGIN, CLASS_PORT, CLASS_PROCESS, CLASS_SUBSCRIPTION,
};
use crate::wire::release_in;
use crate::world::{
    discharges, host_verdict, kill_verdict, legacy_absence, lock_verdict, port_verdict, presence,
    removal_verdict, signal_verdict, started, target_act, Act, LockSeen, OpenSeen, Presence,
    ReadSeen, RemovalSeen, SignalSeen, Verdict,
};
use vstd::prelude::*;

verus! {

/// A process is taken to be there exactly when the machine has not been restarted since, the
/// process can be opened, it started when the recorded one did, and it has not exited.
pub proof fn who_is_present(
    w: Incarnation,
    boot: Result<String, String>,
    opened: OpenSeen,
    stat: ReadSeen,
    exited: Result<bool, String>,
)
    ensures
        presence(w, boot, opened, stat, exited) is Present <==> {
            &&& boot matches Ok(b) && b@ == w.boot
            &&& opened is Opened
            &&& stat matches ReadSeen::Text(line) && (stat_of(line@) matches Ok(p) && p.0
                == w.start_ticks)
            &&& exited matches Ok(gone) && !gone
        },
{
}

/// A process is taken to be gone only on evidence: the machine was restarted since; or there is no
/// such process, or none that can be read; or the process of that number started at another time;
/// or it has exited.
pub proof fn who_is_absent(
    w: Incarnation,
    boot: Result<String, String>,
    opened: OpenSeen,
    stat: ReadSeen,
    exited: Result<bool, String>,
)
    ensures
        presence(w, boot, opened, stat, exited) is Absent <==> (boot matches Ok(b) && {
            ||| b@ != w.boot
            ||| opened is NoSuchProcess
            ||| opened is Opened && stat is Missing
            ||| opened is Opened && (stat matches ReadSeen::Text(line) && (stat_of(
                line@,
            ) matches Ok(p) && (p.0 != w.start_ticks || (exited matches Ok(gone) && gone))))
        }),
{
}

/// A verdict discharges exactly where the world showed that nothing is left: a process that is
/// absent, was gone when it was signalled, or was seen to exit; a lock that is missing or was
/// removed; a port that could be bound; a host that is absent. A process is signalled, and a file
/// removed, only where it is the recorded one.
pub proof fn a_discharge_has_evidence(
    p: Presence,
    s: SignalSeen,
    device: u64,
    inode: u64,
    lock: LockSeen,
    removal: RemovalSeen,
    bound: Result<(), String>,
)
    ensures
        kill_verdict(p) is None <==> p is Present,
        kill_verdict(p) matches Some(v) ==> (discharges(v) <==> p is Absent),
        discharges(signal_verdict(s)) <==> match s {
            SignalSeen::Failed { gone, .. } => gone,
            SignalSeen::Sent { exited } => exited == Ok::<bool, String>(true),
        },
        signal_verdict(s) is Confirmed <==> s == (SignalSeen::Sent { exited: Ok(true) }),
        lock_verdict(device, inode, lock) is None <==> lock == (LockSeen::Found {
            device,
            inode,
            is_file: true,
        }),
        lock_verdict(device, inode, lock) matches Some(v) ==> (discharges(v) <==> lock is Missing),
        lock is Found ==> (lock_verdict(device, inode, lock) matches Some(v) ==> v is Blocked),
        discharges(removal_verdict(removal)) <==> removal is Removed || removal is Missing,
        removal_verdict(removal) is Confirmed <==> removal is Removed,
        discharges(port_verdict(bound)) <==> bound is Ok,
        discharges(host_verdict(p)) <==> p is Absent,
        p is Present ==> host_verdict(p) is Blocked,
{
}

/// What is done for a target: a process and a plugin are killed by their own incarnation, a lock is
/// removed by its own file, a port is bound, a subscription is at an end when its host is, and
/// nothing is acted on where the account is all there is or where it is not known what to do; of
/// those only the account is discharged.
pub proof fn what_is_done_for_a_target(target: Target, local_host_gone: bool)
    ensures
        target matches Target::Process(w) ==> target_act(target, local_host_gone) == Act::Kill(w),
        target matches Target::Plugin { host, process } ==> target_act(target, local_host_gone)
            == Act::Kill(process),
        target matches Target::FileLock { path, device, inode, owner } ==> target_act(
            target,
            local_host_gone,
        ) == (Act::RemoveLock { path, device, inode }),
        target matches Target::Port { transport, port } ==> target_act(target, local_host_gone)
            == (Act::Bind { transport, port }),
        target matches Target::Subscription { host, subscription } ==> target_act(target, false)
            == Act::FindHost(host.process) && target_act(target, true) == Act::Finish(
            Verdict::AlreadyAbsent,
        ),
        target_act(target, local_host_gone) matches Act::Finish(v) ==> (discharges(v) <==> target
            is AccountingOnly || (target is Subscription && local_host_gone)),
        settled_without_world(target) is Some <==> target is AccountingOnly || target is Unresolved,
        settled_without_world(target) matches Some(v) ==> (discharges(v) <==> target
            is AccountingOnly),
{
}

/// A process that was recorded without its boot is taken to be gone only where no process of that
/// number can be read, one is read that started at another time, or it is seen to be absent.
pub proof fn an_old_record_is_absent_on_evidence(start: u64, stat: ReadSeen, present: Presence)
    ensures
        legacy_absence(start, stat, present) == Ok::<bool, Seq<char>>(true) <==> {
            ||| stat is Missing
            ||| stat matches ReadSeen::Text(line) && (stat_of(line@) matches Ok(p) && (p.0 != start
                || present is Absent))
        },
        legacy_absence(start, stat, present) == Ok::<bool, Seq<char>>(false) <==> (stat matches
            ReadSeen::Text(line) && (stat_of(line@) matches Ok(p) && p.0 == start && present
            is Present)),
{
}

/// The next obligation of a pass is the first one that is due from there on: not done, of a holding
/// that the pass may attempt, and not attempted before; and none is only where no such one is
/// left.
pub proof fn the_next_is_the_first_that_is_due(run: Run, from: nat)
    requires
        from <= run.tasks.len(),
    ensures
        ({
            let k = next_due(run, from);
            &&& from <= k <= run.tasks.len()
            &&& forall|i: int|
                from <= i < k ==> {
                    let t = #[trigger] run.tasks[i];
                    t.state is Done || run.attempted.contains(t.id) || (run.allowed matches Some(
                        ids,
                    ) && !ids.contains(t.holding))
                }
            &&& k < run.tasks.len() ==> {
                let t = run.tasks[k as int];
                &&& !(t.state is Done)
                &&& !run.attempted.contains(t.id)
                &&& run.allowed matches Some(ids) ==> ids.contains(t.holding)
            }
        }),
    decreases run.tasks.len() - from,
{
    if from < run.tasks.len() && !due(run, run.tasks[from as int]) {
        the_next_is_the_first_that_is_due(run, from + 1);
    }
}

/// What is left of obligations are those that are not done, of the holdings that are asked about, in
/// their order.
pub proof fn what_is_left_is_not_done(tasks: Seq<Task>, scope: Option<Seq<u64>>)
    ensures
        left_of(tasks, scope) == tasks.filter(
            |t: Task|
                !(t.state is Done) && (scope is None || scope->0.contains(t.holding)),
        ),
    decreases tasks.len(),
{
    reveal(Seq::filter);
    if tasks.len() > 0 {
        what_is_left_is_not_done(tasks.drop_last(), scope);
    } else {
        assert(left_of(tasks, scope) =~= tasks.filter(
            |t: Task|
                !(t.state is Done) && (scope is None || scope->0.contains(t.holding)),
        ));
    }
}

/// Ancestry goes up by parents: no step is the holding itself, one step is its parent, and steps
/// after steps are the steps together.
pub proof fn ancestry_goes_up(hs: Seq<Held>, id: u64, a: nat, b: nat)
    ensures
        ancestor(hs, id, 0) == Some(id),
        ancestor(hs, id, 1) == match holding_of(hs, id) {
            Some(h) => h.parent,
            None => None,
        },
        ancestor(hs, id, a) matches Some(mid) ==> ancestor(hs, id, a + b) == ancestor(hs, mid, b),
        ancestor(hs, id, a) is None ==> ancestor(hs, id, a + b) is None,
    decreases b,
{
    reveal_with_fuel(ancestor, 2);
    if b > 0 {
        ancestry_goes_up(hs, id, a, (b - 1) as nat);
        assert((a + b - 1) as nat == a + (b - 1) as nat);
    }
}

/// An obligation may be attempted exactly for a holding that is asked about, or for one that is
/// being retired above such a one.
pub proof fn whom_a_scope_permits(hs: Seq<Held>, scope: Seq<u64>, id: u64)
    ensures
        permits(hs, scope, id) <==> scope.contains(id) || exists|i: int, n: nat|
            #![trigger ancestor(hs, scope[i], n)]
            0 <= i < scope.len() && 0 < n <= hs.len() && ancestor(hs, scope[i], n) == Some(id)
                && (holding_of(hs, id) matches Some(h) && h.state is Retiring),
{
    if exists|i: int, n: nat|
        #![trigger ancestor(hs, scope[i], n)]
        0 <= i < scope.len() && 0 < n <= hs.len() && ancestor(hs, scope[i], n) == Some(id)
            && (holding_of(hs, id) matches Some(h) && h.state is Retiring) {
        let (i, n) = choose|i: int, n: nat|
            #![trigger ancestor(hs, scope[i], n)]
            0 <= i < scope.len() && 0 < n <= hs.len() && ancestor(hs, scope[i], n) == Some(id)
                && (holding_of(hs, id) matches Some(h) && h.state is Retiring);
        assert(retiring_above(hs, scope[i], id));
    }
    if !scope.contains(id) && permits(hs, scope, id) {
        let i = choose|i: int| 0 <= i < scope.len() && retiring_above(hs, #[trigger] scope[i], id);
        let n = choose|n: nat|
            0 < n <= hs.len() && #[trigger] ancestor(hs, scope[i], n) == Some(id) && holding_of(
                hs,
                id,
            ) is Some && holding_of(hs, id)->0.state is Retiring;
        assert(ancestor(hs, scope[i], n) == Some(id));
    }
}

/// The worker of an obligation is gone: one of this process when it is no longer known, one of
/// another process when that process is seen to be absent, and never because it was not seen.
pub proof fn a_worker_is_gone_on_evidence(same_process: bool, known: bool, p: Presence)
    ensures
        worker_gone(true, known, p) <==> !known,
        worker_gone(false, known, p) <==> p is Absent,
        !(p is Absent) && known ==> !worker_gone(same_process, known, p),
{
}

/// A release is about the holding itself and those below it that are no longer active, and about no
/// others.
pub proof fn a_release_spares_the_active(hs: Seq<Held>, root: u64, subtree: Seq<u64>, id: u64)
    ensures
        release_scoped(hs, root, subtree).contains(id) <==> id == root || (subtree.contains(id) && (
        holding_of(hs, id) matches Some(h) && !(h.state is Active))),
    decreases subtree.len(),
{
    if subtree.len() == 0 {
        assert(seq![root].contains(id) <==> id == root) by {
            assert(seq![root][0] == root);
        }
    } else {
        let init = subtree.drop_last();
        let last = subtree.last();
        a_release_spares_the_active(hs, root, init, id);
        in_push(init, last, id);
        assert(init.push(last) =~= subtree);
        in_push(release_scoped(hs, root, init), last, id);
    }
}

proof fn in_push<T>(s: Seq<T>, x: T, y: T)
    ensures
        s.push(x).contains(y) <==> s.contains(y) || x == y,
{
    if s.contains(y) {
        let i = s.index_of(y);
        assert(s.push(x)[i] == y);
    }
    if s.push(x).contains(y) {
        let i = s.push(x).index_of(y);
        if i < s.len() {
            assert(s[i] == y);
        }
    }
    assert(s.push(x)[s.len() as int] == x);
}

/// An exit collects for the subject of the holding, and only while that holding occupies its
/// resource in the very incarnation that exited.
pub proof fn an_exit_is_of_its_incarnation(hs: Seq<Held>, id: u64, generation: Seq<char>)
    ensures
        ended_owner(hs, id, generation) matches Some(s) ==> (holding_of(hs, id) matches Some(h)
            && h.subject == s && h.generation == generation && !(h.state is Retired)),
        holding_of(hs, id) matches Some(h) ==> (h.generation == generation && (h.state is Active
            || h.state is Retiring) ==> ended_owner(hs, id, generation) == Some(h.subject)),
{
}

/// Every holding of the previous run has one fate, and what is told of it fits: only a process is
/// killed or gone, only a port is free or bound, only a lock is removed or kept; and killed means
/// that it was discharged by acting.
pub proof fn a_fate_fits_its_class(class: Seq<char>, completed: bool, confirmed: bool)
    ensures
        fate_of(class, completed, confirmed) == Fate::ProcessKilled ==> class == CLASS_PROCESS@
            && completed && confirmed,
        fate_of(class, completed, confirmed) == Fate::ProcessGone ==> class == CLASS_PROCESS@
            && completed && !confirmed,
        fate_of(class, completed, confirmed) == Fate::PortFree ==> class == CLASS_PORT@
            && completed,
        fate_of(class, completed, confirmed) == Fate::PortBound ==> class == CLASS_PORT@
            && !completed,
        fate_of(class, completed, confirmed) == Fate::LockRemoved ==> class == CLASS_FILE_LOCK@
            && completed,
        fate_of(class, completed, confirmed) == Fate::LockKept ==> class == CLASS_FILE_LOCK@
            && !completed,
        fate_of(class, completed, confirmed) == Fate::Stale ==> completed && (class
            == CLASS_PLUGIN@ || class == CLASS_SUBSCRIPTION@),
        completed ==> fate_of(CLASS_PROCESS@, completed, confirmed) != Fate::Nothing,
        fate_of(CLASS_PORT@, completed, confirmed) != Fate::Nothing,
        fate_of(CLASS_FILE_LOCK@, completed, confirmed) != Fate::Nothing,
{
    reveal_strlit("kernel/process");
    reveal_strlit("kernel/port");
    reveal_strlit("kernel/file-lock");
}

/// The fates that are counted are those of all the holdings, each counted once.
pub proof fn fates_are_counted_once(
    before: Seq<Held>,
    completed: Set<u64>,
    tasks: Seq<Task>,
    n: nat,
)
    ensures
        count_fate(before, completed, tasks, Fate::ProcessKilled, n) + count_fate(
            before,
            completed,
            tasks,
            Fate::ProcessGone,
            n,
        ) + count_fate(before, completed, tasks, Fate::PortFree, n) + count_fate(
            before,
            completed,
            tasks,
            Fate::PortBound,
            n,
        ) + count_fate(before, completed, tasks, Fate::LockRemoved, n) + count_fate(
            before,
            completed,
            tasks,
            Fate::LockKept,
            n,
        ) + count_fate(before, completed, tasks, Fate::Stale, n) + count_fate(
            before,
            completed,
            tasks,
            Fate::Nothing,
            n,
        ) == n,
    decreases n,
{
    if n > 0 {
        fates_are_counted_once(before, completed, tasks, (n - 1) as nat);
    }
}

/// What was swept is told of each holding that was discharged, in order: its own class and instance.
pub proof fn what_was_swept_is_told(
    hs: Seq<Held>,
    done: Seq<(u64, Seq<char>)>,
    n: nat,
    i: int,
)
    requires
        n <= done.len(),
        0 <= i < n,
    ensures
        swept(hs, done, n) matches Some(s) ==> s.len() == n && (holding_of(hs, done[i].0) matches
            Some(h) && s[i] == (h.id, h.class_id, h.instance)),
    decreases n,
{
    if n > 0 {
        if i < n - 1 {
            what_was_swept_is_told(hs, done, (n - 1) as nat, i);
        }
        swept_len(hs, done, (n - 1) as nat);
    }
}

proof fn swept_len(hs: Seq<Held>, done: Seq<(u64, Seq<char>)>, n: nat)
    ensures
        swept(hs, done, n) matches Some(s) ==> s.len() == n,
    decreases n,
{
    if n > 0 {
        swept_len(hs, done, (n - 1) as nat);
    }
}

/// A plugin may name only a holding of its own: one that is known, and whose subject is the plugin.
pub proof fn a_plugin_has_its_own(
    op: Seq<char>,
    hs: Seq<Held>,
    id: u64,
    name: Seq<char>,
    req: Value,
)
    ensures
        owner_fault(op, hs, id, name) is None <==> (holding_of(hs, id) matches Some(h) && h.subject
            == "plugin:"@ + name),
        own_holding(req, hs, name) matches Ok(r) ==> release_in(req) == Ok::<
            crate::wire::Ref,
            crate::wire::Trouble,
        >(r) && (holding_of(hs, r.id) matches Some(h) && h.subject == "plugin:"@ + name),
{
}

/// A process number is read from a whole number between one and the largest process number, and is
/// that number.
pub proof fn a_process_number_is_positive(v: Option<Value>)
    ensures
        positive_pid(v) matches Some(p) ==> 1 <= p <= 0x7fff_ffff && v == Some(
            Value::Number(Num::Nat(p as u64)),
        ),
        v matches Some(Value::Number(Num::Nat(n))) ==> (1 <= n <= 0x7fff_ffff ==> positive_pid(v)
            == Some(n as u32)),
        positive_pid(v) is None ==> !(v matches Some(Value::Number(Num::Nat(n))) && 1 <= n
            <= 0x7fff_ffff),
{
}

/// A request to hold names an instance, and one for a process names it by its number.
pub proof fn a_hold_names_what_it_holds(class: Seq<char>, instance: Seq<char>, substrate: Value)
    ensures
        instance.len() == 0 ==> hold_step(class, instance, substrate) is Err,
        instance.len() > 0 && class == CLASS_PROCESS@ ==> match hold_step(
            class,
            instance,
            substrate,
        ) {
            Ok(step) => exists|pid: u32|
                step == HoldStep::Process(pid) && pid > 0 && crate::json::member(
                    substrate,
                    "pid"@,
                ) == Some(Value::Number(Num::Nat(pid as u64))),
            Err(_) => positive_pid(crate::json::member(substrate, "pid"@)) is None,
        },
        hold_step(class, instance, substrate) matches Ok(HoldStep::Process(_)) ==> class
            == CLASS_PROCESS@,
        hold_step(class, instance, substrate) matches Ok(HoldStep::Owner(_)) ==> class
            == CLASS_FILE_LOCK@,
{
}

/// Setting a member sets that member and no other: it is found under its name, and every other name
/// finds what it found before.
pub proof fn setting_a_member_sets_one(
    ms: Seq<(Seq<char>, Value)>,
    name: Seq<char>,
    v: Value,
    other: Seq<char>,
)
    ensures
        find_member(with_member(ms, name, v), name) == Some(v),
        other != name ==> find_member(with_member(ms, name, v), other) == find_member(ms, other),
        set_in(Value::Object(ms), name, v) == Value::Object(with_member(ms, name, v)),
    decreases ms.len(),
{
    let out = with_member(ms, name, v);
    if ms.len() == 0 {
        assert(out.drop_first() =~= ms);
    } else if ms[0].0 == name {
        assert(out.drop_first() =~= ms.drop_first());
    } else {
        setting_a_member_sets_one(ms.drop_first(), name, v, other);
        assert(out.drop_first() =~= with_member(ms.drop_first(), name, v));
    }
}

/// A release is answered by the first obligation that is left, as it stands.
pub proof fn a_release_is_answered_by_what_is_left(pending: Seq<Task>)
    ensures
        answer_to(pending) is Released <==> pending.len() == 0,
        pending.len() > 0 ==> match answer_to(pending) {
            Answer::Released => false,
            Answer::Pending(id) => id == pending[0].id && !(pending[0].state is Retryable)
                && !(pending[0].state is Unknown) && !(pending[0].state is Blocked),
            Answer::Retryable(id, r) => id == pending[0].id && pending[0].state
                == Progress::Retryable(r),
            Answer::Unknown(id, r) => id == pending[0].id && pending[0].state == Progress::Unknown(
                r,
            ),
            Answer::Blocked(id, r) => id == pending[0].id && pending[0].state == Progress::Blocked(
                r,
            ),
        },
{
}

} // verus!

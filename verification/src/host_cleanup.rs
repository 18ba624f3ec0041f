//! Cleanup inside a host: what it holds itself it removes itself, and only in the session that the
//! obligation names. Beside it, the order in which rows that a dead process left are released.

use crate::cleanup::contains_id;
use crate::error::{joined_text, KernelError, Refusal};
use crate::json::{
    member, named_values, nat_of, no_members, number, put, text, values, Json, Num, Value,
};
use crate::records::{
    corrupt, held_views, storage_fault, CleanupTarget, Held, HoldingRecord, HostWitness,
    Incarnation, ProcessWitness, Session, Target,
};
use crate::recovery::{find_holding, holding_of};
use crate::substrate::{CLASS_FILE_LOCK, CLASS_PORT, CLASS_PROCESS};
use crate::text::same;
use crate::world::{discharges, CleanupOutcome, RemovalSeen, Verdict};
use vstd::prelude::*;

verus! {

/// What a host does to clean up a target.
pub enum HostAct<'a> {
    /// Removes this subscription.
    RemoveSub(u64),
    /// Stops the plugin that this process is.
    StopPlugin(&'a ProcessWitness),
    /// Nothing of its own: the target is cleaned up from outside.
    Elsewhere,
}

/// What a host does to clean up a target.
pub enum Deed {
    RemoveSub(u64),
    StopPlugin(Incarnation),
    Elsewhere,
}

impl<'a> View for HostAct<'a> {
    type V = Deed;

    open spec fn view(&self) -> Deed {
        match self {
            HostAct::RemoveSub(n) => Deed::RemoveSub(*n),
            HostAct::StopPlugin(w) => Deed::StopPlugin(w@),
            HostAct::Elsewhere => Deed::Elsewhere,
        }
    }
}

/// What a host of a session does to clean up a target.
pub open spec fn host_deed(target: Target, own: Session) -> Deed {
    match target {
        Target::Subscription { host, subscription } => if host == own {
            Deed::RemoveSub(subscription)
        } else {
            Deed::Elsewhere
        },
        Target::Plugin { host, process } => if host == own {
            Deed::StopPlugin(process)
        } else {
            Deed::Elsewhere
        },
        _ => Deed::Elsewhere,
    }
}

/// Whether two witnesses name the same session.
pub fn same_session(a: &HostWitness, b: &HostWitness) -> (r: bool)
    ensures
        r == (a@ == b@),
{
    a.process.pid == b.process.pid && a.process.start_ticks == b.process.start_ticks && same(
        a.process.boot.as_str(),
        b.process.boot.as_str(),
    ) && same(a.session.as_str(), b.session.as_str())
}

/// What a host of a session does to clean up a target.
pub fn execute<'a>(target: &'a CleanupTarget, own: &HostWitness) -> (r: HostAct<'a>)
    ensures
        r@ == host_deed(target@, own@),
{
    match target {
        CleanupTarget::Subscription { host, subscription } => if same_session(host, own) {
            HostAct::RemoveSub(*subscription)
        } else {
            HostAct::Elsewhere
        },
        CleanupTarget::Plugin { host, process } => if same_session(host, own) {
            HostAct::StopPlugin(process)
        } else {
            HostAct::Elsewhere
        },
        _ => HostAct::Elsewhere,
    }
}

/// How the removal of a subscription came out.
pub fn after_unsubscribe(removed: bool) -> (o: CleanupOutcome)
    ensures
        o@ == if removed {
            Verdict::Confirmed
        } else {
            Verdict::AlreadyAbsent
        },
{
    if removed {
        CleanupOutcome::Confirmed
    } else {
        CleanupOutcome::AlreadyAbsent
    }
}

/// How stopping a plugin came out. A process that is gone discharges it only once the plugin was
/// reaped and its socket is gone, where the host still knew it.
pub open spec fn stop_verdict(
    stopped: Verdict,
    known: bool,
    reaped: Result<(), String>,
    socket: RemovalSeen,
) -> Verdict {
    if !discharges(stopped) || !known {
        stopped
    } else {
        match reaped {
            Err(e) => Verdict::Retryable(e@),
            Ok(_) => match socket {
                RemovalSeen::Failed(e) => Verdict::Retryable(e@),
                _ => stopped,
            },
        }
    }
}

/// How stopping a plugin came out.
pub fn after_stop(
    stopped: CleanupOutcome,
    known: bool,
    reaped: &Result<(), String>,
    socket: &RemovalSeen,
) -> (o: CleanupOutcome)
    ensures
        o@ == stop_verdict(stopped@, known, *reaped, *socket),
{
    if !stopped.is_complete() || !known {
        return stopped;
    }
    match reaped {
        Err(e) => CleanupOutcome::Retryable(e.clone()),
        Ok(_) => match socket {
            RemovalSeen::Failed(e) => CleanupOutcome::Retryable(e.clone()),
            _ => stopped,
        },
    }
}

/// Numbers as values.
pub open spec fn number_values(v: Seq<u64>) -> Seq<Value> {
    Seq::new(v.len(), |i: int| Value::Number(Num::Nat(v[i])))
}

/// What is recorded of a plugin that was reclaimed; nothing where nothing was released and nothing
/// is left.
pub open spec fn reclaim_record(
    name: Seq<char>,
    reason: Seq<char>,
    released: u64,
    pending: Seq<u64>,
) -> Option<Value> {
    if released == 0 && pending.len() == 0 {
        None
    } else {
        Some(
            Value::Object(
                seq![
                    ("event"@, Value::Str("plugin.reclaimed"@)),
                    ("plugin"@, Value::Str(name)),
                    ("reason"@, Value::Str(reason)),
                    ("released"@, Value::Number(Num::Nat(released))),
                    ("pending"@, Value::Array(number_values(pending))),
                ],
            ),
        )
    }
}

/// What is recorded of a plugin that was reclaimed.
pub fn reclaimed(name: &str, reason: &str, released: u64, pending: &Vec<u64>) -> (r: Option<Json>)
    ensures
        match r {
            Some(j) => reclaim_record(name@, reason@, released, pending@) == Some(j@),
            None => reclaim_record(name@, reason@, released, pending@) is None,
        },
{
    if released == 0 && pending.len() == 0 {
        return None;
    }
    let mut items: Vec<Json> = Vec::new();
    let mut i: usize = 0;
    while i < pending.len()
        invariant
            i <= pending@.len(),
            items@.len() == i,
            forall|k: int|
                0 <= k < i ==> (#[trigger] items@[k])@ == Value::Number(Num::Nat(pending@[k])),
        decreases pending.len() - i,
    {
        items.push(number(pending[i]));
        i = i + 1;
    }
    assert(values(items@) =~= number_values(pending@));
    let mut ms: Vec<(String, Json)> = no_members();
    put(&mut ms, "event", text("plugin.reclaimed"));
    put(&mut ms, "plugin", text(name));
    put(&mut ms, "reason", text(reason));
    put(&mut ms, "released", number(released));
    put(&mut ms, "pending", Json::Array(items));
    assert(named_values(ms@) =~= seq![
        ("event"@, Value::Str("plugin.reclaimed"@)),
        ("plugin"@, Value::Str(name@)),
        ("reason"@, Value::Str(reason@)),
        ("released"@, Value::Number(Num::Nat(released))),
        ("pending"@, Value::Array(number_values(pending@))),
    ]);
    let j = Json::Object(ms);
    assert(j@ == Value::Object(named_values(ms@)));
    Some(j)
}

/// Whether a holding can be released once others were: it still occupies its resource, and nothing
/// that occupies one hangs under it.
pub open spec fn releasable(hs: Seq<Held>, gone: Seq<u64>, id: u64) -> bool {
    &&& holding_of(hs, id) matches Some(h) && h.state.spec_occupies()
    &&& !gone.contains(id)
    &&& forall|j: int|
        0 <= j < hs.len() && (#[trigger] hs[j]).parent == Some(id) && hs[j].state.spec_occupies()
            ==> gone.contains(hs[j].id)
}

/// One pass over holdings: those that can be released are, and the others stay.
pub open spec fn pass(hs: Seq<Held>, stale: Seq<u64>, gone: Seq<u64>) -> (Seq<u64>, Seq<u64>)
    decreases stale.len(),
{
    if stale.len() == 0 {
        (Seq::empty(), gone)
    } else {
        let before = pass(hs, stale.drop_last(), gone);
        if releasable(hs, before.1, stale.last()) {
            (before.0, before.1.push(stale.last()))
        } else {
            (before.0.push(stale.last()), before.1)
        }
    }
}

/// A pass releases as many as leave the list.
pub proof fn passes_shrink(hs: Seq<Held>, stale: Seq<u64>, gone: Seq<u64>)
    ensures
        pass(hs, stale, gone).0.len() + pass(hs, stale, gone).1.len() == stale.len() + gone.len(),
        pass(hs, stale, gone).0.len() <= stale.len(),
    decreases stale.len(),
{
    if stale.len() > 0 {
        passes_shrink(hs, stale.drop_last(), gone);
    }
}

/// The holdings that were released, in order, once no pass releases any more.
pub open spec fn released_order(hs: Seq<Held>, stale: Seq<u64>, gone: Seq<u64>) -> Seq<u64>
    decreases stale.len(),
{
    let p = pass(hs, stale, gone);
    if p.0.len() < stale.len() {
        released_order(hs, p.0, p.1)
    } else {
        gone
    }
}

fn can_release(holdings: &Vec<HoldingRecord>, gone: &Vec<u64>, id: u64) -> (b: bool)
    ensures
        b == releasable(held_views(holdings@), gone@, id),
{
    let ghost hs = held_views(holdings@);
    let occupied: bool = match find_holding(holdings, id) {
        Some(h) => h.state.occupies(),
        None => false,
    };
    if !occupied || contains_id(gone, id) {
        return false;
    }
    let mut j: usize = 0;
    while j < holdings.len()
        invariant
            j <= holdings@.len(),
            hs == held_views(holdings@),
            forall|k: int|
                0 <= k < j && (#[trigger] hs[k]).parent == Some(id) && hs[k].state.spec_occupies()
                    ==> gone@.contains(hs[k].id),
        decreases holdings.len() - j,
    {
        assert(hs[j as int] == holdings@[j as int]@);
        if let Some(p) = holdings[j].parent {
            if p == id && holdings[j].state.occupies() && !contains_id(gone, holdings[j].id) {
                return false;
            }
        }
        j = j + 1;
    }
    true
}

/// The order in which holdings that a dead process left are released: a parent waits for what
/// hangs under it, so passes are made until one releases nothing.
pub fn reconcile_stale(holdings: &Vec<HoldingRecord>, stale: Vec<u64>) -> (r: Vec<u64>)
    ensures
        r@ == released_order(held_views(holdings@), stale@, Seq::empty()),
{
    let ghost hs = held_views(holdings@);
    let ghost all = released_order(hs, stale@, Seq::empty());
    let mut left: Vec<u64> = stale;
    let mut gone: Vec<u64> = Vec::new();
    let mut progressed: bool = true;
    while progressed
        invariant
            hs == held_views(holdings@),
            progressed ==> released_order(hs, left@, gone@) == all,
            !progressed ==> gone@ == all,
        decreases
                left@.len() + if progressed {
                    1nat
                } else {
                    0nat
                },
    {
        let ghost before = left@;
        let ghost gone0 = gone@;
        let mut kept: Vec<u64> = Vec::new();
        let mut i: usize = 0;
        assert(before.take(0) =~= Seq::<u64>::empty());
        while i < left.len()
            invariant
                i <= left@.len(),
                left@ == before,
                hs == held_views(holdings@),
                (kept@, gone@) == pass(hs, before.take(i as int), gone0),
            decreases left.len() - i,
        {
            assert(before.take(i + 1).drop_last() =~= before.take(i as int));
            assert(before.take(i + 1).last() == before[i as int]);
            let id: u64 = left[i];
            if can_release(holdings, &gone, id) {
                gone.push(id);
            } else {
                kept.push(id);
            }
            i = i + 1;
        }
        proof {
            assert(before.take(i as int) =~= before);
            passes_shrink(hs, before, gone0);
        }
        progressed = kept.len() < left.len();
        proof {
            if !progressed {
                assert(gone@.len() == gone0.len());
                nothing_released(hs, before, gone0);
            }
        }
        left = kept;
    }
    gone
}

proof fn nothing_released(hs: Seq<Held>, stale: Seq<u64>, gone: Seq<u64>)
    requires
        pass(hs, stale, gone).0.len() == stale.len(),
    ensures
        pass(hs, stale, gone).1 == gone,
    decreases stale.len(),
{
    if stale.len() > 0 {
        passes_shrink(hs, stale.drop_last(), gone);
        nothing_released(hs, stale.drop_last(), gone);
    }
}

/// Whether an order keeps children before their parents: what is released comes after all that
/// occupied a resource under it.
pub open spec fn children_first(hs: Seq<Held>, order: Seq<u64>) -> bool {
    forall|i: int, j: int|
        0 <= i < order.len() && 0 <= j < hs.len() && (#[trigger] hs[j]).parent == Some(
            #[trigger] order[i],
        ) && hs[j].state.spec_occupies() ==> order.take(i).contains(hs[j].id)
}

proof fn pass_keeps_order(hs: Seq<Held>, stale: Seq<u64>, gone: Seq<u64>)
    requires
        children_first(hs, gone),
        gone.no_duplicates(),
    ensures
        children_first(hs, pass(hs, stale, gone).1),
        pass(hs, stale, gone).1.no_duplicates(),
    decreases stale.len(),
{
    if stale.len() > 0 {
        pass_keeps_order(hs, stale.drop_last(), gone);
        let before = pass(hs, stale.drop_last(), gone).1;
        let id = stale.last();
        if releasable(hs, before, id) {
            let order = before.push(id);
            assert forall|i: int, j: int|
                0 <= i < order.len() && 0 <= j < hs.len() && (#[trigger] hs[j]).parent == Some(
                    #[trigger] order[i],
                ) && hs[j].state.spec_occupies() implies order.take(i).contains(hs[j].id) by {
                if i < before.len() {
                    assert(before[i] == order[i]);
                    assert(order.take(i) =~= before.take(i));
                } else {
                    assert(order.take(i) =~= before);
                }
            }
        }
    }
}

/// Children are released before their parents, and nothing is released twice.
pub proof fn stale_rows_go_children_first(hs: Seq<Held>, stale: Seq<u64>, gone: Seq<u64>)
    requires
        children_first(hs, gone),
        gone.no_duplicates(),
    ensures
        children_first(hs, released_order(hs, stale, gone)),
        released_order(hs, stale, gone).no_duplicates(),
    decreases stale.len(),
{
    let p = pass(hs, stale, gone);
    if p.0.len() < stale.len() {
        pass_keeps_order(hs, stale, gone);
        stale_rows_go_children_first(hs, p.0, p.1);
    }
}

/// Why a number of a process in a record is refused.
pub open spec fn recorded_pid_fault(v: Value, field: Seq<char>) -> Option<Refusal> {
    match member(v, field) {
        None => Some(storage_fault("substrate."@ + field + " required"@)),
        Some(x) => match nat_of(x) {
            None => Some(storage_fault("substrate."@ + field + " required"@)),
            Some(n) => if n == 0 || n > i32::MAX {
                Some(storage_fault("substrate."@ + field + " out of range"@))
            } else {
                None
            },
        },
    }
}

fn check_pid(v: &Json, field: &str) -> (r: Result<(), KernelError>)
    ensures
        match r {
            Ok(_) => recorded_pid_fault(v@, field@) is None,
            Err(e) => recorded_pid_fault(v@, field@) == Some(e@),
        },
{
    let n: Option<u64> = match v.get(field) {
        None => None,
        Some(x) => x.as_u64(),
    };
    match n {
        None => {
            let mut s: String = joined_text("substrate.", field);
            s.append(" required");
            Err(corrupt(s.as_str()))
        },
        Some(k) => if k == 0 || k > 0x7fff_ffff {
            let mut s: String = joined_text("substrate.", field);
            s.append(" out of range");
            Err(corrupt(s.as_str()))
        } else {
            Ok(())
        },
    }
}

/// Why a record of what stands behind a holding is refused.
pub open spec fn substrate_fault(class: Seq<char>, v: Value) -> Option<Refusal> {
    if !(v is Object) {
        Some(storage_fault("substrate must be an object"@))
    } else if class == CLASS_PROCESS@ {
        if recorded_pid_fault(v, "pid"@) is Some {
            recorded_pid_fault(v, "pid"@)
        } else if member(v, "start"@) is None || nat_of(member(v, "start"@)->0) is None {
            Some(storage_fault("substrate.start required"@))
        } else {
            None
        }
    } else if class == CLASS_FILE_LOCK@ {
        if member(v, "owner_pid"@) is Some && recorded_pid_fault(v, "owner_pid"@) is Some {
            recorded_pid_fault(v, "owner_pid"@)
        } else if member(v, "owner_start"@) is Some && nat_of(
            member(v, "owner_start"@)->0,
        ) is None {
            Some(storage_fault("substrate.owner_start must be unsigned"@))
        } else {
            None
        }
    } else if class == CLASS_PORT@ {
        None
    } else {
        Some(storage_fault("unknown substrate class "@ + class))
    }
}

/// Checks a record of what stands behind a holding.
pub fn validate_substrate(class: &str, value: &Json) -> (r: Result<(), KernelError>)
    ensures
        match r {
            Ok(_) => substrate_fault(class@, value@) is None,
            Err(e) => substrate_fault(class@, value@) == Some(e@),
        },
{
    if !value.is_object() {
        return Err(corrupt("substrate must be an object"));
    }
    if same(class, CLASS_PROCESS) {
        match check_pid(value, "pid") {
            Ok(_) => {},
            Err(e) => {
                return Err(e);
            },
        }
        let started: bool = match value.get("start") {
            None => false,
            Some(x) => x.as_u64().is_some(),
        };
        if started {
            Ok(())
        } else {
            Err(corrupt("substrate.start required"))
        }
    } else if same(class, CLASS_FILE_LOCK) {
        if value.get("owner_pid").is_some() {
            match check_pid(value, "owner_pid") {
                Ok(_) => {},
                Err(e) => {
                    return Err(e);
                },
            }
        }
        let bad: bool = match value.get("owner_start") {
            None => false,
            Some(x) => x.as_u64().is_none(),
        };
        if bad {
            Err(corrupt("substrate.owner_start must be unsigned"))
        } else {
            Ok(())
        }
    } else if same(class, CLASS_PORT) {
        Ok(())
    } else {
        Err(corrupt(joined_text("unknown substrate class ", class).as_str()))
    }
}

} // verus!

//! What to do, on opening, with the processes, ports and lock files that a dead incarnation of the
//! kernel left behind, and which entries of the historical journal are still open.

use crate::cleanup::{contains_id, SubstrateReconcile};
use crate::error::{KernelError, Refusal};
use crate::host_cleanup::{substrate_fault, validate_substrate};
use crate::json::{member, nat_of, Json, Value};
use crate::records::{grade_from_str, grade_text, JournalState, RevertGrade, Transport};
use crate::substrate::{
    holdable, may_hold, pid_in, read_pid, CLASS_FILE_LOCK, CLASS_PORT, CLASS_PROCESS,
};
use crate::text::{find_last, occurs_at, parse_number, parsed_number, same};
use vstd::prelude::*;

verus! {

/// A live holding with the record of what stands behind it.
#[derive(Debug)]
pub struct Behind {
    pub id: u64,
    pub class: String,
    pub instance: String,
    pub detail: Json,
}

/// What stands behind a holding, as it is looked for in the world.
#[derive(Debug, PartialEq, Eq)]
pub enum Remnant {
    Process { id: u64, pid: u32, start: u64 },
    Port { id: u64, transport: Transport, port: u16 },
    Lock { id: u64, path: String, owner: Option<u32>, owner_start: u64 },
}

/// What stands behind a holding.
pub enum Remains {
    Process { id: u64, pid: u32, start: u64 },
    Port { id: u64, transport: Transport, port: u16 },
    Lock { id: u64, path: Seq<char>, owner: Option<u32>, owner_start: u64 },
}

impl View for Remnant {
    type V = Remains;

    open spec fn view(&self) -> Remains {
        match *self {
            Remnant::Process { id, pid, start } => Remains::Process { id, pid, start },
            Remnant::Port { id, transport, port } => Remains::Port { id, transport, port },
            Remnant::Lock { id, path, owner, owner_start } => Remains::Lock {
                id,
                path: path@,
                owner,
                owner_start,
            },
        }
    }
}

/// What each of several remnants holds.
pub open spec fn remains(v: Seq<Remnant>) -> Seq<Remains> {
    Seq::new(v.len(), |i: int| v[i]@)
}

/// Whether a text is cut at its last colon into two.
pub open spec fn cut_at_last_colon(s: Seq<char>, before: Seq<char>, after: Seq<char>) -> bool {
    &&& s == before + ":"@ + after
    &&& !after.contains(':')
}

/// The port that an instance names: what stands before the last colon is the transport, and what
/// does not read as a port is port zero.
pub open spec fn named_port(instance: Seq<char>, transport: Transport, port: u16) -> bool {
    if !instance.contains(':') {
        transport == Transport::Tcp && port == 0
    } else {
        exists|before: Seq<char>, after: Seq<char>| #[trigger]
            cut_at_last_colon(instance, before, after) && transport == (if before == "udp"@ {
                Transport::Udp
            } else {
                Transport::Tcp
            }) && port == match parsed_number(after, u16::MAX as nat) {
                Some(n) => n as u16,
                None => 0,
            }
    }
}

/// The port that an instance names.
pub fn probed_port(instance: &str) -> (r: (Transport, u16))
    ensures
        named_port(instance@, r.0, r.1),
{
    proof {
        reveal_strlit(":");
        assert(":"@.len() == 1);
        assert(":"@[0] == ':');
        assert forall|j: int| 0 <= j < instance@.len() implies (instance@[j] == ':') == occurs_at(
            instance@,
            ":"@,
            j,
        ) by {
            assert(instance@.subrange(j, j + 1)[0] == instance@[j]);
            if instance@[j] == ':' {
                assert(instance@.subrange(j, j + 1) =~= ":"@);
            }
        }
    }
    match find_last(instance, ":") {
        None => {
            assert(!instance@.contains(':'));
            (Transport::Tcp, 0)
        },
        Some(at) => {
            let len: usize = instance.unicode_len();
            let before: &str = instance.substring_char(0, at);
            let after: &str = instance.substring_char(at + 1, len);
            proof {
                assert(instance@[at as int] == ':');
                assert(instance@ =~= before@ + ":"@ + after@);
                assert(!after@.contains(':')) by {
                    if after@.contains(':') {
                        let k = choose|k: int| 0 <= k < after@.len() && after@[k] == ':';
                        assert(instance@[at + 1 + k] == ':');
                        assert(occurs_at(instance@, ":"@, at + 1 + k));
                    }
                }
                assert(cut_at_last_colon(instance@, before@, after@));
            }
            let transport: Transport = if same(before, "udp") {
                Transport::Udp
            } else {
                Transport::Tcp
            };
            let port: u16 = match parse_number(after, 65535) {
                Some(n) => {
                    assert(n <= 65535);
                    n as u16
                },
                None => 0,
            };
            (transport, port)
        },
    }
}

/// The number in a field, or zero.
pub open spec fn number_in(v: Value, field: Seq<char>) -> u64 {
    match member(v, field) {
        None => 0,
        Some(x) => match nat_of(x) {
            None => 0,
            Some(n) => n,
        },
    }
}

fn read_number(v: &Json, field: &str) -> (n: u64)
    ensures
        n == number_in(v@, field@),
{
    match v.get(field) {
        None => 0,
        Some(x) => match x.as_u64() {
            None => 0,
            Some(n) => n,
        },
    }
}

/// Whether a remnant is what a valid record describes.
pub open spec fn describes(b: &Behind, r: Remains) -> bool {
    if b.class@ == CLASS_PROCESS@ {
        r == Remains::Process {
            id: b.id,
            pid: pid_in(b.detail@, "pid"@)->0,
            start: number_in(b.detail@, "start"@),
        }
    } else if b.class@ == CLASS_PORT@ {
        r matches Remains::Port { id, transport, port } && id == b.id && named_port(
            b.instance@,
            transport,
            port,
        )
    } else {
        r == Remains::Lock {
            id: b.id,
            path: b.instance@,
            owner: pid_in(b.detail@, "owner_pid"@),
            owner_start: number_in(b.detail@, "owner_start"@),
        }
    }
}

fn remnant_of(b: &Behind) -> (r: Remnant)
    requires
        may_hold(b.class@),
        substrate_fault(b.class@, b.detail@) is None,
    ensures
        describes(b, r@),
{
    if same(b.class.as_str(), CLASS_PROCESS) {
        match read_pid(&b.detail, "pid") {
            Some(pid) => Remnant::Process { id: b.id, pid, start: read_number(&b.detail, "start") },
            None => {
                assert(false);
                Remnant::Process { id: b.id, pid: 0, start: 0 }
            },
        }
    } else if same(b.class.as_str(), CLASS_PORT) {
        let p: (Transport, u16) = probed_port(b.instance.as_str());
        Remnant::Port { id: b.id, transport: p.0, port: p.1 }
    } else {
        Remnant::Lock {
            id: b.id,
            path: b.instance.clone(),
            owner: read_pid(&b.detail, "owner_pid"),
            owner_start: read_number(&b.detail, "owner_start"),
        }
    }
}

/// Why one of the first `n` records is refused, if one is; the first fault counts. What is no
/// process, port or lock file is passed over.
pub open spec fn records_fault(rows: Seq<Behind>, n: nat) -> Option<Refusal>
    decreases n,
{
    if n == 0 || n > rows.len() {
        None
    } else {
        match records_fault(rows, (n - 1) as nat) {
            Some(e) => Some(e),
            None => if may_hold(rows[n - 1].class@) {
                substrate_fault(rows[n - 1].class@, rows[n - 1].detail@)
            } else {
                None
            },
        }
    }
}

proof fn records_fail_on(rows: Seq<Behind>, n: nat, m: nat)
    requires
        n <= m <= rows.len(),
        records_fault(rows, n) is Some,
    ensures
        records_fault(rows, m) == records_fault(rows, n),
    decreases m - n,
{
    if n < m {
        records_fail_on(rows, n + 1, m);
    }
}

proof fn records_are_sound(rows: Seq<Behind>, n: nat, i: int)
    requires
        0 <= i < n <= rows.len(),
        records_fault(rows, n) is None,
        may_hold(rows[i].class@),
    ensures
        substrate_fault(rows[i].class@, rows[i].detail@) is None,
    decreases n,
{
    if i < n - 1 {
        records_are_sound(rows, (n - 1) as nat, i);
    }
}

/// The places of the records of a class among the first `n`, in order.
pub open spec fn places_of(rows: Seq<Behind>, class: Seq<char>, n: nat) -> Seq<int>
    decreases n,
{
    if n == 0 || n > rows.len() {
        Seq::empty()
    } else {
        let before = places_of(rows, class, (n - 1) as nat);
        if rows[n - 1].class@ == class {
            before.push(n - 1)
        } else {
            before
        }
    }
}

/// Whether remnants are those of the records at some places, in order.
pub open spec fn found_at(rows: Seq<Behind>, places: Seq<int>, found: Seq<Remains>) -> bool {
    &&& found.len() == places.len()
    &&& forall|k: int|
        0 <= k < places.len() ==> 0 <= #[trigger] places[k] < rows.len() && describes(
            &rows[places[k]],
            found[k],
        )
}

fn push_class(rows: &Vec<Behind>, class: &str, out: &mut Vec<Remnant>, done: Ghost<Seq<int>>)
    requires
        may_hold(class@),
        records_fault(rows@, rows@.len()) is None,
        found_at(rows@, done@, remains(old(out)@)),
    ensures
        found_at(
            rows@,
            done@ + places_of(rows@, class@, rows@.len()),
            remains(final(out)@),
        ),
{
    let mut i: usize = 0;
    assert(done@ + places_of(rows@, class@, 0) =~= done@);
    while i < rows.len()
        invariant
            i <= rows@.len(),
            may_hold(class@),
            records_fault(rows@, rows@.len()) is None,
            found_at(rows@, done@ + places_of(rows@, class@, i as nat), remains(out@)),
        decreases rows.len() - i,
    {
        let ghost places = done@ + places_of(rows@, class@, i as nat);
        let ghost next = done@ + places_of(rows@, class@, (i + 1) as nat);
        if same(rows[i].class.as_str(), class) {
            proof {
                records_are_sound(rows@, rows@.len(), i as int);
            }
            let ghost was = remains(out@);
            out.push(remnant_of(&rows[i]));
            proof {
                assert(next =~= places.push(i as int));
                assert(remains(out@) =~= was.push(out@.last()@));
                assert forall|k: int| 0 <= k < next.len() implies 0 <= #[trigger] next[k]
                    < rows@.len() && describes(&rows@[next[k]], remains(out@)[k]) by {
                    if k < places.len() {
                        assert(next[k] == places[k]);
                    }
                }
            }
        } else {
            assert(next =~= places);
        }
        i = i + 1;
    }
}

/// The places in the order in which remnants are dealt with: processes first, for one that is
/// killed may own a lock file, then ports, then lock files.
pub open spec fn reconcile_places(rows: Seq<Behind>) -> Seq<int> {
    places_of(rows, CLASS_PROCESS@, rows.len()) + places_of(rows, CLASS_PORT@, rows.len())
        + places_of(rows, CLASS_FILE_LOCK@, rows.len())
}

/// What is to be looked for in the world, in order, once every record has been checked.
pub fn reconcile_substrate(rows: &Vec<Behind>) -> (r: Result<Vec<Remnant>, KernelError>)
    ensures
        match r {
            Ok(v) => records_fault(rows@, rows@.len()) is None && found_at(
                rows@,
                reconcile_places(rows@),
                remains(v@),
            ),
            Err(e) => records_fault(rows@, rows@.len()) == Some(e@),
        },
{
    let mut i: usize = 0;
    while i < rows.len()
        invariant
            i <= rows@.len(),
            records_fault(rows@, i as nat) is None,
        decreases rows.len() - i,
    {
        if holdable(rows[i].class.as_str()) {
            match validate_substrate(rows[i].class.as_str(), &rows[i].detail) {
                Ok(_) => {},
                Err(e) => {
                    proof {
                        records_fail_on(rows@, (i + 1) as nat, rows@.len());
                    }
                    return Err(e);
                },
            }
        }
        i = i + 1;
    }
    let mut out: Vec<Remnant> = Vec::new();
    let ghost none = Seq::<int>::empty();
    let ghost p = places_of(rows@, CLASS_PROCESS@, rows@.len());
    let ghost q = places_of(rows@, CLASS_PORT@, rows@.len());
    push_class(rows, CLASS_PROCESS, &mut out, Ghost(none));
    assert(none + p =~= p);
    push_class(rows, CLASS_PORT, &mut out, Ghost(p));
    push_class(rows, CLASS_FILE_LOCK, &mut out, Ghost(p + q));
    Ok(out)
}

/// Whether a process runs in the incarnation that was recorded, given the start of the process
/// that has its number now. A start of zero stands for any.
pub open spec fn lives(pid: u32, start: u64, found: Option<u64>) -> bool {
    pid != 0 && match found {
        Some(s) => start == 0 || s == start,
        None => false,
    }
}

/// Whether a process runs in the incarnation that was recorded.
pub fn proc_alive(pid: u32, start: u64, found: Option<u64>) -> (b: bool)
    ensures
        b == lives(pid, start, found),
{
    pid != 0 && match found {
        Some(s) => start == 0 || s == start,
        None => false,
    }
}

/// What is done about a remnant.
#[derive(Debug, Clone, Copy, PartialEq, Eq, Structural)]
pub enum Dealt {
    /// The process still runs and is killed.
    Kill(u32),
    /// The process is gone.
    Gone,
    /// The port can be bound.
    Free,
    /// The port cannot be bound.
    Bound,
    /// The owner of the lock file still runs, and the file stays.
    Keep,
    /// The lock file is removed.
    Remove,
}

/// What is done about a remnant, given the start of the process that has the recorded number now
/// and whether the port can be bound.
pub open spec fn dealt(r: Remains, found: Option<u64>, bindable: bool) -> Dealt {
    match r {
        Remains::Process { pid, start, .. } => if lives(pid, start, found) {
            Dealt::Kill(pid)
        } else {
            Dealt::Gone
        },
        Remains::Port { .. } => if bindable {
            Dealt::Free
        } else {
            Dealt::Bound
        },
        Remains::Lock { owner, owner_start, .. } => if owner is Some && lives(
            owner->0,
            owner_start,
            found,
        ) {
            Dealt::Keep
        } else {
            Dealt::Remove
        },
    }
}

/// What is done about a remnant.
pub fn deal_with(r: &Remnant, found: Option<u64>, bindable: bool) -> (d: Dealt)
    ensures
        d == dealt(r@, found, bindable),
{
    match r {
        Remnant::Process { pid, start, .. } => if proc_alive(*pid, *start, found) {
            Dealt::Kill(*pid)
        } else {
            Dealt::Gone
        },
        Remnant::Port { .. } => if bindable {
            Dealt::Free
        } else {
            Dealt::Bound
        },
        Remnant::Lock { owner, owner_start, .. } => {
            let owned: bool = match owner {
                Some(p) => proc_alive(*p, *owner_start, found),
                None => false,
            };
            if owned {
                Dealt::Keep
            } else {
                Dealt::Remove
            }
        },
    }
}

/// Only a process that runs in the recorded incarnation is killed, and the file of a lock stays
/// as long as the recorded owner runs.
pub proof fn only_the_recorded_incarnation(r: Remains, found: Option<u64>, bindable: bool)
    ensures
        dealt(r, found, bindable) matches Dealt::Kill(p) ==> (r matches Remains::Process {
            pid,
            start,
            ..
        } && p == pid && found is Some && (start == 0 || found == Some(start))),
        dealt(r, found, bindable) == Dealt::Remove ==> (r matches Remains::Lock {
            owner,
            owner_start,
            ..
        } && !(owner matches Some(pid) && lives(pid, owner_start, found))),
{
}

/// Whether something was done in a way.
pub open spec fn was(d: Dealt, like: Dealt) -> bool {
    match like {
        Dealt::Kill(_) => d is Kill,
        _ => d == like,
    }
}

/// How many of the first `n` were dealt with in a way.
pub open spec fn count_dealt(ds: Seq<Dealt>, like: Dealt, n: nat) -> nat
    decreases n,
{
    if n == 0 || n > ds.len() {
        0
    } else {
        count_dealt(ds, like, (n - 1) as nat) + if was(ds[n - 1], like) {
            1nat
        } else {
            0nat
        }
    }
}

/// Counts what was done. A port is counted with or without being free.
pub fn tally(ds: &Vec<Dealt>) -> (r: SubstrateReconcile)
    ensures
        r.process_killed == count_dealt(ds@, Dealt::Kill(0), ds@.len()),
        r.process_tombstoned == count_dealt(ds@, Dealt::Gone, ds@.len()),
        r.ports_tombstoned == count_dealt(ds@, Dealt::Free, ds@.len()) + count_dealt(
            ds@,
            Dealt::Bound,
            ds@.len(),
        ),
        r.ports_still_bound == count_dealt(ds@, Dealt::Bound, ds@.len()),
        r.locks_removed == count_dealt(ds@, Dealt::Remove, ds@.len()),
        r.locks_kept == count_dealt(ds@, Dealt::Keep, ds@.len()),
{
    let mut r = SubstrateReconcile {
        process_killed: 0,
        process_tombstoned: 0,
        ports_tombstoned: 0,
        ports_still_bound: 0,
        locks_removed: 0,
        locks_kept: 0,
    };
    let mut i: usize = 0;
    while i < ds.len()
        invariant
            i <= ds@.len(),
            r.process_killed == count_dealt(ds@, Dealt::Kill(0), i as nat),
            r.process_tombstoned == count_dealt(ds@, Dealt::Gone, i as nat),
            r.ports_tombstoned == count_dealt(ds@, Dealt::Free, i as nat) + count_dealt(
                ds@,
                Dealt::Bound,
                i as nat,
            ),
            r.ports_still_bound == count_dealt(ds@, Dealt::Bound, i as nat),
            r.locks_removed == count_dealt(ds@, Dealt::Remove, i as nat),
            r.locks_kept == count_dealt(ds@, Dealt::Keep, i as nat),
            r.process_killed <= i,
            r.process_tombstoned <= i,
            r.ports_tombstoned <= i,
            r.ports_still_bound <= i,
            r.locks_removed <= i,
            r.locks_kept <= i,
        decreases ds.len() - i,
    {
        match ds[i] {
            Dealt::Kill(_) => {
                r.process_killed = r.process_killed + 1;
            },
            Dealt::Gone => {
                r.process_tombstoned = r.process_tombstoned + 1;
            },
            Dealt::Free => {
                r.ports_tombstoned = r.ports_tombstoned + 1;
            },
            Dealt::Bound => {
                r.ports_tombstoned = r.ports_tombstoned + 1;
                r.ports_still_bound = r.ports_still_bound + 1;
            },
            Dealt::Keep => {
                r.locks_kept = r.locks_kept + 1;
            },
            Dealt::Remove => {
                r.locks_removed = r.locks_removed + 1;
            },
        }
        i = i + 1;
    }
    r
}

/// A stored entry of the historical journal that is not done.
#[derive(Debug)]
pub struct StoredEntry {
    pub holding_id: i64,
    pub grade: String,
    pub idem_key: String,
}

/// An entry of the historical journal.
#[derive(Debug, PartialEq, Eq)]
pub struct JournalEntry {
    pub holding_id: u64,
    pub grade: RevertGrade,
    pub idem_key: String,
    pub state: JournalState,
}

/// Why a stored entry is refused, for holdings that are asked for.
pub open spec fn entry_fault(row: &StoredEntry, holdings: Seq<u64>) -> Option<Refusal> {
    if row.holding_id < 0 {
        Some(Refusal::Denied("ledger: identity out of range"@))
    } else if holdings.contains(row.holding_id as u64) && forall|g: RevertGrade|
        row.grade@ != #[trigger] grade_text(g) {
        Some(Refusal::Corrupt("journal grade: "@ + row.grade@))
    } else {
        None
    }
}

/// Why one of the first `n` entries is refused, if one is; the first fault counts.
pub open spec fn journal_fault(rows: Seq<StoredEntry>, holdings: Seq<u64>, n: nat) -> Option<Refusal>
    decreases n,
{
    if n == 0 || n > rows.len() {
        None
    } else {
        match journal_fault(rows, holdings, (n - 1) as nat) {
            Some(e) => Some(e),
            None => entry_fault(&rows[n - 1], holdings),
        }
    }
}

proof fn journal_fails_on(rows: Seq<StoredEntry>, holdings: Seq<u64>, n: nat, m: nat)
    requires
        n <= m <= rows.len(),
        journal_fault(rows, holdings, n) is Some,
    ensures
        journal_fault(rows, holdings, m) == journal_fault(rows, holdings, n),
    decreases m - n,
{
    if n < m {
        journal_fails_on(rows, holdings, n + 1, m);
    }
}

/// The places of the entries of some holdings among the first `n`, in order.
pub open spec fn pending_places(rows: Seq<StoredEntry>, holdings: Seq<u64>, n: nat) -> Seq<int>
    decreases n,
{
    if n == 0 || n > rows.len() {
        Seq::empty()
    } else {
        let before = pending_places(rows, holdings, (n - 1) as nat);
        if rows[n - 1].holding_id >= 0 && holdings.contains(rows[n - 1].holding_id as u64) {
            before.push(n - 1)
        } else {
            before
        }
    }
}

/// Whether an entry is what a row stores, pending again.
pub open spec fn reads_as(row: &StoredEntry, e: &JournalEntry) -> bool {
    &&& e.holding_id == row.holding_id
    &&& grade_text(e.grade) == row.grade@
    &&& e.idem_key@ == row.idem_key@
    &&& e.state == JournalState::Pending
}

/// Whether entries are those stored at some places, in order.
pub open spec fn read_at(rows: Seq<StoredEntry>, places: Seq<int>, es: Seq<JournalEntry>) -> bool {
    &&& es.len() == places.len()
    &&& forall|k: int|
        0 <= k < places.len() ==> 0 <= #[trigger] places[k] < rows.len() && reads_as(
            &rows[places[k]],
            &es[k],
        )
}

/// The entries of some holdings that are still open, in order.
pub fn load_pending_journal(rows: &Vec<StoredEntry>, holdings: &Vec<u64>) -> (r: Result<
    Vec<JournalEntry>,
    KernelError,
>)
    ensures
        match r {
            Ok(es) => journal_fault(rows@, holdings@, rows@.len()) is None && read_at(
                rows@,
                pending_places(rows@, holdings@, rows@.len()),
                es@,
            ),
            Err(e) => journal_fault(rows@, holdings@, rows@.len()) == Some(e@),
        },
{
    let mut es: Vec<JournalEntry> = Vec::new();
    let mut i: usize = 0;
    while i < rows.len()
        invariant
            i <= rows@.len(),
            journal_fault(rows@, holdings@, i as nat) is None,
            read_at(rows@, pending_places(rows@, holdings@, i as nat), es@),
        decreases rows.len() - i,
    {
        let row: &StoredEntry = &rows[i];
        let ghost places = pending_places(rows@, holdings@, i as nat);
        let ghost next = pending_places(rows@, holdings@, (i + 1) as nat);
        if row.holding_id < 0 {
            proof {
                journal_fails_on(rows@, holdings@, (i + 1) as nat, rows@.len());
            }
            return Err(KernelError::Denied("ledger: identity out of range".to_owned()));
        }
        let id: u64 = row.holding_id as u64;
        if contains_id(holdings, id) {
            match grade_from_str(row.grade.as_str()) {
                Err(e) => {
                    proof {
                        journal_fails_on(rows@, holdings@, (i + 1) as nat, rows@.len());
                    }
                    return Err(e);
                },
                Ok(grade) => {
                    let ghost was = es@;
                    es.push(
                        JournalEntry {
                            holding_id: id,
                            grade,
                            idem_key: row.idem_key.clone(),
                            state: JournalState::Pending,
                        },
                    );
                    proof {
                        assert(next =~= places.push(i as int));
                        assert forall|k: int| 0 <= k < next.len() implies 0 <= #[trigger] next[k]
                            < rows@.len() && reads_as(&rows@[next[k]], &es@[k]) by {
                            if k < places.len() {
                                assert(next[k] == places[k]);
                                assert(es@[k] == was[k]);
                            }
                        }
                    }
                },
            }
        }
        i = i + 1;
    }
    Ok(es)
}

} // verus!

//! One path of retirement: an intent is stored, an attempt is claimed, the world is acted on
//! without a lock on the storage, and the outcome is stored. What is decided on the way is decided
//! here; the caller reads, claims, acts and stores.

use crate::error::KernelError;
use crate::records::{
    corrupt, held_views, storage_fault, task_views, CleanupRecord, CleanupTarget, Completion, Held,
    HoldingRecord, Progress, Target, Task,
};
use crate::recovery::{find_holding, holding_of};
use crate::substrate::{
    holdable, may_hold, CLASS_FILE_LOCK, CLASS_PLUGIN, CLASS_PORT, CLASS_PROCESS,
    CLASS_SUBSCRIPTION,
};
use crate::text::same;
use crate::world::{discharges, CleanupOutcome, Pin, Presence, Verdict};
use vstd::prelude::*;

verus! {

/// The parent of a holding after so many steps up.
pub open spec fn ancestor(hs: Seq<Held>, id: u64, steps: nat) -> Option<u64>
    decreases steps,
{
    if steps == 0 {
        Some(id)
    } else {
        match ancestor(hs, id, (steps - 1) as nat) {
            None => None,
            Some(at) => match holding_of(hs, at) {
                None => None,
                Some(h) => h.parent,
            },
        }
    }
}

/// Whether a holding that is being retired stands above another, within as many steps as there are
/// holdings.
pub open spec fn retiring_above(hs: Seq<Held>, id: u64, p: u64) -> bool {
    exists|n: nat|
        0 < n <= hs.len() && #[trigger] ancestor(hs, id, n) == Some(p) && holding_of(hs, p) is Some
            && holding_of(hs, p)->0.state is Retiring
}

/// Whether the obligation of a holding may be attempted in a scope: the holding is in the scope,
/// or it is being retired and stands above one that is. A child that another runner completed
/// wakes an ancestor whose intent is already stored.
pub open spec fn permits(hs: Seq<Held>, scope: Seq<u64>, id: u64) -> bool {
    scope.contains(id) || exists|i: int|
        0 <= i < scope.len() && retiring_above(hs, #[trigger] scope[i], id)
}

/// Whether an identity is in a list.
pub(crate) fn contains_id(v: &Vec<u64>, id: u64) -> (b: bool)
    ensures
        b == v@.contains(id),
{
    let mut i: usize = 0;
    while i < v.len()
        invariant
            i <= v@.len(),
            forall|k: int| 0 <= k < i ==> v@[k] != id,
        decreases v.len() - i,
    {
        if v[i] == id {
            return true;
        }
        i = i + 1;
    }
    false
}

/// The holdings whose obligations may be attempted in a scope.
pub fn permitted(scope: &Vec<u64>, holdings: &Vec<HoldingRecord>) -> (r: Vec<u64>)
    ensures
        forall|id: u64|
            #![trigger r@.contains(id)]
            r@.contains(id) == permits(held_views(holdings@), scope@, id),
{
    let ghost hs = held_views(holdings@);
    let mut ids: Vec<u64> = Vec::new();
    let mut i: usize = 0;
    while i < scope.len()
        invariant
            i <= scope@.len(),
            hs == held_views(holdings@),
            ids@ == scope@.take(i as int),
        decreases scope.len() - i,
    {
        ids.push(scope[i]);
        assert(scope@.take(i + 1) =~= scope@.take(i as int).push(scope@[i as int]));
        i = i + 1;
    }
    assert(scope@.take(i as int) =~= scope@);
    assert forall|id: u64| #![trigger ids@.contains(id)]
        ids@.contains(id) == (scope@.contains(id) || exists|k: int|
            0 <= k < 0 && retiring_above(hs, #[trigger] scope@[k], id)) by {}
    i = 0;
    while i < scope.len()
        invariant
            i <= scope@.len(),
            hs == held_views(holdings@),
            forall|id: u64|
                #![trigger ids@.contains(id)]
                ids@.contains(id) == (scope@.contains(id) || exists|k: int|
                    0 <= k < i && retiring_above(hs, #[trigger] scope@[k], id)),
        decreases scope.len() - i,
    {
        let ghost at_entry = ids@;
        let from: u64 = scope[i];
        let mut at: Option<u64> = Some(from);
        let mut n: usize = 0;
        assert forall|id: u64| #![trigger ids@.contains(id)]
            ids@.contains(id) == (at_entry.contains(id) || above_within(hs, from, id, 0)) by {}
        while n < holdings.len() && at.is_some()
            invariant
                n <= holdings@.len(),
                hs == held_views(holdings@),
                at == ancestor(hs, from, n as nat),
                forall|id: u64|
                    #![trigger ids@.contains(id)]
                    ids@.contains(id) == (at_entry.contains(id) || above_within(
                        hs,
                        from,
                        id,
                        n as nat,
                    )),
            decreases holdings.len() - n,
        {
            let ghost before = ids@;
            let here: u64 = at.unwrap();
            let up: Option<u64> = match find_holding(holdings, here) {
                None => None,
                Some(h) => h.parent,
            };
            if let Some(p) = up {
                if let Some(h) = find_holding(holdings, p) {
                    if h.state.is_retiring() {
                        ids.push(p);
                        assert(ids@ == before.push(p));
                    }
                }
            }
            at = up;
            proof {
                assert(at == ancestor(hs, from, (n + 1) as nat));
                assert forall|id: u64| #![trigger ids@.contains(id)]
                    ids@.contains(id) == (at_entry.contains(id) || above_within(
                        hs,
                        from,
                        id,
                        (n + 1) as nat,
                    )) by {
                    above_steps(hs, from, id, n as nat);
                    if ids@ != before {
                        let p = up->0;
                        if id == p {
                            assert(before.push(p)[before.len() as int] == p);
                        } else {
                            if before.contains(id) {
                                let q = before.index_of(id);
                                assert(before.push(p)[q] == id);
                            }
                            if before.push(p).contains(id) {
                                let q = before.push(p).index_of(id);
                                assert(before[q] == id);
                            }
                        }
                    }
                    assert(before.contains(id) == (at_entry.contains(id) || above_within(
                        hs,
                        from,
                        id,
                        n as nat,
                    )));
                }
            }
            n = n + 1;
        }
        proof {
            assert forall|id: u64| #![trigger ids@.contains(id)]
                ids@.contains(id) == (scope@.contains(id) || exists|k: int|
                    0 <= k < i + 1 && retiring_above(hs, #[trigger] scope@[k], id)) by {
                if at is None {
                    none_stays(hs, from, id, n as nat, hs.len());
                }
                assert(above_within(hs, from, id, hs.len()) == retiring_above(hs, from, id));
                assert(at_entry.contains(id) == (scope@.contains(id) || exists|k: int|
                    0 <= k < i && retiring_above(hs, #[trigger] scope@[k], id)));
                if retiring_above(hs, from, id) {
                    assert(retiring_above(hs, scope@[i as int], id));
                }
            }
        }
        i = i + 1;
    }
    ids
}

/// Whether a holding that is being retired stands at most so many steps above another.
spec fn above_within(hs: Seq<Held>, id: u64, p: u64, steps: nat) -> bool {
    exists|n: nat|
        0 < n <= steps && #[trigger] ancestor(hs, id, n) == Some(p) && holding_of(hs, p) is Some
            && holding_of(hs, p)->0.state is Retiring
}

proof fn above_steps(hs: Seq<Held>, id: u64, p: u64, steps: nat)
    ensures
        above_within(hs, id, p, steps + 1) == (above_within(hs, id, p, steps) || (ancestor(
            hs,
            id,
            steps + 1,
        ) == Some(p) && holding_of(hs, p) is Some && holding_of(hs, p)->0.state is Retiring)),
{
    if above_within(hs, id, p, steps) {
        let n = choose|n: nat|
            0 < n <= steps && #[trigger] ancestor(hs, id, n) == Some(p) && holding_of(hs, p) is Some
                && holding_of(hs, p)->0.state is Retiring;
        assert(0 < n <= steps + 1 && ancestor(hs, id, n) == Some(p));
    }
}

proof fn none_stays(hs: Seq<Held>, id: u64, p: u64, n: nat, m: nat)
    requires
        n <= m,
        ancestor(hs, id, n) is None,
    ensures
        above_within(hs, id, p, m) == above_within(hs, id, p, n),
        ancestor(hs, id, m) is None,
    decreases m - n,
{
    if n < m {
        none_stays(hs, id, p, n, (m - 1) as nat);
        above_steps(hs, id, p, (m - 1) as nat);
        assert((m - 1) as nat + 1 == m);
    }
}

/// What a run of cleanup did.
pub struct CleanupReport {
    /// The holdings that were discharged, with their generations.
    pub completed: Vec<(u64, String)>,
    /// The obligations that are left: they wait for children, run, failed or are unknown.
    pub pending: Vec<CleanupRecord>,
}

/// What holdings were discharged.
pub open spec fn done_views(s: Seq<(u64, String)>) -> Seq<(u64, Seq<char>)> {
    Seq::new(s.len(), |i: int| (s[i].0, s[i].1@))
}

/// A run of cleanup. Each obligation is attempted at most once.
pub struct CleanupRun {
    scope: Option<Vec<u64>>,
    allowed: Option<Vec<u64>>,
    tasks: Vec<CleanupRecord>,
    at: usize,
    attempted: Vec<u64>,
    completed: Vec<(u64, String)>,
    progress: bool,
}

/// How far a run of cleanup has come.
#[verifier::ext_equal]
pub struct Run {
    /// The holdings that the run is about; all where there are none.
    pub scope: Option<Seq<u64>>,
    /// The holdings whose obligations may be attempted in this pass.
    pub allowed: Option<Set<u64>>,
    /// The obligations of this pass.
    pub tasks: Seq<Task>,
    /// How many of them were looked at.
    pub at: nat,
    /// The obligations that were attempted.
    pub attempted: Seq<u64>,
    /// The holdings that were discharged.
    pub completed: Seq<(u64, Seq<char>)>,
    /// Whether this pass discharged any.
    pub progress: bool,
}

impl View for CleanupRun {
    type V = Run;

    closed spec fn view(&self) -> Run {
        Run {
            scope: match self.scope {
                Some(v) => Some(v@),
                None => None,
            },
            allowed: match self.allowed {
                Some(v) => Some(v@.to_set()),
                None => None,
            },
            tasks: task_views(self.tasks@),
            at: self.at as nat,
            attempted: self.attempted@,
            completed: done_views(self.completed@),
            progress: self.progress,
        }
    }
}

/// Whether an obligation is to be attempted: it is not discharged, its holding may be attempted,
/// and it was not attempted before.
pub open spec fn due(run: Run, t: Task) -> bool {
    &&& !(t.state is Done)
    &&& run.allowed matches Some(ids) ==> ids.contains(t.holding)
    &&& !run.attempted.contains(t.id)
}

/// Where the next obligation that is to be attempted stands, or how many there are.
pub open spec fn next_due(run: Run, from: nat) -> nat
    decreases run.tasks.len() - from,
{
    if from >= run.tasks.len() {
        run.tasks.len()
    } else if due(run, run.tasks[from as int]) {
        from
    } else {
        next_due(run, from + 1)
    }
}

/// The outcome of an obligation that needs no action in the world.
pub open spec fn settled_without_world(t: Target) -> Option<Verdict> {
    match t {
        Target::AccountingOnly => Some(Verdict::Confirmed),
        Target::Unresolved { kind, reason } => Some(Verdict::Blocked(reason)),
        _ => None,
    }
}

/// The outcome of an obligation that needs no action in the world; nothing where the world must be
/// acted on.
pub fn without_world(t: &CleanupTarget) -> (r: Option<CleanupOutcome>)
    ensures
        match r {
            Some(o) => settled_without_world(t@) == Some(o@),
            None => settled_without_world(t@) is None,
        },
{
    match t {
        CleanupTarget::AccountingOnly => Some(CleanupOutcome::Confirmed),
        CleanupTarget::Unresolved { reason, .. } => Some(CleanupOutcome::Blocked(reason.clone())),
        _ => None,
    }
}

impl CleanupRun {
    /// Each obligation was attempted at most once.
    #[verifier::type_invariant]
    spec fn once(&self) -> bool {
        &&& self.attempted@.no_duplicates()
        &&& self.at <= self.tasks@.len()
    }

    /// A run that has not begun.
    pub fn new(scope: Option<Vec<u64>>) -> (r: Self)
        ensures
            r@ == (Run {
                scope: match scope {
                    Some(v) => Some(v@),
                    None => None,
                },
                allowed: None,
                tasks: Seq::empty(),
                at: 0,
                attempted: Seq::empty(),
                completed: Seq::empty(),
                progress: false,
            }),
    {
        let r = CleanupRun {
            scope,
            allowed: None,
            tasks: Vec::new(),
            at: 0,
            attempted: Vec::new(),
            completed: Vec::new(),
            progress: false,
        };
        assert(task_views(r.tasks@) =~= Seq::<Task>::empty());
        assert(done_views(r.completed@) =~= Seq::<(u64, Seq<char>)>::empty());
        r
    }

    /// Begins a pass over the obligations, as they are stored now.
    pub fn begin_pass(&mut self, tasks: Vec<CleanupRecord>, holdings: &Vec<HoldingRecord>)
        ensures
            final(self)@ == (Run {
                allowed: match old(self)@.scope {
                    Some(scope) => Some(
                        Set::new(|id: u64| permits(held_views(holdings@), scope, id)),
                    ),
                    None => None,
                },
                tasks: task_views(tasks@),
                at: 0,
                progress: false,
                ..old(self)@
            }),
    {
        proof {
            use_type_invariant(&*self);
        }
        let allowed: Option<Vec<u64>> = match &self.scope {
            Some(scope) => Some(permitted(scope, holdings)),
            None => None,
        };
        proof {
            if allowed is Some {
                let scope = self.scope->0@;
                assert(allowed->0@.to_set() =~= Set::new(
                    |id: u64| permits(held_views(holdings@), scope, id),
                ));
            }
        }
        self.at = 0;
        self.progress = false;
        self.allowed = allowed;
        self.tasks = tasks;
    }

    /// The next obligation that is to be attempted in this pass, by its identity; it is never one
    /// that was attempted before.
    pub fn next(&mut self) -> (r: Option<u64>)
        ensures
            ({
                let n = next_due(old(self)@, old(self)@.at);
                match r {
                    Some(id) => {
                        &&& n < old(self)@.tasks.len()
                        &&& id == old(self)@.tasks[n as int].id
                        &&& !old(self)@.attempted.contains(id)
                        &&& final(self)@ == (Run { at: n + 1, ..old(self)@ })
                    },
                    None => {
                        &&& n == old(self)@.tasks.len()
                        &&& final(self)@ == (Run { at: n, ..old(self)@ })
                    },
                }
            }),
    {
        proof {
            use_type_invariant(&*self);
        }
        let ghost run = self@;
        let mut i: usize = self.at;
        while i < self.tasks.len()
            invariant
                run.at <= i <= self.tasks@.len(),
                *self == *old(self),
                run == self@,
                next_due(run, run.at) == next_due(run, i as nat),
                self.attempted@.no_duplicates(),
            decreases self.tasks.len() - i,
        {
            let t: &CleanupRecord = &self.tasks[i];
            assert(run.tasks[i as int] == t@);
            let allowed: bool = match &self.allowed {
                Some(ids) => contains_id(ids, t.holding),
                None => true,
            };
            if !t.state.is_done() && allowed && !contains_id(&self.attempted, t.id) {
                let id: u64 = t.id;
                self.at = i + 1;
                return Some(id);
            }
            i = i + 1;
        }
        self.at = i;
        None
    }

    /// Notes that an obligation was claimed: it counts as attempted.
    pub fn claimed(&mut self, id: u64)
        requires
            !old(self)@.attempted.contains(id),
        ensures
            final(self)@ == (Run { attempted: old(self)@.attempted.push(id), ..old(self)@ }),
    {
        proof {
            use_type_invariant(&*self);
        }
        let mut attempted: Vec<u64> = Vec::new();
        std::mem::swap(&mut attempted, &mut self.attempted);
        let ghost before = attempted@;
        attempted.push(id);
        assert(attempted@.no_duplicates());
        self.attempted = attempted;
    }

    /// Notes the outcome of an obligation once it is stored.
    pub fn finished(&mut self, holding: u64, generation: String, outcome: &CleanupOutcome)
        ensures
            final(self)@ == if discharges(outcome@) {
                Run {
                    completed: old(self)@.completed.push((holding, generation@)),
                    progress: true,
                    ..old(self)@
                }
            } else {
                old(self)@
            },
    {
        proof {
            use_type_invariant(&*self);
        }
        if outcome.is_complete() {
            let mut completed: Vec<(u64, String)> = Vec::new();
            std::mem::swap(&mut completed, &mut self.completed);
            let ghost before = done_views(completed@);
            completed.push((holding, generation));
            assert(done_views(completed@) =~= before.push((holding, generation@)));
            self.completed = completed;
            self.progress = true;
        }
    }

    /// Whether another pass is due: this one discharged something that others may wait for.
    pub fn again(&self) -> (b: bool)
        ensures
            b == self@.progress,
    {
        self.progress
    }

    /// What the run did, and what is left in its scope of the obligations as they are stored now.
    pub fn report(self, tasks: &Vec<CleanupRecord>) -> (r: CleanupReport)
        ensures
            done_views(r.completed@) == self@.completed,
            task_views(r.pending@) == left_of(task_views(tasks@), self@.scope),
    {
        let ghost all = task_views(tasks@);
        let mut pending: Vec<CleanupRecord> = Vec::new();
        let mut i: usize = 0;
        assert(all.take(0) =~= Seq::<Task>::empty());
        assert(task_views(pending@) =~= Seq::<Task>::empty());
        while i < tasks.len()
            invariant
                i <= tasks@.len(),
                all == task_views(tasks@),
                task_views(pending@) == left_of(all.take(i as int), self@.scope),
            decreases tasks.len() - i,
        {
            let t: &CleanupRecord = &tasks[i];
            let ghost before = task_views(pending@);
            assert(all.take(i + 1).drop_last() =~= all.take(i as int));
            assert(all.take(i + 1).last() == t@);
            let inside: bool = match &self.scope {
                Some(ids) => contains_id(ids, t.holding),
                None => true,
            };
            if !t.state.is_done() && inside {
                let c: CleanupRecord = t.clone();
                pending.push(c);
                assert(task_views(pending@) =~= before.push(t@));
            }
            i = i + 1;
        }
        assert(all.take(i as int) =~= all);
        CleanupReport { completed: self.completed, pending }
    }
}

/// The obligations that are left in a scope.
pub open spec fn left_of(tasks: Seq<Task>, scope: Option<Seq<u64>>) -> Seq<Task>
    decreases tasks.len(),
{
    if tasks.len() == 0 {
        Seq::empty()
    } else {
        let t = tasks.last();
        let init = left_of(tasks.drop_last(), scope);
        if !(t.state is Done) && (scope matches Some(ids) ==> ids.contains(t.holding)) {
            init.push(t)
        } else {
            init
        }
    }
}

/// No obligation is attempted again in a run: one that was attempted is not due, in whatever pass.
pub proof fn attempted_once(run: Run, id: u64, tasks: Seq<Task>, allowed: Option<Set<u64>>)
    requires
        run.attempted.contains(id),
    ensures
        forall|t: Task| t.id == id ==> !due(Run { tasks, allowed, ..run }, t),
{
}

/// Whether the worker of a running attempt is gone. One of this process is gone if its session is
/// not known here; one of another is gone if that process is.
pub open spec fn worker_gone(same_process: bool, known: bool, presence: Presence) -> bool {
    if same_process {
        !known
    } else {
        presence is Absent
    }
}

/// Whether a running attempt is to be abandoned. A worker that could not be observed is not gone.
pub fn recover_worker(same_process: bool, known: bool, presence: &Pin) -> (b: bool)
    ensures
        b == worker_gone(same_process, known, presence@),
{
    if same_process {
        !known
    } else {
        match presence {
            Pin::Absent => true,
            _ => false,
        }
    }
}

/// What became of the things behind holdings when a ledger was opened.
#[derive(Debug, Clone, Copy, PartialEq, Eq, Structural, Default)]
pub struct SubstrateReconcile {
    /// Processes that still ran and were killed.
    pub process_killed: usize,
    /// Processes that were gone.
    pub process_tombstoned: usize,
    /// Ports that were free.
    pub ports_tombstoned: usize,
    /// Ports whose absence could not be confirmed.
    pub ports_still_bound: usize,
    /// Locks whose file is gone.
    pub locks_removed: usize,
    /// Locks that are left.
    pub locks_kept: usize,
}

impl SubstrateReconcile {
    /// Whether there was nothing.
    pub fn is_empty(&self) -> (b: bool)
        ensures
            b == (self.process_killed == 0 && self.process_tombstoned == 0 && self.ports_tombstoned
                == 0 && self.ports_still_bound == 0 && self.locks_removed == 0 && self.locks_kept
                == 0),
    {
        self.process_killed == 0 && self.process_tombstoned == 0 && self.ports_tombstoned == 0
            && self.ports_still_bound == 0 && self.locks_removed == 0 && self.locks_kept == 0
    }
}

/// What a ledger found of earlier incarnations when it was opened.
#[derive(Debug, Clone, Copy, PartialEq, Eq, Structural)]
pub struct OpenReport {
    /// Plugins and subscriptions of an earlier process.
    pub stale_rows: usize,
    /// Obligations that are left.
    pub cleanup_pending: usize,
    pub substrate: SubstrateReconcile,
}

/// The obligations that the release of a holding drives: its own, and those of what hangs under it
/// and is no longer in use.
pub open spec fn release_scoped(hs: Seq<Held>, root: u64, subtree: Seq<u64>) -> Seq<u64>
    decreases subtree.len(),
{
    if subtree.len() == 0 {
        seq![root]
    } else {
        let before = release_scoped(hs, root, subtree.drop_last());
        match holding_of(hs, subtree.last()) {
            Some(h) => if h.state is Active {
                before
            } else {
                before.push(subtree.last())
            },
            None => before,
        }
    }
}

/// The obligations that the release of a holding drives.
pub fn release_scope(root: u64, subtree: &Vec<u64>, holdings: &Vec<HoldingRecord>) -> (scope: Vec<
    u64,
>)
    ensures
        scope@ == release_scoped(held_views(holdings@), root, subtree@),
{
    let ghost hs = held_views(holdings@);
    let mut scope: Vec<u64> = Vec::new();
    scope.push(root);
    let mut i: usize = 0;
    assert(scope@ =~= release_scoped(hs, root, subtree@.take(0)));
    while i < subtree.len()
        invariant
            i <= subtree@.len(),
            hs == held_views(holdings@),
            scope@ == release_scoped(hs, root, subtree@.take(i as int)),
        decreases subtree.len() - i,
    {
        proof {
            let q = subtree@.take(i + 1);
            assert(q.drop_last() =~= subtree@.take(i as int));
            assert(q.last() == subtree@[i as int]);
        }
        if let Some(h) = find_holding(holdings, subtree[i]) {
            if !h.state.is_active() {
                scope.push(subtree[i]);
            }
        }
        i = i + 1;
    }
    assert(subtree@.take(i as int) =~= subtree@);
    scope
}

/// Whose holdings go with an incarnation of an owner that has ended: the subject of the holding
/// that stands for the incarnation, as long as that holding occupies its resource.
pub open spec fn ended_owner(hs: Seq<Held>, id: u64, generation: Seq<char>) -> Option<Seq<char>> {
    match holding_of(hs, id) {
        None => None,
        Some(h) => if h.generation == generation && h.state.spec_occupies() {
            Some(h.subject)
        } else {
            None
        },
    }
}

/// Whose holdings go with an incarnation of an owner that has ended.
pub fn owner_incarnation<'a>(holdings: &'a Vec<HoldingRecord>, id: u64, generation: &str) -> (r:
    Option<&'a String>)
    ensures
        match r {
            Some(s) => ended_owner(held_views(holdings@), id, generation@) == Some(s@),
            None => ended_owner(held_views(holdings@), id, generation@) is None,
        },
{
    match find_holding(holdings, id) {
        None => None,
        Some(h) => if same(h.generation.as_str(), generation) && h.state.occupies() {
            Some(&h.subject)
        } else {
            None
        },
    }
}

/// An exit that is reported late collects nothing of a later incarnation: where the holding that
/// stood for the owner was retired or belongs to another generation, no subject loses anything.
pub proof fn a_late_exit_collects_nothing(hs: Seq<Held>, id: u64, generation: Seq<char>)
    requires
        holding_of(hs, id) matches Some(h) ==> h.generation != generation || h.state is Retired,
    ensures
        ended_owner(hs, id, generation) is None,
{
}

/// Whether a holding is one that no incarnation survives.
pub open spec fn left_behind(class: Seq<char>) -> bool {
    may_hold(class) || class == CLASS_PLUGIN@ || class == CLASS_SUBSCRIPTION@
}

/// Whether a holding is one that no incarnation survives.
pub fn is_left_behind(class: &str) -> (b: bool)
    ensures
        b == left_behind(class@),
{
    holdable(class) || same(class, CLASS_PLUGIN) || same(class, CLASS_SUBSCRIPTION)
}

/// Whether an obligation of a holding was discharged by acting.
pub open spec fn was_confirmed(tasks: Seq<Task>, id: u64) -> bool {
    exists|i: int|
        0 <= i < tasks.len() && (#[trigger] tasks[i]).holding == id && tasks[i].state
            == Progress::Done(Completion::Confirmed)
}

fn confirmed(tasks: &Vec<CleanupRecord>, id: u64) -> (b: bool)
    ensures
        b == was_confirmed(task_views(tasks@), id),
{
    let ghost all = task_views(tasks@);
    let mut i: usize = 0;
    while i < tasks.len()
        invariant
            i <= tasks@.len(),
            all == task_views(tasks@),
            forall|k: int|
                0 <= k < i ==> !((#[trigger] all[k]).holding == id && all[k].state
                    == Progress::Done(Completion::Confirmed)),
        decreases tasks.len() - i,
    {
        assert(all[i as int] == tasks@[i as int]@);
        let done: bool = match &tasks[i].state {
            crate::records::CleanupState::Done(Completion::Confirmed) => true,
            _ => false,
        };
        if done && tasks[i].holding == id {
            return true;
        }
        i = i + 1;
    }
    false
}

/// The fate of a holding when a ledger was opened.
#[derive(Debug, Clone, Copy, PartialEq, Eq, Structural)]
pub enum Fate {
    ProcessKilled,
    ProcessGone,
    PortFree,
    PortBound,
    LockRemoved,
    LockKept,
    Stale,
    Nothing,
}

/// The fate of a holding of a class: whether it was discharged, and whether that was by acting.
pub open spec fn fate_of(class: Seq<char>, completed: bool, confirmed: bool) -> Fate {
    if completed {
        if class == CLASS_PROCESS@ {
            if confirmed {
                Fate::ProcessKilled
            } else {
                Fate::ProcessGone
            }
        } else if class == CLASS_FILE_LOCK@ {
            Fate::LockRemoved
        } else if class == CLASS_PORT@ {
            Fate::PortFree
        } else if class == CLASS_PLUGIN@ || class == CLASS_SUBSCRIPTION@ {
            Fate::Stale
        } else {
            Fate::Nothing
        }
    } else if class == CLASS_FILE_LOCK@ {
        Fate::LockKept
    } else if class == CLASS_PORT@ {
        Fate::PortBound
    } else {
        Fate::Nothing
    }
}

fn fate(class: &str, completed: bool, confirmed: bool) -> (f: Fate)
    ensures
        f == fate_of(class@, completed, confirmed),
{
    if completed {
        if same(class, CLASS_PROCESS) {
            if confirmed {
                Fate::ProcessKilled
            } else {
                Fate::ProcessGone
            }
        } else if same(class, CLASS_FILE_LOCK) {
            Fate::LockRemoved
        } else if same(class, CLASS_PORT) {
            Fate::PortFree
        } else if same(class, CLASS_PLUGIN) || same(class, CLASS_SUBSCRIPTION) {
            Fate::Stale
        } else {
            Fate::Nothing
        }
    } else if same(class, CLASS_FILE_LOCK) {
        Fate::LockKept
    } else if same(class, CLASS_PORT) {
        Fate::PortBound
    } else {
        Fate::Nothing
    }
}

/// How many of the first holdings met a fate.
pub open spec fn count_fate(
    before: Seq<Held>,
    completed: Set<u64>,
    tasks: Seq<Task>,
    f: Fate,
    n: nat,
) -> nat
    decreases n,
{
    if n == 0 {
        0
    } else {
        let h = before[n - 1];
        let this = fate_of(
            h.class_id,
            completed.contains(h.id),
            was_confirmed(tasks, h.id),
        );
        count_fate(before, completed, tasks, f, (n - 1) as nat) + if this == f {
            1nat
        } else {
            0nat
        }
    }
}

/// What a ledger found of earlier incarnations: of the holdings that were left behind, how many
/// met which fate.
pub fn reconcile_on_open(
    before: &Vec<HoldingRecord>,
    report: &CleanupReport,
    tasks: &Vec<CleanupRecord>,
) -> (r: OpenReport)
    ensures
        ({
            let hs = held_views(before@);
            let done = Set::new(
                |id: u64| exists|i: int|
                    0 <= i < report.completed@.len() && (#[trigger] report.completed@[i]).0 == id,
            );
            let ts = task_views(tasks@);
            let n = hs.len();
            &&& r.stale_rows == count_fate(hs, done, ts, Fate::Stale, n)
            &&& r.cleanup_pending == report.pending@.len()
            &&& r.substrate.process_killed == count_fate(hs, done, ts, Fate::ProcessKilled, n)
            &&& r.substrate.process_tombstoned == count_fate(hs, done, ts, Fate::ProcessGone, n)
            &&& r.substrate.ports_tombstoned == count_fate(hs, done, ts, Fate::PortFree, n)
            &&& r.substrate.ports_still_bound == count_fate(hs, done, ts, Fate::PortBound, n)
            &&& r.substrate.locks_removed == count_fate(hs, done, ts, Fate::LockRemoved, n)
            &&& r.substrate.locks_kept == count_fate(hs, done, ts, Fate::LockKept, n)
        }),
{
    let ghost hs = held_views(before@);
    let ghost done = Set::new(
        |id: u64| exists|i: int|
            0 <= i < report.completed@.len() && (#[trigger] report.completed@[i]).0 == id,
    );
    let ghost ts = task_views(tasks@);
    let mut s = SubstrateReconcile {
        process_killed: 0,
        process_tombstoned: 0,
        ports_tombstoned: 0,
        ports_still_bound: 0,
        locks_removed: 0,
        locks_kept: 0,
    };
    let mut stale_rows: usize = 0;
    let mut i: usize = 0;
    while i < before.len()
        invariant
            i <= before@.len(),
            hs == held_views(before@),
            done == Set::new(
                |id: u64| exists|i: int|
                    0 <= i < report.completed@.len() && (#[trigger] report.completed@[i]).0 == id,
            ),
            ts == task_views(tasks@),
            stale_rows == count_fate(hs, done, ts, Fate::Stale, i as nat),
            s.process_killed == count_fate(hs, done, ts, Fate::ProcessKilled, i as nat),
            s.process_tombstoned == count_fate(hs, done, ts, Fate::ProcessGone, i as nat),
            s.ports_tombstoned == count_fate(hs, done, ts, Fate::PortFree, i as nat),
            s.ports_still_bound == count_fate(hs, done, ts, Fate::PortBound, i as nat),
            s.locks_removed == count_fate(hs, done, ts, Fate::LockRemoved, i as nat),
            s.locks_kept == count_fate(hs, done, ts, Fate::LockKept, i as nat),
            stale_rows <= i,
            s.process_killed <= i,
            s.process_tombstoned <= i,
            s.ports_tombstoned <= i,
            s.ports_still_bound <= i,
            s.locks_removed <= i,
            s.locks_kept <= i,
        decreases before.len() - i,
    {
        let h: &HoldingRecord = &before[i];
        assert(hs[i as int] == h@);
        let completed: bool = is_completed(&report.completed, h.id);
        let acted: bool = confirmed(tasks, h.id);
        match fate(h.class_id.as_str(), completed, acted) {
            Fate::ProcessKilled => {
                s.process_killed = s.process_killed + 1;
            },
            Fate::ProcessGone => {
                s.process_tombstoned = s.process_tombstoned + 1;
            },
            Fate::PortFree => {
                s.ports_tombstoned = s.ports_tombstoned + 1;
            },
            Fate::PortBound => {
                s.ports_still_bound = s.ports_still_bound + 1;
            },
            Fate::LockRemoved => {
                s.locks_removed = s.locks_removed + 1;
            },
            Fate::LockKept => {
                s.locks_kept = s.locks_kept + 1;
            },
            Fate::Stale => {
                stale_rows = stale_rows + 1;
            },
            Fate::Nothing => {},
        }
        i = i + 1;
    }
    OpenReport { stale_rows, cleanup_pending: report.pending.len(), substrate: s }
}

fn is_completed(completed: &Vec<(u64, String)>, id: u64) -> (b: bool)
    ensures
        b == exists|i: int| 0 <= i < completed@.len() && (#[trigger] completed@[i]).0 == id,
{
    let mut i: usize = 0;
    while i < completed.len()
        invariant
            i <= completed@.len(),
            forall|k: int| 0 <= k < i ==> (#[trigger] completed@[k]).0 != id,
        decreases completed.len() - i,
    {
        if completed[i].0 == id {
            assert(completed@[i as int].0 == id);
            return true;
        }
        i = i + 1;
    }
    false
}

/// What one sweep released, with the obligations that are left.
pub struct SweepReport {
    /// The identity, class and instance of each.
    pub released: Vec<(u64, String, String)>,
    pub pending: Vec<CleanupRecord>,
}

/// What sweeps released.
pub open spec fn release_views(s: Seq<(u64, String, String)>) -> Seq<(u64, Seq<char>, Seq<char>)> {
    Seq::new(s.len(), |i: int| (s[i].0, s[i].1@, s[i].2@))
}

/// What was released of the first holdings that a run discharged; nothing where one of them is not
/// in the ledger.
pub open spec fn swept(hs: Seq<Held>, done: Seq<(u64, Seq<char>)>, n: nat) -> Option<
    Seq<(u64, Seq<char>, Seq<char>)>,
>
    decreases n,
{
    if n == 0 {
        Some(Seq::empty())
    } else {
        match (swept(hs, done, (n - 1) as nat), holding_of(hs, done[n - 1].0)) {
            (Some(s), Some(h)) => Some(s.push((h.id, h.class_id, h.instance))),
            _ => None,
        }
    }
}

proof fn sweep_fails_on(hs: Seq<Held>, done: Seq<(u64, Seq<char>)>, n: nat, m: nat)
    requires
        n <= m,
        swept(hs, done, n) is None,
    ensures
        swept(hs, done, m) is None,
    decreases m - n,
{
    if n < m {
        sweep_fails_on(hs, done, n, (m - 1) as nat);
    }
}

/// What one sweep released.
pub fn sweep_report(report: CleanupReport, holdings: &Vec<HoldingRecord>) -> (r: Result<
    SweepReport,
    KernelError,
>)
    ensures
        ({
            let done = done_views(report.completed@);
            let out = swept(held_views(holdings@), done, done.len());
            match r {
                Ok(s) => {
                    &&& out == Some(release_views(s.released@))
                    &&& s.pending == report.pending
                },
                Err(e) => out is None && e@ == storage_fault("completed holding disappeared"@),
            }
        }),
{
    let ghost hs = held_views(holdings@);
    let ghost done = done_views(report.completed@);
    let mut released: Vec<(u64, String, String)> = Vec::new();
    let mut i: usize = 0;
    assert(release_views(released@) =~= Seq::<(u64, Seq<char>, Seq<char>)>::empty());
    while i < report.completed.len()
        invariant
            i <= report.completed@.len(),
            hs == held_views(holdings@),
            done == done_views(report.completed@),
            swept(hs, done, i as nat) == Some(release_views(released@)),
        decreases report.completed.len() - i,
    {
        let ghost before = release_views(released@);
        match find_holding(holdings, report.completed[i].0) {
            None => {
                proof {
                    sweep_fails_on(hs, done, (i + 1) as nat, done.len());
                }
                return Err(corrupt("completed holding disappeared"));
            },
            Some(h) => {
                released.push((h.id, h.class_id.clone(), h.instance.clone()));
                assert(release_views(released@) =~= before.push((h.id, h@.class_id, h@.instance)));
            },
        }
        i = i + 1;
    }
    Ok(SweepReport { released, pending: report.pending })
}

} // verus!

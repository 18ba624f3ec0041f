//! The state of a ledger store: what was committed is what readers see, and a store that lost
//! track of its database must be reopened. Beside it, the accounts of counted capabilities.

use crate::cap::Capability;
use crate::error::{KernelError, Refusal};
use crate::records::{
    corrupt, held_views, storage_fault, Frag, FragView, Held, HoldingRecord, Lease,
};
use crate::recovery::{pool_instance, pool_name};
use crate::strmap::listing_of;
use crate::substrate::{CLASS_CAP, CLASS_CAP_COUNT};
use crate::text::same;
use vstd::prelude::*;

verus! {

/// A store of a ledger.
pub struct LedgerStore<L> {
    ledger: L,
    writable: bool,
    revision: i64,
}

/// What a store holds.
pub struct Stored<L> {
    /// What was committed last.
    pub ledger: L,
    /// Whether the store knows the state of its database.
    pub writable: bool,
    /// The revision that was committed last.
    pub revision: i64,
}

impl<L> View for LedgerStore<L> {
    type V = Stored<L>;

    closed spec fn view(&self) -> Stored<L> {
        Stored { ledger: self.ledger, writable: self.writable, revision: self.revision }
    }
}

/// Why a transaction cannot begin on a database of a revision.
pub open spec fn begin_fault<L>(s: Stored<L>, found: i64) -> Option<Refusal> {
    if !s.writable {
        Some(storage_fault("ledger requires recovery before further writes"@))
    } else if found != s.revision {
        Some(storage_fault("ledger changed through another store; reopen required"@))
    } else if found == i64::MAX {
        Some(storage_fault("ledger revision exhausted"@))
    } else {
        None
    }
}

/// Why the ledger cannot be read on a database of a revision.
pub open spec fn read_fault<L>(s: Stored<L>, found: i64) -> Option<Refusal> {
    if !s.writable {
        Some(storage_fault("ledger requires recovery; current state is unknown"@))
    } else if found != s.revision {
        Some(storage_fault("ledger view is stale; reopen required"@))
    } else {
        None
    }
}

/// A store after it saw a revision: one that is not its own makes it unusable.
pub open spec fn seen<L>(s: Stored<L>, found: i64) -> Stored<L> {
    Stored { writable: s.writable && found == s.revision, ..s }
}

/// How the work of a transaction came out: to its end, with its writes stored; with a refusal, its
/// own or that of the storage; or unwinding.
pub enum Ran<T> {
    Done(T),
    Refused(KernelError),
    Unwound,
}

/// How the database ends a transaction.
#[derive(Debug, Clone, Copy, PartialEq, Eq, Structural)]
pub enum DbEnd {
    Commit,
    RollBack,
}

/// How a transaction is answered: with a result, or by unwinding further.
pub enum Settled<T> {
    Answered(Result<T, KernelError>),
    Unwinds,
}

/// How the database ends a transaction: only work that ran to its end is committed.
pub open spec fn close_of<T>(ran: Ran<T>) -> DbEnd {
    match ran {
        Ran::Done(_) => DbEnd::Commit,
        _ => DbEnd::RollBack,
    }
}

/// How the database is to end a transaction.
pub fn closing<T>(ran: &Ran<T>) -> (e: DbEnd)
    ensures
        e == close_of(*ran),
{
    match ran {
        Ran::Done(_) => DbEnd::Commit,
        _ => DbEnd::RollBack,
    }
}

/// A store after a transaction was settled; an end that the database refused leaves its state
/// unknown.
pub open spec fn settled_store<L, T>(
    s: Stored<L>,
    staged: L,
    next: i64,
    ran: Ran<T>,
    ended: bool,
) -> Stored<L> {
    match (ran, ended) {
        (Ran::Done(_), true) => Stored { ledger: staged, revision: next, ..s },
        (_, true) => s,
        (_, false) => Stored { writable: false, ..s },
    }
}

/// What a transaction is answered.
pub open spec fn settled_answer<T>(ran: Ran<T>, ended: Result<(), KernelError>) -> Settled<T> {
    match ran {
        Ran::Done(value) => Settled::Answered(
            match ended {
                Ok(_) => Ok(value),
                Err(e) => Err(e),
            },
        ),
        Ran::Refused(e) => Settled::Answered(Err(e)),
        Ran::Unwound => Settled::Unwinds,
    }
}

/// The rows of a database after it has ended a transaction: those that were written where they were
/// committed, and those of before where they were rolled back. What an end that was refused leaves
/// is not known.
pub open spec fn rows_after<R>(before: R, written: R, end: DbEnd, ended: bool) -> Option<R> {
    match (end, ended) {
        (DbEnd::Commit, true) => Some(written),
        (DbEnd::RollBack, true) => Some(before),
        (_, false) => None,
    }
}

/// A transaction whose work was refused, could not be stored or unwound, and that the database has
/// rolled back, changes nothing: readers see the ledger of before, the rows are those of before, no
/// value is answered, and the next transaction begins as this one did.
pub proof fn a_failed_transaction_changes_nothing<L, R, T>(
    s: Stored<L>,
    found: i64,
    staged: L,
    next: i64,
    ran: Ran<T>,
    ended: Result<(), KernelError>,
    rows: R,
    written: R,
)
    requires
        begin_fault(s, found) is None,
        !(ran is Done),
        ended is Ok,
    ensures
        ({
            let after = settled_store(seen(s, found), staged, next, ran, ended is Ok);
            &&& after == s
            &&& rows_after(rows, written, close_of(ran), ended is Ok) == Some(rows)
            &&& !(settled_answer(ran, ended) matches Settled::Answered(Ok(_)))
            &&& ran is Unwound ==> settled_answer(ran, ended) is Unwinds
            &&& begin_fault(after, found) is None
            &&& read_fault(after, found) is None
        }),
{
}

/// What readers see and what is stored go together: a transaction that the database has ended
/// publishes what was staged exactly where its rows were committed.
pub proof fn rows_and_readers_agree<L, R, T>(
    s: Stored<L>,
    staged: L,
    next: i64,
    ran: Ran<T>,
    rows: R,
    written: R,
)
    ensures
        ({
            let after = settled_store(s, staged, next, ran, true);
            let stored = rows_after(rows, written, close_of(ran), true);
            if ran is Done {
                after.ledger == staged && after.revision == next && stored == Some(written)
            } else {
                after == s && stored == Some(rows)
            }
        }),
{
}

impl<L> LedgerStore<L> {
    /// A store of a ledger that was loaded at a revision.
    pub fn open(ledger: L, revision: i64) -> (r: Result<Self, KernelError>)
        ensures
            match r {
                Ok(s) => revision >= 0 && s@ == (Stored { ledger, writable: true, revision }),
                Err(e) => revision < 0 && e@ == storage_fault("negative ledger revision"@),
            },
    {
        if revision < 0 {
            return Err(corrupt("negative ledger revision"));
        }
        Ok(LedgerStore { ledger, writable: true, revision })
    }

    /// The next revision of a transaction that begins on a database of a revision.
    pub fn begin(&mut self, found: i64) -> (r: Result<i64, KernelError>)
        ensures
            final(self)@ == seen(old(self)@, found),
            match r {
                Ok(next) => begin_fault(old(self)@, found) is None && next == found + 1,
                Err(e) => begin_fault(old(self)@, found) == Some(e@),
            },
    {
        if !self.writable {
            return Err(corrupt("ledger requires recovery before further writes"));
        }
        if found != self.revision {
            self.writable = false;
            return Err(corrupt("ledger changed through another store; reopen required"));
        }
        match found.checked_add(1) {
            Some(next) => Ok(next),
            None => Err(corrupt("ledger revision exhausted")),
        }
    }

    /// Ends a transaction that ran to its end. What was staged is published once the database has
    /// committed it; a commit that failed leaves the state of the database unknown.
    pub fn commit<T>(
        &mut self,
        staged: L,
        next: i64,
        value: T,
        committed: Result<(), KernelError>,
    ) -> (r: Result<T, KernelError>)
        ensures
            match committed {
                Ok(_) => {
                    &&& r == Ok::<T, KernelError>(value)
                    &&& final(self)@ == (Stored { ledger: staged, revision: next, ..old(self)@ })
                },
                Err(e) => {
                    &&& r == Err::<T, KernelError>(e)
                    &&& final(self)@ == (Stored { writable: false, ..old(self)@ })
                },
            },
    {
        match committed {
            Ok(_) => {
                self.ledger = staged;
                self.revision = next;
                Ok(value)
            },
            Err(e) => {
                self.writable = false;
                Err(e)
            },
        }
    }

    /// Ends a transaction that was refused or unwound. What was staged is dropped; a rollback that
    /// failed leaves the state of the database unknown.
    pub fn roll_back(&mut self, undone: bool)
        ensures
            final(self)@ == (Stored { writable: old(self)@.writable && undone, ..old(self)@ }),
    {
        if !undone {
            self.writable = false;
        }
    }

    /// Settles a transaction once the database has ended it as [`closing`] says. What was staged is
    /// published where it was committed, and dropped otherwise.
    pub fn settle<T>(
        &mut self,
        staged: L,
        next: i64,
        ran: Ran<T>,
        ended: Result<(), KernelError>,
    ) -> (r: Settled<T>)
        ensures
            final(self)@ == settled_store(old(self)@, staged, next, ran, ended is Ok),
            r == settled_answer(ran, ended),
    {
        match ran {
            Ran::Done(value) => Settled::Answered(self.commit(staged, next, value, ended)),
            Ran::Refused(e) => {
                self.roll_back(ended.is_ok());
                Settled::Answered(Err(e))
            },
            Ran::Unwound => {
                self.roll_back(ended.is_ok());
                Settled::Unwinds
            },
        }
    }

    /// The ledger that a transaction starts from.
    pub fn current(&self) -> (l: &L)
        ensures
            *l == self@.ledger,
    {
        &self.ledger
    }

    /// The ledger that was committed last, on a database of a revision.
    pub fn with_read(&mut self, found: i64) -> (r: Result<&L, KernelError>)
        ensures
            final(self)@ == seen(old(self)@, found),
            match r {
                Ok(l) => read_fault(old(self)@, found) is None && *l == old(self)@.ledger,
                Err(e) => read_fault(old(self)@, found) == Some(e@),
            },
    {
        if !self.writable {
            return Err(corrupt("ledger requires recovery; current state is unknown"));
        }
        if found != self.revision {
            self.writable = false;
            return Err(corrupt("ledger view is stale; reopen required"));
        }
        Ok(&self.ledger)
    }
}

/// What happens to a store.
pub enum Happening<L> {
    /// A transaction begins, or a read, on a database of a revision.
    Seen(i64),
    Committed(L, i64),
    CommitFailed,
    RolledBack,
    RollbackFailed,
}

/// A store after something happened to it.
pub open spec fn after<L>(s: Stored<L>, h: Happening<L>) -> Stored<L> {
    match h {
        Happening::Seen(found) => seen(s, found),
        Happening::Committed(l, next) => Stored { ledger: l, revision: next, ..s },
        Happening::CommitFailed => Stored { writable: false, ..s },
        Happening::RolledBack => s,
        Happening::RollbackFailed => Stored { writable: false, ..s },
    }
}

/// A store after all that happened to it.
pub open spec fn after_all<L>(s: Stored<L>, hs: Seq<Happening<L>>) -> Stored<L>
    decreases hs.len(),
{
    if hs.len() == 0 {
        s
    } else {
        after(after_all(s, hs.drop_last()), hs.last())
    }
}

/// Readers see what was committed last and nothing that was only staged: as long as nothing is
/// committed, whatever else happens, the ledger is the one of before.
pub proof fn only_commits_are_seen<L>(s: Stored<L>, hs: Seq<Happening<L>>)
    requires
        forall|i: int| 0 <= i < hs.len() ==> !((#[trigger] hs[i]) is Committed),
    ensures
        after_all(s, hs).ledger == s.ledger,
        after_all(s, hs).revision == s.revision,
    decreases hs.len(),
{
    if hs.len() > 0 {
        assert forall|i: int| 0 <= i < hs.drop_last().len() implies !((
        #[trigger] hs.drop_last()[i]) is Committed) by {
            assert(hs[i] == hs.drop_last()[i]);
        }
        only_commits_are_seen(s, hs.drop_last());
        assert(!(hs[hs.len() - 1] is Committed));
    }
}

/// A store that lost track of its database refuses every transaction and every read from then on:
/// it must be reopened.
pub proof fn lost_track_is_final<L>(s: Stored<L>, hs: Seq<Happening<L>>, found: i64)
    requires
        !s.writable,
    ensures
        !after_all(s, hs).writable,
        begin_fault(after_all(s, hs), found) is Some,
        read_fault(after_all(s, hs), found) is Some,
    decreases hs.len(),
{
    if hs.len() > 0 {
        lost_track_is_final(s, hs.drop_last(), found);
    }
}

/// Whether a holding counts against a pool.
pub open spec fn counts_against(h: Held, class: Seq<char>, instance: Seq<char>) -> bool {
    h.state.spec_occupies() && h.class_id == class && h.instance == instance
}

/// What is spent of a pool by the first holdings.
pub open spec fn spent_by(
    hs: Seq<Held>,
    class: Seq<char>,
    instance: Seq<char>,
    n: nat,
) -> nat
    decreases n,
{
    if n == 0 {
        0
    } else {
        spent_by(hs, class, instance, (n - 1) as nat) + if counts_against(
            hs[n - 1],
            class,
            instance,
        ) {
            match hs[n - 1].frag {
                FragView::Count(Some(k)) => k as nat,
                _ => 0nat,
            }
        } else {
            0nat
        }
    }
}

proof fn spent_grows(hs: Seq<Held>, class: Seq<char>, instance: Seq<char>, n: nat, m: nat)
    requires
        n <= m,
    ensures
        spent_by(hs, class, instance, n) <= spent_by(hs, class, instance, m),
    decreases m - n,
{
    if n < m {
        spent_grows(hs, class, instance, n, (m - 1) as nat);
    }
}

/// What is spent of a pool: the sum of the counts of the holdings that occupy it.
pub fn spent_in(holdings: &Vec<HoldingRecord>, class: &str, instance: &str) -> (n: u64)
    requires
        spent_by(held_views(holdings@), class@, instance@, holdings@.len()) <= u64::MAX,
        forall|i: int|
            0 <= i < holdings@.len() && counts_against(
                (#[trigger] holdings@[i])@,
                class@,
                instance@,
            ) ==> holdings@[i]@.frag matches FragView::Count(Some(_)),
    ensures
        n == spent_by(held_views(holdings@), class@, instance@, holdings@.len()),
{
    let ghost hs = held_views(holdings@);
    let mut n: u64 = 0;
    let mut i: usize = 0;
    while i < holdings.len()
        invariant
            i <= holdings@.len(),
            hs == held_views(holdings@),
            n == spent_by(hs, class@, instance@, i as nat),
            spent_by(hs, class@, instance@, holdings@.len()) <= u64::MAX,
        decreases holdings.len() - i,
    {
        let h: &HoldingRecord = &holdings[i];
        assert(hs[i as int] == h@);
        proof {
            spent_grows(hs, class@, instance@, (i + 1) as nat, holdings@.len());
        }
        if h.state.occupies() && same(h.class_id.as_str(), class) && same(
            h.instance.as_str(),
            instance,
        ) {
            match &h.frag {
                Frag::Count(Some(k)) => {
                    n = n + *k;
                },
                _ => {},
            }
        }
        i = i + 1;
    }
    n
}

/// What is left of a pool, or why that cannot be said.
pub open spec fn balance_of(capacity: Option<FragView>, spent: u64) -> Result<u64, Refusal> {
    match capacity {
        Some(FragView::Count(Some(cap))) => if spent <= cap {
            Ok((cap - spent) as u64)
        } else {
            Err(storage_fault("overdrawn pool"@))
        },
        _ => Err(storage_fault("account has no counted pool"@)),
    }
}

/// What is left of a pool.
pub fn count_balance(capacity: Option<&Frag>, spent: u64) -> (r: Result<u64, KernelError>)
    ensures
        ({
            let cap = match capacity {
                Some(f) => Some(f@),
                None => None,
            };
            match r {
                Ok(n) => balance_of(cap, spent) == Ok::<u64, Refusal>(n),
                Err(e) => balance_of(cap, spent) == Err::<u64, Refusal>(e@),
            }
        }),
{
    match capacity {
        Some(Frag::Count(Some(cap))) => match cap.checked_sub(spent) {
            Some(n) => Ok(n),
            None => Err(corrupt("overdrawn pool")),
        },
        _ => Err(corrupt("account has no counted pool")),
    }
}

/// An account as it is bound: its owner and its pool.
pub struct Binding {
    pub owner: String,
    pub class_id: String,
    pub instance: String,
}

/// Whether an account is bound to its pool, of an owner.
pub open spec fn binds(b: Binding, account: Seq<char>, effect: Seq<char>, owner: Seq<char>) -> bool {
    &&& b.owner@ == owner
    &&& b.class_id@ == CLASS_CAP_COUNT@
    &&& b.instance@ == pool_name(account, effect)
}

/// Why a counted pool cannot be made for an account: it is bound otherwise, or the pool is there
/// with another capacity.
pub open spec fn count_pool_fault(
    existing: Option<Binding>,
    account: Seq<char>,
    effect: Seq<char>,
    owner: Seq<char>,
    stored: Option<FragView>,
    capacity: u64,
) -> Option<Refusal> {
    if existing matches Some(b) && !binds(b, account, effect, owner) {
        Some(storage_fault("account binding changed"@))
    } else if stored matches Some(f) && f != FragView::Count(Some(capacity)) {
        Some(Refusal::Denied("ledger: PoolExists"@))
    } else {
        None
    }
}

/// The instance of the pool of an account, if a counted pool can be made for it.
pub fn create_count_pool(
    existing: &Option<Binding>,
    account: &str,
    effect: &str,
    owner: &str,
    stored: Option<&Frag>,
    capacity: u64,
) -> (r: Result<String, KernelError>)
    ensures
        ({
            let fault = count_pool_fault(
                *existing,
                account@,
                effect@,
                owner@,
                match stored {
                    Some(f) => Some(f@),
                    None => None,
                },
                capacity,
            );
            match r {
                Ok(s) => fault is None && s@ == pool_name(account@, effect@),
                Err(e) => fault == Some(e@),
            }
        }),
{
    let instance: String = pool_instance(account, effect);
    if let Some(b) = existing {
        if !same(b.owner.as_str(), owner) || !same(b.class_id.as_str(), CLASS_CAP_COUNT) || !same(
            b.instance.as_str(),
            instance.as_str(),
        ) {
            return Err(corrupt("account binding changed"));
        }
    }
    if let Some(f) = stored {
        let same_capacity: bool = match f {
            Frag::Count(Some(n)) => *n == capacity,
            _ => false,
        };
        if !same_capacity {
            return Err(KernelError::Denied("ledger: PoolExists".to_owned()));
        }
    }
    Ok(instance)
}

/// A grant of a count.
pub struct SpendOrder {
    pub owner: String,
    pub class_id: String,
    pub instance: String,
    pub amount: u64,
    pub generation: String,
}

/// What is to be granted to spend an amount of an account; nothing where the amount is nothing.
pub fn spend(subject: &str, account: Option<(String, String)>, amount: u64) -> (r: Result<
    Option<SpendOrder>,
    KernelError,
>)
    ensures
        match r {
            Ok(None) => amount == 0,
            Ok(Some(o)) => {
                &&& amount > 0
                &&& account is Some
                &&& o.owner@ == subject@ + ":spent"@
                &&& o.class_id@ == (account->0).0@
                &&& o.instance@ == (account->0).1@
                &&& o.amount == amount
                &&& o.generation@ == "spend"@
            },
            Err(e) => amount > 0 && account is None && e@ == Refusal::Denied(
                "unknown count account"@,
            ),
        },
{
    if amount == 0 {
        return Ok(None);
    }
    match account {
        None => Err(KernelError::Denied("unknown count account".to_owned())),
        Some((class_id, instance)) => {
            let mut owner: String = subject.to_owned();
            owner.append(":spent");
            Ok(
                Some(
                    SpendOrder {
                        owner,
                        class_id,
                        instance,
                        amount,
                        generation: "spend".to_owned(),
                    },
                ),
            )
        },
    }
}

/// The lease of a holding of a capability.
pub open spec fn lease_of(expires_at: Option<u64>) -> Lease {
    match expires_at {
        Some(t) => Lease::Until(t),
        None => Lease::Unbounded,
    }
}

/// What is registered for a capability: a counted pool for each count, and a holding of the
/// capability that lasts as long as it does.
pub struct CapabilityOrders {
    /// The effect and amount of each pool, in the order of the effects.
    pub pools: Vec<(String, u64)>,
    pub account: String,
    pub owner: String,
    pub class_id: String,
    pub instance: String,
    pub generation: String,
    pub lease: Lease,
}

/// What is registered for a capability.
pub fn register_capability(cap: &Capability) -> (r: CapabilityOrders)
    ensures
        r.pools@.len() == listing_of(cap@.counts).len(),
        forall|i: int|
            0 <= i < r.pools@.len() ==> (#[trigger] r.pools@[i]).0@ == listing_of(
                cap@.counts,
            )[i].0 && r.pools@[i].1 == listing_of(cap@.counts)[i].1,
        r.account@ == cap@.cap_id,
        r.owner@ == cap@.subject,
        r.class_id@ == CLASS_CAP@,
        r.instance@ == cap@.cap_id,
        r.generation@ == cap@.cap_id,
        r.lease == lease_of(cap@.expires_at),
{
    let n: usize = cap.constraints.counts.len();
    let ghost pairs = listing_of(cap@.counts);
    let mut pools: Vec<(String, u64)> = Vec::new();
    let mut i: usize = 0;
    while i < n
        invariant
            i <= n,
            n == pairs.len(),
            pairs == cap.constraints.counts.pairs(),
            pools@.len() == i,
            forall|k: int|
                0 <= k < i ==> (#[trigger] pools@[k]).0@ == pairs[k].0 && pools@[k].1
                    == pairs[k].1,
        decreases n - i,
    {
        pools.push(
            (cap.constraints.counts.key_at(i).clone(), *cap.constraints.counts.value_at(i)),
        );
        i = i + 1;
    }
    let lease: Lease = match cap.constraints.expires_at {
        Some(t) => Lease::Until(t),
        None => Lease::Unbounded,
    };
    CapabilityOrders {
        pools,
        account: cap.cap_id.clone(),
        owner: cap.subject.clone(),
        class_id: CLASS_CAP.to_owned(),
        instance: cap.cap_id.clone(),
        generation: cap.cap_id.clone(),
        lease,
    }
}

/// How many of the first holdings of a class are in use, and how many are retired.
pub open spec fn counted(hs: Seq<Held>, class: Seq<char>, n: nat) -> (nat, nat)
    decreases n,
{
    if n == 0 {
        (0, 0)
    } else {
        let before = counted(hs, class, (n - 1) as nat);
        let h = hs[n - 1];
        if h.class_id != class {
            before
        } else if h.state is Active {
            (before.0 + 1, before.1)
        } else if h.state is Retired {
            (before.0, before.1 + 1)
        } else {
            before
        }
    }
}

/// How many holdings of a class are in use, and how many are retired.
pub fn counts(holdings: &Vec<HoldingRecord>, class: &str) -> (r: (usize, usize))
    ensures
        (r.0 as nat, r.1 as nat) == counted(held_views(holdings@), class@, holdings@.len()),
{
    let ghost hs = held_views(holdings@);
    let mut live: usize = 0;
    let mut retired: usize = 0;
    let mut i: usize = 0;
    while i < holdings.len()
        invariant
            i <= holdings@.len(),
            hs == held_views(holdings@),
            (live as nat, retired as nat) == counted(hs, class@, i as nat),
            live <= i,
            retired <= i,
        decreases holdings.len() - i,
    {
        assert(hs[i as int] == holdings@[i as int]@);
        if same(holdings[i].class_id.as_str(), class) {
            if holdings[i].state.is_active() {
                live = live + 1;
            } else if !holdings[i].state.occupies() {
                retired = retired + 1;
            }
        }
        i = i + 1;
    }
    (live, retired)
}

/// Whether a holding is the one of a capability that is in use.
pub open spec fn holds_cap(h: Held, account: Seq<char>) -> bool {
    h.state is Active && h.class_id == CLASS_CAP@ && h.instance == account
}

/// The first holding of a capability that is in use.
pub fn cap_holding<'a>(holdings: &'a Vec<HoldingRecord>, account: &str) -> (r: Option<
    &'a HoldingRecord,
>)
    ensures
        match r {
            Some(h) => exists|i: int|
                0 <= i < holdings@.len() && *h == #[trigger] holdings@[i] && holds_cap(
                    holdings@[i]@,
                    account@,
                ) && forall|j: int|
                    0 <= j < i ==> !holds_cap((#[trigger] holdings@[j])@, account@),
            None => forall|i: int|
                0 <= i < holdings@.len() ==> !holds_cap((#[trigger] holdings@[i])@, account@),
        },
{
    let mut i: usize = 0;
    while i < holdings.len()
        invariant
            i <= holdings@.len(),
            forall|j: int| 0 <= j < i ==> !holds_cap((#[trigger] holdings@[j])@, account@),
        decreases holdings.len() - i,
    {
        let h: &HoldingRecord = &holdings[i];
        if h.state.is_active() && same(h.class_id.as_str(), CLASS_CAP) && same(
            h.instance.as_str(),
            account,
        ) {
            return Some(h);
        }
        i = i + 1;
    }
    None
}

} // verus!

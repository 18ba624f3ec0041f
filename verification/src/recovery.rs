//! What a stored ledger must satisfy before it is used: its schema, the declarations that every
//! ledger holds, the import of capabilities that are older than pools, and the records beside the
//! ledger.

use crate::cap::{Capability, Grant};
use crate::error::{joined_text, KernelError, Refusal};
use crate::records::{
    class_views, corrupt, grade, grade_names_differ, grade_text, held_views, is_journal_state,
    journal_text, pool_views, storage_fault, task_views, AlgebraTag, Capacity, Class, ClassDecl,
    CleanupKind, CleanupPolicy, Frag, FragView, Held, HoldingRecord, JournalState, PoolRecord,
    RevertGrade, Snapshot, Task,
};
use crate::retirement::{classify, migrate_retirements, settle, Evidence};
use crate::strmap::listing_of;
use crate::substrate::{
    fits_generation, generation_fits, CLASS_CAP, CLASS_CAP_COUNT, CLASS_FILE_LOCK, CLASS_PLUGIN,
    CLASS_PORT, CLASS_PROCESS, CLASS_SUBSCRIPTION,
};
use crate::text::{
    decimal, lex_lt, lex_total, lex_transitive, push_decimal, push_signed, relate, same,
    signed_decimal, Rel,
};
use vstd::prelude::*;

verus! {

/// What must be done with a ledger of a schema.
#[derive(Debug, Clone, Copy, PartialEq, Eq, Structural)]
pub struct SchemaPlan {
    /// There is no schema yet.
    pub legacy: bool,
    /// The records are older than the current schema.
    pub migrate: bool,
}

/// What must be done with a ledger of a schema. A schema that is not known is refused.
pub fn schema_plan(version: Option<i64>) -> (r: Result<SchemaPlan, KernelError>)
    ensures
        match r {
            Ok(p) => {
                &&& version is None || version == Some(1i64) || version == Some(2i64)
                &&& p.legacy == (version is None)
                &&& p.migrate == (version != Some(2i64))
            },
            Err(e) => {
                &&& version matches Some(v) && v != 1 && v != 2
                &&& e@ == storage_fault(
                    "unsupported resource schema Some("@ + signed_decimal(version->0 as int)
                        + ")"@,
                )
            },
        },
{
    match version {
        None => Ok(SchemaPlan { legacy: true, migrate: true }),
        Some(v) => if v == 1 {
            Ok(SchemaPlan { legacy: false, migrate: true })
        } else if v == 2 {
            Ok(SchemaPlan { legacy: false, migrate: false })
        } else {
            let mut s: String = "unsupported resource schema Some(".to_owned();
            push_signed(&mut s, v);
            s.append(")");
            Err(corrupt(s.as_str()))
        },
    }
}

/// The policy of a class that every ledger holds; a class that is declared later is cleaned up by
/// its provider.
pub open spec fn builtin_policy_of(id: Seq<char>) -> CleanupPolicy {
    if id == CLASS_CAP_COUNT@ || id == CLASS_CAP@ {
        CleanupPolicy::AccountingOnly
    } else if id == CLASS_PROCESS@ {
        CleanupPolicy::Managed(CleanupKind::Process)
    } else if id == CLASS_FILE_LOCK@ {
        CleanupPolicy::Managed(CleanupKind::FileLock)
    } else if id == CLASS_PORT@ {
        CleanupPolicy::Managed(CleanupKind::Port)
    } else if id == CLASS_PLUGIN@ {
        CleanupPolicy::Managed(CleanupKind::Plugin)
    } else if id == CLASS_SUBSCRIPTION@ {
        CleanupPolicy::Managed(CleanupKind::Subscription)
    } else {
        CleanupPolicy::Managed(CleanupKind::Provider)
    }
}

/// The policy of a class that every ledger holds.
pub fn builtin_policy(id: &str) -> (p: CleanupPolicy)
    ensures
        p == builtin_policy_of(id@),
{
    if same(id, CLASS_CAP_COUNT) || same(id, CLASS_CAP) {
        CleanupPolicy::AccountingOnly
    } else if same(id, CLASS_PROCESS) {
        CleanupPolicy::Managed(CleanupKind::Process)
    } else if same(id, CLASS_FILE_LOCK) {
        CleanupPolicy::Managed(CleanupKind::FileLock)
    } else if same(id, CLASS_PORT) {
        CleanupPolicy::Managed(CleanupKind::Port)
    } else if same(id, CLASS_PLUGIN) {
        CleanupPolicy::Managed(CleanupKind::Plugin)
    } else if same(id, CLASS_SUBSCRIPTION) {
        CleanupPolicy::Managed(CleanupKind::Subscription)
    } else {
        CleanupPolicy::Managed(CleanupKind::Provider)
    }
}

/// The declaration of a class that every ledger holds.
pub open spec fn builtin_class(id: Seq<char>) -> Class {
    Class {
        class_id: id,
        algebra: if id == CLASS_CAP_COUNT@ {
            AlgebraTag::Counted
        } else {
            AlgebraTag::Exclusive
        },
        release_idempotent: true,
        lease_duration: None,
        revert_grade: RevertGrade::Inverse,
        cleanup: builtin_policy_of(id),
    }
}

/// The classes that every ledger holds.
pub open spec fn builtin_ids() -> Seq<Seq<char>> {
    seq![
        CLASS_CAP_COUNT@,
        CLASS_PLUGIN@,
        CLASS_SUBSCRIPTION@,
        CLASS_PROCESS@,
        CLASS_PORT@,
        CLASS_FILE_LOCK@,
        CLASS_CAP@,
    ]
}

fn builtin(id: &str) -> (c: ClassDecl)
    ensures
        c@ == builtin_class(id@),
{
    ClassDecl {
        class_id: id.to_owned(),
        algebra: if same(id, CLASS_CAP_COUNT) {
            AlgebraTag::Counted
        } else {
            AlgebraTag::Exclusive
        },
        release_idempotent: true,
        lease_duration: None,
        revert_grade: RevertGrade::Inverse,
        cleanup: builtin_policy(id),
    }
}

/// The declarations that every ledger holds.
pub fn builtins() -> (v: Vec<ClassDecl>)
    ensures
        v@.len() == builtin_ids().len(),
        forall|i: int| 0 <= i < v@.len() ==> (#[trigger] v@[i])@ == builtin_class(builtin_ids()[i]),
{
    vec![
        builtin(CLASS_CAP_COUNT),
        builtin(CLASS_PLUGIN),
        builtin(CLASS_SUBSCRIPTION),
        builtin(CLASS_PROCESS),
        builtin(CLASS_PORT),
        builtin(CLASS_FILE_LOCK),
        builtin(CLASS_CAP),
    ]
}

/// The first declaration of a class.
pub open spec fn declaration(classes: Seq<Class>, id: Seq<char>) -> Option<Class>
    decreases classes.len(),
{
    if classes.len() == 0 {
        None
    } else if classes[0].class_id == id {
        Some(classes[0])
    } else {
        declaration(classes.drop_first(), id)
    }
}

fn find_class<'a>(classes: &'a Vec<ClassDecl>, id: &str) -> (r: Option<&'a ClassDecl>)
    ensures
        match r {
            Some(c) => declaration(class_views(classes@), id@) == Some(c@),
            None => declaration(class_views(classes@), id@) is None,
        },
{
    let ghost all = class_views(classes@);
    let mut i: usize = 0;
    assert(all.skip(0) =~= all);
    while i < classes.len()
        invariant
            i <= classes@.len(),
            all == class_views(classes@),
            declaration(all.skip(i as int), id@) == declaration(all, id@),
        decreases classes.len() - i,
    {
        let ghost rest = all.skip(i as int);
        assert(rest[0] == classes@[i as int]@);
        assert(rest.drop_first() =~= all.skip(i + 1));
        if same(classes[i].class_id.as_str(), id) {
            return Some(&classes[i]);
        }
        i = i + 1;
    }
    None
}

fn same_class(a: &ClassDecl, b: &ClassDecl) -> (r: bool)
    ensures
        r == (a@ == b@),
{
    let leases: bool = match (a.lease_duration, b.lease_duration) {
        (None, None) => true,
        (Some(x), Some(y)) => x == y,
        _ => false,
    };
    same(a.class_id.as_str(), b.class_id.as_str()) && a.algebra == b.algebra
        && a.release_idempotent == b.release_idempotent && leases && a.revert_grade
        == b.revert_grade && a.cleanup == b.cleanup
}

/// Whether the declaration of a class that every ledger holds is the stored one.
pub open spec fn declared(classes: Seq<Class>, id: Seq<char>) -> bool {
    declaration(classes, id) == Some(builtin_class(id))
}

/// Whether a class is the first of those that every ledger holds whose declaration is not the
/// stored one.
pub open spec fn first_undeclared(classes: Seq<Class>, i: int) -> bool {
    &&& 0 <= i < builtin_ids().len()
    &&& !declared(classes, builtin_ids()[i])
    &&& forall|j: int| 0 <= j < i ==> declared(classes, #[trigger] builtin_ids()[j])
}

/// Checks that the declarations that every ledger holds are the stored ones.
pub fn check_builtins(classes: &Vec<ClassDecl>) -> (r: Result<(), KernelError>)
    ensures
        match r {
            Ok(_) => forall|i: int|
                0 <= i < builtin_ids().len() ==> declared(
                    class_views(classes@),
                    #[trigger] builtin_ids()[i],
                ),
            Err(e) => exists|i: int| #[trigger]
                first_undeclared(class_views(classes@), i) && e@ == storage_fault(
                    "builtin declaration differs: "@ + builtin_ids()[i],
                ),
        },
{
    let all: Vec<ClassDecl> = builtins();
    let ghost ids = builtin_ids();
    let mut i: usize = 0;
    while i < all.len()
        invariant
            i <= all@.len(),
            ids == builtin_ids(),
            all@.len() == ids.len(),
            forall|k: int| 0 <= k < all@.len() ==> (#[trigger] all@[k])@ == builtin_class(ids[k]),
            forall|k: int| 0 <= k < i ==> declared(class_views(classes@), #[trigger] ids[k]),
        decreases all.len() - i,
    {
        assert(all@[i as int]@ == builtin_class(ids[i as int]));
        let stored: bool = match find_class(classes, all[i].class_id.as_str()) {
            Some(c) => same_class(c, &all[i]),
            None => false,
        };
        if !stored {
            assert(first_undeclared(class_views(classes@), i as int));
            return Err(
                corrupt(
                    joined_text("builtin declaration differs: ", all[i].class_id.as_str()).as_str(),
                ),
            );
        }
        i = i + 1;
    }
    Ok(())
}

/// A capability of a ledger without a schema, as it was stored.
pub struct LegacyCap {
    pub id: String,
    pub parsed: Result<Capability, String>,
    pub revoked: i64,
}

/// The account of an effect of a capability.
#[derive(Debug, PartialEq, Eq)]
pub struct AccountRow {
    pub account: String,
    pub effect: String,
    pub owner: String,
    pub class_id: String,
    pub instance: String,
}

/// The account of an effect of a capability.
#[verifier::ext_equal]
pub struct Account {
    pub account: Seq<char>,
    pub effect: Seq<char>,
    pub owner: Seq<char>,
    pub class_id: Seq<char>,
    pub instance: Seq<char>,
}

impl View for AccountRow {
    type V = Account;

    open spec fn view(&self) -> Account {
        Account {
            account: self.account@,
            effect: self.effect@,
            owner: self.owner@,
            class_id: self.class_id@,
            instance: self.instance@,
        }
    }
}

/// What accounts say.
pub open spec fn account_views(s: Seq<AccountRow>) -> Seq<Account> {
    Seq::new(s.len(), |i: int| s[i]@)
}

/// The instance of the pool of an effect.
pub open spec fn pool_name(account: Seq<char>, effect: Seq<char>) -> Seq<char> {
    account + "/"@ + effect
}

/// The instance of the pool of an effect.
pub fn pool_instance(account: &str, effect: &str) -> (s: String)
    ensures
        s@ == pool_name(account@, effect@),
{
    let mut s: String = account.to_owned();
    s.append("/");
    s.append(effect);
    s
}

/// Whether a pool is among pools.
pub open spec fn pooled(pools: Seq<Capacity>, class: Seq<char>, instance: Seq<char>) -> bool {
    exists|i: int|
        0 <= i < pools.len() && (#[trigger] pools[i]).class_id == class && pools[i].instance
            == instance
}

fn has_pool(pools: &Vec<PoolRecord>, class: &str, instance: &str) -> (b: bool)
    ensures
        b == pooled(pool_views(pools@), class@, instance@),
{
    let ghost all = pool_views(pools@);
    let mut i: usize = 0;
    while i < pools.len()
        invariant
            i <= pools@.len(),
            all == pool_views(pools@),
            forall|k: int|
                0 <= k < i ==> !((#[trigger] all[k]).class_id == class@ && all[k].instance
                    == instance@),
        decreases pools.len() - i,
    {
        assert(all[i as int] == pools@[i as int]@);
        if same(pools[i].class_id.as_str(), class) && same(pools[i].instance.as_str(), instance) {
            return true;
        }
        i = i + 1;
    }
    false
}

/// Whether a pool comes before another: by class, and within a class by instance.
pub open spec fn pool_before(a: Capacity, b: Capacity) -> bool {
    lex_lt(a.class_id, b.class_id) || (a.class_id == b.class_id && lex_lt(a.instance, b.instance))
}

/// How many pools at the start of some come before another.
pub open spec fn place_among(pools: Seq<Capacity>, p: Capacity) -> nat
    decreases pools.len(),
{
    if pools.len() == 0 || !pool_before(pools[0], p) {
        0
    } else {
        1 + place_among(pools.drop_first(), p)
    }
}

/// Pools with one more at its place.
pub open spec fn placed(pools: Seq<Capacity>, p: Capacity) -> Seq<Capacity> {
    pools.insert(place_among(pools, p) as int, p)
}

/// Whether pools stand in the order of their classes and instances, none of them twice.
pub open spec fn pools_in_order(pools: Seq<Capacity>) -> bool {
    forall|i: int, j: int|
        0 <= i < j < pools.len() ==> pool_before(#[trigger] pools[i], #[trigger] pools[j])
}

proof fn place_is(pools: Seq<Capacity>, p: Capacity, n: int)
    requires
        0 <= n <= pools.len(),
        forall|i: int| 0 <= i < n ==> pool_before(#[trigger] pools[i], p),
        n < pools.len() ==> !pool_before(pools[n], p),
    ensures
        place_among(pools, p) == n,
    decreases n,
{
    if n > 0 {
        assert(pool_before(pools[0], p));
        let rest = pools.drop_first();
        assert forall|i: int| 0 <= i < n - 1 implies pool_before(#[trigger] rest[i], p) by {
            assert(rest[i] == pools[i + 1]);
        }
        place_is(rest, p, n - 1);
    }
}

proof fn place_splits(pools: Seq<Capacity>, p: Capacity)
    ensures
        place_among(pools, p) <= pools.len(),
        forall|i: int| 0 <= i < place_among(pools, p) ==> pool_before(#[trigger] pools[i], p),
        place_among(pools, p) < pools.len() ==> !pool_before(
            pools[place_among(pools, p) as int],
            p,
        ),
    decreases pools.len(),
{
    if pools.len() > 0 && pool_before(pools[0], p) {
        let rest = pools.drop_first();
        place_splits(rest, p);
        assert forall|i: int| 0 <= i < place_among(pools, p) implies pool_before(
            #[trigger] pools[i],
            p,
        ) by {
            if i > 0 {
                assert(rest[i - 1] == pools[i]);
            }
        }
    }
}

proof fn before_goes_on(a: Capacity, b: Capacity, c: Capacity)
    requires
        pool_before(a, b),
        pool_before(b, c),
    ensures
        pool_before(a, c),
{
    if lex_lt(a.class_id, b.class_id) && lex_lt(b.class_id, c.class_id) {
        lex_transitive(a.class_id, b.class_id, c.class_id);
    } else if a.class_id == b.class_id && b.class_id == c.class_id {
        lex_transitive(a.instance, b.instance, c.instance);
    }
}

proof fn placing_keeps_order(pools: Seq<Capacity>, p: Capacity)
    requires
        pools_in_order(pools),
        !pooled(pools, p.class_id, p.instance),
    ensures
        pools_in_order(placed(pools, p)),
{
    place_splits(pools, p);
    let n = place_among(pools, p) as int;
    let out = placed(pools, p);
    assert forall|i: int| n <= i < pools.len() implies pool_before(p, #[trigger] pools[i]) by {
        lex_total(p.class_id, pools[n].class_id);
        lex_total(p.instance, pools[n].instance);
        assert(pools[n].class_id != p.class_id || pools[n].instance != p.instance);
        assert(pool_before(p, pools[n]));
        if i > n {
            assert(pool_before(pools[n], pools[i]));
            before_goes_on(p, pools[n], pools[i]);
        }
    }
    assert forall|i: int, j: int| 0 <= i < j < out.len() implies pool_before(
        #[trigger] out[i],
        #[trigger] out[j],
    ) by {
        let a = if i < n {
            i
        } else {
            i - 1
        };
        let b = if j < n {
            j
        } else {
            j - 1
        };
        if i != n {
            assert(out[i] == pools[a]);
        }
        if j != n {
            assert(out[j] == pools[b]);
        }
    }
}

fn put_pool(pools: &mut Vec<PoolRecord>, p: PoolRecord)
    ensures
        pool_views(final(pools)@) == placed(pool_views(old(pools)@), p@),
{
    let ghost all = pool_views(pools@);
    let mut n: usize = 0;
    while n < pools.len()
        invariant
            n <= pools@.len(),
            all == pool_views(pools@),
            pools@ == old(pools)@,
            forall|i: int| 0 <= i < n ==> pool_before(#[trigger] all[i], p@),
        ensures
            n <= pools@.len(),
            pools@ == old(pools)@,
            forall|i: int| 0 <= i < n ==> pool_before(#[trigger] all[i], p@),
            n < pools@.len() ==> !pool_before(all[n as int], p@),
        decreases pools.len() - n,
    {
        assert(all[n as int] == pools@[n as int]@);
        let ghost q = pools@[n as int]@;
        proof {
            lex_total(q.class_id, p@.class_id);
            lex_total(q.instance, p@.instance);
        }
        let before: bool = match relate(pools[n].class_id.as_str(), p.class_id.as_str()) {
            Rel::Before => true,
            Rel::Same => match relate(pools[n].instance.as_str(), p.instance.as_str()) {
                Rel::Before => true,
                _ => false,
            },
            Rel::After => false,
        };
        if !before {
            break;
        }
        n = n + 1;
    }
    proof {
        place_is(all, p@, n as int);
    }
    let ghost pv = p@;
    pools.insert(n, p);
    assert(pool_views(pools@) =~= all.insert(n as int, pv));
}

/// Pools and accounts.
#[verifier::ext_equal]
pub struct Imported {
    pub pools: Seq<Capacity>,
    pub accounts: Seq<Account>,
}

/// The pools and accounts once the first counts of a capability were imported. A revoked
/// capability has nothing left.
pub open spec fn import_counts(cap: Grant, before: Imported, n: nat) -> Result<Imported, Refusal>
    decreases n,
{
    if n == 0 {
        Ok(before)
    } else {
        match import_counts(cap, before, (n - 1) as nat) {
            Err(e) => Err(e),
            Ok(at) => {
                let pair = listing_of(cap.counts)[n - 1];
                let instance = pool_name(cap.cap_id, pair.0);
                if pooled(at.pools, CLASS_CAP_COUNT@, instance) {
                    Err(storage_fault("ambiguous legacy pool "@ + instance))
                } else {
                    Ok(
                        Imported {
                            pools: placed(
                                at.pools,
                                Capacity {
                                    class_id: CLASS_CAP_COUNT@,
                                    instance,
                                    capacity: FragView::Count(
                                        Some(
                                            if cap.revoked {
                                                0
                                            } else {
                                                pair.1
                                            },
                                        ),
                                    ),
                                },
                            ),
                            accounts: at.accounts.push(
                                Account {
                                    account: cap.cap_id,
                                    effect: pair.0,
                                    owner: cap.subject,
                                    class_id: CLASS_CAP_COUNT@,
                                    instance,
                                },
                            ),
                        },
                    )
                }
            },
        }
    }
}

/// Why a stored capability is refused: it cannot be read, or its columns and its text disagree.
pub open spec fn cap_refusal(c: LegacyCap) -> Option<Refusal> {
    match c.parsed {
        Err(why) => Some(storage_fault("legacy account "@ + c.id@ + ": "@ + why@)),
        Ok(cap) => if cap@.cap_id != c.id@ || !(c.revoked == 0 || c.revoked == 1)
            || cap@.revoked != (c.revoked == 1) {
            Some(storage_fault("inconsistent legacy account "@ + c.id@))
        } else {
            None
        },
    }
}

/// The pools and accounts once the first capabilities were imported; the refusal of the first
/// that is refused.
pub open spec fn import_caps(caps: Seq<LegacyCap>, n: nat) -> Result<Imported, Refusal>
    decreases n,
{
    if n == 0 {
        Ok(Imported { pools: Seq::empty(), accounts: Seq::empty() })
    } else {
        match import_caps(caps, (n - 1) as nat) {
            Err(e) => Err(e),
            Ok(at) => match cap_refusal(caps[n - 1]) {
                Some(e) => Err(e),
                None => {
                    let cap = caps[n - 1].parsed->Ok_0@;
                    import_counts(cap, at, listing_of(cap.counts).len())
                },
            },
        }
    }
}

/// The pools once the first holdings were seen: an exclusive resource that is held has a pool.
pub open spec fn import_held(
    classes: Seq<Class>,
    hs: Seq<Held>,
    pools: Seq<Capacity>,
    n: nat,
) -> Result<Seq<Capacity>, Refusal>
    decreases n,
{
    if n == 0 {
        Ok(pools)
    } else {
        match import_held(classes, hs, pools, (n - 1) as nat) {
            Err(e) => Err(e),
            Ok(at) => {
                let h = hs[n - 1];
                match declaration(classes, h.class_id) {
                    None => Err(
                        storage_fault(
                            "holding "@ + decimal(h.id as nat) + ": unknown class "@ + h.class_id,
                        ),
                    ),
                    Some(c) => if c.algebra is Exclusive && !pooled(at, h.class_id, h.instance) {
                        Ok(
                            placed(
                                at,
                                Capacity {
                                    class_id: h.class_id,
                                    instance: h.instance,
                                    capacity: FragView::Ex(true),
                                },
                            ),
                        )
                    } else {
                        Ok(at)
                    },
                }
            },
        }
    }
}

/// The pools and accounts of a ledger without a schema, the pools in the order of their classes and
/// instances.
pub open spec fn legacy_import(
    caps: Seq<LegacyCap>,
    classes: Seq<Class>,
    hs: Seq<Held>,
    stored_pools: nat,
) -> Result<Imported, Refusal> {
    match import_caps(caps, caps.len()) {
        Err(e) => Err(e),
        Ok(at) => match import_held(classes, hs, at.pools, hs.len()) {
            Err(e) => Err(e),
            Ok(pools) => if stored_pools > 0 {
                Err(
                    storage_fault("unversioned pool storage; cannot safely infer migration state"@),
                )
            } else {
                Ok(Imported { pools, accounts: at.accounts })
            },
        },
    }
}

/// The pools that an import makes stand in the order of their classes and instances, and no resource
/// has two.
pub proof fn imported_pools_are_in_order(
    caps: Seq<LegacyCap>,
    classes: Seq<Class>,
    hs: Seq<Held>,
    stored_pools: nat,
)
    ensures
        legacy_import(caps, classes, hs, stored_pools) matches Ok(out) ==> pools_in_order(
            out.pools,
        ),
{
    caps_in_order(caps, caps.len());
    if let Ok(at) = import_caps(caps, caps.len()) {
        held_in_order(classes, hs, at.pools, hs.len());
    }
}

proof fn counts_in_order(cap: Grant, before: Imported, n: nat)
    requires
        pools_in_order(before.pools),
    ensures
        import_counts(cap, before, n) matches Ok(out) ==> pools_in_order(out.pools),
    decreases n,
{
    if n > 0 {
        counts_in_order(cap, before, (n - 1) as nat);
        if let (Ok(at), Ok(out)) = (
            import_counts(cap, before, (n - 1) as nat),
            import_counts(cap, before, n),
        ) {
            let pair = listing_of(cap.counts)[n - 1];
            placing_keeps_order(
                at.pools,
                Capacity {
                    class_id: CLASS_CAP_COUNT@,
                    instance: pool_name(cap.cap_id, pair.0),
                    capacity: FragView::Count(
                        Some(
                            if cap.revoked {
                                0
                            } else {
                                pair.1
                            },
                        ),
                    ),
                },
            );
        }
    }
}

proof fn caps_in_order(caps: Seq<LegacyCap>, n: nat)
    ensures
        import_caps(caps, n) matches Ok(out) ==> pools_in_order(out.pools),
    decreases n,
{
    if n > 0 {
        caps_in_order(caps, (n - 1) as nat);
        if let Ok(at) = import_caps(caps, (n - 1) as nat) {
            if cap_refusal(caps[n - 1]) is None {
                let cap = caps[n - 1].parsed->Ok_0@;
                counts_in_order(cap, at, listing_of(cap.counts).len());
            }
        }
    }
}

proof fn held_in_order(classes: Seq<Class>, hs: Seq<Held>, pools: Seq<Capacity>, n: nat)
    requires
        pools_in_order(pools),
    ensures
        import_held(classes, hs, pools, n) matches Ok(out) ==> pools_in_order(out),
    decreases n,
{
    if n > 0 {
        held_in_order(classes, hs, pools, (n - 1) as nat);
        if let Ok(at) = import_held(classes, hs, pools, (n - 1) as nat) {
            let h = hs[n - 1];
            if !pooled(at, h.class_id, h.instance) {
                placing_keeps_order(
                    at,
                    Capacity {
                        class_id: h.class_id,
                        instance: h.instance,
                        capacity: FragView::Ex(true),
                    },
                );
            }
        }
    }
}

proof fn counts_fail_on(cap: Grant, before: Imported, n: nat, m: nat)
    requires
        n <= m,
        import_counts(cap, before, n) is Err,
    ensures
        import_counts(cap, before, m) == import_counts(cap, before, n),
    decreases m - n,
{
    if n < m {
        counts_fail_on(cap, before, n, (m - 1) as nat);
    }
}

proof fn caps_fail_on(caps: Seq<LegacyCap>, n: nat, m: nat)
    requires
        n <= m,
        import_caps(caps, n) is Err,
    ensures
        import_caps(caps, m) == import_caps(caps, n),
    decreases m - n,
{
    if n < m {
        caps_fail_on(caps, n, (m - 1) as nat);
    }
}

proof fn held_fail_on(classes: Seq<Class>, hs: Seq<Held>, pools: Seq<Capacity>, n: nat, m: nat)
    requires
        n <= m,
        import_held(classes, hs, pools, n) is Err,
    ensures
        import_held(classes, hs, pools, m) == import_held(classes, hs, pools, n),
    decreases m - n,
{
    if n < m {
        held_fail_on(classes, hs, pools, n, (m - 1) as nat);
    }
}

fn read_counts(cap: &Capability, pools: &mut Vec<PoolRecord>, accounts: &mut Vec<AccountRow>) -> (r:
    Result<(), KernelError>)
    ensures
        ({
            let before = Imported {
                pools: pool_views(old(pools)@),
                accounts: account_views(old(accounts)@),
            };
            let out = import_counts(cap@, before, listing_of(cap@.counts).len());
            match r {
                Ok(_) => out == Ok::<Imported, Refusal>(
                    Imported {
                        pools: pool_views(final(pools)@),
                        accounts: account_views(final(accounts)@),
                    },
                ),
                Err(e) => out == Err::<Imported, Refusal>(e@),
            }
        }),
{
    let ghost before = Imported { pools: pool_views(pools@), accounts: account_views(accounts@) };
    let n: usize = cap.constraints.counts.len();
    let ghost pairs = listing_of(cap@.counts);
    let mut i: usize = 0;
    while i < n
        invariant
            i <= n,
            n == pairs.len(),
            pairs == listing_of(cap@.counts),
            pairs == cap.constraints.counts.pairs(),
            before == (Imported {
                pools: pool_views(old(pools)@),
                accounts: account_views(old(accounts)@),
            }),
            import_counts(cap@, before, i as nat) == Ok::<Imported, Refusal>(
                Imported { pools: pool_views(pools@), accounts: account_views(accounts@) },
            ),
        decreases n - i,
    {
        let ghost at = Imported { pools: pool_views(pools@), accounts: account_views(accounts@) };
        let effect: &String = cap.constraints.counts.key_at(i);
        let amount: u64 = *cap.constraints.counts.value_at(i);
        let instance: String = pool_instance(cap.cap_id.as_str(), effect.as_str());
        if has_pool(pools, CLASS_CAP_COUNT, instance.as_str()) {
            proof {
                counts_fail_on(cap@, before, (i + 1) as nat, pairs.len());
            }
            return Err(corrupt(joined_text("ambiguous legacy pool ", instance.as_str()).as_str()));
        }
        let left: u64 = if cap.revoked {
            0
        } else {
            amount
        };
        let record = PoolRecord {
            class_id: CLASS_CAP_COUNT.to_owned(),
            instance: instance.clone(),
            capacity: Frag::Count(Some(left)),
        };
        let row = AccountRow {
            account: cap.cap_id.clone(),
            effect: effect.clone(),
            owner: cap.subject.clone(),
            class_id: CLASS_CAP_COUNT.to_owned(),
            instance,
        };
        let ghost pv = record@;
        let ghost av = row@;
        put_pool(pools, record);
        accounts.push(row);
        proof {
            assert(pool_views(pools@) == placed(at.pools, pv));
            assert(account_views(accounts@) =~= at.accounts.push(av));
        }
        i = i + 1;
    }
    Ok(())
}

fn check_cap(c: &LegacyCap) -> (r: Result<&Capability, KernelError>)
    ensures
        match r {
            Ok(cap) => {
                &&& cap_refusal(*c) is None
                &&& c.parsed is Ok
                &&& *cap == c.parsed->Ok_0
            },
            Err(e) => cap_refusal(*c) == Some(e@),
        },
{
    match &c.parsed {
        Err(why) => {
            let mut s: String = joined_text("legacy account ", c.id.as_str());
            s.append(": ");
            s.append(why.as_str());
            Err(corrupt(s.as_str()))
        },
        Ok(cap) => if !same(cap.cap_id.as_str(), c.id.as_str()) || !(c.revoked == 0 || c.revoked
            == 1) || cap.revoked != (c.revoked == 1) {
            Err(corrupt(joined_text("inconsistent legacy account ", c.id.as_str()).as_str()))
        } else {
            Ok(cap)
        },
    }
}

/// Imports the capabilities of a ledger without a schema: each count becomes a pool with an
/// account, and each exclusive resource that is held gets its pool.
pub fn import_legacy(caps: &Vec<LegacyCap>, snapshot: &mut Snapshot) -> (r: Result<
    Vec<AccountRow>,
    KernelError,
>)
    ensures
        ({
            let out = legacy_import(
                caps@,
                class_views(old(snapshot).classes@),
                held_views(old(snapshot).holdings@),
                old(snapshot).pools@.len(),
            );
            match r {
                Ok(accounts) => {
                    &&& out == Ok::<Imported, Refusal>(
                        Imported {
                            pools: pool_views(final(snapshot).pools@),
                            accounts: account_views(accounts@),
                        },
                    )
                    &&& final(snapshot).classes == old(snapshot).classes
                    &&& final(snapshot).instantiations == old(snapshot).instantiations
                    &&& final(snapshot).holdings == old(snapshot).holdings
                    &&& final(snapshot).cleanups == old(snapshot).cleanups
                },
                Err(e) => {
                    &&& out == Err::<Imported, Refusal>(e@)
                    &&& *final(snapshot) == *old(snapshot)
                },
            }
        }),
{
    let mut pools: Vec<PoolRecord> = Vec::new();
    let mut accounts: Vec<AccountRow> = Vec::new();
    assert(pool_views(pools@) =~= Seq::<Capacity>::empty());
    assert(account_views(accounts@) =~= Seq::<Account>::empty());
    let mut i: usize = 0;
    while i < caps.len()
        invariant
            i <= caps@.len(),
            *snapshot == *old(snapshot),
            import_caps(caps@, i as nat) == Ok::<Imported, Refusal>(
                Imported { pools: pool_views(pools@), accounts: account_views(accounts@) },
            ),
        decreases caps.len() - i,
    {
        let cap: &Capability = match check_cap(&caps[i]) {
            Ok(cap) => cap,
            Err(e) => {
                proof {
                    caps_fail_on(caps@, (i + 1) as nat, caps@.len());
                }
                return Err(e);
            },
        };
        match read_counts(cap, &mut pools, &mut accounts) {
            Ok(_) => {},
            Err(e) => {
                proof {
                    caps_fail_on(caps@, (i + 1) as nat, caps@.len());
                }
                return Err(e);
            },
        }
        i = i + 1;
    }
    let ghost cs = class_views(snapshot.classes@);
    let ghost hs = held_views(snapshot.holdings@);
    let ghost counted = pool_views(pools@);
    i = 0;
    while i < snapshot.holdings.len()
        invariant
            i <= snapshot.holdings@.len(),
            *snapshot == *old(snapshot),
            cs == class_views(snapshot.classes@),
            hs == held_views(snapshot.holdings@),
            import_caps(caps@, caps@.len()) == Ok::<Imported, Refusal>(
                Imported { pools: counted, accounts: account_views(accounts@) },
            ),
            import_held(cs, hs, counted, i as nat) == Ok::<Seq<Capacity>, Refusal>(
                pool_views(pools@),
            ),
        decreases snapshot.holdings.len() - i,
    {
        let h: &HoldingRecord = &snapshot.holdings[i];
        assert(hs[i as int] == h@);
        let ghost at = pool_views(pools@);
        match find_class(&snapshot.classes, h.class_id.as_str()) {
            None => {
                proof {
                    held_fail_on(cs, hs, counted, (i + 1) as nat, hs.len());
                }
                let mut s: String = "holding ".to_owned();
                push_decimal(&mut s, h.id);
                s.append(": unknown class ");
                s.append(h.class_id.as_str());
                return Err(corrupt(s.as_str()));
            },
            Some(c) => {
                if c.algebra == AlgebraTag::Exclusive && !has_pool(
                    &pools,
                    h.class_id.as_str(),
                    h.instance.as_str(),
                ) {
                    let record = PoolRecord {
                        class_id: h.class_id.clone(),
                        instance: h.instance.clone(),
                        capacity: Frag::Ex { token: true },
                    };
                    put_pool(&mut pools, record);
                }
            },
        }
        i = i + 1;
    }
    if snapshot.pools.len() > 0 {
        return Err(corrupt("unversioned pool storage; cannot safely infer migration state"));
    }
    snapshot.pools = pools;
    Ok(accounts)
}

/// The account of an effect, with what was said of its pool.
pub struct AccountCheck {
    pub account: String,
    pub effect: String,
    pub pool: Result<(), String>,
}

/// An entry of the historical journal.
pub struct JournalRow {
    pub holding: i64,
    pub grade: String,
    pub state: String,
    pub updated_at: i64,
}

/// The first holding of an identity.
pub open spec fn holding_of(hs: Seq<Held>, id: u64) -> Option<Held>
    decreases hs.len(),
{
    if hs.len() == 0 {
        None
    } else if hs[0].id == id {
        Some(hs[0])
    } else {
        holding_of(hs.drop_first(), id)
    }
}

/// The first holding of an identity.
pub fn find_holding(hs: &Vec<HoldingRecord>, id: u64) -> (r: Option<&HoldingRecord>)
    ensures
        match r {
            Some(h) => holding_of(held_views(hs@), id) == Some(h@),
            None => holding_of(held_views(hs@), id) is None,
        },
{
    let ghost all = held_views(hs@);
    let mut i: usize = 0;
    assert(all.skip(0) =~= all);
    while i < hs.len()
        invariant
            i <= hs@.len(),
            all == held_views(hs@),
            holding_of(all.skip(i as int), id) == holding_of(all, id),
        decreases hs.len() - i,
    {
        let ghost rest = all.skip(i as int);
        assert(rest[0] == hs@[i as int]@);
        assert(rest.drop_first() =~= all.skip(i + 1));
        if hs[i].id == id {
            return Some(&hs[i]);
        }
        i = i + 1;
    }
    None
}

/// Why an account is refused: it has no counted pool.
pub open spec fn account_refusal(a: AccountCheck) -> Option<Refusal> {
    match a.pool {
        Ok(_) => None,
        Err(why) => Some(
            storage_fault("account "@ + a.account@ + "/"@ + a.effect@ + ": "@ + why@),
        ),
    }
}

/// Why an entry of the historical journal is refused: it names no holding, its grade is not that
/// of the class, or its state or time is none.
pub open spec fn journal_refusal(classes: Seq<Class>, hs: Seq<Held>, row: JournalRow) -> Option<
    Refusal,
> {
    if row.holding < 0 {
        Some(Refusal::Denied("ledger: identity out of range"@))
    } else {
        match holding_of(hs, row.holding as u64) {
            None => Some(storage_fault("legacy journal has no holding"@)),
            Some(h) => if forall|g: RevertGrade| row.grade@ != #[trigger] grade_text(g) {
                Some(storage_fault("unknown grade "@ + row.grade@))
            } else if declaration(classes, h.class_id) is None || grade_text(
                declaration(classes, h.class_id)->0.revert_grade,
            ) != row.grade@ || !(exists|j: JournalState| row.state@ == #[trigger] journal_text(j)) {
                Some(storage_fault("invalid legacy journal"@))
            } else if row.updated_at < 0 {
                Some(Refusal::Denied("ledger: time out of range"@))
            } else {
                None
            },
        }
    }
}

fn check_journal(classes: &Vec<ClassDecl>, hs: &Vec<HoldingRecord>, row: &JournalRow) -> (r: Result<
    (),
    KernelError,
>)
    ensures
        match r {
            Ok(_) => journal_refusal(class_views(classes@), held_views(hs@), *row) is None,
            Err(e) => journal_refusal(class_views(classes@), held_views(hs@), *row) == Some(e@),
        },
{
    if row.holding < 0 {
        return Err(KernelError::Denied("ledger: identity out of range".to_owned()));
    }
    let h: &HoldingRecord = match find_holding(hs, row.holding as u64) {
        None => {
            return Err(corrupt("legacy journal has no holding"));
        },
        Some(h) => h,
    };
    let declared: Option<&ClassDecl> = find_class(classes, h.class_id.as_str());
    let named: RevertGrade = match grade(row.grade.as_str()) {
        Err(e) => {
            return Err(e);
        },
        Ok(g) => g,
    };
    assert(row.grade@ == grade_text(named));
    let agrees: bool = match declared {
        None => false,
        Some(c) => {
            proof {
                if grade_text(c.revert_grade) == grade_text(named) {
                    grade_names_differ(c.revert_grade, named);
                }
            }
            c.revert_grade == named
        },
    };
    if !agrees || !is_journal_state(row.state.as_str()) {
        return Err(corrupt("invalid legacy journal"));
    }
    if row.updated_at < 0 {
        return Err(KernelError::Denied("ledger: time out of range".to_owned()));
    }
    Ok(())
}

/// The refusal of the records beside a ledger, if they are refused: the first account that is, or
/// the first entry of the journal that is, or the first process whose generation is not that of
/// its target.
pub open spec fn auxiliary_refusal(
    accounts: Seq<AccountCheck>,
    journal: Seq<JournalRow>,
    classes: Seq<Class>,
    hs: Seq<Held>,
) -> Option<Refusal>
    decreases accounts.len() + journal.len() + hs.len(),
{
    if accounts.len() > 0 {
        match account_refusal(accounts[0]) {
            Some(e) => Some(e),
            None => auxiliary_refusal(accounts.drop_first(), journal, classes, hs),
        }
    } else {
        match journal_fault(journal, classes, hs) {
            Some(e) => Some(e),
            None => if forall|i: int|
                0 <= i < hs.len() ==> generation_fits(
                    (#[trigger] hs[i]).target,
                    hs[i].generation,
                ) {
                None
            } else {
                Some(
                    storage_fault("process holding incarnation differs from cleanup target"@),
                )
            },
        }
    }
}

/// The refusal of the first entry of a journal that is refused.
pub open spec fn journal_fault(
    journal: Seq<JournalRow>,
    classes: Seq<Class>,
    hs: Seq<Held>,
) -> Option<Refusal>
    decreases journal.len(),
{
    if journal.len() == 0 {
        None
    } else {
        match journal_refusal(classes, hs, journal[0]) {
            Some(e) => Some(e),
            None => journal_fault(journal.drop_first(), classes, hs),
        }
    }
}

/// Checks the records beside a ledger.
pub fn validate_auxiliary(
    accounts: &Vec<AccountCheck>,
    journal: &Vec<JournalRow>,
    classes: &Vec<ClassDecl>,
    holdings: &Vec<HoldingRecord>,
) -> (r: Result<(), KernelError>)
    ensures
        ({
            let fault = auxiliary_refusal(
                accounts@,
                journal@,
                class_views(classes@),
                held_views(holdings@),
            );
            match r {
                Ok(_) => fault is None,
                Err(e) => fault == Some(e@),
            }
        }),
{
    let ghost cs = class_views(classes@);
    let ghost hs = held_views(holdings@);
    let ghost fault = auxiliary_refusal(accounts@, journal@, cs, hs);
    let mut i: usize = 0;
    assert(accounts@.skip(0) =~= accounts@);
    while i < accounts.len()
        invariant
            i <= accounts@.len(),
            cs == class_views(classes@),
            hs == held_views(holdings@),
            fault == auxiliary_refusal(accounts@, journal@, cs, hs),
            fault == auxiliary_refusal(accounts@.skip(i as int), journal@, cs, hs),
        decreases accounts.len() - i,
    {
        assert(accounts@.skip(i as int).drop_first() =~= accounts@.skip(i + 1));
        if let Err(why) = &accounts[i].pool {
            let mut s: String = joined_text("account ", accounts[i].account.as_str());
            s.append("/");
            s.append(accounts[i].effect.as_str());
            s.append(": ");
            s.append(why.as_str());
            return Err(corrupt(s.as_str()));
        }
        i = i + 1;
    }
    assert(accounts@.skip(i as int).len() == 0);
    i = 0;
    assert(journal@.skip(0) =~= journal@);
    while i < journal.len()
        invariant
            i <= journal@.len(),
            cs == class_views(classes@),
            hs == held_views(holdings@),
            fault == auxiliary_refusal(accounts@, journal@, cs, hs),
            journal_fault(journal@, cs, hs) is Some ==> fault == journal_fault(journal@, cs, hs),
            journal_fault(journal@, cs, hs) == journal_fault(journal@.skip(i as int), cs, hs),
        decreases journal.len() - i,
    {
        assert(journal@.skip(i as int).drop_first() =~= journal@.skip(i + 1));
        match check_journal(classes, holdings, &journal[i]) {
            Ok(_) => {},
            Err(e) => {
                return Err(e);
            },
        }
        i = i + 1;
    }
    assert(journal_fault(journal@, cs, hs) is None);
    i = 0;
    while i < holdings.len()
        invariant
            i <= holdings@.len(),
            cs == class_views(classes@),
            hs == held_views(holdings@),
            fault == auxiliary_refusal(accounts@, journal@, cs, hs),
            (exists|k: int|
                0 <= k < hs.len() && !generation_fits((#[trigger] hs[k]).target, hs[k].generation))
                ==> fault == Some(
                storage_fault("process holding incarnation differs from cleanup target"@),
            ),
            (forall|k: int|
                0 <= k < hs.len() ==> generation_fits((#[trigger] hs[k]).target, hs[k].generation))
                ==> fault is None,
            forall|k: int|
                0 <= k < i ==> generation_fits((#[trigger] hs[k]).target, hs[k].generation),
        decreases holdings.len() - i,
    {
        assert(hs[i as int] == holdings@[i as int]@);
        if !fits_generation(&holdings[i].target, holdings[i].generation.as_str()) {
            return Err(corrupt("process holding incarnation differs from cleanup target"));
        }
        i = i + 1;
    }
    Ok(())
}

/// A decoded ledger up to its first check as a graph: the declarations that every ledger holds are
/// the stored ones, and a ledger without a schema was imported.
pub fn prepare(plan: &SchemaPlan, snapshot: &mut Snapshot, caps: &Vec<LegacyCap>) -> (r: Result<
    Vec<AccountRow>,
    KernelError,
>)
    ensures
        ({
            let cs = class_views(old(snapshot).classes@);
            let kept = forall|i: int|
                0 <= i < builtin_ids().len() ==> declared(cs, #[trigger] builtin_ids()[i]);
            let out = legacy_import(
                caps@,
                cs,
                held_views(old(snapshot).holdings@),
                old(snapshot).pools@.len(),
            );
            match r {
                Ok(accounts) => {
                    &&& kept
                    &&& !plan.legacy ==> accounts@.len() == 0 && *final(snapshot) == *old(snapshot)
                    &&& plan.legacy ==> {
                        &&& out == Ok::<Imported, Refusal>(
                            Imported {
                                pools: pool_views(final(snapshot).pools@),
                                accounts: account_views(accounts@),
                            },
                        )
                        &&& final(snapshot).classes == old(snapshot).classes
                        &&& final(snapshot).instantiations == old(snapshot).instantiations
                        &&& final(snapshot).holdings == old(snapshot).holdings
                        &&& final(snapshot).cleanups == old(snapshot).cleanups
                    }
                },
                Err(e) => {
                    &&& *final(snapshot) == *old(snapshot)
                    &&& kept ==> plan.legacy && out == Err::<Imported, Refusal>(e@)
                    &&& !kept ==> exists|i: int| #[trigger]
                        first_undeclared(cs, i) && e@ == storage_fault(
                            "builtin declaration differs: "@ + builtin_ids()[i],
                        )
                },
            }
        }),
{
    match check_builtins(&snapshot.classes) {
        Ok(_) => {},
        Err(e) => {
            return Err(e);
        },
    }
    if plan.legacy {
        import_legacy(caps, snapshot)
    } else {
        Ok(Vec::new())
    }
}

/// The refusal of a graph.
pub open spec fn graph_refusal(what: Seq<char>, why: Seq<char>) -> Refusal {
    storage_fault(what + " graph rejected: "@ + why)
}

fn graph_error(what: &str, why: &str) -> (e: KernelError)
    ensures
        e@ == graph_refusal(what@, why@),
{
    let mut s: String = joined_text(what, " graph rejected: ");
    s.append(why);
    corrupt(s.as_str())
}

/// The ledger with the obligations that its records lack. The graph must be valid before they are
/// introduced: a migration repairs no history.
pub fn migrate(
    plan: &SchemaPlan,
    snapshot: Snapshot,
    graph: &Result<(), String>,
    evidence: &Vec<Evidence>,
    realm: &str,
    now: u64,
) -> (r: Result<Snapshot, KernelError>)
    requires
        plan.migrate ==> evidence@.len() == snapshot.holdings@.len(),
    ensures
        ({
            let out = classify(
                class_views(snapshot.classes@),
                held_views(snapshot.holdings@),
                evidence@,
                realm@,
                now,
                snapshot.holdings@.len(),
            );
            match r {
                Ok(s) => {
                    &&& !plan.migrate ==> s == snapshot
                    &&& plan.migrate ==> {
                        &&& graph is Ok
                        &&& snapshot.cleanups@.len() == 0
                        &&& out is Ok
                        &&& (held_views(s.holdings@), task_views(s.cleanups@)) == settle(
                            out->Ok_0.0,
                            out->Ok_0.1,
                            realm@,
                            now,
                        )
                        &&& s.classes == snapshot.classes
                        &&& s.pools == snapshot.pools
                        &&& s.instantiations == snapshot.instantiations
                    }
                },
                Err(e) => {
                    &&& plan.migrate
                    &&& match graph {
                        Err(why) => e@ == graph_refusal("legacy"@, why@),
                        Ok(_) => if snapshot.cleanups@.len() > 0 {
                            e@ == storage_fault("unversioned cleanup records"@)
                        } else {
                            out == Err::<(Seq<Held>, Seq<Task>), Refusal>(e@)
                        },
                    }
                },
            }
        }),
{
    if !plan.migrate {
        return Ok(snapshot);
    }
    match graph {
        Err(why) => Err(graph_error("legacy", why.as_str())),
        Ok(_) => migrate_retirements(snapshot, evidence, realm, now),
    }
}

/// Accepts a ledger: it has a realm, its graph is valid, and so are the records beside it.
pub fn accept(
    snapshot: &Snapshot,
    realm: &str,
    graph: &Result<(), String>,
    accounts: &Vec<AccountCheck>,
    journal: &Vec<JournalRow>,
) -> (r: Result<(), KernelError>)
    ensures
        ({
            let fault = auxiliary_refusal(
                accounts@,
                journal@,
                class_views(snapshot.classes@),
                held_views(snapshot.holdings@),
            );
            match r {
                Ok(_) => realm@.len() > 0 && graph is Ok && fault is None,
                Err(e) => if realm@.len() == 0 {
                    e@ == storage_fault("empty resource realm"@)
                } else {
                    match graph {
                        Err(why) => e@ == graph_refusal("ledger"@, why@),
                        Ok(_) => fault == Some(e@),
                    }
                },
            }
        }),
{
    if realm.unicode_len() == 0 {
        return Err(corrupt("empty resource realm"));
    }
    match graph {
        Err(why) => Err(graph_error("ledger", why.as_str())),
        Ok(_) => validate_auxiliary(accounts, journal, &snapshot.classes, &snapshot.holdings),
    }
}

} // verus!

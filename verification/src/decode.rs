//! The stored rows of a ledger, and the ledger that they hold. A row that is malformed is refused;
//! nothing is filled in.

use crate::error::{KernelError, Refusal};
use crate::frag::{
    canonical, frag_from_json, frag_refusal, frag_shape, frag_to_json, fragment_round_trip,
    storable,
};
use crate::json::Json;
use crate::records::{
    algebra, algebra_name, algebra_names_differ, algebra_text, corrupt, grade, grade_name,
    grade_names_differ, grade_text, policy, policy_name, policy_names_differ, policy_text,
    storage_fault, AlgebraTag, Capacity, Class, ClassDecl, CleanupPolicy, CleanupTarget, Frag,
    Held, HoldingRecord, HoldingState, Lease, PoolRecord, RevertGrade, Snapshot, Target,
};
use crate::recovery::{builtin_policy, builtin_policy_of};
use crate::text::{decimal, push_decimal, same};
use vstd::prelude::*;

verus! {

/// A stored class.
pub struct ClassRow {
    pub class_id: String,
    pub algebra: String,
    pub release_idempotent: i64,
    pub lease_secs: Option<i64>,
    pub revert_grade: String,
    /// Missing from rows that are older than cleanup obligations.
    pub cleanup: Option<String>,
}

/// A stored pool; its capacity as text and as the JSON that the text holds.
pub struct PoolRow {
    pub class_id: String,
    pub instance: String,
    pub capacity: String,
    pub parsed: Result<Json, String>,
}

/// A stored holding; its fragment as text and as the JSON that the text holds.
pub struct HoldingRow {
    pub id: i64,
    pub subject: String,
    pub class_id: String,
    pub instance: String,
    pub frag: String,
    pub parsed: Result<Json, String>,
    pub generation: String,
    pub parent: Option<i64>,
    pub lease_expires_at: Option<i64>,
    pub acquired_at: i64,
    pub released_at: Option<i64>,
    pub lease_kind: Option<String>,
}

/// Whether a text names an algebra.
pub open spec fn is_algebra(s: Seq<char>) -> bool {
    exists|t: AlgebraTag| s == #[trigger] algebra_text(t)
}

/// Whether a text names a grade.
pub open spec fn is_grade(s: Seq<char>) -> bool {
    exists|g: RevertGrade| s == #[trigger] grade_text(g)
}

/// Whether a text names a policy.
pub open spec fn is_policy(s: Seq<char>) -> bool {
    exists|p: CleanupPolicy| s == #[trigger] policy_text(p)
}

/// Why a stored class is refused.
pub open spec fn class_fault(r: ClassRow) -> Option<Refusal> {
    if r.release_idempotent != 0 && r.release_idempotent != 1 {
        Some(storage_fault("invalid release declaration"@))
    } else if r.lease_secs matches Some(n) && n < 0 {
        Some(storage_fault("negative duration"@))
    } else if !is_algebra(r.algebra@) {
        Some(storage_fault("unknown algebra "@ + r.algebra@))
    } else if !is_grade(r.revert_grade@) {
        Some(storage_fault("unknown grade "@ + r.revert_grade@))
    } else if r.cleanup matches Some(c) && !is_policy(c@) {
        Some(storage_fault("unknown cleanup kind "@ + r.cleanup->0@))
    } else {
        None
    }
}

/// Whether a class is the stored one.
pub open spec fn holds_class(r: ClassRow, c: Class) -> bool {
    &&& c.class_id == r.class_id@
    &&& algebra_text(c.algebra) == r.algebra@
    &&& c.release_idempotent == (r.release_idempotent == 1)
    &&& match r.lease_secs {
        Some(n) => c.lease_duration == Some(n as u64),
        None => c.lease_duration is None,
    }
    &&& grade_text(c.revert_grade) == r.revert_grade@
    &&& match r.cleanup {
        Some(p) => policy_text(c.cleanup) == p@,
        None => c.cleanup == builtin_policy_of(r.class_id@),
    }
}

/// One row holds one class.
pub proof fn class_is_determined(r: ClassRow, a: Class, b: Class)
    requires
        holds_class(r, a),
        holds_class(r, b),
    ensures
        a == b,
{
    algebra_names_differ(a.algebra, b.algebra);
    grade_names_differ(a.revert_grade, b.revert_grade);
    if r.cleanup is Some {
        policy_names_differ(a.cleanup, b.cleanup);
    }
}

fn read_class(r: &ClassRow) -> (out: Result<ClassDecl, KernelError>)
    ensures
        match out {
            Ok(c) => class_fault(*r) is None && holds_class(*r, c@),
            Err(e) => class_fault(*r) == Some(e@),
        },
{
    if r.release_idempotent != 0 && r.release_idempotent != 1 {
        return Err(corrupt("invalid release declaration"));
    }
    let lease_duration: Option<u64> = match r.lease_secs {
        None => None,
        Some(n) => if n < 0 {
            return Err(corrupt("negative duration"));
        } else {
            Some(n as u64)
        },
    };
    let tag: AlgebraTag = match algebra(r.algebra.as_str()) {
        Ok(t) => t,
        Err(e) => {
            return Err(e);
        },
    };
    assert(is_algebra(r.algebra@)) by {
        assert(r.algebra@ == algebra_text(tag));
    }
    let revert_grade: RevertGrade = match grade(r.revert_grade.as_str()) {
        Ok(g) => g,
        Err(e) => {
            return Err(e);
        },
    };
    assert(is_grade(r.revert_grade@)) by {
        assert(r.revert_grade@ == grade_text(revert_grade));
    }
    let cleanup: CleanupPolicy = match &r.cleanup {
        None => builtin_policy(r.class_id.as_str()),
        Some(p) => match policy(p.as_str()) {
            Ok(c) => {
                assert(p@ == policy_text(c));
                c
            },
            Err(e) => {
                return Err(e);
            },
        },
    };
    Ok(
        ClassDecl {
            class_id: r.class_id.clone(),
            algebra: tag,
            release_idempotent: r.release_idempotent == 1,
            lease_duration,
            revert_grade,
            cleanup,
        },
    )
}

/// Whether a pool is the stored one.
pub open spec fn holds_pool(r: PoolRow, p: Capacity) -> bool {
    &&& p.class_id == r.class_id@
    &&& p.instance == r.instance@
    &&& r.parsed is Ok
    &&& frag_shape(r.parsed->Ok_0@) == Some(p.capacity)
}

/// The refusal of an identity or a time that is out of range.
pub open spec fn range_fault() -> Refusal {
    storage_fault("holding identity/time: out of range"@)
}

/// A number that cannot be negative, if it is there.
pub open spec fn in_range(n: Option<i64>) -> bool {
    n matches Some(v) ==> v >= 0
}

/// The lease that a row stores. A row without a kind is one of a ledger without a schema.
pub open spec fn stored_lease(r: HoldingRow, legacy: bool) -> Option<Lease> {
    match (r.lease_kind, r.lease_expires_at) {
        (Some(k), Some(t)) => if k@ == "until"@ {
            Some(Lease::Until(t as u64))
        } else {
            None
        },
        (Some(k), None) => if k@ == "parent"@ && r.parent is Some {
            Some(Lease::ParentBound)
        } else if k@ == "unbounded"@ {
            Some(Lease::Unbounded)
        } else {
            None
        },
        (None, Some(t)) => if legacy {
            Some(Lease::Until(t as u64))
        } else {
            None
        },
        (None, None) => if !legacy {
            None
        } else if r.parent is Some {
            Some(Lease::ParentBound)
        } else {
            Some(Lease::Unbounded)
        },
    }
}

/// Why a stored holding is refused.
pub open spec fn holding_fault(r: HoldingRow, legacy: bool) -> Option<Refusal> {
    if r.id < 0 || !in_range(r.parent) || !in_range(r.lease_expires_at) {
        Some(range_fault())
    } else if stored_lease(r, legacy) is None {
        Some(
            storage_fault(
                "holding "@ + decimal(r.id as nat) + ": invalid lease representation"@,
            ),
        )
    } else if frag_refusal(r.frag@, r.parsed) is Some {
        frag_refusal(r.frag@, r.parsed)
    } else if r.acquired_at < 0 || !in_range(r.released_at) {
        Some(range_fault())
    } else {
        None
    }
}

/// Whether a holding is the stored one.
pub open spec fn holds_holding(r: HoldingRow, legacy: bool, h: Held) -> bool {
    &&& h.id == r.id
    &&& h.subject == r.subject@
    &&& h.class_id == r.class_id@
    &&& h.instance == r.instance@
    &&& r.parsed is Ok
    &&& frag_shape(r.parsed->Ok_0@) == Some(h.frag)
    &&& h.generation == r.generation@
    &&& match r.parent {
        Some(p) => h.parent == Some(p as u64),
        None => h.parent is None,
    }
    &&& stored_lease(r, legacy) == Some(h.lease)
    &&& h.acquired_at == r.acquired_at
    &&& match r.released_at {
        Some(t) => h.state == HoldingState::Retired(t as u64),
        None => h.state == HoldingState::Active,
    }
    &&& h.target == Target::AccountingOnly
}

fn read_lease(r: &HoldingRow, legacy: bool) -> (out: Option<Lease>)
    requires
        in_range(r.lease_expires_at),
    ensures
        out == stored_lease(*r, legacy),
{
    let parent: bool = r.parent.is_some();
    match (&r.lease_kind, r.lease_expires_at) {
        (Some(k), Some(t)) => if same(k.as_str(), "until") {
            Some(Lease::Until(t as u64))
        } else {
            None
        },
        (Some(k), None) => if same(k.as_str(), "parent") && parent {
            Some(Lease::ParentBound)
        } else if same(k.as_str(), "unbounded") {
            Some(Lease::Unbounded)
        } else {
            None
        },
        (None, Some(t)) => if legacy {
            Some(Lease::Until(t as u64))
        } else {
            None
        },
        (None, None) => if !legacy {
            None
        } else if parent {
            Some(Lease::ParentBound)
        } else {
            Some(Lease::Unbounded)
        },
    }
}

fn negative(n: Option<i64>) -> (b: bool)
    ensures
        b == !in_range(n),
{
    match n {
        Some(v) => v < 0,
        None => false,
    }
}

fn read_holding(r: &HoldingRow, legacy: bool) -> (out: Result<HoldingRecord, KernelError>)
    ensures
        match out {
            Ok(h) => holding_fault(*r, legacy) is None && holds_holding(*r, legacy, h@),
            Err(e) => holding_fault(*r, legacy) == Some(e@),
        },
{
    if r.id < 0 || negative(r.parent) || negative(r.lease_expires_at) {
        return Err(corrupt("holding identity/time: out of range"));
    }
    let lease: Lease = match read_lease(r, legacy) {
        Some(l) => l,
        None => {
            let mut s: String = "holding ".to_owned();
            push_decimal(&mut s, r.id as u64);
            s.append(": invalid lease representation");
            return Err(corrupt(s.as_str()));
        },
    };
    let frag: Frag = match frag_from_json(r.frag.as_str(), &r.parsed) {
        Ok(f) => f,
        Err(e) => {
            return Err(e);
        },
    };
    if r.acquired_at < 0 || negative(r.released_at) {
        return Err(corrupt("holding identity/time: out of range"));
    }
    let parent: Option<u64> = match r.parent {
        Some(p) => Some(p as u64),
        None => None,
    };
    let state: HoldingState = match r.released_at {
        Some(t) => HoldingState::Retired(t as u64),
        None => HoldingState::Active,
    };
    Ok(
        HoldingRecord {
            id: r.id as u64,
            subject: r.subject.clone(),
            class_id: r.class_id.clone(),
            instance: r.instance.clone(),
            frag,
            generation: r.generation.clone(),
            parent,
            lease,
            acquired_at: r.acquired_at as u64,
            state,
            target: CleanupTarget::AccountingOnly,
        },
    )
}

/// The refusal of the first class that is refused.
pub open spec fn classes_fault(rows: Seq<ClassRow>) -> Option<Refusal>
    decreases rows.len(),
{
    if rows.len() == 0 {
        None
    } else if class_fault(rows[0]) is Some {
        class_fault(rows[0])
    } else {
        classes_fault(rows.drop_first())
    }
}

/// The refusal of the first pool that is refused.
pub open spec fn pools_fault(rows: Seq<PoolRow>) -> Option<Refusal>
    decreases rows.len(),
{
    if rows.len() == 0 {
        None
    } else if frag_refusal(rows[0].capacity@, rows[0].parsed) is Some {
        frag_refusal(rows[0].capacity@, rows[0].parsed)
    } else {
        pools_fault(rows.drop_first())
    }
}

/// The refusal of the first holding that is refused.
pub open spec fn holdings_fault(rows: Seq<HoldingRow>, legacy: bool) -> Option<Refusal>
    decreases rows.len(),
{
    if rows.len() == 0 {
        None
    } else if holding_fault(rows[0], legacy) is Some {
        holding_fault(rows[0], legacy)
    } else {
        holdings_fault(rows.drop_first(), legacy)
    }
}

/// The refusal of stored rows: classes come first, then pools, then holdings.
pub open spec fn decode_fault(
    classes: Seq<ClassRow>,
    pools: Seq<PoolRow>,
    holdings: Seq<HoldingRow>,
    legacy: bool,
) -> Option<Refusal> {
    if classes_fault(classes) is Some {
        classes_fault(classes)
    } else if pools_fault(pools) is Some {
        pools_fault(pools)
    } else {
        holdings_fault(holdings, legacy)
    }
}

/// The ledger that stored rows hold.
pub fn decode(
    classes: &Vec<ClassRow>,
    pools: &Vec<PoolRow>,
    links: Vec<(String, String)>,
    holdings: &Vec<HoldingRow>,
    legacy: bool,
) -> (r: Result<Snapshot, KernelError>)
    ensures
        match r {
            Ok(s) => {
                &&& decode_fault(classes@, pools@, holdings@, legacy) is None
                &&& s.classes@.len() == classes@.len()
                &&& forall|i: int|
                    0 <= i < classes@.len() ==> holds_class(classes@[i], (#[trigger] s.classes@[i])@)
                &&& s.pools@.len() == pools@.len()
                &&& forall|i: int|
                    0 <= i < pools@.len() ==> holds_pool(pools@[i], (#[trigger] s.pools@[i])@)
                &&& s.instantiations == links
                &&& s.holdings@.len() == holdings@.len()
                &&& forall|i: int|
                    0 <= i < holdings@.len() ==> holds_holding(
                        holdings@[i],
                        legacy,
                        (#[trigger] s.holdings@[i])@,
                    )
                &&& s.cleanups@.len() == 0
            },
            Err(e) => decode_fault(classes@, pools@, holdings@, legacy) == Some(e@),
        },
{
    let mut cs: Vec<ClassDecl> = Vec::new();
    let mut i: usize = 0;
    assert(classes@.skip(0) =~= classes@);
    while i < classes.len()
        invariant
            i <= classes@.len(),
            cs@.len() == i,
            classes_fault(classes@) == classes_fault(classes@.skip(i as int)),
            forall|k: int| 0 <= k < i ==> holds_class(classes@[k], (#[trigger] cs@[k])@),
        decreases classes.len() - i,
    {
        assert(classes@.skip(i as int).drop_first() =~= classes@.skip(i + 1));
        match read_class(&classes[i]) {
            Ok(c) => {
                cs.push(c);
            },
            Err(e) => {
                return Err(e);
            },
        }
        i = i + 1;
    }
    let mut ps: Vec<PoolRecord> = Vec::new();
    i = 0;
    assert(pools@.skip(0) =~= pools@);
    while i < pools.len()
        invariant
            i <= pools@.len(),
            ps@.len() == i,
            classes_fault(classes@) is None,
            pools_fault(pools@) == pools_fault(pools@.skip(i as int)),
            forall|k: int| 0 <= k < i ==> holds_pool(pools@[k], (#[trigger] ps@[k])@),
        decreases pools.len() - i,
    {
        assert(pools@.skip(i as int).drop_first() =~= pools@.skip(i + 1));
        match frag_from_json(pools[i].capacity.as_str(), &pools[i].parsed) {
            Ok(capacity) => {
                ps.push(
                    PoolRecord {
                        class_id: pools[i].class_id.clone(),
                        instance: pools[i].instance.clone(),
                        capacity,
                    },
                );
            },
            Err(e) => {
                return Err(e);
            },
        }
        i = i + 1;
    }
    let mut hs: Vec<HoldingRecord> = Vec::new();
    i = 0;
    assert(holdings@.skip(0) =~= holdings@);
    while i < holdings.len()
        invariant
            i <= holdings@.len(),
            hs@.len() == i,
            classes_fault(classes@) is None,
            pools_fault(pools@) is None,
            holdings_fault(holdings@, legacy) == holdings_fault(holdings@.skip(i as int), legacy),
            forall|k: int|
                0 <= k < i ==> holds_holding(holdings@[k], legacy, (#[trigger] hs@[k])@),
        decreases holdings.len() - i,
    {
        assert(holdings@.skip(i as int).drop_first() =~= holdings@.skip(i + 1));
        match read_holding(&holdings[i], legacy) {
            Ok(h) => {
                hs.push(h);
            },
            Err(e) => {
                return Err(e);
            },
        }
        i = i + 1;
    }
    Ok(
        Snapshot {
            classes: cs,
            pools: ps,
            instantiations: links,
            holdings: hs,
            cleanups: Vec::new(),
        },
    )
}

/// The row of a class. What is read back of it is the class.
pub fn class_row(c: &ClassDecl) -> (r: ClassRow)
    requires
        c.lease_duration matches Some(n) ==> n <= i64::MAX,
    ensures
        class_fault(r) is None,
        holds_class(r, c@),
{
    let lease_secs: Option<i64> = match c.lease_duration {
        Some(n) => Some(n as i64),
        None => None,
    };
    let r = ClassRow {
        class_id: c.class_id.clone(),
        algebra: algebra_name(c.algebra).to_owned(),
        release_idempotent: if c.release_idempotent {
            1
        } else {
            0
        },
        lease_secs,
        revert_grade: grade_name(c.revert_grade).to_owned(),
        cleanup: Some(policy_name(c.cleanup).to_owned()),
    };
    assert(r.algebra@ == algebra_text(c.algebra));
    assert(r.revert_grade@ == grade_text(c.revert_grade));
    assert(r.cleanup->0@ == policy_text(c.cleanup));
    r
}

/// The row of a pool. What is read back of it is the pool.
pub fn pool_row(p: &PoolRecord, text: String) -> (r: PoolRow)
    requires
        storable(p@.capacity),
        canonical(p@.capacity),
    ensures
        r.capacity@ == text@,
        frag_refusal(r.capacity@, r.parsed) is None,
        holds_pool(r, p@),
{
    let j: Json = frag_to_json(&p.capacity);
    proof {
        fragment_round_trip(j@, p@.capacity);
    }
    PoolRow {
        class_id: p.class_id.clone(),
        instance: p.instance.clone(),
        capacity: text,
        parsed: Ok(j),
    }
}

/// Whether a holding fits into a row: its numbers are in range, and a lease that is bound to a
/// parent has one.
pub open spec fn fits_row(h: Held) -> bool {
    &&& h.id <= i64::MAX
    &&& h.parent matches Some(p) ==> p <= i64::MAX
    &&& h.lease matches Lease::Until(t) ==> t <= i64::MAX
    &&& h.lease is ParentBound ==> h.parent is Some
    &&& h.acquired_at <= i64::MAX
    &&& h.state matches HoldingState::Retired(t) ==> t <= i64::MAX
    &&& storable(h.frag)
    &&& canonical(h.frag)
}

/// The row of a holding. What is read back of it is the holding, up to its target and to whether
/// it is being retired, which have columns of their own.
pub fn holding_row(h: &HoldingRecord, text: String) -> (r: HoldingRow)
    requires
        fits_row(h@),
    ensures
        r.frag@ == text@,
        holding_fault(r, false) is None,
        holds_holding(
            r,
            false,
            Held {
                target: Target::AccountingOnly,
                state: if h.state is Retiring {
                    HoldingState::Active
                } else {
                    h.state
                },
                ..h@
            },
        ),
{
    let j: Json = frag_to_json(&h.frag);
    proof {
        fragment_round_trip(j@, h@.frag);
        reveal_strlit("until");
        reveal_strlit("parent");
        reveal_strlit("unbounded");
        assert("until"@.len() == 5);
        assert("parent"@.len() == 6);
        assert("unbounded"@.len() == 9);
    }
    let kind: &str = match h.lease {
        Lease::Until(_) => "until",
        Lease::ParentBound => "parent",
        Lease::Unbounded => "unbounded",
    };
    let lease_expires_at: Option<i64> = match h.lease {
        Lease::Until(t) => Some(t as i64),
        _ => None,
    };
    let parent: Option<i64> = match h.parent {
        Some(p) => Some(p as i64),
        None => None,
    };
    let released_at: Option<i64> = match h.state {
        HoldingState::Retired(t) => Some(t as i64),
        _ => None,
    };
    HoldingRow {
        id: h.id as i64,
        subject: h.subject.clone(),
        class_id: h.class_id.clone(),
        instance: h.instance.clone(),
        frag: text,
        parsed: Ok(j),
        generation: h.generation.clone(),
        parent,
        lease_expires_at,
        acquired_at: h.acquired_at as i64,
        released_at,
        lease_kind: Some(kind.to_owned()),
    }
}

} // verus!

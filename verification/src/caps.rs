//! The table of capabilities.
//!
//! A capability is live as long as its holding is: whether it was revoked, expired or died with
//! its holder, a capability without a live holding is dead. A count is the declared capacity of
//! a pool and never changes; every exercise of a counted verb leaves a spend row, and the
//! balance is the capacity without the rows.

use crate::cap::{narrows, text_view, Capability, Constraints, Grant};
use crate::error::{joined_text, KernelError, Refusal};
use crate::handle::{fresh_name, random_name};
use crate::strmap::{increasing, listed, listed_at, StrSet};
use crate::text::same;
use vstd::prelude::*;

verus! {

/// What the rows of the table say.
pub open spec fn grants(rows: Seq<Capability>) -> Seq<Grant> {
    Seq::new(rows.len(), |i: int| rows[i]@)
}

/// What the spend rows say: the capability and the verb.
pub open spec fn spendings(rows: Seq<(String, String)>) -> Seq<(Seq<char>, Seq<char>)> {
    Seq::new(rows.len(), |i: int| (rows[i].0@, rows[i].1@))
}

/// The first grant of an identity.
pub open spec fn find_grant(t: Seq<Grant>, id: Seq<char>) -> Option<Grant>
    decreases t.len(),
{
    if t.len() == 0 {
        None
    } else if t[0].cap_id == id {
        Some(t[0])
    } else {
        find_grant(t.drop_first(), id)
    }
}

/// How many spend rows there are of a verb of a capability.
pub open spec fn spend_count(s: Seq<(Seq<char>, Seq<char>)>, id: Seq<char>, verb: Seq<char>) -> nat
    decreases s.len(),
{
    if s.len() == 0 {
        0
    } else {
        spend_count(s.drop_last(), id, verb) + if s.last() == (id, verb) {
            1nat
        } else {
            0nat
        }
    }
}

/// Whether no two grants have the same identity.
pub open spec fn distinct(t: Seq<Grant>) -> bool {
    forall|i: int, j: int|
        0 <= i < j < t.len() ==> (#[trigger] t[i]).cap_id != (#[trigger] t[j]).cap_id
}

/// Whether no pool is overdrawn.
pub open spec fn within_counts(t: Seq<Grant>, s: Seq<(Seq<char>, Seq<char>)>) -> bool {
    forall|i: int, v: Seq<char>|
        0 <= i < t.len() && #[trigger] t[i].counts.contains_key(v) ==> spend_count(
            s,
            t[i].cap_id,
            v,
        ) <= t[i].counts[v]
}

/// The table, the live holdings and the spend rows.
#[derive(Debug)]
pub struct CapStore {
    rows: Vec<Capability>,
    live: StrSet,
    spends: Vec<(String, String)>,
}

/// A grant that is found is in the table.
proof fn found_is_in(t: Seq<Grant>, id: Seq<char>)
    ensures
        match find_grant(t, id) {
            Some(g) => g.cap_id == id && exists|i: int| 0 <= i < t.len() && #[trigger] t[i] == g,
            None => forall|i: int| 0 <= i < t.len() ==> (#[trigger] t[i]).cap_id != id,
        },
    decreases t.len(),
{
    if t.len() > 0 {
        found_is_in(t.drop_first(), id);
        if t[0].cap_id == id {
            assert(t[0] == t[0]);
        } else {
            match find_grant(t.drop_first(), id) {
                Some(g) => {
                    let i = choose|i: int|
                        0 <= i < t.drop_first().len() && #[trigger] t.drop_first()[i] == g;
                    assert(t[i + 1] == g);
                },
                None => {
                    assert forall|i: int| 0 <= i < t.len() implies (#[trigger] t[i]).cap_id
                        != id by {
                        if i > 0 {
                            assert(t[i] == t.drop_first()[i - 1]);
                        }
                    }
                },
            }
        }
    }
}

/// In a table of distinct identities each grant is found under its own.
pub proof fn each_is_found(t: Seq<Grant>, i: int)
    requires
        distinct(t),
        0 <= i < t.len(),
    ensures
        find_grant(t, t[i].cap_id) == Some(t[i]),
{
    found_is_in(t, t[i].cap_id);
    match find_grant(t, t[i].cap_id) {
        Some(g) => {
            let j = choose|j: int| 0 <= j < t.len() && #[trigger] t[j] == g;
            if j < i {
                assert(t[j].cap_id != t[i].cap_id);
            } else if i < j {
                assert(t[i].cap_id != t[j].cap_id);
            }
        },
        None => {
            assert(t[i].cap_id != t[i].cap_id);
        },
    }
}

/// One more spend row.
proof fn spend_push(
    s: Seq<(Seq<char>, Seq<char>)>,
    x: (Seq<char>, Seq<char>),
    id: Seq<char>,
    verb: Seq<char>,
)
    ensures
        spend_count(s.push(x), id, verb) == spend_count(s, id, verb) + if x == (id, verb) {
            1nat
        } else {
            0nat
        },
{
    assert(s.push(x).drop_last() =~= s);
}

impl CapStore {
    /// The grants of the table, in order.
    pub closed spec fn table(&self) -> Seq<Grant> {
        grants(self.rows@)
    }

    /// The identities of the capabilities whose holding is live.
    pub closed spec fn alive(&self) -> Set<Seq<char>> {
        self.live@
    }

    /// The spend rows, in order.
    pub closed spec fn spent_rows(&self) -> Seq<(Seq<char>, Seq<char>)> {
        spendings(self.spends@)
    }

    /// How much of a verb of a capability has been spent.
    pub open spec fn spent(&self, id: Seq<char>, verb: Seq<char>) -> nat {
        spend_count(self.spent_rows(), id, verb)
    }

    /// No identity is given twice, and no pool is overdrawn.
    pub open spec fn solvent(&self) -> bool {
        distinct(self.table()) && within_counts(self.table(), self.spent_rows())
    }

    #[verifier::type_invariant]
    spec fn sound(&self) -> bool {
        self.solvent()
    }

    /// The empty table.
    pub fn new() -> (s: CapStore)
        ensures
            s.table().len() == 0,
            s.alive() == Set::<Seq<char>>::empty(),
            s.spent_rows().len() == 0,
            s.solvent(),
    {
        CapStore { rows: Vec::new(), live: StrSet::new(), spends: Vec::new() }
    }

    /// Where the grant of an identity stands.
    fn position(&self, id: &str) -> (r: Option<usize>)
        ensures
            match r {
                Some(i) => {
                    &&& i < self.table().len()
                    &&& self.table()[i as int].cap_id == id@
                    &&& find_grant(self.table(), id@) == Some(self.table()[i as int])
                },
                None => find_grant(self.table(), id@) is None,
            },
    {
        let mut i: usize = 0;
        proof {
            use_type_invariant(self);
            found_is_in(self.table(), id@);
        }
        while i < self.rows.len()
            invariant
                i <= self.rows@.len(),
                self.table() == grants(self.rows@),
                distinct(self.table()),
                forall|j: int| 0 <= j < i ==> (#[trigger] self.table()[j]).cap_id != id@,
            decreases self.rows.len() - i,
        {
            if same(self.rows[i].cap_id.as_str(), id) {
                proof {
                    each_is_found(self.table(), i as int);
                }
                return Some(i);
            }
            i = i + 1;
        }
        None
    }

    /// The grant of an identity.
    pub fn get(&self, cap_id: &str) -> (r: Result<Capability, KernelError>)
        ensures
            match r {
                Ok(c) => find_grant(self.table(), cap_id@) == Some(c@),
                Err(e) => find_grant(self.table(), cap_id@) is None && e@ == Refusal::NotFound(
                    cap_id@,
                ),
            },
    {
        match self.position(cap_id) {
            Some(i) => Ok(self.rows[i].clone()),
            None => Err(KernelError::NotFound(cap_id.to_owned())),
        }
    }

    /// How much of a verb of a capability has been spent.
    fn spent_so_far(&self, id: &str, verb: &str) -> (n: usize)
        ensures
            n == self.spent(id@, verb@),
    {
        count_spends(&self.spends, id, verb)
    }

    /// The balance of a counted verb: the capacity without what was spent. Nothing where the
    /// verb is not counted.
    pub fn counts_left(&self, cap: &Capability, verb: &str) -> (r: Option<u64>)
        ensures
            match r {
                Some(n) => {
                    &&& cap@.counts.contains_key(verb@)
                    &&& n == if self.spent(cap@.cap_id, verb@) <= cap@.counts[verb@] {
                        cap@.counts[verb@] - self.spent(cap@.cap_id, verb@)
                    } else {
                        0
                    }
                },
                None => !cap@.counts.contains_key(verb@),
            },
    {
        match cap.constraints.counts.get(verb) {
            None => None,
            Some(n) => {
                let gone: usize = self.spent_so_far(cap.cap_id.as_str(), verb);
                Some(n.saturating_sub(gone as u64))
            },
        }
    }

    /// Adds a grant with a live holding, where the identity is free and nothing was spent under
    /// it.
    fn store_minted(&mut self, cap: Capability) -> (r: Result<(), KernelError>)
        ensures
            match r {
                Ok(_) => {
                    &&& find_grant(old(self).table(), cap@.cap_id) is None
                    &&& final(self).table() == old(self).table().push(cap@)
                    &&& final(self).alive() == old(self).alive().insert(cap@.cap_id)
                    &&& forall|v: Seq<char>| #[trigger] final(self).spent(cap@.cap_id, v) == 0
                    &&& forall|id: Seq<char>, v: Seq<char>|
                        id != cap@.cap_id ==> #[trigger] final(self).spent(id, v) == old(
                            self).spent(id, v)
                },
                Err(e) => {
                    &&& find_grant(old(self).table(), cap@.cap_id) is Some
                    &&& e@ == Refusal::Denied("capability exists: "@ + cap@.cap_id)
                    &&& *final(self) == *old(self)
                },
            },
    {
        if self.position(cap.cap_id.as_str()).is_some() {
            return Err(
                KernelError::Denied(joined_text("capability exists: ", cap.cap_id.as_str())),
            );
        }
        proof {
            use_type_invariant(&*self);
            found_is_in(self.table(), cap@.cap_id);
        }
        let id: String = cap.cap_id.clone();
        self.forget_spends(id.as_str());
        let ghost mid = *self;
        let ghost t0 = self.table();
        let ghost g = cap@;
        proof {
            use_type_invariant(&*self);
            assert forall|v: Seq<char>| #[trigger]
                spend_count(self.spent_rows(), g.cap_id, v) == 0 by {
                assert(self.spent(g.cap_id, v) == 0);
            }
        }
        let mut rows: Vec<Capability> = Vec::new();
        let ghost s0 = self.spent_rows();
        std::mem::swap(&mut rows, &mut self.rows);
        assert(grants(rows@) == t0);
        rows.push(cap);
        proof {
            assert(grants(rows@) =~= t0.push(g));
            assert forall|i: int, v: Seq<char>|
                0 <= i < t0.push(g).len() && #[trigger] t0.push(g)[i].counts.contains_key(
                    v,
                ) implies spend_count(s0, t0.push(g)[i].cap_id, v) <= t0.push(g)[i].counts[v] by {
                if i < t0.len() {
                    assert(t0[i].counts.contains_key(v));
                }
            }
        }
        self.rows = rows;
        let mut live = StrSet::new();
        std::mem::swap(&mut live, &mut self.live);
        live.insert(id);
        self.live = live;
        proof {
            assert(self.spent_rows() == mid.spent_rows());
            assert forall|v: Seq<char>| #[trigger] self.spent(g.cap_id, v) == 0 by {
                assert(mid.spent(g.cap_id, v) == 0);
            }
            assert forall|o: Seq<char>, v: Seq<char>| o != g.cap_id implies #[trigger] self.spent(
                o,
                v,
            ) == old(self).spent(o, v) by {
                assert(mid.spent(o, v) == old(self).spent(o, v));
            }
        }
        Ok(())
    }

    /// Drops the spend rows of a capability.
    fn forget_spends(&mut self, id: &str)
        ensures
            final(self).table() == old(self).table(),
            final(self).alive() == old(self).alive(),
            forall|v: Seq<char>| #[trigger] final(self).spent(id@, v) == 0,
            forall|o: Seq<char>, v: Seq<char>|
                o != id@ ==> #[trigger] final(self).spent(o, v) == old(self).spent(o, v),
    {
        proof {
            use_type_invariant(&*self);
        }
        let ghost s0 = self.spent_rows();
        let ghost t0 = self.table();
        let mut kept: Vec<(String, String)> = Vec::new();
        let mut i: usize = 0;
        assert(s0.take(0) =~= Seq::<(Seq<char>, Seq<char>)>::empty());
        assert(spendings(kept@) =~= Seq::<(Seq<char>, Seq<char>)>::empty());
        while i < self.spends.len()
            invariant
                i <= self.spends@.len(),
                s0 == self.spent_rows(),
                s0 == spendings(self.spends@),
                self.table() == t0,
                *self == *old(self),
                forall|v: Seq<char>| #[trigger] spend_count(spendings(kept@), id@, v) == 0,
                forall|o: Seq<char>, v: Seq<char>|
                    o != id@ ==> #[trigger] spend_count(spendings(kept@), o, v) == spend_count(
                        s0.take(i as int),
                        o,
                        v,
                    ),
            decreases self.spends.len() - i,
        {
            let ghost k0 = spendings(kept@);
            proof {
                let p = s0.take(i + 1);
                assert(p.drop_last() =~= s0.take(i as int));
                assert(p.last() == s0[i as int]);
            }
            if !same(self.spends[i].0.as_str(), id) {
                kept.push((self.spends[i].0.clone(), self.spends[i].1.clone()));
                assert(spendings(kept@) =~= k0.push(s0[i as int]));
            }
            proof {
                let s2 = spendings(kept@);
                assert forall|v: Seq<char>| #[trigger] spend_count(s2, id@, v) == 0 by {
                    assert(spend_count(k0, id@, v) == 0);
                    spend_push(k0, s0[i as int], id@, v);
                }
                assert forall|o: Seq<char>, v: Seq<char>| o != id@ implies #[trigger] spend_count(
                    s2,
                    o,
                    v,
                ) == spend_count(s0.take(i + 1), o, v) by {
                    assert(spend_count(k0, o, v) == spend_count(s0.take(i as int), o, v));
                    spend_push(k0, s0[i as int], o, v);
                }
            }
            i = i + 1;
        }
        proof {
            assert(s0.take(i as int) =~= s0);
            let s1 = spendings(kept@);
            assert forall|j: int, v: Seq<char>|
                0 <= j < t0.len() && #[trigger] t0[j].counts.contains_key(v) implies spend_count(
                s1,
                t0[j].cap_id,
                v,
            ) <= t0[j].counts[v] by {
                if t0[j].cap_id == id@ {
                    assert(spend_count(s1, id@, v) == 0);
                } else {
                    assert(spend_count(s1, t0[j].cap_id, v) == spend_count(s0, t0[j].cap_id, v));
                }
            }
        }
        self.spends = kept;
    }
}

/// Why the issuer refuses an exercise.
#[derive(Debug, Clone, Copy, PartialEq, Eq, Structural)]
pub enum GateError {
    Unknown,
    Revoked,
    Expired,
    NotGranted,
    Exhausted,
}

/// What the issuer decides on an exercise: whether it leaves a spend row, or why it is refused.
pub open spec fn gate_verdict(s: &CapStore, id: Seq<char>, verb: Seq<char>, now: u64) -> Result<
    bool,
    GateError,
> {
    match find_grant(s.table(), id) {
        None => Err(GateError::Unknown),
        Some(g) => if !s.alive().contains(id) {
            Err(GateError::Revoked)
        } else if g.expires_at matches Some(e) && now > e {
            Err(GateError::Expired)
        } else if !g.verbs.contains(verb) {
            Err(GateError::NotGranted)
        } else if g.counts.contains_key(verb) {
            if s.spent(id, verb) >= g.counts[verb] {
                Err(GateError::Exhausted)
            } else {
                Ok(true)
            }
        } else {
            Ok(false)
        },
    }
}

/// The refusal of an exercise as it is reported.
pub open spec fn gate_refusal(e: GateError, id: Seq<char>, verb: Seq<char>) -> Refusal {
    match e {
        GateError::Unknown => Refusal::NotFound(id),
        GateError::Revoked => Refusal::Denied("cap revoked"@),
        GateError::Expired => Refusal::Denied("cap expired"@),
        GateError::NotGranted => Refusal::Denied("verb not granted: "@ + verb),
        GateError::Exhausted => Refusal::Denied("budget exhausted: "@ + verb),
    }
}

impl GateError {
    /// The refusal of an exercise as it is reported.
    pub fn denied(&self, cap_id: &str, verb: &str) -> (e: KernelError)
        ensures
            e@ == gate_refusal(*self, cap_id@, verb@),
    {
        match self {
            GateError::Unknown => KernelError::NotFound(cap_id.to_owned()),
            GateError::Revoked => KernelError::Denied("cap revoked".to_owned()),
            GateError::Expired => KernelError::Denied("cap expired".to_owned()),
            GateError::NotGranted => KernelError::Denied(joined_text("verb not granted: ", verb)),
            GateError::Exhausted => KernelError::Denied(joined_text("budget exhausted: ", verb)),
        }
    }
}

/// Whether a grant is one that a subject could use a verb of a resource with.
pub open spec fn candidate(
    g: Grant,
    alive: Set<Seq<char>>,
    subject: Seq<char>,
    resource: Seq<char>,
    verb: Seq<char>,
) -> bool {
    &&& !g.revoked
    &&& g.subject == subject
    &&& g.resource == resource
    &&& g.verbs.contains(verb)
    &&& alive.contains(g.cap_id)
}

/// The search among the candidates: the first that the issuer lets pass, or the refusal of the
/// last, if there was any.
pub open spec fn search_verdict(
    s: &CapStore,
    rest: Seq<Grant>,
    last: Option<(Seq<char>, GateError)>,
    subject: Seq<char>,
    resource: Seq<char>,
    verb: Seq<char>,
    now: u64,
) -> Result<Seq<char>, Option<(Seq<char>, GateError)>>
    decreases rest.len(),
{
    if rest.len() == 0 {
        Err(last)
    } else if candidate(rest[0], s.alive(), subject, resource, verb) {
        match gate_verdict(s, rest[0].cap_id, verb, now) {
            Ok(_) => Ok(rest[0].cap_id),
            Err(e) => search_verdict(
                s,
                rest.drop_first(),
                Some((rest[0].cap_id, e)),
                subject,
                resource,
                verb,
                now,
            ),
        }
    } else {
        search_verdict(s, rest.drop_first(), last, subject, resource, verb, now)
    }
}

/// Whether one state of the table is another one after an exercise.
pub open spec fn exercised(
    a: &CapStore,
    b: &CapStore,
    id: Seq<char>,
    verb: Seq<char>,
    now: u64,
) -> bool {
    &&& b.table() == a.table()
    &&& b.alive() == a.alive()
    &&& gate_verdict(a, id, verb, now) is Ok
    &&& b.spent_rows() == if gate_verdict(a, id, verb, now)->Ok_0 {
        a.spent_rows().push((id, verb))
    } else {
        a.spent_rows()
    }
    &&& b.solvent()
}

/// The grants of a subject that are live: not revoked, with a live holding, and not past their
/// end.
pub open spec fn is_live_for(g: Grant, alive: Set<Seq<char>>, subject: Seq<char>, now: u64) -> bool {
    &&& !g.revoked
    &&& g.subject == subject
    &&& (g.expires_at matches Some(e) ==> now <= e)
    &&& alive.contains(g.cap_id)
}

impl CapStore {
    /// What the issuer decides on an exercise.
    fn judge(&self, cap_id: &str, verb: &str, now: u64) -> (r: Result<bool, GateError>)
        ensures
            r == gate_verdict(self, cap_id@, verb@, now),
    {
        let i: usize = match self.position(cap_id) {
            None => {
                return Err(GateError::Unknown);
            },
            Some(i) => i,
        };
        if !self.live.contains(cap_id) {
            return Err(GateError::Revoked);
        }
        let cap: &Capability = &self.rows[i];
        match cap.constraints.expires_at {
            Some(e) => {
                if now > e {
                    return Err(GateError::Expired);
                }
            },
            None => {},
        }
        if !cap.verbs.contains(verb) {
            return Err(GateError::NotGranted);
        }
        match cap.constraints.counts.get(verb) {
            None => Ok(false),
            Some(n) => {
                let gone: usize = self.spent_so_far(cap_id, verb);
                if gone as u64 >= *n {
                    Err(GateError::Exhausted)
                } else {
                    Ok(true)
                }
            },
        }
    }

    /// Exercises a capability, telling why if it is refused.
    pub fn pass_gate(&mut self, cap_id: &str, verb: &str, now: u64) -> (r: Result<(), GateError>)
        ensures
            match r {
                Ok(_) => exercised(old(self), final(self), cap_id@, verb@, now),
                Err(e) => {
                    &&& gate_verdict(old(self), cap_id@, verb@, now) == Err::<bool, GateError>(e)
                    &&& *final(self) == *old(self)
                },
            },
    {
        let counted: bool = match self.judge(cap_id, verb, now) {
            Err(e) => {
                return Err(e);
            },
            Ok(b) => b,
        };
        proof {
            use_type_invariant(&*self);
        }
        if counted {
            let ghost s0 = self.spent_rows();
            let ghost t0 = self.table();
            let mut spends: Vec<(String, String)> = Vec::new();
            std::mem::swap(&mut spends, &mut self.spends);
            assert(spendings(spends@) == s0);
            spends.push((cap_id.to_owned(), verb.to_owned()));
            proof {
                let x = (cap_id@, verb@);
                assert(spendings(spends@) =~= s0.push(x));
                found_is_in(t0, cap_id@);
                assert forall|i: int, v: Seq<char>|
                    0 <= i < t0.len() && #[trigger] t0[i].counts.contains_key(
                        v,
                    ) implies spend_count(s0.push(x), t0[i].cap_id, v) <= t0[i].counts[v] by {
                    spend_push(s0, x, t0[i].cap_id, v);
                    if t0[i].cap_id == cap_id@ {
                        each_is_found(t0, i);
                    }
                }
            }
            self.spends = spends;
        }
        Ok(())
    }

    /// Exercises a verb of a capability.
    pub fn exercise(&mut self, cap_id: &str, verb: &str, now: u64) -> (r: Result<(), KernelError>)
        ensures
            match r {
                Ok(_) => exercised(old(self), final(self), cap_id@, verb@, now),
                Err(e) => {
                    &&& gate_verdict(old(self), cap_id@, verb@, now) is Err
                    &&& e@ == gate_refusal(
                        gate_verdict(old(self), cap_id@, verb@, now)->Err_0,
                        cap_id@,
                        verb@,
                    )
                    &&& *final(self) == *old(self)
                },
            },
    {
        match self.pass_gate(cap_id, verb, now) {
            Ok(_) => Ok(()),
            Err(e) => Err(e.denied(cap_id, verb)),
        }
    }

    /// Finds a live capability that lets a subject use a verb of a resource, and exercises it.
    /// Of several the first that passes the issuer counts, so that a spent budget falls through to
    /// a fresh grant. Where none passes, the refusal of the last is told, if there was one.
    pub fn search_and_pass(
        &mut self,
        subject: &str,
        resource: &str,
        verb: &str,
        now: u64,
    ) -> (r: Result<String, Option<(String, GateError)>>)
        ensures
            match r {
                Ok(id) => {
                    &&& search_verdict(
                        old(self),
                        old(self).table(),
                        None,
                        subject@,
                        resource@,
                        verb@,
                        now,
                    ) == Ok::<Seq<char>, Option<(Seq<char>, GateError)>>(id@)
                    &&& exercised(old(self), final(self), id@, verb@, now)
                },
                Err(last) => {
                    &&& search_verdict(
                        old(self),
                        old(self).table(),
                        None,
                        subject@,
                        resource@,
                        verb@,
                        now,
                    ) == Err::<Seq<char>, Option<(Seq<char>, GateError)>>(last_view(last))
                    &&& *final(self) == *old(self)
                },
            },
    {
        let mut last: Option<(String, GateError)> = None;
        let mut i: usize = 0;
        let ghost t = self.table();
        assert(t.skip(0) =~= t);
        while i < self.rows.len()
            invariant
                i <= self.rows@.len(),
                *self == *old(self),
                t == self.table(),
                t == grants(self.rows@),
                search_verdict(self, t, None, subject@, resource@, verb@, now) == search_verdict(
                    self,
                    t.skip(i as int),
                    last_view(last),
                    subject@,
                    resource@,
                    verb@,
                    now,
                ),
            decreases self.rows.len() - i,
        {
            let ghost rest = t.skip(i as int);
            assert(rest[0] == self.rows@[i as int]@);
            assert(rest.drop_first() =~= t.skip(i + 1));
            let fits: bool = {
                let c: &Capability = &self.rows[i];
                !c.revoked && same(c.subject.as_str(), subject) && same(
                    c.resource.as_str(),
                    resource,
                ) && c.verbs.contains(verb) && self.live.contains(c.cap_id.as_str())
            };
            if fits {
                let id: String = self.rows[i].cap_id.clone();
                match self.pass_gate(id.as_str(), verb, now) {
                    Ok(_) => {
                        return Ok(id);
                    },
                    Err(e) => {
                        last = Some((id, e));
                    },
                }
            }
            i = i + 1;
        }
        assert(t.skip(i as int).len() == 0);
        Err(last)
    }

    /// Finds a live capability that lets a subject use a verb of a resource, and exercises it.
    /// Returns its identity.
    pub fn find_and_exercise(
        &mut self,
        subject: &str,
        resource: &str,
        verb: &str,
        now: u64,
    ) -> (r: Result<String, KernelError>)
        ensures
            ({
                let found = search_verdict(
                    old(self),
                    old(self).table(),
                    None,
                    subject@,
                    resource@,
                    verb@,
                    now,
                );
                match r {
                    Ok(id) => {
                        &&& found == Ok::<Seq<char>, Option<(Seq<char>, GateError)>>(id@)
                        &&& exercised(old(self), final(self), id@, verb@, now)
                    },
                    Err(e) => {
                        &&& *final(self) == *old(self)
                        &&& match found {
                            Ok(_) => false,
                            Err(None) => e@ == Refusal::Denied(
                                "no capability: "@ + subject@ + " → "@ + resource@ + " verb "@
                                    + verb@,
                            ),
                            Err(Some(last)) => e@ == gate_refusal(last.1, last.0, verb@),
                        }
                    },
                }
            }),
    {
        match self.search_and_pass(subject, resource, verb, now) {
            Ok(id) => Ok(id),
            Err(None) => {
                let mut t: String = joined_text("no capability: ", subject);
                t.append(" → ");
                t.append(resource);
                t.append(" verb ");
                t.append(verb);
                Err(KernelError::Denied(t))
            },
            Err(Some((id, e))) => Err(e.denied(id.as_str(), verb)),
        }
    }

    /// The same search, with the refusals that a running plan tells apart: a budget that is
    /// spent, and the want of a capability.
    pub fn authorize(
        &mut self,
        subject: &str,
        resource: &str,
        verb: &str,
        now: u64,
    ) -> (r: Result<String, KernelError>)
        ensures
            ({
                let found = search_verdict(
                    old(self),
                    old(self).table(),
                    None,
                    subject@,
                    resource@,
                    verb@,
                    now,
                );
                match r {
                    Ok(id) => {
                        &&& found == Ok::<Seq<char>, Option<(Seq<char>, GateError)>>(id@)
                        &&& exercised(old(self), final(self), id@, verb@, now)
                    },
                    Err(e) => {
                        &&& *final(self) == *old(self)
                        &&& match found {
                            Ok(_) => false,
                            Err(None) => e@ == Refusal::NoCapability {
                                subject: subject@,
                                resource: resource@,
                                verb: verb@,
                            },
                            Err(Some(last)) => e@ == if last.1 == GateError::Exhausted {
                                Refusal::BudgetExhausted(verb@)
                            } else {
                                gate_refusal(last.1, last.0, verb@)
                            },
                        }
                    },
                }
            }),
    {
        match self.search_and_pass(subject, resource, verb, now) {
            Ok(id) => Ok(id),
            Err(None) => Err(
                KernelError::NoCapability {
                    subject: subject.to_owned(),
                    resource: resource.to_owned(),
                    verb: verb.to_owned(),
                },
            ),
            Err(Some((id, e))) => match e {
                GateError::Exhausted => Err(KernelError::BudgetExhausted(verb.to_owned())),
                _ => Err(e.denied(id.as_str(), verb)),
            },
        }
    }

    /// Mints a capability under an identity that is free.
    pub fn mint_as(
        &mut self,
        cap_id: &str,
        subject: &str,
        resource: &str,
        verbs: StrSet,
        constraints: Constraints,
        parent: Option<String>,
    ) -> (r: Result<Capability, KernelError>)
        ensures
            minted(
                old(self),
                final(self),
                r,
                Grant {
                    cap_id: cap_id@,
                    subject: subject@,
                    resource: resource@,
                    verbs: verbs@,
                    expires_at: constraints.expires_at,
                    counts: constraints.counts@,
                    parent: text_view(parent),
                    revoked: false,
                },
            ),
    {
        let cap = Capability {
            cap_id: cap_id.to_owned(),
            subject: subject.to_owned(),
            resource: resource.to_owned(),
            verbs,
            constraints,
            parent,
            revoked: false,
        };
        let twin: Capability = cap.clone();
        match self.store_minted(cap) {
            Err(e) => Err(e),
            Ok(_) => {
                proof {
                    use_type_invariant(&*self);
                }
                Ok(twin)
            },
        }
    }

    /// Mints a capability under a fresh identity.
    pub fn mint(
        &mut self,
        subject: &str,
        resource: &str,
        verbs: StrSet,
        constraints: Constraints,
        parent: Option<String>,
    ) -> (r: Result<Capability, KernelError>)
        ensures
            exists|id: Seq<char>| #[trigger]
                random_name(id, "cap_"@, 8) && minted(
                    old(self),
                    final(self),
                    r,
                    Grant {
                        cap_id: id,
                        subject: subject@,
                        resource: resource@,
                        verbs: verbs@,
                        expires_at: constraints.expires_at,
                        counts: constraints.counts@,
                        parent: text_view(parent),
                        revoked: false,
                    },
                ),
    {
        let id: String = fresh_name("cap_", 8);
        self.mint_as(id.as_str(), subject, resource, verbs, constraints, parent)
    }

    /// Derives a capability under an identity that is free. The parent must be live, and the
    /// child must narrow it in every respect.
    pub fn attenuate_as(
        &mut self,
        cap_id: &str,
        parent_id: &str,
        subject: &str,
        verbs: StrSet,
        constraints: Constraints,
    ) -> (r: Result<Capability, KernelError>)
        ensures
            ({
                let child = |p: Grant| Grant {
                    cap_id: cap_id@,
                    subject: subject@,
                    resource: p.resource,
                    verbs: verbs@,
                    expires_at: constraints.expires_at,
                    counts: constraints.counts@,
                    parent: Some(p.cap_id),
                    revoked: false,
                };
                derived(old(self), final(self), r, parent_id@, child)
            }),
    {
        let parent: Capability = match self.get(parent_id) {
            Err(e) => {
                return Err(e);
            },
            Ok(p) => p,
        };
        proof {
            found_is_in(self.table(), parent_id@);
        }
        if !self.live.contains(parent_id) {
            return Err(KernelError::Denied("parent revoked".to_owned()));
        }
        let child = Capability {
            cap_id: cap_id.to_owned(),
            subject: subject.to_owned(),
            resource: parent.resource.clone(),
            verbs,
            constraints,
            parent: Some(parent.cap_id.clone()),
            revoked: false,
        };
        if !child.is_valid_attenuation_of(&parent) {
            return Err(KernelError::Denied("attenuation must narrow".to_owned()));
        }
        let twin: Capability = child.clone();
        match self.store_minted(child) {
            Err(e) => Err(e),
            Ok(_) => {
                proof {
                    use_type_invariant(&*self);
                }
                Ok(twin)
            },
        }
    }

    /// Derives a capability under a fresh identity.
    pub fn attenuate(
        &mut self,
        parent_id: &str,
        subject: &str,
        verbs: StrSet,
        constraints: Constraints,
    ) -> (r: Result<Capability, KernelError>)
        ensures
            exists|id: Seq<char>| #[trigger]
                random_name(id, "cap_"@, 8) && derived(
                    old(self),
                    final(self),
                    r,
                    parent_id@,
                    |p: Grant| Grant {
                        cap_id: id,
                        subject: subject@,
                        resource: p.resource,
                        verbs: verbs@,
                        expires_at: constraints.expires_at,
                        counts: constraints.counts@,
                        parent: Some(p.cap_id),
                        revoked: false,
                    },
                ),
    {
        let id: String = fresh_name("cap_", 8);
        self.attenuate_as(id.as_str(), parent_id, subject, verbs, constraints)
    }

    /// Notes that the holding of a capability is gone.
    pub fn retire(&mut self, cap_id: &str)
        ensures
            final(self).table() == old(self).table(),
            final(self).alive() == old(self).alive().remove(cap_id@),
            final(self).spent_rows() == old(self).spent_rows(),
    {
        let n: usize = self.live.len();
        let ghost all = self.live.items();
        let mut kept = StrSet::new();
        let mut i: usize = 0;
        assert(kept@ =~= all.take(0).to_set().remove(cap_id@));
        while i < n
            invariant
                i <= n,
                n == all.len(),
                all == self.live.items(),
                *self == *old(self),
                forall|k: Seq<char>| #[trigger] kept@.contains(k) <==> all.take(i as int).contains(
                    k,
                ) && k != cap_id@,
            decreases n - i,
        {
            let item: &String = self.live.item_at(i);
            proof {
                let a = all.take(i as int);
                let b = all.take(i + 1);
                assert(b =~= a.push(all[i as int]));
                assert forall|k: Seq<char>| b.contains(k) == (a.contains(k) || k == all[i as int]) by {
                    if a.contains(k) {
                        let q = a.index_of(k);
                        assert(b[q] == k);
                    }
                    if b.contains(k) {
                        let q = b.index_of(k);
                        if q < i {
                            assert(a[q] == k);
                        }
                    }
                    assert(b[i as int] == all[i as int]);
                }
            }
            if !same(item.as_str(), cap_id) {
                kept.insert(item.clone());
            }
            i = i + 1;
        }
        proof {
            use_type_invariant(&*self);
            assert(all.take(n as int) =~= all);
            assert(kept@ =~= self.live@.remove(cap_id@)) by {
                assert forall|k: Seq<char>| kept@.contains(k) == self.live@.remove(
                    cap_id@,
                ).contains(k) by {
                    assert(self.live@.contains(k) <==> all.contains(k));
                }
            }
        }
        self.live = kept;
    }

    /// The live capabilities of a subject.
    pub fn list_live(&self, subject: &str, now: u64) -> (r: Vec<Capability>)
        ensures
            grants(r@) == self.table().filter(
                |g: Grant| is_live_for(g, self.alive(), subject@, now),
            ),
            forall|i: int| 0 <= i < r@.len() ==> (#[trigger] r@[i]).subject@ == subject@,
            forall|i: int| 0 <= i < r@.len() ==> !(#[trigger] r@[i]).revoked,
    {
        let mut r: Vec<Capability> = Vec::new();
        let mut i: usize = 0;
        let ghost t = self.table();
        let ghost keep = |g: Grant| is_live_for(g, self.alive(), subject@, now);
        proof {
            assert(t.take(0) =~= Seq::<Grant>::empty());
            assert(grants(r@) =~= t.take(0).filter(keep)) by {
                reveal(Seq::filter);
            }
        }
        while i < self.rows.len()
            invariant
                i <= self.rows@.len(),
                t == self.table(),
                t == grants(self.rows@),
                keep == (|g: Grant| is_live_for(g, self.alive(), subject@, now)),
                grants(r@) == t.take(i as int).filter(keep),
                forall|k: int| 0 <= k < r@.len() ==> (#[trigger] r@[k]).subject@ == subject@,
                forall|k: int| 0 <= k < r@.len() ==> !(#[trigger] r@[k]).revoked,
            decreases self.rows.len() - i,
        {
            let c: &Capability = &self.rows[i];
            let current: bool = match c.constraints.expires_at {
                Some(e) => now <= e,
                None => true,
            };
            let ghost r0 = grants(r@);
            proof {
                assert(t.take(i + 1) =~= t.take(i as int).push(t[i as int]));
                reveal(Seq::filter);
                assert(t.take(i + 1).drop_last() =~= t.take(i as int));
            }
            if !c.revoked && same(c.subject.as_str(), subject) && current && self.live.contains(
                c.cap_id.as_str(),
            ) {
                let twin: Capability = c.clone();
                assert(twin@.subject == c@.subject && twin@.revoked == c@.revoked);
                r.push(twin);
                assert(grants(r@) =~= r0.push(t[i as int]));
            }
            i = i + 1;
        }
        assert(t.take(i as int) =~= t);
        r
    }
}

/// What the refusal of a candidate says.
pub open spec fn last_view(last: Option<(String, GateError)>) -> Option<(Seq<char>, GateError)> {
    match last {
        Some(p) => Some((p.0@, p.1)),
        None => None,
    }
}

/// Whether a grant was added, or refused because its identity is taken.
pub open spec fn minted(
    a: &CapStore,
    b: &CapStore,
    r: Result<Capability, KernelError>,
    g: Grant,
) -> bool {
    match r {
        Ok(c) => {
            &&& find_grant(a.table(), g.cap_id) is None
            &&& c@ == g
            &&& b.table() == a.table().push(g)
            &&& b.alive() == a.alive().insert(g.cap_id)
            &&& forall|v: Seq<char>| #[trigger] b.spent(g.cap_id, v) == 0
            &&& forall|id: Seq<char>, v: Seq<char>|
                id != g.cap_id ==> #[trigger] b.spent(id, v) == a.spent(id, v)
            &&& b.solvent()
        },
        Err(e) => {
            &&& find_grant(a.table(), g.cap_id) is Some
            &&& e@ == Refusal::Denied("capability exists: "@ + g.cap_id)
            &&& *b == *a
        },
    }
}

/// Whether a grant was derived from a live parent that it narrows, or refused.
pub open spec fn derived(
    a: &CapStore,
    b: &CapStore,
    r: Result<Capability, KernelError>,
    parent_id: Seq<char>,
    child: spec_fn(Grant) -> Grant,
) -> bool {
    match find_grant(a.table(), parent_id) {
        None => r matches Err(e) && e@ == Refusal::NotFound(parent_id) && *b == *a,
        Some(p) => if !a.alive().contains(parent_id) {
            r matches Err(e) && e@ == Refusal::Denied("parent revoked"@) && *b == *a
        } else if !narrows(child(p), p) {
            r matches Err(e) && e@ == Refusal::Denied("attenuation must narrow"@) && *b == *a
        } else {
            minted(a, b, r, child(p))
        },
    }
}

/// Whether a grant descends from another one in a number of derivations.
pub open spec fn reached(t: Seq<Grant>, root: Seq<char>, id: Seq<char>, steps: nat) -> bool
    decreases steps,
{
    if steps == 0 {
        id == root
    } else {
        exists|i: int|
            0 <= i < t.len() && (#[trigger] t[i]).cap_id == id && t[i].parent is Some && reached(
                t,
                root,
                t[i].parent->0,
                (steps - 1) as nat,
            )
    }
}

/// Whether a grant is another one or was derived from it, directly or by way of others.
pub open spec fn descends(t: Seq<Grant>, root: Seq<char>, id: Seq<char>) -> bool {
    exists|steps: nat| #[trigger] reached(t, root, id, steps)
}

/// The table after the revocation of a grant.
pub open spec fn revoked_table(t: Seq<Grant>, root: Seq<char>) -> Seq<Grant> {
    Seq::new(
        t.len(),
        |i: int| Grant { revoked: t[i].revoked || descends(t, root, t[i].cap_id), ..t[i] },
    )
}

/// How many grants a revocation newly revokes.
pub open spec fn newly_revoked(t: Seq<Grant>, all: Seq<Grant>, root: Seq<char>) -> nat
    decreases t.len(),
{
    if t.len() == 0 {
        0
    } else {
        newly_revoked(t.drop_last(), all, root) + if !t.last().revoked && descends(
            all,
            root,
            t.last().cap_id,
        ) {
            1nat
        } else {
            0nat
        }
    }
}

/// How many marks are not set.
spec fn unmarked(m: Seq<bool>) -> nat
    decreases m.len(),
{
    if m.len() == 0 {
        0
    } else {
        unmarked(m.drop_last()) + if m.last() {
            0nat
        } else {
            1nat
        }
    }
}

proof fn mark_one(m: Seq<bool>, i: int)
    requires
        0 <= i < m.len(),
        !m[i],
    ensures
        unmarked(m.update(i, true)) == unmarked(m) - 1,
        unmarked(m) > 0,
    decreases m.len(),
{
    if i == m.len() - 1 {
        assert(m.update(i, true).drop_last() =~= m.drop_last());
    } else {
        mark_one(m.drop_last(), i);
        assert(m.update(i, true).drop_last() =~= m.drop_last().update(i, true));
    }
}

/// A derivation from a descendant descends too.
proof fn child_descends(t: Seq<Grant>, root: Seq<char>, i: int)
    requires
        0 <= i < t.len(),
        t[i].parent is Some,
        descends(t, root, t[i].parent->0),
    ensures
        descends(t, root, t[i].cap_id),
{
    let steps = choose|steps: nat| #[trigger] reached(t, root, t[i].parent->0, steps);
    assert(reached(t, root, t[i].cap_id, steps + 1));
}

/// Marks that are closed under derivation and hold the root hold every descendant.
proof fn closed_holds_descendants(
    t: Seq<Grant>,
    m: Seq<bool>,
    root: Seq<char>,
    id: Seq<char>,
    steps: nat,
)
    requires
        m.len() == t.len(),
        forall|i: int| 0 <= i < t.len() && (#[trigger] t[i]).cap_id == root ==> m[i],
        forall|i: int, j: int|
            0 <= i < t.len() && 0 <= j < t.len() && m[j] && (#[trigger] t[i]).parent == Some(
                (#[trigger] t[j]).cap_id,
            ) ==> m[i],
        exists|r: int| 0 <= r < t.len() && (#[trigger] t[r]).cap_id == root,
        distinct(t),
        reached(t, root, id, steps),
    ensures
        forall|i: int| 0 <= i < t.len() && (#[trigger] t[i]).cap_id == id ==> m[i],
        exists|i: int| 0 <= i < t.len() && (#[trigger] t[i]).cap_id == id,
    decreases steps,
{
    if steps > 0 {
        let k = choose|k: int|
            0 <= k < t.len() && (#[trigger] t[k]).cap_id == id && t[k].parent is Some && reached(
                t,
                root,
                t[k].parent->0,
                (steps - 1) as nat,
            );
        let p = t[k].parent->0;
        closed_holds_descendants(t, m, root, p, (steps - 1) as nat);
        let j = choose|j: int| 0 <= j < t.len() && (#[trigger] t[j]).cap_id == p;
        assert(m[j]);
        assert(t[k].parent == Some(t[j].cap_id));
        assert(m[k]);
        assert forall|i: int| 0 <= i < t.len() && (#[trigger] t[i]).cap_id == id implies m[i] by {
            if i < k {
                assert(t[i].cap_id != t[k].cap_id);
            } else if k < i {
                assert(t[k].cap_id != t[i].cap_id);
            }
        }
    }
}

impl CapStore {
    /// Marks a capability and everything that was derived from it.
    fn cascade(&self, root: &str) -> (m: Vec<bool>)
        requires
            find_grant(self.table(), root@) is Some,
        ensures
            m@.len() == self.table().len(),
            forall|i: int|
                0 <= i < m@.len() ==> #[trigger] m@[i] == descends(
                    self.table(),
                    root@,
                    self.table()[i].cap_id,
                ),
    {
        proof {
            use_type_invariant(self);
            found_is_in(self.table(), root@);
        }
        let ghost t = self.table();
        let n: usize = self.rows.len();
        let mut m: Vec<bool> = Vec::new();
        let mut i: usize = 0;
        while i < n
            invariant
                i <= n,
                n == self.rows@.len(),
                t == grants(self.rows@),
                m@.len() == i,
                forall|k: int| 0 <= k < i ==> #[trigger] m@[k] == (t[k].cap_id == root@),
            decreases n - i,
        {
            m.push(same(self.rows[i].cap_id.as_str(), root));
            i = i + 1;
        }
        assert forall|k: int| 0 <= k < n && #[trigger] m@[k] implies descends(
            t,
            root@,
            t[k].cap_id,
        ) by {
            assert(reached(t, root@, t[k].cap_id, 0));
        }
        let mut changed: bool = true;
        while changed
            invariant
                n == self.rows@.len(),
                t == grants(self.rows@),
                m@.len() == n,
                forall|k: int| 0 <= k < n && (#[trigger] t[k]).cap_id == root@ ==> m@[k],
                forall|k: int| 0 <= k < n && #[trigger] m@[k] ==> descends(t, root@, t[k].cap_id),
                !changed ==> forall|a: int, b: int|
                    0 <= a < n && 0 <= b < n && m@[b] && (#[trigger] t[a]).parent == Some(
                        (#[trigger] t[b]).cap_id,
                    ) ==> m@[a],
            decreases
                    unmarked(m@),
                    (if changed {
                        1int
                    } else {
                        0int
                    }),
        {
            changed = false;
            let ghost m0 = m@;
            let mut a: usize = 0;
            while a < n && !changed
                invariant
                    a <= n,
                    n == self.rows@.len(),
                    t == grants(self.rows@),
                    m@.len() == n,
                    forall|k: int| 0 <= k < n && (#[trigger] t[k]).cap_id == root@ ==> m@[k],
                    forall|k: int|
                        0 <= k < n && #[trigger] m@[k] ==> descends(t, root@, t[k].cap_id),
                    !changed ==> m@ == m0,
                    changed ==> unmarked(m@) < unmarked(m0),
                    !changed ==> forall|x: int, b: int|
                        0 <= x < a && 0 <= b < n && m@[b] && (#[trigger] t[x]).parent == Some(
                            (#[trigger] t[b]).cap_id,
                        ) ==> m@[x],
                decreases n - a,
            {
                if !m[a] {
                    match &self.rows[a].parent {
                        None => {},
                        Some(p) => {
                            let mut b: usize = 0;
                            while b < n && !changed
                                invariant
                                    b <= n,
                                    a < n,
                                    n == self.rows@.len(),
                                    t == grants(self.rows@),
                                    t[a as int].parent == Some(p@),
                                    m@.len() == n,
                                    forall|k: int|
                                        0 <= k < n && (#[trigger] t[k]).cap_id == root@ ==> m@[k],
                                    forall|k: int|
                                        0 <= k < n && #[trigger] m@[k] ==> descends(
                                            t,
                                            root@,
                                            t[k].cap_id,
                                        ),
                                    !changed ==> m@ == m0 && !m@[a as int],
                                    changed ==> unmarked(m@) < unmarked(m0),
                                    !changed ==> forall|y: int|
                                        0 <= y < b && m@[y] ==> (#[trigger] t[y]).cap_id != p@,
                                decreases n - b,
                            {
                                if m[b] && same(self.rows[b].cap_id.as_str(), p.as_str()) {
                                    proof {
                                        mark_one(m@, a as int);
                                        child_descends(t, root@, a as int);
                                    }
                                    m.set(a, true);
                                    changed = true;
                                }
                                b = b + 1;
                            }
                        },
                    }
                }
                a = a + 1;
            }
        }
        proof {
            assert forall|k: int| 0 <= k < n implies #[trigger] m@[k] == descends(
                t,
                root@,
                t[k].cap_id,
            ) by {
                if descends(t, root@, t[k].cap_id) {
                    let steps = choose|steps: nat| #[trigger]
                        reached(t, root@, t[k].cap_id, steps);
                    closed_holds_descendants(t, m@, root@, t[k].cap_id, steps);
                }
            }
        }
        m
    }

    /// Revokes a capability and everything that was derived from it: their holdings are gone,
    /// their spend rows are released and their pools closed. Returns how many were not revoked
    /// before.
    pub fn revoke(&mut self, cap_id: &str) -> (r: Result<u64, KernelError>)
        ensures
            match r {
                Ok(n) => {
                    &&& find_grant(old(self).table(), cap_id@) is Some
                    &&& n == newly_revoked(old(self).table(), old(self).table(), cap_id@)
                    &&& final(self).table() == revoked_table(old(self).table(), cap_id@)
                    &&& forall|i: int|
                        0 <= i < old(self).table().len() ==> {
                            let id = (#[trigger] old(self).table()[i]).cap_id;
                            let dead = descends(old(self).table(), cap_id@, id);
                            &&& final(self).alive().contains(id) == (old(self).alive().contains(
                                id,
                            ) && !dead)
                            &&& forall|v: Seq<char>| #[trigger]
                                final(self).spent(id, v) == if dead {
                                    0
                                } else {
                                    old(self).spent(id, v)
                                }
                        }
                },
                Err(e) => {
                    &&& find_grant(old(self).table(), cap_id@) is None
                    &&& e@ == Refusal::NotFound(cap_id@)
                    &&& *final(self) == *old(self)
                },
            },
    {
        if self.position(cap_id).is_none() {
            return Err(KernelError::NotFound(cap_id.to_owned()));
        }
        let m: Vec<bool> = self.cascade(cap_id);
        let ghost t = self.table();
        let ghost s0 = *self;
        let n: usize = self.rows.len();
        let mut count: u64 = 0;
        let mut i: usize = 0;
        proof {
            use_type_invariant(&*self);
            assert(t.take(0) =~= Seq::<Grant>::empty());
        }
        while i < n
            invariant
                i <= n,
                n == self.rows@.len(),
                n == t.len(),
                m@.len() == n,
                t == s0.table(),
                s0 == *old(self),
                distinct(t),
                count <= i,
                count == newly_revoked(t.take(i as int), t, cap_id@),
                forall|k: int|
                    0 <= k < n ==> #[trigger] m@[k] == descends(t, cap_id@, t[k].cap_id),
                self.table().len() == n,
                self.table() == grants(self.rows@),
                forall|k: int|
                    0 <= k < n ==> #[trigger] self.table()[k] == (Grant {
                        revoked: t[k].revoked || (k < i && m@[k]),
                        ..t[k]
                    }),
                forall|k: int|
                    0 <= k < n ==> {
                        let id = (#[trigger] t[k]).cap_id;
                        let dead = k < i && m@[k];
                        &&& self.alive().contains(id) == (s0.alive().contains(id) && !dead)
                        &&& forall|v: Seq<char>| #[trigger]
                            self.spent(id, v) == if dead {
                                0
                            } else {
                                s0.spent(id, v)
                            }
                    },
            decreases n - i,
        {
            proof {
                let p = t.take(i + 1);
                assert(p.drop_last() =~= t.take(i as int));
                assert(p.last() == t[i as int]);
            }
            if m[i] {
                let id: String = self.rows[i].cap_id.clone();
                assert(self.table()[i as int].cap_id == t[i as int].cap_id);
                assert(id@ == t[i as int].cap_id);
                let was: bool = self.rows[i].revoked;
                assert(self.table()[i as int].revoked == was);
                if !was {
                    count = count + 1;
                }
                let ghost s1 = *self;
                self.retire(id.as_str());
                let ghost s2 = *self;
                self.forget_spends(id.as_str());
                let ghost s3 = *self;
                self.flag(i);
                proof {
                    assert(self.rows@.len() == self.table().len());
                    assert forall|k: int| 0 <= k < n implies {
                        let o = (#[trigger] t[k]).cap_id;
                        let dead = k < i + 1 && m@[k];
                        &&& self.alive().contains(o) == (s0.alive().contains(o) && !dead)
                        &&& forall|v: Seq<char>| #[trigger]
                            self.spent(o, v) == if dead {
                                0
                            } else {
                                s0.spent(o, v)
                            }
                    } by {
                        let o = t[k].cap_id;
                        assert(s1.alive().contains(o) == (s0.alive().contains(o) && !(k < i
                            && m@[k])));
                        if k < i {
                            assert(t[k].cap_id != t[i as int].cap_id);
                        } else if i < k {
                            assert(t[i as int].cap_id != t[k].cap_id);
                        }
                        assert forall|v: Seq<char>| #[trigger]
                            self.spent(o, v) == if k < i + 1 && m@[k] {
                                0
                            } else {
                                s0.spent(o, v)
                            } by {
                            assert(s1.spent(o, v) == if k < i && m@[k] {
                                0
                            } else {
                                s0.spent(o, v)
                            });
                            assert(s2.spent(o, v) == s1.spent(o, v));
                            if k == i {
                                assert(s3.spent(id@, v) == 0);
                            } else {
                                assert(s3.spent(o, v) == s2.spent(o, v));
                            }
                            assert(self.spent(o, v) == s3.spent(o, v));
                        }
                    }
                }
            }
            i = i + 1;
        }
        proof {
            assert(t.take(n as int) =~= t);
            assert(self.table() =~= revoked_table(t, cap_id@)) by {
                assert forall|k: int| 0 <= k < n implies self.table()[k] == revoked_table(
                    t,
                    cap_id@,
                )[k] by {
                    assert(m@[k] == descends(t, cap_id@, t[k].cap_id));
                }
            }
            assert forall|k: int| 0 <= k < old(self).table().len() implies {
                let id = (#[trigger] old(self).table()[k]).cap_id;
                let dead = descends(old(self).table(), cap_id@, id);
                &&& self.alive().contains(id) == (old(self).alive().contains(id) && !dead)
                &&& forall|v: Seq<char>| #[trigger]
                    self.spent(id, v) == if dead {
                        0
                    } else {
                        old(self).spent(id, v)
                    }
            } by {
                let id = t[k].cap_id;
                assert(m@[k] == descends(t, cap_id@, t[k].cap_id));
                assert(self.alive().contains(id) == (s0.alive().contains(id) && !m@[k]));
            }
        }
        Ok(count)
    }

    /// Marks the row at a position as revoked.
    fn flag(&mut self, i: usize)
        requires
            i < old(self).table().len(),
        ensures
            final(self).table() == old(self).table().update(
                i as int,
                Grant { revoked: true, ..old(self).table()[i as int] },
            ),
            final(self).alive() == old(self).alive(),
            final(self).spent_rows() == old(self).spent_rows(),
    {
        proof {
            use_type_invariant(&*self);
        }
        let mut cap: Capability = self.rows[i].clone();
        cap.revoked = true;
        let ghost t = self.table();
        let ghost s = self.spent_rows();
        let ghost g = cap@;
        let mut rows: Vec<Capability> = Vec::new();
        std::mem::swap(&mut rows, &mut self.rows);
        rows.set(i, cap);
        proof {
            let u = t.update(i as int, g);
            assert(grants(rows@) =~= u);
            assert forall|a: int, b: int| 0 <= a < b < u.len() implies (#[trigger] u[a]).cap_id != (
            #[trigger] u[b]).cap_id by {
                assert(t[a].cap_id != t[b].cap_id);
            }
            assert forall|a: int, v: Seq<char>|
                0 <= a < u.len() && #[trigger] u[a].counts.contains_key(v) implies spend_count(
                s,
                u[a].cap_id,
                v,
            ) <= u[a].counts[v] by {
                assert(t[a].counts.contains_key(v));
            }
        }
        self.rows = rows;
    }
}

/// After a revocation nothing that descends from the revoked capability passes the issuer.
pub proof fn revocation_is_final(a: &CapStore, b: &CapStore, root: Seq<char>, id: Seq<char>, verb: Seq<char>, now: u64)
    requires
        b.table() == revoked_table(a.table(), root),
        forall|i: int|
            0 <= i < a.table().len() ==> b.alive().contains(
                (#[trigger] a.table()[i]).cap_id,
            ) == (a.alive().contains(a.table()[i].cap_id) && !descends(
                a.table(),
                root,
                a.table()[i].cap_id,
            )),
        descends(a.table(), root, id),
    ensures
        gate_verdict(b, id, verb, now) is Err,
{
    found_is_in(b.table(), id);
    match find_grant(b.table(), id) {
        Some(g) => {
            let i = choose|i: int| 0 <= i < b.table().len() && #[trigger] b.table()[i] == g;
            assert(a.table()[i].cap_id == id);
        },
        None => {},
    }
}

/// Which capability lets a subject use a verb of a resource, or why none does.
pub open spec fn found_for(
    store: &CapStore,
    subject: Seq<char>,
    resource: Seq<char>,
    verb: Seq<char>,
    now: u64,
) -> Result<Seq<char>, Refusal> {
    match search_verdict(store, store.table(), None, subject, resource, verb, now) {
        Ok(id) => Ok(id),
        Err(None) => Err(
            Refusal::Denied(
                "no capability: "@ + subject + " → "@ + resource + " verb "@ + verb,
            ),
        ),
        Err(Some(last)) => Err(gate_refusal(last.1, last.0, verb)),
    }
}

/// Which capability lets a subject use a verb of a resource, or why none does, with the refusals
/// that a running plan tells apart.
pub open spec fn authorized_for(
    store: &CapStore,
    subject: Seq<char>,
    resource: Seq<char>,
    verb: Seq<char>,
    now: u64,
) -> Result<Seq<char>, Refusal> {
    match search_verdict(store, store.table(), None, subject, resource, verb, now) {
        Ok(id) => Ok(id),
        Err(None) => Err(Refusal::NoCapability { subject, resource, verb }),
        Err(Some(last)) => Err(
            if last.1 == GateError::Exhausted {
                Refusal::BudgetExhausted(verb)
            } else {
                gate_refusal(last.1, last.0, verb)
            },
        ),
    }
}

fn count_spends(spends: &Vec<(String, String)>, id: &str, verb: &str) -> (n: usize)
    ensures
        n == spend_count(spendings(spends@), id@, verb@),
{
    let ghost all = spendings(spends@);
    let mut n: usize = 0;
    let mut i: usize = 0;
    assert(all.take(0) =~= Seq::<(Seq<char>, Seq<char>)>::empty());
    while i < spends.len()
        invariant
            n <= i <= spends@.len(),
            all == spendings(spends@),
            n == spend_count(all.take(i as int), id@, verb@),
        decreases spends.len() - i,
    {
        assert(all.take(i + 1).drop_last() =~= all.take(i as int));
        assert(all.take(i + 1).last() == (spends@[i as int].0@, spends@[i as int].1@));
        if same(spends[i].0.as_str(), id) && same(spends[i].1.as_str(), verb) {
            n = n + 1;
        }
        i = i + 1;
    }
    assert(all.take(i as int) =~= all);
    n
}

/// Whether what was spent of one capability is within its counts.
pub open spec fn within_own(g: Grant, s: Seq<(Seq<char>, Seq<char>)>) -> bool {
    forall|v: Seq<char>| #[trigger]
        g.counts.contains_key(v) ==> spend_count(s, g.cap_id, v) <= g.counts[v]
}

fn covers(cap: &Capability, spends: &Vec<(String, String)>) -> (b: bool)
    ensures
        b == within_own(cap@, spendings(spends@)),
{
    let ghost s = spendings(spends@);
    let n: usize = cap.constraints.counts.len();
    let ghost pairs = cap.constraints.counts.pairs();
    let mut i: usize = 0;
    while i < n
        invariant
            i <= n,
            n == pairs.len(),
            pairs == cap.constraints.counts.pairs(),
            increasing(pairs),
            cap@.counts == listed(pairs),
            s == spendings(spends@),
            forall|k: int|
                0 <= k < i ==> spend_count(s, cap@.cap_id, (#[trigger] pairs[k]).0) <= pairs[k].1,
        decreases n - i,
    {
        let verb: &String = cap.constraints.counts.key_at(i);
        let most: u64 = *cap.constraints.counts.value_at(i);
        proof {
            listed_at(pairs, i as int);
        }
        if count_spends(spends, cap.cap_id.as_str(), verb.as_str()) as u64 > most {
            assert(cap@.counts.contains_key(verb@));
            return false;
        }
        i = i + 1;
    }
    proof {
        assert forall|v: Seq<char>| #[trigger] cap@.counts.contains_key(v) implies spend_count(
            s,
            cap@.cap_id,
            v,
        ) <= cap@.counts[v] by {
            let k = choose|k: int| 0 <= k < pairs.len() && (#[trigger] pairs[k]).0 == v;
            listed_at(pairs, k);
        }
    }
    true
}

impl CapStore {
    /// The capabilities, as they are stored.
    pub fn rows(&self) -> (r: &Vec<Capability>)
        ensures
            grants(r@) == self.table(),
    {
        &self.rows
    }

    /// The spend rows, in order.
    pub fn spends(&self) -> (r: &Vec<(String, String)>)
        ensures
            spendings(r@) == self.spent_rows(),
    {
        &self.spends
    }

    /// The table of stored rows, with the holdings that are live and what was spent. Rows that give
    /// an identity twice, or of which more was spent than they count, are refused.
    pub fn rebuild_pools(
        rows: Vec<Capability>,
        live: StrSet,
        spends: Vec<(String, String)>,
    ) -> (r: Result<CapStore, KernelError>)
        ensures
            match r {
                Ok(s) => {
                    &&& s.table() == grants(rows@)
                    &&& s.alive() == live@
                    &&& s.spent_rows() == spendings(spends@)
                    &&& s.solvent()
                },
                Err(e) => if !distinct(grants(rows@)) {
                    e@ == Refusal::Corrupt("capability stored twice"@)
                } else {
                    &&& !within_counts(grants(rows@), spendings(spends@))
                    &&& e@ == Refusal::Corrupt("resource storage: overdrawn pool"@)
                },
            },
    {
        let ghost t = grants(rows@);
        let ghost s = spendings(spends@);
        let mut i: usize = 0;
        while i < rows.len()
            invariant
                i <= rows@.len(),
                t == grants(rows@),
                forall|a: int, b: int|
                    0 <= a < b < i ==> (#[trigger] t[a]).cap_id != (#[trigger] t[b]).cap_id,
            decreases rows.len() - i,
        {
            let mut j: usize = 0;
            while j < i
                invariant
                    i < rows@.len(),
                    j <= i,
                    t == grants(rows@),
                    forall|a: int| 0 <= a < j ==> (#[trigger] t[a]).cap_id != t[i as int].cap_id,
                decreases i - j,
            {
                if same(rows[j].cap_id.as_str(), rows[i].cap_id.as_str()) {
                    assert(t[j as int].cap_id == t[i as int].cap_id);
                    return Err(KernelError::Corrupt("capability stored twice".to_owned()));
                }
                j = j + 1;
            }
            i = i + 1;
        }
        assert(distinct(t));
        i = 0;
        while i < rows.len()
            invariant
                i <= rows@.len(),
                t == grants(rows@),
                s == spendings(spends@),
                distinct(t),
                forall|k: int| 0 <= k < i ==> within_own(#[trigger] t[k], s),
            decreases rows.len() - i,
        {
            if !covers(&rows[i], &spends) {
                proof {
                    assert(!within_own(t[i as int], s));
                    let v = choose|v: Seq<char>| #[trigger]
                        t[i as int].counts.contains_key(v) && !(spend_count(
                            s,
                            t[i as int].cap_id,
                            v,
                        ) <= t[i as int].counts[v]);
                    assert(t[i as int].counts.contains_key(v));
                }
                return Err(KernelError::Corrupt("resource storage: overdrawn pool".to_owned()));
            }
            i = i + 1;
        }
        proof {
            assert forall|k: int, v: Seq<char>|
                0 <= k < t.len() && #[trigger] t[k].counts.contains_key(v) implies spend_count(
                s,
                t[k].cap_id,
                v,
            ) <= t[k].counts[v] by {
                assert(within_own(t[k], s));
            }
        }
        Ok(CapStore { rows, live, spends })
    }
}

} // verus!

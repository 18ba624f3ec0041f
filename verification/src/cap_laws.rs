//! What holds of capabilities, whoever asks: what a derivation can give, what the issuer lets pass,
//! what is listed, and what a revocation takes.

use crate::cap::{narrows, Capability, Grant};
use crate::caps::{
    authorized_for, candidate, derived, descends, each_is_found, exercised, find_grant, found_for,
    gate_verdict, is_live_for, minted, newly_revoked, reached, revoked_table, search_verdict,
    spend_count, CapStore, GateError,
};
use crate::error::{KernelError, Refusal};
use crate::grants::{given, holding_for, left_of, stronger, wider, Best};
use crate::records::Held;
use crate::store::holds_cap;
use vstd::prelude::*;

verus! {

/// Whether the end of a grant is past.
pub open spec fn expired(g: Grant, now: u64) -> bool {
    exists|e: u64| g.expires_at == Some(e) && e < now
}

/// Whether a grant by itself allows one more use of a verb, so many having been made.
pub open spec fn allows(g: Grant, verb: Seq<char>, used: nat, now: u64) -> bool {
    &&& g.verbs.contains(verb)
    &&& forall|n: u64| g.counts.contains_pair(verb, n) ==> used < n
    &&& !expired(g, now)
}

/// A derived grant ends with its parent: at every time at which the parent is expired, the child
/// is expired too.
pub proof fn a_child_ends_with_its_parent(child: Grant, parent: Grant, now: u64)
    requires
        narrows(child, parent),
        expired(parent, now),
    ensures
        expired(child, now),
{
    let p = parent.expires_at->0;
    assert(parent.expires_at == Some(p) && p < now);
    let c = child.expires_at->0;
    assert(child.expires_at == Some(c) && c < now);
}

/// No derivation amplifies: whatever use a child allows, its parent allows too, after as many uses
/// and at the same time.
pub proof fn a_child_allows_no_more(
    child: Grant,
    parent: Grant,
    verb: Seq<char>,
    used: nat,
    now: u64,
)
    requires
        narrows(child, parent),
        allows(child, verb, used, now),
    ensures
        allows(parent, verb, used, now),
{
    if expired(parent, now) {
        a_child_ends_with_its_parent(child, parent, now);
    }
    assert forall|n: u64| parent.counts.contains_pair(verb, n) implies used < n by {
        assert(child.counts.contains_key(verb));
        assert(child.counts.contains_pair(verb, child.counts[verb]));
    }
}

/// What may be changed in a derivation, one respect at a time: verbs may be left out, an end may be
/// brought forward or set, and a count may be lowered or set for a verb that is granted; nothing
/// of this may go the other way.
pub proof fn what_a_derivation_may_change(
    parent: Grant,
    verbs: Set<Seq<char>>,
    end: Option<u64>,
    verb: Seq<char>,
    n: u64,
)
    ensures
        narrows(Grant { verbs, ..parent }, parent) <==> forall|v: Seq<char>|
            verbs.contains(v) ==> parent.verbs.contains(v),
        parent.expires_at is None ==> narrows(Grant { expires_at: end, ..parent }, parent),
        parent.expires_at matches Some(p) ==> (narrows(
            Grant { expires_at: end, ..parent },
            parent,
        ) <==> exists|c: u64| end == Some(c) && c <= p),
        narrows(Grant { counts: parent.counts.insert(verb, n), ..parent }, parent) <==> {
            if parent.counts.contains_key(verb) {
                n <= parent.counts[verb]
            } else {
                parent.verbs.contains(verb)
            }
        },
        parent.counts.contains_key(verb) && parent.verbs.contains(verb) ==> !narrows(
            Grant { counts: parent.counts.remove(verb), ..parent },
            parent,
        ),
{
    let fewer = Grant { verbs, ..parent };
    if forall|v: Seq<char>| verbs.contains(v) ==> parent.verbs.contains(v) {
        assert(fewer.verbs.subset_of(parent.verbs));
        assert(narrows(fewer, parent));
    }
    if narrows(fewer, parent) {
        assert forall|v: Seq<char>| verbs.contains(v) implies parent.verbs.contains(v) by {
            assert(fewer.verbs.contains(v));
        }
    }
    let shorter = Grant { expires_at: end, ..parent };
    if let Some(p) = parent.expires_at {
        if narrows(shorter, parent) {
            let c = end->0;
            assert(end == Some(c) && c <= p);
        }
        if exists|c: u64| end == Some(c) && c <= p {
            assert(narrows(shorter, parent));
        }
    } else {
        assert(narrows(shorter, parent));
    }
    let counted = Grant { counts: parent.counts.insert(verb, n), ..parent };
    assert(counted.counts.contains_key(verb) && counted.counts[verb] == n);
    if if parent.counts.contains_key(verb) {
        n <= parent.counts[verb]
    } else {
        parent.verbs.contains(verb)
    } {
        assert(narrows(counted, parent));
    }
    let loose = Grant { counts: parent.counts.remove(verb), ..parent };
    assert(!loose.counts.contains_key(verb));
}

/// A grant that is found under an identity has that identity and stands in the table; where none is
/// found, no grant of the table has it.
pub proof fn what_is_found_is_in_the_table(t: Seq<Grant>, id: Seq<char>)
    ensures
        find_grant(t, id) matches Some(g) ==> g.cap_id == id && t.contains(g),
        find_grant(t, id) is None ==> forall|i: int|
            0 <= i < t.len() ==> (#[trigger] t[i]).cap_id != id,
    decreases t.len(),
{
    if t.len() > 0 {
        let rest = t.drop_first();
        what_is_found_is_in_the_table(rest, id);
        if t[0].cap_id == id {
            assert(t[0] == t[0]);
        } else {
            match find_grant(rest, id) {
                Some(g) => {
                    let i = rest.index_of(g);
                    assert(rest[i] == g);
                    assert(t[i + 1] == g);
                },
                None => {
                    assert forall|i: int| 0 <= i < t.len() implies (#[trigger] t[i]).cap_id
                        != id by {
                        if i > 0 {
                            assert(t[i] == rest[i - 1]);
                        }
                    }
                },
            }
        }
    }
}

/// What the issuer lets pass: an exercise passes exactly when a grant of the identity stands in the
/// table, its holding is live, and the grant allows one more use after what was spent of the
/// verb. The first thing that is wanting is the reason of a refusal.
pub proof fn the_gate_lets_pass(s: &CapStore, id: Seq<char>, verb: Seq<char>, now: u64, i: int)
    requires
        s.solvent(),
        0 <= i < s.table().len(),
        s.table()[i].cap_id == id,
    ensures
        gate_verdict(s, id, verb, now) is Ok <==> s.alive().contains(id) && allows(
            s.table()[i],
            verb,
            s.spent(id, verb),
            now,
        ),
        gate_verdict(s, id, verb, now) matches Ok(pays) ==> (pays
            <==> s.table()[i].counts.contains_key(verb)),
        gate_verdict(s, id, verb, now) != Err::<bool, GateError>(GateError::Unknown),
        gate_verdict(s, id, verb, now) == Err::<bool, GateError>(GateError::Revoked)
            <==> !s.alive().contains(id),
        gate_verdict(s, id, verb, now) == Err::<bool, GateError>(GateError::Expired)
            <==> s.alive().contains(id) && expired(s.table()[i], now),
        gate_verdict(s, id, verb, now) == Err::<bool, GateError>(GateError::NotGranted) ==>
            !s.table()[i].verbs.contains(verb),
        gate_verdict(s, id, verb, now) == Err::<bool, GateError>(GateError::Exhausted) ==> exists|
            n: u64,
        |
            s.table()[i].counts.contains_pair(verb, n) && s.spent(id, verb) >= n,
{
    let g = s.table()[i];
    each_is_found(s.table(), i);
    if let Some(e) = g.expires_at {
        if now > e {
            assert(g.expires_at == Some(e) && e < now);
        }
    }
    if g.counts.contains_key(verb) {
        assert(g.counts.contains_pair(verb, g.counts[verb]));
    }
    if gate_verdict(s, id, verb, now) is Ok {
        assert forall|n: u64| g.counts.contains_pair(verb, n) implies s.spent(id, verb) < n by {}
    }
}

/// An identity that no grant of the table has is unknown to the issuer, and only such a one.
pub proof fn the_unknown_is_not_in_the_table(
    s: &CapStore,
    id: Seq<char>,
    verb: Seq<char>,
    now: u64,
)
    ensures
        gate_verdict(s, id, verb, now) == Err::<bool, GateError>(GateError::Unknown) <==> forall|
            i: int,
        |
            0 <= i < s.table().len() ==> (#[trigger] s.table()[i]).cap_id != id,
{
    what_is_found_is_in_the_table(s.table(), id);
    if let Some(g) = find_grant(s.table(), id) {
        let i = s.table().index_of(g);
        assert(s.table()[i].cap_id == id);
    }
}

/// What the issuer refuses to a parent as expired, it refuses to every child whose holding is live,
/// for the same reason.
pub proof fn an_expired_parent_expires_its_children(
    s: &CapStore,
    parent: int,
    child: int,
    verb: Seq<char>,
    other: Seq<char>,
    now: u64,
)
    requires
        s.solvent(),
        0 <= parent < s.table().len(),
        0 <= child < s.table().len(),
        narrows(s.table()[child], s.table()[parent]),
        s.alive().contains(s.table()[child].cap_id),
        gate_verdict(s, s.table()[parent].cap_id, verb, now) == Err::<bool, GateError>(
            GateError::Expired,
        ),
    ensures
        gate_verdict(s, s.table()[child].cap_id, other, now) == Err::<bool, GateError>(
            GateError::Expired,
        ),
{
    let p = s.table()[parent];
    let c = s.table()[child];
    the_gate_lets_pass(s, p.cap_id, verb, now, parent);
    a_child_ends_with_its_parent(c, p, now);
    the_gate_lets_pass(s, c.cap_id, other, now, child);
}

/// What a derivation gives lies within its parent: a child that was derived is a grant of the
/// parent's resource that names the parent, and whatever it allows, at whatever time, the parent
/// allows too; and there is none without a live parent.
pub proof fn a_derived_grant_is_within_its_parent(
    a: &CapStore,
    b: &CapStore,
    r: Result<Capability, KernelError>,
    parent_id: Seq<char>,
    id: Seq<char>,
    subject: Seq<char>,
    verbs: Set<Seq<char>>,
    end: Option<u64>,
    counts: Map<Seq<char>, u64>,
    verb: Seq<char>,
    used: nat,
    now: u64,
)
    requires
        derived(
            a,
            b,
            r,
            parent_id,
            |p: Grant| Grant {
                cap_id: id,
                subject,
                resource: p.resource,
                verbs,
                expires_at: end,
                counts,
                parent: Some(p.cap_id),
                revoked: false,
            },
        ),
    ensures
        r matches Ok(c) ==> {
            &&& find_grant(a.table(), parent_id) matches Some(p) && {
                &&& a.alive().contains(parent_id)
                &&& c@.resource == p.resource
                &&& c@.parent == Some(parent_id)
                &&& allows(c@, verb, used, now) ==> allows(p, verb, used, now)
                &&& expired(p, now) ==> expired(c@, now)
            }
            &&& c@.subject == subject
            &&& b.table().contains(c@)
            &&& b.alive().contains(c@.cap_id)
        },
        r is Err ==> *b == *a,
{
    if let Ok(c) = r {
        what_is_found_is_in_the_table(a.table(), parent_id);
        let p = find_grant(a.table(), parent_id)->0;
        if allows(c@, verb, used, now) {
            a_child_allows_no_more(c@, p, verb, used, now);
        }
        if expired(p, now) {
            a_child_ends_with_its_parent(c@, p, now);
        }
        assert(b.table().last() == c@);
        assert(b.table()[b.table().len() - 1] == c@);
    }
}

proof fn one_more_spend(
    s: Seq<(Seq<char>, Seq<char>)>,
    x: (Seq<char>, Seq<char>),
    id: Seq<char>,
    verb: Seq<char>,
)
    ensures
        spend_count(s.push(x), id, verb) == spend_count(s, id, verb) + if x == (id, verb) {
            1nat
        } else {
            0nat
        },
{
    assert(s.push(x).drop_last() =~= s);
}

/// An exercise spends exactly one use: where the verb is counted, what was spent of it grows by one
/// and stays within the count; nothing else that was spent changes, and no grant and no holding
/// does.
pub proof fn an_exercise_spends_one(
    a: &CapStore,
    b: &CapStore,
    i: int,
    verb: Seq<char>,
    now: u64,
    other: Seq<char>,
    v: Seq<char>,
)
    requires
        a.solvent(),
        0 <= i < a.table().len(),
        exercised(a, b, a.table()[i].cap_id, verb, now),
    ensures
        ({
            let g = a.table()[i];
            &&& b.table() == a.table()
            &&& b.alive() == a.alive()
            &&& g.counts.contains_key(verb) ==> b.spent(g.cap_id, verb) == a.spent(g.cap_id, verb)
                + 1 && b.spent(g.cap_id, verb) <= g.counts[verb]
            &&& !g.counts.contains_key(verb) ==> b.spent(g.cap_id, verb) == a.spent(g.cap_id, verb)
            &&& (other != g.cap_id || v != verb) ==> b.spent(other, v) == a.spent(other, v)
        }),
{
    let g = a.table()[i];
    the_gate_lets_pass(a, g.cap_id, verb, now, i);
    one_more_spend(a.spent_rows(), (g.cap_id, verb), g.cap_id, verb);
    one_more_spend(a.spent_rows(), (g.cap_id, verb), other, v);
    if g.counts.contains_key(verb) {
        assert(g.counts.contains_pair(verb, g.counts[verb]));
    }
}

/// A new grant has all its uses before it, and nobody else's change: it stands in the table with a
/// live holding and nothing spent, and every other grant keeps its place, its holding and what
/// was spent of it.
pub proof fn a_new_grant_is_unspent(
    a: &CapStore,
    b: &CapStore,
    r: Result<Capability, KernelError>,
    g: Grant,
    i: int,
    verb: Seq<char>,
    now: u64,
)
    requires
        minted(a, b, r, g),
        r is Ok,
    ensures
        b.table().last() == g,
        b.alive().contains(g.cap_id),
        gate_verdict(b, g.cap_id, verb, now) is Ok <==> allows(g, verb, 0, now),
        0 <= i < a.table().len() ==> {
            let o = a.table()[i];
            &&& o.cap_id != g.cap_id
            &&& b.table()[i] == o
            &&& b.alive().contains(o.cap_id) == a.alive().contains(o.cap_id)
            &&& b.spent(o.cap_id, verb) == a.spent(o.cap_id, verb)
        },
{
    let last = b.table().len() - 1;
    assert(b.table()[last] == g);
    assert(b.spent(g.cap_id, verb) == 0);
    the_gate_lets_pass(b, g.cap_id, verb, now, last);
    what_is_found_is_in_the_table(a.table(), g.cap_id);
    if 0 <= i < a.table().len() {
        assert(a.table()[i].cap_id != g.cap_id);
        assert(b.spent(a.table()[i].cap_id, verb) == a.spent(a.table()[i].cap_id, verb));
    }
}

/// Whether a grant of the table lets a subject use a verb of a resource, the issuer agreeing.
pub open spec fn serves(
    s: &CapStore,
    g: Grant,
    subject: Seq<char>,
    resource: Seq<char>,
    verb: Seq<char>,
    now: u64,
) -> bool {
    &&& g.subject == subject
    &&& g.resource == resource
    &&& g.verbs.contains(verb)
    &&& !g.revoked
    &&& s.alive().contains(g.cap_id)
    &&& gate_verdict(s, g.cap_id, verb, now) is Ok
}

proof fn search_is_sound(
    s: &CapStore,
    rest: Seq<Grant>,
    last: Option<(Seq<char>, GateError)>,
    subject: Seq<char>,
    resource: Seq<char>,
    verb: Seq<char>,
    now: u64,
)
    ensures
        match search_verdict(s, rest, last, subject, resource, verb, now) {
            Ok(id) => exists|i: int|
                0 <= i < rest.len() && (#[trigger] rest[i]).cap_id == id && serves(
                    s,
                    rest[i],
                    subject,
                    resource,
                    verb,
                    now,
                ) && forall|j: int|
                    0 <= j < i ==> !serves(s, #[trigger] rest[j], subject, resource, verb, now),
            Err(why) => {
                &&& forall|j: int|
                    0 <= j < rest.len() ==> !serves(
                        s,
                        #[trigger] rest[j],
                        subject,
                        resource,
                        verb,
                        now,
                    )
                &&& why is None ==> last is None
                &&& why is None ==> forall|j: int|
                    0 <= j < rest.len() ==> !((#[trigger] rest[j]).subject == subject
                        && rest[j].resource == resource && rest[j].verbs.contains(verb)
                        && !rest[j].revoked && s.alive().contains(rest[j].cap_id))
                &&& why matches Some(w) ==> why == last || (exists|i: int|
                    0 <= i < rest.len() && (#[trigger] rest[i]).cap_id == w.0 && rest[i].subject
                        == subject && rest[i].resource == resource && gate_verdict(
                        s,
                        w.0,
                        verb,
                        now,
                    ) == Err::<bool, GateError>(w.1))
            },
        },
    decreases rest.len(),
{
    if rest.len() > 0 {
        let tail = rest.drop_first();
        let g = rest[0];
        if candidate(g, s.alive(), subject, resource, verb) && gate_verdict(
            s,
            g.cap_id,
            verb,
            now,
        ) is Ok {
            assert(serves(s, rest[0], subject, resource, verb, now));
        } else {
            assert(!serves(s, rest[0], subject, resource, verb, now));
            let last2 = if candidate(g, s.alive(), subject, resource, verb) {
                Some((g.cap_id, gate_verdict(s, g.cap_id, verb, now)->Err_0))
            } else {
                last
            };
            search_is_sound(s, tail, last2, subject, resource, verb, now);
            assert(forall|j: int| 0 < j < rest.len() ==> #[trigger] rest[j] == tail[j - 1]);
            match search_verdict(s, tail, last2, subject, resource, verb, now) {
                Ok(id) => {
                    let i = choose|i: int|
                        0 <= i < tail.len() && (#[trigger] tail[i]).cap_id == id && serves(
                            s,
                            tail[i],
                            subject,
                            resource,
                            verb,
                            now,
                        ) && forall|j: int|
                            0 <= j < i ==> !serves(
                                s,
                                #[trigger] tail[j],
                                subject,
                                resource,
                                verb,
                                now,
                            );
                    assert(rest[i + 1] == tail[i]);
                    assert forall|j: int| 0 <= j < i + 1 implies !serves(
                        s,
                        #[trigger] rest[j],
                        subject,
                        resource,
                        verb,
                        now,
                    ) by {
                        if j > 0 {
                            assert(rest[j] == tail[j - 1]);
                        }
                    }
                },
                Err(why) => {
                    assert forall|j: int| 0 <= j < rest.len() implies !serves(
                        s,
                        #[trigger] rest[j],
                        subject,
                        resource,
                        verb,
                        now,
                    ) by {
                        if j > 0 {
                            assert(rest[j] == tail[j - 1]);
                        }
                    }
                    if let Some(w) = why {
                        if why == last2 && why != last {
                            assert(rest[0].cap_id == w.0);
                        }
                        if why != last2 {
                            let i = choose|i: int|
                                0 <= i < tail.len() && (#[trigger] tail[i]).cap_id == w.0
                                    && tail[i].subject == subject && tail[i].resource == resource
                                    && gate_verdict(s, w.0, verb, now) == Err::<bool, GateError>(
                                    w.1,
                                );
                            assert(rest[i + 1] == tail[i]);
                        }
                    }
                },
            }
        }
    }
}

/// Whom the search lets pass: a use of a verb of a resource by a subject passes exactly when the
/// table holds a grant of that verb of that resource to that subject which is not revoked, whose
/// holding is live, and which the issuer lets pass; the first such grant pays, and the two forms
/// of the search agree.
pub proof fn the_search_serves_its_subject(
    s: &CapStore,
    subject: Seq<char>,
    resource: Seq<char>,
    verb: Seq<char>,
    now: u64,
)
    ensures
        found_for(s, subject, resource, verb, now) matches Ok(id) ==> exists|i: int|
            0 <= i < s.table().len() && (#[trigger] s.table()[i]).cap_id == id && serves(
                s,
                s.table()[i],
                subject,
                resource,
                verb,
                now,
            ) && forall|j: int|
                0 <= j < i ==> !serves(s, #[trigger] s.table()[j], subject, resource, verb, now),
        found_for(s, subject, resource, verb, now) is Err ==> forall|j: int|
            0 <= j < s.table().len() ==> !serves(
                s,
                #[trigger] s.table()[j],
                subject,
                resource,
                verb,
                now,
            ),
        found_for(s, subject, resource, verb, now) is Ok <==> authorized_for(
            s,
            subject,
            resource,
            verb,
            now,
        ) is Ok,
        authorized_for(s, subject, resource, verb, now) matches Ok(id) ==> found_for(
            s,
            subject,
            resource,
            verb,
            now,
        ) == Ok::<Seq<char>, Refusal>(id),
        authorized_for(s, subject, resource, verb, now) matches Err(Refusal::NoCapability { .. })
            ==> forall|j: int|
            0 <= j < s.table().len() && (#[trigger] s.table()[j]).subject == subject
                && s.table()[j].resource == resource && s.table()[j].verbs.contains(verb)
                && !s.table()[j].revoked ==> !s.alive().contains(s.table()[j].cap_id),
        authorized_for(s, subject, resource, verb, now) matches Err(Refusal::BudgetExhausted(v))
            ==> v == verb && exists|i: int|
            0 <= i < s.table().len() && (#[trigger] s.table()[i]).subject == subject
                && s.table()[i].resource == resource && gate_verdict(
                s,
                s.table()[i].cap_id,
                verb,
                now,
            ) == Err::<bool, GateError>(GateError::Exhausted),
{
    search_is_sound(s, s.table(), None, subject, resource, verb, now);
}

/// The live capabilities of a subject, as they are listed.
pub open spec fn listed_for(s: &CapStore, subject: Seq<char>, now: u64) -> Seq<Grant> {
    s.table().filter(|g: Grant| is_live_for(g, s.alive(), subject, now))
}

/// Every capability that is listed for a subject has that subject as its grantee: it is a grant of
/// the table to that subject, it is not revoked, its holding is live and its end is not past; and
/// every such grant is listed.
pub proof fn the_listed_are_the_subjects_own(
    s: &CapStore,
    subject: Seq<char>,
    now: u64,
    g: Grant,
)
    ensures
        listed_for(s, subject, now).contains(g) <==> {
            &&& s.table().contains(g)
            &&& g.subject == subject
            &&& !g.revoked
            &&& !expired(g, now)
            &&& s.alive().contains(g.cap_id)
        },
        forall|i: int|
            0 <= i < listed_for(s, subject, now).len() ==> (#[trigger] listed_for(
                s,
                subject,
                now,
            )[i]).subject == subject,
{
    let keep = |g: Grant| is_live_for(g, s.alive(), subject, now);
    let listed = listed_for(s, subject, now);
    let t = s.table();
    if listed.contains(g) {
        t.lemma_filter_contains_rev(keep, g);
        let i = listed.index_of(g);
        t.lemma_filter_pred(keep, i);
        assert(keep(listed[i]));
    }
    if t.contains(g) && keep(g) {
        let i = t.index_of(g);
        t.lemma_filter_contains(keep, i);
    }
    if !expired(g, now) {
        if let Some(e) = g.expires_at {
            if now > e {
                assert(g.expires_at == Some(e) && e < now);
            }
        }
    }
    assert forall|i: int| 0 <= i < listed.len() implies (#[trigger] listed[i]).subject
        == subject by {
        t.lemma_filter_pred(keep, i);
        assert(keep(listed[i]));
    }
}

/// No capability is listed for two subjects, and what is listed the issuer knows as neither gone nor
/// expired.
pub proof fn lists_are_disjoint(
    s: &CapStore,
    one: Seq<char>,
    two: Seq<char>,
    now: u64,
    g: Grant,
    verb: Seq<char>,
)
    requires
        s.solvent(),
        listed_for(s, one, now).contains(g),
    ensures
        listed_for(s, two, now).contains(g) ==> one == two,
        gate_verdict(s, g.cap_id, verb, now) is Ok <==> allows(
            g,
            verb,
            s.spent(g.cap_id, verb),
            now,
        ),
{
    the_listed_are_the_subjects_own(s, one, now, g);
    the_listed_are_the_subjects_own(s, two, now, g);
    let i = s.table().index_of(g);
    assert(s.table()[i] == g);
    the_gate_lets_pass(s, g.cap_id, verb, now, i);
}

/// Descent is by derivation: a grant descends from itself, whatever is derived from a descendant
/// descends, a descendant of a descendant descends, and nothing descends otherwise.
pub proof fn descent_is_by_derivation(
    t: Seq<Grant>,
    root: Seq<char>,
    mid: Seq<char>,
    i: int,
)
    requires
        0 <= i < t.len(),
    ensures
        descends(t, root, root),
        t[i].parent matches Some(p) ==> (descends(t, root, p) ==> descends(t, root, t[i].cap_id)),
        descends(t, root, mid) && descends(t, mid, t[i].cap_id) ==> descends(t, root, t[i].cap_id),
        descends(t, root, mid) && mid != root ==> exists|k: int|
            0 <= k < t.len() && (#[trigger] t[k]).cap_id == mid && (t[k].parent matches Some(p)
                && descends(t, root, p)),
{
    assert(reached(t, root, root, 0));
    if let Some(p) = t[i].parent {
        if descends(t, root, p) {
            let n = choose|n: nat| #[trigger] reached(t, root, p, n);
            assert(reached(t, root, t[i].cap_id, n + 1));
        }
    }
    if descends(t, root, mid) && descends(t, mid, t[i].cap_id) {
        let a = choose|n: nat| #[trigger] reached(t, root, mid, n);
        let b = choose|n: nat| #[trigger] reached(t, mid, t[i].cap_id, n);
        reached_on(t, root, mid, t[i].cap_id, a, b);
    }
    if descends(t, root, mid) && mid != root {
        let n = choose|n: nat| #[trigger] reached(t, root, mid, n);
        let k = choose|k: int|
            0 <= k < t.len() && (#[trigger] t[k]).cap_id == mid && t[k].parent is Some && reached(
                t,
                root,
                t[k].parent->0,
                (n - 1) as nat,
            );
        assert(t[k].cap_id == mid);
        assert(descends(t, root, t[k].parent->0));
    }
}

proof fn reached_on(
    t: Seq<Grant>,
    root: Seq<char>,
    mid: Seq<char>,
    id: Seq<char>,
    a: nat,
    b: nat,
)
    requires
        reached(t, root, mid, a),
        reached(t, mid, id, b),
    ensures
        reached(t, root, id, a + b),
    decreases b,
{
    if b > 0 {
        let k = choose|k: int|
            0 <= k < t.len() && (#[trigger] t[k]).cap_id == id && t[k].parent is Some && reached(
                t,
                mid,
                t[k].parent->0,
                (b - 1) as nat,
            );
        reached_on(t, root, mid, t[k].parent->0, a, (b - 1) as nat);
        assert((a + b - 1) as nat == a + (b - 1) as nat);
        assert(t[k].cap_id == id);
    }
}

/// A revocation takes the grant and whatever was derived from it, and nothing else: each of those is
/// revoked afterwards, every other grant is revoked only if it was before, and a revocation
/// changes nothing else of any grant.
pub proof fn a_revocation_takes_the_descendants(t: Seq<Grant>, root: Seq<char>, i: int)
    requires
        0 <= i < t.len(),
    ensures
        ({
            let after = revoked_table(t, root);
            &&& after.len() == t.len()
            &&& after[i].revoked <==> t[i].revoked || descends(t, root, t[i].cap_id)
            &&& t[i].cap_id == root ==> after[i].revoked
            &&& after[i].cap_id == t[i].cap_id
            &&& after[i].subject == t[i].subject
            &&& after[i].resource == t[i].resource
            &&& after[i].verbs == t[i].verbs
            &&& after[i].counts == t[i].counts
            &&& after[i].expires_at == t[i].expires_at
            &&& after[i].parent == t[i].parent
            &&& forall|k: int|
                0 <= k < t.len() && after[i].revoked && (#[trigger] t[k]).parent == Some(
                    t[i].cap_id,
                ) && descends(t, root, t[i].cap_id) ==> after[k].revoked
        }),
{
    descent_is_by_derivation(t, root, root, i);
    assert forall|k: int|
        0 <= k < t.len() && (#[trigger] t[k]).parent == Some(t[i].cap_id) && descends(
            t,
            root,
            t[i].cap_id,
        ) implies revoked_table(t, root)[k].revoked by {
        descent_is_by_derivation(t, root, root, k);
    }
}

/// How many places of two tables differ in whether the grant there is revoked.
pub open spec fn newly(a: Seq<Grant>, b: Seq<Grant>, n: nat) -> nat
    decreases n,
{
    if n == 0 {
        0
    } else {
        newly(a, b, (n - 1) as nat) + if !a[n - 1].revoked && b[n - 1].revoked {
            1nat
        } else {
            0nat
        }
    }
}

/// The number that a revocation tells is the number of grants that it turned from not revoked to
/// revoked.
pub proof fn a_revocation_counts_what_it_took(t: Seq<Grant>, root: Seq<char>, n: nat)
    requires
        n <= t.len(),
    ensures
        newly_revoked(t.take(n as int), t, root) == newly(t, revoked_table(t, root), n),
        n == t.len() ==> newly_revoked(t, t, root) == newly(t, revoked_table(t, root), n),
    decreases n,
{
    if n > 0 {
        a_revocation_counts_what_it_took(t, root, (n - 1) as nat);
        assert(t.take(n as int).drop_last() =~= t.take(n - 1));
        assert(t.take(n as int).last() == t[n - 1]);
    }
    if n == t.len() {
        assert(t.take(n as int) =~= t);
    }
}

/// Limits are ordered: of two limits one is wider or they are the same, never both ways, no limit
/// is wider than every limit, and of two numbers the larger is the wider.
pub proof fn limits_are_ordered(a: Option<u64>, b: Option<u64>, c: Option<u64>)
    ensures
        wider(a, b) || wider(b, a) || a == b,
        !(wider(a, b) && wider(b, a)),
        !wider(a, a),
        wider(a, b) && wider(b, c) ==> wider(a, c),
        a is None && b is Some ==> wider(a, b),
        a matches Some(x) ==> (b matches Some(y) ==> (wider(a, b) <==> x > y)),
{
}

/// Of two grants the one with more uses left is the stronger, and of two with as many the one that
/// lasts longer.
pub proof fn strength_is_uses_and_time(a: Best, b: Best)
    ensures
        wider(a.counts, b.counts) ==> stronger(a, b) && !stronger(b, a),
        a.counts == b.counts ==> (stronger(a, b) <==> wider(a.expires_at, b.expires_at)),
        !stronger(a, a),
        !(stronger(a, b) && stronger(b, a)),
{
}

/// What is left of a counted verb and what was spent of it make up its count, and a verb that is not
/// counted has no limit.
pub proof fn the_balance_adds_up(s: &CapStore, i: int, verb: Seq<char>)
    requires
        s.solvent(),
        0 <= i < s.table().len(),
    ensures
        ({
            let g = s.table()[i];
            &&& left_of(s, g, verb) is Some <==> g.counts.contains_key(verb)
            &&& left_of(s, g, verb) matches Some(n) ==> n + s.spent(g.cap_id, verb)
                == g.counts[verb]
        }),
{
    let g = s.table()[i];
    if g.counts.contains_key(verb) {
        assert(s.spent(g.cap_id, verb) <= g.counts[verb]);
    }
}

/// What a capability gives of a verb: it is a capability of the driver that the verb names, it has
/// the verb, and a holding of it is in use; what is told are its balance, its end and the first
/// such holding.
pub proof fn what_a_capability_gives(s: &CapStore, hs: Seq<Held>, g: Grant, verb: Seq<char>)
    ensures
        given(s, hs, g, verb) matches Some(b) ==> {
            &&& exists|driver: Seq<char>, short: Seq<char>|
                #![trigger driver + short]
                g.resource == "driver:"@ + driver && verb == driver + "::"@ + short
                    && g.verbs.contains(short) && b.counts == left_of(s, g, short)
            &&& b.expires_at == g.expires_at
            &&& exists|k: int|
                0 <= k < hs.len() && holds_cap(#[trigger] hs[k], g.cap_id) && hs[k].id == b.holding
        },
{
    if let Some(b) = given(s, hs, g, verb) {
        let prefix = "driver:"@;
        let driver = g.resource.skip(prefix.len() as int);
        let head = driver + "::"@;
        let short = verb.skip(head.len() as int);
        assert(g.resource =~= prefix + driver);
        assert(verb =~= driver + "::"@ + short);
        assert(driver + short == driver + short);
        the_holding_is_one_of_its_own(hs, g.cap_id);
    }
}

/// The holding of a capability is one that holds it, and it is wanting only where none does.
pub proof fn the_holding_is_one_of_its_own(hs: Seq<Held>, account: Seq<char>)
    ensures
        holding_for(hs, account) matches Some(id) ==> exists|k: int|
            0 <= k < hs.len() && holds_cap(#[trigger] hs[k], account) && hs[k].id == id,
        holding_for(hs, account) is None ==> forall|k: int|
            0 <= k < hs.len() ==> !holds_cap(#[trigger] hs[k], account),
    decreases hs.len(),
{
    if hs.len() > 0 {
        let rest = hs.drop_first();
        the_holding_is_one_of_its_own(rest, account);
        if !holds_cap(hs[0], account) {
            match holding_for(rest, account) {
                Some(id) => {
                    let k = choose|k: int|
                        0 <= k < rest.len() && holds_cap(#[trigger] rest[k], account) && rest[k].id
                            == id;
                    assert(hs[k + 1] == rest[k]);
                },
                None => {
                    assert forall|k: int| 0 <= k < hs.len() implies !holds_cap(
                        #[trigger] hs[k],
                        account,
                    ) by {
                        if k > 0 {
                            assert(hs[k] == rest[k - 1]);
                        }
                    }
                },
            }
        }
    }
}

/// A derivation that is refused changes nothing: there is none from a parent that is unknown or dead, nor
/// one that would not narrow it.
pub proof fn a_refused_derivation_changes_nothing(
    a: &CapStore,
    b: &CapStore,
    r: Result<Capability, KernelError>,
    parent_id: Seq<char>,
    child: spec_fn(Grant) -> Grant,
)
    requires
        derived(a, b, r, parent_id, child),
    ensures
        r is Err ==> *b == *a,
        find_grant(a.table(), parent_id) is None ==> r is Err,
        !a.alive().contains(parent_id) ==> r is Err,
        find_grant(a.table(), parent_id) matches Some(p) ==> (!narrows(child(p), p) ==> r is Err),
{
}

/// Where no live grant names the subject, the resource and the verb, nothing else is told than that there
/// is no capability.
pub proof fn the_dead_are_not_asked(
    s: &CapStore,
    rest: Seq<Grant>,
    subject: Seq<char>,
    resource: Seq<char>,
    verb: Seq<char>,
    now: u64,
)
    requires
        forall|j: int|
            0 <= j < rest.len() ==> (#[trigger] rest[j]).revoked || rest[j].subject != subject
                || rest[j].resource != resource || !rest[j].verbs.contains(verb)
                || !s.alive().contains(rest[j].cap_id),
    ensures
        search_verdict(s, rest, None, subject, resource, verb, now) == Err::<
            Seq<char>,
            Option<(Seq<char>, GateError)>,
        >(None),
        rest == s.table() ==> authorized_for(s, subject, resource, verb, now) == Err::<
            Seq<char>,
            Refusal,
        >(Refusal::NoCapability { subject, resource, verb }),
    decreases rest.len(),
{
    if rest.len() > 0 {
        assert(rest[0] == rest[0]);
        let t = rest.drop_first();
        assert forall|j: int| 0 <= j < t.len() implies (#[trigger] t[j]).revoked || t[j].subject
            != subject || t[j].resource != resource || !t[j].verbs.contains(verb)
            || !s.alive().contains(t[j].cap_id) by {
            assert(t[j] == rest[j + 1]);
        }
        the_dead_are_not_asked(s, t, subject, resource, verb, now);
    }
}

} // verus!

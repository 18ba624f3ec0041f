//! Capabilities with counting constraints.
//!
//! A budget that a user has consented to is a counting capability: `counts` bounds how often a
//! verb may be exercised. A verb without a count is unlimited.

use crate::strmap::{increasing, listed_at, StrMap, StrSet};
use vstd::prelude::*;

verus! {

/// The limits of a capability.
#[derive(Debug, PartialEq, Eq)]
pub struct Constraints {
    /// Seconds since the epoch; without an end where there is none.
    pub expires_at: Option<u64>,
    pub counts: StrMap<u64>,
}

impl Clone for Constraints {
    fn clone(&self) -> (r: Self)
        ensures
            r.expires_at == self.expires_at,
            r.counts@ == self.counts@,
    {
        Constraints { expires_at: self.expires_at, counts: self.counts.clone() }
    }
}

impl Default for Constraints {
    fn default() -> (r: Self)
        ensures
            r.expires_at is None,
            r.counts@ == Map::<Seq<char>, u64>::empty(),
    {
        Constraints { expires_at: None, counts: StrMap::new() }
    }
}

/// A grant of verbs of a resource to a subject.
#[derive(Debug, PartialEq, Eq)]
pub struct Capability {
    pub cap_id: String,
    pub subject: String,
    pub resource: String,
    pub verbs: StrSet,
    pub constraints: Constraints,
    /// The capability that this one was derived from.
    pub parent: Option<String>,
    pub revoked: bool,
}

/// What a capability says.
#[verifier::ext_equal]
pub struct Grant {
    pub cap_id: Seq<char>,
    pub subject: Seq<char>,
    pub resource: Seq<char>,
    pub verbs: Set<Seq<char>>,
    pub expires_at: Option<u64>,
    pub counts: Map<Seq<char>, u64>,
    pub parent: Option<Seq<char>>,
    pub revoked: bool,
}

/// What an optional string says.
pub open spec fn text_view(s: Option<String>) -> Option<Seq<char>> {
    match s {
        Some(t) => Some(t@),
        None => None,
    }
}

impl View for Capability {
    type V = Grant;

    open spec fn view(&self) -> Grant {
        Grant {
            cap_id: self.cap_id@,
            subject: self.subject@,
            resource: self.resource@,
            verbs: self.verbs@,
            expires_at: self.constraints.expires_at,
            counts: self.constraints.counts@,
            parent: text_view(self.parent),
            revoked: self.revoked,
        }
    }
}

impl Clone for Capability {
    fn clone(&self) -> (r: Self)
        ensures
            r@ == self@,
    {
        let parent: Option<String> = match &self.parent {
            Some(p) => Some(p.clone()),
            None => None,
        };
        Capability {
            cap_id: self.cap_id.clone(),
            subject: self.subject.clone(),
            resource: self.resource.clone(),
            verbs: self.verbs.clone(),
            constraints: self.constraints.clone(),
            parent,
            revoked: self.revoked,
        }
    }
}

/// Whether a grant keeps within the end of another one.
pub open spec fn ends_within(child: Option<u64>, parent: Option<u64>) -> bool {
    match parent {
        None => true,
        Some(p) => child matches Some(c) && c <= p,
    }
}

/// Whether a grant narrows another one in every respect. A verb without a count is unlimited:
/// where the parent counts a verb, a child that keeps the verb counts it too, and no higher;
/// and a count speaks of a verb that the parent grants or counts.
pub open spec fn narrows(child: Grant, parent: Grant) -> bool {
    &&& child.verbs.subset_of(parent.verbs)
    &&& forall|v: Seq<char>| #[trigger]
        child.counts.contains_key(v) ==> if parent.counts.contains_key(v) {
            child.counts[v] <= parent.counts[v]
        } else {
            parent.verbs.contains(v)
        }
    &&& forall|v: Seq<char>| #[trigger]
        parent.counts.contains_key(v) && child.verbs.contains(v) ==> child.counts.contains_key(v)
    &&& ends_within(child.expires_at, parent.expires_at)
}

impl Capability {
    /// Whether this capability may be derived from another one: it must narrow it in every
    /// respect.
    pub fn is_valid_attenuation_of(&self, parent: &Capability) -> (r: bool)
        ensures
            r == narrows(self@, parent@),
    {
        if !self.verbs.is_subset(&parent.verbs) {
            return false;
        }
        let counts: &StrMap<u64> = &self.constraints.counts;
        let n: usize = counts.len();
        let ghost p = counts.pairs();
        let mut i: usize = 0;
        while i < n
            invariant
                i <= n,
                n == p.len(),
                p == counts.pairs(),
                increasing(p),
                self.constraints.counts == counts,
                forall|j: int|
                    0 <= j < i ==> if parent@.counts.contains_key((#[trigger] p[j]).0) {
                        p[j].1 <= parent@.counts[p[j].0]
                    } else {
                        parent@.verbs.contains(p[j].0)
                    },
            decreases n - i,
        {
            proof {
                listed_at(p, i as int);
            }
            let key: &String = counts.key_at(i);
            let ok: bool = match parent.constraints.counts.get(key.as_str()) {
                Some(pn) => *counts.value_at(i) <= *pn,
                None => parent.verbs.contains(key.as_str()),
            };
            if !ok {
                assert(self@.counts.contains_key(p[i as int].0));
                return false;
            }
            i = i + 1;
        }
        assert forall|v: Seq<char>| #[trigger] self@.counts.contains_key(v) implies if parent@.counts.contains_key(
        v) {
            self@.counts[v] <= parent@.counts[v]
        } else {
            parent@.verbs.contains(v)
        } by {
            let j = choose|j: int| 0 <= j < p.len() && (#[trigger] p[j]).0 == v;
            assert(p[j].0 == v);
            listed_at(p, j);
        }
        let theirs: &StrMap<u64> = &parent.constraints.counts;
        let m: usize = theirs.len();
        let ghost q = theirs.pairs();
        let mut k: usize = 0;
        while k < m
            invariant
                k <= m,
                m == q.len(),
                q == theirs.pairs(),
                increasing(q),
                parent.constraints.counts == theirs,
                forall|j: int|
                    0 <= j < k && self@.verbs.contains((#[trigger] q[j]).0)
                        ==> self@.counts.contains_key(q[j].0),
            decreases m - k,
        {
            proof {
                listed_at(q, k as int);
            }
            let key: &String = theirs.key_at(k);
            if self.verbs.contains(key.as_str()) && !self.constraints.counts.contains_key(
                key.as_str(),
            ) {
                assert(parent@.counts.contains_key(q[k as int].0));
                return false;
            }
            k = k + 1;
        }
        assert forall|v: Seq<char>| #[trigger]
            parent@.counts.contains_key(v) && self@.verbs.contains(
                v,
            ) implies self@.counts.contains_key(v) by {
            let j = choose|j: int| 0 <= j < q.len() && (#[trigger] q[j]).0 == v;
            assert(q[j].0 == v);
        }
        match (self.constraints.expires_at, parent.constraints.expires_at) {
            (_, None) => true,
            (Some(c), Some(p)) => c <= p,
            (None, Some(_)) => false,
        }
    }
}

/// Every capability narrows itself.
pub proof fn narrowing_is_reflexive(a: Grant)
    ensures
        narrows(a, a),
{
}

/// A chain of derivations narrows from its end to its start: no number of steps widens a grant.
pub proof fn narrowing_is_transitive(a: Grant, b: Grant, c: Grant)
    requires
        narrows(a, b),
        narrows(b, c),
    ensures
        narrows(a, c),
{
    assert forall|v: Seq<char>| #[trigger] a.counts.contains_key(v) implies if c.counts.contains_key(
    v) {
        a.counts[v] <= c.counts[v]
    } else {
        c.verbs.contains(v)
    } by {
        if b.counts.contains_key(v) {
        } else {
            assert(b.verbs.contains(v));
        }
    }
    assert forall|v: Seq<char>| #[trigger]
        c.counts.contains_key(v) && a.verbs.contains(v) implies a.counts.contains_key(v) by {
        assert(b.verbs.contains(v));
        assert(b.counts.contains_key(v));
    }
}

} // verus!

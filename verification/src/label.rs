//! The information-flow label: a product of two set lattices.
//!
//! The first part holds confidentiality tags (empty means public), the second one the
//! origins that have touched the data (empty means trusted). A join is a union in both.

use crate::strmap::StrSet;
use vstd::prelude::*;

verus! {

/// A confidentiality and integrity label.
#[derive(Debug, PartialEq, Eq)]
pub struct Label {
    pub conf: StrSet,
    pub integ: StrSet,
}

/// What a label says: the two sets of tags.
#[verifier::ext_equal]
pub struct Tags {
    pub conf: Set<Seq<char>>,
    pub integ: Set<Seq<char>>,
}

impl View for Label {
    type V = Tags;

    open spec fn view(&self) -> Tags {
        Tags { conf: self.conf@, integ: self.integ@ }
    }
}

/// The bottom of the lattice: public and trusted.
pub open spec fn bottom() -> Tags {
    Tags { conf: Set::empty(), integ: Set::empty() }
}

/// The least label above both.
pub open spec fn joined(a: Tags, b: Tags) -> Tags {
    Tags { conf: a.conf.union(b.conf), integ: a.integ.union(b.integ) }
}

/// The order of the lattice: inclusion in both parts.
pub open spec fn below(a: Tags, b: Tags) -> bool {
    a.conf.subset_of(b.conf) && a.integ.subset_of(b.integ)
}

impl Label {
    /// The label of public, trusted data.
    pub fn public_trusted() -> (l: Self)
        ensures
            l@ == bottom(),
    {
        Label { conf: StrSet::new(), integ: StrSet::new() }
    }

    /// The label of public data with one origin.
    pub fn with_integ(tag: &str) -> (l: Self)
        ensures
            l@ == (Tags { conf: Set::empty(), integ: Set::empty().insert(tag@) }),
    {
        Label { conf: StrSet::new(), integ: StrSet::singleton(tag.to_owned()) }
    }

    /// The label of trusted data with one confidentiality tag.
    pub fn with_conf(tag: &str) -> (l: Self)
        ensures
            l@ == (Tags { conf: Set::empty().insert(tag@), integ: Set::empty() }),
    {
        Label { conf: StrSet::singleton(tag.to_owned()), integ: StrSet::new() }
    }

    /// The union in both parts.
    pub fn join(&self, other: &Label) -> (l: Label)
        ensures
            l@ == joined(self@, other@),
    {
        Label { conf: self.conf.union(&other.conf), integ: self.integ.union(&other.integ) }
    }

    /// Inclusion in both parts.
    pub fn leq(&self, other: &Label) -> (r: bool)
        ensures
            r == below(self@, other@),
    {
        self.conf.is_subset(&other.conf) && self.integ.is_subset(&other.integ)
    }

    /// Whether the label is the bottom of the lattice.
    pub fn is_public_trusted(&self) -> (r: bool)
        ensures
            r == (self@ == bottom()),
    {
        self.conf.is_empty() && self.integ.is_empty()
    }
}

impl Clone for Label {
    fn clone(&self) -> (l: Self)
        ensures
            l@ == self@,
    {
        Label { conf: self.conf.clone(), integ: self.integ.clone() }
    }
}

impl Default for Label {
    fn default() -> (l: Self)
        ensures
            l@ == bottom(),
    {
        Label::public_trusted()
    }
}

/// Joining does not depend on the order of its operands, on how they are grouped, or on
/// repetition, and the bottom adds nothing.
pub proof fn join_laws(a: Tags, b: Tags, c: Tags)
    ensures
        joined(a, b) == joined(b, a),
        joined(joined(a, b), c) == joined(a, joined(b, c)),
        joined(a, a) == a,
        joined(a, bottom()) == a,
{
    assert(joined(a, b) =~= joined(b, a));
    assert(joined(joined(a, b), c) =~= joined(a, joined(b, c)));
    assert(joined(a, a) =~= a);
    assert(joined(a, bottom()) =~= a);
}

/// The order is a partial order with a least element.
pub proof fn order_laws(a: Tags, b: Tags, c: Tags)
    ensures
        below(a, a),
        below(a, b) && below(b, a) ==> a == b,
        below(a, b) && below(b, c) ==> below(a, c),
        below(bottom(), a),
{
    if below(a, b) && below(b, a) {
        assert(a =~= b);
    }
}

/// A join is the least label above its operands, and data below a label joins into it
/// without a trace: no join ever takes a tag away.
pub proof fn join_is_least_upper_bound(a: Tags, b: Tags, c: Tags)
    ensures
        below(a, joined(a, b)),
        below(b, joined(a, b)),
        below(a, c) && below(b, c) ==> below(joined(a, b), c),
        below(a, b) <==> joined(a, b) == b,
{
    if below(a, b) {
        assert(joined(a, b) =~= b);
    }
}

} // verus!

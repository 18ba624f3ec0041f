//! Maps and sets keyed by strings, kept in the lexicographic order of their keys.

use crate::text::{lex_irreflexive, lex_lt, lex_total, lex_transitive, relate, Rel};
use vstd::prelude::*;

verus! {

/// A map from strings, held as a vector of entries with strictly increasing keys.
#[derive(Debug, PartialEq, Eq)]
pub struct StrMap<V> {
    entries: Vec<(String, V)>,
}

/// The pairs have strictly increasing keys.
pub open spec fn increasing<V>(s: Seq<(Seq<char>, V)>) -> bool {
    forall|i: int, j: int| 0 <= i < j < s.len() ==> lex_lt(#[trigger] s[i].0, #[trigger] s[j].0)
}

/// The map that a sequence of pairs with distinct keys lists.
pub open spec fn listed<V>(s: Seq<(Seq<char>, V)>) -> Map<Seq<char>, V> {
    Map::new(
        |k: Seq<char>| exists|i: int| 0 <= i < s.len() && (#[trigger] s[i]).0 == k,
        |k: Seq<char>| s[choose|i: int| 0 <= i < s.len() && (#[trigger] s[i]).0 == k].1,
    )
}

/// An increasing listing gives each of its keys the value that stands beside it.
pub proof fn listed_at<V>(s: Seq<(Seq<char>, V)>, i: int)
    requires
        increasing(s),
        0 <= i < s.len(),
    ensures
        listed(s).contains_key(s[i].0),
        listed(s)[s[i].0] == s[i].1,
{
    let k = s[i].0;
    let j = choose|j: int| 0 <= j < s.len() && (#[trigger] s[j]).0 == k;
    lex_irreflexive(k);
    if j < i {
        assert(lex_lt(s[j].0, s[i].0));
    } else if i < j {
        assert(lex_lt(s[i].0, s[j].0));
    }
}

/// A map has one increasing listing: the order of a walk over it is settled by its contents.
pub proof fn listing_unique<V>(s: Seq<(Seq<char>, V)>, t: Seq<(Seq<char>, V)>)
    requires
        increasing(s),
        increasing(t),
        listed(s) == listed(t),
    ensures
        s == t,
    decreases s.len(),
{
    if s.len() == 0 {
        if t.len() > 0 {
            listed_at(t, 0);
            assert(listed(s).contains_key(t[0].0));
        }
        assert(s =~= t);
    } else if t.len() == 0 {
        listed_at(s, 0);
        assert(listed(t).contains_key(s[0].0));
    } else {
        let a = s.last();
        let b = t.last();
        let n = s.len() - 1;
        let m = t.len() - 1;
        listed_at(s, n);
        listed_at(t, m);
        assert(listed(t).contains_key(a.0));
        assert(listed(s).contains_key(b.0));
        let i = choose|i: int| 0 <= i < t.len() && (#[trigger] t[i]).0 == a.0;
        let j = choose|j: int| 0 <= j < s.len() && (#[trigger] s[j]).0 == b.0;
        lex_total(a.0, b.0);
        if i < m {
            assert(lex_lt(t[i].0, t[m].0));
        }
        if j < n {
            assert(lex_lt(s[j].0, s[n].0));
        }
        assert(a.0 == b.0);
        assert(a.1 == b.1);
        let s1 = s.drop_last();
        let t1 = t.drop_last();
        assert(increasing(s1)) by {
            assert forall|i: int, j: int| 0 <= i < j < s1.len() implies lex_lt(
                #[trigger] s1[i].0,
                #[trigger] s1[j].0,
            ) by {
                assert(lex_lt(s[i].0, s[j].0));
            }
        }
        assert(increasing(t1)) by {
            assert forall|i: int, j: int| 0 <= i < j < t1.len() implies lex_lt(
                #[trigger] t1[i].0,
                #[trigger] t1[j].0,
            ) by {
                assert(lex_lt(t[i].0, t[j].0));
            }
        }
        listed_drop_last(s);
        listed_drop_last(t);
        listing_unique(s1, t1);
        assert(s =~= s1.push(a));
        assert(t =~= t1.push(b));
    }
}

/// The increasing listing of a map that has one.
pub open spec fn listing_of<V>(m: Map<Seq<char>, V>) -> Seq<(Seq<char>, V)> {
    choose|s: Seq<(Seq<char>, V)>| increasing(s) && #[trigger] listed(s) == m
}

/// An increasing listing is the listing of its map.
pub proof fn listing_is<V>(s: Seq<(Seq<char>, V)>)
    requires
        increasing(s),
    ensures
        listing_of(listed(s)) == s,
{
    listing_unique(s, listing_of(listed(s)));
}

/// The pairs with their values mapped.
pub open spec fn mapped<V, W>(s: Seq<(Seq<char>, V)>, f: spec_fn(V) -> W) -> Seq<(Seq<char>, W)> {
    Seq::new(s.len(), |i: int| (s[i].0, f(s[i].1)))
}

/// Mapping the values of a listing maps the values of its map.
pub proof fn mapped_listing<V, W>(s: Seq<(Seq<char>, V)>, f: spec_fn(V) -> W)
    requires
        increasing(s),
    ensures
        increasing(mapped(s, f)),
        listed(mapped(s, f)) == listed(s).map_values(f),
        listing_of(listed(s).map_values(f)) == mapped(s, f),
{
    let t = mapped(s, f);
    assert forall|i: int, j: int| 0 <= i < j < t.len() implies lex_lt(
        #[trigger] t[i].0,
        #[trigger] t[j].0,
    ) by {
        assert(lex_lt(s[i].0, s[j].0));
    }
    assert forall|k: Seq<char>|
        listed(t).contains_key(k) == listed(s).map_values(f).contains_key(k) by {
        if listed(t).contains_key(k) {
            let i = choose|i: int| 0 <= i < t.len() && (#[trigger] t[i]).0 == k;
            assert(s[i].0 == k);
        }
        if listed(s).contains_key(k) {
            let i = choose|i: int| 0 <= i < s.len() && (#[trigger] s[i]).0 == k;
            assert(t[i].0 == k);
        }
    }
    assert forall|k: Seq<char>| #[trigger] listed(t).contains_key(k) implies listed(t)[k] == listed(
        s,
    ).map_values(f)[k] by {
        let i = choose|i: int| 0 <= i < t.len() && (#[trigger] t[i]).0 == k;
        listed_at(t, i);
        assert(s[i].0 == k);
        listed_at(s, i);
    }
    assert(listed(t) =~= listed(s).map_values(f));
    listing_is(t);
}

/// Without its last pair a listing lists the map without the last key.
proof fn listed_drop_last<V>(s: Seq<(Seq<char>, V)>)
    requires
        increasing(s),
        s.len() > 0,
    ensures
        listed(s.drop_last()) == listed(s).remove(s.last().0),
{
    let t = s.drop_last();
    let k0 = s.last().0;
    let n = s.len() - 1;
    assert(increasing(t)) by {
        assert forall|i: int, j: int| 0 <= i < j < t.len() implies lex_lt(
            #[trigger] t[i].0,
            #[trigger] t[j].0,
        ) by {
            assert(lex_lt(s[i].0, s[j].0));
        }
    }
    assert forall|k: Seq<char>|
        listed(t).contains_key(k) == listed(s).remove(k0).contains_key(k) by {
        if listed(t).contains_key(k) {
            let i = choose|i: int| 0 <= i < t.len() && (#[trigger] t[i]).0 == k;
            assert(s[i].0 == k);
            lex_irreflexive(k);
            assert(lex_lt(s[i].0, s[n].0));
        }
        if listed(s).remove(k0).contains_key(k) {
            let i = choose|i: int| 0 <= i < s.len() && (#[trigger] s[i]).0 == k;
            assert(i != n);
            assert(t[i].0 == k);
        }
    }
    assert forall|k: Seq<char>| #[trigger] listed(t).contains_key(k) implies listed(t)[k]
        == listed(s).remove(k0)[k] by {
        let i = choose|i: int| 0 <= i < t.len() && (#[trigger] t[i]).0 == k;
        listed_at(t, i);
        assert(s[i].0 == k);
        listed_at(s, i);
        lex_irreflexive(k);
        assert(lex_lt(s[i].0, s[n].0));
    }
    assert(listed(t) =~= listed(s).remove(k0));
}

/// Putting a pair in its place adds it to the listed map.
proof fn listed_insert<V>(s: Seq<(Seq<char>, V)>, at: int, k: Seq<char>, v: V)
    requires
        increasing(s),
        0 <= at <= s.len(),
        forall|i: int| 0 <= i < at ==> lex_lt((#[trigger] s[i]).0, k),
        forall|i: int| at <= i < s.len() ==> lex_lt(k, (#[trigger] s[i]).0),
    ensures
        increasing(s.insert(at, (k, v))),
        listed(s.insert(at, (k, v))) == listed(s).insert(k, v),
        !listed(s).contains_key(k),
{
    let t = s.insert(at, (k, v));
    assert forall|i: int, j: int| 0 <= i < j < t.len() implies lex_lt(
        #[trigger] t[i].0,
        #[trigger] t[j].0,
    ) by {
        let i0 = if i < at { i } else { i - 1 };
        let j0 = if j < at { j } else { j - 1 };
        if i != at && j != at {
            assert(lex_lt(s[i0].0, s[j0].0));
        } else if i == at {
            assert(t[j] == s[j0]);
        } else {
            assert(t[i] == s[i0]);
        }
    }
    if listed(s).contains_key(k) {
        let i = choose|i: int| 0 <= i < s.len() && (#[trigger] s[i]).0 == k;
        lex_irreflexive(k);
    }
    assert forall|q: Seq<char>|
        listed(t).contains_key(q) == listed(s).insert(k, v).contains_key(q) by {
        if listed(t).contains_key(q) {
            let i = choose|i: int| 0 <= i < t.len() && (#[trigger] t[i]).0 == q;
            if i < at {
                assert(s[i].0 == q);
            } else if i > at {
                assert(s[i - 1].0 == q);
            }
        }
        if listed(s).contains_key(q) {
            let i = choose|i: int| 0 <= i < s.len() && (#[trigger] s[i]).0 == q;
            if i < at {
                assert(t[i].0 == q);
            } else {
                assert(t[i + 1].0 == q);
            }
        }
        assert(t[at].0 == k);
    }
    assert forall|q: Seq<char>| #[trigger] listed(t).contains_key(q) implies listed(t)[q] == listed(
        s,
    ).insert(k, v)[q] by {
        let i = choose|i: int| 0 <= i < t.len() && (#[trigger] t[i]).0 == q;
        listed_at(t, i);
        if i == at {
        } else {
            let i0 = if i < at { i } else { i - 1 };
            assert(s[i0] == t[i]);
            listed_at(s, i0);
        }
    }
    assert(listed(t) =~= listed(s).insert(k, v));
}

/// Exchanging a value changes the listed map at that key.
proof fn listed_update<V>(s: Seq<(Seq<char>, V)>, at: int, v: V)
    requires
        increasing(s),
        0 <= at < s.len(),
    ensures
        increasing(s.update(at, (s[at].0, v))),
        listed(s.update(at, (s[at].0, v))) == listed(s).insert(s[at].0, v),
{
    let k = s[at].0;
    let t = s.update(at, (k, v));
    assert forall|i: int, j: int| 0 <= i < j < t.len() implies lex_lt(
        #[trigger] t[i].0,
        #[trigger] t[j].0,
    ) by {
        assert(lex_lt(s[i].0, s[j].0));
        assert(t[i].0 == s[i].0);
        assert(t[j].0 == s[j].0);
    }
    assert forall|q: Seq<char>|
        listed(t).contains_key(q) == listed(s).insert(k, v).contains_key(q) by {
        if listed(t).contains_key(q) {
            let i = choose|i: int| 0 <= i < t.len() && (#[trigger] t[i]).0 == q;
            assert(s[i].0 == q);
        }
        if listed(s).contains_key(q) {
            let i = choose|i: int| 0 <= i < s.len() && (#[trigger] s[i]).0 == q;
            assert(t[i].0 == q);
        }
        assert(t[at].0 == k);
    }
    assert forall|q: Seq<char>| #[trigger] listed(t).contains_key(q) implies listed(t)[q] == listed(
        s,
    ).insert(k, v)[q] by {
        let i = choose|i: int| 0 <= i < t.len() && (#[trigger] t[i]).0 == q;
        listed_at(t, i);
        listed_at(s, i);
        if i != at {
            lex_irreflexive(q);
            if i < at {
                assert(lex_lt(s[i].0, s[at].0));
            } else {
                assert(lex_lt(s[at].0, s[i].0));
            }
        }
    }
    assert(listed(t) =~= listed(s).insert(k, v));
}

impl<V> StrMap<V> {
    /// The entries in the order of their keys.
    pub closed spec fn pairs(&self) -> Seq<(Seq<char>, V)> {
        Seq::new(self.entries@.len(), |i: int| (self.entries@[i].0@, self.entries@[i].1))
    }

    #[verifier::type_invariant]
    spec fn ordered(&self) -> bool {
        increasing(self.pairs())
    }
}

impl<V> View for StrMap<V> {
    type V = Map<Seq<char>, V>;

    open spec fn view(&self) -> Map<Seq<char>, V> {
        listed(self.pairs())
    }
}

impl<V> StrMap<V> {
    /// The map without entries.
    pub fn new() -> (m: Self)
        ensures
            m@ == Map::<Seq<char>, V>::empty(),
            m.pairs() == Seq::<(Seq<char>, V)>::empty(),
    {
        let m = StrMap { entries: Vec::new() };
        assert(m.pairs() =~= Seq::<(Seq<char>, V)>::empty());
        assert(m@ =~= Map::<Seq<char>, V>::empty());
        m
    }

    /// A walk over the entries meets the keys in increasing order.
    pub fn len(&self) -> (n: usize)
        ensures
            n == self.pairs().len(),
            increasing(self.pairs()),
            self.pairs() == listing_of(self@),
    {
        proof {
            use_type_invariant(self);
            listing_is(self.pairs());
        }
        self.entries.len()
    }

    /// The key of the entry at a position.
    pub fn key_at(&self, i: usize) -> (k: &String)
        requires
            i < self.pairs().len(),
        ensures
            k@ == self.pairs()[i as int].0,
    {
        &self.entries[i].0
    }

    /// The value of the entry at a position.
    pub fn value_at(&self, i: usize) -> (v: &V)
        requires
            i < self.pairs().len(),
        ensures
            *v == self.pairs()[i as int].1,
    {
        &self.entries[i].1
    }

    /// Where the key stands, or where it would be put.
    fn place(&self, key: &str) -> (r: (bool, usize))
        ensures
            r.0 ==> r.1 < self.pairs().len() && self.pairs()[r.1 as int].0 == key@,
            !r.0 ==> {
                &&& r.1 <= self.pairs().len()
                &&& forall|i: int| 0 <= i < r.1 ==> lex_lt((#[trigger] self.pairs()[i]).0, key@)
                &&& forall|i: int|
                    r.1 <= i < self.pairs().len() ==> lex_lt(key@, (#[trigger] self.pairs()[i]).0)
            },
    {
        proof {
            use_type_invariant(self);
        }
        let mut lo: usize = 0;
        let mut hi: usize = self.entries.len();
        while lo < hi
            invariant
                lo <= hi <= self.pairs().len(),
                self.pairs().len() == self.entries@.len(),
                increasing(self.pairs()),
                forall|i: int| 0 <= i < lo ==> lex_lt((#[trigger] self.pairs()[i]).0, key@),
                forall|i: int|
                    hi <= i < self.pairs().len() ==> lex_lt(key@, (#[trigger] self.pairs()[i]).0),
            decreases hi - lo,
        {
            let mid: usize = lo + (hi - lo) / 2;
            let ghost p = self.pairs();
            assert(p[mid as int].0 == self.entries@[mid as int].0@);
            match relate(self.entries[mid].0.as_str(), key) {
                Rel::Same => {
                    return (true, mid);
                },
                Rel::Before => {
                    assert forall|i: int| 0 <= i < mid + 1 implies lex_lt(
                        (#[trigger] self.pairs()[i]).0,
                        key@,
                    ) by {
                        if i < mid {
                            assert(lex_lt(p[i].0, p[mid as int].0));
                            lex_transitive(p[i].0, p[mid as int].0, key@);
                        }
                    }
                    lo = mid + 1;
                },
                Rel::After => {
                    assert forall|i: int| mid <= i < self.pairs().len() implies lex_lt(
                        key@,
                        (#[trigger] self.pairs()[i]).0,
                    ) by {
                        if mid < i {
                            assert(lex_lt(p[mid as int].0, p[i].0));
                            lex_transitive(key@, p[mid as int].0, p[i].0);
                        }
                    }
                    hi = mid;
                },
            }
        }
        (false, lo)
    }

    /// The value under a key.
    pub fn get(&self, key: &str) -> (r: Option<&V>)
        ensures
            match r {
                Some(v) => self@.contains_key(key@) && self@[key@] == *v,
                None => !self@.contains_key(key@),
            },
    {
        let (found, at) = self.place(key);
        proof {
            use_type_invariant(self);
        }
        if found {
            proof {
                listed_at(self.pairs(), at as int);
            }
            Some(&self.entries[at].1)
        } else {
            proof {
                if self@.contains_key(key@) {
                    let i = choose|i: int|
                        0 <= i < self.pairs().len() && (#[trigger] self.pairs()[i]).0 == key@;
                    lex_irreflexive(key@);
                }
            }
            None
        }
    }

    /// Whether a key has a value.
    pub fn contains_key(&self, key: &str) -> (r: bool)
        ensures
            r == self@.contains_key(key@),
    {
        self.get(key).is_some()
    }

    /// Gives a key a value, in place of the one that it had.
    pub fn insert(&mut self, key: String, value: V)
        ensures
            final(self)@ == old(self)@.insert(key@, value),
    {
        let (found, at) = self.place(key.as_str());
        proof {
            use_type_invariant(&*self);
        }
        let ghost before = self.pairs();
        let mut entries: Vec<(String, V)> = Vec::new();
        std::mem::swap(&mut entries, &mut self.entries);
        if found {
            proof {
                listed_update(before, at as int, value);
            }
            entries[at] = (key, value);
            let ghost after = Seq::new(
                entries@.len(),
                |i: int| (entries@[i].0@, entries@[i].1),
            );
            assert(after =~= before.update(at as int, (key@, value)));
        } else {
            proof {
                listed_insert(before, at as int, key@, value);
            }
            entries.insert(at, (key, value));
            let ghost after = Seq::new(
                entries@.len(),
                |i: int| (entries@[i].0@, entries@[i].1),
            );
            assert(after =~= before.insert(at as int, (key@, value)));
        }
        self.entries = entries;
    }
}

impl<V> Default for StrMap<V> {
    fn default() -> (m: Self)
        ensures
            m@ == Map::<Seq<char>, V>::empty(),
    {
        StrMap::new()
    }
}

/// Taking one more pair of an increasing listing.
proof fn listed_take<V>(s: Seq<(Seq<char>, V)>, n: int)
    requires
        increasing(s),
        0 <= n < s.len(),
    ensures
        listed(s.take(n + 1)) == listed(s.take(n)).insert(s[n].0, s[n].1),
{
    let t = s.take(n);
    assert(increasing(t)) by {
        assert forall|i: int, j: int| 0 <= i < j < t.len() implies lex_lt(
            #[trigger] t[i].0,
            #[trigger] t[j].0,
        ) by {
            assert(lex_lt(s[i].0, s[j].0));
        }
    }
    assert forall|i: int| 0 <= i < n implies lex_lt((#[trigger] t[i]).0, s[n].0) by {
        assert(lex_lt(s[i].0, s[n].0));
    }
    listed_insert(t, n, s[n].0, s[n].1);
    assert(s.take(n + 1) =~= t.insert(n, (s[n].0, s[n].1)));
}

impl Clone for StrMap<u64> {
    fn clone(&self) -> (r: Self)
        ensures
            r@ == self@,
    {
        let mut r: StrMap<u64> = StrMap::new();
        let n: usize = self.len();
        let mut i: usize = 0;
        assert(self.pairs().take(0) =~= Seq::empty());
        assert(listed(self.pairs().take(0)) =~= Map::empty());
        while i < n
            invariant
                i <= n,
                n == self.pairs().len(),
                increasing(self.pairs()),
                r@ == listed(self.pairs().take(i as int)),
            decreases n - i,
        {
            proof {
                listed_take(self.pairs(), i as int);
            }
            r.insert(self.key_at(i).clone(), *self.value_at(i));
            i = i + 1;
        }
        assert(self.pairs().take(n as int) =~= self.pairs());
        r
    }
}

/// A set of strings, kept in their lexicographic order.
#[derive(Debug, PartialEq, Eq)]
pub struct StrSet {
    members: StrMap<()>,
}

impl View for StrSet {
    type V = Set<Seq<char>>;

    closed spec fn view(&self) -> Set<Seq<char>> {
        self.members@.dom()
    }
}

impl StrSet {
    /// The members in increasing order.
    pub closed spec fn items(&self) -> Seq<Seq<char>> {
        Seq::new(self.members.pairs().len(), |i: int| self.members.pairs()[i].0)
    }

    /// The set without members.
    pub fn new() -> (s: Self)
        ensures
            s@ == Set::<Seq<char>>::empty(),
    {
        let s = StrSet { members: StrMap::new() };
        assert(s@ =~= Set::<Seq<char>>::empty());
        s
    }

    /// The set with one member.
    pub fn singleton(item: String) -> (s: Self)
        ensures
            s@ == Set::<Seq<char>>::empty().insert(item@),
    {
        let mut s = StrSet::new();
        s.insert(item);
        s
    }

    /// The number of members. The members in order are those of the set.
    pub fn len(&self) -> (n: usize)
        ensures
            n == self.items().len(),
            forall|i: int, j: int|
                0 <= i < j < self.items().len() ==> lex_lt(
                    #[trigger] self.items()[i],
                    #[trigger] self.items()[j],
                ),
            forall|k: Seq<char>| #[trigger] self@.contains(k) <==> self.items().contains(k),
    {
        let n: usize = self.members.len();
        proof {
            let p = self.members.pairs();
            assert forall|i: int, j: int| 0 <= i < j < self.items().len() implies lex_lt(
                #[trigger] self.items()[i],
                #[trigger] self.items()[j],
            ) by {
                assert(lex_lt(p[i].0, p[j].0));
            }
            assert forall|k: Seq<char>| #[trigger]
                self@.contains(k) <==> self.items().contains(k) by {
                if self@.contains(k) {
                    let i = choose|i: int| 0 <= i < p.len() && (#[trigger] p[i]).0 == k;
                    assert(self.items()[i] == k);
                }
                if self.items().contains(k) {
                    let i = self.items().index_of(k);
                    assert(p[i].0 == k);
                }
            }
        }
        n
    }

    /// The member at a position of the order.
    pub fn item_at(&self, i: usize) -> (k: &String)
        requires
            i < self.items().len(),
        ensures
            k@ == self.items()[i as int],
    {
        self.members.key_at(i)
    }

    /// Whether the set has no member.
    pub fn is_empty(&self) -> (r: bool)
        ensures
            r == (self@ == Set::<Seq<char>>::empty()),
    {
        let n: usize = self.len();
        proof {
            if n == 0 {
                assert(self@ =~= Set::<Seq<char>>::empty());
            } else {
                assert(self.items().contains(self.items()[0]));
                assert(self@.contains(self.items()[0]));
            }
        }
        n == 0
    }

    /// Whether a string is a member.
    pub fn contains(&self, item: &str) -> (r: bool)
        ensures
            r == self@.contains(item@),
    {
        self.members.contains_key(item)
    }

    /// Adds a member.
    pub fn insert(&mut self, item: String)
        ensures
            final(self)@ == old(self)@.insert(item@),
    {
        let ghost key = item@;
        self.members.insert(item, ());
        assert(self@ =~= old(self)@.insert(key));
    }

    /// Adds every member of another set.
    pub fn absorb(&mut self, other: &StrSet)
        ensures
            final(self)@ == old(self)@.union(other@),
    {
        let n: usize = other.len();
        let ghost all = other.items();
        let mut i: usize = 0;
        assert(all.take(0).to_set() =~= Set::empty());
        assert(self@ =~= old(self)@.union(all.take(0).to_set()));
        while i < n
            invariant
                i <= n,
                n == other.items().len(),
                all == other.items(),
                self@ == old(self)@.union(all.take(i as int).to_set()),
            decreases n - i,
        {
            self.insert(other.item_at(i).clone());
            proof {
                let a = all.take(i as int);
                let b = all.take(i + 1);
                assert(b =~= a.push(all[i as int]));
                assert forall|k: Seq<char>|
                    b.to_set().contains(k) == a.to_set().insert(all[i as int]).contains(k) by {
                    if a.contains(k) {
                        let q = a.index_of(k);
                        assert(b[q] == k);
                    }
                    if b.contains(k) {
                        let q = b.index_of(k);
                        if q < i {
                            assert(a[q] == k);
                        }
                    }
                    assert(b[i as int] == all[i as int]);
                }
                assert(self@ =~= old(self)@.union(b.to_set()));
            }
            i = i + 1;
        }
        proof {
            assert(all.take(n as int) =~= all);
            assert(all.to_set() =~= other@) by {
                assert forall|k: Seq<char>| all.to_set().contains(k) == other@.contains(k) by {
                    assert(other@.contains(k) <==> other.items().contains(k));
                }
            }
        }
    }

    /// The members of either set.
    pub fn union(&self, other: &StrSet) -> (r: StrSet)
        ensures
            r@ == self@.union(other@),
    {
        let mut r = self.clone();
        r.absorb(other);
        r
    }

    /// Whether every member is a member of another set.
    pub fn is_subset(&self, other: &StrSet) -> (r: bool)
        ensures
            r == self@.subset_of(other@),
    {
        let n: usize = self.len();
        let mut i: usize = 0;
        while i < n
            invariant
                i <= n,
                n == self.items().len(),
                forall|k: Seq<char>| #[trigger] self@.contains(k) <==> self.items().contains(k),
                forall|j: int| 0 <= j < i ==> other@.contains(#[trigger] self.items()[j]),
            decreases n - i,
        {
            if !other.contains(self.item_at(i).as_str()) {
                assert(self.items().contains(self.items()[i as int]));
                assert(self@.contains(self.items()[i as int]));
                return false;
            }
            i = i + 1;
        }
        assert forall|k: Seq<char>| self@.contains(k) implies other@.contains(k) by {
            let q = self.items().index_of(k);
            assert(other@.contains(self.items()[q]));
        }
        true
    }
}

impl Clone for StrSet {
    fn clone(&self) -> (r: Self)
        ensures
            r@ == self@,
    {
        let mut r = StrSet::new();
        r.absorb(self);
        assert(r@ =~= self@);
        r
    }
}

impl Default for StrSet {
    fn default() -> (s: Self)
        ensures
            s@ == Set::<Seq<char>>::empty(),
    {
        StrSet::new()
    }
}

} // verus!

//! What a plugin may invoke: its live capabilities, merged by verb and joined with what the routes
//! say of the verbs. The user owns the grants, the serving plugin owns what is said of the verbs.

use crate::cap::{Capability, Grant};
use crate::caps::{grants, is_live_for, CapStore};
use crate::declaration::{kind_label, kind_label_of};
use crate::json::{named_values, no_members, number, put, text, values, Json, Num, Value};
use crate::records::{held_views, Held, HoldingRecord};
use crate::routing::{find_route, route_of, Route};
use crate::store::{cap_holding, holds_cap};
use crate::strmap::{listing_of, StrMap};
use crate::text::{lex_irreflexive, lex_lt, strip_prefix};
use vstd::prelude::*;

verus! {

/// What a grant gives: how often, until when, and by which holding.
#[derive(Debug, Clone, Copy, PartialEq, Eq, Structural)]
pub struct Best {
    pub counts: Option<u64>,
    pub expires_at: Option<u64>,
    pub holding: u64,
}

/// Whether a limit is wider than another: no limit is wider than any.
pub open spec fn wider(a: Option<u64>, b: Option<u64>) -> bool {
    match (a, b) {
        (Some(x), Some(y)) => x > y,
        (None, Some(_)) => true,
        (_, None) => false,
    }
}

/// Whether a grant is stronger than another: it gives more uses, or as many for longer.
pub open spec fn stronger(a: Best, b: Best) -> bool {
    wider(a.counts, b.counts) || (a.counts == b.counts && wider(a.expires_at, b.expires_at))
}

fn is_wider(a: Option<u64>, b: Option<u64>) -> (r: bool)
    ensures
        r == wider(a, b),
{
    match (a, b) {
        (Some(x), Some(y)) => x > y,
        (None, Some(_)) => true,
        (_, None) => false,
    }
}

fn is_stronger(a: &Best, b: &Best) -> (r: bool)
    ensures
        r == stronger(*a, *b),
{
    is_wider(a.counts, b.counts) || (!is_wider(b.counts, a.counts) && is_wider(
        a.expires_at,
        b.expires_at,
    ))
}

/// What is left of a counted verb; nothing where the verb is not counted.
pub open spec fn left_of(store: &CapStore, g: Grant, verb: Seq<char>) -> Option<u64> {
    if g.counts.contains_key(verb) {
        Some(
            if store.spent(g.cap_id, verb) <= g.counts[verb] {
                (g.counts[verb] - store.spent(g.cap_id, verb)) as u64
            } else {
                0u64
            },
        )
    } else {
        None
    }
}

/// The first holding of a capability that is in use.
pub open spec fn holding_for(hs: Seq<Held>, account: Seq<char>) -> Option<u64>
    decreases hs.len(),
{
    if hs.len() == 0 {
        None
    } else if holds_cap(hs[0], account) {
        Some(hs[0].id)
    } else {
        holding_for(hs.drop_first(), account)
    }
}

/// What a capability gives of a verb, if it is a capability of a driver, is held, and has the
/// verb.
pub open spec fn given(store: &CapStore, hs: Seq<Held>, g: Grant, verb: Seq<char>) -> Option<Best> {
    let prefix = "driver:"@;
    if !prefix.is_prefix_of(g.resource) || holding_for(hs, g.cap_id) is None {
        None
    } else {
        let head = g.resource.skip(prefix.len() as int) + "::"@;
        if head.is_prefix_of(verb) && g.verbs.contains(verb.skip(head.len() as int)) {
            Some(
                Best {
                    counts: left_of(store, g, verb.skip(head.len() as int)),
                    expires_at: g.expires_at,
                    holding: holding_for(hs, g.cap_id)->0,
                },
            )
        } else {
            None
        }
    }
}

/// The stronger of two grants; the earlier one where neither is.
pub open spec fn better(acc: Option<Best>, this: Option<Best>) -> Option<Best> {
    match (acc, this) {
        (Some(a), Some(t)) => if stronger(t, a) {
            Some(t)
        } else {
            Some(a)
        },
        (None, t) => t,
        (a, None) => a,
    }
}

/// The strongest grant of a verb among the first capabilities.
pub open spec fn best_of(
    store: &CapStore,
    hs: Seq<Held>,
    gs: Seq<Grant>,
    verb: Seq<char>,
    n: nat,
) -> Option<Best>
    decreases n,
{
    if n == 0 {
        None
    } else {
        better(
            best_of(store, hs, gs, verb, (n - 1) as nat),
            given(store, hs, gs[n - 1], verb),
        )
    }
}

/// No capability gives more of a verb than what is reported of it.
pub proof fn the_strongest_is_reported(
    store: &CapStore,
    hs: Seq<Held>,
    gs: Seq<Grant>,
    verb: Seq<char>,
    n: nat,
)
    requires
        n <= gs.len(),
    ensures
        forall|i: int|
            0 <= i < n ==> (given(store, hs, #[trigger] gs[i], verb) matches Some(t) ==> (best_of(
                store,
                hs,
                gs,
                verb,
                n,
            ) matches Some(b) && !stronger(t, b))),
        best_of(store, hs, gs, verb, n) matches Some(b) ==> exists|i: int|
            0 <= i < n && given(store, hs, #[trigger] gs[i], verb) == Some(b),
    decreases n,
{
    if n > 0 {
        the_strongest_is_reported(store, hs, gs, verb, (n - 1) as nat);
        let before = best_of(store, hs, gs, verb, (n - 1) as nat);
        let this = given(store, hs, gs[n - 1], verb);
        let b = best_of(store, hs, gs, verb, n);
        if b is Some {
            if b == before {
                let i = choose|i: int|
                    0 <= i < n - 1 && given(store, hs, #[trigger] gs[i], verb) == before;
                assert(0 <= i < n && given(store, hs, gs[i], verb) == b);
            } else {
                assert(given(store, hs, gs[n - 1], verb) == b);
            }
        }
    }
}

fn find_cap_holding(holdings: &Vec<HoldingRecord>, account: &str) -> (r: Option<u64>)
    ensures
        r == holding_for(held_views(holdings@), account@),
{
    let ghost hs = held_views(holdings@);
    let r: Option<&HoldingRecord> = cap_holding(holdings, account);
    proof {
        match r {
            Some(h) => {
                let i = choose|i: int|
                    0 <= i < holdings@.len() && *h == #[trigger] holdings@[i] && holds_cap(
                        holdings@[i]@,
                        account@,
                    ) && forall|j: int|
                        0 <= j < i ==> !holds_cap((#[trigger] holdings@[j])@, account@);
                assert forall|j: int| 0 <= j < i implies !holds_cap(#[trigger] hs[j], account@) by {
                    assert(hs[j] == holdings@[j]@);
                }
                assert(hs[i] == holdings@[i]@);
                holding_at(hs, account@, i);
            },
            None => {
                assert forall|j: int| 0 <= j < hs.len() implies !holds_cap(
                    #[trigger] hs[j],
                    account@,
                ) by {
                    assert(hs[j] == holdings@[j]@);
                }
                no_holding(hs, account@);
            },
        }
    }
    match r {
        Some(h) => Some(h.id),
        None => None,
    }
}

proof fn holding_at(hs: Seq<Held>, account: Seq<char>, i: int)
    requires
        0 <= i < hs.len(),
        holds_cap(hs[i], account),
        forall|j: int| 0 <= j < i ==> !holds_cap(#[trigger] hs[j], account),
    ensures
        holding_for(hs, account) == Some(hs[i].id),
    decreases hs.len(),
{
    if i > 0 {
        assert(!holds_cap(hs[0], account));
        assert forall|j: int| 0 <= j < i - 1 implies !holds_cap(
            #[trigger] hs.drop_first()[j],
            account,
        ) by {
            assert(hs.drop_first()[j] == hs[j + 1]);
        }
        assert(hs.drop_first()[i - 1] == hs[i]);
        holding_at(hs.drop_first(), account, i - 1);
    }
}

proof fn no_holding(hs: Seq<Held>, account: Seq<char>)
    requires
        forall|j: int| 0 <= j < hs.len() ==> !holds_cap(#[trigger] hs[j], account),
    ensures
        holding_for(hs, account) is None,
    decreases hs.len(),
{
    if hs.len() > 0 {
        assert(!holds_cap(hs[0], account));
        assert forall|j: int| 0 <= j < hs.drop_first().len() implies !holds_cap(
            #[trigger] hs.drop_first()[j],
            account,
        ) by {
            assert(hs.drop_first()[j] == hs[j + 1]);
        }
        no_holding(hs.drop_first(), account);
    }
}

/// Whether a table holds, of each verb, the strongest grant among the first capabilities.
spec fn merged_to(
    m: Map<Seq<char>, Best>,
    store: &CapStore,
    hs: Seq<Held>,
    gs: Seq<Grant>,
    n: nat,
) -> bool {
    forall|v: Seq<char>|
        #![trigger m.contains_key(v)]
        #![trigger best_of(store, hs, gs, v, n)]
        best_of(store, hs, gs, v, n) == if m.contains_key(v) {
            Some(m[v])
        } else {
            None
        }
}

/// The strongest grant of each verb that a subject's capabilities give.
pub fn merge_grants(store: &CapStore, caps: &Vec<Capability>, holdings: &Vec<HoldingRecord>) -> (m:
    StrMap<Best>)
    ensures
        forall|v: Seq<char>|
            #![trigger m@.contains_key(v)]
            best_of(store, held_views(holdings@), grants(caps@), v, caps@.len()) == if m@.contains_key(v) {
                Some(m@[v])
            } else {
                None
            },
{
    let ghost hs = held_views(holdings@);
    let ghost gs = grants(caps@);
    let mut m: StrMap<Best> = StrMap::new();
    let mut i: usize = 0;
    while i < caps.len()
        invariant
            i <= caps@.len(),
            hs == held_views(holdings@),
            gs == grants(caps@),
            merged_to(m@, store, hs, gs, i as nat),
        decreases caps.len() - i,
    {
        let cap: &Capability = &caps[i];
        let ghost g = cap@;
        assert(gs[i as int] == g);
        let ghost before = m@;
        let family: Option<&str> = strip_prefix(cap.resource.as_str(), "driver:");
        let holding: Option<u64> = find_cap_holding(holdings, cap.cap_id.as_str());
        match (family, holding) {
            (Some(f), Some(h)) => {
                let ghost head = f@ + "::"@;
                assert("driver:"@.is_prefix_of(g.resource)) by {
                    assert(g.resource =~= "driver:"@ + f@);
                }
                assert(g.resource.skip("driver:"@.len() as int) =~= f@);
                let n: usize = cap.verbs.len();
                let ghost items = cap.verbs.items();
                let mut j: usize = 0;
                assert forall|a: int, b: int| 0 <= a < b < items.len() implies #[trigger] items[a]
                    != #[trigger] items[b] by {
                    assert(lex_lt(items[a], items[b]));
                    lex_irreflexive(items[a]);
                }
                assert forall|v: Seq<char>|
                    #![trigger m@.contains_key(v)]
                    (if m@.contains_key(v) {
                        Some(m@[v])
                    } else {
                        None
                    }) == better(
                        best_of(store, hs, gs, v, i as nat),
                        given_by(store, hs, g, v, items, 0, head),
                    ) by {
                    assert(best_of(store, hs, gs, v, i as nat) == if m@.contains_key(v) {
                        Some(m@[v])
                    } else {
                        None
                    });
                }
                while j < n
                    invariant
                        j <= n,
                        n == items.len(),
                        items == cap.verbs.items(),
                        g == cap@,
                        head == f@ + "::"@,
                        holding_for(hs, g.cap_id) == Some(h),
                        forall|a: int, b: int|
                            0 <= a < b < items.len() ==> #[trigger] items[a] != #[trigger] items[b],
                        forall|v: Seq<char>|
                            #![trigger m@.contains_key(v)]
                            (if m@.contains_key(v) {
                                Some(m@[v])
                            } else {
                                None
                            }) == better(
                                best_of(store, hs, gs, v, i as nat),
                                given_by(store, hs, g, v, items, j as nat, head),
                            ),
                    decreases n - j,
                {
                    let short: &String = cap.verbs.item_at(j);
                    let ghost now = m@;
                    let mut verb: String = f.to_owned();
                    verb.append("::");
                    verb.append(short.as_str());
                    let ghost vv = verb@;
                    assert(vv =~= head + items[j as int]);
                    let this = Best {
                        counts: store.counts_left(cap, short.as_str()),
                        expires_at: cap.constraints.expires_at,
                        holding: h,
                    };
                    assert(this.counts == left_of(store, g, items[j as int]));
                    let replace: bool = match m.get(verb.as_str()) {
                        None => true,
                        Some(acc) => is_stronger(&this, acc),
                    };
                    if replace {
                        m.insert(verb, this);
                    }
                    proof {
                        assert(vv.skip(head.len() as int) =~= items[j as int]);
                        assert(head.is_prefix_of(vv));
                        assert forall|v: Seq<char>|
                            #![trigger m@.contains_key(v)]
                            (if m@.contains_key(v) {
                                Some(m@[v])
                            } else {
                                None
                            }) == better(
                                best_of(store, hs, gs, v, i as nat),
                                given_by(store, hs, g, v, items, (j + 1) as nat, head),
                            ) by {
                            assert((if now.contains_key(v) {
                                Some(now[v])
                            } else {
                                None
                            }) == better(
                                best_of(store, hs, gs, v, i as nat),
                                given_by(store, hs, g, v, items, j as nat, head),
                            ));
                            if v == vv {
                                assert(!items.take(j as int).contains(items[j as int])) by {
                                    if items.take(j as int).contains(items[j as int]) {
                                        let q = items.take(j as int).index_of(items[j as int]);
                                        assert(items[q] == items[j as int]);
                                    }
                                }
                                assert(items.take(j + 1)[j as int] == items[j as int]);
                                assert(items.take(j + 1).contains(items[j as int]));
                            } else {
                                if head.is_prefix_of(v) {
                                    let sv = v.skip(head.len() as int);
                                    assert(v =~= head + sv);
                                    assert(sv != items[j as int]);
                                    assert(items.take(j + 1).contains(sv) == items.take(
                                        j as int,
                                    ).contains(sv)) by {
                                        if items.take(j + 1).contains(sv) {
                                            let q = items.take(j + 1).index_of(sv);
                                            assert(items.take(j as int)[q] == sv);
                                        }
                                        if items.take(j as int).contains(sv) {
                                            let q = items.take(j as int).index_of(sv);
                                            assert(items.take(j + 1)[q] == sv);
                                        }
                                    }
                                }
                            }
                        }
                    }
                    j = j + 1;
                }
                proof {
                    assert(items.take(n as int) =~= items);
                    assert forall|v: Seq<char>|
                        #![trigger m@.contains_key(v)]
                        #![trigger best_of(store, hs, gs, v, (i + 1) as nat)]
                        best_of(store, hs, gs, v, (i + 1) as nat) == if m@.contains_key(v) {
                            Some(m@[v])
                        } else {
                            None
                        } by {
                        assert(given_by(store, hs, g, v, items, n as nat, head) == given(
                            store,
                            hs,
                            g,
                            v,
                        ));
                        assert(m@.contains_key(v) || !m@.contains_key(v));
                    }
                    assert(merged_to(m@, store, hs, gs, (i + 1) as nat));
                }
            },
            _ => {
                proof {
                    assert forall|v: Seq<char>|
                        #![trigger m@.contains_key(v)]
                        #![trigger best_of(store, hs, gs, v, (i + 1) as nat)]
                        best_of(store, hs, gs, v, (i + 1) as nat) == if m@.contains_key(v) {
                            Some(m@[v])
                        } else {
                            None
                        } by {
                        assert(given(store, hs, g, v) is None);
                        assert(best_of(store, hs, gs, v, i as nat) == if m@.contains_key(v) {
                            Some(m@[v])
                        } else {
                            None
                        });
                    }
                    assert(merged_to(m@, store, hs, gs, (i + 1) as nat));
                }
            },
        }
        i = i + 1;
    }
    m
}

/// What the first verbs of a capability give of a verb.
spec fn given_by(
    store: &CapStore,
    hs: Seq<Held>,
    g: Grant,
    verb: Seq<char>,
    items: Seq<Seq<char>>,
    n: nat,
    head: Seq<char>,
) -> Option<Best> {
    if head.is_prefix_of(verb) && items.take(n as int).contains(verb.skip(head.len() as int)) {
        Some(
            Best {
                counts: left_of(store, g, verb.skip(head.len() as int)),
                expires_at: g.expires_at,
                holding: holding_for(hs, g.cap_id)->0,
            },
        )
    } else {
        None
    }
}

/// What is said of a verb that no route serves.
pub open spec fn any_object() -> Value {
    Value::Object(seq![("type"@, Value::Str("object"@))])
}

/// A member that may be missing.
pub open spec fn maybe_member(name: Seq<char>, v: Option<Value>) -> Seq<(Seq<char>, Value)> {
    match v {
        Some(x) => seq![(name, x)],
        None => Seq::empty(),
    }
}

/// A number that may be missing.
pub open spec fn number_value(n: Option<u64>) -> Option<Value> {
    match n {
        Some(k) => Some(Value::Number(Num::Nat(k))),
        None => None,
    }
}

/// What is reported of a verb: what its route says of it, the holding of the strongest grant, and
/// what that grant gives.
pub open spec fn grant_value(verb: Seq<char>, best: Best, route: Option<Route>) -> Value {
    let description = match route {
        Some(r) => r.description@,
        None => ""@,
    };
    let schema = match route {
        Some(r) => r.schema@,
        None => any_object(),
    };
    let kind = match route {
        Some(r) => match r.kind {
            Some(k) => Some(Value::Str(kind_label_of(k@))),
            None => None,
        },
        None => None,
    };
    let budgeted = match route {
        Some(r) => match r.budgeted {
            Some(b) => Some(Value::Bool(b)),
            None => None,
        },
        None => None,
    };
    Value::Object(
        seq![
            ("verb"@, Value::Str(verb)),
            ("description"@, Value::Str(description)),
            ("schema"@, schema),
            ("holding"@, Value::Number(Num::Nat(best.holding))),
        ] + maybe_member("counts_left"@, number_value(best.counts)) + maybe_member(
            "expires_at"@,
            number_value(best.expires_at),
        ) + maybe_member("kind"@, kind) + maybe_member("budgeted"@, budgeted),
    )
}

fn grant_json(verb: &str, best: &Best, route: Option<&Route>) -> (j: Json)
    ensures
        j@ == grant_value(
            verb@,
            *best,
            match route {
                Some(r) => Some(*r),
                None => None,
            },
        ),
{
    let mut ms: Vec<(String, Json)> = no_members();
    put(&mut ms, "verb", text(verb));
    match route {
        Some(r) => {
            put(&mut ms, "description", text(r.description.as_str()));
            put(&mut ms, "schema", r.schema.clone());
        },
        None => {
            put(&mut ms, "description", text(""));
            let mut none: Vec<(String, Json)> = no_members();
            put(&mut none, "type", text("object"));
            assert(named_values(none@) =~= seq![("type"@, Value::Str("object"@))]);
            let any = Json::Object(none);
            assert(any@ == Value::Object(named_values(none@)));
            put(&mut ms, "schema", any);
        },
    }
    put(&mut ms, "holding", number(best.holding));
    if let Some(n) = best.counts {
        put(&mut ms, "counts_left", number(n));
    }
    if let Some(t) = best.expires_at {
        put(&mut ms, "expires_at", number(t));
    }
    if let Some(r) = route {
        if let Some(k) = &r.kind {
            put(&mut ms, "kind", text(kind_label(k)));
        }
        if let Some(b) = r.budgeted {
            put(&mut ms, "budgeted", Json::Bool(b));
        }
    }
    let ghost expected = grant_value(
        verb@,
        *best,
        match route {
            Some(r) => Some(*r),
            None => None,
        },
    );
    assert(named_values(ms@) =~= expected->Object_0);
    let j = Json::Object(ms);
    assert(j@ == Value::Object(named_values(ms@)));
    j
}

/// What is reported of a table of grants, in the order of the verbs.
pub open spec fn grants_value(pairs: Seq<(Seq<char>, Best)>, routes: Seq<Route>) -> Seq<Value> {
    Seq::new(
        pairs.len(),
        |i: int| grant_value(pairs[i].0, pairs[i].1, route_of(routes, pairs[i].0)),
    )
}

/// What a subject may invoke: of each verb that its live capabilities give, the strongest grant,
/// with what the routes say of the verb.
pub fn grants_for(
    store: &CapStore,
    subject: &str,
    now: u64,
    holdings: &Vec<HoldingRecord>,
    routes: &Vec<Route>,
) -> (r: Vec<Json>)
    ensures
        exists|m: Map<Seq<char>, Best>| #[trigger]
            strongest(m, store, subject@, now, held_views(holdings@)) && values(r@)
                == grants_value(listing_of(m), routes@),
{
    let caps: Vec<Capability> = store.list_live(subject, now);
    let m: StrMap<Best> = merge_grants(store, &caps, holdings);
    let n: usize = m.len();
    let ghost pairs = m.pairs();
    let mut out: Vec<Json> = Vec::new();
    let mut i: usize = 0;
    while i < n
        invariant
            i <= n,
            n == pairs.len(),
            pairs == m.pairs(),
            out@.len() == i,
            forall|k: int|
                0 <= k < i ==> (#[trigger] out@[k])@ == grant_value(
                    pairs[k].0,
                    pairs[k].1,
                    route_of(routes@, pairs[k].0),
                ),
        decreases n - i,
    {
        let verb: &String = m.key_at(i);
        let best: &Best = m.value_at(i);
        let j: Json = grant_json(verb.as_str(), best, find_route(routes, verb.as_str()));
        out.push(j);
        i = i + 1;
    }
    proof {
        assert(values(out@) =~= grants_value(pairs, routes@));
        let gs = store.table().filter(
            |g: Grant| is_live_for(g, store.alive(), subject@, now),
        );
        assert(grants(caps@) == gs);
        assert(strongest(m@, store, subject@, now, held_views(holdings@))) by {
            assert forall|v: Seq<char>|
                #![trigger m@.contains_key(v)]
                best_of(store, held_views(holdings@), gs, v, gs.len()) == if m@.contains_key(v) {
                    Some(m@[v])
                } else {
                    None
                } by {}
        }
    }
    out
}

/// Whether a table holds the strongest grant of each verb that the live capabilities of a subject
/// give, and nothing else.
pub open spec fn strongest(
    m: Map<Seq<char>, Best>,
    store: &CapStore,
    subject: Seq<char>,
    now: u64,
    hs: Seq<Held>,
) -> bool {
    let gs = store.table().filter(|g: Grant| is_live_for(g, store.alive(), subject, now));
    forall|v: Seq<char>|
        #![trigger m.contains_key(v)]
        best_of(store, hs, gs, v, gs.len()) == if m.contains_key(v) {
            Some(m[v])
        } else {
            None
        }
}

} // verus!

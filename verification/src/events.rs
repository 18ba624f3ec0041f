//! Subscriptions and the delivery of events. A subscriber that cannot keep up is cut off: a slow
//! consumer never holds up the others.

use crate::error::{KernelError, Refusal};
use crate::records::{held_views, Held, HoldingRecord};
use crate::recovery::{find_holding, holding_of};
use crate::routing::{
    find_plugin, in_use, is_in_use, matches_topic, plugin_of, topic_matches, PluginEntry, Route,
};
use crate::substrate::CLASS_SUBSCRIPTION;
use crate::text::{decimal, push_decimal, same};
use crate::wire::HoldingRef;
use vstd::prelude::*;

verus! {

/// How many events wait for a subscriber before it is cut off.
pub const EVENT_QUEUE: usize = 256;

/// Where the events of a subscription go.
#[derive(Debug, PartialEq, Eq)]
pub enum SubTarget {
    Local,
    /// To the plugin of this name.
    Plugin(String),
}

/// A subscription, with the holding that stands for it.
#[derive(Debug, PartialEq, Eq)]
pub struct Sub {
    pub id: u64,
    pub topic: String,
    pub target: SubTarget,
    pub holding: HoldingRef,
}

/// Whether a subscription is that of a plugin.
pub open spec fn belongs_to(s: Sub, name: Seq<char>) -> bool {
    s.target matches SubTarget::Plugin(n) && n@ == name
}

/// Whether an event can be sent to a subscriber.
#[derive(Debug, Clone, Copy, PartialEq, Eq, Structural)]
pub enum Reach {
    /// The subscription is not in use.
    Skip,
    /// Its plugin is gone.
    Drop,
    Send,
}

/// Whether an event can be sent to a subscriber. A plugin is reached only in the incarnation that
/// made the subscription.
pub open spec fn reach_of(s: Sub, plugins: Seq<PluginEntry>, hs: Seq<Held>) -> Reach {
    if !in_use(hs, s.holding@) {
        Reach::Skip
    } else {
        match s.target {
            SubTarget::Local => Reach::Send,
            SubTarget::Plugin(name) => match plugin_of(plugins, name@) {
                None => Reach::Drop,
                Some(p) => if holding_of(hs, s.holding.id)->0.parent == Some(p.holding.id) {
                    Reach::Send
                } else {
                    Reach::Drop
                },
            },
        }
    }
}

/// Whether an event can be sent to a subscriber.
pub fn reach(s: &Sub, plugins: &Vec<PluginEntry>, holdings: &Vec<HoldingRecord>) -> (r: Reach)
    ensures
        r == reach_of(*s, plugins@, held_views(holdings@)),
{
    if !is_in_use(holdings, &s.holding) {
        return Reach::Skip;
    }
    match &s.target {
        SubTarget::Local => Reach::Send,
        SubTarget::Plugin(name) => match find_plugin(plugins, name.as_str()) {
            None => Reach::Drop,
            Some(p) => {
                let parent: Option<u64> = match find_holding(holdings, s.holding.id) {
                    Some(h) => h.parent,
                    None => None,
                };
                match parent {
                    Some(id) => if id == p.holding.id {
                        Reach::Send
                    } else {
                        Reach::Drop
                    },
                    None => Reach::Drop,
                }
            },
        },
    }
}

/// What became of sending an event.
#[derive(Debug, Clone, Copy, PartialEq, Eq, Structural)]
pub enum SendSeen {
    Sent,
    /// The queue is full.
    Full,
    /// The subscriber is gone.
    Gone,
}

/// What a dispatch did.
pub struct Dispatch {
    /// How many subscribers the event reached.
    pub delivered: usize,
    /// The subscriptions that are to be released.
    pub dropped: Vec<u64>,
    /// The subscriptions whose queues were full.
    pub overflowed: Vec<u64>,
    /// The plugins that are to be reclaimed.
    pub killed: Vec<String>,
}

/// What a dispatch did.
#[verifier::ext_equal]
pub struct Dispatched {
    pub delivered: nat,
    pub dropped: Seq<u64>,
    pub overflowed: Seq<u64>,
    pub killed: Seq<Seq<char>>,
}

impl View for Dispatch {
    type V = Dispatched;

    open spec fn view(&self) -> Dispatched {
        Dispatched {
            delivered: self.delivered as nat,
            dropped: self.dropped@,
            overflowed: self.overflowed@,
            killed: crate::text::texts(self.killed@),
        }
    }
}

/// A dispatch after one more subscription. A local subscriber that is full is dropped; a plugin
/// that is full is reclaimed with all that it holds.
pub open spec fn dispatched_to(
    d: Dispatched,
    s: Sub,
    topic: Seq<char>,
    reach: Reach,
    seen: SendSeen,
) -> Dispatched {
    if !matches_topic(s.topic@, topic) || reach == Reach::Skip {
        d
    } else if reach == Reach::Drop {
        Dispatched { dropped: d.dropped.push(s.id), ..d }
    } else {
        match seen {
            SendSeen::Sent => Dispatched { delivered: d.delivered + 1, ..d },
            SendSeen::Gone => Dispatched { dropped: d.dropped.push(s.id), ..d },
            SendSeen::Full => match s.target {
                SubTarget::Local => Dispatched {
                    dropped: d.dropped.push(s.id),
                    overflowed: d.overflowed.push(s.id),
                    ..d
                },
                SubTarget::Plugin(name) => Dispatched {
                    overflowed: d.overflowed.push(s.id),
                    killed: d.killed.push(name@),
                    ..d
                },
            },
        }
    }
}

/// A dispatch to the first subscriptions.
pub open spec fn dispatch_out(
    subs: Seq<Sub>,
    topic: Seq<char>,
    plugins: Seq<PluginEntry>,
    hs: Seq<Held>,
    sends: Seq<SendSeen>,
    n: nat,
) -> Dispatched
    decreases n,
{
    if n == 0 {
        Dispatched {
            delivered: 0,
            dropped: Seq::empty(),
            overflowed: Seq::empty(),
            killed: Seq::empty(),
        }
    } else {
        dispatched_to(
            dispatch_out(subs, topic, plugins, hs, sends, (n - 1) as nat),
            subs[n - 1],
            topic,
            reach_of(subs[n - 1], plugins, hs),
            sends[n - 1],
        )
    }
}

/// What a dispatch of an event did, by what became of sending it to each subscriber that it could
/// be sent to.
pub fn dispatch_event(
    subs: &Vec<Sub>,
    topic: &str,
    plugins: &Vec<PluginEntry>,
    holdings: &Vec<HoldingRecord>,
    sends: &Vec<SendSeen>,
) -> (r: Dispatch)
    requires
        sends@.len() == subs@.len(),
    ensures
        r@ == dispatch_out(
            subs@,
            topic@,
            plugins@,
            held_views(holdings@),
            sends@,
            subs@.len(),
        ),
{
    let ghost hs = held_views(holdings@);
    let mut d = Dispatch {
        delivered: 0,
        dropped: Vec::new(),
        overflowed: Vec::new(),
        killed: Vec::new(),
    };
    let mut i: usize = 0;
    assert(d@ =~= dispatch_out(subs@, topic@, plugins@, hs, sends@, 0));
    while i < subs.len()
        invariant
            i <= subs@.len(),
            sends@.len() == subs@.len(),
            hs == held_views(holdings@),
            d.delivered <= i,
            d@ == dispatch_out(subs@, topic@, plugins@, hs, sends@, i as nat),
        decreases subs.len() - i,
    {
        let s: &Sub = &subs[i];
        let ghost before = d@;
        if topic_matches(s.topic.as_str(), topic) {
            match reach(s, plugins, holdings) {
                Reach::Skip => {},
                Reach::Drop => {
                    d.dropped.push(s.id);
                },
                Reach::Send => match sends[i] {
                    SendSeen::Sent => {
                        d.delivered = d.delivered + 1;
                    },
                    SendSeen::Gone => {
                        d.dropped.push(s.id);
                    },
                    SendSeen::Full => {
                        d.overflowed.push(s.id);
                        match &s.target {
                            SubTarget::Local => {
                                d.dropped.push(s.id);
                            },
                            SubTarget::Plugin(name) => {
                                d.killed.push(name.clone());
                                assert(crate::text::texts(d.killed@) =~= before.killed.push(name@));
                            },
                        }
                    },
                },
            }
        }
        assert(d@ =~= dispatched_to(
            before,
            subs@[i as int],
            topic@,
            reach_of(subs@[i as int], plugins@, hs),
            sends@[i as int],
        ));
        i = i + 1;
    }
    d
}

/// An event reaches only subscribers whose pattern matches its topic and whose subscription is in
/// use; no more are reached than there are subscriptions.
pub proof fn delivery_is_bounded(
    subs: Seq<Sub>,
    topic: Seq<char>,
    plugins: Seq<PluginEntry>,
    hs: Seq<Held>,
    sends: Seq<SendSeen>,
    n: nat,
)
    requires
        n <= subs.len(),
    ensures
        dispatch_out(subs, topic, plugins, hs, sends, n).delivered <= n,
        (forall|i: int|
            0 <= i < n ==> !(matches_topic((#[trigger] subs[i]).topic@, topic) && reach_of(
                subs[i],
                plugins,
                hs,
            ) == Reach::Send)) ==> dispatch_out(subs, topic, plugins, hs, sends, n).delivered == 0,
    decreases n,
{
    if n > 0 {
        delivery_is_bounded(subs, topic, plugins, hs, sends, (n - 1) as nat);
        if forall|i: int|
            0 <= i < n ==> !(matches_topic((#[trigger] subs[i]).topic@, topic) && reach_of(
                subs[i],
                plugins,
                hs,
            ) == Reach::Send) {
            assert(!(matches_topic(subs[n - 1].topic@, topic) && reach_of(
                subs[n - 1],
                plugins,
                hs,
            ) == Reach::Send));
        }
    }
}

/// The identity of a new subscription. Identities are used once: they run out rather than repeat.
pub fn next_subscription(next: &mut u64) -> (r: Result<u64, KernelError>)
    ensures
        match r {
            Ok(id) => id == *old(next) && *final(next) == *old(next) + 1,
            Err(e) => *old(next) == u64::MAX && *final(next) == *old(next) && e@ == Refusal::Denied(
                "subscription IDs exhausted"@,
            ),
        },
{
    let id: u64 = *next;
    match id.checked_add(1) {
        Some(n) => {
            *next = n;
            Ok(id)
        },
        None => Err(KernelError::Denied("subscription IDs exhausted".to_owned())),
    }
}

/// The holding that stands for a subscription.
#[derive(Debug, PartialEq, Eq)]
pub struct SubscriptionOrder {
    pub owner: String,
    pub class_id: String,
    pub instance: String,
    pub generation: String,
    pub parent: Option<u64>,
}

/// The holding that stands for a subscription. It hangs under the holding of the plugin, so that a
/// plugin that is torn down is unsubscribed first.
pub fn subscription_order(
    owner: &str,
    session: &str,
    id: u64,
    parent: Option<u64>,
) -> (o: SubscriptionOrder)
    ensures
        o.owner@ == owner@,
        o.class_id@ == CLASS_SUBSCRIPTION@,
        o.instance@ == session@ + "/"@ + decimal(id as nat),
        o.generation@ == session@,
        o.parent == parent,
{
    let mut instance: String = session.to_owned();
    instance.append("/");
    push_decimal(&mut instance, id);
    SubscriptionOrder {
        owner: owner.to_owned(),
        class_id: CLASS_SUBSCRIPTION.to_owned(),
        instance,
        generation: session.to_owned(),
        parent,
    }
}

/// Where the first subscription of an identity that belongs to a plugin stands.
pub open spec fn own_at(subs: Seq<Sub>, id: u64, name: Seq<char>) -> Option<int>
    decreases subs.len(),
{
    if subs.len() == 0 {
        None
    } else {
        match own_at(subs.drop_last(), id, name) {
            Some(i) => Some(i),
            None => if subs.last().id == id && belongs_to(subs.last(), name) {
                Some(subs.len() - 1)
            } else {
                None
            },
        }
    }
}

/// The holding of a subscription that a plugin may drop: only one of its own.
pub fn unsubscribe<'a>(subs: &'a Vec<Sub>, id: u64, name: &str) -> (r: Option<&'a HoldingRef>)
    ensures
        match r {
            Some(h) => own_at(subs@, id, name@) matches Some(i) && 0 <= i < subs@.len() && *h
                == subs@[i].holding,
            None => own_at(subs@, id, name@) is None,
        },
{
    let mut i: usize = 0;
    assert(subs@.take(0) =~= Seq::<Sub>::empty());
    while i < subs.len()
        invariant
            i <= subs@.len(),
            own_at(subs@.take(i as int), id, name@) is None,
        decreases subs.len() - i,
    {
        assert(subs@.take(i + 1).drop_last() =~= subs@.take(i as int));
        assert(subs@.take(i + 1).last() == subs@[i as int]);
        let mine: bool = match &subs[i].target {
            SubTarget::Plugin(n) => same(n.as_str(), name),
            SubTarget::Local => false,
        };
        if subs[i].id == id && mine {
            proof {
                own_stays(subs@, id, name@, i + 1);
            }
            return Some(&subs[i].holding);
        }
        i = i + 1;
    }
    assert(subs@.take(i as int) =~= subs@);
    None
}

proof fn own_stays(subs: Seq<Sub>, id: u64, name: Seq<char>, n: int)
    requires
        0 <= n <= subs.len(),
        own_at(subs.take(n), id, name) is Some,
    ensures
        own_at(subs, id, name) == own_at(subs.take(n), id, name),
    decreases subs.len() - n,
{
    if n < subs.len() {
        assert(subs.take(n + 1).drop_last() =~= subs.take(n));
        own_stays(subs, id, name, n + 1);
    } else {
        assert(subs.take(n) =~= subs);
    }
}

/// Whether a subscription is the one of an identity and a holding.
pub open spec fn is_sub(s: Sub, id: u64, holding: HoldingRef) -> bool {
    s.id == id && s.holding@ == holding@
}

/// The subscriptions without those of an identity and a holding.
pub open spec fn without_sub(subs: Seq<Sub>, id: u64, holding: HoldingRef) -> Seq<Sub>
    decreases subs.len(),
{
    if subs.len() == 0 {
        Seq::empty()
    } else {
        let init = without_sub(subs.drop_last(), id, holding);
        if is_sub(subs.last(), id, holding) {
            init
        } else {
            init.push(subs.last())
        }
    }
}

/// Removes the subscription of an identity and a holding; tells whether there was one.
pub fn remove_sub(subs: &mut Vec<Sub>, id: u64, holding: &HoldingRef) -> (removed: bool)
    ensures
        final(subs)@ == without_sub(old(subs)@, id, *holding),
        removed == (final(subs)@.len() != old(subs)@.len()),
{
    let ghost all = subs@;
    let ghost mut k: int = 0;
    let n: usize = subs.len();
    let mut i: usize = 0;
    assert(all.take(0) =~= Seq::<Sub>::empty());
    assert(all.skip(0) =~= all);
    while i < subs.len()
        invariant
            0 <= k <= all.len(),
            all == old(subs)@,
            i == without_sub(all.take(k), id, *holding).len(),
            subs@ =~= without_sub(all.take(k), id, *holding) + all.skip(k),
        decreases subs.len() - i,
    {
        proof {
            assert(subs@[i as int] == all[k]);
            assert(all.take(k + 1).drop_last() =~= all.take(k));
            assert(all.take(k + 1).last() == all[k]);
            assert(all.skip(k).drop_first() =~= all.skip(k + 1));
        }
        let ghost before = subs@;
        let gone: bool = subs[i].id == id && subs[i].holding.id == holding.id && same(
            subs[i].holding.generation.as_str(),
            holding.generation.as_str(),
        );
        if gone {
            subs.remove(i);
            assert(subs@ =~= without_sub(all.take(k + 1), id, *holding) + all.skip(k + 1));
        } else {
            i = i + 1;
            assert(subs@ =~= without_sub(all.take(k + 1), id, *holding) + all.skip(k + 1));
        }
        proof {
            k = k + 1;
        }
    }
    assert(all.take(k) =~= all) by {
        assert(subs@.len() == i + (all.len() - k));
    }
    assert(all.skip(k) =~= Seq::<Sub>::empty());
    subs.len() != n
}

/// The routes that a plugin does not serve.
pub open spec fn routes_without(routes: Seq<Route>, plugin: Seq<char>) -> Seq<Route>
    decreases routes.len(),
{
    if routes.len() == 0 {
        Seq::empty()
    } else {
        let init = routes_without(routes.drop_last(), plugin);
        if routes.last().plugin@ == plugin {
            init
        } else {
            init.push(routes.last())
        }
    }
}

/// Removes the routes that a plugin serves.
pub fn cleanup_plugin(routes: &mut Vec<Route>, plugin: &str)
    ensures
        final(routes)@ == routes_without(old(routes)@, plugin@),
{
    let ghost all = routes@;
    let ghost mut k: int = 0;
    let mut i: usize = 0;
    assert(all.take(0) =~= Seq::<Route>::empty());
    assert(all.skip(0) =~= all);
    while i < routes.len()
        invariant
            0 <= k <= all.len(),
            all == old(routes)@,
            i == routes_without(all.take(k), plugin@).len(),
            routes@ =~= routes_without(all.take(k), plugin@) + all.skip(k),
        decreases routes.len() - i,
    {
        proof {
            assert(routes@[i as int] == all[k]);
            assert(all.take(k + 1).drop_last() =~= all.take(k));
            assert(all.take(k + 1).last() == all[k]);
            assert(all.skip(k).drop_first() =~= all.skip(k + 1));
        }
        if same(routes[i].plugin.as_str(), plugin) {
            routes.remove(i);
            assert(routes@ =~= routes_without(all.take(k + 1), plugin@) + all.skip(k + 1));
        } else {
            i = i + 1;
            assert(routes@ =~= routes_without(all.take(k + 1), plugin@) + all.skip(k + 1));
        }
        proof {
            k = k + 1;
        }
    }
    assert(all.take(k) =~= all) by {
        assert(routes@.len() == i + (all.len() - k));
    }
    assert(all.skip(k) =~= Seq::<Route>::empty());
}

/// Once a plugin was cleaned up, no route leads to it, and the routes of others stay.
pub proof fn no_route_to_the_gone(routes: Seq<Route>, plugin: Seq<char>)
    ensures
        forall|i: int|
            0 <= i < routes_without(routes, plugin).len() ==> (#[trigger] routes_without(
                routes,
                plugin,
            )[i]).plugin@ != plugin,
        forall|i: int|
            0 <= i < routes.len() && (#[trigger] routes[i]).plugin@ != plugin ==> routes_without(
                routes,
                plugin,
            ).contains(routes[i]),
    decreases routes.len(),
{
    if routes.len() > 0 {
        let init = routes.drop_last();
        no_route_to_the_gone(init, plugin);
        let w = routes_without(routes, plugin);
        let w0 = routes_without(init, plugin);
        assert forall|i: int|
            0 <= i < routes.len() && (#[trigger] routes[i]).plugin@ != plugin implies w.contains(
            routes[i],
        ) by {
            if i < init.len() {
                assert(init[i] == routes[i]);
                assert(w0.contains(routes[i]));
                let q = w0.index_of(routes[i]);
                assert(w[q] == routes[i]);
            } else {
                assert(w[w.len() - 1] == routes[i]);
            }
        }
    }
}

} // verus!

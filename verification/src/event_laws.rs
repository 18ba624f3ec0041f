//! Who hears an event, whose a subscription is, and when a holding is in use.

use crate::events::{
    belongs_to, dispatch_out, own_at, reach_of, routes_without, without_sub, Reach, SendSeen, Sub,
    SubTarget,
};
use crate::records::Held;
use crate::recovery::holding_of;
use crate::routing::{in_use, matches_topic, plugin_of, PluginEntry, Route};
use crate::wire::{HoldingRef, Ref};
use vstd::prelude::*;

verus! {

/// The holding of an identity is the first one of that identity, and there is none only where no
/// holding has it.
pub proof fn the_holding_is_of_the_identity(hs: Seq<Held>, id: u64)
    ensures
        match holding_of(hs, id) {
            Some(h) => exists|i: int|
                0 <= i < hs.len() && #[trigger] hs[i] == h && h.id == id && forall|j: int|
                    0 <= j < i ==> (#[trigger] hs[j]).id != id,
            None => forall|j: int| 0 <= j < hs.len() ==> (#[trigger] hs[j]).id != id,
        },
    decreases hs.len(),
{
    if hs.len() > 0 {
        let rest = hs.drop_first();
        the_holding_is_of_the_identity(rest, id);
        assert(forall|j: int| 0 < j < hs.len() ==> #[trigger] hs[j] == rest[j - 1]);
        if hs[0].id == id {
            assert(hs[0] == hs[0]);
        } else if let Some(h) = holding_of(rest, id) {
            let i = choose|i: int|
                0 <= i < rest.len() && #[trigger] rest[i] == h && h.id == id && forall|j: int|
                    0 <= j < i ==> (#[trigger] rest[j]).id != id;
            assert(hs[i + 1] == h);
            assert forall|j: int| 0 <= j < i + 1 implies (#[trigger] hs[j]).id != id by {
                if j > 0 {
                    assert(hs[j] == rest[j - 1]);
                }
            }
        }
    }
}

/// A holding is in use only while a record of its identity says that it is active, and only in the
/// incarnation that the handle names.
pub proof fn in_use_is_active_and_the_same(hs: Seq<Held>, r: Ref)
    ensures
        in_use(hs, r) ==> exists|i: int|
            0 <= i < hs.len() && (#[trigger] hs[i]).id == r.id && hs[i].state is Active
                && hs[i].generation == r.generation,
        forall|other: Ref|
            other.id == r.id && #[trigger] in_use(hs, other) && in_use(hs, r) ==> other.generation
                == r.generation,
{
    the_holding_is_of_the_identity(hs, r.id);
    if in_use(hs, r) {
        let h = holding_of(hs, r.id)->0;
        let i = choose|i: int|
            0 <= i < hs.len() && #[trigger] hs[i] == h && h.id == r.id && forall|j: int|
                0 <= j < i ==> (#[trigger] hs[j]).id != r.id;
        assert(hs[i].id == r.id);
    }
}

/// An event can be sent exactly to a subscription in use that is local, or whose plugin runs in the
/// incarnation under whose holding the subscription hangs. A subscription that is not in use is
/// passed over, and one in use whose plugin is gone is dropped.
pub proof fn whom_an_event_can_reach(s: Sub, plugins: Seq<PluginEntry>, hs: Seq<Held>)
    ensures
        reach_of(s, plugins, hs) == Reach::Skip <==> !in_use(hs, s.holding@),
        reach_of(s, plugins, hs) == Reach::Send ==> in_use(hs, s.holding@),
        s.target is Local && in_use(hs, s.holding@) ==> reach_of(s, plugins, hs) == Reach::Send,
        s.target matches SubTarget::Plugin(name) ==> (reach_of(s, plugins, hs) == Reach::Send
            <==> in_use(hs, s.holding@) && (plugin_of(plugins, name@) matches Some(p) && holding_of(
            hs,
            s.holding.id,
        )->0.parent == Some(p.holding.id))),
        s.target matches SubTarget::Plugin(name) ==> (plugin_of(plugins, name@) is None
            ==> reach_of(s, plugins, hs) != Reach::Send),
{
}

/// Whether an event is handed to a subscription: its pattern matches the topic, it is in use, and
/// its subscriber is there.
pub open spec fn hears(
    s: Sub,
    topic: Seq<char>,
    plugins: Seq<PluginEntry>,
    hs: Seq<Held>,
) -> bool {
    matches_topic(s.topic@, topic) && reach_of(s, plugins, hs) == Reach::Send
}

/// How many of the first subscriptions were handed an event and took it.
pub open spec fn taken(
    subs: Seq<Sub>,
    topic: Seq<char>,
    plugins: Seq<PluginEntry>,
    hs: Seq<Held>,
    sends: Seq<SendSeen>,
    n: nat,
) -> nat {
    Set::new(
        |i: int|
            0 <= i < n && hears(subs[i], topic, plugins, hs) && sends[i] == SendSeen::Sent,
    ).len()
}

/// What a dispatch tells is what happened: it counts each subscriber that was handed the event and
/// took it; it drops a subscription that matches exactly when its plugin is gone, its subscriber
/// is gone, or it is local and full; those that were full overflowed; and a plugin is reclaimed
/// exactly when one of its subscriptions was full.
pub proof fn a_dispatch_tells_what_happened(
    subs: Seq<Sub>,
    topic: Seq<char>,
    plugins: Seq<PluginEntry>,
    hs: Seq<Held>,
    sends: Seq<SendSeen>,
    n: nat,
    id: u64,
    name: Seq<char>,
)
    requires
        n <= subs.len(),
        n <= sends.len(),
    ensures
        ({
            let d = dispatch_out(subs, topic, plugins, hs, sends, n);
            &&& d.delivered == taken(subs, topic, plugins, hs, sends, n)
            &&& d.dropped.contains(id) <==> exists|i: int|
                0 <= i < n && (#[trigger] subs[i]).id == id && matches_topic(subs[i].topic@, topic)
                    && (reach_of(subs[i], plugins, hs) == Reach::Drop || (reach_of(
                    subs[i],
                    plugins,
                    hs,
                ) == Reach::Send && (sends[i] == SendSeen::Gone || (sends[i] == SendSeen::Full
                    && subs[i].target is Local))))
            &&& d.overflowed.contains(id) <==> exists|i: int|
                0 <= i < n && (#[trigger] subs[i]).id == id && hears(subs[i], topic, plugins, hs)
                    && sends[i] == SendSeen::Full
            &&& d.killed.contains(name) <==> exists|i: int|
                0 <= i < n && belongs_to(#[trigger] subs[i], name) && hears(
                    subs[i],
                    topic,
                    plugins,
                    hs,
                ) && sends[i] == SendSeen::Full
        }),
    decreases n,
{
    let d = dispatch_out(subs, topic, plugins, hs, sends, n);
    let all = Set::new(
        |i: int|
            0 <= i < n && hears(subs[i], topic, plugins, hs) && sends[i] == SendSeen::Sent,
    );
    if n == 0 {
        assert(all =~= Set::<int>::empty());
    } else {
        let k = (n - 1) as nat;
        a_dispatch_tells_what_happened(subs, topic, plugins, hs, sends, k, id, name);
        let d0 = dispatch_out(subs, topic, plugins, hs, sends, k);
        let before = Set::new(
            |i: int|
                0 <= i < k && hears(subs[i], topic, plugins, hs) && sends[i] == SendSeen::Sent,
        );
        let s = subs[n - 1];
        let last: int = n - 1;
        assert(before.finite()) by {
            let span = vstd::set_lib::set_int_range(0, k as int);
            vstd::set_lib::lemma_int_range(0, k as int);
            assert(before.subset_of(span));
            vstd::set_lib::lemma_len_subset(before, span);
        }
        if hears(s, topic, plugins, hs) && sends[last] == SendSeen::Sent {
            assert(all =~= before.insert(last));
        } else {
            assert(all =~= before);
        }
        pushed(d0.dropped, s.id, id);
        pushed(d0.overflowed, s.id, id);
        if let SubTarget::Plugin(own) = s.target {
            pushed(d0.killed, own@, name);
        }
        assert(subs[last] == s);
    }
}

proof fn pushed<T>(s: Seq<T>, x: T, y: T)
    ensures
        s.push(x).contains(y) <==> s.contains(y) || x == y,
{
    if s.contains(y) {
        let i = s.index_of(y);
        assert(s.push(x)[i] == y);
    }
    if s.push(x).contains(y) {
        let i = s.push(x).index_of(y);
        if i < s.len() {
            assert(s[i] == y);
        }
    }
    assert(s.push(x)[s.len() as int] == x);
}

/// A plugin can drop only a subscription of its own: what is found has the identity and belongs to
/// the plugin, it is the first such one, and where none is found there is none.
pub proof fn only_ones_own_is_dropped(subs: Seq<Sub>, id: u64, name: Seq<char>)
    ensures
        match own_at(subs, id, name) {
            Some(i) => {
                &&& 0 <= i < subs.len()
                &&& subs[i].id == id
                &&& subs[i].target matches SubTarget::Plugin(n) && n@ == name
                &&& forall|j: int|
                    0 <= j < i ==> !((#[trigger] subs[j]).id == id && belongs_to(subs[j], name))
            },
            None => forall|j: int|
                0 <= j < subs.len() ==> !((#[trigger] subs[j]).id == id && belongs_to(
                    subs[j],
                    name,
                )),
        },
    decreases subs.len(),
{
    if subs.len() > 0 {
        let init = subs.drop_last();
        only_ones_own_is_dropped(init, id, name);
        assert(forall|j: int| 0 <= j < init.len() ==> #[trigger] subs[j] == init[j]);
    }
}

/// Removing a subscription takes exactly the one of that identity and holding, and leaves the others
/// in their order.
pub proof fn removal_takes_one_subscription(subs: Seq<Sub>, id: u64, holding: HoldingRef)
    ensures
        without_sub(subs, id, holding) == subs.filter(
            |s: Sub| !(s.id == id && s.holding@ == holding@),
        ),
    decreases subs.len(),
{
    reveal(Seq::filter);
    if subs.len() > 0 {
        removal_takes_one_subscription(subs.drop_last(), id, holding);
    } else {
        assert(without_sub(subs, id, holding) =~= subs.filter(
            |s: Sub| !(s.id == id && s.holding@ == holding@),
        ));
    }
}

/// Cleaning up after a plugin takes exactly its routes, and leaves the others in their order.
pub proof fn cleanup_takes_the_plugins_routes(routes: Seq<Route>, plugin: Seq<char>)
    ensures
        routes_without(routes, plugin) == routes.filter(|r: Route| r.plugin@ != plugin),
    decreases routes.len(),
{
    reveal(Seq::filter);
    if routes.len() > 0 {
        cleanup_takes_the_plugins_routes(routes.drop_last(), plugin);
    } else {
        assert(routes_without(routes, plugin) =~= routes.filter(
            |r: Route| r.plugin@ != plugin,
        ));
    }
}

} // verus!

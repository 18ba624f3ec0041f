//! What a plugin may ask for, how it is admitted, and what its declarations mean.

use crate::caps::{exercised, found_for, CapStore};
use crate::client::{
    in_row, invoked, op_in, op_name, spawn_fault, text_members, window, without_colons, Invocation,
    Op,
};
use crate::declaration::{
    class_in, entries_in, entry_in, identity_in, is_declared, kind_label_of, kind_named, meta_of,
    protocol_in, string_list, strings_in, target_rule, transitions_in, verbs_in, withheld_kind,
    Consume, Emit, Entry, KindView, TargetRule,
};
use crate::error::Refusal;
use crate::handshake::{
    authentic, channels_in, conflict, first_fault, next_fault, opened, typed_fault,
    typed_next_fault, ChannelRole, Shake,
};
use crate::host::{caller_state, parent_of};
use crate::json::{member, Value};
use crate::plan_demand::{family_of, short_of};
use crate::records::Held;
use crate::routing::{destination, in_use, plugin_of, route_of, PluginEntry, Route};
use vstd::prelude::*;

verus! {

/// A request is read as what it is named: each kind of request comes from its own name, and a
/// plugin that is retiring is heard only where it gives something back.
pub proof fn a_request_is_what_it_is_named(req: Value, caller: Option<bool>)
    ensures
        op_in(req, caller) matches Ok(op) ==> {
            let name = op_name(req);
            &&& op is Invoke ==> name == Some("invoke"@)
            &&& op is Grants ==> name == Some("grants"@)
            &&& op is Emit ==> name == Some("emit"@)
            &&& op is Subscribe ==> name == Some("subscribe"@)
            &&& op is Unsubscribe ==> name == Some("unsubscribe"@)
            &&& op is SpawnChild ==> name == Some("spawn_child"@)
            &&& op is Hold ==> name == Some("hold"@)
            &&& op is Release ==> name == Some("release"@)
            &&& op is Renew ==> name == Some("renew"@)
            &&& op is SubmitPlan ==> name == Some("plan.submit"@)
            &&& op is Put ==> name == Some("put"@)
            &&& op is Read ==> name == Some("read"@)
            &&& caller == Some(false) ==> op is Release || op is Unsubscribe
        },
        caller != Some(false) ==> {
            let name = op_name(req);
            &&& name == Some("invoke"@) ==> op_in(req, caller) is Ok && op_in(req, caller)->Ok_0 is Invoke
            &&& name == Some("grants"@) ==> op_in(req, caller) is Ok && op_in(req, caller)->Ok_0 is Grants
            &&& name == Some("emit"@) ==> op_in(req, caller) is Ok && op_in(req, caller)->Ok_0 is Emit
            &&& name == Some("subscribe"@) ==> op_in(req, caller) is Ok && op_in(req, caller)->Ok_0 is Subscribe
            &&& name == Some("unsubscribe"@) ==> op_in(req, caller) is Ok && op_in(req, caller)->Ok_0 is Unsubscribe
            &&& name == Some("spawn_child"@) ==> op_in(req, caller) is Ok && op_in(req, caller)->Ok_0 is SpawnChild
            &&& name == Some("hold"@) ==> op_in(req, caller) is Ok && op_in(req, caller)->Ok_0 is Hold
            &&& name == Some("release"@) ==> op_in(req, caller) is Ok && op_in(req, caller)->Ok_0 is Release
            &&& name == Some("renew"@) ==> op_in(req, caller) is Ok && op_in(req, caller)->Ok_0 is Renew
            &&& name == Some("plan.submit"@) ==> op_in(req, caller) is Ok && op_in(req, caller)->Ok_0 is SubmitPlan
            &&& name == Some("put"@) ==> op_in(req, caller) is Ok && op_in(req, caller)->Ok_0 is Put
            &&& name == Some("read"@) ==> op_in(req, caller) is Ok && op_in(req, caller)->Ok_0 is Read
        },
        op_in(req, caller) matches Ok(Op::Invoke { verb, args }) ==> {
            &&& member(req, "verb"@) matches Some(Value::Str(s)) ==> verb == s
            &&& member(req, "args"@) matches Some(v) ==> args == v
        },
        op_in(req, caller) matches Ok(Op::Emit { topic, data }) ==> {
            &&& member(req, "topic"@) matches Some(Value::Str(s)) ==> topic == s
            &&& member(req, "data"@) matches Some(v) ==> data == v
        },
        op_in(req, caller) matches Ok(Op::Subscribe { topic }) ==> (member(req, "topic"@) matches
            Some(Value::Str(s)) ==> topic == s),
{
    names_of_requests_differ();
}

proof fn names_of_requests_differ()
    ensures
        "invoke"@ != "grants"@,
        "invoke"@ != "emit"@,
        "grants"@ != "emit"@,
        "invoke"@ != "subscribe"@,
        "grants"@ != "subscribe"@,
        "emit"@ != "subscribe"@,
        "invoke"@ != "unsubscribe"@,
        "grants"@ != "unsubscribe"@,
        "emit"@ != "unsubscribe"@,
        "subscribe"@ != "unsubscribe"@,
        "invoke"@ != "spawn_child"@,
        "grants"@ != "spawn_child"@,
        "emit"@ != "spawn_child"@,
        "subscribe"@ != "spawn_child"@,
        "unsubscribe"@ != "spawn_child"@,
        "invoke"@ != "hold"@,
        "grants"@ != "hold"@,
        "emit"@ != "hold"@,
        "subscribe"@ != "hold"@,
        "unsubscribe"@ != "hold"@,
        "spawn_child"@ != "hold"@,
        "invoke"@ != "release"@,
        "grants"@ != "release"@,
        "emit"@ != "release"@,
        "subscribe"@ != "release"@,
        "unsubscribe"@ != "release"@,
        "spawn_child"@ != "release"@,
        "hold"@ != "release"@,
        "invoke"@ != "renew"@,
        "grants"@ != "renew"@,
        "emit"@ != "renew"@,
        "subscribe"@ != "renew"@,
        "unsubscribe"@ != "renew"@,
        "spawn_child"@ != "renew"@,
        "hold"@ != "renew"@,
        "release"@ != "renew"@,
        "invoke"@ != "plan.submit"@,
        "grants"@ != "plan.submit"@,
        "emit"@ != "plan.submit"@,
        "subscribe"@ != "plan.submit"@,
        "unsubscribe"@ != "plan.submit"@,
        "spawn_child"@ != "plan.submit"@,
        "hold"@ != "plan.submit"@,
        "release"@ != "plan.submit"@,
        "renew"@ != "plan.submit"@,
        "invoke"@ != "put"@,
        "grants"@ != "put"@,
        "emit"@ != "put"@,
        "subscribe"@ != "put"@,
        "unsubscribe"@ != "put"@,
        "spawn_child"@ != "put"@,
        "hold"@ != "put"@,
        "release"@ != "put"@,
        "renew"@ != "put"@,
        "plan.submit"@ != "put"@,
        "invoke"@ != "read"@,
        "grants"@ != "read"@,
        "emit"@ != "read"@,
        "subscribe"@ != "read"@,
        "unsubscribe"@ != "read"@,
        "spawn_child"@ != "read"@,
        "hold"@ != "read"@,
        "release"@ != "read"@,
        "renew"@ != "read"@,
        "plan.submit"@ != "read"@,
        "put"@ != "read"@,
{
    reveal_strlit("invoke");
    reveal_strlit("grants");
    reveal_strlit("emit");
    reveal_strlit("subscribe");
    reveal_strlit("unsubscribe");
    reveal_strlit("spawn_child");
    reveal_strlit("hold");
    reveal_strlit("release");
    reveal_strlit("renew");
    reveal_strlit("plan.submit");
    reveal_strlit("put");
    reveal_strlit("read");
    assert("invoke"@.len() == 6 && "grants"@.len() == 6 && "emit"@.len() == 4 && "subscribe"@.len() == 9 && "unsubscribe"@.len() == 11 && "spawn_child"@.len() == 11 && "hold"@.len() == 4 && "release"@.len() == 7 && "renew"@.len() == 5 && "plan.submit"@.len() == 11 && "put"@.len() == 3 && "read"@.len() == 4);
    assert("invoke"@[0] != "grants"@[0]);
    assert("unsubscribe"@[0] != "spawn_child"@[0]);
    assert("emit"@[0] != "hold"@[0]);
    assert("unsubscribe"@[0] != "plan.submit"@[0]);
    assert("spawn_child"@[0] != "plan.submit"@[0]);
    assert("emit"@[0] != "read"@[0]);
    assert("hold"@[0] != "read"@[0]);
}

/// A plugin invokes only by its own right: a call is let through only where its slot offers the
/// verb, and the table has a capability of the plugin for the short name of the verb on the
/// driver of its family, which is exercised; the call goes where the routes say. A call that is
/// denied exercises nothing.
pub proof fn a_plugin_invokes_by_its_own_right(
    before: &CapStore,
    after: &CapStore,
    routes: Seq<Route>,
    plugins: Seq<PluginEntry>,
    hs: Seq<Held>,
    name: Seq<char>,
    verb: Seq<char>,
    now: u64,
    r: Invocation,
)
    requires
        invoked(before, after, routes, plugins, hs, name, verb, now, r),
    ensures
        r.target matches Ok(p) ==> {
            &&& plugin_of(plugins, name) matches Some(e) ==> (e.offers matches Some(o)
                ==> o@.contains(verb))
            &&& found_for(
                before,
                "plugin:"@ + name,
                "driver:"@ + family_of(verb),
                short_of(verb),
                now,
            ) matches Ok(id) && exercised(before, after, id, short_of(verb), now)
            &&& destination(routes, plugins, hs, verb, "target plugin is retiring"@) == Ok::<
                Seq<char>,
                Refusal,
            >(p@)
        },
        found_for(
            before,
            "plugin:"@ + name,
            "driver:"@ + family_of(verb),
            short_of(verb),
            now,
        ) is Err ==> r.target is Err && *after == *before,
        !in_row(plugins, name, verb) ==> r.target is Err && *after == *before,
        *after == *before && r.target is Ok ==> found_for(
            before,
            "plugin:"@ + name,
            "driver:"@ + family_of(verb),
            short_of(verb),
            now,
        ) is Ok,
{
}

/// A slot lets a plugin invoke exactly the verbs that it offers; a plugin without a slot is not
/// limited in this way.
pub proof fn a_slot_offers_its_verbs(plugins: Seq<PluginEntry>, name: Seq<char>, verb: Seq<char>)
    ensures
        plugin_of(plugins, name) matches Some(p) ==> (p.offers matches Some(o) ==> (in_row(
            plugins,
            name,
            verb,
        ) <==> o@.contains(verb))),
        plugin_of(plugins, name) matches Some(p) ==> (p.offers is None ==> in_row(
            plugins,
            name,
            verb,
        )),
{
}

/// A child is spawned only with a capability, by a parent that is there, and from a program that is
/// named.
pub proof fn a_child_is_spawned_by_right(
    found: Result<Seq<char>, Refusal>,
    parent: Option<PluginEntry>,
    name: Seq<char>,
    bin: Seq<char>,
)
    ensures
        spawn_fault(found, parent, name, bin) is None <==> found is Ok && parent is Some && bin.len()
            > 0,
        found matches Err(e) ==> spawn_fault(found, parent, name, bin) == Some(e),
{
}

/// A read is as long as it can be: it ends where what was asked for ends or where the content ends,
/// whichever comes first, and beyond the end it is empty.
pub proof fn a_read_is_as_long_as_it_can_be(size: u64, offset: u64, want: Option<u64>)
    ensures
        offset <= size ==> offset + window(size, offset, want) <= size,
        offset > size ==> window(size, offset, want) == 0,
        want matches Some(w) ==> window(size, offset, want) <= w,
        want is None && offset <= size ==> offset + window(size, offset, want) == size,
        want matches Some(w) ==> (window(size, offset, want) < w && offset <= size ==> offset
            + window(size, offset, want) == size),
{
}

/// A name without colons is the same name with each colon replaced, and nothing else.
pub proof fn only_colons_are_replaced(s: Seq<char>, i: int)
    ensures
        without_colons(s).len() == s.len(),
        !without_colons(s).contains(':'),
        0 <= i < s.len() && s[i] != ':' ==> without_colons(s)[i] == s[i],
        0 <= i < s.len() && s[i] == ':' ==> without_colons(s)[i] == '_',
        !s.contains(':') ==> without_colons(s) == s,
{
    let t = without_colons(s);
    if t.contains(':') {
        let k = t.index_of(':');
        assert(t[k] == ':');
        assert(s[k] == ':' || s[k] != ':');
    }
    if !s.contains(':') {
        assert forall|k: int| 0 <= k < s.len() implies t[k] == s[k] by {
            assert(s.contains(s[k]));
        }
        assert(t =~= s);
    }
}

/// The members of an object that are texts are kept with their names, in order, and the others are
/// left out.
pub proof fn texts_are_kept(ms: Seq<(Seq<char>, Value)>, name: Seq<char>, t: Seq<char>)
    ensures
        text_members(ms).contains((name, t)) <==> ms.contains((name, Value::Str(t))),
        text_members(ms).len() <= ms.len(),
    decreases ms.len(),
{
    if ms.len() > 0 {
        let init = ms.drop_last();
        let last = ms.last();
        texts_are_kept(init, name, t);
        assert(init.push(last) =~= ms);
        in_push(init, last, (name, Value::Str(t)));
        if let Value::Str(s) = last.1 {
            in_push(text_members(init), (last.0, s), (name, t));
        }
    }
}

proof fn in_push<T>(s: Seq<T>, x: T, y: T)
    ensures
        s.push(x).contains(y) <==> s.contains(y) || x == y,
{
    if s.contains(y) {
        let i = s.index_of(y);
        assert(s.push(x)[i] == y);
    }
    if s.push(x).contains(y) {
        let i = s.push(x).index_of(y);
        if i < s.len() {
            assert(s[i] == y);
        }
    }
    assert(s.push(x)[s.len() as int] == x);
}

/// A plugin is heard as itself: its state and its parent holding are those of its own entry.
pub proof fn a_caller_is_its_own_entry(
    plugins: Seq<PluginEntry>,
    hs: Seq<Held>,
    name: Seq<char>,
)
    ensures
        plugin_of(plugins, name) matches Some(p) ==> caller_state(plugins, hs, name) == Some(
            in_use(hs, p.holding@),
        ) && parent_of(plugins, name) == Some(p.holding.id),
        plugin_of(plugins, name) is None ==> caller_state(plugins, hs, name) is None && parent_of(
            plugins,
            name,
        ) is None,
{
}

/// A first frame is authentic only if it says hello with the very token that was given out.
pub proof fn only_the_token_opens(frame: Value, token: Seq<char>, other: Seq<char>)
    ensures
        authentic(frame, token) <==> (member(frame, "hello"@) matches Some(h) && member(
            h,
            "token"@,
        ) == Some(Value::Str(token))),
        authentic(frame, token) && authentic(frame, other) ==> token == other,
{
}

/// A plugin opens with its serving channel, says who it is, and declares a channel for its requests;
/// nothing else is asked of its first hello.
pub proof fn what_a_first_hello_needs(hello: Value)
    ensures
        first_fault(hello) is None <==> member(hello, "role"@) == Some(Value::Str("serve"@))
            && identity_in(hello) is Ok && channels_in(hello).contains("client"@),
{
}

/// A further channel is accepted exactly when it is one of those that were declared and not yet
/// opened, and is a channel for requests or events; opening it takes that one declaration and
/// leaves the others, and notes which channel is there.
pub proof fn each_channel_opens_once(s: Shake, role: Seq<char>)
    ensures
        next_fault(s, role) is None <==> s.expected.contains(role) && (role == "client"@ || role
            == "events"@),
        next_fault(s, role) is None ==> {
            let after = opened(s, role);
            &&& after.expected.len() + 1 == s.expected.len()
            &&& exists|i: int|
                0 <= i < s.expected.len() && #[trigger] s.expected[i] == role && after.expected
                    == s.expected.remove(i)
            &&& after.client <==> s.client || role == "client"@
            &&& after.events <==> s.events || role == "events"@
        },
{
    if s.expected.contains(role) {
        let k = s.expected.index_of(role);
        assert(s.expected[k] == role);
        s.expected.index_of_first_ensures(role);
        let i = s.expected.index_of_first(role)->0;
        assert(s.expected[i] == role);
    }
}

/// The same of a typed hello: the serving channel first, the very version of the protocol, and a
/// channel for requests among those declared; and of a further channel: declared, not yet opened,
/// and not a second serving one.
pub proof fn what_a_typed_hello_needs(
    role: ChannelRole,
    abi: u64,
    kernel_abi: u64,
    channels: Seq<ChannelRole>,
)
    ensures
        typed_fault(role, abi, kernel_abi, channels) is None <==> role == ChannelRole::Serve && abi
            == kernel_abi && channels.contains(ChannelRole::Client),
        typed_next_fault(channels, role) is None <==> channels.contains(role) && role
            != ChannelRole::Serve,
{
}

/// Two plugins never serve one verb: the conflict that is told is the first of the new verbs that is
/// routed already, and there is none only where no new verb is.
pub proof fn a_conflict_is_a_routed_verb(routes: Seq<Route>, verbs: Seq<Seq<char>>)
    ensures
        match conflict(routes, verbs) {
            Some(v) => exists|i: int|
                0 <= i < verbs.len() && #[trigger] verbs[i] == v && route_of(routes, v) is Some
                    && forall|j: int| 0 <= j < i ==> route_of(routes, #[trigger] verbs[j]) is None,
            None => forall|j: int|
                0 <= j < verbs.len() ==> route_of(routes, #[trigger] verbs[j]) is None,
        },
    decreases verbs.len(),
{
    if verbs.len() > 0 {
        let rest = verbs.drop_first();
        a_conflict_is_a_routed_verb(routes, rest);
        assert(forall|j: int| 0 < j < verbs.len() ==> #[trigger] verbs[j] == rest[j - 1]);
        if route_of(routes, verbs[0]) is Some {
            assert(verbs[0] == verbs[0]);
        } else if let Some(v) = conflict(routes, rest) {
            let i = choose|i: int|
                0 <= i < rest.len() && #[trigger] rest[i] == v && route_of(routes, v) is Some
                    && forall|j: int| 0 <= j < i ==> route_of(routes, #[trigger] rest[j]) is None;
            assert(verbs[i + 1] == v);
            assert forall|j: int| 0 <= j < i + 1 implies route_of(
                routes,
                #[trigger] verbs[j],
            ) is None by {
                if j > 0 {
                    assert(verbs[j] == rest[j - 1]);
                }
            }
        }
    }
}

/// A list of strings keeps the strings of the list, in order, and leaves out what is none.
pub proof fn strings_are_kept(vs: Seq<Value>, t: Seq<char>)
    ensures
        strings_in(vs).contains(t) <==> vs.contains(Value::Str(t)),
        strings_in(vs).len() <= vs.len(),
        (forall|i: int| 0 <= i < vs.len() ==> (#[trigger] vs[i]) is Str) ==> strings_in(vs).len()
            == vs.len(),
        string_list(Some(Value::Array(vs))) == strings_in(vs),
    decreases vs.len(),
{
    if vs.len() > 0 {
        let init = vs.drop_last();
        let last = vs.last();
        strings_are_kept(init, t);
        assert(init.push(last) =~= vs);
        in_push(init, last, Value::Str(t));
        if let Value::Str(s) = last {
            in_push(strings_in(init), s, t);
        }
        if forall|i: int| 0 <= i < vs.len() ==> (#[trigger] vs[i]) is Str {
            assert(vs[vs.len() - 1] is Str);
            assert forall|i: int| 0 <= i < init.len() implies (#[trigger] init[i]) is Str by {
                assert(vs[i] == init[i]);
            }
        }
    }
}

/// The verbs that a plugin advertises are read one for one, none of them empty; a list with anything
/// but names, an empty name or a name twice is refused.
pub proof fn advertised_verbs_are_read(vs: Seq<Value>, n: nat)
    requires
        n <= vs.len(),
    ensures
        verbs_in(vs, n) matches Ok(names) ==> {
            &&& names.len() == n
            &&& forall|i: int|
                0 <= i < n ==> vs[i] == Value::Str(#[trigger] names[i]) && names[i].len() > 0
        },
        verbs_in(vs, n) is Err ==> exists|i: int|
            0 <= i < n && {
                ||| !((#[trigger] vs[i]) is Str)
                ||| vs[i]->Str_0.len() == 0
                ||| exists|j: int| 0 <= j < i && #[trigger] vs[j] == vs[i]
            },
    decreases n,
{
    if n > 0 {
        advertised_verbs_are_read(vs, (n - 1) as nat);
        match verbs_in(vs, (n - 1) as nat) {
            Err(_) => {
                let i = choose|i: int|
                    0 <= i < n - 1 && {
                        ||| !((#[trigger] vs[i]) is Str)
                        ||| vs[i]->Str_0.len() == 0
                        ||| exists|j: int| 0 <= j < i && #[trigger] vs[j] == vs[i]
                    };
                assert(vs[i] == vs[i]);
            },
            Ok(names) => {
                let last = vs[n - 1];
                if let Value::Str(v) = last {
                    if names.contains(v) {
                        let j = names.index_of(v);
                        assert(vs[j] == Value::Str(names[j]));
                        assert(vs[j] == last);
                    }
                }
                assert(vs[n - 1] == last);
            },
        }
    }
}

/// A plugin says who it is by a name that is not empty and by a list of verbs.
pub proof fn an_identity_is_named(hello: Value)
    ensures
        identity_in(hello) matches Ok(who) ==> {
            &&& who.0.len() > 0
            &&& member(hello, "name"@) == Some(Value::Str(who.0))
            &&& member(hello, "verbs"@) matches Some(Value::Array(vs)) && verbs_in(vs, vs.len())
                == Ok::<Seq<Seq<char>>, Seq<char>>(who.1)
        },
{
}

/// The kind of a verb is the one that it names. What is consumed is held unless the world says
/// otherwise, what is emitted goes outside unless it can be compensated, and whatever can be
/// compensated names what compensates it.
pub proof fn a_kind_is_what_it_is_named(
    kind: Seq<char>,
    world: Option<Seq<char>>,
    compensate: Option<Seq<char>>,
    amortizable: bool,
)
    ensures
        kind_named(kind, world, compensate, amortizable) matches Ok(k) ==> {
            &&& kind_label_of(k) == kind || kind == "repeatable_shared"@
            &&& k matches KindView::Repeatable { shared } ==> (shared <==> kind
                == "repeatable_shared"@)
            &&& k == KindView::Consuming(Consume::Held) ==> world is None || world == Some("held"@)
            &&& k matches KindView::Consuming(Consume::Compensable(c)) ==> world == Some(
                "compensable"@,
            ) && compensate == Some(c)
            &&& k == KindView::Consuming(Consume::External) ==> world == Some("external"@)
            &&& k matches KindView::Emitting { world: w, amortizable: a } ==> a == amortizable && (w
                == Emit::External ==> world is None || world == Some("external"@)) && (w matches
                Emit::Compensable(c) ==> world == Some("compensable"@) && compensate == Some(c))
        },
{
    reveal_strlit("repeatable");
    reveal_strlit("repeatable_shared");
    reveal_strlit("held");
    reveal_strlit("external");
    reveal_strlit("compensable");
    assert("repeatable"@.len() == 10 && "repeatable_shared"@.len() == 17);
}

/// The effects of a verb are withheld exactly when its declaration says that it emits and, in so many
/// words, that this is not amortizable; a verb that says nothing of it is not withheld.
pub proof fn what_is_withheld_says_so(meta: Value)
    ensures
        entry_in(meta) matches Ok(Some(e)) ==> {
            &&& withheld_kind(e.kind) ==> e.kind is Emitting && member(meta, "kind"@) == Some(
                Value::Str("emitting"@),
            ) && member(meta, "amortizable"@) == Some(Value::Bool(false))
            &&& e.kind is Emitting && member(meta, "amortizable"@) == Some(Value::Bool(false))
                ==> withheld_kind(e.kind)
            &&& member(meta, "amortizable"@) is None ==> !withheld_kind(e.kind)
            &&& member(meta, "idempotent"@) matches Some(v) ==> v == Value::Bool(e.idempotent->0)
            &&& member(meta, "commutes"@) matches Some(v) ==> v == Value::Bool(e.commutes->0)
            &&& member(meta, "degrade"@) matches Some(v) ==> v == Value::Str(e.degrade->0)
        },
        entry_in(meta) == Ok::<Option<Entry>, Seq<char>>(None) ==> member(meta, "kind"@) is None
            && member(meta, "amortizable"@) is None && member(meta, "world"@) is None,
        forall|k: KindView| #[trigger] withheld_kind(k) ==> k is Emitting,
{
}

/// The transitions of a protocol are read one for one, each from three names.
pub proof fn transitions_are_read(vs: Seq<Value>, n: nat, i: int)
    requires
        0 <= i < n <= vs.len(),
    ensures
        transitions_in(vs, n) matches Ok(steps) ==> steps.len() == n && vs[i] == Value::Array(
            seq![Value::Str(steps[i].0), Value::Str(steps[i].1), Value::Str(steps[i].2)],
        ),
    decreases n,
{
    if n > 0 {
        transitions_len(vs, (n - 1) as nat);
        if i < n - 1 {
            transitions_are_read(vs, (n - 1) as nat, i);
        } else if let Ok(steps) = transitions_in(vs, n) {
            let a = vs[n - 1]->Array_0;
            assert(a =~= seq![a[0], a[1], a[2]]);
        }
    }
}

proof fn transitions_len(vs: Seq<Value>, n: nat)
    ensures
        transitions_in(vs, n) matches Ok(steps) ==> steps.len() == n,
    decreases n,
{
    if n > 0 {
        transitions_len(vs, (n - 1) as nat);
    }
}

/// A protocol that is accepted leads from a state by a verb to one state at most, and starts where it
/// says.
pub proof fn a_protocol_leads_one_way(v: Option<Value>, i: int, j: int)
    ensures
        protocol_in(v) matches Ok(Some(d)) ==> {
            &&& v matches Some(p) && member(p, "initial"@) == Some(Value::Str(d.initial))
            &&& 0 <= i < d.transitions.len() && 0 <= j < d.transitions.len()
                && d.transitions[i].0 == d.transitions[j].0 && d.transitions[i].1
                == d.transitions[j].1 ==> d.transitions[i] == d.transitions[j]
        },
        protocol_in(v) == Ok::<Option<crate::declaration::Draft>, Seq<char>>(None) <==> v is None
            || v == Some(Value::Null),
{
    if let Ok(Some(d)) = protocol_in(v) {
        if 0 <= i < d.transitions.len() && 0 <= j < d.transitions.len() {
            let a = d.transitions[i];
            let b = d.transitions[j];
            if a.0 == b.0 && a.1 == b.1 {
                assert(a.2 == b.2);
            }
        }
    }
}

/// A class declares nothing but verbs that the plugin advertises, each by what is said of that verb;
/// and a verb degrades only to one that is declared.
pub proof fn a_class_declares_its_verbs(
    name: Seq<char>,
    verbs: Seq<Seq<char>>,
    tools: Value,
    hello: Value,
    i: int,
)
    ensures
        class_in(name, verbs, tools, hello) matches Ok(c) ==> {
            &&& c.name == name
            &&& 0 <= i < c.verbs.len() ==> {
                &&& verbs.contains(c.verbs[i].0)
                &&& entry_in(meta_of(tools, c.verbs[i].0)) == Ok::<Option<Entry>, Seq<char>>(
                    Some(c.verbs[i].1),
                )
                &&& c.verbs[i].1.degrade matches Some(d) ==> exists|k: int|
                    0 <= k < c.verbs.len() && (#[trigger] c.verbs[k]).0 == d
            }
        },
{
    if let Ok(c) = class_in(name, verbs, tools, hello) {
        if 0 <= i < c.verbs.len() {
            entries_are_of_verbs(tools, verbs, verbs.len(), i);
            if let Some(d) = c.verbs[i].1.degrade {
                assert(is_declared(c.verbs, d));
            }
        }
    }
}

proof fn entries_are_of_verbs(tools: Value, verbs: Seq<Seq<char>>, n: nat, i: int)
    requires
        n <= verbs.len(),
    ensures
        entries_in(tools, verbs, n) matches Ok(es) ==> (0 <= i < es.len() ==> verbs.contains(
            es[i].0,
        ) && entry_in(meta_of(tools, es[i].0)) == Ok::<Option<Entry>, Seq<char>>(Some(es[i].1))),
    decreases n,
{
    if n > 0 {
        entries_are_of_verbs(tools, verbs, (n - 1) as nat, i);
        assert(verbs.contains(verbs[n - 1]));
    }
}

/// Where the target of an effect is read from: from the argument that is named, as an origin exactly
/// where that is asked for.
pub proof fn a_target_rule_names_its_argument(meta: Value)
    ensures
        target_rule(None) is None,
        target_rule(Some(meta)) is Some <==> (member(meta, "arg"@) matches Some(Value::Str(_))),
        target_rule(Some(meta)) matches Some(TargetRule::Origin(a)) ==> member(meta, "arg"@) == Some(
            Value::Str(a),
        ) && member(meta, "kind"@) == Some(Value::Str("origin"@)),
        target_rule(Some(meta)) matches Some(TargetRule::Literal(a)) ==> member(meta, "arg"@)
            == Some(Value::Str(a)) && member(meta, "kind"@) != Some(Value::Str("origin"@)),
{
}

} // verus!

//! How a plugin is let in: it authenticates each connection, declares itself on the first, opens
//! the channels that it declared and no others, and serves verbs that nobody else serves.

use crate::declaration::{
    declaration_identity, identity_in, meta_of, str_array, string_list, target_from_meta,
    target_rule, withheld_kind, withhold, Kind, TargetSpec,
};
use crate::error::{joined_text, KernelError, Refusal};
use crate::grants::any_object;
use crate::json::{elements_of, member, named_values, no_members, put, text, text_of, Json, Value};
use crate::resources::{plugin_subject, subject_of};
use crate::routing::{
    distinct_routes, find_plugin, find_route, plugin_of, route_of, PluginEntry, Route,
};
use crate::substrate::CLASS_PLUGIN;
use crate::text::{decimal, push_decimal, same, texts};
use vstd::prelude::*;

verus! {

/// Whether a greeting carries the token of the spawn.
pub open spec fn authentic(frame: Value, token: Seq<char>) -> bool {
    match member(frame, "hello"@) {
        Some(h) => match member(h, "token"@) {
            Some(t) => text_of(t) == Some(token),
            None => false,
        },
        None => false,
    }
}

/// The greeting of a connection, if it carries the token of the spawn.
pub fn accept_hello<'a>(frame: &'a Json, token: &str) -> (r: Result<&'a Json, KernelError>)
    ensures
        match r {
            Ok(h) => authentic(frame@, token@) && member(frame@, "hello"@) == Some(h@),
            Err(e) => !authentic(frame@, token@) && e@ == Refusal::Denied(
                "plugin hello: bad token"@,
            ),
        },
{
    if let Some(h) = frame.get("hello") {
        if let Some(t) = h.get("token") {
            if let Some(s) = t.as_str() {
                if same(s.as_str(), token) {
                    return Ok(h);
                }
            }
        }
    }
    Err(KernelError::Denied("plugin hello: bad token".to_owned()))
}

/// The role of a connection; a question mark where it names none.
pub open spec fn role_in(hello: Value) -> Seq<char> {
    match member(hello, "role"@) {
        Some(r) => match text_of(r) {
            Some(s) => s,
            None => "?"@,
        },
        None => "?"@,
    }
}

fn read_role(hello: &Json) -> (s: String)
    ensures
        s@ == role_in(hello@),
{
    match hello.get("role") {
        Some(r) => match r.as_str() {
            Some(s) => s.clone(),
            None => "?".to_owned(),
        },
        None => "?".to_owned(),
    }
}

/// The channels that a greeting declares: those it lists, or the client channel alone.
pub open spec fn channels_in(hello: Value) -> Seq<Seq<char>> {
    match member(hello, "channels"@) {
        Some(c) => if elements_of(c) is Some {
            string_list(Some(c))
        } else {
            seq!["client"@]
        },
        None => seq!["client"@],
    }
}

/// The handshake of a plugin: the channels that it still has to open.
pub struct Handshake {
    expected: Vec<String>,
    client: bool,
    events: bool,
}

/// The handshake of a plugin.
#[verifier::ext_equal]
pub struct Shake {
    /// The channels that are still to be opened.
    pub expected: Seq<Seq<char>>,
    /// Whether the client channel is open.
    pub client: bool,
    /// Whether the events channel is open.
    pub events: bool,
}

impl View for Handshake {
    type V = Shake;

    closed spec fn view(&self) -> Shake {
        Shake { expected: texts(self.expected@), client: self.client, events: self.events }
    }
}

/// What a plugin declared with its first connection.
pub struct Declared {
    pub name: String,
    pub verbs: Vec<String>,
    pub handshake: Handshake,
}

/// Why the first connection of a plugin is refused.
pub open spec fn first_fault(hello: Value) -> Option<Refusal> {
    if member(hello, "role"@) != Some(Value::Str("serve"@)) {
        Some(Refusal::Corrupt("plugin hello: first connection must be role serve"@))
    } else {
        match identity_in(hello) {
            Err(e) => Some(Refusal::Denied("plugin hello: "@ + e)),
            Ok(_) => if !channels_in(hello).contains("client"@) {
                Some(Refusal::Corrupt("plugin hello: a client channel is required"@))
            } else {
                None
            },
        }
    }
}

fn has(v: &Vec<String>, s: &str) -> (r: Option<usize>)
    ensures
        match r {
            Some(i) => i < v@.len() && texts(v@)[i as int] == s@ && forall|k: int|
                0 <= k < i ==> texts(v@)[k] != s@,
            None => !texts(v@).contains(s@),
        },
{
    let ghost all = texts(v@);
    let mut i: usize = 0;
    while i < v.len()
        invariant
            i <= v@.len(),
            all == texts(v@),
            forall|k: int| 0 <= k < i ==> all[k] != s@,
        decreases v.len() - i,
    {
        assert(all[i as int] == v@[i as int]@);
        if same(v[i].as_str(), s) {
            return Some(i);
        }
        i = i + 1;
    }
    None
}

/// A channel that was opened.
#[derive(Debug, Clone, Copy, PartialEq, Eq, Structural)]
pub enum Channel {
    Client,
    Events,
}

/// Why a further connection is refused.
pub open spec fn next_fault(s: Shake, role: Seq<char>) -> Option<Refusal> {
    if !s.expected.contains(role) {
        Some(Refusal::Corrupt("plugin hello: undeclared or duplicate role "@ + role))
    } else if role != "client"@ && role != "events"@ {
        Some(Refusal::Corrupt("plugin hello: unknown channel role "@ + role))
    } else {
        None
    }
}

/// The handshake after a channel was opened: it is not expected again.
pub open spec fn opened(s: Shake, role: Seq<char>) -> Shake {
    Shake {
        expected: s.expected.remove(s.expected.index_of_first(role)->0),
        client: s.client || role == "client"@,
        events: s.events || role == "events"@,
    }
}

impl Handshake {
    /// The client channel is open or still to be opened.
    #[verifier::type_invariant]
    spec fn client_is_due(&self) -> bool {
        self.client || texts(self.expected@).contains("client"@)
    }

    /// What a plugin declares with its first connection.
    pub fn first(hello: &Json) -> (r: Result<Declared, KernelError>)
        ensures
            match r {
                Ok(d) => {
                    &&& first_fault(hello@) is None
                    &&& identity_in(hello@) == Ok::<(Seq<char>, Seq<Seq<char>>), Seq<char>>(
                        (d.name@, texts(d.verbs@)),
                    )
                    &&& d.handshake@ == (Shake {
                        expected: channels_in(hello@),
                        client: false,
                        events: false,
                    })
                },
                Err(e) => first_fault(hello@) == Some(e@),
            },
    {
        let serve: bool = match hello.get("role") {
            Some(r) => match r.as_str() {
                Some(s) => same(s.as_str(), "serve"),
                None => false,
            },
            None => false,
        };
        if !serve {
            return Err(
                KernelError::Corrupt(
                    "plugin hello: first connection must be role serve".to_owned(),
                ),
            );
        }
        let (name, verbs) = match declaration_identity(hello) {
            Ok(p) => p,
            Err(e) => {
                return Err(KernelError::Denied(joined_text("plugin hello: ", e.as_str())));
            },
        };
        let expected: Vec<String> = match hello.get("channels") {
            Some(c) => if c.as_array().is_some() {
                str_array(Some(c))
            } else {
                let v: Vec<String> = vec!["client".to_owned()];
                assert(texts(v@) =~= seq!["client"@]);
                v
            },
            None => {
                let v: Vec<String> = vec!["client".to_owned()];
                assert(texts(v@) =~= seq!["client"@]);
                v
            },
        };
        if has(&expected, "client").is_none() {
            return Err(
                KernelError::Corrupt("plugin hello: a client channel is required".to_owned()),
            );
        }
        Ok(Declared { name, verbs, handshake: Handshake { expected, client: false, events: false } })
    }

    /// Takes a further connection of a plugin: a channel that it declared and has not opened.
    pub fn next(&mut self, hello: &Json) -> (r: Result<Channel, KernelError>)
        ensures
            ({
                let role = role_in(hello@);
                match r {
                    Ok(c) => {
                        &&& next_fault(old(self)@, role) is None
                        &&& c == if role == "client"@ {
                            Channel::Client
                        } else {
                            Channel::Events
                        }
                        &&& final(self)@ == opened(old(self)@, role)
                    },
                    Err(e) => {
                        &&& next_fault(old(self)@, role) == Some(e@)
                        &&& *final(self) == *old(self)
                    },
                }
            }),
    {
        proof {
            use_type_invariant(&*self);
        }
        let role: String = read_role(hello);
        let i: usize = match has(&self.expected, role.as_str()) {
            None => {
                return Err(
                    KernelError::Corrupt(
                        joined_text("plugin hello: undeclared or duplicate role ", role.as_str()),
                    ),
                );
            },
            Some(i) => i,
        };
        let ghost before = texts(self.expected@);
        let client: bool = same(role.as_str(), "client");
        let events: bool = same(role.as_str(), "events");
        assert(before[i as int] == role@);
        if !client && !events {
            return Err(
                KernelError::Corrupt(
                    joined_text("plugin hello: unknown channel role ", role.as_str()),
                ),
            );
        }
        proof {
            reveal_strlit("client");
            reveal_strlit("events");
            assert("client"@[0] == 'c');
            assert("events"@[0] == 'e');
            before.index_of_first_ensures(role@);
            let first = before.index_of_first(role@);
            assert(first == Some(i as int)) by {
                assert(before.contains(role@));
                let k = first->0;
                if k < i {
                    assert(before[k] == role@);
                } else if i < k {
                    assert(before[i as int] == role@);
                }
            }
        }
        let mut expected: Vec<String> = Vec::new();
        let was_client: bool = self.client;
        self.client = true;
        std::mem::swap(&mut expected, &mut self.expected);
        expected.remove(i);
        assert(texts(expected@) =~= before.remove(i as int));
        self.expected = expected;
        if client {
            Ok(Channel::Client)
        } else {
            proof {
                if !was_client {
                    let q = before.index_of("client"@);
                    assert(q != i);
                    if q < i {
                        assert(before.remove(i as int)[q] == "client"@);
                    } else {
                        assert(before.remove(i as int)[q - 1] == "client"@);
                    }
                }
            }
            self.client = was_client;
            self.events = true;
            Ok(Channel::Events)
        }
    }

    /// Whether every channel that was declared is open. The client channel then is.
    pub fn complete(&self) -> (b: bool)
        ensures
            b == (self@.expected.len() == 0),
            b ==> self@.client,
    {
        proof {
            use_type_invariant(self);
            assert(texts(self.expected@).len() == self.expected@.len());
        }
        self.expected.len() == 0
    }
}

/// The role of a channel.
#[derive(Debug, Clone, Copy, PartialEq, Eq, Structural)]
pub enum ChannelRole {
    Serve,
    Client,
    Events,
}

/// The name of a role in messages.
pub open spec fn role_name(r: ChannelRole) -> Seq<char> {
    match r {
        ChannelRole::Serve => "Serve"@,
        ChannelRole::Client => "Client"@,
        ChannelRole::Events => "Events"@,
    }
}

/// Why the first connection of a plugin with typed roles is refused: its role, its version, or
/// that it declares no client channel.
pub open spec fn typed_fault(
    role: ChannelRole,
    abi: u64,
    kernel_abi: u64,
    channels: Seq<ChannelRole>,
) -> Option<Refusal> {
    if role != ChannelRole::Serve {
        Some(Refusal::Corrupt("plugin hello: first connection must be role serve"@))
    } else if abi != kernel_abi {
        Some(
            Refusal::Denied(
                "plugin abi "@ + decimal(abi as nat) + " != kernel abi "@ + decimal(
                    kernel_abi as nat,
                ),
            ),
        )
    } else if !channels.contains(ChannelRole::Client) {
        Some(Refusal::Corrupt("plugin hello: a client channel is required"@))
    } else {
        None
    }
}

fn find_role(v: &Vec<ChannelRole>, r: ChannelRole) -> (out: Option<usize>)
    ensures
        match out {
            Some(i) => i < v@.len() && v@[i as int] == r && forall|k: int| 0 <= k < i ==> v@[k] != r,
            None => !v@.contains(r),
        },
{
    let mut i: usize = 0;
    while i < v.len()
        invariant
            i <= v@.len(),
            forall|k: int| 0 <= k < i ==> v@[k] != r,
        decreases v.len() - i,
    {
        if v[i] == r {
            return Some(i);
        }
        i = i + 1;
    }
    None
}

/// Checks the first connection of a plugin with typed roles.
pub fn check_first(
    role: ChannelRole,
    abi: u64,
    kernel_abi: u64,
    channels: &Vec<ChannelRole>,
) -> (r: Result<(), KernelError>)
    ensures
        match r {
            Ok(_) => typed_fault(role, abi, kernel_abi, channels@) is None,
            Err(e) => typed_fault(role, abi, kernel_abi, channels@) == Some(e@),
        },
{
    if role != ChannelRole::Serve {
        return Err(
            KernelError::Corrupt("plugin hello: first connection must be role serve".to_owned()),
        );
    }
    if abi != kernel_abi {
        let mut s: String = "plugin abi ".to_owned();
        push_decimal(&mut s, abi);
        s.append(" != kernel abi ");
        push_decimal(&mut s, kernel_abi);
        return Err(KernelError::Denied(s));
    }
    if find_role(channels, ChannelRole::Client).is_none() {
        return Err(KernelError::Corrupt("plugin hello: a client channel is required".to_owned()));
    }
    Ok(())
}

/// Why a further connection of a plugin with typed roles is refused.
pub open spec fn typed_next_fault(expected: Seq<ChannelRole>, role: ChannelRole) -> Option<Refusal> {
    if !expected.contains(role) {
        Some(Refusal::Corrupt("plugin hello: undeclared or duplicate role "@ + role_name(role)))
    } else if role == ChannelRole::Serve {
        Some(Refusal::Corrupt("plugin hello: duplicate serve channel"@))
    } else {
        None
    }
}

/// Takes a further connection of a plugin with typed roles: the role is not expected again.
pub fn check_next(expected: &mut Vec<ChannelRole>, role: ChannelRole) -> (r: Result<
    (),
    KernelError,
>)
    ensures
        match r {
            Ok(_) => {
                &&& typed_next_fault(old(expected)@, role) is None
                &&& exists|i: int|
                    0 <= i < old(expected)@.len() && old(expected)@[i] == role && final(
                        expected)@ == #[trigger] old(expected)@.remove(i) && forall|k: int|
                        0 <= k < i ==> old(expected)@[k] != role
            },
            Err(e) => {
                &&& typed_next_fault(old(expected)@, role) == Some(e@)
                &&& final(expected)@ == old(expected)@
            },
        },
{
    match find_role(expected, role) {
        None => {
            let name: &str = match role {
                ChannelRole::Serve => "Serve",
                ChannelRole::Client => "Client",
                ChannelRole::Events => "Events",
            };
            Err(
                KernelError::Corrupt(
                    joined_text("plugin hello: undeclared or duplicate role ", name),
                ),
            )
        },
        Some(i) => {
            assert(expected@.contains(role)) by {
                assert(expected@[i as int] == role);
            }
            if role == ChannelRole::Serve {
                return Err(
                    KernelError::Corrupt("plugin hello: duplicate serve channel".to_owned()),
                );
            }
            let ghost before = expected@;
            expected.remove(i);
            assert(expected@ == before.remove(i as int));
            Ok(())
        },
    }
}

/// The first verb that is already served.
pub open spec fn conflict(routes: Seq<Route>, verbs: Seq<Seq<char>>) -> Option<Seq<char>>
    decreases verbs.len(),
{
    if verbs.len() == 0 {
        None
    } else if route_of(routes, verbs[0]) is Some {
        Some(verbs[0])
    } else {
        conflict(routes, verbs.drop_first())
    }
}

/// The verbs of routes.
pub open spec fn verbs_of(routes: Seq<Route>) -> Seq<Seq<char>> {
    Seq::new(routes.len(), |i: int| routes[i].verb@)
}

/// Checks that no plugin of the name runs.
pub fn check_name(plugins: &Vec<PluginEntry>, name: &str) -> (r: Result<(), KernelError>)
    ensures
        match r {
            Ok(_) => plugin_of(plugins@, name@) is None,
            Err(e) => plugin_of(plugins@, name@) is Some && e@ == Refusal::Denied(
                "plugin name taken: "@ + name@,
            ),
        },
{
    match find_plugin(plugins, name) {
        None => Ok(()),
        Some(_) => Err(KernelError::Denied(joined_text("plugin name taken: ", name))),
    }
}

proof fn no_route_means_absent(routes: Seq<Route>, verb: Seq<char>)
    requires
        route_of(routes, verb) is None,
    ensures
        forall|i: int| 0 <= i < routes.len() ==> (#[trigger] routes[i]).verb@ != verb,
    decreases routes.len(),
{
    if routes.len() > 0 {
        no_route_means_absent(routes.drop_first(), verb);
        assert forall|i: int| 0 <= i < routes.len() implies (#[trigger] routes[i]).verb@ != verb by {
            if i > 0 {
                assert(routes.drop_first()[i - 1] == routes[i]);
            }
        }
    }
}

proof fn no_conflict_means_free(routes: Seq<Route>, verbs: Seq<Seq<char>>)
    requires
        conflict(routes, verbs) is None,
    ensures
        forall|i: int| 0 <= i < verbs.len() ==> route_of(routes, #[trigger] verbs[i]) is None,
    decreases verbs.len(),
{
    if verbs.len() > 0 {
        no_conflict_means_free(routes, verbs.drop_first());
        assert forall|i: int| 0 <= i < verbs.len() implies route_of(
            routes,
            #[trigger] verbs[i],
        ) is None by {
            if i > 0 {
                assert(verbs.drop_first()[i - 1] == verbs[i]);
            }
        }
    }
}

/// Adds the routes of a plugin, unless one of its verbs is already served: then nothing is added.
/// No verb is ever served twice.
pub fn publish(routes: &mut Vec<Route>, new: Vec<Route>) -> (r: Result<(), KernelError>)
    requires
        distinct_routes(old(routes)@),
        distinct_routes(new@),
    ensures
        distinct_routes(final(routes)@),
        match r {
            Ok(_) => {
                &&& conflict(old(routes)@, verbs_of(new@)) is None
                &&& final(routes)@ == old(routes)@ + new@
            },
            Err(e) => {
                &&& conflict(old(routes)@, verbs_of(new@)) matches Some(v) && e@ == Refusal::Denied(
                    "verb already routed: "@ + v,
                )
                &&& final(routes)@ == old(routes)@
            },
        },
{
    let ghost verbs = verbs_of(new@);
    let mut i: usize = 0;
    assert(verbs.skip(0) =~= verbs);
    while i < new.len()
        invariant
            i <= new@.len(),
            verbs == verbs_of(new@),
            *routes == *old(routes),
            distinct_routes(routes@),
            conflict(routes@, verbs) == conflict(routes@, verbs.skip(i as int)),
        decreases new.len() - i,
    {
        assert(verbs.skip(i as int)[0] == new@[i as int].verb@);
        assert(verbs.skip(i as int).drop_first() =~= verbs.skip(i + 1));
        if find_route(routes, new[i].verb.as_str()).is_some() {
            return Err(
                KernelError::Denied(joined_text("verb already routed: ", new[i].verb.as_str())),
            );
        }
        i = i + 1;
    }
    let ghost before = routes@;
    let ghost added = new@;
    proof {
        assert(conflict(before, verbs) is None);
        no_conflict_means_free(before, verbs);
        let all = before + added;
        assert forall|a: int, b: int| 0 <= a < b < all.len() implies (#[trigger] all[a]).verb@ != (
        #[trigger] all[b]).verb@ by {
            if a < before.len() && b >= before.len() {
                let v = added[b - before.len()].verb@;
                assert(verbs[b - before.len()] == v);
                no_route_means_absent(before, v);
                assert(before[a].verb@ != v);
            } else if a >= before.len() {
                assert(added[a - before.len()].verb@ != added[b - before.len()].verb@);
            } else {
                assert(before[a].verb@ != before[b].verb@);
            }
        }
    }
    let mut rest: Vec<Route> = new;
    routes.append(&mut rest);
    Ok(())
}

/// What is said of the arguments of a verb: what its metadata say if that is an object, and
/// otherwise that they are one.
pub open spec fn schema_of(meta: Value) -> Value {
    match member(meta, "schema"@) {
        Some(s) => if s is Object {
            s
        } else {
            any_object()
        },
        None => any_object(),
    }
}

/// A text of metadata; empty where it is missing.
pub open spec fn description_of(meta: Value) -> Seq<char> {
    match member(meta, "description"@) {
        Some(d) => match text_of(d) {
            Some(s) => s,
            None => ""@,
        },
        None => ""@,
    }
}

/// The route of a verb by its metadata and its checked character; what may not leave before it is
/// approved is withheld.
pub fn make_route(
    plugin: &str,
    verb: &str,
    tools_meta: &Json,
    kind: Option<Kind>,
    budgeted: Option<bool>,
) -> (r: Route)
    ensures
        ({
            let meta = meta_of(tools_meta@, verb@);
            &&& r.verb@ == verb@
            &&& r.plugin@ == plugin@
            &&& r.description@ == description_of(meta)
            &&& r.schema@ == schema_of(meta)
            &&& r.kind == kind
            &&& r.budgeted == budgeted
            &&& r.withhold == (kind matches Some(k) && withheld_kind(k@))
            &&& match r.target {
                Some(t) => target_rule(member(meta, "target"@)) == Some(t@),
                None => target_rule(member(meta, "target"@)) is None,
            }
        }),
{
    let absent: Json = Json::Null;
    let meta: &Json = match tools_meta.get(verb) {
        Some(m) => m,
        None => &absent,
    };
    assert(meta@ == meta_of(tools_meta@, verb@));
    let description: String = match meta.get("description") {
        Some(d) => match d.as_str() {
            Some(s) => s.clone(),
            None => "".to_owned(),
        },
        None => "".to_owned(),
    };
    let declared: Option<&Json> = match meta.get("schema") {
        Some(s) => if s.is_object() {
            Some(s)
        } else {
            None
        },
        None => None,
    };
    let schema: Json = match declared {
        Some(s) => s.clone(),
        None => {
            let mut ms: Vec<(String, Json)> = no_members();
            put(&mut ms, "type", text("object"));
            assert(named_values(ms@) =~= seq![("type"@, Value::Str("object"@))]);
            let j = Json::Object(ms);
            assert(j@ == Value::Object(named_values(ms@)));
            j
        },
    };
    let target: Option<TargetSpec> = target_from_meta(meta.get("target"));
    let held: bool = match &kind {
        Some(k) => withhold(k),
        None => false,
    };
    Route {
        verb: verb.to_owned(),
        plugin: plugin.to_owned(),
        description,
        schema,
        kind,
        budgeted,
        withhold: held,
        target,
    }
}

/// The holding that stands for a plugin.
pub struct PluginOrder {
    pub owner: String,
    pub class_id: String,
    pub instance: String,
    pub generation: String,
    pub parent: Option<u64>,
    /// The subject that started the plugin, if another did.
    pub parent_subject: Option<String>,
}

/// The holding that stands for a plugin: its generation is the token of the spawn, and it hangs
/// under the holding of the plugin that started it.
pub fn plugin_order(name: &str, token: &str, parent: Option<(String, u64)>) -> (o: PluginOrder)
    ensures
        o.owner@ == plugin_subject(name@),
        o.class_id@ == CLASS_PLUGIN@,
        o.instance@ == name@,
        o.generation@ == token@,
        match parent {
            Some((p, id)) => {
                &&& o.parent == Some(id)
                &&& o.parent_subject matches Some(s) && s@ == plugin_subject(p@)
            },
            None => o.parent is None && o.parent_subject is None,
        },
{
    let (id, subject): (Option<u64>, Option<String>) = match parent {
        Some((p, id)) => (Some(id), Some(subject_of(p.as_str()))),
        None => (None, None),
    };
    PluginOrder {
        owner: subject_of(name),
        class_id: CLASS_PLUGIN.to_owned(),
        instance: name.to_owned(),
        generation: token.to_owned(),
        parent: id,
        parent_subject: subject,
    }
}

/// The name of the socket of a spawn.
pub fn socket_name(pid: u32, index: u64) -> (s: String)
    ensures
        s@ == "plugin-"@ + decimal(pid as nat) + "-"@ + decimal(index as nat) + ".sock"@,
{
    let mut s: String = "plugin-".to_owned();
    push_decimal(&mut s, pid as u64);
    s.append("-");
    push_decimal(&mut s, index);
    s.append(".sock");
    s
}

/// How far a shutdown has gone.
#[derive(Debug, Clone, Copy, PartialEq, Eq, Structural)]
pub enum Grace {
    /// The plugin was asked to stop.
    Asked,
    /// Its group was told to terminate.
    Terminated,
    /// Its group was killed.
    Killed,
}

/// The next step of a shutdown; nothing once the plugin is gone or its group was killed.
pub fn escalate(at: Grace, exited: bool) -> (r: Option<Grace>)
    ensures
        r == if exited || at == Grace::Killed {
            None::<Grace>
        } else if at == Grace::Asked {
            Some(Grace::Terminated)
        } else {
            Some(Grace::Killed)
        },
{
    if exited {
        None
    } else {
        match at {
            Grace::Asked => Some(Grace::Terminated),
            Grace::Terminated => Some(Grace::Killed),
            Grace::Killed => None,
        }
    }
}

} // verus!

//! Routes: which plugin serves a verb, and what it said of it. Calls go to the plugin that a route
//! names, in the order that its protocol allows.

use crate::caps::{authorized_for, exercised, CapStore};
use crate::declaration::{Kind, TargetRule, TargetSpec};
use crate::error::{joined_text, KernelError, Refusal};
use crate::json::{member, text_of, Json, Value};
use crate::label::Label;
use crate::plan_demand::{family_of, short_of, split_verb};
use crate::plan_types::EffectPolicy;
use crate::plancheck::VerbSchemas;
use crate::records::{held_views, Held, HoldingRecord};
use crate::recovery::{find_holding, holding_of};
use crate::strmap::StrSet;
use crate::text::{find_first, occurs_at, same};
use crate::wire::{HoldingRef, Ref};
use vstd::prelude::*;

verus! {

/// Whether a pattern matches a topic: a trailing star matches every topic with that prefix, and
/// without one the topic must be the pattern.
pub open spec fn matches_topic(pattern: Seq<char>, topic: Seq<char>) -> bool {
    if pattern.len() > 0 && pattern.last() == '*' {
        pattern.len() - 1 <= topic.len() && topic.take(pattern.len() - 1) == pattern.drop_last()
    } else {
        pattern == topic
    }
}

/// Whether a pattern matches a topic.
pub fn topic_matches(pattern: &str, topic: &str) -> (b: bool)
    ensures
        b == matches_topic(pattern@, topic@),
{
    let n: usize = pattern.unicode_len();
    if n > 0 && pattern.get_char(n - 1) == '*' {
        let prefix: &str = pattern.substring_char(0, n - 1);
        assert(prefix@ =~= pattern@.drop_last());
        let m: usize = topic.unicode_len();
        if n - 1 > m {
            return false;
        }
        let head: &str = topic.substring_char(0, n - 1);
        assert(head@ =~= topic@.take(n - 1));
        same(head, prefix)
    } else {
        same(pattern, topic)
    }
}

/// A star alone matches every topic, and a pattern without a star matches itself alone.
pub proof fn patterns_match_by_prefix(pattern: Seq<char>, prefix: Seq<char>, topic: Seq<char>)
    ensures
        matches_topic(seq!['*'], topic),
        matches_topic(prefix.push('*'), prefix + topic),
        (pattern.len() == 0 || pattern.last() != '*') ==> (matches_topic(pattern, topic)
            <==> pattern == topic),
{
    assert(seq!['*'].drop_last() =~= topic.take(0));
    assert(prefix.push('*').drop_last() =~= prefix);
    assert((prefix + topic).take(prefix.len() as int) =~= prefix);
}

/// Where a piece first stands in a text, if it does.
#[verifier::opaque]
pub open spec fn first_at(s: Seq<char>, piece: Seq<char>) -> Option<int> {
    if exists|i: int| occurs_at(s, piece, i) {
        Some(
            choose|i: int|
                occurs_at(s, piece, i) && forall|j: int| j < i ==> !#[trigger] occurs_at(
                    s,
                    piece,
                    j,
                ),
        )
    } else {
        None
    }
}

fn find(s: &str, piece: &str) -> (r: Option<usize>)
    ensures
        match r {
            Some(i) => first_at(s@, piece@) == Some(i as int) && occurs_at(s@, piece@, i as int),
            None => first_at(s@, piece@) is None,
        },
{
    let r: Option<usize> = find_first(s, piece);
    proof {
        reveal(first_at);
        if let Some(i) = r {
            assert(occurs_at(s@, piece@, i as int));
            let c = choose|c: int|
                occurs_at(s@, piece@, c) && forall|j: int| j < c ==> !#[trigger] occurs_at(
                    s@,
                    piece@,
                    j,
                );
            assert(occurs_at(s@, piece@, c) && forall|j: int|
                j < c ==> !#[trigger] occurs_at(s@, piece@, j)) by {
                assert(occurs_at(s@, piece@, i as int) && forall|j: int|
                    j < i as int ==> !#[trigger] occurs_at(s@, piece@, j));
            }
            assert(c == i);
        }
    }
    r
}

/// The origin of an address: its scheme and what stands between that and the next slash.
pub open spec fn origin_in(url: Seq<char>) -> Option<Seq<char>> {
    match first_at(url, "://"@) {
        None => None,
        Some(i) => {
            let rest = url.skip(i + 3);
            let host = match first_at(rest, "/"@) {
                Some(j) => rest.take(j),
                None => rest,
            };
            if host.len() == 0 {
                None
            } else {
                Some(url.take(i) + "://"@ + host)
            }
        },
    }
}

/// The origin of an address.
pub fn origin_of(url: &str) -> (r: Option<String>)
    ensures
        match r {
            Some(s) => origin_in(url@) == Some(s@),
            None => origin_in(url@) is None,
        },
{
    proof {
        reveal_strlit("://");
        reveal_strlit("/");
        assert("://"@.len() == 3);
        assert("/"@.len() == 1);
    }
    let i: usize = match find(url, "://") {
        None => {
            return None;
        },
        Some(i) => i,
    };
    let n: usize = url.unicode_len();
    let scheme: &str = url.substring_char(0, i);
    let rest: &str = url.substring_char(i + 3, n);
    assert(scheme@ =~= url@.take(i as int));
    assert(rest@ =~= url@.skip(i + 3));
    let host: &str = match find(rest, "/") {
        None => rest,
        Some(j) => rest.substring_char(0, j),
    };
    proof {
        if let Some(j) = first_at(rest@, "/"@) {
            assert(host@ =~= rest@.take(j));
        }
    }
    if host.unicode_len() == 0 {
        return None;
    }
    let mut s: String = scheme.to_owned();
    s.append("://");
    s.append(host);
    Some(s)
}

/// A route: which plugin serves a verb, and what it said of it. What it said is kept and handed
/// on, not interpreted; whether its effects are withheld follows from its checked character.
pub struct Route {
    pub verb: String,
    pub plugin: String,
    pub description: String,
    pub schema: Json,
    pub kind: Option<Kind>,
    pub budgeted: Option<bool>,
    pub withhold: bool,
    pub target: Option<TargetSpec>,
}

/// The route of a verb.
pub open spec fn route_of(routes: Seq<Route>, verb: Seq<char>) -> Option<Route>
    decreases routes.len(),
{
    if routes.len() == 0 {
        None
    } else if routes[0].verb@ == verb {
        Some(routes[0])
    } else {
        route_of(routes.drop_first(), verb)
    }
}

/// The route of a verb.
pub fn find_route<'a>(routes: &'a Vec<Route>, verb: &str) -> (r: Option<&'a Route>)
    ensures
        match r {
            Some(x) => route_of(routes@, verb@) == Some(*x),
            None => route_of(routes@, verb@) is None,
        },
{
    let mut i: usize = 0;
    assert(routes@.skip(0) =~= routes@);
    while i < routes.len()
        invariant
            i <= routes@.len(),
            route_of(routes@.skip(i as int), verb@) == route_of(routes@, verb@),
        decreases routes.len() - i,
    {
        assert(routes@.skip(i as int).drop_first() =~= routes@.skip(i + 1));
        if same(routes[i].verb.as_str(), verb) {
            return Some(&routes[i]);
        }
        i = i + 1;
    }
    None
}

/// The families of the verbs that are routed.
pub fn routed_families(routes: &Vec<Route>) -> (s: StrSet)
    ensures
        forall|f: Seq<char>| #[trigger]
            s@.contains(f) <==> exists|i: int|
                0 <= i < routes@.len() && family_of((#[trigger] routes@[i]).verb@) == f,
{
    let mut s = StrSet::new();
    let mut i: usize = 0;
    while i < routes.len()
        invariant
            i <= routes@.len(),
            forall|f: Seq<char>| #[trigger]
                s@.contains(f) <==> exists|k: int|
                    0 <= k < i && family_of((#[trigger] routes@[k]).verb@) == f,
        decreases routes.len() - i,
    {
        let ghost before = s@;
        let parts: (String, String) = split_verb(routes[i].verb.as_str());
        let ghost fv = parts.0@;
        s.insert(parts.0);
        proof {
            assert(s@ == before.insert(fv));
            assert forall|f: Seq<char>| #[trigger] s@.contains(f) <==> exists|k: int|
                0 <= k < i + 1 && family_of((#[trigger] routes@[k]).verb@) == f by {
                if before.contains(f) {
                    let k = choose|k: int|
                        0 <= k < i && family_of((#[trigger] routes@[k]).verb@) == f;
                    assert(0 <= k < i + 1 && family_of(routes@[k].verb@) == f);
                }
                if f == fv {
                    assert(family_of(routes@[i as int].verb@) == f);
                }
                if exists|k: int| 0 <= k < i + 1 && family_of((#[trigger] routes@[k]).verb@) == f {
                    let k = choose|k: int|
                        0 <= k < i + 1 && family_of((#[trigger] routes@[k]).verb@) == f;
                    if k < i {
                        assert(before.contains(f));
                    }
                }
            }
        }
        i = i + 1;
    }
    s
}

/// Whether the verb of a route reads only.
pub open spec fn reads(r: Route) -> bool {
    r.kind matches Some(k) && k@ is Repeatable
}

/// Whether the verb of a route acts outside.
pub open spec fn emits(r: Route) -> bool {
    r.kind matches Some(k) && k@ is Emitting
}

/// Whether the verbs of routes are distinct.
pub open spec fn distinct_routes(routes: Seq<Route>) -> bool {
    forall|i: int, j: int|
        0 <= i < j < routes.len() ==> (#[trigger] routes[i]).verb@ != (#[trigger] routes[j]).verb@
}

/// What is declared about the verbs that are routed, for the admission of plans: a verb that reads
/// is observed without secrecy, and one that acts outside is an external sink.
pub fn kernel_schemas(routes: &Vec<Route>) -> (s: VerbSchemas)
    requires
        distinct_routes(routes@),
    ensures
        forall|v: Seq<char>| #[trigger]
            s.observe@.contains_key(v) <==> route_of(routes@, v) is Some && reads(
                route_of(routes@, v)->0,
            ),
        forall|v: Seq<char>|
            s.observe@.contains_key(v) ==> (#[trigger] s.observe@[v])@
                == crate::label::bottom(),
        forall|v: Seq<char>| #[trigger]
            s.external_effects@.contains_key(v) <==> route_of(routes@, v) is Some && emits(
                route_of(routes@, v)->0,
            ),
        forall|v: Seq<char>|
            s.external_effects@.contains_key(v) ==> #[trigger] s.external_effects@[v],
{
    let mut s = VerbSchemas::default();
    let mut i: usize = 0;
    while i < routes.len()
        invariant
            i <= routes@.len(),
            distinct_routes(routes@),
            forall|v: Seq<char>| #[trigger]
                s.observe@.contains_key(v) <==> exists|k: int|
                    0 <= k < i && (#[trigger] routes@[k]).verb@ == v && reads(routes@[k]),
            forall|v: Seq<char>|
                s.observe@.contains_key(v) ==> (#[trigger] s.observe@[v])@
                    == crate::label::bottom(),
            forall|v: Seq<char>| #[trigger]
                s.external_effects@.contains_key(v) <==> exists|k: int|
                    0 <= k < i && (#[trigger] routes@[k]).verb@ == v && emits(routes@[k]),
            forall|v: Seq<char>|
                s.external_effects@.contains_key(v) ==> #[trigger] s.external_effects@[v],
        decreases routes.len() - i,
    {
        match &routes[i].kind {
            Some(Kind::Repeatable { .. }) => {
                s.observe.insert(routes[i].verb.clone(), Label::public_trusted());
            },
            Some(Kind::Emitting { .. }) => {
                s.external_effects.insert(routes[i].verb.clone(), true);
            },
            _ => {},
        }
        i = i + 1;
    }
    proof {
        assert forall|v: Seq<char>| #[trigger] s.observe@.contains_key(v) <==> route_of(
            routes@,
            v,
        ) is Some && reads(route_of(routes@, v)->0) by {
            route_is(routes@, v);
        }
        assert forall|v: Seq<char>| #[trigger] s.external_effects@.contains_key(v) <==> route_of(
            routes@,
            v,
        ) is Some && emits(route_of(routes@, v)->0) by {
            route_is(routes@, v);
        }
    }
    s
}

proof fn route_is(routes: Seq<Route>, v: Seq<char>)
    requires
        distinct_routes(routes),
    ensures
        forall|k: int|
            0 <= k < routes.len() && (#[trigger] routes[k]).verb@ == v ==> route_of(routes, v)
                == Some(routes[k]),
        route_of(routes, v) is Some ==> exists|k: int|
            0 <= k < routes.len() && (#[trigger] routes[k]).verb@ == v && route_of(routes, v)
                == Some(routes[k]),
    decreases routes.len(),
{
    if routes.len() > 0 {
        let rest = routes.drop_first();
        assert forall|i: int, j: int| 0 <= i < j < rest.len() implies (#[trigger] rest[i]).verb@
            != (#[trigger] rest[j]).verb@ by {
            assert(routes[i + 1].verb@ != routes[j + 1].verb@);
        }
        route_is(rest, v);
        assert forall|k: int|
            0 <= k < routes.len() && (#[trigger] routes[k]).verb@ == v implies route_of(routes, v)
            == Some(routes[k]) by {
            if k > 0 {
                assert(routes[0].verb@ != routes[k].verb@);
                assert(rest[k - 1] == routes[k]);
            }
        }
        if route_of(routes, v) is Some && routes[0].verb@ != v {
            let k = choose|k: int|
                0 <= k < rest.len() && (#[trigger] rest[k]).verb@ == v && route_of(rest, v) == Some(
                    rest[k],
                );
            assert(routes[k + 1] == rest[k]);
        }
    }
}

/// A text argument, or a star where there is none.
pub open spec fn arg_text(args: Value, name: Seq<char>) -> Seq<char> {
    match member(args, name) {
        Some(x) => match text_of(x) {
            Some(s) => s,
            None => "*"@,
        },
        None => "*"@,
    }
}

/// The target of an effect, as its route reads it from the arguments.
pub open spec fn target_of(rule: Option<TargetRule>, args: Value) -> Seq<char> {
    match rule {
        None => "*"@,
        Some(TargetRule::Literal(arg)) => arg_text(args, arg),
        Some(TargetRule::Origin(arg)) => match origin_in(arg_text(args, arg)) {
            Some(o) => o,
            None => arg_text(args, arg),
        },
    }
}

/// How the target of an effect is read on a route.
pub open spec fn rule_of(r: Option<Route>) -> Option<TargetRule> {
    match r {
        None => None,
        Some(x) => match x.target {
            Some(t) => Some(t@),
            None => None,
        },
    }
}

fn read_arg(args: &Json, name: &str) -> (s: String)
    ensures
        s@ == arg_text(args@, name@),
{
    match args.get(name) {
        Some(x) => match x.as_str() {
            Some(s) => s.clone(),
            None => "*".to_owned(),
        },
        None => "*".to_owned(),
    }
}

/// The target of an effect and whether it is withheld, both from one look at its route.
pub fn effect_policy(routes: &Vec<Route>, verb: &str, args: &Json) -> (p: EffectPolicy)
    ensures
        p.target@ == target_of(rule_of(route_of(routes@, verb@)), args@),
        p.withhold == (route_of(routes@, verb@) matches Some(r) && r.withhold),
{
    match find_route(routes, verb) {
        None => EffectPolicy { target: "*".to_owned(), withhold: false },
        Some(r) => {
            let target: String = match &r.target {
                None => "*".to_owned(),
                Some(TargetSpec::Literal(arg)) => read_arg(args, arg.as_str()),
                Some(TargetSpec::Origin(arg)) => {
                    let raw: String = read_arg(args, arg.as_str());
                    match origin_of(raw.as_str()) {
                        Some(o) => o,
                        None => raw,
                    }
                },
            };
            EffectPolicy { target, withhold: r.withhold }
        },
    }
}

/// A plugin that runs: its holding, and the verbs that its slot lets it invoke, if it has a slot.
pub struct PluginEntry {
    pub name: String,
    pub holding: HoldingRef,
    pub offers: Option<StrSet>,
}

/// The plugin of a name.
pub open spec fn plugin_of(plugins: Seq<PluginEntry>, name: Seq<char>) -> Option<PluginEntry>
    decreases plugins.len(),
{
    if plugins.len() == 0 {
        None
    } else if plugins[0].name@ == name {
        Some(plugins[0])
    } else {
        plugin_of(plugins.drop_first(), name)
    }
}

/// The plugin of a name.
pub fn find_plugin<'a>(plugins: &'a Vec<PluginEntry>, name: &str) -> (r: Option<&'a PluginEntry>)
    ensures
        match r {
            Some(x) => plugin_of(plugins@, name@) == Some(*x),
            None => plugin_of(plugins@, name@) is None,
        },
{
    let mut i: usize = 0;
    assert(plugins@.skip(0) =~= plugins@);
    while i < plugins.len()
        invariant
            i <= plugins@.len(),
            plugin_of(plugins@.skip(i as int), name@) == plugin_of(plugins@, name@),
        decreases plugins.len() - i,
    {
        assert(plugins@.skip(i as int).drop_first() =~= plugins@.skip(i + 1));
        if same(plugins[i].name.as_str(), name) {
            return Some(&plugins[i]);
        }
        i = i + 1;
    }
    None
}

/// Whether a holding is in use, in the incarnation that a handle names.
pub open spec fn in_use(hs: Seq<Held>, r: Ref) -> bool {
    holding_of(hs, r.id) matches Some(h) && h.state is Active && h.generation == r.generation
}

/// Whether a holding is in use, in the incarnation that a handle names.
pub fn is_in_use(holdings: &Vec<HoldingRecord>, r: &HoldingRef) -> (b: bool)
    ensures
        b == in_use(held_views(holdings@), r@),
{
    match find_holding(holdings, r.id) {
        None => false,
        Some(h) => h.state.is_active() && same(h.generation.as_str(), r.generation.as_str()),
    }
}

/// The plugin that a call of a verb goes to, or why there is none.
pub open spec fn destination(
    routes: Seq<Route>,
    plugins: Seq<PluginEntry>,
    hs: Seq<Held>,
    verb: Seq<char>,
    retiring: Seq<char>,
) -> Result<Seq<char>, Refusal> {
    match route_of(routes, verb) {
        None => Err(Refusal::NotFound("no route for verb: "@ + verb)),
        Some(r) => match plugin_of(plugins, r.plugin@) {
            None => Err(Refusal::NotFound("plugin gone: "@ + r.plugin@)),
            Some(p) => if in_use(hs, p.holding@) {
                Ok(r.plugin@)
            } else {
                Err(Refusal::Denied(retiring))
            },
        },
    }
}

/// The plugin that a call of a verb goes to.
pub fn resolve(
    routes: &Vec<Route>,
    plugins: &Vec<PluginEntry>,
    holdings: &Vec<HoldingRecord>,
    verb: &str,
    retiring: &str,
) -> (r: Result<String, KernelError>)
    ensures
        ({
            let out = destination(routes@, plugins@, held_views(holdings@), verb@, retiring@);
            match r {
                Ok(s) => out == Ok::<Seq<char>, Refusal>(s@),
                Err(e) => out == Err::<Seq<char>, Refusal>(e@),
            }
        }),
{
    let route: &Route = match find_route(routes, verb) {
        None => {
            return Err(KernelError::NotFound(joined_text("no route for verb: ", verb)));
        },
        Some(r) => r,
    };
    let plugin: &PluginEntry = match find_plugin(plugins, route.plugin.as_str()) {
        None => {
            return Err(KernelError::NotFound(joined_text("plugin gone: ", route.plugin.as_str())));
        },
        Some(p) => p,
    };
    if is_in_use(holdings, &plugin.holding) {
        Ok(route.plugin.clone())
    } else {
        Err(KernelError::Denied(retiring.to_owned()))
    }
}

/// The resource of the verbs of a family.
pub open spec fn driver_of(verb: Seq<char>) -> Seq<char> {
    "driver:"@ + family_of(verb)
}

/// Where a call goes that a subject makes of a verb. The capability is exercised before the route
/// is looked up: a call that finds no plugin is paid for. A spent budget and the want of a
/// capability are told by their own errors.
pub fn invoke_as(
    caps: &mut CapStore,
    routes: &Vec<Route>,
    plugins: &Vec<PluginEntry>,
    holdings: &Vec<HoldingRecord>,
    subject: &str,
    verb: &str,
    now: u64,
) -> (r: Result<String, KernelError>)
    ensures
        match authorized_for(old(caps), subject@, driver_of(verb@), short_of(verb@), now) {
            Err(e) => *final(caps) == *old(caps) && r is Err && r->Err_0@ == e,
            Ok(id) => {
                let out = destination(
                    routes@,
                    plugins@,
                    held_views(holdings@),
                    verb@,
                    "plugin is retiring"@,
                );
                &&& exercised(old(caps), final(caps), id, short_of(verb@), now)
                &&& match r {
                    Ok(s) => out == Ok::<Seq<char>, Refusal>(s@),
                    Err(e) => out == Err::<Seq<char>, Refusal>(e@),
                }
            },
        },
{
    let parts: (String, String) = split_verb(verb);
    let resource: String = joined_text("driver:", parts.0.as_str());
    match caps.authorize(subject, resource.as_str(), parts.1.as_str(), now) {
        Err(e) => Err(e),
        Ok(_) => resolve(routes, plugins, holdings, verb, "plugin is retiring"),
    }
}

/// What became of a step of a protocol: the next state, or the state in which the verb is not
/// allowed.
pub struct ProtocolStep {
    pub next: Result<String, String>,
}

/// Whether a call may be sent. A verb that the protocol does not allow now is refused.
pub fn call_allowed(verb: &str, step: &Option<ProtocolStep>) -> (r: Result<(), KernelError>)
    ensures
        match r {
            Ok(_) => step is None || step->0.next is Ok,
            Err(e) => step matches Some(s) && s.next is Err && e@ == Refusal::Denied(
                "protocol violation: "@ + verb@ + " in state "@ + step->0.next->Err_0@,
            ),
        },
{
    if let Some(s) = step {
        if let Err(state) = &s.next {
            let mut t: String = joined_text("protocol violation: ", verb);
            t.append(" in state ");
            t.append(state.as_str());
            return Err(KernelError::Denied(t));
        }
    }
    Ok(())
}

/// The result of a call, by the answer of the plugin: an error that it reports, or what it says is
/// the result. Null stands for a result that it does not name.
pub open spec fn call_result(answer: Value) -> Result<Value, Refusal> {
    match member(answer, "err"@) {
        Some(e) => match text_of(e) {
            Some(s) => Err(Refusal::Denied("plugin error: "@ + s)),
            None => ok_in(answer),
        },
        None => ok_in(answer),
    }
}

/// What an answer says is the result.
pub open spec fn ok_in(answer: Value) -> Result<Value, Refusal> {
    match member(answer, "ok"@) {
        Some(v) => Ok(v),
        None => Ok(Value::Null),
    }
}

/// The result of a call and the state of the protocol after it. The protocol advances only if the
/// call succeeded.
pub fn call_answered(answer: &Json, state: Option<String>, step: Option<ProtocolStep>) -> (r: (
    Result<Json, KernelError>,
    Option<String>,
))
    requires
        step matches Some(s) ==> s.next is Ok,
    ensures
        match r.0 {
            Ok(v) => {
                &&& call_result(answer@) == Ok::<Value, Refusal>(v@)
                &&& r.1 == match (state, step) {
                    (Some(_), Some(s)) => Some(s.next->Ok_0),
                    _ => state,
                }
            },
            Err(e) => call_result(answer@) == Err::<Value, Refusal>(e@) && r.1 == state,
        },
{
    if let Some(e) = answer.get("err") {
        if let Some(s) = e.as_str() {
            return (Err(KernelError::Denied(joined_text("plugin error: ", s.as_str()))), state);
        }
    }
    let value: Json = match answer.get("ok") {
        Some(v) => v.clone(),
        None => Json::Null,
    };
    let next: Option<String> = match (state, step) {
        (Some(old_state), Some(s)) => match s.next {
            Ok(n) => Some(n),
            Err(_) => Some(old_state),
        },
        (old_state, _) => old_state,
    };
    (Ok(value), next)
}

} // verus!

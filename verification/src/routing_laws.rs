//! What holds of patterns, addresses, routes and the names of verbs.

use crate::declaration::TargetRule;
use crate::error::Refusal;
use crate::json::{find_member, member, Value};
use crate::plan_demand::{
    family_of, is_first, is_last, orders_for, pools_of, short_of, PoolView,
};
use crate::records::Held;
use crate::routing::{
    call_result, destination, distinct_routes, first_at, in_use, matches_topic, origin_in,
    plugin_of, route_of, target_of, PluginEntry, Route,
};
use crate::text::occurs_at;
use vstd::prelude::*;

verus! {

/// A pattern of a prefix and a trailing star matches exactly the topics that are that prefix
/// followed by some text.
pub proof fn a_star_stands_for_some_text(prefix: Seq<char>, topic: Seq<char>)
    ensures
        matches_topic(prefix.push('*'), topic) <==> exists|rest: Seq<char>|
            topic == #[trigger] (prefix + rest),
{
    let pattern = prefix.push('*');
    assert(pattern.drop_last() =~= prefix);
    if matches_topic(pattern, topic) {
        let rest = topic.skip(prefix.len() as int);
        assert(topic =~= topic.take(prefix.len() as int) + rest);
        assert(topic == prefix + rest);
    }
    if exists|rest: Seq<char>| topic == #[trigger] (prefix + rest) {
        let rest = choose|rest: Seq<char>| topic == #[trigger] (prefix + rest);
        assert((prefix + rest).take(prefix.len() as int) =~= prefix);
    }
}

/// A pattern without a trailing star matches one topic, itself; and a longer prefix matches fewer
/// topics.
pub proof fn patterns_narrow(pattern: Seq<char>, prefix: Seq<char>, more: Seq<char>, topic: Seq<char>)
    ensures
        pattern.len() == 0 || pattern.last() != '*' ==> (matches_topic(pattern, topic) <==> topic
            == pattern),
        matches_topic((prefix + more).push('*'), topic) ==> matches_topic(prefix.push('*'), topic),
        matches_topic(prefix.push('*'), topic) ==> topic.len() >= prefix.len() && prefix
            == topic.take(prefix.len() as int),
{
    a_star_stands_for_some_text(prefix + more, topic);
    a_star_stands_for_some_text(prefix, topic);
    if matches_topic((prefix + more).push('*'), topic) {
        let rest = choose|rest: Seq<char>| topic == #[trigger] ((prefix + more) + rest);
        assert(topic =~= prefix + (more + rest));
    }
    if matches_topic(prefix.push('*'), topic) {
        let rest = choose|rest: Seq<char>| topic == #[trigger] (prefix + rest);
        assert(topic.take(prefix.len() as int) =~= prefix);
    }
}

proof fn a_first_exists(s: Seq<char>, piece: Seq<char>, i: int)
    requires
        occurs_at(s, piece, i),
    ensures
        exists|k: int|
            occurs_at(s, piece, k) && forall|j: int| j < k ==> !#[trigger] occurs_at(s, piece, j),
    decreases i,
{
    if exists|j: int| j < i && occurs_at(s, piece, j) {
        let j = choose|j: int| j < i && occurs_at(s, piece, j);
        a_first_exists(s, piece, j);
    } else {
        assert(occurs_at(s, piece, i) && forall|j: int| j < i ==> !#[trigger] occurs_at(
            s,
            piece,
            j,
        ));
    }
}

/// The first place of a piece in a text is a place of it, and no earlier one is; where there is no
/// such place the piece stands nowhere.
pub proof fn the_first_place_is_the_first(s: Seq<char>, piece: Seq<char>)
    ensures
        match first_at(s, piece) {
            Some(i) => occurs_at(s, piece, i) && forall|j: int|
                j < i ==> !#[trigger] occurs_at(s, piece, j),
            None => forall|j: int| !#[trigger] occurs_at(s, piece, j),
        },
{
    reveal(first_at);
    if exists|i: int| occurs_at(s, piece, i) {
        let i = choose|i: int| occurs_at(s, piece, i);
        a_first_exists(s, piece, i);
    }
}

/// Whether a text is an address: a scheme, a separator that stands nowhere before, a host without
/// a slash, and what follows from the next slash on.
pub open spec fn spells(
    url: Seq<char>,
    scheme: Seq<char>,
    host: Seq<char>,
    tail: Seq<char>,
) -> bool {
    &&& url == scheme + "://"@ + host + tail
    &&& forall|j: int| j < scheme.len() ==> !#[trigger] occurs_at(url, "://"@, j)
    &&& host.len() > 0
    &&& !host.contains('/')
    &&& tail.len() == 0 || tail[0] == '/'
}

proof fn slash_at(s: Seq<char>, j: int)
    ensures
        occurs_at(s, "/"@, j) <==> 0 <= j < s.len() && s[j] == '/',
{
    reveal_strlit("/");
    assert("/"@ =~= seq!['/']);
    if 0 <= j < s.len() {
        assert(s.subrange(j, j + 1) =~= seq![s[j]]);
        assert(seq![s[j]][0] == s[j]);
        assert(seq!['/'][0] == '/');
    }
}

/// The origin of an address is its scheme, the separator and its host; a text that is no address
/// has none.
pub proof fn an_origin_is_scheme_and_host(
    url: Seq<char>,
    scheme: Seq<char>,
    host: Seq<char>,
    tail: Seq<char>,
)
    ensures
        spells(url, scheme, host, tail) ==> origin_in(url) == Some(scheme + "://"@ + host),
        origin_in(url) matches Some(o) ==> exists|a: Seq<char>, b: Seq<char>, c: Seq<char>|
            #[trigger] spells(url, a, b, c) && o == a + "://"@ + b,
{
    reveal_strlit("://");
    assert("://"@.len() == 3);
    the_first_place_is_the_first(url, "://"@);
    if spells(url, scheme, host, tail) {
        let n = scheme.len() as int;
        assert(url.subrange(n, n + 3) =~= "://"@);
        assert(occurs_at(url, "://"@, n));
        let i = first_at(url, "://"@)->0;
        assert(i == n);
        let rest = url.skip(n + 3);
        assert(rest =~= host + tail);
        assert(url.take(n) =~= scheme);
        the_first_place_is_the_first(rest, "/"@);
        match first_at(rest, "/"@) {
            Some(j) => {
                slash_at(rest, j);
                if j < host.len() {
                    assert(host[j] == '/');
                    assert(host.contains('/'));
                }
                if j > host.len() {
                    slash_at(rest, host.len() as int);
                    assert(rest[host.len() as int] == tail[0]);
                }
                assert(rest.take(j) =~= host);
            },
            None => {
                if tail.len() > 0 {
                    slash_at(rest, host.len() as int);
                    assert(rest[host.len() as int] == tail[0]);
                }
                assert(rest =~= host);
            },
        }
    }
    if let Some(o) = origin_in(url) {
        let i = first_at(url, "://"@)->0;
        let rest = url.skip(i + 3);
        the_first_place_is_the_first(rest, "/"@);
        let a = url.take(i);
        let (b, c) = match first_at(rest, "/"@) {
            Some(j) => (rest.take(j), rest.skip(j)),
            None => (rest, Seq::empty()),
        };
        if let Some(j) = first_at(rest, "/"@) {
            slash_at(rest, j);
            assert(c[0] == rest[j]);
        }
        if b.contains('/') {
            let k = b.index_of('/');
            assert(rest[k] == '/');
            slash_at(rest, k);
            assert(occurs_at(rest, "/"@, k));
        }
        assert(url.subrange(i, i + 3) == "://"@);
        assert(url =~= a + "://"@ + b + c);
        assert(spells(url, a, b, c));
    }
}

/// The route of a verb is the first route of that verb, and a verb has none only where no route is
/// of it.
pub proof fn the_route_is_of_the_verb(routes: Seq<Route>, verb: Seq<char>)
    ensures
        match route_of(routes, verb) {
            Some(r) => exists|i: int|
                0 <= i < routes.len() && #[trigger] routes[i] == r && r.verb@ == verb && forall|
                    j: int,
                |
                    0 <= j < i ==> (#[trigger] routes[j]).verb@ != verb,
            None => forall|j: int| 0 <= j < routes.len() ==> (#[trigger] routes[j]).verb@ != verb,
        },
    decreases routes.len(),
{
    if routes.len() > 0 {
        let rest = routes.drop_first();
        the_route_is_of_the_verb(rest, verb);
        assert(forall|j: int| 0 < j < routes.len() ==> #[trigger] routes[j] == rest[j - 1]);
        if routes[0].verb@ == verb {
            assert(routes[0] == routes[0]);
        } else if let Some(r) = route_of(rest, verb) {
            let i = choose|i: int|
                0 <= i < rest.len() && #[trigger] rest[i] == r && r.verb@ == verb && forall|j: int|
                    0 <= j < i ==> (#[trigger] rest[j]).verb@ != verb;
            assert(routes[i + 1] == r);
            assert forall|j: int| 0 <= j < i + 1 implies (#[trigger] routes[j]).verb@ != verb by {
                if j > 0 {
                    assert(routes[j] == rest[j - 1]);
                }
            }
        }
    }
}

/// The plugin of a name is the first entry of that name, and a name has none only where no entry is
/// of it.
pub proof fn the_plugin_is_of_the_name(plugins: Seq<PluginEntry>, name: Seq<char>)
    ensures
        match plugin_of(plugins, name) {
            Some(p) => exists|i: int|
                0 <= i < plugins.len() && #[trigger] plugins[i] == p && p.name@ == name && forall|
                    j: int,
                |
                    0 <= j < i ==> (#[trigger] plugins[j]).name@ != name,
            None => forall|j: int| 0 <= j < plugins.len() ==> (#[trigger] plugins[j]).name@ != name,
        },
    decreases plugins.len(),
{
    if plugins.len() > 0 {
        let rest = plugins.drop_first();
        the_plugin_is_of_the_name(rest, name);
        assert(forall|j: int| 0 < j < plugins.len() ==> #[trigger] plugins[j] == rest[j - 1]);
        if plugins[0].name@ == name {
            assert(plugins[0] == plugins[0]);
        } else if let Some(p) = plugin_of(rest, name) {
            let i = choose|i: int|
                0 <= i < rest.len() && #[trigger] rest[i] == p && p.name@ == name && forall|j: int|
                    0 <= j < i ==> (#[trigger] rest[j]).name@ != name;
            assert(plugins[i + 1] == p);
            assert forall|j: int| 0 <= j < i + 1 implies (#[trigger] plugins[j]).name@ != name by {
                if j > 0 {
                    assert(plugins[j] == rest[j - 1]);
                }
            }
        }
    }
}

/// A call goes only to the plugin that a route of the verb names, while that plugin runs on a
/// holding in use; and where there are such a route and such a plugin, it goes there.
pub proof fn a_call_goes_where_its_route_says(
    routes: Seq<Route>,
    plugins: Seq<PluginEntry>,
    hs: Seq<Held>,
    verb: Seq<char>,
    retiring: Seq<char>,
    i: int,
    k: int,
)
    ensures
        destination(routes, plugins, hs, verb, retiring) matches Ok(name) ==> {
            &&& exists|a: int|
                0 <= a < routes.len() && (#[trigger] routes[a]).verb@ == verb && routes[a].plugin@
                    == name
            &&& exists|b: int|
                0 <= b < plugins.len() && (#[trigger] plugins[b]).name@ == name && in_use(
                    hs,
                    plugins[b].holding@,
                )
        },
        distinct_routes(routes) && 0 <= i < routes.len() && routes[i].verb@ == verb && 0 <= k
            < plugins.len() && plugins[k].name@ == routes[i].plugin@ && (forall|j: int|
            0 <= j < k ==> (#[trigger] plugins[j]).name@ != routes[i].plugin@) && in_use(
            hs,
            plugins[k].holding@,
        ) ==> destination(routes, plugins, hs, verb, retiring) == Ok::<Seq<char>, Refusal>(
            routes[i].plugin@,
        ),
{
    the_route_is_of_the_verb(routes, verb);
    if let Some(r) = route_of(routes, verb) {
        the_plugin_is_of_the_name(plugins, r.plugin@);
        let a = choose|a: int|
            0 <= a < routes.len() && #[trigger] routes[a] == r && r.verb@ == verb && forall|j: int|
                0 <= j < a ==> (#[trigger] routes[j]).verb@ != verb;
        assert(routes[a].verb@ == verb);
        if distinct_routes(routes) && 0 <= i < routes.len() && routes[i].verb@ == verb {
            if a < i {
                assert(routes[a].verb@ != routes[i].verb@);
            } else if i < a {
                assert(routes[i].verb@ != routes[a].verb@);
            }
        }
        if let Some(p) = plugin_of(plugins, r.plugin@) {
            let b = choose|b: int|
                0 <= b < plugins.len() && #[trigger] plugins[b] == p && p.name@ == r.plugin@
                    && forall|j: int| 0 <= j < b ==> (#[trigger] plugins[j]).name@ != r.plugin@;
            assert(plugins[b].name@ == r.plugin@);
        }
    }
}

/// The member of a name is the first one of that name, and it is wanting only where no member has
/// the name or the value is no object.
pub proof fn the_member_is_the_first(ms: Seq<(Seq<char>, Value)>, name: Seq<char>)
    ensures
        member(Value::Object(ms), name) == find_member(ms, name),
        match find_member(ms, name) {
            Some(v) => exists|i: int|
                0 <= i < ms.len() && #[trigger] ms[i] == (name, v) && forall|j: int|
                    0 <= j < i ==> (#[trigger] ms[j]).0 != name,
            None => forall|j: int| 0 <= j < ms.len() ==> (#[trigger] ms[j]).0 != name,
        },
    decreases ms.len(),
{
    if ms.len() > 0 {
        let rest = ms.drop_first();
        the_member_is_the_first(rest, name);
        assert(forall|j: int| 0 < j < ms.len() ==> #[trigger] ms[j] == rest[j - 1]);
        if ms[0].0 == name {
            assert(ms[0] == (name, ms[0].1));
        } else if let Some(v) = find_member(rest, name) {
            let i = choose|i: int|
                0 <= i < rest.len() && #[trigger] rest[i] == (name, v) && forall|j: int|
                    0 <= j < i ==> (#[trigger] rest[j]).0 != name;
            assert(ms[i + 1] == (name, v));
            assert forall|j: int| 0 <= j < i + 1 implies (#[trigger] ms[j]).0 != name by {
                if j > 0 {
                    assert(ms[j] == rest[j - 1]);
                }
            }
        }
    }
}

/// The target of an effect is the text of the argument that its route names, or the origin of that
/// address where the route asks for it; without a rule, or without such a text, it is a star.
pub proof fn a_target_is_an_argument(args: Value, arg: Seq<char>, t: Seq<char>)
    ensures
        target_of(None, args) == seq!['*'],
        member(args, arg) == Some(Value::Str(t)) ==> {
            &&& target_of(Some(TargetRule::Literal(arg)), args) == t
            &&& origin_in(t) matches Some(o) ==> target_of(
                Some(TargetRule::Origin(arg)),
                args,
            ) == o
            &&& origin_in(t) is None ==> target_of(Some(TargetRule::Origin(arg)), args) == t
        },
        !(member(args, arg) matches Some(Value::Str(_))) ==> target_of(
            Some(TargetRule::Literal(arg)),
            args,
        ) == seq!['*'],
{
    reveal_strlit("*");
    assert("*"@ =~= seq!['*']);
}

/// The family of a verb is what stands before its first double colon, or all of it where there is
/// none.
pub proof fn a_family_stands_first(verb: Seq<char>)
    ensures
        family_of(verb).is_prefix_of(verb),
        family_of(verb) == verb || occurs_at(verb, "::"@, family_of(verb).len() as int),
        forall|j: int| 0 <= j < family_of(verb).len() ==> !#[trigger] occurs_at(verb, "::"@, j),
{
    reveal_strlit("::");
    if exists|i: int| is_first(verb, "::"@, i) {
        let i = choose|i: int| is_first(verb, "::"@, i);
        assert(verb.take(i).len() == i);
        assert(family_of(verb) == verb.take(i));
    } else {
        assert forall|j: int| 0 <= j < verb.len() implies !#[trigger] occurs_at(
            verb,
            "::"@,
            j,
        ) by {
            if occurs_at(verb, "::"@, j) {
                a_first_exists(verb, "::"@, j);
                let k = choose|k: int|
                    occurs_at(verb, "::"@, k) && forall|j: int|
                        j < k ==> !#[trigger] occurs_at(verb, "::"@, j);
                assert(is_first(verb, "::"@, k));
            }
        }
    }
}

proof fn a_last_exists(s: Seq<char>, piece: Seq<char>, i: int)
    requires
        occurs_at(s, piece, i),
    ensures
        exists|k: int| is_last(s, piece, k),
    decreases s.len() - i,
{
    if exists|j: int| i < j && occurs_at(s, piece, j) {
        let j = choose|j: int| i < j && occurs_at(s, piece, j);
        a_last_exists(s, piece, j);
    } else {
        assert(is_last(s, piece, i));
    }
}

/// The short name of a verb is what stands after its last double colon, or all of it where there is
/// none.
pub proof fn a_short_name_stands_last(verb: Seq<char>)
    ensures
        short_of(verb).len() <= verb.len(),
        verb.skip(verb.len() - short_of(verb).len()) == short_of(verb),
        short_of(verb) == verb || occurs_at(
            verb,
            "::"@,
            verb.len() - short_of(verb).len() - 2,
        ),
        forall|j: int|
            verb.len() - short_of(verb).len() - 2 < j ==> !#[trigger] occurs_at(verb, "::"@, j),
{
    reveal_strlit("::");
    assert("::"@.len() == 2);
    if exists|i: int| is_last(verb, "::"@, i) {
        let i = choose|i: int| is_last(verb, "::"@, i);
        assert(short_of(verb) == verb.skip(i + 2));
        assert(short_of(verb).len() == verb.len() - i - 2);
    } else {
        assert(verb.skip(0) =~= verb);
        assert forall|j: int| -2 < j implies !#[trigger] occurs_at(verb, "::"@, j) by {
            if occurs_at(verb, "::"@, j) {
                a_last_exists(verb, "::"@, j);
            }
        }
    }
}

/// Whether an entry of a list is a verb of a family with a short name.
pub open spec fn entry_of(
    e: (Seq<char>, Option<u64>),
    family: Seq<char>,
    short: Seq<char>,
) -> bool {
    family_of(e.0) == family && short_of(e.0) == short
}

/// The pools of several verbs hold these verbs and no others: a family has a pool exactly when one
/// of the verbs is of it, its pool has a short name exactly when such a verb is among them, it
/// counts the name exactly when one such verb is counted, and the last such count holds.
pub proof fn pools_hold_the_verbs(
    verbs: Seq<(Seq<char>, Option<u64>)>,
    family: Seq<char>,
    short: Seq<char>,
)
    ensures
        ({
            let m = pools_of(verbs);
            &&& m.contains_key(family) <==> exists|i: int|
                0 <= i < verbs.len() && family_of((#[trigger] verbs[i]).0) == family
            &&& m.contains_key(family) ==> {
                &&& m[family].verbs.contains(short) <==> exists|i: int|
                    0 <= i < verbs.len() && entry_of(#[trigger] verbs[i], family, short)
                &&& m[family].counts.contains_key(short) <==> exists|i: int|
                    0 <= i < verbs.len() && entry_of(#[trigger] verbs[i], family, short)
                        && verbs[i].1 is Some
                &&& m[family].counts.contains_key(short) ==> exists|i: int|
                    0 <= i < verbs.len() && entry_of(#[trigger] verbs[i], family, short)
                        && verbs[i].1 == Some(m[family].counts[short]) && forall|j: int|
                        i < j < verbs.len() && entry_of(#[trigger] verbs[j], family, short)
                            ==> verbs[j].1 is None
            }
        }),
    decreases verbs.len(),
{
    if verbs.len() > 0 {
        let before = verbs.drop_last();
        let last = verbs.last();
        let n = verbs.len() - 1;
        pools_hold_the_verbs(before, family, short);
        let m0 = pools_of(before);
        let m = pools_of(verbs);
        assert(verbs[n] == last);
        assert(forall|i: int| 0 <= i < n ==> #[trigger] verbs[i] == before[i]);
        if m0.contains_key(family) {
            let i = choose|i: int|
                0 <= i < before.len() && family_of((#[trigger] before[i]).0) == family;
            assert(family_of(verbs[i].0) == family);
            if m0[family].verbs.contains(short) {
                let i = choose|i: int|
                    0 <= i < before.len() && entry_of(#[trigger] before[i], family, short);
                assert(entry_of(verbs[i], family, short));
            }
            if m0[family].counts.contains_key(short) {
                let i = choose|i: int|
                    0 <= i < before.len() && entry_of(#[trigger] before[i], family, short)
                        && before[i].1 == Some(m0[family].counts[short]) && forall|j: int|
                        i < j < before.len() && entry_of(#[trigger] before[j], family, short)
                            ==> before[j].1 is None;
                assert(entry_of(verbs[i], family, short));
                if !(entry_of(last, family, short) && last.1 is Some) {
                    assert(m[family].counts[short] == m0[family].counts[short]);
                    assert forall|j: int|
                        i < j < verbs.len() && entry_of(
                            #[trigger] verbs[j],
                            family,
                            short,
                        ) implies verbs[j].1 is None by {
                        if j < n {
                            assert(verbs[j] == before[j]);
                        }
                    }
                }
            }
        }
        if family_of(last.0) == family {
            assert(family_of(verbs[n].0) == family);
            if entry_of(last, family, short) {
                assert(entry_of(verbs[n], family, short));
            }
        }
        if m.contains_key(family) {
            if m[family].verbs.contains(short) && !entry_of(last, family, short) {
                assert(m0.contains_key(family) && m0[family].verbs.contains(short));
            }
            if exists|i: int| 0 <= i < verbs.len() && entry_of(#[trigger] verbs[i], family, short) {
                let i = choose|i: int|
                    0 <= i < verbs.len() && entry_of(#[trigger] verbs[i], family, short);
                if i < n {
                    assert(entry_of(before[i], family, short));
                    assert(family_of(before[i].0) == family);
                }
            }
            if exists|i: int|
                0 <= i < verbs.len() && entry_of(#[trigger] verbs[i], family, short)
                    && verbs[i].1 is Some {
                let i = choose|i: int|
                    0 <= i < verbs.len() && entry_of(#[trigger] verbs[i], family, short)
                        && verbs[i].1 is Some;
                if i < n {
                    assert(entry_of(before[i], family, short));
                    assert(family_of(before[i].0) == family);
                }
            }
        }
        if exists|i: int| 0 <= i < verbs.len() && family_of((#[trigger] verbs[i]).0) == family {
            let i = choose|i: int|
                0 <= i < verbs.len() && family_of((#[trigger] verbs[i]).0) == family;
            if i < n {
                assert(family_of(before[i].0) == family);
            }
        }
    }
}

/// Each order is for the driver of one family, for what its pool holds, and until the end that was
/// set.
pub proof fn orders_end_with_the_consent(
    pools: Seq<(Seq<char>, PoolView)>,
    expires_at: u64,
    i: int,
)
    requires
        0 <= i < pools.len(),
    ensures
        orders_for(pools, expires_at).len() == pools.len(),
        orders_for(pools, expires_at)[i].resource == "driver:"@ + pools[i].0,
        orders_for(pools, expires_at)[i].pool.verbs == pools[i].1.verbs,
        orders_for(pools, expires_at)[i].pool.counts == pools[i].1.counts,
        orders_for(pools, expires_at)[i].expires_at == Some(expires_at),
{
}

/// A plugin's answer that reports an error is that error, whatever else it says; any other answer
/// is its result, or null.
pub proof fn an_answer_is_an_error_or_a_result(answer: Value)
    ensures
        member(answer, "err"@) matches Some(Value::Str(s)) ==> call_result(answer) == Err::<
            Value,
            Refusal,
        >(Refusal::Denied("plugin error: "@ + s)),
        !(member(answer, "err"@) matches Some(Value::Str(_))) ==> {
            &&& member(answer, "ok"@) matches Some(v) ==> call_result(answer) == Ok::<
                Value,
                Refusal,
            >(v)
            &&& member(answer, "ok"@) is None ==> call_result(answer) == Ok::<Value, Refusal>(
                Value::Null,
            )
        },
{
}

} // verus!

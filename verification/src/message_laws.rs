//! What a message must be to be read, what the host does with the requests of plugins, and what it
//! tells of them.

use crate::cap::Grant;
use crate::cap_laws::listed_for;
use crate::caps::{found_for, is_live_for, CapStore};
use crate::client::{allowed_record, denied_record, spawn_denied_record, Op};
use crate::error::KernelError;
use crate::events::{belongs_to, own_at};
use crate::grants::{
    best_of, given, grant_value, stronger, strongest, the_strongest_is_reported, Best,
};
use crate::host::{admission_refusal, decided, ClientAction, Host};
use crate::json::{find_member, member, Num, Value};
use crate::records::Held;
use crate::recovery::holding_of;
use crate::routing::{plugin_of, Route};
use crate::routing_laws::the_member_is_the_first;
use crate::wire::{
    expiry_form, expiry_in, hold_form, hold_in, lease_form, map_trouble, members_trouble,
    missing_trouble, object_trouble, ref_form, release_in, released_form, released_in, renew_in,
    shape_of, shape_trouble, Request, Shape, Trouble, Want,
};
use vstd::prelude::*;

verus! {

/// Whether a value is of a shape.
pub open spec fn fits(shape: Shape, v: Value) -> bool {
    match shape {
        Shape::Any => true,
        Shape::Text => v is Str,
        Shape::Generation => v is Str && v->Str_0.len() > 0,
        Shape::Number => v matches Value::Number(Num::Nat(_)),
        Shape::Lease => v is Null || v matches Value::Number(Num::Nat(_)),
        Shape::Truth => v is Bool,
    }
}

/// A field is in order exactly when its value is of its shape: a text a string, a mark a string that is
/// not empty, a number a natural one, a term a natural number or null, a truth a boolean.
pub proof fn a_field_has_its_shape(shape: Shape, v: Value)
    ensures
        shape_trouble(shape, v) is None <==> fits(shape, v),
{
}

/// A message is in order exactly when each of its members that is a field has the shape of that field,
/// and every field that is required is there.
pub proof fn a_message_has_its_fields(form: Seq<Want>, ms: Seq<(Seq<char>, Value)>)
    ensures
        object_trouble(form, ms) is None <==> {
            &&& forall|i: int|
                0 <= i < ms.len() ==> (shape_of(form, (#[trigger] ms[i]).0) matches Some(s) ==> fits(
                    s,
                    ms[i].1,
                ))
            &&& forall|j: int|
                0 <= j < form.len() && (#[trigger] form[j]).required ==> find_member(
                    ms,
                    form[j].name,
                ) is Some
        },
{
    members_in_order(form, ms);
    nothing_missing(form, ms);
}

proof fn members_in_order(form: Seq<Want>, ms: Seq<(Seq<char>, Value)>)
    ensures
        members_trouble(form, ms) is None <==> forall|i: int|
            0 <= i < ms.len() ==> (shape_of(form, (#[trigger] ms[i]).0) matches Some(s) ==> fits(
                s,
                ms[i].1,
            )),
    decreases ms.len(),
{
    if ms.len() > 0 {
        let rest = ms.drop_first();
        members_in_order(form, rest);
        assert(forall|i: int| 0 < i < ms.len() ==> #[trigger] ms[i] == rest[i - 1]);
        assert(forall|i: int| 0 <= i < rest.len() ==> #[trigger] rest[i] == ms[i + 1]);
        let first = ms[0];
        if let Some(s) = shape_of(form, first.0) {
            a_field_has_its_shape(s, first.1);
        }
    }
}

proof fn nothing_missing(form: Seq<Want>, ms: Seq<(Seq<char>, Value)>)
    ensures
        missing_trouble(form, ms) is None <==> forall|j: int|
            0 <= j < form.len() && (#[trigger] form[j]).required ==> find_member(ms, form[j].name)
                is Some,
    decreases form.len(),
{
    if form.len() > 0 {
        let rest = form.drop_first();
        nothing_missing(rest, ms);
        assert(forall|i: int| 0 < i < form.len() ==> #[trigger] form[i] == rest[i - 1]);
        assert(forall|i: int| 0 <= i < rest.len() ==> #[trigger] rest[i] == form[i + 1]);
        let first = form[0];
        assert(first.required || !first.required);
    }
}

proof fn a_field_is_read(form: Seq<Want>, ms: Seq<(Seq<char>, Value)>, j: int, shape: Shape)
    requires
        object_trouble(form, ms) is None,
        0 <= j < form.len(),
        shape_of(form, form[j].name) == Some(shape),
    ensures
        form[j].required ==> find_member(ms, form[j].name) is Some,
        find_member(ms, form[j].name) matches Some(v) ==> fits(shape, v),
{
    a_message_has_its_fields(form, ms);
    the_member_is_the_first(ms, form[j].name);
    if let Some(v) = find_member(ms, form[j].name) {
        let i = choose|i: int|
            0 <= i < ms.len() && #[trigger] ms[i] == (form[j].name, v) && forall|k: int|
                0 <= k < i ==> (#[trigger] ms[k]).0 != form[j].name;
        assert(ms[i].0 == form[j].name);
    }
}

proof fn names_of_fields_differ()
    ensures
        "id"@ != "generation"@,
        "class"@ != "instance"@,
        "class"@ != "substrate"@,
        "class"@ != "lease_secs"@,
        "instance"@ != "substrate"@,
        "instance"@ != "lease_secs"@,
        "substrate"@ != "lease_secs"@,
{
    reveal_strlit("id");
    reveal_strlit("generation");
    reveal_strlit("class");
    reveal_strlit("instance");
    reveal_strlit("substrate");
    reveal_strlit("lease_secs");
    assert("id"@.len() == 2 && "generation"@.len() == 10 && "class"@.len() == 5
        && "instance"@.len() == 8 && "substrate"@.len() == 9 && "lease_secs"@.len() == 10);
}

/// A release, and a renewal, name a holding by its number and by its mark, which is not empty; a
/// renewal may name a term. What is read is what the message says.
pub proof fn a_holding_is_named_by_number_and_mark(v: Value)
    ensures
        release_in(v) matches Ok(r) ==> v is Object && member(v, "id"@) == Some(
            Value::Number(Num::Nat(r.id)),
        ) && member(v, "generation"@) == Some(Value::Str(r.generation)) && r.generation.len() > 0,
        renew_in(v) matches Ok(p) ==> v is Object && member(v, "id"@) == Some(
            Value::Number(Num::Nat(p.0.id)),
        ) && member(v, "generation"@) == Some(Value::Str(p.0.generation)) && p.0.generation.len() > 0
            && (p.1 matches Some(n) ==> member(v, "lease_secs"@) == Some(
            Value::Number(Num::Nat(n)),
        )) && (p.1 is None ==> member(v, "lease_secs"@) is None || member(v, "lease_secs"@) == Some(
            Value::Null,
        )),
{
    names_of_fields_differ();
    reveal_with_fuel(shape_of, 3);
    if let Value::Object(ms) = v {
        let form = ref_form();
        assert(form.drop_first()[0] == form[1]);
        if map_trouble(form, "struct ReleaseRequest"@, v) is None || map_trouble(
            form,
            "struct RenewRequest"@,
            v,
        ) is None {
            a_field_is_read(form, ms, 0, Shape::Number);
            a_field_is_read(form, ms, 1, Shape::Generation);
        }
        let lease = lease_form();
        if map_trouble(lease, "struct RenewRequest"@, v) is None {
            a_field_is_read(lease, ms, 0, Shape::Lease);
        }
    }
}

/// A request to hold, as an object, says the class and the instance in texts, and what is held; a term
/// may be named. What is read is what the message says.
pub proof fn a_hold_is_read_as_it_is_said(ms: Seq<(Seq<char>, Value)>)
    ensures
        hold_in(Value::Object(ms)) matches Ok(Request::Hold {
            class,
            instance,
            substrate,
            lease_secs,
        }) ==> {
            let v = Value::Object(ms);
            &&& member(v, "class"@) == Some(Value::Str(class))
            &&& member(v, "instance"@) == Some(Value::Str(instance))
            &&& member(v, "substrate"@) == Some(substrate)
            &&& lease_secs matches Some(n) ==> member(v, "lease_secs"@) == Some(
                Value::Number(Num::Nat(n)),
            )
        },
        hold_in(Value::Object(ms)) matches Ok(r) ==> r is Hold,
{
    names_of_fields_differ();
    reveal_with_fuel(shape_of, 5);
    let form = hold_form();
    let two = form.drop_first();
    let three = two.drop_first();
    let four = three.drop_first();
    assert(two[0] == form[1] && three[0] == form[2] && four[0] == form[3]);
    if object_trouble(form, ms) is None {
        a_field_is_read(form, ms, 0, Shape::Text);
        a_field_is_read(form, ms, 1, Shape::Text);
        a_field_is_read(form, ms, 2, Shape::Any);
        a_field_is_read(form, ms, 3, Shape::Lease);
    }
}

/// An answer to a release is read as the truth that it says, and one to a renewal as the end.
pub proof fn an_answer_is_read_as_it_is_said(ms: Seq<(Seq<char>, Value)>)
    ensures
        released_in(Value::Object(ms)) matches Ok(b) ==> member(Value::Object(ms), "released"@)
            == Some(Value::Bool(b)),
        expiry_in(Value::Object(ms)) matches Ok(Some(t)) ==> member(
            Value::Object(ms),
            "lease_expires_at"@,
        ) == Some(Value::Number(Num::Nat(t))),
        expiry_in(Value::Object(ms)) == Ok::<Option<u64>, Trouble>(None) ==> member(
            Value::Object(ms),
            "lease_expires_at"@,
        ) == Some(Value::Null),
{
    if object_trouble(released_form(), ms) is None {
        a_field_is_read(released_form(), ms, 0, Shape::Truth);
    }
    if object_trouble(expiry_form(), ms) is None {
        a_field_is_read(expiry_form(), ms, 0, Shape::Lease);
    }
}

/// What a request of a plugin does: only a call and a spawn touch capabilities, and no request changes
/// the routes, the plugins or the subscriptions. What a plugin gives back or renews is its own, a
/// subscription hangs under its own holding, and what it submits or puts is under its own name.
pub proof fn a_request_is_about_its_plugin(
    before: &Host,
    after: &Host,
    hs: Seq<Held>,
    name: Seq<char>,
    req: Value,
    now: u64,
    op: Op,
    r: Result<ClientAction, KernelError>,
)
    requires
        decided(before, after, hs, name, req, now, op, r),
    ensures
        after.routes == before.routes && after.plugins == before.plugins && after.subs
            == before.subs && after.session == before.session,
        !(op is Invoke) && !(op is SpawnChild) ==> after.caps == before.caps,
        r matches Ok(ClientAction::Release(x)) ==> (holding_of(hs, x@.id) matches Some(h)
            && h.subject == "plugin:"@ + name),
        r matches Ok(ClientAction::Renew(x, _)) ==> (holding_of(hs, x@.id) matches Some(h)
            && h.subject == "plugin:"@ + name),
        r matches Ok(ClientAction::Unsubscribe(Some(x))) ==> exists|i: int|
            0 <= i < before.subs@.len() && belongs_to(#[trigger] before.subs@[i], name)
                && before.subs@[i].holding@ == x@,
        r matches Ok(ClientAction::Submit { subject, plan }) ==> subject@ == "plugin:"@ + name,
        r matches Ok(ClientAction::Put { media_type, labels, origin }) ==> origin@ == "plugin:"@
            + name,
        r matches Ok(ClientAction::Subscribe { id, topic, order }) ==> order.owner@ == "plugin:"@
            + name && id == before.next_sub && after.next_sub == before.next_sub + 1,
        r matches Ok(ClientAction::SpawnChild { bin, args, envs, parent }) ==> found_for(
            &before.caps,
            "plugin:"@ + name,
            "kernel:spawn"@,
            "spawn_child"@,
            now,
        ) is Ok && bin@.len() > 0 && (plugin_of(before.plugins@, name) matches Some(p) && parent@
            == p.holding@),
        r matches Ok(ClientAction::Denied { record, why }) ==> after.caps == before.caps,
{
    if let Op::Unsubscribe { sub } = op {
        crate::event_laws::only_ones_own_is_dropped(before.subs@, sub, name);
        if let Some(i) = own_at(before.subs@, sub, name) {
            assert(belongs_to(before.subs@[i], name));
        }
    }
}

/// A plugin is admitted only if its declarations are accepted and its slot, where it has one, takes it.
pub proof fn who_is_admitted(
    name: Seq<char>,
    verbs: Seq<Seq<char>>,
    tools: Value,
    hello: Value,
    slot: Option<Result<(), String>>,
)
    ensures
        admission_refusal(name, verbs, tools, hello, slot) is None <==> crate::declaration::class_in(
            name,
            verbs,
            tools,
            hello,
        ) is Ok && !(slot matches Some(Err(_))),
{
}

/// What is recorded of a call or a spawn says who asked, for what, and why it was refused or which
/// capability paid.
pub proof fn records_say_who_and_what(
    name: Seq<char>,
    verb: Seq<char>,
    last: Seq<char>,
)
    ensures
        member(allowed_record(name, verb, last), "event"@) == Some(Value::Str("invoke.allowed"@)),
        member(allowed_record(name, verb, last), "from"@) == Some(Value::Str(name)),
        member(allowed_record(name, verb, last), "verb"@) == Some(Value::Str(verb)),
        member(allowed_record(name, verb, last), "cap"@) == Some(Value::Str(last)),
        member(denied_record(name, verb, last), "event"@) == Some(Value::Str("invoke.denied"@)),
        member(denied_record(name, verb, last), "from"@) == Some(Value::Str(name)),
        member(denied_record(name, verb, last), "verb"@) == Some(Value::Str(verb)),
        member(denied_record(name, verb, last), "reason"@) == Some(Value::Str(last)),
        member(spawn_denied_record(name, verb, last), "event"@) == Some(
            Value::Str("spawn_child.denied"@),
        ),
        member(spawn_denied_record(name, verb, last), "from"@) == Some(Value::Str(name)),
        member(spawn_denied_record(name, verb, last), "bin"@) == Some(Value::Str(verb)),
        member(spawn_denied_record(name, verb, last), "reason"@) == Some(Value::Str(last)),
{
    reveal_strlit("event");
    reveal_strlit("from");
    reveal_strlit("verb");
    reveal_strlit("cap");
    reveal_strlit("reason");
    reveal_strlit("bin");
    assert("event"@.len() == 5 && "from"@.len() == 4 && "verb"@.len() == 4 && "cap"@.len() == 3
        && "reason"@.len() == 6 && "bin"@.len() == 3);
    assert("from"@[0] != "verb"@[0]);
    reveal_with_fuel(find_member, 5);
    let a = allowed_record(name, verb, last)->Object_0;
    let b = denied_record(name, verb, last)->Object_0;
    let c = spawn_denied_record(name, verb, last)->Object_0;
    in_turn(a);
    in_turn(b);
    in_turn(c);
}

proof fn in_turn(ms: Seq<(Seq<char>, Value)>)
    requires
        ms.len() == 4,
    ensures
        ms.drop_first()[0] == ms[1],
        ms.drop_first().drop_first()[0] == ms[2],
        ms.drop_first().drop_first().drop_first()[0] == ms[3],
{
}

/// What a plugin is told that it may invoke: a verb is told exactly when a live capability of the plugin
/// gives it, what is told of it is what such a capability gives, and no live capability of the
/// plugin gives more of it.
pub proof fn what_is_told_is_granted(
    m: Map<Seq<char>, Best>,
    s: &CapStore,
    subject: Seq<char>,
    now: u64,
    hs: Seq<Held>,
    verb: Seq<char>,
)
    requires
        strongest(m, s, subject, now, hs),
    ensures
        m.contains_key(verb) <==> exists|g: Grant| #[trigger]
            listed_for(s, subject, now).contains(g) && given(s, hs, g, verb) is Some,
        m.contains_key(verb) ==> exists|g: Grant| #[trigger]
            listed_for(s, subject, now).contains(g) && given(s, hs, g, verb) == Some(m[verb]),
        m.contains_key(verb) ==> forall|g: Grant| #[trigger]
            listed_for(s, subject, now).contains(g) ==> (given(s, hs, g, verb) matches Some(b)
                ==> !stronger(b, m[verb])),
{
    let gs = listed_for(s, subject, now);
    assert(gs == s.table().filter(|g: Grant| is_live_for(g, s.alive(), subject, now)));
    the_strongest_is_reported(s, hs, gs, verb, gs.len());
    let best = best_of(s, hs, gs, verb, gs.len());
    assert(best == if m.contains_key(verb) {
        Some(m[verb])
    } else {
        None
    });
    if m.contains_key(verb) {
        let i = choose|i: int| 0 <= i < gs.len() && given(s, hs, #[trigger] gs[i], verb) == best;
        assert(gs.contains(gs[i]));
        assert forall|g: Grant| #[trigger] gs.contains(g) implies (given(s, hs, g, verb) matches
            Some(b) ==> !stronger(b, m[verb])) by {
            let k = gs.index_of(g);
            assert(gs[k] == g);
        }
    }
    if exists|g: Grant| #[trigger] gs.contains(g) && given(s, hs, g, verb) is Some {
        let g = choose|g: Grant| #[trigger] gs.contains(g) && given(s, hs, g, verb) is Some;
        let k = gs.index_of(g);
        assert(gs[k] == g);
    }
}

/// What is told of a grant says the verb, the holding, and, where there are limits, what is left and
/// until when.
pub proof fn a_grant_is_told_in_full(verb: Seq<char>, best: Best, route: Option<Route>)
    ensures
        member(grant_value(verb, best, route), "verb"@) == Some(Value::Str(verb)),
        member(grant_value(verb, best, route), "holding"@) == Some(
            Value::Number(Num::Nat(best.holding)),
        ),
        route matches Some(r) ==> member(grant_value(verb, best, route), "description"@) == Some(
            Value::Str(r.description@),
        ) && member(grant_value(verb, best, route), "schema"@) == Some(r.schema@),
        best.counts matches Some(n) ==> member(grant_value(verb, best, route), "counts_left"@)
            == Some(Value::Number(Num::Nat(n))),
{
    reveal_strlit("verb");
    reveal_strlit("description");
    reveal_strlit("schema");
    reveal_strlit("holding");
    reveal_strlit("counts_left");
    assert("verb"@.len() == 4 && "description"@.len() == 11 && "schema"@.len() == 6
        && "holding"@.len() == 7 && "counts_left"@.len() == 11);
    assert("description"@[0] != "counts_left"@[0]);
    reveal_with_fuel(find_member, 6);
    let ms = grant_value(verb, best, route)->Object_0;
    let a = ms.drop_first();
    let b = a.drop_first();
    let c = b.drop_first();
    let d = c.drop_first();
    assert(a[0] == ms[1] && b[0] == ms[2] && c[0] == ms[3]);
    if best.counts is Some {
        assert(d[0] == ms[4]);
        assert(ms[4].0 == "counts_left"@);
    }
}

} // verus!

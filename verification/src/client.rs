//! The requests that plugins send: what each asks for, and what is decided of it before anything
//! is done.

use crate::caps::{exercised, found_for, CapStore};
use crate::declaration::{str_array, string_list, value_view};
use crate::error::{joined_text, refusal_text, KernelError, Refusal};
use crate::json::{member, named_values, nat_of, no_members, put, text, text_of, Json, Value};
use crate::plan_demand::{short_of, split_verb};
use crate::records::{held_views, Held, HoldingRecord};
use crate::resources::{plugin_subject, subject_of};
use crate::routing::{destination, driver_of, find_plugin, plugin_of, resolve, PluginEntry, Route};
use crate::text::{debug_of, debug_text, same, texts};
use crate::wire::HoldingRef;
use vstd::prelude::*;

verus! {

/// A request of a plugin.
pub enum ClientOp {
    Invoke { verb: String, args: Json },
    Grants,
    Emit { topic: String, data: Json },
    Subscribe { topic: String },
    Unsubscribe { sub: u64 },
    SpawnChild { bin: String, args: Vec<String>, envs: Vec<(String, String)> },
    Hold,
    Release,
    Renew,
    SubmitPlan { plan: Json },
    /// To store what follows, with its type and its labels.
    Put { media_type: String, labels: Option<Json> },
    Read { id: String, offset: u64, len: Option<u64> },
}

/// A request of a plugin.
#[verifier::ext_equal]
pub enum Op {
    Invoke { verb: Seq<char>, args: Value },
    Grants,
    Emit { topic: Seq<char>, data: Value },
    Subscribe { topic: Seq<char> },
    Unsubscribe { sub: u64 },
    SpawnChild { bin: Seq<char>, args: Seq<Seq<char>>, envs: Seq<(Seq<char>, Seq<char>)> },
    Hold,
    Release,
    Renew,
    SubmitPlan { plan: Value },
    Put { media_type: Seq<char>, labels: Option<Value> },
    Read { id: Seq<char>, offset: u64, len: Option<u64> },
}

/// What pairs say.
pub open spec fn pairs_view(v: Seq<(String, String)>) -> Seq<(Seq<char>, Seq<char>)> {
    Seq::new(v.len(), |i: int| (v[i].0@, v[i].1@))
}

impl View for ClientOp {
    type V = Op;

    open spec fn view(&self) -> Op {
        match self {
            ClientOp::Invoke { verb, args } => Op::Invoke { verb: verb@, args: args@ },
            ClientOp::Grants => Op::Grants,
            ClientOp::Emit { topic, data } => Op::Emit { topic: topic@, data: data@ },
            ClientOp::Subscribe { topic } => Op::Subscribe { topic: topic@ },
            ClientOp::Unsubscribe { sub } => Op::Unsubscribe { sub: *sub },
            ClientOp::SpawnChild { bin, args, envs } => Op::SpawnChild {
                bin: bin@,
                args: texts(args@),
                envs: pairs_view(envs@),
            },
            ClientOp::Hold => Op::Hold,
            ClientOp::Release => Op::Release,
            ClientOp::Renew => Op::Renew,
            ClientOp::SubmitPlan { plan } => Op::SubmitPlan { plan: plan@ },
            ClientOp::Put { media_type, labels } => Op::Put {
                media_type: media_type@,
                labels: match labels {
                    Some(l) => Some(l@),
                    None => None,
                },
            },
            ClientOp::Read { id, offset, len } => Op::Read {
                id: id@,
                offset: *offset,
                len: *len,
            },
        }
    }
}

/// A text, or another where it is missing or no text.
pub open spec fn text_or(v: Value, name: Seq<char>, other: Seq<char>) -> Seq<char> {
    match member(v, name) {
        Some(x) => match text_of(x) {
            Some(s) => s,
            None => other,
        },
        None => other,
    }
}

/// A value, or null where it is missing.
pub open spec fn value_or_null(v: Value, name: Seq<char>) -> Value {
    match member(v, name) {
        Some(x) => x,
        None => Value::Null,
    }
}

/// A number, if it is there and one.
pub open spec fn number_in(v: Value, name: Seq<char>) -> Option<u64> {
    match member(v, name) {
        Some(x) => nat_of(x),
        None => None,
    }
}

/// The members that are texts, in order.
pub open spec fn text_members(ms: Seq<(Seq<char>, Value)>) -> Seq<(Seq<char>, Seq<char>)>
    decreases ms.len(),
{
    if ms.len() == 0 {
        Seq::empty()
    } else {
        let init = text_members(ms.drop_last());
        match text_of(ms.last().1) {
            Some(s) => init.push((ms.last().0, s)),
            None => init,
        }
    }
}

/// The texts of an object; none where there is no object.
pub open spec fn text_map(v: Option<Value>) -> Seq<(Seq<char>, Seq<char>)> {
    match v {
        Some(Value::Object(ms)) => text_members(ms),
        _ => Seq::empty(),
    }
}

/// The name of a request, if it has one.
pub open spec fn op_name(req: Value) -> Option<Seq<char>> {
    match member(req, "op"@) {
        Some(x) => text_of(x),
        None => None,
    }
}

/// The debug format of an optional text.
pub open spec fn debug_option(s: Option<Seq<char>>) -> Seq<char> {
    match s {
        Some(t) => "Some("@ + debug_text(t) + ")"@,
        None => "None"@,
    }
}

/// Whether a request may be made by a plugin that is being retired: it may give things back.
pub open spec fn gives_back(op: Option<Seq<char>>) -> bool {
    op == Some("release"@) || op == Some("unsubscribe"@)
}

/// The request that a message makes, or why it is refused. A plugin that is known and not in use
/// may only give things back.
pub open spec fn op_in(req: Value, caller: Option<bool>) -> Result<Op, Refusal> {
    let op = op_name(req);
    if caller == Some(false) && !gives_back(op) {
        Err(Refusal::Denied("plugin is retiring"@))
    } else if op == Some("invoke"@) {
        Ok(Op::Invoke { verb: text_or(req, "verb"@, ""@), args: value_or_null(req, "args"@) })
    } else if op == Some("grants"@) {
        Ok(Op::Grants)
    } else if op == Some("emit"@) {
        Ok(Op::Emit { topic: text_or(req, "topic"@, ""@), data: value_or_null(req, "data"@) })
    } else if op == Some("subscribe"@) {
        Ok(Op::Subscribe { topic: text_or(req, "topic"@, ""@) })
    } else if op == Some("unsubscribe"@) {
        Ok(
            Op::Unsubscribe {
                sub: match number_in(req, "sub"@) {
                    Some(n) => n,
                    None => 0,
                },
            },
        )
    } else if op == Some("spawn_child"@) {
        Ok(
            Op::SpawnChild {
                bin: text_or(req, "bin"@, ""@),
                args: string_list(member(req, "args"@)),
                envs: text_map(member(req, "env"@)),
            },
        )
    } else if op == Some("hold"@) {
        Ok(Op::Hold)
    } else if op == Some("release"@) {
        Ok(Op::Release)
    } else if op == Some("renew"@) {
        Ok(Op::Renew)
    } else if op == Some("plan.submit"@) {
        Ok(Op::SubmitPlan { plan: value_or_null(req, "plan"@) })
    } else if op == Some("put"@) {
        Ok(
            Op::Put {
                media_type: text_or(req, "type"@, "application/octet-stream"@),
                labels: member(req, "labels"@),
            },
        )
    } else if op == Some("read"@) {
        Ok(
            Op::Read {
                id: text_or(req, "id"@, ""@),
                offset: match number_in(req, "offset"@) {
                    Some(n) => n,
                    None => 0,
                },
                len: number_in(req, "len"@),
            },
        )
    } else {
        Err(Refusal::Corrupt("unknown client op: "@ + debug_option(op)))
    }
}

fn read_text(j: &Json, name: &str, other: &str) -> (s: String)
    ensures
        s@ == text_or(j@, name@, other@),
{
    match j.get(name) {
        Some(x) => match x.as_str() {
            Some(s) => s.clone(),
            None => other.to_owned(),
        },
        None => other.to_owned(),
    }
}

fn read_value(j: &Json, name: &str) -> (r: Json)
    ensures
        r@ == value_or_null(j@, name@),
{
    match j.get(name) {
        Some(x) => x.clone(),
        None => Json::Null,
    }
}

fn read_number(j: &Json, name: &str) -> (r: Option<u64>)
    ensures
        r == number_in(j@, name@),
{
    match j.get(name) {
        Some(x) => x.as_u64(),
        None => None,
    }
}

fn read_texts(v: Option<&Json>) -> (r: Vec<(String, String)>)
    ensures
        pairs_view(r@) == text_map(value_view(v)),
{
    let mut out: Vec<(String, String)> = Vec::new();
    assert(pairs_view(out@) =~= Seq::<(Seq<char>, Seq<char>)>::empty());
    match v {
        Some(j) => match j {
            Json::Object(ms) => {
                let ghost all = named_values(ms@);
                assert(j@ == Value::Object(all));
                let mut i: usize = 0;
                assert(all.take(0) =~= Seq::<(Seq<char>, Value)>::empty());
                while i < ms.len()
                    invariant
                        i <= ms@.len(),
                        all == named_values(ms@),
                        pairs_view(out@) == text_members(all.take(i as int)),
                    decreases ms.len() - i,
                {
                    let ghost before = pairs_view(out@);
                    assert(all.take(i + 1).drop_last() =~= all.take(i as int));
                    assert(all.take(i + 1).last() == (ms@[i as int].0@, ms@[i as int].1@));
                    if let Some(s) = ms[i].1.as_str() {
                        out.push((ms[i].0.clone(), s.clone()));
                        assert(pairs_view(out@) =~= before.push((ms@[i as int].0@, s@)));
                    }
                    i = i + 1;
                }
                assert(all.take(i as int) =~= all);
                out
            },
            _ => out,
        },
        None => out,
    }
}

/// The request that a message makes.
pub fn decode_op(req: &Json, caller: Option<bool>) -> (r: Result<ClientOp, KernelError>)
    ensures
        match r {
            Ok(op) => op_in(req@, caller) == Ok::<Op, Refusal>(op@),
            Err(e) => op_in(req@, caller) == Err::<Op, Refusal>(e@),
        },
{
    let named: Option<&String> = match req.get("op") {
        Some(x) => x.as_str(),
        None => None,
    };
    let retiring: bool = match caller {
        Some(in_use) => !in_use,
        None => false,
    };
    let op: &String = match named {
        None => {
            if retiring {
                return Err(KernelError::Denied("plugin is retiring".to_owned()));
            }
            let mut s: String = "unknown client op: ".to_owned();
            s.append("None");
            return Err(KernelError::Corrupt(s));
        },
        Some(s) => s,
    };
    let name: &str = op.as_str();
    if retiring && !same(name, "release") && !same(name, "unsubscribe") {
        return Err(KernelError::Denied("plugin is retiring".to_owned()));
    }
    if same(name, "invoke") {
        return Ok(
            ClientOp::Invoke { verb: read_text(req, "verb", ""), args: read_value(req, "args") },
        );
    }
    if same(name, "grants") {
        return Ok(ClientOp::Grants);
    }
    if same(name, "emit") {
        return Ok(
            ClientOp::Emit { topic: read_text(req, "topic", ""), data: read_value(req, "data") },
        );
    }
    if same(name, "subscribe") {
        return Ok(ClientOp::Subscribe { topic: read_text(req, "topic", "") });
    }
    if same(name, "unsubscribe") {
        let sub: u64 = match read_number(req, "sub") {
            Some(n) => n,
            None => 0,
        };
        return Ok(ClientOp::Unsubscribe { sub });
    }
    if same(name, "spawn_child") {
        return Ok(
            ClientOp::SpawnChild {
                bin: read_text(req, "bin", ""),
                args: str_array(req.get("args")),
                envs: read_texts(req.get("env")),
            },
        );
    }
    if same(name, "hold") {
        return Ok(ClientOp::Hold);
    }
    if same(name, "release") {
        return Ok(ClientOp::Release);
    }
    if same(name, "renew") {
        return Ok(ClientOp::Renew);
    }
    if same(name, "plan.submit") {
        return Ok(ClientOp::SubmitPlan { plan: read_value(req, "plan") });
    }
    if same(name, "put") {
        let labels: Option<Json> = match req.get("labels") {
            Some(l) => Some(l.clone()),
            None => None,
        };
        return Ok(
            ClientOp::Put {
                media_type: read_text(req, "type", "application/octet-stream"),
                labels,
            },
        );
    }
    if same(name, "read") {
        let offset: u64 = match read_number(req, "offset") {
            Some(n) => n,
            None => 0,
        };
        return Ok(
            ClientOp::Read {
                id: read_text(req, "id", ""),
                offset,
                len: read_number(req, "len"),
            },
        );
    }
    let mut s: String = "unknown client op: ".to_owned();
    s.append("Some(");
    s.append(debug_of(name).as_str());
    s.append(")");
    assert(s@ =~= "unknown client op: "@ + debug_option(Some(op@)));
    Err(KernelError::Corrupt(s))
}

/// A plugin that is being retired is refused whatever it asks, unless it gives something back.
pub proof fn the_retiring_only_give_back(req: Value)
    ensures
        !gives_back(op_name(req)) ==> op_in(req, Some(false)) == Err::<Op, Refusal>(
            Refusal::Denied("plugin is retiring"@),
        ),
        gives_back(op_name(req)) ==> op_in(req, Some(false)) == op_in(req, None),
{
}

/// Whether a verb is within the row of a plugin's slot. A plugin without a slot has no row.
pub open spec fn in_row(plugins: Seq<PluginEntry>, name: Seq<char>, verb: Seq<char>) -> bool {
    match plugin_of(plugins, name) {
        Some(p) => match p.offers {
            Some(o) => o@.contains(verb),
            None => true,
        },
        None => true,
    }
}

/// What is recorded of a call that was refused.
pub open spec fn denied_record(name: Seq<char>, verb: Seq<char>, reason: Seq<char>) -> Value {
    Value::Object(
        seq![
            ("event"@, Value::Str("invoke.denied"@)),
            ("from"@, Value::Str(name)),
            ("verb"@, Value::Str(verb)),
            ("reason"@, Value::Str(reason)),
        ],
    )
}

/// What is recorded of a call that was allowed.
pub open spec fn allowed_record(name: Seq<char>, verb: Seq<char>, cap: Seq<char>) -> Value {
    Value::Object(
        seq![
            ("event"@, Value::Str("invoke.allowed"@)),
            ("from"@, Value::Str(name)),
            ("verb"@, Value::Str(verb)),
            ("cap"@, Value::Str(cap)),
        ],
    )
}

/// What is recorded of a plugin that was not allowed to start another.
pub open spec fn spawn_denied_record(name: Seq<char>, bin: Seq<char>, reason: Seq<char>) -> Value {
    Value::Object(
        seq![
            ("event"@, Value::Str("spawn_child.denied"@)),
            ("from"@, Value::Str(name)),
            ("bin"@, Value::Str(bin)),
            ("reason"@, Value::Str(reason)),
        ],
    )
}

fn record(event: &str, name: &str, what: (&str, &str), key: &str, value: &str) -> (j: Json)
    ensures
        j@ == Value::Object(
            seq![
                ("event"@, Value::Str(event@)),
                ("from"@, Value::Str(name@)),
                (what.0@, Value::Str(what.1@)),
                (key@, Value::Str(value@)),
            ],
        ),
{
    let mut ms: Vec<(String, Json)> = no_members();
    put(&mut ms, "event", text(event));
    put(&mut ms, "from", text(name));
    put(&mut ms, what.0, text(what.1));
    put(&mut ms, key, text(value));
    assert(named_values(ms@) =~= seq![
        ("event"@, Value::Str(event@)),
        ("from"@, Value::Str(name@)),
        (what.0@, Value::Str(what.1@)),
        (key@, Value::Str(value@)),
    ]);
    let j = Json::Object(ms);
    assert(j@ == Value::Object(named_values(ms@)));
    j
}

/// What is decided of a call: what is recorded of it, and the plugin that it goes to.
pub struct Invocation {
    pub record: Json,
    pub target: Result<String, KernelError>,
}

/// Whether a call was decided as it must be: outside the row of the slot it is refused and nothing
/// is spent; without a capability it is refused and nothing is spent; with one it is spent, and the
/// call goes where the route leads.
pub open spec fn invoked(
    before: &CapStore,
    after: &CapStore,
    routes: Seq<Route>,
    plugins: Seq<PluginEntry>,
    hs: Seq<Held>,
    name: Seq<char>,
    verb: Seq<char>,
    now: u64,
    r: Invocation,
) -> bool {
    if !in_row(plugins, name, verb) {
        &&& *after == *before
        &&& r.target is Err
        &&& r.target->Err_0@ == Refusal::Denied("verb outside the slot row: "@ + verb)
        &&& r.record@ == denied_record(name, verb, "verb outside the slot row"@)
    } else {
        match found_for(before, plugin_subject(name), driver_of(verb), short_of(verb), now) {
            Err(e) => {
                &&& *after == *before
                &&& r.target is Err
                &&& r.target->Err_0@ == e
                &&& r.record@ == denied_record(name, verb, refusal_text(e))
            },
            Ok(id) => {
                let out = destination(routes, plugins, hs, verb, "target plugin is retiring"@);
                &&& exercised(before, after, id, short_of(verb), now)
                &&& r.record@ == allowed_record(name, verb, id)
                &&& match r.target {
                    Ok(s) => out == Ok::<Seq<char>, Refusal>(s@),
                    Err(e) => out == Err::<Seq<char>, Refusal>(e@),
                }
            },
        }
    }
}

/// What is decided of a call that a plugin makes. The row of its slot comes before its grants, and
/// before any budget is spent; what is spent is spent before the route is looked up.
pub fn op_invoke(
    caps: &mut CapStore,
    routes: &Vec<Route>,
    plugins: &Vec<PluginEntry>,
    holdings: &Vec<HoldingRecord>,
    name: &str,
    verb: &str,
    now: u64,
) -> (r: Invocation)
    ensures
        invoked(
            old(caps),
            final(caps),
            routes@,
            plugins@,
            held_views(holdings@),
            name@,
            verb@,
            now,
            r,
        ),
{
    let within: bool = match find_plugin(plugins, name) {
        Some(p) => match &p.offers {
            Some(o) => o.contains(verb),
            None => true,
        },
        None => true,
    };
    if !within {
        return Invocation {
            record: record(
                "invoke.denied",
                name,
                ("verb", verb),
                "reason",
                "verb outside the slot row",
            ),
            target: Err(KernelError::Denied(joined_text("verb outside the slot row: ", verb))),
        };
    }
    let parts: (String, String) = split_verb(verb);
    let resource: String = joined_text("driver:", parts.0.as_str());
    let subject: String = subject_of(name);
    match caps.find_and_exercise(subject.as_str(), resource.as_str(), parts.1.as_str(), now) {
        Err(e) => {
            let reason: String = e.message();
            Invocation {
                record: record("invoke.denied", name, ("verb", verb), "reason", reason.as_str()),
                target: Err(e),
            }
        },
        Ok(id) => Invocation {
            record: record("invoke.allowed", name, ("verb", verb), "cap", id.as_str()),
            target: resolve(routes, plugins, holdings, verb, "target plugin is retiring"),
        },
    }
}

/// Why a plugin may not start another: it lacks the capability, it is gone, or it names no
/// program.
pub open spec fn spawn_fault(
    found: Result<Seq<char>, Refusal>,
    parent: Option<PluginEntry>,
    name: Seq<char>,
    bin: Seq<char>,
) -> Option<Refusal> {
    match found {
        Err(e) => Some(e),
        Ok(_) => if parent is None {
            Some(Refusal::NotFound("parent plugin gone: "@ + name))
        } else if bin.len() == 0 {
            Some(Refusal::Corrupt("spawn_child: missing bin"@))
        } else {
            None
        },
    }
}

/// What is decided of a plugin that wants to start another.
pub struct Spawning<'a> {
    /// What is recorded, where the plugin lacks the capability.
    pub record: Option<Json>,
    /// The holding under which the holding of the child is to hang.
    pub parent: Result<&'a HoldingRef, KernelError>,
}

/// The holding under which the holding of a plugin that another starts is to hang, so that the
/// child is torn down before its parent. A plugin that lacks the capability is recorded.
pub fn spawn_child<'a>(
    caps: &mut CapStore,
    plugins: &'a Vec<PluginEntry>,
    name: &str,
    bin: &str,
    now: u64,
) -> (r: Spawning<'a>)
    ensures
        ({
            let found = found_for(
                old(caps),
                plugin_subject(name@),
                "kernel:spawn"@,
                "spawn_child"@,
                now,
            );
            let fault = spawn_fault(found, plugin_of(plugins@, name@), name@, bin@);
            &&& match r.parent {
                Ok(h) => fault is None && *h == plugin_of(plugins@, name@)->0.holding,
                Err(e) => fault == Some(e@),
            }
            &&& match found {
                Ok(id) => {
                    &&& r.record is None
                    &&& exercised(old(caps), final(caps), id, "spawn_child"@, now)
                },
                Err(e) => {
                    &&& r.record matches Some(j) && j@ == spawn_denied_record(
                        name@,
                        bin@,
                        refusal_text(e),
                    )
                    &&& *final(caps) == *old(caps)
                },
            }
        }),
{
    let subject: String = subject_of(name);
    match caps.find_and_exercise(subject.as_str(), "kernel:spawn", "spawn_child", now) {
        Err(e) => {
            let denied: Json = record(
                "spawn_child.denied",
                name,
                ("bin", bin),
                "reason",
                e.message().as_str(),
            );
            Spawning { record: Some(denied), parent: Err(e) }
        },
        Ok(_) => {
            let parent: Result<&'a HoldingRef, KernelError> = match find_plugin(plugins, name) {
                None => Err(KernelError::NotFound(joined_text("parent plugin gone: ", name))),
                Some(p) => if bin.unicode_len() == 0 {
                    Err(KernelError::Corrupt("spawn_child: missing bin".to_owned()))
                } else {
                    Ok(&p.holding)
                },
            };
            Spawning { record: None, parent }
        },
    }
}

/// How many bytes a read gives: what was asked for, as far as there is something behind the
/// offset.
pub open spec fn window(size: u64, offset: u64, want: Option<u64>) -> u64 {
    let avail = if offset <= size {
        (size - offset) as u64
    } else {
        0u64
    };
    match want {
        Some(w) => if w <= avail {
            w
        } else {
            avail
        },
        None => avail,
    }
}

/// How many bytes a read gives.
pub fn read_window(size: u64, offset: u64, want: Option<u64>) -> (n: u64)
    ensures
        n == window(size, offset, want),
{
    let avail: u64 = size.saturating_sub(offset);
    match want {
        Some(w) => if w <= avail {
            w
        } else {
            avail
        },
        None => avail,
    }
}

/// A read never reaches beyond the end, and gives all that is left where nothing less was asked
/// for.
pub proof fn a_read_stays_inside(size: u64, offset: u64, want: Option<u64>)
    ensures
        window(size, offset, want) > 0 ==> offset + window(size, offset, want) <= size,
        want matches Some(w) ==> window(size, offset, want) <= w,
        offset <= size && (want matches Some(w) ==> w >= size - offset) ==> offset + window(
            size,
            offset,
            want,
        ) == size,
{
}

/// A text with each colon replaced by an underscore.
pub open spec fn without_colons(s: Seq<char>) -> Seq<char> {
    Seq::new(
        s.len(),
        |i: int|
            if s[i] == ':' {
                '_'
            } else {
                s[i]
            },
    )
}

/// The name of the file in which a submitted plan waits for consent.
pub fn plan_file(plan_hash: &str) -> (s: String)
    ensures
        s@ == without_colons(plan_hash@) + ".json"@,
{
    let n: usize = plan_hash.unicode_len();
    let mut s: String = String::new();
    let mut i: usize = 0;
    assert(s@ =~= without_colons(plan_hash@).take(0));
    while i < n
        invariant
            i <= n,
            n == plan_hash@.len(),
            s@ =~= without_colons(plan_hash@).take(i as int),
        decreases n - i,
    {
        if plan_hash.get_char(i) == ':' {
            proof {
                reveal_strlit("_");
                assert("_"@ =~= seq!['_']);
            }
            s.append("_");
        } else {
            let c: &str = plan_hash.substring_char(i, i + 1);
            assert(c@ =~= seq![plan_hash@[i as int]]);
            s.append(c);
        }
        assert(without_colons(plan_hash@).take(i + 1) =~= without_colons(plan_hash@).take(
            i as int,
        ).push(without_colons(plan_hash@)[i as int]));
        i = i + 1;
    }
    assert(without_colons(plan_hash@).take(n as int) =~= without_colons(plan_hash@));
    s.append(".json");
    s
}

/// Why a plugin's client channel ended: it was asked to stop, or it went away.
pub fn reclaim_reason(shutting_down: Option<bool>) -> (s: &'static str)
    ensures
        s@ == if shutting_down == Some(true) {
            "shutdown"@
        } else {
            "exited"@
        },
{
    match shutting_down {
        Some(true) => "shutdown",
        _ => "exited",
    }
}

} // verus!

//! What is recorded, what is read of it, and what is owed for it.

use crate::caps::{found_for, CapStore};
use crate::client::{in_row, invoked, pairs_view, Invocation, Op};
use crate::cleanup::left_behind;
use crate::cleanup_codec::{target_in, TargetDto};
use crate::declaration::{class_in, entry_in, has_character, Entry};
use crate::decode::{holds_class, holds_holding, holds_pool, ClassRow, HoldingRow, PoolRow};
use crate::digits::{gcd, lowest, spelled};
use crate::error::Refusal;
use crate::eval::{read_out, Dialect, Read, Reply, Talk};
use crate::frag::{frac_of, frag_shape, span_of};
use crate::host::{decided, ClientAction, Host};
use crate::host_cleanup::{releasable, substrate_fault};
use crate::json::{member, Num, Value};
use crate::label::Tags;
use crate::plan_demand::{family_of, full_verb, grant_covers, short_of};
use crate::reconcile::{
    describes, entry_fault, named_port, read_at, Behind, JournalEntry, Remains, StoredEntry,
};
use crate::records::{
    algebra_text, grade_text, kind_text, Capacity, Class, CleanupKind, FragView, Held, JournalState,
    RevertGrade, Session, Target, Task, Transport,
};
use crate::recovery::{
    builtin_class, declaration, holding_of, import_caps, import_held, journal_refusal, legacy_import,
    JournalRow, LegacyCap,
};
use crate::resources::{hold_step, HoldStep};
use crate::retirement::{forced, oblige, obliged, observed_absent, witness_in, Evidence};
use crate::routing::{plugin_of, PluginEntry, Route};
use crate::segments::{associated, RunRow, SegmentRow};
use crate::substrate::{
    generation_fits, generation_of, names_session, CLASS_CAP, CLASS_CAP_COUNT, CLASS_FILE_LOCK, CLASS_PLUGIN,
    CLASS_PORT, CLASS_PROCESS, CLASS_SUBSCRIPTION,
};
use crate::text::{decimal, parsed_number, texts};
use crate::wire::{items_trouble, list_trouble, op_request, release_in, renew_in, shape_trouble, Want};
use vstd::arithmetic::div_mod::lemma_fundamental_div_mod;
use vstd::prelude::*;

verus! {

/// Whether the obligation of a holding is among others and pending.
pub open spec fn owed(tasks: Seq<Task>, id: u64) -> bool {
    exists|k: int| 0 <= k < tasks.len() && (#[trigger] tasks[k]).id == id && tasks[k].state is Pending
}

proof fn owed_on(tasks: Seq<Task>, h: Held, realm: Seq<char>, now: u64, id: u64)
    requires
        owed(tasks, id),
    ensures
        owed(obliged(tasks, h, realm, now), id),
{
    let k = choose|k: int|
        0 <= k < tasks.len() && (#[trigger] tasks[k]).id == id && tasks[k].state is Pending;
    let out = obliged(tasks, h, realm, now);
    assert(out[k].id == id && out[k].state is Pending);
}

/// In one round each holding that must be retired is owed an obligation, no obligation is lost, and that
/// of a holding which need not be retired stays as it is.
pub proof fn each_forced_holding_is_owed(
    hs: Seq<Held>,
    tasks: Seq<Task>,
    realm: Seq<char>,
    now: u64,
    n: nat,
    i: int,
    k: int,
)
    requires
        n <= hs.len(),
    ensures
        ({
            let out = oblige(hs, tasks, realm, now, n);
            &&& tasks.len() <= out.len() <= tasks.len() + n
            &&& 0 <= i < n && forced(hs[i], hs) ==> owed(out, hs[i].id)
            &&& 0 <= k < tasks.len() ==> out[k].id == tasks[k].id
            &&& 0 <= k < tasks.len() && (forall|j: int|
                0 <= j < n && (#[trigger] hs[j]).id == tasks[k].id ==> !forced(hs[j], hs))
                ==> out[k] == tasks[k]
        }),
    decreases n,
{
    if n > 0 {
        each_forced_holding_is_owed(hs, tasks, realm, now, (n - 1) as nat, i, k);
        let before = oblige(hs, tasks, realm, now, (n - 1) as nat);
        let h = hs[n - 1];
        if forced(h, hs) {
            crate::migration_laws::an_obligation_is_pending_again(before, h, realm, now, k);
            let out = obliged(before, h, realm, now);
            let at = choose|at: int|
                0 <= at < out.len() && (#[trigger] out[at]).id == h.id && out[at].state is Pending;
            assert(owed(out, h.id)) by {
                assert(out[at].id == h.id);
            }
            if 0 <= i < n - 1 && forced(hs[i], hs) {
                owed_on(before, h, realm, now, hs[i].id);
            }
        }
    }
}

/// Every segment belongs to a run, and none is named like the run or like nothing.
pub proof fn a_segment_belongs_to_a_run(runs: Seq<RunRow>, segments: Seq<SegmentRow>, k: int)
    requires
        0 <= k < segments.len(),
        associated(runs, segments),
    ensures
        exists|i: int| 0 <= i < runs.len() && (#[trigger] runs[i]).run@ == segments[k].run@,
        segments[k].subject@.len() > 0,
        forall|i: int|
            0 <= i < runs.len() && (#[trigger] runs[i]).run@ == segments[k].run@
                ==> segments[k].subject@ != runs[i].fiber@,
{
    assert(crate::segments::has_run(segments[k], runs));
    let i = choose|i: int| 0 <= i < runs.len() && (#[trigger] runs[i]).run@ == segments[k].run@;
    assert(crate::segments::sound_for(runs[i], segments));
    assert forall|i: int| 0 <= i < runs.len() && (#[trigger] runs[i]).run@ == segments[k].run@ implies
        segments[k].subject@ != runs[i].fiber@ by {
        assert(crate::segments::sound_for(runs[i], segments));
    }
}

/// What is read of the pending entries is what stands at their places: the holding, the key and the grade
/// are those of the row.
pub proof fn entries_are_read_as_they_stand(
    rows: Seq<StoredEntry>,
    places: Seq<int>,
    es: Seq<JournalEntry>,
    k: int,
)
    requires
        read_at(rows, places, es),
        0 <= k < es.len(),
    ensures
        es.len() == places.len(),
        0 <= places[k] < rows.len(),
        es[k].holding_id == rows[places[k]].holding_id,
        es[k].idem_key@ == rows[places[k]].idem_key@,
        grade_text(es[k].grade) == rows[places[k]].grade@,
        es[k].state == JournalState::Pending,
{
    assert(0 <= places[k] < rows.len());
}

/// What remains is told of the record that describes it: under its number, a process by its own number, a
/// lock by its path, and a port by what its instance names.
pub proof fn what_remains_is_described(b: &Behind, r: Remains)
    requires
        describes(b, r),
    ensures
        match r {
            Remains::Process { id, pid, start } => id == b.id && b.class@ == CLASS_PROCESS@,
            Remains::Port { id, transport, port } => id == b.id && b.class@ == CLASS_PORT@
                && named_port(b.instance@, transport, port),
            Remains::Lock { id, path, owner, owner_start } => id == b.id && path == b.instance@
                && b.class@ != CLASS_PROCESS@ && b.class@ != CLASS_PORT@,
        },
{
}

/// The port of an instance stands behind its last colon and the transport before it; without a colon no
/// port is named.
pub proof fn a_port_stands_behind_the_last_colon(
    before: Seq<char>,
    after: Seq<char>,
    transport: Transport,
    port: u16,
)
    requires
        !after.contains(':'),
        named_port(before + seq![':'] + after, transport, port),
    ensures
        transport == Transport::Udp <==> before == "udp"@,
        parsed_number(after, 0xffff) matches Some(n) ==> port == n,
        parsed_number(after, 0xffff) is None ==> port == 0,
{
    reveal_strlit(":");
    let s = before + seq![':'] + after;
    assert(s[before.len() as int] == ':');
    assert(s.contains(':'));
    let (b, a) = choose|b: Seq<char>, a: Seq<char>| #[trigger]
        crate::reconcile::cut_at_last_colon(s, b, a) && transport == (if b == "udp"@ {
            Transport::Udp
        } else {
            Transport::Tcp
        }) && port == match parsed_number(a, u16::MAX as nat) {
            Some(n) => n as u16,
            None => 0,
        };
    assert(s[b.len() as int] == ':');
    if b.len() < before.len() {
        assert(a[before.len() - b.len() - 1] == s[before.len() as int]);
    } else if before.len() < b.len() {
        assert(after[b.len() - before.len() - 1] == s[b.len() as int]);
    }
    assert(b =~= s.subrange(0, b.len() as int));
    assert(before =~= s.subrange(0, before.len() as int));
    assert(a =~= s.subrange((b.len() + 1) as int, s.len() as int));
    assert(after =~= s.subrange((before.len() + 1) as int, s.len() as int));
    if parsed_number(after, 0xffff) is Some {
        crate::ledger_laws::digits_spell_numbers(after, '0', 0xffff);
    }
}

/// A record of a lock may name its owner, by a process number and a start that are numbers; one of a port
/// need say nothing.
pub proof fn what_a_lock_may_say(v: Value)
    ensures
        CLASS_FILE_LOCK@ != CLASS_PROCESS@ ==> (substrate_fault(CLASS_FILE_LOCK@, v) is None <==> {
            &&& v is Object
            &&& member(v, "owner_pid"@) is Some ==> (member(v, "owner_pid"@) matches Some(
                Value::Number(Num::Nat(n)),
            ) && 1 <= n <= 0x7fff_ffff)
            &&& member(v, "owner_start"@) is Some ==> (member(v, "owner_start"@) matches Some(
                Value::Number(Num::Nat(_)),
            ))
        }),
        CLASS_PORT@ != CLASS_PROCESS@ && CLASS_PORT@ != CLASS_FILE_LOCK@ ==> (substrate_fault(
            CLASS_PORT@,
            v,
        ) is None <==> v is Object),
{
}

/// A lock is held with the owner that it names, if it names one; nothing need be observed of other
/// resources.
pub proof fn a_lock_is_held_for_its_owner(class: Seq<char>, instance: Seq<char>, substrate: Value)
    requires
        instance.len() > 0,
        class != CLASS_PROCESS@,
    ensures
        class != CLASS_FILE_LOCK@ || member(substrate, "owner_pid"@) is None ==> hold_step(
            class,
            instance,
            substrate,
        ) == Ok::<HoldStep, Refusal>(HoldStep::Nothing),
        class == CLASS_FILE_LOCK@ ==> (member(substrate, "owner_pid"@) matches Some(
            Value::Number(Num::Nat(n)),
        ) ==> (1 <= n <= 0x7fff_ffff ==> hold_step(class, instance, substrate) == Ok::<
            HoldStep,
            Refusal,
        >(HoldStep::Owner(n as u32)))),
        class == CLASS_FILE_LOCK@ && member(substrate, "owner_pid"@) is Some && hold_step(
            class,
            instance,
            substrate,
        ) is Ok ==> (member(substrate, "owner_pid"@) matches Some(Value::Number(Num::Nat(n))) && 1
            <= n <= 0x7fff_ffff),
{
    crate::cleanup_laws::a_process_number_is_positive(member(substrate, "owner_pid"@));
}

/// A pool is read with its own class, instance and capacity.
pub proof fn a_stored_pool_is_itself(r: PoolRow, p: Capacity, q: Capacity)
    requires
        holds_pool(r, p),
        holds_pool(r, q),
    ensures
        p == q,
        p.class_id == r.class_id@,
        p.instance == r.instance@,
        r.parsed matches Ok(v) && frag_shape(v@) == Some(p.capacity),
{
}

/// A holding is read in one way: under its number, with its owner, its lease and its parent.
pub proof fn a_holding_is_read_in_one_way(r: HoldingRow, legacy: bool, a: Held, b: Held)
    requires
        holds_holding(r, legacy, a),
        holds_holding(r, legacy, b),
    ensures
        a == b,
        a.id == r.id,
        a.subject == r.subject@,
        a.acquired_at == r.acquired_at,
        a.parent is Some <==> r.parent is Some,
        a.state is Retired <==> r.released_at is Some,
{
}

/// An entry of the old journal is accepted only with the grade of the class of its holding.
pub proof fn an_entry_has_the_grade_of_its_class(
    classes: Seq<Class>,
    hs: Seq<Held>,
    row: JournalRow,
)
    requires
        journal_refusal(classes, hs, row) is None,
    ensures
        holding_of(hs, row.holding as u64) matches Some(h) && (declaration(classes, h.class_id)
            matches Some(c) && grade_text(c.revert_grade) == row.grade@),
        exists|j: JournalState| row.state@ == #[trigger] crate::records::journal_text(j),
{
}

/// A direct read that succeeds leaves one entry in the trace, under its name; a failed one and one that
/// went to a broker leave none.
pub proof fn a_direct_read_is_noted(d: Dialect, r: Read, label: Tags, rs: Seq<Reply>, at: Talk)
    ensures
        ({
            let out = read_out(d, r, label, rs, at);
            &&& out.talk.asks.len() == at.asks.len() + 1
            &&& out.end is Ok && d == Dialect::Direct ==> {
                &&& out.talk.trace.len() == at.trace.len() + 1
                &&& out.talk.trace.drop_last() == at.trace
                &&& out.talk.trace.last().ok
                &&& out.talk.trace.last().verb == r.name
                &&& out.talk.trace.last().kind == "observe"@ <==> r.kind is Observe
            }
            &&& out.end is Err || d == Dialect::Brokered ==> out.talk.trace == at.trace
            &&& out.end matches Ok(vl) ==> vl.1 == label
        }),
{
    reveal_strlit("observe");
    reveal_strlit("pure");
    assert("observe"@.len() == 7 && "pure"@.len() == 4);
    let out = read_out(d, r, label, rs, at);
    if out.end is Ok && d == Dialect::Direct {
        assert(out.talk.trace.drop_last() =~= at.trace);
    }
}

/// A witness names a session only if it names a process that can be, and a session.
pub proof fn a_session_has_a_process(w: Session)
    ensures
        names_session(w) <==> {
            &&& 1 <= w.process.pid <= 0x7fff_ffff
            &&& w.process.start_ticks != 0
            &&& w.process.boot.len() != 0
            &&& w.session.len() != 0
        },
{
}

/// A grant covers the verbs that it names of its own driver, and no others.
pub proof fn a_grant_covers_its_own(
    g: crate::cap::Grant,
    family: Seq<char>,
    short: Seq<char>,
    verb: Seq<char>,
)
    ensures
        g.resource == "driver:"@ + family && g.verbs.contains(short) ==> grant_covers(
            g,
            full_verb(family, short),
        ),
        grant_covers(g, verb) ==> exists|f: Seq<char>, s: Seq<char>| #[trigger]
            full_verb(f, s) == verb && g.resource == "driver:"@ + f && g.verbs.contains(s),
        (forall|s: Seq<char>| !g.verbs.contains(s)) ==> !grant_covers(g, verb),
{
    if grant_covers(g, verb) {
        let (f, s) = choose|f: Seq<char>, s: Seq<char>|
            g.resource == "driver:"@ + f && g.verbs.contains(s) && verb == #[trigger] full_verb(
                f,
                s,
            );
        assert(full_verb(f, s) == verb);
    }
}

/// Whoever calls within the row of the slot but without a capability is told why; a plugin that is not
/// known has no row that could refuse it.
pub proof fn a_refused_call_is_told_why(
    before: &CapStore,
    after: &CapStore,
    routes: Seq<Route>,
    plugins: Seq<PluginEntry>,
    hs: Seq<Held>,
    name: Seq<char>,
    verb: Seq<char>,
    now: u64,
    r: Invocation,
)
    requires
        invoked(before, after, routes, plugins, hs, name, verb, now, r),
    ensures
        plugin_of(plugins, name) is None ==> in_row(plugins, name, verb),
        in_row(plugins, name, verb) ==> (found_for(
            before,
            "plugin:"@ + name,
            "driver:"@ + family_of(verb),
            short_of(verb),
            now,
        ) matches Err(e) ==> (r.target matches Err(t) && t@ == e)),
        !in_row(plugins, name, verb) ==> (r.target matches Err(t) && t@ is Denied),
{
}

/// Lowest terms keep the ratio.
pub proof fn lowest_terms_keep_the_ratio(n: nat, d: nat)
    ensures
        n * lowest(n, d).1 == d * lowest(n, d).0,
{
    if n > 0 || d > 0 {
        crate::digits::lowest_is_lowest(n, d);
        let g = gcd(n, d);
        let (a, b) = lowest(n, d);
        crate::digits::gcd_is_greatest(n, d, 1);
        lemma_fundamental_div_mod(n as int, g as int);
        lemma_fundamental_div_mod(d as int, g as int);
        assert(n == g * a && d == g * b);
        assert(n * b == d * a) by (nonlinear_arith)
            requires
                n == g * a,
                d == g * b,
        ;
    }
}

/// A stored class is read under its own names: its algebra and its grade are those that are written, and
/// its release can be repeated only if the row says so.
pub proof fn a_stored_class_is_itself(r: ClassRow, a: Class, b: Class)
    requires
        holds_class(r, a),
        holds_class(r, b),
    ensures
        a == b,
        a.class_id == r.class_id@,
        algebra_text(a.algebra) == r.algebra@,
        grade_text(a.revert_grade) == r.revert_grade@,
        a.release_idempotent <==> r.release_idempotent == 1,
        a.lease_duration is Some <==> r.lease_secs is Some,
{
    crate::decode::class_is_determined(r, a, b);
}

/// What does not name a process is of any generation.
pub proof fn only_processes_are_of_an_incarnation(t: Target, generation: Seq<char>)
    ensures
        !(t is Process) ==> generation_fits(t, generation),
{
}

/// No incarnation survives with what a plugin holds outside the accounts.
pub proof fn what_no_incarnation_survives(class: Seq<char>)
    ensures
        left_behind(class) <==> {
            ||| class == CLASS_PROCESS@
            ||| class == CLASS_PORT@
            ||| class == CLASS_FILE_LOCK@
            ||| class == CLASS_PLUGIN@
            ||| class == CLASS_SUBSCRIPTION@
        },
        left_behind(class) ==> class != CLASS_CAP@ && class != CLASS_CAP_COUNT@,
{
    reveal_strlit("kernel/cap-count");
    reveal_strlit("kernel/plugin");
    reveal_strlit("kernel/subscription");
    reveal_strlit("kernel/process");
    reveal_strlit("kernel/port");
    reveal_strlit("kernel/file-lock");
    reveal_strlit("kernel/cap");
    assert(CLASS_CAP_COUNT@.len() == 16 && CLASS_PLUGIN@.len() == 13 && CLASS_SUBSCRIPTION@.len()
        == 19 && CLASS_PROCESS@.len() == 14 && CLASS_PORT@.len() == 11 && CLASS_FILE_LOCK@.len()
        == 16 && CLASS_CAP@.len() == 10);
    assert(CLASS_CAP_COUNT@[7] != CLASS_FILE_LOCK@[7]);
}

/// The request of an operation is of the kind that the operation names, and no other operation is known.
pub proof fn an_operation_names_its_request(op: Value, fields: Value)
    ensures
        op_request(op, fields) matches Ok(r) ==> {
            &&& r is Hold <==> op == Value::Str("hold"@)
            &&& r is Release <==> op == Value::Str("release"@)
            &&& r is Renew <==> op == Value::Str("renew"@)
        },
        !(op is Str) ==> op_request(op, fields) is Err,
        op == Value::Str("release"@) ==> (op_request(op, fields) is Ok <==> release_in(fields) is Ok),
        op == Value::Str("renew"@) ==> (op_request(op, fields) is Ok <==> renew_in(fields) is Ok),
{
    reveal_strlit("hold");
    reveal_strlit("release");
    reveal_strlit("renew");
    assert("hold"@.len() == 4 && "release"@.len() == 7 && "renew"@.len() == 5);
    if let Value::Object(ms) = fields {
        crate::message_laws::a_hold_is_read_as_it_is_said(ms);
    }
}

/// A list holds the fields in order: each value that is there fits its field, and no required field is
/// missing.
pub proof fn a_list_has_its_fields(
    form: Seq<Want>,
    items: Seq<Value>,
    title: Seq<char>,
    i: nat,
    k: int,
)
    requires
        items_trouble(form, items, title, i) is None,
        i <= k < form.len(),
    ensures
        k < items.len() ==> shape_trouble(form[k].shape, items[k]) is None,
        form[k].required ==> k < items.len(),
    decreases form.len() - i,
{
    if i < k {
        a_list_has_its_fields(form, items, title, i + 1, k);
    }
}

/// What can be released is released: a holding that still occupies its resource can be, once everything
/// under it that occupies one is gone.
pub proof fn what_stands_alone_can_be_released(hs: Seq<Held>, gone: Seq<u64>, id: u64, h: Held)
    requires
        holding_of(hs, id) == Some(h),
        !(h.state is Retired),
        !gone.contains(id),
        forall|j: int|
            0 <= j < hs.len() && (#[trigger] hs[j]).parent == Some(id) ==> hs[j].state is Retired
                || gone.contains(hs[j].id),
    ensures
        releasable(hs, gone, id),
{
}

/// Every class that the kernel brings is declared under its own name, without a term, and its release can
/// be repeated and reverts it.
pub proof fn what_the_kernel_brings_can_be_released(id: Seq<char>)
    ensures
        builtin_class(id).class_id == id,
        builtin_class(id).release_idempotent,
        builtin_class(id).lease_duration is None,
        builtin_class(id).revert_grade is Inverse,
{
}

/// An entry of the journal is refused only for a number that is none or, where its holding is asked for,
/// for a grade that is none.
pub proof fn an_entry_is_refused_for_a_reason(
    row: &StoredEntry,
    holdings: Seq<u64>,
    g: RevertGrade,
)
    ensures
        row.holding_id >= 0 && row.grade@ == grade_text(g) ==> entry_fault(row, holdings) is None,
        row.holding_id >= 0 && !holdings.contains(row.holding_id as u64) ==> entry_fault(
            row,
            holdings,
        ) is None,
        entry_fault(row, holdings) is None && holdings.contains(row.holding_id as u64)
            ==> exists|k: RevertGrade| row.grade@ == #[trigger] grade_text(k),
{
}

/// A target that could not be resolved is stored under the kind that was expected, and with the reason.
pub proof fn the_unresolved_keeps_its_kind(expected: String, reason: String, k: CleanupKind)
    ensures
        expected@ == kind_text(k) ==> target_in(TargetDto::Unresolved { expected, reason }) == Ok::<
            Target,
            Refusal,
        >(Target::Unresolved { kind: k, reason: reason@ }),
        target_in(TargetDto::Unresolved { expected, reason }) is Ok ==> exists|j: CleanupKind|
            expected@ == #[trigger] kind_text(j),
{
    if expected@ == kind_text(k) {
        let j = choose|j: CleanupKind| expected@ == #[trigger] kind_text(j);
        crate::outcome_laws::kinds_are_named_apart(j, k);
    }
}

/// Metadata have a character exactly when they hold one of the fields that a kind gives meaning to.
pub proof fn what_gives_a_character(v: Value, name: Seq<char>)
    ensures
        ({
            ||| name == "world"@
            ||| name == "compensate_with"@
            ||| name == "amortizable"@
            ||| name == "idempotent"@
            ||| name == "commutes"@
            ||| name == "degrade"@
        }) && member(v, name) is Some ==> has_character(v),
        has_character(v) ==> v is Object,
{
}

/// A span is a pair of numbers and nothing else.
pub proof fn a_span_is_a_pair(v: Value, a: u64, b: u64)
    ensures
        span_of(v) == Some((a, b)) <==> (v matches Value::Array(p) && p.len() == 2 && p[0]
            == Value::Number(Num::Nat(a)) && p[1] == Value::Number(Num::Nat(b))),
{
}

/// What is to be done for a request is what was asked: the call, the event, the topic, the child, the
/// plan, the content or the part of it, as it was said.
pub proof fn a_request_is_done_as_asked(
    before: &Host,
    after: &Host,
    hs: Seq<Held>,
    name: Seq<char>,
    req: Value,
    now: u64,
    op: Op,
    action: ClientAction,
)
    requires
        decided(before, after, hs, name, req, now, op, Ok(action)),
    ensures
        match action {
            ClientAction::Invoke { decision, verb, args } => op == (Op::Invoke {
                verb: verb@,
                args: args@,
            }),
            ClientAction::Emit { topic, data } => op == (Op::Emit { topic: topic@, data: data@ }),
            ClientAction::Subscribe { id, topic, order } => op == (Op::Subscribe { topic: topic@ })
                && after.next_sub == before.next_sub + 1 && id == before.next_sub && order.owner@
                == "plugin:"@ + name,
            ClientAction::SpawnChild { bin, args, envs, parent } => op == (Op::SpawnChild {
                bin: bin@,
                args: texts(args@),
                envs: pairs_view(envs@),
            }),
            ClientAction::Submit { subject, plan } => op == (Op::SubmitPlan { plan: plan@ })
                && subject@ == "plugin:"@ + name,
            ClientAction::Read { id, offset, len } => op == (Op::Read { id: id@, offset, len }),
            ClientAction::Put { media_type, labels, origin } => (op matches Op::Put {
                media_type: m,
                labels: l,
            } && m == media_type@ && origin@ == "plugin:"@ + name && (l is Some <==> labels
                is Some)),
            ClientAction::Hold { request, step } => op is Hold,
            ClientAction::Release(h) => op is Release,
            ClientAction::Renew(h, lease) => op is Renew,
            ClientAction::Unsubscribe(h) => op is Unsubscribe,
            ClientAction::Grants(v) => op is Grants,
            ClientAction::Denied { record, why } => op is SpawnChild,
        },
        !(op is Subscribe) ==> after.next_sub == before.next_sub,
        after.routes == before.routes,
        after.plugins == before.plugins,
        after.subs == before.subs,
        !(op is Invoke || op is SpawnChild) ==> after.caps == before.caps,
{
}

/// A fraction is read in lowest terms: something over nothing is none, and nothing over nothing stays
/// the invalid one.
pub proof fn a_fraction_is_read_in_lowest_terms(num: Seq<char>, den: Seq<char>, n: nat, d: nat)
    requires
        spelled(num) == Some(n),
        spelled(den) == Some(d),
    ensures
        frac_of(num, den) is None <==> d == 0 && n > 0,
        n == 0 && d == 0 ==> frac_of(num, den) == Some(FragView::Frac(decimal(0), decimal(0))),
        d > 0 ==> exists|a: nat, b: nat|
            frac_of(num, den) == Some(FragView::Frac(#[trigger] decimal(a), #[trigger] decimal(b)))
                && b > 0 && gcd(a, b) == 1 && n * b == d * a,
{
    if d > 0 {
        lowest_terms_keep_the_ratio(n, d);
        crate::digits::lowest_is_lowest(n, d);
        let (a, b) = lowest(n, d);
        assert(frac_of(num, den) == Some(FragView::Frac(decimal(a), decimal(b))));
    }
}

/// A list is a message exactly when its values fit the fields in order and there is no more behind them.
pub proof fn a_list_ends_with_its_fields(
    form: Seq<Want>,
    items: Seq<Value>,
    title: Seq<char>,
    fewer: Seq<char>,
)
    ensures
        list_trouble(form, items, title, fewer) is None <==> items_trouble(form, items, title, 0)
            is None && items.len() <= form.len(),
{
}

/// An old process with a witness that can be, and of the generation that the witness gives, is absent
/// exactly when it was observed absent.
pub proof fn an_old_process_is_believed(h: Held, e: Evidence, d: Value, pid: u32, start: u64)
    requires
        e.detail matches Some(Ok(j)) && j@ == d,
        witness_in(Some(d)) == Some((pid, start)),
        1 <= pid <= 0x7fff_ffff,
        start >= 1,
        h.generation == generation_of(pid, start),
    ensures
        observed_absent(CleanupKind::Process, h, e) == Ok::<bool, Refusal>(e.absent),
{
}

/// What a store without a schema holds is brought over only where it has no pools of its own; and then it
/// is, if its capabilities and holdings are in order.
pub proof fn only_a_store_without_pools_is_brought_over(
    caps: Seq<LegacyCap>,
    classes: Seq<Class>,
    hs: Seq<Held>,
    stored_pools: nat,
)
    ensures
        legacy_import(caps, classes, hs, stored_pools) is Ok <==> stored_pools == 0 && (import_caps(
            caps,
            caps.len(),
        ) matches Ok(at) && import_held(classes, hs, at.pools, hs.len()) is Ok),
{
}

/// Only objects declare anything: metadata that are nothing declare nothing, and other values are
/// refused, as are tools that are neither an object nor nothing.
pub proof fn only_objects_declare(
    meta: Value,
    name: Seq<char>,
    verbs: Seq<Seq<char>>,
    tools: Value,
    hello: Value,
)
    ensures
        entry_in(meta) is Ok ==> meta is Null || meta is Object,
        meta is Null ==> entry_in(meta) == Ok::<Option<Entry>, Seq<char>>(None),
        entry_in(meta) == Ok::<Option<Entry>, Seq<char>>(None) ==> !has_character(meta),
        class_in(name, verbs, tools, hello) matches Ok(c) ==> (tools is Null || tools is Object)
            && c.name == name,
{
}

} // verus!

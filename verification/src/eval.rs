//! Evaluation of expressions and guards, with the labels of the values.
//!
//! A run is a conversation with the world: the interpreter asks, the world replies. What a run
//! does is a function of the replies; the specifications here say which questions it asks,
//! one by one, and what it makes of the answers.

use crate::error::{joined_text, refusal_text, Refusal};
use crate::json::{elements_of, relate_values, text_of, value_relation, values, Json, Value};
use crate::label::{bottom, joined, Label, Tags};
use crate::pattern::{matches_text, search};
use crate::plan::{CmpOp, Expr, Guard};
use crate::plan_runtime::{HostAsk, HostReply};
use crate::plancheck::{observed, VerbSchemas};
use crate::strmap::StrMap;
use crate::text::Rel;
use vstd::prelude::*;

verus! {

/// The two kinds of reads of an expression.
#[derive(Debug, Clone, Copy, PartialEq, Eq, Structural)]
pub enum ReadKind {
    Observe,
    Pure,
}

/// A read that an expression makes.
pub struct Read {
    pub kind: ReadKind,
    pub name: Seq<char>,
    pub args: Seq<Value>,
}

/// A question to the world.
#[allow(inconsistent_fields)]
pub enum Ask {
    /// A read, handed over as it stands.
    Read(Read),
    /// An effect, handed over as it stands.
    Effect { verb: Seq<char>, args: Seq<Value> },
    /// A verb for the broker of capabilities.
    Invoke { verb: Seq<char>, args: Value },
    /// A service of the host of a plan run.
    Host(HostAsk),
}

/// A reply of the world.
pub enum Reply {
    Got(Value),
    Failed(Seq<char>),
    Refused(Refusal),
    /// What the host of a plan run says.
    Host(HostReply),
}

/// How an interpreter talks to the world: directly, or through the broker of capabilities.
#[derive(Debug, Clone, Copy, PartialEq, Eq, Structural)]
pub enum Dialect {
    Direct,
    Brokered,
}

/// The question that a read becomes. A broker takes one value: a single argument of an
/// observation stands bare, several are listed, and a computation is named beside its
/// arguments.
pub open spec fn asked(d: Dialect, r: Read) -> Ask {
    match d {
        Dialect::Direct => Ask::Read(r),
        Dialect::Brokered => match r.kind {
            ReadKind::Observe => Ask::Invoke {
                verb: r.name,
                args: if r.args.len() == 1 {
                    r.args[0]
                } else {
                    Value::Array(r.args)
                },
            },
            ReadKind::Pure => Ask::Invoke {
                verb: "compute::run"@,
                args: Value::Object(
                    seq![("args"@, Value::Array(r.args)), ("func"@, Value::Str(r.name))],
                ),
            },
        },
    }
}

/// What a read makes of the reply: a value, or the text of a failure.
pub open spec fn understood(d: Dialect, r: Read, reply: Reply) -> Result<Value, Seq<char>> {
    match reply {
        Reply::Got(v) => Ok(v),
        Reply::Failed(t) => Err(t),
        Reply::Refused(e) => match r.kind {
            ReadKind::Observe => Err(r.name + ": "@ + refusal_text(e)),
            ReadKind::Pure => Err("pure "@ + r.name + ": "@ + refusal_text(e)),
        },
        Reply::Host(_) => Err(Seq::empty()),
    }
}

/// A world that answers reads.
pub trait Reader<W> {
    /// How the reads are put.
    spec fn dialect() -> Dialect;

    /// The conversation so far.
    spec fn log(w: W) -> Seq<(Ask, Reply)>;

    fn direct() -> (r: bool)
        ensures
            r == (Self::dialect() == Dialect::Direct),
    ;

    /// Puts a read to the world.
    fn read(w: &mut W, kind: ReadKind, name: &str, args: Vec<Json>) -> (r: Result<Json, String>)
        ensures
            ({
                let read = Read { kind, name: name@, args: values(args@) };
                let reply = Self::log(*final(w)).last().1;
                &&& Self::log(*final(w)) == Self::log(*old(w)).push(
                    (asked(Self::dialect(), read), reply),
                )
                &&& understood(Self::dialect(), read, reply) == result_view(r)
            }),
    ;
}

/// What the result of a read says.
pub open spec fn result_view(r: Result<Json, String>) -> Result<Value, Seq<char>> {
    match r {
        Ok(v) => Ok(v@),
        Err(e) => Err(e@),
    }
}

/// One line of the record of a run.
#[derive(Debug, PartialEq, Eq)]
pub struct TraceEntry {
    pub kind: String,
    pub verb: String,
    pub ok: bool,
    pub detail: Option<String>,
}

/// What a line of the record says.
pub struct Entry {
    pub kind: Seq<char>,
    pub verb: Seq<char>,
    pub ok: bool,
    pub detail: Option<Seq<char>>,
}

impl View for TraceEntry {
    type V = Entry;

    open spec fn view(&self) -> Entry {
        Entry {
            kind: self.kind@,
            verb: self.verb@,
            ok: self.ok,
            detail: match self.detail {
                Some(d) => Some(d@),
                None => None,
            },
        }
    }
}

/// What the lines of a record say.
pub open spec fn entries(trace: Seq<TraceEntry>) -> Seq<Entry> {
    Seq::new(trace.len(), |i: int| trace[i]@)
}

/// The questions of a conversation.
pub open spec fn questions(log: Seq<(Ask, Reply)>) -> Seq<Ask> {
    Seq::new(log.len(), |i: int| log[i].0)
}

/// Whether a stream of replies starts with those of a conversation.
pub open spec fn hears(replies: Seq<Reply>, log: Seq<(Ask, Reply)>) -> bool {
    &&& log.len() <= replies.len()
    &&& forall|i: int| 0 <= i < log.len() ==> #[trigger] replies[i] == log[i].1
}

/// A stream that starts with the replies of a conversation starts with those of its beginning.
pub proof fn hears_prefix(replies: Seq<Reply>, a: Seq<(Ask, Reply)>, b: Seq<(Ask, Reply)>)
    requires
        a.is_prefix_of(b),
        hears(replies, b),
    ensures
        hears(replies, a),
{
    assert forall|i: int| 0 <= i < a.len() implies #[trigger] replies[i] == a[i].1 by {
        assert(a[i] == b[i]);
    }
}

/// What has been said and recorded so far. The reply to the next question is the one whose
/// position in the stream is the number of questions asked.
#[verifier::ext_equal]
pub struct Talk {
    pub asks: Seq<Ask>,
    pub trace: Seq<Entry>,
}

/// The state of a conversation and a record.
pub open spec fn talk_of(log: Seq<(Ask, Reply)>, trace: Seq<TraceEntry>) -> Talk {
    Talk { asks: questions(log), trace: entries(trace) }
}

/// Why an evaluation stops.
#[derive(Debug, PartialEq, Eq)]
pub enum Stop {
    /// A read failed, or a name is unknown.
    Fail(String),
    /// A regular expression does not compile.
    BadGuard(String),
}

/// What a stop says.
pub enum Halt {
    Fail(Seq<char>),
    BadGuard(Seq<char>),
}

impl View for Stop {
    type V = Halt;

    open spec fn view(&self) -> Halt {
        match self {
            Stop::Fail(s) => Halt::Fail(s@),
            Stop::BadGuard(s) => Halt::BadGuard(s@),
        }
    }
}

/// The values and labels of variables.
pub type Bindings = Map<Seq<char>, (Value, Tags)>;

/// What the variables hold.
pub open spec fn bindings(env: StrMap<(Json, Label)>) -> Bindings {
    env@.map_values(|p: (Json, Label)| (p.0@, p.1@))
}

/// The outcome of an evaluation.
pub struct Evaluated<T> {
    pub talk: Talk,
    pub end: Result<T, Halt>,
}

/// Puts a read to the world.
pub open spec fn read_out(d: Dialect, r: Read, label: Tags, rs: Seq<Reply>, at: Talk) -> Evaluated<
    (Value, Tags),
> {
    let asks = at.asks.push(asked(d, r));
    match understood(d, r, rs[at.asks.len() as int]) {
        Err(t) => Evaluated {
            talk: Talk { asks, trace: at.trace },
            end: Err(Halt::Fail(t)),
        },
        Ok(v) => Evaluated {
            talk: Talk {
                asks,
                trace: if d == Dialect::Direct {
                    at.trace.push(
                        Entry {
                            kind: match r.kind {
                                ReadKind::Observe => "observe"@,
                                ReadKind::Pure => "pure"@,
                            },
                            verb: r.name,
                            ok: true,
                            detail: None,
                        },
                    )
                } else {
                    at.trace
                },
            },
            end: Ok((v, label)),
        },
    }
}

/// The value and label of an expression.
pub open spec fn eval_out(
    d: Dialect,
    e: Expr,
    env: Bindings,
    obs: Map<Seq<char>, Tags>,
    rs: Seq<Reply>,
    at: Talk,
) -> Evaluated<(Value, Tags)>
    decreases e,
{
    match e {
        Expr::Observe { verb, args } => if !obs.contains_key(verb@) {
            Evaluated { talk: at, end: Err(Halt::Fail("unknown verb "@ + verb@)) }
        } else {
            let all = eval_all_out(d, args@, Seq::empty(), obs[verb@], env, obs, rs, at);
            match all.end {
                Err(h) => Evaluated { talk: all.talk, end: Err(h) },
                Ok(vl) => read_out(
                    d,
                    Read { kind: ReadKind::Observe, name: verb@, args: vl.0 },
                    vl.1,
                    rs,
                    all.talk,
                ),
            }
        },
        Expr::Pure { func, args } => {
            let all = eval_all_out(d, args@, Seq::empty(), bottom(), env, obs, rs, at);
            match all.end {
                Err(h) => Evaluated { talk: all.talk, end: Err(h) },
                Ok(vl) => read_out(
                    d,
                    Read { kind: ReadKind::Pure, name: func@, args: vl.0 },
                    vl.1,
                    rs,
                    all.talk,
                ),
            }
        },
        Expr::Const { value } => Evaluated { talk: at, end: Ok((value@, bottom())) },
        Expr::Var { name } => if env.contains_key(name@) {
            Evaluated { talk: at, end: Ok(env[name@]) }
        } else {
            Evaluated { talk: at, end: Err(Halt::Fail("unknown var "@ + name@)) }
        },
        Expr::Index { base, idx } => {
            let b = eval_out(d, *base, env, obs, rs, at);
            match b.end {
                Err(h) => b,
                Ok(vl) => Evaluated { talk: b.talk, end: Ok((element(vl.0, idx), vl.1)) },
            }
        },
    }
}

/// The element of a list, or null.
pub open spec fn element(v: Value, idx: u32) -> Value {
    match elements_of(v) {
        Some(items) => if idx < items.len() {
            items[idx as int]
        } else {
            Value::Null
        },
        None => Value::Null,
    }
}

/// The values of a list of expressions, and the join of their labels.
pub open spec fn eval_all_out(
    d: Dialect,
    es: Seq<Expr>,
    vals: Seq<Value>,
    label: Tags,
    env: Bindings,
    obs: Map<Seq<char>, Tags>,
    rs: Seq<Reply>,
    at: Talk,
) -> Evaluated<(Seq<Value>, Tags)>
    decreases es,
{
    if es.len() == 0 {
        Evaluated { talk: at, end: Ok((vals, label)) }
    } else {
        let one = eval_out(d, es[0], env, obs, rs, at);
        match one.end {
            Err(h) => Evaluated { talk: one.talk, end: Err(h) },
            Ok(vl) => eval_all_out(
                d,
                es.drop_first(),
                vals.push(vl.0),
                joined(label, vl.1),
                env,
                obs,
                rs,
                one.talk,
            ),
        }
    }
}

/// What the result of an evaluation says.
pub open spec fn end_of(r: Result<(Json, Label), Stop>) -> Result<(Value, Tags), Halt> {
    match r {
        Ok(p) => Ok((p.0@, p.1@)),
        Err(s) => Err(s@),
    }
}

/// What the result of several evaluations says.
pub open spec fn ends_of(r: Result<(Vec<Json>, Label), Stop>) -> Result<
    (Seq<Value>, Tags),
    Halt,
> {
    match r {
        Ok(p) => Ok((values(p.0@), p.1@)),
        Err(s) => Err(s@),
    }
}

/// Puts a read to the world, and records it.
fn read_in<W, D: Reader<W>>(
    w: &mut W,
    trace: &mut Vec<TraceEntry>,
    kind: ReadKind,
    name: &String,
    args: Vec<Json>,
    label: Label,
) -> (r: Result<(Json, Label), Stop>)
    ensures
        D::log(*old(w)).is_prefix_of(D::log(*final(w))),
        forall|rs: Seq<Reply>| #[trigger]
            hears(rs, D::log(*final(w))) ==> read_out(
                D::dialect(),
                Read { kind, name: name@, args: values(args@) },
                label@,
                rs,
                talk_of(D::log(*old(w)), old(trace)@),
            ) == (Evaluated {
                talk: talk_of(D::log(*final(w)), final(trace)@),
                end: end_of(r),
            }),
{
    let ghost log0 = D::log(*w);
    let ghost trace0 = trace@;
    let ghost argv = values(args@);
    let got = D::read(w, kind, name.as_str(), args);
    let ghost log1 = D::log(*w);
    let ghost read = Read { kind, name: name@, args: argv };
    proof {
        assert(questions(log1) =~= questions(log0).push(asked(D::dialect(), read)));
        assert forall|rs: Seq<Reply>| #[trigger] hears(rs, log1) implies rs[log0.len() as int]
            == log1.last().1 by {
            assert(rs[log0.len() as int] == log1[log0.len() as int].1);
        }
    }
    match got {
        Err(e) => Err(Stop::Fail(e)),
        Ok(v) => {
            if D::direct() {
                let entry = TraceEntry {
                    kind: match kind {
                        ReadKind::Observe => "observe".to_owned(),
                        ReadKind::Pure => "pure".to_owned(),
                    },
                    verb: name.clone(),
                    ok: true,
                    detail: None,
                };
                trace.push(entry);
                assert(entries(trace@) =~= entries(trace0).push(entry@));
            }
            Ok((v, label))
        },
    }
}

/// Evaluates an expression.
pub fn eval<W, D: Reader<W>>(
    w: &mut W,
    trace: &mut Vec<TraceEntry>,
    e: &Expr,
    env: &StrMap<(Json, Label)>,
    schemas: &VerbSchemas,
) -> (r: Result<(Json, Label), Stop>)
    ensures
        D::log(*old(w)).is_prefix_of(D::log(*final(w))),
        forall|rs: Seq<Reply>| #[trigger]
            hears(rs, D::log(*final(w))) ==> eval_out(
                D::dialect(),
                *e,
                bindings(*env),
                observed(schemas),
                rs,
                talk_of(D::log(*old(w)), old(trace)@),
            ) == (Evaluated {
                talk: talk_of(D::log(*final(w)), final(trace)@),
                end: end_of(r),
            }),
    decreases e,
{
    match e {
        Expr::Observe { verb, args } => match schemas.observe.get(verb.as_str()) {
            None => Err(Stop::Fail(joined_text("unknown verb ", verb.as_str()))),
            Some(base) => {
                assert(decreases_to!(e => args@));
                match eval_all::<W, D>(w, trace, args, base, env, schemas) {
                    Err(h) => Err(h),
                    Ok((vals, label)) => {
                        let ghost log1 = D::log(*w);
                        let r = read_in::<W, D>(w, trace, ReadKind::Observe, verb, vals, label);
                        proof {
                            assert forall|rs: Seq<Reply>| #[trigger]
                                hears(rs, D::log(*w)) implies hears(rs, log1) by {
                                hears_prefix(rs, log1, D::log(*w));
                            }
                        }
                        r
                    },
                }
            },
        },
        Expr::Pure { func, args } => {
            assert(decreases_to!(e => args@));
            let base = Label::public_trusted();
            match eval_all::<W, D>(w, trace, args, &base, env, schemas) {
                Err(h) => Err(h),
                Ok((vals, label)) => {
                    let ghost log1 = D::log(*w);
                    let r = read_in::<W, D>(w, trace, ReadKind::Pure, func, vals, label);
                    proof {
                        assert forall|rs: Seq<Reply>| #[trigger]
                            hears(rs, D::log(*w)) implies hears(rs, log1) by {
                            hears_prefix(rs, log1, D::log(*w));
                        }
                    }
                    r
                },
            }
        },
        Expr::Const { value } => Ok((value.clone(), Label::public_trusted())),
        Expr::Var { name } => match env.get(name.as_str()) {
            None => Err(Stop::Fail(joined_text("unknown var ", name.as_str()))),
            Some(p) => Ok((p.0.clone(), p.1.clone())),
        },
        Expr::Index { base, idx } => match eval::<W, D>(w, trace, base, env, schemas) {
            Err(h) => Err(h),
            Ok((v, l)) => Ok((nth(&v, *idx), l)),
        },
    }
}

/// The element of a list, or null.
fn nth(v: &Json, idx: u32) -> (r: Json)
    ensures
        r@ == element(v@, idx),
{
    match v.as_array() {
        Some(items) => if (idx as usize) < items.len() {
            items[idx as usize].clone()
        } else {
            Json::Null
        },
        None => Json::Null,
    }
}

/// Evaluates a list of expressions in order.
pub fn eval_all<W, D: Reader<W>>(
    w: &mut W,
    trace: &mut Vec<TraceEntry>,
    es: &Vec<Expr>,
    start: &Label,
    env: &StrMap<(Json, Label)>,
    schemas: &VerbSchemas,
) -> (r: Result<(Vec<Json>, Label), Stop>)
    ensures
        D::log(*old(w)).is_prefix_of(D::log(*final(w))),
        forall|rs: Seq<Reply>| #[trigger]
            hears(rs, D::log(*final(w))) ==> eval_all_out(
                D::dialect(),
                es@,
                Seq::empty(),
                start@,
                bindings(*env),
                observed(schemas),
                rs,
                talk_of(D::log(*old(w)), old(trace)@),
            ) == (Evaluated {
                talk: talk_of(D::log(*final(w)), final(trace)@),
                end: ends_of(r),
            }),
    decreases es@,
{
    let mut vals: Vec<Json> = Vec::new();
    let mut label: Label = start.clone();
    let mut i: usize = 0;
    let ghost d = D::dialect();
    let ghost b = bindings(*env);
    let ghost obs = observed(schemas);
    let ghost log0 = D::log(*w);
    let ghost at0 = talk_of(log0, trace@);
    assert(es@.skip(0) =~= es@);
    assert(values(vals@) =~= Seq::<Value>::empty());
    while i < es.len()
        invariant
            i <= es.len(),
            d == D::dialect(),
            b == bindings(*env),
            obs == observed(schemas),
            log0 == D::log(*old(w)),
            at0 == talk_of(D::log(*old(w)), old(trace)@),
            log0.is_prefix_of(D::log(*w)),
            forall|rs: Seq<Reply>| #[trigger]
                hears(rs, D::log(*w)) ==> eval_all_out(
                    d,
                    es@,
                    Seq::empty(),
                    start@,
                    b,
                    obs,
                    rs,
                    at0,
                ) == eval_all_out(
                    d,
                    es@.skip(i as int),
                    values(vals@),
                    label@,
                    b,
                    obs,
                    rs,
                    talk_of(D::log(*w), trace@),
                ),
        decreases es.len() - i,
    {
        let ghost rest = es@.skip(i as int);
        let ghost log1 = D::log(*w);
        let ghost at1 = talk_of(log1, trace@);
        let ghost vals1 = values(vals@);
        let ghost label1 = label@;
        assert(rest[0] == es@[i as int]);
        assert(rest.drop_first() =~= es@.skip(i + 1));
        assert(decreases_to!(es@ => es@[i as int]));
        let one = eval::<W, D>(w, trace, &es[i], env, schemas);
        proof {
            assert forall|rs: Seq<Reply>| #[trigger] hears(rs, D::log(*w)) implies eval_all_out(
                d,
                es@,
                Seq::empty(),
                start@,
                b,
                obs,
                rs,
                at0,
            ) == eval_all_out(d, rest, vals1, label1, b, obs, rs, at1) && eval_out(
                d,
                rest[0],
                b,
                obs,
                rs,
                at1,
            ) == (Evaluated { talk: talk_of(D::log(*w), trace@), end: end_of(one) }) by {
                hears_prefix(rs, log1, D::log(*w));
            }
        }
        match one {
            Err(h) => {
                return Err(h);
            },
            Ok((v, l)) => {
                let ghost vv = v@;
                label = label.join(&l);
                vals.push(v);
                assert(values(vals@) =~= vals1.push(vv));
            },
        }
        i = i + 1;
    }
    assert(es@.skip(i as int).len() == 0);
    Ok((vals, label))
}

/// Whether a value counts as something: a list with an element, or any other value but null.
pub open spec fn exists_in(v: Value) -> bool {
    match elements_of(v) {
        Some(items) => items.len() > 0,
        None => !(v is Null),
    }
}

/// Whether a comparison holds. Values that cannot be related satisfy none.
pub open spec fn holds(op: CmpOp, r: Option<Rel>) -> bool {
    match r {
        None => false,
        Some(rel) => match op {
            CmpOp::Eq => rel == Rel::Same,
            CmpOp::Ne => rel != Rel::Same,
            CmpOp::Lt => rel == Rel::Before,
            CmpOp::Le => rel != Rel::After,
            CmpOp::Gt => rel == Rel::After,
            CmpOp::Ge => rel != Rel::Before,
        },
    }
}

/// The truth and the label of a guard. Both sides of a connective are always evaluated.
pub open spec fn guard_out(
    d: Dialect,
    g: Guard,
    env: Bindings,
    obs: Map<Seq<char>, Tags>,
    rs: Seq<Reply>,
    at: Talk,
) -> Evaluated<(bool, Tags)>
    decreases g,
{
    match g {
        Guard::Exists { expr } => {
            let one = eval_out(d, *expr, env, obs, rs, at);
            match one.end {
                Err(h) => Evaluated { talk: one.talk, end: Err(h) },
                Ok(vl) => Evaluated { talk: one.talk, end: Ok((exists_in(vl.0), vl.1)) },
            }
        },
        Guard::Matches { expr, regex } => {
            let one = eval_out(d, *expr, env, obs, rs, at);
            match one.end {
                Err(h) => Evaluated { talk: one.talk, end: Err(h) },
                Ok(vl) => match search(regex@, text_of(vl.0)) {
                    Err(t) => Evaluated { talk: one.talk, end: Err(Halt::BadGuard(t)) },
                    Ok(b) => Evaluated { talk: one.talk, end: Ok((b, vl.1)) },
                },
            }
        },
        Guard::Cmp { lhs, op, rhs } => {
            let one = eval_out(d, *lhs, env, obs, rs, at);
            match one.end {
                Err(h) => Evaluated { talk: one.talk, end: Err(h) },
                Ok(a) => {
                    let two = eval_out(d, *rhs, env, obs, rs, one.talk);
                    match two.end {
                        Err(h) => Evaluated { talk: two.talk, end: Err(h) },
                        Ok(b) => Evaluated {
                            talk: two.talk,
                            end: Ok((holds(op, value_relation(a.0, b.0)), joined(a.1, b.1))),
                        },
                    }
                },
            }
        },
        Guard::And { l, r } => {
            let one = guard_out(d, *l, env, obs, rs, at);
            match one.end {
                Err(h) => one,
                Ok(a) => {
                    let two = guard_out(d, *r, env, obs, rs, one.talk);
                    match two.end {
                        Err(h) => two,
                        Ok(b) => Evaluated {
                            talk: two.talk,
                            end: Ok((a.0 && b.0, joined(a.1, b.1))),
                        },
                    }
                },
            }
        },
        Guard::Or { l, r } => {
            let one = guard_out(d, *l, env, obs, rs, at);
            match one.end {
                Err(h) => one,
                Ok(a) => {
                    let two = guard_out(d, *r, env, obs, rs, one.talk);
                    match two.end {
                        Err(h) => two,
                        Ok(b) => Evaluated {
                            talk: two.talk,
                            end: Ok((a.0 || b.0, joined(a.1, b.1))),
                        },
                    }
                },
            }
        },
        Guard::Not { g } => {
            let one = guard_out(d, *g, env, obs, rs, at);
            match one.end {
                Err(h) => one,
                Ok(a) => Evaluated { talk: one.talk, end: Ok((!a.0, a.1)) },
            }
        },
    }
}

/// What the result of a guard says.
pub open spec fn truth_end(r: Result<(bool, Label), Stop>) -> Result<(bool, Tags), Halt> {
    match r {
        Ok(p) => Ok((p.0, p.1@)),
        Err(s) => Err(s@),
    }
}

/// Decides a comparison.
fn decide(op: &CmpOp, r: Option<Rel>) -> (b: bool)
    ensures
        b == holds(*op, r),
{
    match r {
        None => false,
        Some(rel) => match op {
            CmpOp::Eq => rel == Rel::Same,
            CmpOp::Ne => rel != Rel::Same,
            CmpOp::Lt => rel == Rel::Before,
            CmpOp::Le => rel != Rel::After,
            CmpOp::Gt => rel == Rel::After,
            CmpOp::Ge => rel != Rel::Before,
        },
    }
}

/// Evaluates a guard.
pub fn eval_guard<W, D: Reader<W>>(
    w: &mut W,
    trace: &mut Vec<TraceEntry>,
    g: &Guard,
    env: &StrMap<(Json, Label)>,
    schemas: &VerbSchemas,
) -> (r: Result<(bool, Label), Stop>)
    ensures
        D::log(*old(w)).is_prefix_of(D::log(*final(w))),
        forall|rs: Seq<Reply>| #[trigger]
            hears(rs, D::log(*final(w))) ==> guard_out(
                D::dialect(),
                *g,
                bindings(*env),
                observed(schemas),
                rs,
                talk_of(D::log(*old(w)), old(trace)@),
            ) == (Evaluated {
                talk: talk_of(D::log(*final(w)), final(trace)@),
                end: truth_end(r),
            }),
    decreases g,
{
    match g {
        Guard::Exists { expr } => match eval::<W, D>(w, trace, expr, env, schemas) {
            Err(h) => Err(h),
            Ok((v, l)) => {
                let b: bool = match v.as_array() {
                    Some(items) => items.len() > 0,
                    None => !v.is_null(),
                };
                Ok((b, l))
            },
        },
        Guard::Matches { expr, regex } => match eval::<W, D>(w, trace, expr, env, schemas) {
            Err(h) => Err(h),
            Ok((v, l)) => match matches_text(regex.as_str(), v.as_str()) {
                Err(t) => Err(Stop::BadGuard(t)),
                Ok(b) => Ok((b, l)),
            },
        },
        Guard::Cmp { lhs, op, rhs } => match eval::<W, D>(w, trace, lhs, env, schemas) {
            Err(h) => Err(h),
            Ok((a, la)) => {
                let ghost log1 = D::log(*w);
                let two = eval::<W, D>(w, trace, rhs, env, schemas);
                proof {
                    assert forall|rs: Seq<Reply>| #[trigger] hears(rs, D::log(*w)) implies hears(
                        rs,
                        log1,
                    ) by {
                        hears_prefix(rs, log1, D::log(*w));
                    }
                }
                match two {
                    Err(h) => Err(h),
                    Ok((b, lb)) => Ok((decide(op, relate_values(&a, &b)), la.join(&lb))),
                }
            },
        },
        Guard::And { l, r } => match eval_guard::<W, D>(w, trace, l, env, schemas) {
            Err(h) => Err(h),
            Ok((a, la)) => {
                let ghost log1 = D::log(*w);
                let two = eval_guard::<W, D>(w, trace, r, env, schemas);
                proof {
                    assert forall|rs: Seq<Reply>| #[trigger] hears(rs, D::log(*w)) implies hears(
                        rs,
                        log1,
                    ) by {
                        hears_prefix(rs, log1, D::log(*w));
                    }
                }
                match two {
                    Err(h) => Err(h),
                    Ok((b, lb)) => Ok((a && b, la.join(&lb))),
                }
            },
        },
        Guard::Or { l, r } => match eval_guard::<W, D>(w, trace, l, env, schemas) {
            Err(h) => Err(h),
            Ok((a, la)) => {
                let ghost log1 = D::log(*w);
                let two = eval_guard::<W, D>(w, trace, r, env, schemas);
                proof {
                    assert forall|rs: Seq<Reply>| #[trigger] hears(rs, D::log(*w)) implies hears(
                        rs,
                        log1,
                    ) by {
                        hears_prefix(rs, log1, D::log(*w));
                    }
                }
                match two {
                    Err(h) => Err(h),
                    Ok((b, lb)) => Ok((a || b, la.join(&lb))),
                }
            },
        },
        Guard::Not { g } => match eval_guard::<W, D>(w, trace, g, env, schemas) {
            Err(h) => Err(h),
            Ok((a, l)) => Ok((!a, l)),
        },
    }
}

} // verus!

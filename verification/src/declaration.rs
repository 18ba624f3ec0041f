//! The declarations that a plugin makes in its greeting. They are read before anything is built of
//! them, and a malformed field is refused rather than defaulted.

use crate::error::joined_text;
use crate::json::{elements_of, member, text_of, truth_of, values, Json, Value};
use crate::records::{grade_text, RevertGrade};
use crate::strmap::StrSet;
use crate::text::{same, texts};
use vstd::prelude::*;

verus! {

/// The strings among values, in order.
pub open spec fn strings_in(vs: Seq<Value>) -> Seq<Seq<char>>
    decreases vs.len(),
{
    if vs.len() == 0 {
        Seq::empty()
    } else {
        let init = strings_in(vs.drop_last());
        match text_of(vs.last()) {
            Some(s) => init.push(s),
            None => init,
        }
    }
}

/// The strings of a list; none where there is no list.
pub open spec fn string_list(v: Option<Value>) -> Seq<Seq<char>> {
    match v {
        Some(x) => match elements_of(x) {
            Some(vs) => strings_in(vs),
            None => Seq::empty(),
        },
        None => Seq::empty(),
    }
}

/// What an optional value is.
pub open spec fn value_view(j: Option<&Json>) -> Option<Value> {
    match j {
        Some(x) => Some(x@),
        None => None,
    }
}

/// The strings of a list; none where there is no list.
pub fn str_array(v: Option<&Json>) -> (r: Vec<String>)
    ensures
        texts(r@) == string_list(value_view(v)),
{
    let mut out: Vec<String> = Vec::new();
    assert(texts(out@) =~= Seq::<Seq<char>>::empty());
    let items: &Vec<Json> = match v {
        None => {
            return out;
        },
        Some(x) => match x.as_array() {
            None => {
                return out;
            },
            Some(a) => a,
        },
    };
    let ghost vs = values(items@);
    let mut i: usize = 0;
    assert(vs.take(0) =~= Seq::<Value>::empty());
    while i < items.len()
        invariant
            i <= items@.len(),
            vs == values(items@),
            texts(out@) == strings_in(vs.take(i as int)),
        decreases items.len() - i,
    {
        let ghost before = texts(out@);
        proof {
            assert(vs.take(i + 1).drop_last() =~= vs.take(i as int));
            assert(vs.take(i + 1).last() == items@[i as int]@);
        }
        if let Some(s) = items[i].as_str() {
            out.push(s.clone());
            assert(texts(out@) =~= before.push(s@));
        }
        i = i + 1;
    }
    assert(vs.take(i as int) =~= vs);
    out
}

/// The advertised verbs of the first values, or why they are refused.
pub open spec fn verbs_in(vs: Seq<Value>, n: nat) -> Result<Seq<Seq<char>>, Seq<char>>
    decreases n,
{
    if n == 0 {
        Ok(Seq::empty())
    } else {
        match verbs_in(vs, (n - 1) as nat) {
            Err(e) => Err(e),
            Ok(names) => match text_of(vs[n - 1]) {
                None => Err("verbs must contain nonempty strings"@),
                Some(v) => if v.len() == 0 {
                    Err("verbs must contain nonempty strings"@)
                } else if names.contains(v) {
                    Err("duplicate advertised verb"@)
                } else {
                    Ok(names.push(v))
                },
            },
        }
    }
}

/// The name and verbs that a greeting declares, or why they are refused.
pub open spec fn identity_in(hello: Value) -> Result<(Seq<char>, Seq<Seq<char>>), Seq<char>> {
    let name = match member(hello, "name"@) {
        Some(x) => text_of(x),
        None => None,
    };
    let verbs = match member(hello, "verbs"@) {
        Some(x) => elements_of(x),
        None => None,
    };
    match name {
        None => Err("name must be a nonempty string"@),
        Some(n) => if n.len() == 0 {
            Err("name must be a nonempty string"@)
        } else {
            match verbs {
                None => Err("verbs must be an array"@),
                Some(vs) => match verbs_in(vs, vs.len()) {
                    Err(e) => Err(e),
                    Ok(names) => Ok((n, names)),
                },
            }
        },
    }
}

proof fn verbs_fail_on(vs: Seq<Value>, n: nat, m: nat)
    requires
        n <= m,
        verbs_in(vs, n) is Err,
    ensures
        verbs_in(vs, m) == verbs_in(vs, n),
    decreases m - n,
{
    if n < m {
        verbs_fail_on(vs, n, (m - 1) as nat);
    }
}

fn has_text(v: &Vec<String>, s: &str) -> (b: bool)
    ensures
        b == texts(v@).contains(s@),
{
    let ghost all = texts(v@);
    let mut i: usize = 0;
    while i < v.len()
        invariant
            i <= v@.len(),
            all == texts(v@),
            forall|k: int| 0 <= k < i ==> all[k] != s@,
        decreases v.len() - i,
    {
        assert(all[i as int] == v@[i as int]@);
        if same(v[i].as_str(), s) {
            return true;
        }
        i = i + 1;
    }
    false
}

/// The name and verbs that a greeting declares.
pub fn declaration_identity(hello: &Json) -> (r: Result<(String, Vec<String>), String>)
    ensures
        match r {
            Ok((name, verbs)) => identity_in(hello@) == Ok::<
                (Seq<char>, Seq<Seq<char>>),
                Seq<char>,
            >((name@, texts(verbs@))),
            Err(e) => identity_in(hello@) == Err::<(Seq<char>, Seq<Seq<char>>), Seq<char>>(e@),
        },
{
    let name: &String = match hello.get("name") {
        None => {
            return Err("name must be a nonempty string".to_owned());
        },
        Some(x) => match x.as_str() {
            None => {
                return Err("name must be a nonempty string".to_owned());
            },
            Some(s) => s,
        },
    };
    if name.as_str().unicode_len() == 0 {
        return Err("name must be a nonempty string".to_owned());
    }
    let items: &Vec<Json> = match hello.get("verbs") {
        None => {
            return Err("verbs must be an array".to_owned());
        },
        Some(x) => match x.as_array() {
            None => {
                return Err("verbs must be an array".to_owned());
            },
            Some(a) => a,
        },
    };
    let ghost vs = values(items@);
    let mut verbs: Vec<String> = Vec::new();
    let mut i: usize = 0;
    assert(texts(verbs@) =~= Seq::<Seq<char>>::empty());
    while i < items.len()
        invariant
            i <= items@.len(),
            vs == values(items@),
            name@.len() > 0,
            identity_in(hello@) == match verbs_in(vs, vs.len()) {
                Err(e) => Err::<(Seq<char>, Seq<Seq<char>>), Seq<char>>(e),
                Ok(names) => Ok((name@, names)),
            },
            verbs_in(vs, i as nat) == Ok::<Seq<Seq<char>>, Seq<char>>(texts(verbs@)),
        decreases items.len() - i,
    {
        let ghost before = texts(verbs@);
        assert(vs[i as int] == items@[i as int]@);
        match items[i].as_str() {
            None => {
                proof {
                    verbs_fail_on(vs, (i + 1) as nat, vs.len());
                }
                return Err("verbs must contain nonempty strings".to_owned());
            },
            Some(v) => {
                if v.as_str().unicode_len() == 0 {
                    proof {
                        verbs_fail_on(vs, (i + 1) as nat, vs.len());
                    }
                    return Err("verbs must contain nonempty strings".to_owned());
                }
                if has_text(&verbs, v.as_str()) {
                    proof {
                        verbs_fail_on(vs, (i + 1) as nat, vs.len());
                    }
                    return Err("duplicate advertised verb".to_owned());
                }
                verbs.push(v.clone());
                assert(texts(verbs@) =~= before.push(v@));
            },
        }
        i = i + 1;
    }
    Ok((name.clone(), verbs))
}

/// A declared plugin advertises no verb twice, and none without a name.
pub proof fn advertised_verbs_are_distinct(vs: Seq<Value>, n: nat)
    ensures
        verbs_in(vs, n) matches Ok(names) ==> names.no_duplicates() && forall|i: int|
            0 <= i < names.len() ==> (#[trigger] names[i]).len() > 0,
    decreases n,
{
    if n > 0 {
        advertised_verbs_are_distinct(vs, (n - 1) as nat);
    }
}

/// A text that may be missing.
pub open spec fn maybe_text(v: Value, key: Seq<char>) -> Result<Option<Seq<char>>, Seq<char>> {
    match member(v, key) {
        None => Ok(None),
        Some(x) => match text_of(x) {
            Some(s) => Ok(Some(s)),
            None => Err(key + " must be a string"@),
        },
    }
}

/// A truth value that may be missing.
pub open spec fn maybe_truth(v: Value, key: Seq<char>) -> Result<Option<bool>, Seq<char>> {
    match member(v, key) {
        None => Ok(None),
        Some(x) => match truth_of(x) {
            Some(b) => Ok(Some(b)),
            None => Err(key + " must be a boolean"@),
        },
    }
}

/// What an optional string says.
pub open spec fn opt_text(s: Option<&String>) -> Option<Seq<char>> {
    match s {
        Some(t) => Some(t@),
        None => None,
    }
}

/// A text that may be missing.
pub fn optional_str<'a>(v: &'a Json, key: &str) -> (r: Result<Option<&'a String>, String>)
    ensures
        match r {
            Ok(s) => maybe_text(v@, key@) == Ok::<Option<Seq<char>>, Seq<char>>(opt_text(s)),
            Err(e) => maybe_text(v@, key@) == Err::<Option<Seq<char>>, Seq<char>>(e@),
        },
{
    match v.get(key) {
        None => Ok(None),
        Some(x) => match x.as_str() {
            Some(s) => Ok(Some(s)),
            None => Err(joined_text(key, " must be a string")),
        },
    }
}

/// A truth value that may be missing.
pub fn optional_bool(v: &Json, key: &str) -> (r: Result<Option<bool>, String>)
    ensures
        match r {
            Ok(b) => maybe_truth(v@, key@) == Ok::<Option<bool>, Seq<char>>(b),
            Err(e) => maybe_truth(v@, key@) == Err::<Option<bool>, Seq<char>>(e@),
        },
{
    match v.get(key) {
        None => Ok(None),
        Some(x) => match x.as_bool() {
            Some(b) => Ok(Some(b)),
            None => Err(joined_text(key, " must be a boolean")),
        },
    }
}

/// What a consuming verb does to the world.
#[derive(Debug, PartialEq, Eq)]
pub enum ConsumeGrade {
    Held,
    Compensable { compensate_with: String },
    External,
}

/// What an emitting verb does to the world.
#[derive(Debug, PartialEq, Eq)]
pub enum EmitGrade {
    External,
    Compensable { compensate_with: String },
}

/// The kind of a verb.
#[derive(Debug, PartialEq, Eq)]
pub enum Kind {
    Repeatable { shared: bool },
    Transforming,
    Consuming(ConsumeGrade),
    Emitting { world: EmitGrade, amortizable: bool },
}

/// What a plugin declares of a verb: its kind, and what departs from the defaults of the kind.
#[derive(Debug, PartialEq, Eq)]
pub struct VerbEntry {
    pub kind: Kind,
    pub idempotent: Option<bool>,
    pub commutes: Option<bool>,
    pub degrade: Option<String>,
}

/// What a consuming verb does to the world.
#[verifier::ext_equal]
pub enum Consume {
    Held,
    Compensable(Seq<char>),
    External,
}

/// What an emitting verb does to the world.
#[verifier::ext_equal]
pub enum Emit {
    External,
    Compensable(Seq<char>),
}

/// The kind of a verb.
#[verifier::ext_equal]
pub enum KindView {
    Repeatable { shared: bool },
    Transforming,
    Consuming(Consume),
    Emitting { world: Emit, amortizable: bool },
}

/// What a plugin declares of a verb.
#[verifier::ext_equal]
pub struct Entry {
    pub kind: KindView,
    pub idempotent: Option<bool>,
    pub commutes: Option<bool>,
    pub degrade: Option<Seq<char>>,
}

impl View for ConsumeGrade {
    type V = Consume;

    open spec fn view(&self) -> Consume {
        match self {
            ConsumeGrade::Held => Consume::Held,
            ConsumeGrade::Compensable { compensate_with } => Consume::Compensable(compensate_with@),
            ConsumeGrade::External => Consume::External,
        }
    }
}

impl View for EmitGrade {
    type V = Emit;

    open spec fn view(&self) -> Emit {
        match self {
            EmitGrade::External => Emit::External,
            EmitGrade::Compensable { compensate_with } => Emit::Compensable(compensate_with@),
        }
    }
}

impl View for Kind {
    type V = KindView;

    open spec fn view(&self) -> KindView {
        match self {
            Kind::Repeatable { shared } => KindView::Repeatable { shared: *shared },
            Kind::Transforming => KindView::Transforming,
            Kind::Consuming(g) => KindView::Consuming(g@),
            Kind::Emitting { world, amortizable } => KindView::Emitting {
                world: world@,
                amortizable: *amortizable,
            },
        }
    }
}

impl View for VerbEntry {
    type V = Entry;

    open spec fn view(&self) -> Entry {
        Entry {
            kind: self.kind@,
            idempotent: self.idempotent,
            commutes: self.commutes,
            degrade: match self.degrade {
                Some(s) => Some(s@),
                None => None,
            },
        }
    }
}

/// Whether metadata hold a field that only a kind gives meaning to.
pub open spec fn has_character(v: Value) -> bool {
    member(v, "world"@) is Some || member(v, "compensate_with"@) is Some || member(
        v,
        "amortizable"@,
    ) is Some || member(v, "idempotent"@) is Some || member(v, "commutes"@) is Some || member(
        v,
        "degrade"@,
    ) is Some
}

/// The kind that is named, with its effect on the world, or why it is refused.
pub open spec fn kind_named(
    kind: Seq<char>,
    world: Option<Seq<char>>,
    compensate: Option<Seq<char>>,
    amortizable: bool,
) -> Result<KindView, Seq<char>> {
    if kind == "repeatable"@ {
        Ok(KindView::Repeatable { shared: false })
    } else if kind == "repeatable_shared"@ {
        Ok(KindView::Repeatable { shared: true })
    } else if kind == "transforming"@ {
        Ok(KindView::Transforming)
    } else if kind == "consuming"@ {
        if world is None || world == Some("held"@) {
            Ok(KindView::Consuming(Consume::Held))
        } else if world == Some("compensable"@) {
            match compensate {
                Some(c) => Ok(KindView::Consuming(Consume::Compensable(c))),
                None => Err("consuming/compensable needs compensate_with"@),
            }
        } else if world == Some("external"@) {
            Ok(KindView::Consuming(Consume::External))
        } else {
            Err("unknown consuming world "@ + world->0)
        }
    } else if kind == "emitting"@ {
        if world is None || world == Some("external"@) {
            Ok(KindView::Emitting { world: Emit::External, amortizable })
        } else if world == Some("compensable"@) {
            match compensate {
                Some(c) => Ok(KindView::Emitting { world: Emit::Compensable(c), amortizable }),
                None => Err("emitting/compensable needs compensate_with"@),
            }
        } else {
            Err("unknown emitting world "@ + world->0)
        }
    } else {
        Err("unknown verb kind "@ + kind)
    }
}

/// What metadata declare of a verb; nothing where they declare no kind.
pub open spec fn entry_in(meta: Value) -> Result<Option<Entry>, Seq<char>> {
    if !(meta is Null) && !(meta is Object) {
        Err("verb metadata must be an object"@)
    } else {
        match maybe_text(meta, "kind"@) {
            Err(e) => Err(e),
            Ok(None) => if has_character(meta) {
                Err("verb character fields require kind"@)
            } else {
                Ok(None)
            },
            Ok(Some(kind)) => match maybe_text(meta, "compensate_with"@) {
                Err(e) => Err(e),
                Ok(compensate) => match maybe_text(meta, "world"@) {
                    Err(e) => Err(e),
                    Ok(world) => match maybe_truth(meta, "amortizable"@) {
                        Err(e) => Err(e),
                        Ok(amortizable) => match kind_named(
                            kind,
                            world,
                            compensate,
                            amortizable != Some(false),
                        ) {
                            Err(e) => Err(e),
                            Ok(k) => match maybe_truth(meta, "idempotent"@) {
                                Err(e) => Err(e),
                                Ok(idempotent) => match maybe_truth(meta, "commutes"@) {
                                    Err(e) => Err(e),
                                    Ok(commutes) => match maybe_text(meta, "degrade"@) {
                                        Err(e) => Err(e),
                                        Ok(degrade) => Ok(
                                            Some(
                                                Entry { kind: k, idempotent, commutes, degrade },
                                            ),
                                        ),
                                    },
                                },
                            },
                        },
                    },
                },
            },
        }
    }
}

fn read_kind(
    kind: &str,
    world: Option<&String>,
    compensate: Option<&String>,
    amortizable: bool,
) -> (r: Result<Kind, String>)
    ensures
        match r {
            Ok(k) => kind_named(kind@, opt_text(world), opt_text(compensate), amortizable) == Ok::<
                KindView,
                Seq<char>,
            >(k@),
            Err(e) => kind_named(kind@, opt_text(world), opt_text(compensate), amortizable) == Err::<
                KindView,
                Seq<char>,
            >(e@),
        },
{
    if same(kind, "repeatable") {
        return Ok(Kind::Repeatable { shared: false });
    }
    if same(kind, "repeatable_shared") {
        return Ok(Kind::Repeatable { shared: true });
    }
    if same(kind, "transforming") {
        return Ok(Kind::Transforming);
    }
    if same(kind, "consuming") {
        let w: &String = match world {
            None => {
                return Ok(Kind::Consuming(ConsumeGrade::Held));
            },
            Some(w) => w,
        };
        if same(w.as_str(), "held") {
            return Ok(Kind::Consuming(ConsumeGrade::Held));
        }
        if same(w.as_str(), "compensable") {
            return match compensate {
                Some(c) => Ok(
                    Kind::Consuming(ConsumeGrade::Compensable { compensate_with: c.clone() }),
                ),
                None => Err("consuming/compensable needs compensate_with".to_owned()),
            };
        }
        if same(w.as_str(), "external") {
            return Ok(Kind::Consuming(ConsumeGrade::External));
        }
        return Err(joined_text("unknown consuming world ", w.as_str()));
    }
    if same(kind, "emitting") {
        let w: &String = match world {
            None => {
                return Ok(Kind::Emitting { world: EmitGrade::External, amortizable });
            },
            Some(w) => w,
        };
        if same(w.as_str(), "external") {
            return Ok(Kind::Emitting { world: EmitGrade::External, amortizable });
        }
        if same(w.as_str(), "compensable") {
            return match compensate {
                Some(c) => Ok(
                    Kind::Emitting {
                        world: EmitGrade::Compensable { compensate_with: c.clone() },
                        amortizable,
                    },
                ),
                None => Err("emitting/compensable needs compensate_with".to_owned()),
            };
        }
        return Err(joined_text("unknown emitting world ", w.as_str()));
    }
    Err(joined_text("unknown verb kind ", kind))
}

/// What an optional entry declares.
pub open spec fn entry_view(e: Option<VerbEntry>) -> Option<Entry> {
    match e {
        Some(x) => Some(x@),
        None => None,
    }
}

/// What metadata declare of a verb; nothing where they declare no kind.
pub fn kind_from_meta(meta: &Json) -> (r: Result<Option<VerbEntry>, String>)
    ensures
        match r {
            Ok(e) => entry_in(meta@) == Ok::<Option<Entry>, Seq<char>>(entry_view(e)),
            Err(e) => entry_in(meta@) == Err::<Option<Entry>, Seq<char>>(e@),
        },
{
    if !meta.is_null() && !meta.is_object() {
        return Err("verb metadata must be an object".to_owned());
    }
    let kind: &String = match optional_str(meta, "kind") {
        Err(e) => {
            return Err(e);
        },
        Ok(None) => {
            if meta.get("world").is_some() || meta.get("compensate_with").is_some() || meta.get(
                "amortizable",
            ).is_some() || meta.get("idempotent").is_some() || meta.get("commutes").is_some()
                || meta.get("degrade").is_some() {
                return Err("verb character fields require kind".to_owned());
            }
            return Ok(None);
        },
        Ok(Some(k)) => k,
    };
    let compensate: Option<&String> = match optional_str(meta, "compensate_with") {
        Err(e) => {
            return Err(e);
        },
        Ok(c) => c,
    };
    let world: Option<&String> = match optional_str(meta, "world") {
        Err(e) => {
            return Err(e);
        },
        Ok(w) => w,
    };
    let amortizable: bool = match optional_bool(meta, "amortizable") {
        Err(e) => {
            return Err(e);
        },
        Ok(None) => true,
        Ok(Some(b)) => b,
    };
    let k: Kind = match read_kind(kind.as_str(), world, compensate, amortizable) {
        Err(e) => {
            return Err(e);
        },
        Ok(k) => k,
    };
    let idempotent: Option<bool> = match optional_bool(meta, "idempotent") {
        Err(e) => {
            return Err(e);
        },
        Ok(b) => b,
    };
    let commutes: Option<bool> = match optional_bool(meta, "commutes") {
        Err(e) => {
            return Err(e);
        },
        Ok(b) => b,
    };
    let degrade: Option<String> = match optional_str(meta, "degrade") {
        Err(e) => {
            return Err(e);
        },
        Ok(None) => None,
        Ok(Some(d)) => Some(d.clone()),
    };
    Ok(Some(VerbEntry { kind: k, idempotent, commutes, degrade }))
}

/// The label of a kind.
pub open spec fn kind_label_of(k: KindView) -> Seq<char> {
    match k {
        KindView::Repeatable { .. } => "repeatable"@,
        KindView::Transforming => "transforming"@,
        KindView::Consuming(_) => "consuming"@,
        KindView::Emitting { .. } => "emitting"@,
    }
}

/// The label of a kind.
pub fn kind_label(k: &Kind) -> (s: &'static str)
    ensures
        s@ == kind_label_of(k@),
{
    match k {
        Kind::Repeatable { .. } => "repeatable",
        Kind::Transforming => "transforming",
        Kind::Consuming(_) => "consuming",
        Kind::Emitting { .. } => "emitting",
    }
}

/// Whether effects of a kind are withheld until they are approved: they go outside, and no budget
/// that was agreed to beforehand covers them.
pub open spec fn withheld_kind(k: KindView) -> bool {
    k matches KindView::Emitting { amortizable, .. } && !amortizable
}

/// Whether effects of a kind are withheld until they are approved.
pub fn withhold(k: &Kind) -> (b: bool)
    ensures
        b == withheld_kind(k@),
{
    match k {
        Kind::Emitting { amortizable, .. } => !*amortizable,
        _ => false,
    }
}

/// The order in which the verbs of a plugin may be called.
#[derive(Debug, PartialEq, Eq)]
pub struct ProtocolDraft {
    pub initial: String,
    /// From a state, by a verb, to a state.
    pub transitions: Vec<(String, String, String)>,
}

/// The order in which the verbs of a plugin may be called.
#[verifier::ext_equal]
pub struct Draft {
    pub initial: Seq<char>,
    pub transitions: Seq<(Seq<char>, Seq<char>, Seq<char>)>,
}

/// What transitions say.
pub open spec fn steps_view(v: Seq<(String, String, String)>) -> Seq<
    (Seq<char>, Seq<char>, Seq<char>),
> {
    Seq::new(v.len(), |i: int| (v[i].0@, v[i].1@, v[i].2@))
}

impl View for ProtocolDraft {
    type V = Draft;

    open spec fn view(&self) -> Draft {
        Draft { initial: self.initial@, transitions: steps_view(self.transitions@) }
    }
}

/// A transition, or why it is refused.
pub open spec fn transition_in(v: Value) -> Result<(Seq<char>, Seq<char>, Seq<char>), Seq<char>> {
    match elements_of(v) {
        None => Err("protocol transition must have exactly three names"@),
        Some(a) => if a.len() != 3 {
            Err("protocol transition must have exactly three names"@)
        } else {
            match (text_of(a[0]), text_of(a[1]), text_of(a[2])) {
                (Some(from), Some(verb), Some(to)) => Ok((from, verb, to)),
                _ => Err("protocol transition must be [from, verb, to]"@),
            }
        },
    }
}

/// The first transitions, or why one is refused.
pub open spec fn transitions_in(vs: Seq<Value>, n: nat) -> Result<
    Seq<(Seq<char>, Seq<char>, Seq<char>)>,
    Seq<char>,
>
    decreases n,
{
    if n == 0 {
        Ok(Seq::empty())
    } else {
        match transitions_in(vs, (n - 1) as nat) {
            Err(e) => Err(e),
            Ok(steps) => match transition_in(vs[n - 1]) {
                Err(e) => Err(e),
                Ok(t) => Ok(steps.push(t)),
            },
        }
    }
}

proof fn transitions_fail_on(vs: Seq<Value>, n: nat, m: nat)
    requires
        n <= m,
        transitions_in(vs, n) is Err,
    ensures
        transitions_in(vs, m) == transitions_in(vs, n),
    decreases m - n,
{
    if n < m {
        transitions_fail_on(vs, n, (m - 1) as nat);
    }
}

/// Whether a verb leads from each state to at most one.
pub open spec fn deterministic(steps: Seq<(Seq<char>, Seq<char>, Seq<char>)>) -> bool {
    forall|i: int, j: int|
        0 <= i < steps.len() && 0 <= j < steps.len() && (#[trigger] steps[i]).0 == (
        #[trigger] steps[j]).0 && steps[i].1 == steps[j].1 ==> steps[i].2 == steps[j].2
}

/// The protocol that is declared; nothing where there is none.
pub open spec fn protocol_in(v: Option<Value>) -> Result<Option<Draft>, Seq<char>> {
    match v {
        None => Ok(None),
        Some(p) => if p is Null {
            Ok(None)
        } else {
            let initial = match member(p, "initial"@) {
                Some(x) => text_of(x),
                None => None,
            };
            let list = match member(p, "transitions"@) {
                Some(x) => elements_of(x),
                None => None,
            };
            match initial {
                None => Err("protocol needs an initial state"@),
                Some(i) => match list {
                    None => Err("protocol transitions must be an array"@),
                    Some(vs) => match transitions_in(vs, vs.len()) {
                        Err(e) => Err(e),
                        Ok(steps) => if deterministic(steps) {
                            Ok(Some(Draft { initial: i, transitions: steps }))
                        } else {
                            Err("protocol: a verb leads from one state to two"@)
                        },
                    },
                },
            }
        },
    }
}

fn read_transition(j: &Json) -> (r: Result<(String, String, String), String>)
    ensures
        match r {
            Ok(t) => transition_in(j@) == Ok::<(Seq<char>, Seq<char>, Seq<char>), Seq<char>>(
                (t.0@, t.1@, t.2@),
            ),
            Err(e) => transition_in(j@) == Err::<(Seq<char>, Seq<char>, Seq<char>), Seq<char>>(e@),
        },
{
    match j.as_array() {
        None => Err("protocol transition must have exactly three names".to_owned()),
        Some(a) => if a.len() != 3 {
            Err("protocol transition must have exactly three names".to_owned())
        } else {
            match (a[0].as_str(), a[1].as_str(), a[2].as_str()) {
                (Some(from), Some(verb), Some(to)) => Ok((from.clone(), verb.clone(), to.clone())),
                _ => Err("protocol transition must be [from, verb, to]".to_owned()),
            }
        },
    }
}

fn is_deterministic(steps: &Vec<(String, String, String)>) -> (b: bool)
    ensures
        b == deterministic(steps_view(steps@)),
{
    let ghost all = steps_view(steps@);
    let mut i: usize = 0;
    while i < steps.len()
        invariant
            i <= steps@.len(),
            all == steps_view(steps@),
            forall|k: int, l: int|
                0 <= k < i && 0 <= l < all.len() && (#[trigger] all[k]).0 == (#[trigger] all[l]).0
                    && all[k].1 == all[l].1 ==> all[k].2 == all[l].2,
        decreases steps.len() - i,
    {
        assert(all[i as int] == (steps@[i as int].0@, steps@[i as int].1@, steps@[i as int].2@));
        let mut j: usize = 0;
        while j < steps.len()
            invariant
                i < steps@.len(),
                j <= steps@.len(),
                all == steps_view(steps@),
                all[i as int] == (steps@[i as int].0@, steps@[i as int].1@, steps@[i as int].2@),
                forall|l: int|
                    0 <= l < j && all[i as int].0 == (#[trigger] all[l]).0 && all[i as int].1
                        == all[l].1 ==> all[i as int].2 == all[l].2,
            decreases steps.len() - j,
        {
            assert(all[j as int] == (
                steps@[j as int].0@,
                steps@[j as int].1@,
                steps@[j as int].2@,
            ));
            if same(steps[i].0.as_str(), steps[j].0.as_str()) && same(
                steps[i].1.as_str(),
                steps[j].1.as_str(),
            ) && !same(steps[i].2.as_str(), steps[j].2.as_str()) {
                return false;
            }
            j = j + 1;
        }
        i = i + 1;
    }
    true
}

/// What an optional protocol says.
pub open spec fn draft_view(p: Option<ProtocolDraft>) -> Option<Draft> {
    match p {
        Some(x) => Some(x@),
        None => None,
    }
}

/// The protocol that is declared; nothing where there is none.
pub fn protocol_from_json(v: Option<&Json>) -> (r: Result<Option<ProtocolDraft>, String>)
    ensures
        match r {
            Ok(p) => protocol_in(value_view(v)) == Ok::<Option<Draft>, Seq<char>>(draft_view(p)),
            Err(e) => protocol_in(value_view(v)) == Err::<Option<Draft>, Seq<char>>(e@),
        },
{
    let p: &Json = match v {
        None => {
            return Ok(None);
        },
        Some(p) => p,
    };
    if p.is_null() {
        return Ok(None);
    }
    let initial: &String = match p.get("initial") {
        None => {
            return Err("protocol needs an initial state".to_owned());
        },
        Some(x) => match x.as_str() {
            None => {
                return Err("protocol needs an initial state".to_owned());
            },
            Some(s) => s,
        },
    };
    let items: &Vec<Json> = match p.get("transitions") {
        None => {
            return Err("protocol transitions must be an array".to_owned());
        },
        Some(x) => match x.as_array() {
            None => {
                return Err("protocol transitions must be an array".to_owned());
            },
            Some(a) => a,
        },
    };
    let ghost vs = values(items@);
    let mut steps: Vec<(String, String, String)> = Vec::new();
    let mut i: usize = 0;
    assert(steps_view(steps@) =~= Seq::<(Seq<char>, Seq<char>, Seq<char>)>::empty());
    while i < items.len()
        invariant
            i <= items@.len(),
            vs == values(items@),
            transitions_in(vs, i as nat) == Ok::<
                Seq<(Seq<char>, Seq<char>, Seq<char>)>,
                Seq<char>,
            >(steps_view(steps@)),
            transitions_in(vs, vs.len()) is Err ==> protocol_in(value_view(v)) == Err::<
                Option<Draft>,
                Seq<char>,
            >(transitions_in(vs, vs.len())->Err_0),
        decreases items.len() - i,
    {
        let ghost before = steps_view(steps@);
        assert(vs[i as int] == items@[i as int]@);
        match read_transition(&items[i]) {
            Err(e) => {
                proof {
                    transitions_fail_on(vs, (i + 1) as nat, vs.len());
                }
                return Err(e);
            },
            Ok(t) => {
                let ghost tv = (t.0@, t.1@, t.2@);
                steps.push(t);
                assert(steps_view(steps@) =~= before.push(tv));
            },
        }
        i = i + 1;
    }
    if !is_deterministic(&steps) {
        return Err("protocol: a verb leads from one state to two".to_owned());
    }
    Ok(Some(ProtocolDraft { initial: initial.clone(), transitions: steps }))
}

/// What a plugin declares of itself as a class.
#[derive(Debug, PartialEq, Eq)]
pub struct ClassDraft {
    pub name: String,
    pub holding_grade: Option<RevertGrade>,
    /// The verbs that declare a kind, in order.
    pub verbs: Vec<(String, VerbEntry)>,
    pub protocol: Option<ProtocolDraft>,
}

/// What entries declare.
pub open spec fn entries_view(v: Seq<(String, VerbEntry)>) -> Seq<(Seq<char>, Entry)> {
    Seq::new(v.len(), |i: int| (v[i].0@, v[i].1@))
}

/// The metadata of a verb; null where there are none.
pub open spec fn meta_of(tools: Value, verb: Seq<char>) -> Value {
    match member(tools, verb) {
        Some(m) => m,
        None => Value::Null,
    }
}

/// What the first verbs declare, or why one is refused. A verb that declares no kind is left out.
pub open spec fn entries_in(tools: Value, verbs: Seq<Seq<char>>, n: nat) -> Result<
    Seq<(Seq<char>, Entry)>,
    Seq<char>,
>
    decreases n,
{
    if n == 0 {
        Ok(Seq::empty())
    } else {
        match entries_in(tools, verbs, (n - 1) as nat) {
            Err(e) => Err(e),
            Ok(es) => match entry_in(meta_of(tools, verbs[n - 1])) {
                Err(e) => Err(e),
                Ok(None) => Ok(es),
                Ok(Some(e)) => Ok(es.push((verbs[n - 1], e))),
            },
        }
    }
}

proof fn entries_fail_on(tools: Value, verbs: Seq<Seq<char>>, n: nat, m: nat)
    requires
        n <= m,
        entries_in(tools, verbs, n) is Err,
    ensures
        entries_in(tools, verbs, m) == entries_in(tools, verbs, n),
    decreases m - n,
{
    if n < m {
        entries_fail_on(tools, verbs, n, (m - 1) as nat);
    }
}

/// Whether a verb is among those that declare a kind.
pub open spec fn is_declared(es: Seq<(Seq<char>, Entry)>, verb: Seq<char>) -> bool {
    exists|i: int| 0 <= i < es.len() && (#[trigger] es[i]).0 == verb
}

/// Whether every verb that another degrades to is declared.
pub open spec fn relations_hold(es: Seq<(Seq<char>, Entry)>) -> bool {
    forall|i: int|
        0 <= i < es.len() ==> ((#[trigger] es[i]).1.degrade matches Some(d) ==> is_declared(es, d))
}

/// What a plugin declares of itself as a class.
#[verifier::ext_equal]
pub struct ClassView {
    pub name: Seq<char>,
    pub holding_grade: Option<RevertGrade>,
    pub verbs: Seq<(Seq<char>, Entry)>,
    pub protocol: Option<Draft>,
}

impl View for ClassDraft {
    type V = ClassView;

    open spec fn view(&self) -> ClassView {
        ClassView {
            name: self.name@,
            holding_grade: self.holding_grade,
            verbs: entries_view(self.verbs@),
            protocol: draft_view(self.protocol),
        }
    }
}

/// The grade of the holdings of a plugin, or why it is refused.
pub open spec fn rho_in(hello: Value) -> Result<Option<RevertGrade>, Seq<char>> {
    match maybe_text(hello, "holding_rho"@) {
        Err(e) => Err(e),
        Ok(None) => Ok(None),
        Ok(Some(s)) => if s == grade_text(RevertGrade::Inverse) {
            Ok(Some(RevertGrade::Inverse))
        } else if s == grade_text(RevertGrade::Compensable) {
            Ok(Some(RevertGrade::Compensable))
        } else if s == grade_text(RevertGrade::External) {
            Ok(Some(RevertGrade::External))
        } else {
            Err("unknown holding_rho: "@ + s)
        },
    }
}

/// What a plugin declares of itself as a class, or why it is refused.
pub open spec fn class_in(
    name: Seq<char>,
    verbs: Seq<Seq<char>>,
    tools: Value,
    hello: Value,
) -> Result<ClassView, Seq<char>> {
    if !(tools is Null) && !(tools is Object) {
        Err("tools must be an object"@)
    } else {
        match rho_in(hello) {
            Err(e) => Err(e),
            Ok(holding_grade) => match entries_in(tools, verbs, verbs.len()) {
                Err(e) => Err(e),
                Ok(es) => match protocol_in(member(hello, "protocol"@)) {
                    Err(e) => Err(e),
                    Ok(protocol) => if relations_hold(es) {
                        Ok(ClassView { name, holding_grade, verbs: es, protocol })
                    } else {
                        Err("a verb degrades to one that is not declared"@)
                    },
                },
            },
        }
    }
}

fn declares(es: &Vec<(String, VerbEntry)>, verb: &str) -> (b: bool)
    ensures
        b == is_declared(entries_view(es@), verb@),
{
    let ghost all = entries_view(es@);
    let mut i: usize = 0;
    while i < es.len()
        invariant
            i <= es@.len(),
            all == entries_view(es@),
            forall|k: int| 0 <= k < i ==> (#[trigger] all[k]).0 != verb@,
        decreases es.len() - i,
    {
        assert(all[i as int].0 == es@[i as int].0@);
        if same(es[i].0.as_str(), verb) {
            return true;
        }
        i = i + 1;
    }
    false
}

fn relations(es: &Vec<(String, VerbEntry)>) -> (b: bool)
    ensures
        b == relations_hold(entries_view(es@)),
{
    let ghost all = entries_view(es@);
    let mut i: usize = 0;
    while i < es.len()
        invariant
            i <= es@.len(),
            all == entries_view(es@),
            forall|k: int|
                0 <= k < i ==> ((#[trigger] all[k]).1.degrade matches Some(d) ==> is_declared(
                    all,
                    d,
                )),
        decreases es.len() - i,
    {
        assert(all[i as int] == (es@[i as int].0@, es@[i as int].1@));
        if let Some(d) = &es[i].1.degrade {
            if !declares(es, d.as_str()) {
                return false;
            }
        }
        i = i + 1;
    }
    true
}

/// Checks the class that a plugin declares, over the verbs that it advertises. A verb that declares
/// no kind is left out of the class.
pub fn check_class_declaration(
    name: &str,
    verbs: &Vec<String>,
    tools_meta: &Json,
    hello: &Json,
) -> (r: Result<ClassDraft, String>)
    ensures
        match r {
            Ok(c) => class_in(name@, texts(verbs@), tools_meta@, hello@) == Ok::<
                ClassView,
                Seq<char>,
            >(c@),
            Err(e) => class_in(name@, texts(verbs@), tools_meta@, hello@) == Err::<
                ClassView,
                Seq<char>,
            >(e@),
        },
{
    if !tools_meta.is_null() && !tools_meta.is_object() {
        return Err("tools must be an object".to_owned());
    }
    let holding_grade: Option<RevertGrade> = match optional_str(hello, "holding_rho") {
        Err(e) => {
            return Err(e);
        },
        Ok(None) => None,
        Ok(Some(s)) => if same(s.as_str(), "inverse") {
            Some(RevertGrade::Inverse)
        } else if same(s.as_str(), "compensable") {
            Some(RevertGrade::Compensable)
        } else if same(s.as_str(), "external") {
            Some(RevertGrade::External)
        } else {
            return Err(joined_text("unknown holding_rho: ", s.as_str()));
        },
    };
    assert(rho_in(hello@) == Ok::<Option<RevertGrade>, Seq<char>>(holding_grade));
    let ghost vs = texts(verbs@);
    let ghost tools = tools_meta@;
    let mut es: Vec<(String, VerbEntry)> = Vec::new();
    let absent: Json = Json::Null;
    let mut i: usize = 0;
    assert(entries_view(es@) =~= Seq::<(Seq<char>, Entry)>::empty());
    while i < verbs.len()
        invariant
            i <= verbs@.len(),
            vs == texts(verbs@),
            tools == tools_meta@,
            tools is Null || tools is Object,
            absent == Json::Null,
            rho_in(hello@) is Ok,
            entries_in(tools, vs, i as nat) == Ok::<Seq<(Seq<char>, Entry)>, Seq<char>>(
                entries_view(es@),
            ),
        decreases verbs.len() - i,
    {
        let ghost before = entries_view(es@);
        assert(vs[i as int] == verbs@[i as int]@);
        let meta: &Json = match tools_meta.get(verbs[i].as_str()) {
            Some(m) => m,
            None => &absent,
        };
        assert(meta@ == meta_of(tools, vs[i as int]));
        match kind_from_meta(meta) {
            Err(e) => {
                proof {
                    entries_fail_on(tools, vs, (i + 1) as nat, vs.len());
                }
                return Err(e);
            },
            Ok(None) => {},
            Ok(Some(entry)) => {
                let ghost ev = entry@;
                es.push((verbs[i].clone(), entry));
                assert(entries_view(es@) =~= before.push((vs[i as int], ev)));
            },
        }
        i = i + 1;
    }
    let protocol: Option<ProtocolDraft> = match protocol_from_json(hello.get("protocol")) {
        Err(e) => {
            return Err(e);
        },
        Ok(p) => p,
    };
    if !relations(&es) {
        return Err("a verb degrades to one that is not declared".to_owned());
    }
    Ok(ClassDraft { name: name.to_owned(), holding_grade, verbs: es, protocol })
}

/// What a verb requires: the capabilities that it invokes and the services that it depends on.
pub struct Requires {
    pub verb: String,
    pub caps: StrSet,
    pub deps: StrSet,
}

/// What a verb requires.
#[verifier::ext_equal]
pub struct Needs {
    pub verb: Seq<char>,
    pub caps: Set<Seq<char>>,
    pub deps: Set<Seq<char>>,
}

impl View for Requires {
    type V = Needs;

    open spec fn view(&self) -> Needs {
        Needs { verb: self.verb@, caps: self.caps@, deps: self.deps@ }
    }
}

/// What the metadata of a verb require of a sort.
pub open spec fn required(tools: Value, verb: Seq<char>, sort: Seq<char>) -> Set<Seq<char>> {
    match member(meta_of(tools, verb), "requires"@) {
        Some(r) => string_list(member(r, sort)).to_set(),
        None => Set::empty(),
    }
}

fn text_set(v: &Vec<String>) -> (s: StrSet)
    ensures
        s@ == texts(v@).to_set(),
{
    let ghost all = texts(v@);
    let mut s = StrSet::new();
    let mut i: usize = 0;
    assert(all.take(0).to_set() =~= Set::<Seq<char>>::empty());
    while i < v.len()
        invariant
            i <= v@.len(),
            all == texts(v@),
            s@ == all.take(i as int).to_set(),
        decreases v.len() - i,
    {
        s.insert(v[i].clone());
        proof {
            let t = all.take(i + 1);
            assert(t =~= all.take(i as int).push(all[i as int]));
            assert(t.to_set() =~= all.take(i as int).to_set().insert(all[i as int])) by {
                assert forall|x: Seq<char>| t.to_set().contains(x) == all.take(
                    i as int,
                ).to_set().insert(all[i as int]).contains(x) by {
                    if all.take(i as int).contains(x) {
                        let k = all.take(i as int).index_of(x);
                        assert(t[k] == x);
                    }
                    if x == all[i as int] {
                        assert(t[i as int] == x);
                    }
                    if t.contains(x) {
                        let k = t.index_of(x);
                        if k < i {
                            assert(all.take(i as int)[k] == x);
                        }
                    }
                }
            }
        }
        i = i + 1;
    }
    assert(all.take(i as int) =~= all);
    s
}

fn read_required(meta: &Json, sort: &str) -> (s: StrSet)
    ensures
        s@ == match member(meta@, "requires"@) {
            Some(r) => string_list(member(r, sort@)).to_set(),
            None => Set::<Seq<char>>::empty(),
        },
{
    match meta.get("requires") {
        Some(r) => text_set(&str_array(r.get(sort))),
        None => StrSet::new(),
    }
}

/// What the verbs of a plugin require.
pub fn manifest_from_meta(verbs: &Vec<String>, tools_meta: &Json) -> (m: Vec<Requires>)
    ensures
        m@.len() == verbs@.len(),
        forall|i: int|
            0 <= i < m@.len() ==> (#[trigger] m@[i])@ == (Needs {
                verb: verbs@[i]@,
                caps: required(tools_meta@, verbs@[i]@, "caps"@),
                deps: required(tools_meta@, verbs@[i]@, "deps"@),
            }),
{
    let mut m: Vec<Requires> = Vec::new();
    let absent: Json = Json::Null;
    let mut i: usize = 0;
    while i < verbs.len()
        invariant
            i <= verbs@.len(),
            absent == Json::Null,
            m@.len() == i,
            forall|k: int|
                0 <= k < i ==> (#[trigger] m@[k])@ == (Needs {
                    verb: verbs@[k]@,
                    caps: required(tools_meta@, verbs@[k]@, "caps"@),
                    deps: required(tools_meta@, verbs@[k]@, "deps"@),
                }),
        decreases verbs.len() - i,
    {
        let meta: &Json = match tools_meta.get(verbs[i].as_str()) {
            Some(x) => x,
            None => &absent,
        };
        assert(meta@ == meta_of(tools_meta@, verbs@[i as int]@));
        m.push(
            Requires {
                verb: verbs[i].clone(),
                caps: read_required(meta, "caps"),
                deps: read_required(meta, "deps"),
            },
        );
        i = i + 1;
    }
    m
}

/// How the target of an effect is read from its arguments.
#[derive(Debug, PartialEq, Eq)]
pub enum TargetSpec {
    Literal(String),
    Origin(String),
}

/// How the target of an effect is read from its arguments.
#[verifier::ext_equal]
pub enum TargetRule {
    Literal(Seq<char>),
    Origin(Seq<char>),
}

impl View for TargetSpec {
    type V = TargetRule;

    open spec fn view(&self) -> TargetRule {
        match self {
            TargetSpec::Literal(s) => TargetRule::Literal(s@),
            TargetSpec::Origin(s) => TargetRule::Origin(s@),
        }
    }
}

/// How the target of an effect is read; a kind that is not an origin is a literal.
pub open spec fn target_rule(meta: Option<Value>) -> Option<TargetRule> {
    match meta {
        None => None,
        Some(m) => match member(m, "arg"@) {
            None => None,
            Some(a) => match text_of(a) {
                None => None,
                Some(arg) => if member(m, "kind"@) is Some && text_of(
                    member(m, "kind"@)->0,
                ) == Some("origin"@) {
                    Some(TargetRule::Origin(arg))
                } else {
                    Some(TargetRule::Literal(arg))
                },
            },
        },
    }
}

/// How the target of an effect is read.
pub fn target_from_meta(meta: Option<&Json>) -> (r: Option<TargetSpec>)
    ensures
        match r {
            Some(t) => target_rule(value_view(meta)) == Some(t@),
            None => target_rule(value_view(meta)) is None,
        },
{
    let m: &Json = match meta {
        None => {
            return None;
        },
        Some(m) => m,
    };
    let arg: &String = match m.get("arg") {
        None => {
            return None;
        },
        Some(a) => match a.as_str() {
            None => {
                return None;
            },
            Some(s) => s,
        },
    };
    let origin: bool = match m.get("kind") {
        None => false,
        Some(k) => match k.as_str() {
            None => false,
            Some(s) => same(s.as_str(), "origin"),
        },
    };
    if origin {
        Some(TargetSpec::Origin(arg.clone()))
    } else {
        Some(TargetSpec::Literal(arg.clone()))
    }
}

} // verus!

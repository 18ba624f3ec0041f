//! Fragments of resources in JSON.

use crate::digits::{
    equal_fractions_are_one, gcd, lowest, lowest_is_lowest, reduce, spelled, Digits,
};
use crate::error::{joined_text, KernelError, Refusal};
use crate::json::{
    elements_of, find_member, member, named_values, nat_of, no_members, number, put, text, text_of,
    truth_of, values, Json, Num, Value,
};
use crate::records::{corrupt, storage_fault, Frag, FragView};
use crate::strmap::StrSet;
use crate::text::{
    decimal, decimal_is_parsed, lex_lt, parse_number, parsed_number, push_decimal, same,
};
use vstd::prelude::*;

verus! {

/// Whether a fragment can be stored: spans are not reversed, and the invalid range has none.
pub open spec fn storable(f: FragView) -> bool {
    match f {
        FragView::Range(spans, bot) => {
            &&& bot ==> spans.len() == 0
            &&& in_order(spans)
        },
        _ => true,
    }
}

/// A part of a fraction: a number that fits, or its text.
pub open spec fn part_value(s: Seq<char>) -> Value {
    match parsed_number(s, u64::MAX as nat) {
        Some(n) => Value::Number(Num::Nat(n as u64)),
        None => Value::Str(s),
    }
}

/// The text of a part of a fraction.
pub open spec fn part_text(v: Value) -> Option<Seq<char>> {
    match nat_of(v) {
        Some(n) => Some(decimal(n as nat)),
        None => text_of(v),
    }
}

/// The fraction that two parts spell, in lowest terms; nothing where a part is no number, or where
/// something is divided by nothing. Nothing over nothing is the invalid fraction.
pub open spec fn frac_of(num: Seq<char>, den: Seq<char>) -> Option<FragView> {
    match (spelled(num), spelled(den)) {
        (Some(n), Some(d)) => if d == 0 && n > 0 {
            None
        } else {
            Some(FragView::Frac(decimal(lowest(n, d).0), decimal(lowest(n, d).1)))
        },
        _ => None,
    }
}

/// The values of spans.
pub open spec fn span_values(spans: Seq<(u64, u64)>) -> Seq<Value> {
    Seq::new(
        spans.len(),
        |i: int|
            Value::Array(
                seq![Value::Number(Num::Nat(spans[i].0)), Value::Number(Num::Nat(spans[i].1))],
            ),
    )
}

/// Whether values spell the members of a set, in increasing order.
pub open spec fn set_values(vs: Seq<Value>, s: Set<Seq<char>>) -> bool {
    &&& forall|i: int| 0 <= i < vs.len() ==> (#[trigger] vs[i]) is Str
    &&& forall|i: int, j: int|
        0 <= i < j < vs.len() ==> lex_lt((#[trigger] vs[i])->Str_0, (#[trigger] vs[j])->Str_0)
    &&& forall|k: Seq<char>| #[trigger]
        s.contains(k) <==> exists|i: int| 0 <= i < vs.len() && #[trigger] vs[i] == Value::Str(k)
}

/// Whether a value is the JSON of a fragment.
pub open spec fn writes(v: Value, f: FragView) -> bool {
    match f {
        FragView::Ex(token) => v == Value::Object(
            seq![
                (
                    "ex"@,
                    Value::Str(
                        if token {
                            "token"@
                        } else {
                            "bot"@
                        },
                    ),
                ),
            ],
        ),
        FragView::Count(Some(n)) => v == Value::Object(
            seq![("count"@, Value::Number(Num::Nat(n)))],
        ),
        FragView::Count(None) => v == Value::Object(seq![("count"@, Value::Str("invalid"@))]),
        FragView::SetOf(s) => exists|vs: Seq<Value>| #[trigger]
            set_values(vs, s) && v == Value::Object(seq![("set"@, Value::Array(vs))]),
        FragView::Range(spans, bot) => v == Value::Object(
            seq![("bot"@, Value::Bool(bot)), ("range"@, Value::Array(span_values(spans)))],
        ),
        FragView::Frac(num, den) => v == Value::Object(
            seq![("frac"@, Value::Array(seq![part_value(num), part_value(den)]))],
        ),
    }
}

fn part_json(s: &String) -> (j: Json)
    ensures
        j@ == part_value(s@),
{
    match parse_number(s.as_str(), u64::MAX) {
        Some(n) => number(n),
        None => text(s.as_str()),
    }
}

/// The JSON of a fragment.
pub fn frag_to_json(f: &Frag) -> (j: Json)
    ensures
        writes(j@, f@),
{
    let mut ms: Vec<(String, Json)> = no_members();
    match f {
        Frag::Ex { token } => {
            if *token {
                put(&mut ms, "ex", text("token"));
                assert(named_values(ms@) =~= seq![("ex"@, Value::Str("token"@))]);
            } else {
                put(&mut ms, "ex", text("bot"));
                assert(named_values(ms@) =~= seq![("ex"@, Value::Str("bot"@))]);
            }
            assert(writes(Value::Object(named_values(ms@)), f@));
        },
        Frag::Count(Some(n)) => {
            put(&mut ms, "count", number(*n));
            assert(named_values(ms@) =~= seq![("count"@, Value::Number(Num::Nat(*n)))]);
            assert(writes(Value::Object(named_values(ms@)), f@));
        },
        Frag::Count(None) => {
            put(&mut ms, "count", text("invalid"));
            assert(named_values(ms@) =~= seq![("count"@, Value::Str("invalid"@))]);
            assert(writes(Value::Object(named_values(ms@)), f@));
        },
        Frag::SetOf(s) => {
            let mut items: Vec<Json> = Vec::new();
            let n: usize = s.len();
            let ghost all = s.items();
            let mut i: usize = 0;
            while i < n
                invariant
                    i <= n,
                    n == all.len(),
                    all == s.items(),
                    items@.len() == i,
                    forall|k: int| 0 <= k < i ==> (#[trigger] items@[k])@ == Value::Str(all[k]),
                decreases n - i,
            {
                items.push(text(s.item_at(i).as_str()));
                i = i + 1;
            }
            let ghost vs = values(items@);
            proof {
                assert(set_values(vs, s@)) by {
                    assert forall|k: Seq<char>| #[trigger] s@.contains(k) <==> exists|i: int|
                        0 <= i < vs.len() && #[trigger] vs[i] == Value::Str(k) by {
                        assert(s@.contains(k) <==> all.contains(k));
                        if all.contains(k) {
                            let q = all.index_of(k);
                            assert(vs[q] == Value::Str(k));
                        }
                        if exists|i: int| 0 <= i < vs.len() && #[trigger] vs[i] == Value::Str(k) {
                            let q = choose|i: int|
                                0 <= i < vs.len() && #[trigger] vs[i] == Value::Str(k);
                            assert(all[q] == k);
                        }
                    }
                }
            }
            put(&mut ms, "set", Json::Array(items));
            assert(named_values(ms@) =~= seq![("set"@, Value::Array(vs))]);
            assert(set_values(vs, f@->SetOf_0));
            assert(writes(Value::Object(named_values(ms@)), f@));
        },
        Frag::Range { spans, bot } => {
            let mut items: Vec<Json> = Vec::new();
            let mut i: usize = 0;
            while i < spans.len()
                invariant
                    i <= spans@.len(),
                    items@.len() == i,
                    forall|k: int|
                        0 <= k < i ==> (#[trigger] items@[k])@ == span_values(spans@)[k],
                decreases spans.len() - i,
            {
                let pair: Vec<Json> = vec![number(spans[i].0), number(spans[i].1)];
                proof {
                    assert(values(pair@) =~= seq![
                        Value::Number(Num::Nat(spans@[i as int].0)),
                        Value::Number(Num::Nat(spans@[i as int].1)),
                    ]);
                }
                items.push(Json::Array(pair));
                i = i + 1;
            }
            assert(values(items@) =~= span_values(spans@));
            put(&mut ms, "bot", Json::Bool(*bot));
            put(&mut ms, "range", Json::Array(items));
            assert(named_values(ms@) =~= seq![
                ("bot"@, Value::Bool(*bot)),
                ("range"@, Value::Array(span_values(spans@))),
            ]);
            assert(writes(Value::Object(named_values(ms@)), f@));
        },
        Frag::Frac { num, den } => {
            let parts: Vec<Json> = vec![part_json(num), part_json(den)];
            assert(values(parts@) =~= seq![part_value(num@), part_value(den@)]);
            put(&mut ms, "frac", Json::Array(parts));
            assert(named_values(ms@) =~= seq![
                ("frac"@, Value::Array(seq![part_value(num@), part_value(den@)])),
            ]);
            assert(writes(Value::Object(named_values(ms@)), f@));
        },
    }
    let j = Json::Object(ms);
    assert(j@ == Value::Object(named_values(ms@)));
    j
}

/// The strings of a list, or nothing where one is no string.
pub open spec fn all_texts(vs: Seq<Value>) -> Option<Set<Seq<char>>>
    decreases vs.len(),
{
    if vs.len() == 0 {
        Some(Set::empty())
    } else {
        match (all_texts(vs.drop_last()), text_of(vs.last())) {
            (Some(s), Some(t)) => Some(s.insert(t)),
            _ => None,
        }
    }
}

/// The spans of a list, or nothing where one is no pair of numbers.
pub open spec fn all_spans(vs: Seq<Value>) -> Option<Seq<(u64, u64)>>
    decreases vs.len(),
{
    if vs.len() == 0 {
        Some(Seq::empty())
    } else {
        match (all_spans(vs.drop_last()), span_of(vs.last())) {
            (Some(s), Some(p)) => Some(s.push(p)),
            _ => None,
        }
    }
}

/// A pair of numbers.
pub open spec fn span_of(v: Value) -> Option<(u64, u64)> {
    match elements_of(v) {
        Some(p) => if p.len() == 2 {
            match (nat_of(p[0]), nat_of(p[1])) {
                (Some(a), Some(b)) => Some((a, b)),
                _ => None,
            }
        } else {
            None
        },
        None => None,
    }
}

/// Whether no span is reversed.
pub open spec fn in_order(spans: Seq<(u64, u64)>) -> bool {
    forall|i: int| 0 <= i < spans.len() ==> (#[trigger] spans[i]).0 <= spans[i].1
}

/// What a fragment with one member says; nothing where its shape is wrong.
pub open spec fn single_shape(ms: Seq<(Seq<char>, Value)>) -> Option<Option<FragView>> {
    if let Some(ex) = find_member(ms, "ex"@) {
        Some(
            if text_of(ex) == Some("token"@) {
                Some(FragView::Ex(true))
            } else if text_of(ex) == Some("bot"@) {
                Some(FragView::Ex(false))
            } else {
                None
            },
        )
    } else if let Some(c) = find_member(ms, "count"@) {
        Some(
            if text_of(c) == Some("invalid"@) {
                Some(FragView::Count(None))
            } else {
                match nat_of(c) {
                    Some(n) => Some(FragView::Count(Some(n))),
                    None => None,
                }
            },
        )
    } else if let Some(s) = find_member(ms, "set"@) {
        Some(
            match elements_of(s) {
                Some(vs) => match all_texts(vs) {
                    Some(t) => Some(FragView::SetOf(t)),
                    None => None,
                },
                None => None,
            },
        )
    } else if let Some(q) = find_member(ms, "frac"@) {
        Some(
            match elements_of(q) {
                Some(p) => if p.len() == 2 {
                    match (part_text(p[0]), part_text(p[1])) {
                        (Some(a), Some(b)) => frac_of(a, b),
                        _ => None,
                    }
                } else {
                    None
                },
                None => None,
            },
        )
    } else {
        None
    }
}

/// What a range says; nothing where its shape is wrong.
pub open spec fn range_shape(ms: Seq<(Seq<char>, Value)>) -> Option<FragView> {
    let fits = ms.len() == 1 || (ms.len() == 2 && find_member(ms, "bot"@) is Some);
    match find_member(ms, "range"@) {
        Some(r) => if !fits {
            None
        } else {
            match elements_of(r) {
                None => None,
                Some(vs) => match all_spans(vs) {
                    None => None,
                    Some(spans) => match find_member(ms, "bot"@) {
                        None => Some(FragView::Range(spans, false)),
                        Some(b) => match truth_of(b) {
                            None => None,
                            Some(true) => if spans.len() == 0 {
                                Some(FragView::Range(spans, true))
                            } else {
                                None
                            },
                            Some(false) => Some(FragView::Range(spans, false)),
                        },
                    },
                },
            }
        },
        None => None,
    }
}

/// What the JSON of a fragment says; nothing where its shape is wrong.
pub open spec fn frag_shape(v: Value) -> Option<FragView> {
    match v {
        Value::Object(ms) => if ms.len() == 1 && single_shape(ms) is Some {
            single_shape(ms)->0
        } else {
            range_shape(ms)
        },
        _ => None,
    }
}

/// The refusal of a fragment, if it is refused: text that is no JSON, a wrong shape, or a reversed
/// span.
pub open spec fn frag_refusal(text: Seq<char>, parsed: Result<Json, String>) -> Option<Refusal> {
    match parsed {
        Err(e) => Some(storage_fault("fragment JSON: "@ + e@)),
        Ok(j) => match frag_shape(j@) {
            None => Some(storage_fault("malformed fragment: "@ + text)),
            Some(f) => if storable(f) {
                None
            } else {
                Some(storage_fault("raw range: reversed span"@))
            },
        },
    }
}

fn read_part(j: &Json) -> (r: Option<String>)
    ensures
        match r {
            Some(s) => part_text(j@) == Some(s@),
            None => part_text(j@) is None,
        },
{
    match j.as_u64() {
        Some(n) => {
            let mut s: String = String::new();
            push_decimal(&mut s, n);
            assert(s@ =~= decimal(n as nat));
            Some(s)
        },
        None => match j.as_str() {
            Some(s) => Some(s.clone()),
            None => None,
        },
    }
}

fn read_frac(num: &str, den: &str) -> (r: Option<Frag>)
    ensures
        match r {
            Some(f) => frac_of(num@, den@) == Some(f@),
            None => frac_of(num@, den@) is None,
        },
{
    match (Digits::parse(num), Digits::parse(den)) {
        (Some(n), Some(d)) => if d.is_zero() && !n.is_zero() {
            None
        } else {
            let (top, bottom): (Digits, Digits) = reduce(n, d);
            Some(Frag::Frac { num: top.text(), den: bottom.text() })
        },
        _ => None,
    }
}

fn read_set(items: &Vec<Json>) -> (r: Option<StrSet>)
    ensures
        match r {
            Some(s) => all_texts(values(items@)) == Some(s@),
            None => all_texts(values(items@)) is None,
        },
{
    let mut s = StrSet::new();
    let ghost vs = values(items@);
    let mut i: usize = 0;
    assert(vs.take(0) =~= Seq::<Value>::empty());
    while i < items.len()
        invariant
            i <= items@.len(),
            vs == values(items@),
            all_texts(vs.take(i as int)) == Some(s@),
        decreases items.len() - i,
    {
        proof {
            assert(vs.take(i + 1).drop_last() =~= vs.take(i as int));
            assert(vs.take(i + 1).last() == items@[i as int]@);
        }
        match items[i].as_str() {
            None => {
                proof {
                    texts_fail_on(vs, i + 1);
                }
                return None;
            },
            Some(t) => {
                s.insert(t.clone());
            },
        }
        i = i + 1;
    }
    assert(vs.take(i as int) =~= vs);
    Some(s)
}

proof fn texts_fail_on(vs: Seq<Value>, n: int)
    requires
        0 <= n <= vs.len(),
        all_texts(vs.take(n)) is None,
    ensures
        all_texts(vs) is None,
    decreases vs.len() - n,
{
    if n < vs.len() {
        assert(vs.take(n + 1).drop_last() =~= vs.take(n));
        texts_fail_on(vs, n + 1);
    } else {
        assert(vs.take(n) =~= vs);
    }
}

proof fn spans_fail_on(vs: Seq<Value>, n: int)
    requires
        0 <= n <= vs.len(),
        all_spans(vs.take(n)) is None,
    ensures
        all_spans(vs) is None,
    decreases vs.len() - n,
{
    if n < vs.len() {
        assert(vs.take(n + 1).drop_last() =~= vs.take(n));
        spans_fail_on(vs, n + 1);
    } else {
        assert(vs.take(n) =~= vs);
    }
}

fn read_span(j: &Json) -> (r: Option<(u64, u64)>)
    ensures
        r == span_of(j@),
{
    match j.as_array() {
        None => None,
        Some(p) => if p.len() == 2 {
            match (p[0].as_u64(), p[1].as_u64()) {
                (Some(a), Some(b)) => Some((a, b)),
                _ => None,
            }
        } else {
            None
        },
    }
}

fn read_spans(items: &Vec<Json>) -> (r: Option<Vec<(u64, u64)>>)
    ensures
        match r {
            Some(s) => all_spans(values(items@)) == Some(s@),
            None => all_spans(values(items@)) is None,
        },
{
    let mut s: Vec<(u64, u64)> = Vec::new();
    let ghost vs = values(items@);
    let mut i: usize = 0;
    assert(vs.take(0) =~= Seq::<Value>::empty());
    while i < items.len()
        invariant
            i <= items@.len(),
            vs == values(items@),
            all_spans(vs.take(i as int)) == Some(s@),
        decreases items.len() - i,
    {
        proof {
            assert(vs.take(i + 1).drop_last() =~= vs.take(i as int));
            assert(vs.take(i + 1).last() == items@[i as int]@);
        }
        match read_span(&items[i]) {
            None => {
                proof {
                    spans_fail_on(vs, i + 1);
                }
                return None;
            },
            Some(p) => {
                s.push(p);
            },
        }
        i = i + 1;
    }
    assert(vs.take(i as int) =~= vs);
    Some(s)
}

fn read_single(j: &Json) -> (r: Option<Option<Frag>>)
    requires
        j@ is Object,
    ensures
        match r {
            None => single_shape(j@->Object_0) is None,
            Some(None) => single_shape(j@->Object_0) == Some(None::<FragView>),
            Some(Some(f)) => single_shape(j@->Object_0) == Some(Some(f@)),
        },
{
    if let Some(ex) = j.get("ex") {
        return match ex.as_str() {
            Some(s) => if same(s.as_str(), "token") {
                Some(Some(Frag::Ex { token: true }))
            } else if same(s.as_str(), "bot") {
                proof {
                    token_is_not_bot();
                }
                Some(Some(Frag::Ex { token: false }))
            } else {
                Some(None)
            },
            None => Some(None),
        };
    }
    if let Some(c) = j.get("count") {
        let invalid: bool = match c.as_str() {
            Some(s) => same(s.as_str(), "invalid"),
            None => false,
        };
        if invalid {
            return Some(Some(Frag::Count(None)));
        }
        return match c.as_u64() {
            Some(n) => Some(Some(Frag::Count(Some(n)))),
            None => Some(None),
        };
    }
    if let Some(s) = j.get("set") {
        return match s.as_array() {
            None => Some(None),
            Some(items) => match read_set(items) {
                None => Some(None),
                Some(set) => Some(Some(Frag::SetOf(set))),
            },
        };
    }
    if let Some(q) = j.get("frac") {
        return match q.as_array() {
            None => Some(None),
            Some(p) => if p.len() == 2 {
                match (read_part(&p[0]), read_part(&p[1])) {
                    (Some(num), Some(den)) => Some(read_frac(num.as_str(), den.as_str())),
                    _ => Some(None),
                }
            } else {
                Some(None)
            },
        };
    }
    None
}

proof fn token_is_not_bot()
    ensures
        "token"@ != "bot"@,
{
    reveal_strlit("token");
    reveal_strlit("bot");
    assert("token"@.len() == 5);
    assert("bot"@.len() == 3);
}

fn read_range(j: &Json, len: usize) -> (r: Option<Frag>)
    requires
        j@ is Object,
        len == j@->Object_0.len(),
    ensures
        match r {
            None => range_shape(j@->Object_0) is None,
            Some(f) => range_shape(j@->Object_0) == Some(f@),
        },
{
    let bot: Option<&Json> = j.get("bot");
    let fits: bool = len == 1 || (len == 2 && bot.is_some());
    let range: &Json = match j.get("range") {
        None => {
            return None;
        },
        Some(r) => r,
    };
    if !fits {
        return None;
    }
    let items: &Vec<Json> = match range.as_array() {
        None => {
            return None;
        },
        Some(i) => i,
    };
    let spans: Vec<(u64, u64)> = match read_spans(items) {
        None => {
            return None;
        },
        Some(s) => s,
    };
    match bot {
        None => Some(Frag::Range { spans, bot: false }),
        Some(b) => match b.as_bool() {
            None => None,
            Some(true) => if spans.len() == 0 {
                Some(Frag::Range { spans, bot: true })
            } else {
                None
            },
            Some(false) => Some(Frag::Range { spans, bot: false }),
        },
    }
}

/// Reads a fragment from its text and the JSON that the text holds. A shape that is not exactly
/// that of a fragment is refused: nothing is filled in.
pub fn frag_from_json(s: &str, parsed: &Result<Json, String>) -> (r: Result<Frag, KernelError>)
    ensures
        match r {
            Ok(f) => {
                &&& frag_refusal(s@, *parsed) is None
                &&& frag_shape(parsed->Ok_0@) == Some(f@)
                &&& storable(f@)
                &&& canonical(f@)
            },
            Err(e) => frag_refusal(s@, *parsed) == Some(e@),
        },
{
    let j: &Json = match parsed {
        Err(e) => {
            return Err(corrupt(joined_text("fragment JSON: ", e.as_str()).as_str()));
        },
        Ok(j) => j,
    };
    let len: usize = match j {
        Json::Object(ms) => {
            assert(j@ == Value::Object(named_values(ms@)));
            ms.len()
        },
        _ => {
            return Err(corrupt(joined_text("malformed fragment: ", s).as_str()));
        },
    };
    let read: Option<Frag> = if len == 1 {
        match read_single(j) {
            Some(r) => r,
            None => read_range(j, len),
        }
    } else {
        read_range(j, len)
    };
    match read {
        None => Err(corrupt(joined_text("malformed fragment: ", s).as_str())),
        Some(f) => {
            proof {
                shapes_are_canonical(j@);
            }
            if let Frag::Range { spans, bot } = &f {
                let mut i: usize = 0;
                while i < spans.len()
                    invariant
                        i <= spans@.len(),
                        f == (Frag::Range { spans: *spans, bot: *bot }),
                        f@ == FragView::Range(spans@, *bot),
                        frag_shape(parsed->Ok_0@) == Some(f@),
                        parsed is Ok,
                        canonical(f@),
                        forall|k: int| 0 <= k < i ==> (#[trigger] spans@[k]).0 <= spans@[k].1,
                    decreases spans.len() - i,
                {
                    if spans[i].0 > spans[i].1 {
                        let ghost sp = spans@;
                        assert(sp[i as int].0 > sp[i as int].1);
                        assert(f@ == FragView::Range(sp, *bot));
                        assert(!in_order(sp));
                        assert(!storable(f@));
                        return Err(corrupt("raw range: reversed span"));
                    }
                    i = i + 1;
                }
            }
            Ok(f)
        },
    }
}

/// Whether a fragment is written in its one way: the parts of a fraction are numbers in decimal
/// notation without a common factor, or both are zero.
pub open spec fn canonical(f: FragView) -> bool {
    match f {
        FragView::Frac(num, den) => match (spelled(num), spelled(den)) {
            (Some(n), Some(d)) => {
                &&& num == decimal(n)
                &&& den == decimal(d)
                &&& (n == 0 && d == 0) || (d > 0 && gcd(n, d) == 1)
            },
            _ => false,
        },
        _ => true,
    }
}

proof fn shapes_are_canonical(v: Value)
    ensures
        frag_shape(v) matches Some(f) ==> canonical(f),
{
    if let Some(FragView::Frac(num, den)) = frag_shape(v) {
        let p = elements_of(find_member(v->Object_0, "frac"@)->0)->0;
        let n = spelled(part_text(p[0])->0)->0;
        let d = spelled(part_text(p[1])->0)->0;
        let (a, b) = lowest(n, d);
        decimal_is_parsed(a);
        decimal_is_parsed(b);
        if n > 0 || d > 0 {
            lowest_is_lowest(n, d);
        }
    }
}

/// Fractions that are equal are one fragment, whatever their parts.
pub proof fn equal_fractions_read_alike(
    num: Seq<char>,
    den: Seq<char>,
    other_num: Seq<char>,
    other_den: Seq<char>,
)
    requires
        spelled(num) is Some,
        spelled(den) is Some,
        spelled(other_num) is Some,
        spelled(other_den) is Some,
        spelled(den)->0 > 0,
        spelled(other_den)->0 > 0,
        spelled(num)->0 * spelled(other_den)->0 == spelled(other_num)->0 * spelled(den)->0,
    ensures
        frac_of(num, den) is Some,
        frac_of(num, den) == frac_of(other_num, other_den),
{
    equal_fractions_are_one(
        spelled(num)->0,
        spelled(den)->0,
        spelled(other_num)->0,
        spelled(other_den)->0,
    );
}

/// A fragment that was written is read back as it was.
pub proof fn fragment_round_trip(v: Value, f: FragView)
    requires
        writes(v, f),
        storable(f),
        canonical(f),
    ensures
        frag_shape(v) == Some(f),
{
    names_differ();
    match f {
        FragView::Ex(token) => {
            let ms = v->Object_0;
            assert(find_member(ms, "ex"@) == Some(ms[0].1));
            token_is_not_bot();
        },
        FragView::Count(n) => {
            let ms = v->Object_0;
            only_member(ms, "count"@, "ex"@);
        },
        FragView::SetOf(s) => {
            let vs = choose|vs: Seq<Value>| #[trigger]
                set_values(vs, s) && v == Value::Object(seq![("set"@, Value::Array(vs))]);
            let ms = v->Object_0;
            only_member(ms, "set"@, "ex"@);
            only_member(ms, "set"@, "count"@);
            texts_are(vs, s);
        },
        FragView::Range(spans, bot) => {
            let ms = v->Object_0;
            assert(ms[0].0 == "bot"@);
            assert(ms.drop_first() =~= seq![("range"@, Value::Array(span_values(spans)))]);
            assert(find_member(ms.drop_first(), "range"@) == Some(
                Value::Array(span_values(spans)),
            ));
            assert(find_member(ms, "range"@) == Some(Value::Array(span_values(spans))));
            spans_are(spans);
        },
        FragView::Frac(num, den) => {
            let ms = v->Object_0;
            only_member(ms, "frac"@, "ex"@);
            only_member(ms, "frac"@, "count"@);
            only_member(ms, "frac"@, "set"@);
            let n = spelled(num)->0;
            let d = spelled(den)->0;
            if d > 0 {
                assert(n / 1 == n && d / 1 == d);
            }
        },
    }
}

proof fn only_member(ms: Seq<(Seq<char>, Value)>, name: Seq<char>, other: Seq<char>)
    requires
        ms.len() == 1,
        ms[0].0 == name,
        name != other,
    ensures
        find_member(ms, name) == Some(ms[0].1),
        find_member(ms, other) is None,
{
    reveal_with_fuel(find_member, 2);
}

proof fn names_differ()
    ensures
        "ex"@ != "count"@,
        "ex"@ != "set"@,
        "ex"@ != "frac"@,
        "count"@ != "set"@,
        "count"@ != "frac"@,
        "set"@ != "frac"@,
        "bot"@ != "range"@,
{
    reveal_strlit("ex");
    reveal_strlit("count");
    reveal_strlit("set");
    reveal_strlit("frac");
    reveal_strlit("bot");
    reveal_strlit("range");
    assert("ex"@.len() == 2);
    assert("count"@.len() == 5);
    assert("set"@.len() == 3);
    assert("frac"@.len() == 4);
    assert("bot"@.len() == 3);
    assert("range"@.len() == 5);
}

proof fn texts_are(vs: Seq<Value>, s: Set<Seq<char>>)
    requires
        set_values(vs, s),
    ensures
        all_texts(vs) == Some(s),
    decreases vs.len(),
{
    if vs.len() == 0 {
        assert(s =~= Set::<Seq<char>>::empty());
    } else {
        let init = vs.drop_last();
        let t = Set::<Seq<char>>::new(
            |k: Seq<char>| exists|i: int| 0 <= i < init.len() && #[trigger] init[i] == Value::Str(k),
        );
        assert(set_values(init, t)) by {
            assert forall|i: int| 0 <= i < init.len() implies (#[trigger] init[i]) is Str by {
                assert(init[i] == vs[i]);
            }
        }
        texts_are(init, t);
        let last = vs.last();
        assert(vs[vs.len() - 1] is Str);
        let k0 = last->Str_0;
        assert(t.insert(k0) =~= s) by {
            assert forall|k: Seq<char>| t.insert(k0).contains(k) == s.contains(k) by {
                if s.contains(k) {
                    let i = choose|i: int| 0 <= i < vs.len() && #[trigger] vs[i] == Value::Str(k);
                    if i < init.len() {
                        assert(init[i] == Value::Str(k));
                    }
                }
                if t.contains(k) {
                    let i = choose|i: int|
                        0 <= i < init.len() && #[trigger] init[i] == Value::Str(k);
                    assert(vs[i] == Value::Str(k));
                }
                assert(vs[vs.len() - 1] == Value::Str(k0));
            }
        }
    }
}

proof fn spans_are(spans: Seq<(u64, u64)>)
    ensures
        all_spans(span_values(spans)) == Some(spans),
    decreases spans.len(),
{
    let vs = span_values(spans);
    if spans.len() > 0 {
        spans_are(spans.drop_last());
        assert(vs.drop_last() =~= span_values(spans.drop_last()));
        assert(spans =~= spans.drop_last().push(spans.last()));
    } else {
        assert(spans =~= Seq::<(u64, u64)>::empty());
    }
}

} // verus!

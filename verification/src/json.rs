//! JSON values as plain data.

use crate::text::{lex_lt, relate, same, Rel};
use vstd::arithmetic::power2::{lemma2_to64, lemma2_to64_rest, lemma_pow2_adds, lemma_pow2_pos, lemma_pow2_unfold, pow2};
use vstd::prelude::*;

verus! {

/// A whole JSON number: a natural number or a negative one.
#[derive(Debug, Clone, Copy, PartialEq, Eq, Structural)]
pub enum Num {
    Nat(u64),
    Neg(i64),
}

/// A JSON value. Any number that is not whole stands there by its rank among the double-precision
/// values and by its shortest notation. An object lists its members; the first one of a name
/// counts.
#[derive(Debug, PartialEq, Eq)]
pub enum Json {
    Null,
    Bool(bool),
    Number(Num),
    Real { rank: i64, text: String },
    Str(String),
    Array(Vec<Json>),
    Object(Vec<(String, Json)>),
}

/// What a JSON value holds.
pub enum Value {
    Null,
    Bool(bool),
    Number(Num),
    Real { rank: i64, text: Seq<char> },
    Str(Seq<char>),
    Array(Seq<Value>),
    Object(Seq<(Seq<char>, Value)>),
}

impl View for Json {
    type V = Value;

    open spec fn view(&self) -> Value
        decreases self,
    {
        match self {
            Json::Null => Value::Null,
            Json::Bool(b) => Value::Bool(*b),
            Json::Number(n) => Value::Number(*n),
            Json::Real { rank, text } => Value::Real { rank: *rank, text: text@ },
            Json::Str(s) => Value::Str(s@),
            Json::Array(items) => Value::Array(values(items@)),
            Json::Object(members) => Value::Object(named_values(members@)),
        }
    }
}

/// What a list of values holds.
pub open spec fn values(items: Seq<Json>) -> Seq<Value>
    decreases items,
{
    Seq::new(
        items.len(),
        |i: int|
            if 0 <= i < items.len() {
                items[i].view()
            } else {
                Value::Null
            },
    )
}

/// What a list of members holds.
pub open spec fn named_values(members: Seq<(String, Json)>) -> Seq<(Seq<char>, Value)>
    decreases members,
{
    Seq::new(
        members.len(),
        |i: int|
            if 0 <= i < members.len() {
                (members[i].0@, members[i].1.view())
            } else {
                (Seq::<char>::empty(), Value::Null)
            },
    )
}

/// A copy of a value.
pub fn copy_json(j: &Json) -> (r: Json)
    ensures
        r@ == j@,
    decreases j,
{
    match j {
        Json::Null => Json::Null,
        Json::Bool(b) => Json::Bool(*b),
        Json::Number(n) => Json::Number(*n),
        Json::Real { rank, text } => Json::Real { rank: *rank, text: text.clone() },
        Json::Str(s) => Json::Str(s.clone()),
        Json::Array(items) => {
            let mut v: Vec<Json> = Vec::new();
            let mut i: usize = 0;
            while i < items.len()
                invariant
                    i <= items.len(),
                    v@.len() == i,
                    forall|k: int| 0 <= k < i ==> (#[trigger] v@[k])@ == items@[k]@,
                    decreases_to!(j => items@),
                decreases items.len() - i,
            {
                assert(decreases_to!(items@ => items@[i as int]));
                v.push(copy_json(&items[i]));
                i = i + 1;
            }
            assert(values(v@) =~= values(items@));
            Json::Array(v)
        },
        Json::Object(members) => {
            let mut v: Vec<(String, Json)> = Vec::new();
            let mut i: usize = 0;
            while i < members.len()
                invariant
                    i <= members.len(),
                    v@.len() == i,
                    forall|k: int|
                        0 <= k < i ==> (#[trigger] v@[k]).0@ == members@[k].0@ && v@[k].1@
                            == members@[k].1@,
                    decreases_to!(j => members@),
                decreases members.len() - i,
            {
                assert(decreases_to!(members@ => members@[i as int]));
                assert(decreases_to!(members@[i as int] => members@[i as int].1));
                v.push((members[i].0.clone(), copy_json(&members[i].1)));
                i = i + 1;
            }
            assert(named_values(v@) =~= named_values(members@));
            Json::Object(v)
        },
    }
}

impl Clone for Json {
    fn clone(&self) -> (r: Self)
        ensures
            r@ == self@,
    {
        copy_json(self)
    }
}

/// The first member of a name.
pub open spec fn find_member(members: Seq<(Seq<char>, Value)>, name: Seq<char>) -> Option<Value>
    decreases members.len(),
{
    if members.len() == 0 {
        None
    } else if members[0].0 == name {
        Some(members[0].1)
    } else {
        find_member(members.drop_first(), name)
    }
}

/// The member of a name, where the value is an object that has one.
pub open spec fn member(v: Value, name: Seq<char>) -> Option<Value> {
    match v {
        Value::Object(ms) => find_member(ms, name),
        _ => None,
    }
}

/// The text of a string.
pub open spec fn text_of(v: Value) -> Option<Seq<char>> {
    match v {
        Value::Str(s) => Some(s),
        _ => None,
    }
}

/// The truth value of a boolean.
pub open spec fn truth_of(v: Value) -> Option<bool> {
    match v {
        Value::Bool(b) => Some(b),
        _ => None,
    }
}

/// The natural number that a number is.
pub open spec fn nat_of(v: Value) -> Option<u64> {
    match v {
        Value::Number(Num::Nat(n)) => Some(n),
        _ => None,
    }
}

/// The elements of an array.
pub open spec fn elements_of(v: Value) -> Option<Seq<Value>> {
    match v {
        Value::Array(items) => Some(items),
        _ => None,
    }
}

impl Json {
    /// The member of a name, where the value is an object that has one.
    pub fn get(&self, name: &str) -> (r: Option<&Json>)
        ensures
            match r {
                Some(j) => member(self@, name@) == Some(j@),
                None => member(self@, name@) is None,
            },
    {
        match self {
            Json::Object(ms) => {
                let mut i: usize = 0;
                let ghost all = named_values(ms@);
                assert(all.skip(0) =~= all);
                while i < ms.len()
                    invariant
                        i <= ms.len(),
                        all == named_values(ms@),
                        member(self@, name@) == find_member(all, name@),
                        find_member(all, name@) == find_member(all.skip(i as int), name@),
                    decreases ms.len() - i,
                {
                    let ghost rest = all.skip(i as int);
                    assert(rest[0] == (ms@[i as int].0@, ms@[i as int].1@));
                    assert(rest.drop_first() =~= all.skip(i + 1));
                    if same(ms[i].0.as_str(), name) {
                        return Some(&ms[i].1);
                    }
                    i = i + 1;
                }
                assert(all.skip(i as int).len() == 0);
                None
            },
            _ => None,
        }
    }

    /// The text of a string.
    pub fn as_str(&self) -> (r: Option<&String>)
        ensures
            match r {
                Some(s) => text_of(self@) == Some(s@),
                None => text_of(self@) is None,
            },
    {
        match self {
            Json::Str(s) => Some(s),
            _ => None,
        }
    }

    /// The truth value of a boolean.
    pub fn as_bool(&self) -> (r: Option<bool>)
        ensures
            r == truth_of(self@),
    {
        match self {
            Json::Bool(b) => Some(*b),
            _ => None,
        }
    }

    /// The natural number that a number is.
    pub fn as_u64(&self) -> (r: Option<u64>)
        ensures
            r == nat_of(self@),
    {
        match self {
            Json::Number(Num::Nat(n)) => Some(*n),
            _ => None,
        }
    }

    /// The elements of an array.
    pub fn as_array(&self) -> (r: Option<&Vec<Json>>)
        ensures
            match r {
                Some(items) => elements_of(self@) == Some(values(items@)),
                None => elements_of(self@) is None,
            },
    {
        match self {
            Json::Array(items) => Some(items),
            _ => None,
        }
    }

    /// Whether the value is an object.
    pub fn is_object(&self) -> (r: bool)
        ensures
            r == (self@ is Object),
    {
        match self {
            Json::Object(_) => true,
            _ => false,
        }
    }

    /// Whether the value is null.
    pub fn is_null(&self) -> (r: bool)
        ensures
            r == (self@ is Null),
    {
        match self {
            Json::Null => true,
            _ => false,
        }
    }
}

/// Adds a member to a list.
pub fn put(ms: &mut Vec<(String, Json)>, name: &str, v: Json)
    ensures
        named_values(final(ms)@) == named_values(old(ms)@).push((name@, v@)),
{
    let ghost ms0 = named_values(ms@);
    let ghost vv = v@;
    ms.push((name.to_owned(), v));
    assert(named_values(ms@) =~= ms0.push((name@, vv)));
}

/// An empty list of members.
pub fn no_members() -> (ms: Vec<(String, Json)>)
    ensures
        named_values(ms@) == Seq::<(Seq<char>, Value)>::empty(),
{
    let ms: Vec<(String, Json)> = Vec::new();
    assert(named_values(ms@) =~= Seq::<(Seq<char>, Value)>::empty());
    ms
}

/// A string as a value.
pub fn text(s: &str) -> (j: Json)
    ensures
        j@ == Value::Str(s@),
{
    Json::Str(s.to_owned())
}

/// A natural number as a value.
pub fn number(n: u64) -> (j: Json)
    ensures
        j@ == Value::Number(Num::Nat(n)),
{
    Json::Number(Num::Nat(n))
}

/// The position of the highest binary digit.
pub open spec fn top_bit(n: nat) -> nat
    decreases n,
{
    if n <= 1 {
        0
    } else {
        1 + top_bit(n / 2)
    }
}

/// The rank, among the double-precision values, of the one nearest to a natural number; of two
/// that are equally near, the one with an even last digit. The rank of a positive value is
/// the number that its encoding spells.
pub open spec fn nat_rank(n: nat) -> int {
    if n == 0 {
        0
    } else {
        let k = top_bit(n);
        if k <= 52 {
            ((k + 1022) * pow2(52) + n * pow2((52 - k) as nat)) as int
        } else {
            let unit = pow2((k - 52) as nat);
            let rest = 2 * (n % unit);
            (k + 1022) * pow2(52) + n / unit + if rest > unit || (rest == unit && (n / unit) % 2
                == 1) {
                1int
            } else {
                0int
            }
        }
    }
}

/// The rank of a whole number.
pub open spec fn num_rank(n: Num) -> int {
    match n {
        Num::Nat(n) => nat_rank(n as nat),
        Num::Neg(i) => if i < 0 {
            -nat_rank((-i) as nat)
        } else {
            nat_rank(i as nat)
        },
    }
}

/// The rank of a number; nothing where a value is none.
pub open spec fn value_rank(v: Value) -> Option<int> {
    match v {
        Value::Number(n) => Some(num_rank(n)),
        Value::Real { rank, .. } => Some(rank as int),
        _ => None,
    }
}

/// The position of the highest binary digit, and the power of two that stands there.
fn top_power(n: u64) -> (r: (u64, u64))
    requires
        n > 0,
    ensures
        r.0 == top_bit(n as nat),
        r.0 < 64,
        r.1 == pow2(r.0 as nat),
        r.1 <= n,
{
    let mut k: u64 = 0;
    let mut p: u64 = 1;
    let mut m: u64 = n;
    proof {
        lemma2_to64();
    }
    while m > 1
        invariant
            m >= 1,
            k < 64,
            top_bit(n as nat) == k + top_bit(m as nat),
            p == pow2(k as nat),
            m * p <= n,
            p >= 1,
        decreases m,
    {
        proof {
            lemma_pow2_unfold((k + 1) as nat);
            let h = m / 2;
            assert(h * (2 * p) <= m * p) by (nonlinear_arith)
                requires
                    2 * h <= m,
                    p >= 1,
            ;
            assert(2 * p <= h * (2 * p)) by (nonlinear_arith)
                requires
                    h >= 1,
                    p >= 1,
            ;
            if k >= 63 {
                lemma2_to64_rest();
                assert(pow2(63) * 2 > u64::MAX);
                pow2_monotone(63, k as nat);
            }
        }
        m = m / 2;
        p = p * 2;
        k = k + 1;
    }
    proof {
        assert(1 * p == p);
    }
    (k, p)
}

proof fn pow2_monotone(a: nat, b: nat)
    requires
        a <= b,
    ensures
        pow2(a) <= pow2(b),
    decreases b - a,
{
    if a < b {
        pow2_monotone(a, (b - 1) as nat);
        lemma_pow2_unfold(b);
        lemma_pow2_pos((b - 1) as nat);
    }
}

/// The quotient of two powers of two.
proof fn pow2_quotient(a: nat, b: nat)
    requires
        b <= a,
    ensures
        pow2(a) / pow2(b) == pow2((a - b) as nat),
        pow2(b) > 0,
{
    lemma_pow2_pos(b);
    lemma_pow2_adds(b, (a - b) as nat);
    let p = pow2(b) as int;
    let q = pow2((a - b) as nat) as int;
    assert((p * q) / p == q) by (nonlinear_arith)
        requires
            p > 0,
    ;
}

/// The rank of a natural number.
fn rank_of_nat(n: u64) -> (r: i64)
    ensures
        r == nat_rank(n as nat),
        r >= 0,
{
    if n == 0 {
        return 0;
    }
    let (k, p) = top_power(n);
    proof {
        lemma2_to64_rest();
        lemma_pow2_pos(k as nat);
    }
    let base: u64 = (k + 1022) * 0x10_0000_0000_0000;
    if k <= 52 {
        let scale: u64 = 0x10_0000_0000_0000 / p;
        proof {
            pow2_quotient(52, k as nat);
            top_bit_bound(n as nat);
            lemma_pow2_unfold((k + 1) as nat);
            lemma_pow2_adds(k as nat, (52 - k) as nat);
            let s = scale as int;
            let pp = p as int;
            assert(n * s <= 2 * (pp * s)) by (nonlinear_arith)
                requires
                    n <= 2 * pp,
                    s >= 0,
            ;
        }
        (base + n * scale) as i64
    } else {
        let unit: u64 = p / 0x10_0000_0000_0000;
        proof {
            pow2_quotient(k as nat, 52);
            lemma_pow2_pos((k - 52) as nat);
            top_bit_bound(n as nat);
            lemma_pow2_unfold((k + 1) as nat);
            lemma_pow2_adds(52, (k - 52) as nat);
            let u = unit as int;
            assert(n / unit < 0x20_0000_0000_0000) by (nonlinear_arith)
                requires
                    n < 0x20_0000_0000_0000 * u,
                    u > 0,
                    unit == u,
            ;
            pow2_monotone((k - 52) as nat, 11);
        }
        let whole: u64 = n / unit;
        let rest: u64 = n % unit;
        assert(rest < unit);
        let twice: u64 = 2 * rest;
        let up: u64 = if twice > unit || (twice == unit && whole % 2 == 1) {
            1
        } else {
            0
        };
        (base + whole + up) as i64
    }
}

proof fn top_bit_bound(n: nat)
    requires
        n > 0,
    ensures
        pow2(top_bit(n)) <= n < pow2(top_bit(n) + 1),
    decreases n,
{
    lemma2_to64();
    if n > 1 {
        top_bit_bound(n / 2);
        lemma_pow2_unfold(top_bit(n));
        lemma_pow2_unfold(top_bit(n) + 1);
    }
}

/// The rank of a whole number.
fn rank(n: &Num) -> (r: i64)
    ensures
        r == num_rank(*n),
{
    match n {
        Num::Nat(n) => rank_of_nat(*n),
        Num::Neg(i) => if *i < 0 {
            let m: u64 = if *i == i64::MIN {
                0x8000_0000_0000_0000
            } else {
                (-*i) as u64
            };
            -rank_of_nat(m)
        } else {
            rank_of_nat(*i as u64)
        },
    }
}

fn json_rank(j: &Json) -> (r: Option<i64>)
    ensures
        match r {
            Some(k) => value_rank(j@) == Some(k as int),
            None => value_rank(j@) is None,
        },
{
    match j {
        Json::Number(n) => Some(rank(n)),
        Json::Real { rank, .. } => Some(*rank),
        _ => None,
    }
}

/// How two values stand to each other: numbers by rank, strings in the lexicographic order,
/// and other pairs not at all.
pub open spec fn value_relation(a: Value, b: Value) -> Option<Rel> {
    match (value_rank(a), value_rank(b)) {
        (Some(x), Some(y)) => if x < y {
            Some(Rel::Before)
        } else if x == y {
            Some(Rel::Same)
        } else {
            Some(Rel::After)
        },
        _ => match (a, b) {
            (Value::Str(x), Value::Str(y)) => if lex_lt(x, y) {
                Some(Rel::Before)
            } else if x == y {
                Some(Rel::Same)
            } else {
                Some(Rel::After)
            },
            _ => None,
        },
    }
}

/// Relates two values.
pub fn relate_values(a: &Json, b: &Json) -> (r: Option<Rel>)
    ensures
        r == value_relation(a@, b@),
{
    match (json_rank(a), json_rank(b)) {
        (Some(x), Some(y)) => if x < y {
            Some(Rel::Before)
        } else if x == y {
            Some(Rel::Same)
        } else {
            Some(Rel::After)
        },
        _ => match (a, b) {
            (Json::Str(x), Json::Str(y)) => Some(relate(x.as_str(), y.as_str())),
            _ => None,
        },
    }
}

} // verus!

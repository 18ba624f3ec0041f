//! Messages about resources. Whether a holding exists, which incarnation it is and whose it is are
//! not theirs to say; a required field that is missing is an error.

use crate::error::joined_text;
use crate::json::{
    find_member, member, named_values, nat_of, no_members, number, put, text, text_of, values,
    Json, Num, Value,
};
use crate::text::{
    debug_of, debug_text, decimal, push_decimal, push_signed, same, signed_decimal,
};
use vstd::prelude::*;

verus! {

/// A holding by its identity and incarnation.
#[derive(Debug, PartialEq, Eq)]
pub struct HoldingRef {
    pub id: u64,
    pub generation: String,
}

/// A request to hold a resource.
pub struct HoldRequest {
    pub class: String,
    pub instance: String,
    pub substrate: Json,
    pub lease_secs: Option<u64>,
}

/// A request to release a holding.
#[derive(Debug, PartialEq, Eq)]
pub struct ReleaseRequest {
    pub holding: HoldingRef,
}

/// A request to renew the lease of a holding.
#[derive(Debug, PartialEq, Eq)]
pub struct RenewRequest {
    pub holding: HoldingRef,
    pub lease_secs: Option<u64>,
}

/// A request about resources.
pub enum ResourceRequest {
    Hold(HoldRequest),
    Release(ReleaseRequest),
    Renew(RenewRequest),
}

/// The answer to a release.
#[derive(Debug, Clone, Copy, PartialEq, Eq, Structural)]
pub struct ReleaseResponse {
    pub released: bool,
}

/// The answer to a renewal.
#[derive(Debug, Clone, Copy, PartialEq, Eq, Structural)]
pub struct RenewResponse {
    pub lease_expires_at: Option<u64>,
}

/// Why a message cannot be read.
#[derive(Debug, PartialEq, Eq)]
pub enum WireError {
    /// A value is of another type than is expected.
    InvalidType { found: String, expected: String },
    /// A value is of the expected type and out of its range.
    InvalidValue { found: String, expected: String },
    /// A message that lists its fields has this many.
    InvalidLength { len: usize, expected: String },
    /// This field is missing.
    Missing(String),
    EmptyGeneration,
    UnknownOp(String),
}

/// Why a message cannot be read.
#[verifier::ext_equal]
pub enum Trouble {
    InvalidType { found: Seq<char>, expected: Seq<char> },
    InvalidValue { found: Seq<char>, expected: Seq<char> },
    InvalidLength { len: nat, expected: Seq<char> },
    Missing(Seq<char>),
    EmptyGeneration,
    UnknownOp(Seq<char>),
}

impl View for WireError {
    type V = Trouble;

    open spec fn view(&self) -> Trouble {
        match self {
            WireError::InvalidType { found, expected } => Trouble::InvalidType {
                found: found@,
                expected: expected@,
            },
            WireError::InvalidValue { found, expected } => Trouble::InvalidValue {
                found: found@,
                expected: expected@,
            },
            WireError::InvalidLength { len, expected } => Trouble::InvalidLength {
                len: *len as nat,
                expected: expected@,
            },
            WireError::Missing(s) => Trouble::Missing(s@),
            WireError::EmptyGeneration => Trouble::EmptyGeneration,
            WireError::UnknownOp(s) => Trouble::UnknownOp(s@),
        }
    }
}

/// The text of an error.
pub open spec fn trouble_text(t: Trouble) -> Seq<char> {
    match t {
        Trouble::InvalidType { found, expected } => "invalid type: "@ + found + ", expected "@
            + expected,
        Trouble::InvalidValue { found, expected } => "invalid value: "@ + found + ", expected "@
            + expected,
        Trouble::InvalidLength { len, expected } => "invalid length "@ + decimal(len)
            + ", expected "@ + expected,
        Trouble::Missing(s) => "missing field `"@ + s + "`"@,
        Trouble::EmptyGeneration => "generation must not be empty"@,
        Trouble::UnknownOp(s) => "unknown variant `"@ + s
            + "`, expected one of `hold`, `release`, `renew`"@,
    }
}

fn joined_three(a: &str, b: &str, c: &str) -> (s: String)
    ensures
        s@ == a@ + b@ + c@,
{
    let mut s: String = joined_text(a, b);
    s.append(c);
    s
}

impl WireError {
    /// The text of the error.
    pub fn message(&self) -> (s: String)
        ensures
            s@ == trouble_text(self@),
    {
        match self {
            WireError::InvalidType { found, expected } => {
                let mut s: String = joined_three("invalid type: ", found.as_str(), ", expected ");
                s.append(expected.as_str());
                s
            },
            WireError::InvalidValue { found, expected } => {
                let mut s: String = joined_three("invalid value: ", found.as_str(), ", expected ");
                s.append(expected.as_str());
                s
            },
            WireError::InvalidLength { len, expected } => {
                let mut s: String = "invalid length ".to_owned();
                push_decimal(&mut s, *len as u64);
                s.append(", expected ");
                s.append(expected.as_str());
                s
            },
            WireError::Missing(f) => joined_three("missing field `", f.as_str(), "`"),
            WireError::EmptyGeneration => "generation must not be empty".to_owned(),
            WireError::UnknownOp(f) => joined_three(
                "unknown variant `",
                f.as_str(),
                "`, expected one of `hold`, `release`, `renew`",
            ),
        }
    }
}

/// How errors name a value.
pub open spec fn found_text(v: Value) -> Seq<char> {
    match v {
        Value::Null => "null"@,
        Value::Bool(b) => if b {
            "boolean `true`"@
        } else {
            "boolean `false`"@
        },
        Value::Number(Num::Nat(n)) => "integer `"@ + decimal(n as nat) + "`"@,
        Value::Number(Num::Neg(i)) => "integer `"@ + signed_decimal(i as int) + "`"@,
        Value::Real { text, .. } => "floating point `"@ + text + "`"@,
        Value::Str(s) => "string "@ + debug_text(s),
        Value::Array(_) => "sequence"@,
        Value::Object(_) => "map"@,
    }
}

fn name_found(j: &Json) -> (s: String)
    ensures
        s@ == found_text(j@),
{
    match j {
        Json::Null => "null".to_owned(),
        Json::Bool(b) => if *b {
            "boolean `true`".to_owned()
        } else {
            "boolean `false`".to_owned()
        },
        Json::Number(Num::Nat(n)) => {
            let mut s: String = "integer `".to_owned();
            push_decimal(&mut s, *n);
            s.append("`");
            s
        },
        Json::Number(Num::Neg(i)) => {
            let mut s: String = "integer `".to_owned();
            push_signed(&mut s, *i);
            s.append("`");
            s
        },
        Json::Real { text, .. } => joined_three("floating point `", text.as_str(), "`"),
        Json::Str(s) => joined_text("string ", debug_of(s.as_str()).as_str()),
        Json::Array(_) => "sequence".to_owned(),
        Json::Object(_) => "map".to_owned(),
    }
}

/// What a field of a message holds.
#[derive(Debug, Clone, Copy, PartialEq, Eq, Structural)]
pub enum Shape {
    Text,
    /// A text that is not empty.
    Generation,
    Number,
    /// A number or null.
    Lease,
    Truth,
    Any,
}

/// A field of a message.
#[derive(Debug, Clone, Copy)]
pub struct Field {
    pub name: &'static str,
    pub shape: Shape,
    pub required: bool,
}

/// A field of a message.
#[verifier::ext_equal]
pub struct Want {
    pub name: Seq<char>,
    pub shape: Shape,
    pub required: bool,
}

impl View for Field {
    type V = Want;

    open spec fn view(&self) -> Want {
        Want { name: self.name@, shape: self.shape, required: self.required }
    }
}

/// The fields of a message.
pub open spec fn wants(fields: Seq<Field>) -> Seq<Want> {
    Seq::new(fields.len(), |i: int| fields[i]@)
}

/// Why a value is not of the type that is expected.
pub open spec fn wrong_type(v: Value, expected: Seq<char>) -> Option<Trouble> {
    Some(Trouble::InvalidType { found: found_text(v), expected })
}

/// Why a value cannot be what a field holds.
pub open spec fn shape_trouble(shape: Shape, v: Value) -> Option<Trouble> {
    match (shape, v) {
        (Shape::Any, _) => None,
        (Shape::Text, Value::Str(_)) => None,
        (Shape::Generation, Value::Str(s)) => if s.len() == 0 {
            Some(Trouble::EmptyGeneration)
        } else {
            None
        },
        (Shape::Text, _) => wrong_type(v, "a string"@),
        (Shape::Generation, _) => wrong_type(v, "a string"@),
        (Shape::Truth, Value::Bool(_)) => None,
        (Shape::Truth, _) => wrong_type(v, "a boolean"@),
        (Shape::Lease, Value::Null) => None,
        (_, Value::Number(Num::Nat(_))) => None,
        (_, Value::Number(Num::Neg(_))) => Some(
            Trouble::InvalidValue { found: found_text(v), expected: "u64"@ },
        ),
        _ => wrong_type(v, "u64"@),
    }
}

fn expected_other(j: &Json, expected: &str) -> (e: WireError)
    ensures
        wrong_type(j@, expected@) == Some(e@),
{
    WireError::InvalidType { found: name_found(j), expected: expected.to_owned() }
}

fn check_shape(shape: Shape, j: &Json) -> (r: Option<WireError>)
    ensures
        match r {
            Some(e) => shape_trouble(shape, j@) == Some(e@),
            None => shape_trouble(shape, j@) is None,
        },
{
    match (shape, j) {
        (Shape::Any, _) => None,
        (Shape::Text, Json::Str(_)) => None,
        (Shape::Generation, Json::Str(s)) => if s.as_str().unicode_len() == 0 {
            Some(WireError::EmptyGeneration)
        } else {
            None
        },
        (Shape::Text, _) => Some(expected_other(j, "a string")),
        (Shape::Generation, _) => Some(expected_other(j, "a string")),
        (Shape::Truth, Json::Bool(_)) => None,
        (Shape::Truth, _) => Some(expected_other(j, "a boolean")),
        (Shape::Lease, Json::Null) => None,
        (_, Json::Number(Num::Nat(_))) => None,
        (_, Json::Number(Num::Neg(_))) => Some(
            WireError::InvalidValue { found: name_found(j), expected: "u64".to_owned() },
        ),
        _ => Some(expected_other(j, "u64")),
    }
}

/// What the field of a name holds; nothing where there is no such field.
pub open spec fn shape_of(form: Seq<Want>, name: Seq<char>) -> Option<Shape>
    decreases form.len(),
{
    if form.len() == 0 {
        None
    } else if form[0].name == name {
        Some(form[0].shape)
    } else {
        shape_of(form.drop_first(), name)
    }
}

fn find_shape(fields: &Vec<Field>, name: &str) -> (r: Option<Shape>)
    ensures
        r == shape_of(wants(fields@), name@),
{
    let ghost form = wants(fields@);
    let mut i: usize = 0;
    assert(form.skip(0) =~= form);
    while i < fields.len()
        invariant
            i <= fields@.len(),
            form == wants(fields@),
            shape_of(form, name@) == shape_of(form.skip(i as int), name@),
        decreases fields.len() - i,
    {
        assert(form.skip(i as int)[0] == fields@[i as int]@);
        assert(form.skip(i as int).drop_first() =~= form.skip(i + 1));
        if same(fields[i].name, name) {
            return Some(fields[i].shape);
        }
        i = i + 1;
    }
    assert(form.skip(i as int).len() == 0);
    None
}

/// Why one of the members cannot be what its field holds; the first one counts. Members that are no
/// fields are passed over.
pub open spec fn members_trouble(form: Seq<Want>, ms: Seq<(Seq<char>, Value)>) -> Option<Trouble>
    decreases ms.len(),
{
    if ms.len() == 0 {
        None
    } else {
        let first = match shape_of(form, ms[0].0) {
            Some(shape) => shape_trouble(shape, ms[0].1),
            None => None,
        };
        match first {
            Some(t) => Some(t),
            None => members_trouble(form, ms.drop_first()),
        }
    }
}

/// The first required field that is missing.
pub open spec fn missing_trouble(form: Seq<Want>, ms: Seq<(Seq<char>, Value)>) -> Option<Trouble>
    decreases form.len(),
{
    if form.len() == 0 {
        None
    } else if form[0].required && find_member(ms, form[0].name) is None {
        Some(Trouble::Missing(form[0].name))
    } else {
        missing_trouble(form.drop_first(), ms)
    }
}

/// Why the members of an object are no message: one is of another type, or a required one is
/// missing. The types come first.
pub open spec fn object_trouble(form: Seq<Want>, ms: Seq<(Seq<char>, Value)>) -> Option<Trouble> {
    match members_trouble(form, ms) {
        Some(t) => Some(t),
        None => missing_trouble(form, ms),
    }
}

/// Why values, from a place on, are not what the fields hold in order.
pub open spec fn items_trouble(
    form: Seq<Want>,
    items: Seq<Value>,
    title: Seq<char>,
    i: nat,
) -> Option<Trouble>
    decreases form.len() - i,
{
    if i >= form.len() {
        None
    } else if i < items.len() {
        match shape_trouble(form[i as int].shape, items[i as int]) {
            Some(t) => Some(t),
            None => items_trouble(form, items, title, i + 1),
        }
    } else if form[i as int].required {
        Some(Trouble::InvalidLength { len: i, expected: title })
    } else {
        items_trouble(form, items, title, i + 1)
    }
}

/// Why a list is no message: it does not list the fields in order, or there is more behind them.
pub open spec fn list_trouble(
    form: Seq<Want>,
    items: Seq<Value>,
    title: Seq<char>,
    fewer: Seq<char>,
) -> Option<Trouble> {
    match items_trouble(form, items, title, 0) {
        Some(t) => Some(t),
        None => if items.len() > form.len() {
            Some(Trouble::InvalidLength { len: items.len(), expected: fewer })
        } else {
            None
        },
    }
}

fn check_object(fields: &Vec<Field>, ms: &Vec<(String, Json)>) -> (r: Option<WireError>)
    ensures
        match r {
            Some(e) => object_trouble(wants(fields@), named_values(ms@)) == Some(e@),
            None => object_trouble(wants(fields@), named_values(ms@)) is None,
        },
{
    let ghost form = wants(fields@);
    let ghost all = named_values(ms@);
    let mut i: usize = 0;
    assert(all.skip(0) =~= all);
    while i < ms.len()
        invariant
            i <= ms@.len(),
            form == wants(fields@),
            all == named_values(ms@),
            members_trouble(form, all) == members_trouble(form, all.skip(i as int)),
        decreases ms.len() - i,
    {
        assert(all.skip(i as int)[0] == (ms@[i as int].0@, ms@[i as int].1@));
        assert(all.skip(i as int).drop_first() =~= all.skip(i + 1));
        if let Some(shape) = find_shape(fields, ms[i].0.as_str()) {
            if let Some(e) = check_shape(shape, &ms[i].1) {
                return Some(e);
            }
        }
        i = i + 1;
    }
    assert(all.skip(i as int).len() == 0);
    let mut k: usize = 0;
    assert(form.skip(0) =~= form);
    while k < fields.len()
        invariant
            k <= fields@.len(),
            form == wants(fields@),
            all == named_values(ms@),
            members_trouble(form, all) is None,
            missing_trouble(form, all) == missing_trouble(form.skip(k as int), all),
        decreases fields.len() - k,
    {
        assert(form.skip(k as int)[0] == fields@[k as int]@);
        assert(form.skip(k as int).drop_first() =~= form.skip(k + 1));
        if fields[k].required && !has_member(ms, fields[k].name) {
            return Some(WireError::Missing(fields[k].name.to_owned()));
        }
        k = k + 1;
    }
    assert(form.skip(k as int).len() == 0);
    None
}

fn has_member(ms: &Vec<(String, Json)>, name: &str) -> (b: bool)
    ensures
        b == (find_member(named_values(ms@), name@) is Some),
{
    let ghost all = named_values(ms@);
    let mut i: usize = 0;
    assert(all.skip(0) =~= all);
    while i < ms.len()
        invariant
            i <= ms@.len(),
            all == named_values(ms@),
            find_member(all, name@) == find_member(all.skip(i as int), name@),
        decreases ms.len() - i,
    {
        assert(all.skip(i as int)[0] == (ms@[i as int].0@, ms@[i as int].1@));
        assert(all.skip(i as int).drop_first() =~= all.skip(i + 1));
        if same(ms[i].0.as_str(), name) {
            return true;
        }
        i = i + 1;
    }
    assert(all.skip(i as int).len() == 0);
    false
}

fn check_list(fields: &Vec<Field>, items: &Vec<Json>, title: &str, fewer: &str) -> (r: Option<
    WireError,
>)
    ensures
        match r {
            Some(e) => list_trouble(wants(fields@), values(items@), title@, fewer@) == Some(e@),
            None => list_trouble(wants(fields@), values(items@), title@, fewer@) is None,
        },
{
    let ghost form = wants(fields@);
    let ghost given = values(items@);
    let mut i: usize = 0;
    while i < fields.len()
        invariant
            i <= fields@.len(),
            form == wants(fields@),
            given == values(items@),
            items_trouble(form, given, title@, 0) == items_trouble(form, given, title@, i as nat),
        decreases fields.len() - i,
    {
        assert(form[i as int] == fields@[i as int]@);
        if i < items.len() {
            assert(given[i as int] == items@[i as int]@);
            if let Some(e) = check_shape(fields[i].shape, &items[i]) {
                return Some(e);
            }
        } else if fields[i].required {
            return Some(WireError::InvalidLength { len: i, expected: title.to_owned() });
        }
        i = i + 1;
    }
    if items.len() > fields.len() {
        return Some(WireError::InvalidLength { len: items.len(), expected: fewer.to_owned() });
    }
    None
}

/// The name of a message, and how errors tell how many fields it lists.
#[verifier::ext_equal]
pub struct Title {
    pub name: Seq<char>,
    pub listed: Seq<char>,
}

/// Why a value is no message: neither an object nor a list of its fields.
pub open spec fn message_trouble(form: Seq<Want>, title: Title, v: Value) -> Option<Trouble> {
    match v {
        Value::Object(ms) => object_trouble(form, ms),
        Value::Array(items) => list_trouble(
            form,
            items,
            title.listed,
            "fewer elements in array"@,
        ),
        _ => wrong_type(v, title.name),
    }
}

fn check_message(fields: &Vec<Field>, name: &str, listed: &str, j: &Json) -> (r: Option<WireError>)
    ensures
        ({
            let out = message_trouble(wants(fields@), Title { name: name@, listed: listed@ }, j@);
            match r {
                Some(e) => out == Some(e@),
                None => out is None,
            }
        }),
{
    match j {
        Json::Object(ms) => check_object(fields, ms),
        Json::Array(items) => check_list(fields, items, listed, "fewer elements in array"),
        _ => Some(expected_other(j, name)),
    }
}

/// Why a value is no message that only an object can be.
pub open spec fn map_trouble(form: Seq<Want>, name: Seq<char>, v: Value) -> Option<Trouble> {
    match v {
        Value::Object(ms) => object_trouble(form, ms),
        _ => wrong_type(v, name),
    }
}

fn check_map(fields: &Vec<Field>, name: &str, j: &Json) -> (r: Option<WireError>)
    ensures
        match r {
            Some(e) => map_trouble(wants(fields@), name@, j@) == Some(e@),
            None => map_trouble(wants(fields@), name@, j@) is None,
        },
{
    match j {
        Json::Object(ms) => check_object(fields, ms),
        _ => Some(expected_other(j, name)),
    }
}

/// The value of a field: by its name in an object, and by its place in a list.
pub open spec fn part(v: Value, name: Seq<char>, i: int) -> Option<Value> {
    match v {
        Value::Array(items) => if 0 <= i < items.len() {
            Some(items[i])
        } else {
            None
        },
        _ => member(v, name),
    }
}

/// The text of a field; empty where it is none.
pub open spec fn part_text(v: Value, name: Seq<char>, i: int) -> Seq<char> {
    match part(v, name, i) {
        Some(x) => match text_of(x) {
            Some(s) => s,
            None => Seq::empty(),
        },
        None => Seq::empty(),
    }
}

/// The number of a field, if it is one.
pub open spec fn part_number(v: Value, name: Seq<char>, i: int) -> Option<u64> {
    match part(v, name, i) {
        Some(x) => nat_of(x),
        None => None,
    }
}

fn find_part<'a>(j: &'a Json, name: &str, i: usize) -> (r: Option<&'a Json>)
    ensures
        match r {
            Some(x) => part(j@, name@, i as int) == Some(x@),
            None => part(j@, name@, i as int) is None,
        },
{
    match j {
        Json::Array(items) => {
            assert(j@ == Value::Array(values(items@)));
            if i < items.len() {
                assert(values(items@)[i as int] == items@[i as int]@);
                Some(&items[i])
            } else {
                None
            }
        },
        _ => j.get(name),
    }
}

fn read_text(j: &Json, name: &str, i: usize) -> (s: String)
    ensures
        s@ == part_text(j@, name@, i as int),
{
    match find_part(j, name, i) {
        Some(x) => match x.as_str() {
            Some(s) => s.clone(),
            None => String::new(),
        },
        None => String::new(),
    }
}

fn read_number(j: &Json, name: &str, i: usize) -> (r: Option<u64>)
    ensures
        r == part_number(j@, name@, i as int),
{
    match find_part(j, name, i) {
        Some(x) => x.as_u64(),
        None => None,
    }
}

/// A holding by its identity and incarnation.
#[verifier::ext_equal]
pub struct Ref {
    pub id: u64,
    pub generation: Seq<char>,
}

/// A request about resources.
#[verifier::ext_equal]
pub enum Request {
    Hold { class: Seq<char>, instance: Seq<char>, substrate: Value, lease_secs: Option<u64> },
    Release(Ref),
    Renew(Ref, Option<u64>),
}

impl View for HoldingRef {
    type V = Ref;

    open spec fn view(&self) -> Ref {
        Ref { id: self.id, generation: self.generation@ }
    }
}

impl View for ResourceRequest {
    type V = Request;

    open spec fn view(&self) -> Request {
        match self {
            ResourceRequest::Hold(r) => Request::Hold {
                class: r.class@,
                instance: r.instance@,
                substrate: r.substrate@,
                lease_secs: r.lease_secs,
            },
            ResourceRequest::Release(r) => Request::Release(r.holding@),
            ResourceRequest::Renew(r) => Request::Renew(r.holding@, r.lease_secs),
        }
    }
}

/// The fields that name a holding.
pub open spec fn ref_form() -> Seq<Want> {
    seq![
        Want { name: "id"@, shape: Shape::Number, required: true },
        Want { name: "generation"@, shape: Shape::Generation, required: true },
    ]
}

/// The fields of a request to hold.
pub open spec fn hold_form() -> Seq<Want> {
    seq![
        Want { name: "class"@, shape: Shape::Text, required: true },
        Want { name: "instance"@, shape: Shape::Text, required: true },
        Want { name: "substrate"@, shape: Shape::Any, required: true },
        Want { name: "lease_secs"@, shape: Shape::Lease, required: false },
    ]
}

/// The field of a request to renew that stands beside the holding.
pub open spec fn lease_form() -> Seq<Want> {
    seq![Want { name: "lease_secs"@, shape: Shape::Lease, required: false }]
}

/// The field of an answer to a release.
pub open spec fn released_form() -> Seq<Want> {
    seq![Want { name: "released"@, shape: Shape::Truth, required: true }]
}

/// The field of an answer to a renewal.
pub open spec fn expiry_form() -> Seq<Want> {
    seq![Want { name: "lease_expires_at"@, shape: Shape::Lease, required: true }]
}

fn ref_fields() -> (f: Vec<Field>)
    ensures
        wants(f@) == ref_form(),
{
    let f: Vec<Field> = vec![
        Field { name: "id", shape: Shape::Number, required: true },
        Field { name: "generation", shape: Shape::Generation, required: true },
    ];
    assert(wants(f@) =~= ref_form());
    f
}

fn hold_fields() -> (f: Vec<Field>)
    ensures
        wants(f@) == hold_form(),
{
    let f: Vec<Field> = vec![
        Field { name: "class", shape: Shape::Text, required: true },
        Field { name: "instance", shape: Shape::Text, required: true },
        Field { name: "substrate", shape: Shape::Any, required: true },
        Field { name: "lease_secs", shape: Shape::Lease, required: false },
    ];
    assert(wants(f@) =~= hold_form());
    f
}

fn one_field(name: &'static str, shape: Shape, required: bool) -> (f: Vec<Field>)
    ensures
        wants(f@) == seq![Want { name: name@, shape, required }],
{
    let f: Vec<Field> = vec![Field { name, shape, required }];
    assert(wants(f@) =~= seq![Want { name: name@, shape, required }]);
    f
}

/// The holding that the fields of a message name.
pub open spec fn named_ref(v: Value) -> Ref {
    Ref {
        id: match part_number(v, "id"@, 0) {
            Some(n) => n,
            None => 0,
        },
        generation: part_text(v, "generation"@, 1),
    }
}

fn read_ref(j: &Json) -> (h: HoldingRef)
    ensures
        h@ == named_ref(j@),
{
    let id: u64 = match read_number(j, "id", 0) {
        Some(n) => n,
        None => 0,
    };
    HoldingRef { id, generation: read_text(j, "generation", 1) }
}

/// The holding that a message names.
pub open spec fn ref_in(v: Value) -> Result<Ref, Trouble> {
    let title = Title { name: "struct HoldingRef"@, listed: "struct HoldingRef with 2 elements"@ };
    match message_trouble(ref_form(), title, v) {
        Some(t) => Err(t),
        None => Ok(named_ref(v)),
    }
}

/// The holding that a message asks to release. Its fields stand in an object.
pub open spec fn release_in(v: Value) -> Result<Ref, Trouble> {
    match map_trouble(ref_form(), "struct ReleaseRequest"@, v) {
        Some(t) => Err(t),
        None => Ok(named_ref(v)),
    }
}

/// The holding that a message asks to renew, and for how long. The lease is read before the
/// holding.
pub open spec fn renew_in(v: Value) -> Result<(Ref, Option<u64>), Trouble> {
    match map_trouble(lease_form(), "struct RenewRequest"@, v) {
        Some(t) => Err(t),
        None => match map_trouble(ref_form(), "struct RenewRequest"@, v) {
            Some(t) => Err(t),
            None => Ok((named_ref(v), part_number(v, "lease_secs"@, 2))),
        },
    }
}

/// What the fields of a message ask to hold.
pub open spec fn named_hold(v: Value) -> Request {
    Request::Hold {
        class: part_text(v, "class"@, 0),
        instance: part_text(v, "instance"@, 1),
        substrate: match part(v, "substrate"@, 2) {
            Some(x) => x,
            None => Value::Null,
        },
        lease_secs: part_number(v, "lease_secs"@, 3),
    }
}

/// How errors tell how many fields a request to hold lists.
pub open spec fn hold_listed() -> Seq<char> {
    "struct HoldRequest with 4 elements"@
}

/// What a message asks to hold.
pub open spec fn hold_in(v: Value) -> Result<Request, Trouble> {
    let title = Title { name: "struct HoldRequest"@, listed: hold_listed() };
    match message_trouble(hold_form(), title, v) {
        Some(t) => Err(t),
        None => Ok(named_hold(v)),
    }
}

/// The request that the fields of an operation make. A list of fields is a request to hold or
/// none.
pub open spec fn op_request(op: Value, fields: Value) -> Result<Request, Trouble> {
    match op {
        Value::Str(name) => if name == "hold"@ {
            match fields {
                Value::Array(items) => match list_trouble(
                    hold_form(),
                    items,
                    hold_listed(),
                    "4 elements in sequence"@,
                ) {
                    Some(t) => Err(t),
                    None => Ok(named_hold(fields)),
                },
                _ => hold_in(fields),
            }
        } else if name == "release"@ {
            match release_in(fields) {
                Err(t) => Err(t),
                Ok(r) => Ok(Request::Release(r)),
            }
        } else if name == "renew"@ {
            match renew_in(fields) {
                Err(t) => Err(t),
                Ok((r, lease)) => Ok(Request::Renew(r, lease)),
            }
        } else {
            Err(Trouble::UnknownOp(name))
        },
        _ => Err(
            Trouble::InvalidType { found: found_text(op), expected: "variant identifier"@ },
        ),
    }
}

/// The request that a message makes: an object with its operation among its members, or a list with
/// its operation before its fields.
pub open spec fn request_in(v: Value) -> Result<Request, Trouble> {
    match v {
        Value::Object(ms) => match find_member(ms, "op"@) {
            None => Err(Trouble::Missing("op"@)),
            Some(op) => op_request(op, v),
        },
        Value::Array(items) => if items.len() == 0 {
            Err(Trouble::Missing("op"@))
        } else {
            op_request(items[0], Value::Array(items.skip(1)))
        },
        _ => Err(
            Trouble::InvalidType {
                found: found_text(v),
                expected: "internally tagged enum ResourceRequest"@,
            },
        ),
    }
}

impl HoldingRef {
    /// The holding that a message names.
    pub fn from_json(j: &Json) -> (r: Result<Self, WireError>)
        ensures
            match r {
                Ok(h) => ref_in(j@) == Ok::<Ref, Trouble>(h@),
                Err(e) => ref_in(j@) == Err::<Ref, Trouble>(e@),
            },
    {
        match check_message(
            &ref_fields(),
            "struct HoldingRef",
            "struct HoldingRef with 2 elements",
            j,
        ) {
            Some(e) => Err(e),
            None => Ok(read_ref(j)),
        }
    }
}

impl ReleaseRequest {
    /// The holding that a message asks to release.
    pub fn from_json(j: &Json) -> (r: Result<Self, WireError>)
        ensures
            match r {
                Ok(q) => release_in(j@) == Ok::<Ref, Trouble>(q.holding@),
                Err(e) => release_in(j@) == Err::<Ref, Trouble>(e@),
            },
    {
        match check_map(&ref_fields(), "struct ReleaseRequest", j) {
            Some(e) => Err(e),
            None => Ok(ReleaseRequest { holding: read_ref(j) }),
        }
    }
}

impl RenewRequest {
    /// The holding that a message asks to renew, and for how long.
    pub fn from_json(j: &Json) -> (r: Result<Self, WireError>)
        ensures
            match r {
                Ok(q) => renew_in(j@) == Ok::<(Ref, Option<u64>), Trouble>(
                    (q.holding@, q.lease_secs),
                ),
                Err(e) => renew_in(j@) == Err::<(Ref, Option<u64>), Trouble>(e@),
            },
    {
        if let Some(e) = check_map(
            &one_field("lease_secs", Shape::Lease, false),
            "struct RenewRequest",
            j,
        ) {
            return Err(e);
        }
        match check_map(&ref_fields(), "struct RenewRequest", j) {
            Some(e) => Err(e),
            None => Ok(
                RenewRequest { holding: read_ref(j), lease_secs: read_number(j, "lease_secs", 2) },
            ),
        }
    }
}

impl HoldRequest {
    /// What a message asks to hold.
    pub fn from_json(j: &Json) -> (r: Result<Self, WireError>)
        ensures
            match r {
                Ok(q) => hold_in(j@) == Ok::<Request, Trouble>(ResourceRequest::Hold(q)@),
                Err(e) => hold_in(j@) == Err::<Request, Trouble>(e@),
            },
    {
        match check_message(
            &hold_fields(),
            "struct HoldRequest",
            "struct HoldRequest with 4 elements",
            j,
        ) {
            Some(e) => Err(e),
            None => Ok(read_hold(j)),
        }
    }
}

fn read_hold(j: &Json) -> (q: HoldRequest)
    ensures
        named_hold(j@) == ResourceRequest::Hold(q)@,
{
    let substrate: Json = match find_part(j, "substrate", 2) {
        Some(x) => x.clone(),
        None => Json::Null,
    };
    HoldRequest {
        class: read_text(j, "class", 0),
        instance: read_text(j, "instance", 1),
        substrate,
        lease_secs: read_number(j, "lease_secs", 3),
    }
}

fn read_op(op: &Json, fields: &Json) -> (r: Result<ResourceRequest, WireError>)
    ensures
        match r {
            Ok(q) => op_request(op@, fields@) == Ok::<Request, Trouble>(q@),
            Err(e) => op_request(op@, fields@) == Err::<Request, Trouble>(e@),
        },
{
    let name: &String = match op {
        Json::Str(s) => s,
        _ => {
            return Err(expected_other(op, "variant identifier"));
        },
    };
    if same(name.as_str(), "hold") {
        if let Json::Array(items) = fields {
            return match check_list(
                &hold_fields(),
                items,
                "struct HoldRequest with 4 elements",
                "4 elements in sequence",
            ) {
                Some(e) => Err(e),
                None => Ok(ResourceRequest::Hold(read_hold(fields))),
            };
        }
        match HoldRequest::from_json(fields) {
            Err(e) => Err(e),
            Ok(q) => Ok(ResourceRequest::Hold(q)),
        }
    } else if same(name.as_str(), "release") {
        match ReleaseRequest::from_json(fields) {
            Err(e) => Err(e),
            Ok(q) => Ok(ResourceRequest::Release(q)),
        }
    } else if same(name.as_str(), "renew") {
        match RenewRequest::from_json(fields) {
            Err(e) => Err(e),
            Ok(q) => Ok(ResourceRequest::Renew(q)),
        }
    } else {
        Err(WireError::UnknownOp(name.clone()))
    }
}

impl ResourceRequest {
    /// The request that a message makes.
    pub fn from_json(j: &Json) -> (r: Result<Self, WireError>)
        ensures
            match r {
                Ok(q) => request_in(j@) == Ok::<Request, Trouble>(q@),
                Err(e) => request_in(j@) == Err::<Request, Trouble>(e@),
            },
    {
        match j {
            Json::Object(_) => match j.get("op") {
                None => Err(WireError::Missing("op".to_owned())),
                Some(op) => read_op(op, j),
            },
            Json::Array(items) => {
                if items.len() == 0 {
                    return Err(WireError::Missing("op".to_owned()));
                }
                let mut rest: Vec<Json> = Vec::new();
                let mut i: usize = 1;
                while i < items.len()
                    invariant
                        1 <= i <= items@.len(),
                        rest@.len() == i - 1,
                        forall|k: int| 0 <= k < i - 1 ==> (#[trigger] rest@[k])@ == items@[k + 1]@,
                    decreases items.len() - i,
                {
                    rest.push(items[i].clone());
                    i = i + 1;
                }
                assert(values(rest@) =~= values(items@).skip(1));
                assert(values(items@)[0] == items@[0]@);
                let fields = Json::Array(rest);
                assert(fields@ == Value::Array(values(items@).skip(1)));
                read_op(&items[0], &fields)
            },
            _ => Err(expected_other(j, "internally tagged enum ResourceRequest")),
        }
    }

    /// The message of a request.
    pub fn to_json(&self) -> (j: Json)
        ensures
            j@ == request_value(self@),
    {
        let mut ms: Vec<(String, Json)> = no_members();
        match self {
            ResourceRequest::Hold(r) => {
                put(&mut ms, "op", text("hold"));
                put(&mut ms, "class", text(r.class.as_str()));
                put(&mut ms, "instance", text(r.instance.as_str()));
                put(&mut ms, "substrate", r.substrate.clone());
                if let Some(n) = r.lease_secs {
                    put(&mut ms, "lease_secs", number(n));
                }
            },
            ResourceRequest::Release(r) => {
                put(&mut ms, "op", text("release"));
                put(&mut ms, "id", number(r.holding.id));
                put(&mut ms, "generation", text(r.holding.generation.as_str()));
            },
            ResourceRequest::Renew(r) => {
                put(&mut ms, "op", text("renew"));
                put(&mut ms, "id", number(r.holding.id));
                put(&mut ms, "generation", text(r.holding.generation.as_str()));
                if let Some(n) = r.lease_secs {
                    put(&mut ms, "lease_secs", number(n));
                }
            },
        }
        assert(named_values(ms@) =~= request_members(self@));
        let j = Json::Object(ms);
        assert(j@ == Value::Object(named_values(ms@)));
        j
    }
}

/// A lease as a member, if it is there.
pub open spec fn lease_member(lease_secs: Option<u64>) -> Seq<(Seq<char>, Value)> {
    match lease_secs {
        Some(n) => seq![("lease_secs"@, Value::Number(Num::Nat(n)))],
        None => Seq::empty(),
    }
}

/// The members of the message of a request.
pub open spec fn request_members(r: Request) -> Seq<(Seq<char>, Value)> {
    match r {
        Request::Hold { class, instance, substrate, lease_secs } => seq![
            ("op"@, Value::Str("hold"@)),
            ("class"@, Value::Str(class)),
            ("instance"@, Value::Str(instance)),
            ("substrate"@, substrate),
        ] + lease_member(lease_secs),
        Request::Release(h) => seq![
            ("op"@, Value::Str("release"@)),
            ("id"@, Value::Number(Num::Nat(h.id))),
            ("generation"@, Value::Str(h.generation)),
        ],
        Request::Renew(h, lease_secs) => seq![
            ("op"@, Value::Str("renew"@)),
            ("id"@, Value::Number(Num::Nat(h.id))),
            ("generation"@, Value::Str(h.generation)),
        ] + lease_member(lease_secs),
    }
}

/// The message of a request.
pub open spec fn request_value(r: Request) -> Value {
    Value::Object(request_members(r))
}

proof fn ops_differ()
    ensures
        "hold"@ != "release"@,
        "hold"@ != "renew"@,
        "release"@ != "renew"@,
{
    reveal_strlit("hold");
    reveal_strlit("release");
    reveal_strlit("renew");
    assert("hold"@.len() == 4);
    assert("release"@.len() == 7);
    assert("renew"@.len() == 5);
}

proof fn fields_differ()
    ensures
        "op"@ != "class"@,
        "op"@ != "instance"@,
        "op"@ != "substrate"@,
        "op"@ != "lease_secs"@,
        "op"@ != "id"@,
        "op"@ != "generation"@,
        "class"@ != "instance"@,
        "class"@ != "substrate"@,
        "class"@ != "lease_secs"@,
        "instance"@ != "substrate"@,
        "instance"@ != "lease_secs"@,
        "substrate"@ != "lease_secs"@,
        "id"@ != "generation"@,
        "id"@ != "lease_secs"@,
        "generation"@ != "lease_secs"@,
{
    reveal_strlit("op");
    reveal_strlit("class");
    reveal_strlit("instance");
    reveal_strlit("substrate");
    reveal_strlit("lease_secs");
    reveal_strlit("id");
    reveal_strlit("generation");
    assert("op"@.len() == 2);
    assert("class"@.len() == 5);
    assert("instance"@.len() == 8);
    assert("substrate"@.len() == 9);
    assert("lease_secs"@.len() == 10);
    assert("id"@.len() == 2);
    assert("generation"@.len() == 10);
    assert("op"@[0] == 'o');
    assert("id"@[0] == 'i');
    assert("lease_secs"@[0] == 'l');
    assert("generation"@[0] == 'g');
}

proof fn found_at(ms: Seq<(Seq<char>, Value)>, name: Seq<char>, i: int)
    requires
        0 <= i < ms.len(),
        ms[i].0 == name,
        forall|k: int| 0 <= k < i ==> (#[trigger] ms[k]).0 != name,
    ensures
        find_member(ms, name) == Some(ms[i].1),
    decreases ms.len(),
{
    if i > 0 {
        assert(ms[0].0 != name);
        assert forall|k: int| 0 <= k < i - 1 implies (#[trigger] ms.drop_first()[k]).0 != name by {
            assert(ms.drop_first()[k] == ms[k + 1]);
        }
        assert(ms.drop_first()[i - 1] == ms[i]);
        found_at(ms.drop_first(), name, i - 1);
    }
}

proof fn not_found(ms: Seq<(Seq<char>, Value)>, name: Seq<char>)
    requires
        forall|k: int| 0 <= k < ms.len() ==> (#[trigger] ms[k]).0 != name,
    ensures
        find_member(ms, name) is None,
    decreases ms.len(),
{
    if ms.len() > 0 {
        assert(ms[0].0 != name);
        assert forall|k: int| 0 <= k < ms.drop_first().len() implies (
        #[trigger] ms.drop_first()[k]).0 != name by {
            assert(ms.drop_first()[k] == ms[k + 1]);
        }
        not_found(ms.drop_first(), name);
    }
}

/// A request that was written is read back as it was, as long as it names an incarnation.
pub proof fn request_round_trip(r: Request)
    requires
        match r {
            Request::Hold { .. } => true,
            Request::Release(h) => h.generation.len() > 0,
            Request::Renew(h, _) => h.generation.len() > 0,
        },
    ensures
        request_in(request_value(r)) == Ok::<Request, Trouble>(r),
{
    let ms = request_members(r);
    fields_differ();
    ops_differ();
    reveal_with_fuel(shape_of, 5);
    reveal_with_fuel(members_trouble, 6);
    reveal_with_fuel(missing_trouble, 5);
    found_at(ms, "op"@, 0);
    match r {
        Request::Hold { class, instance, substrate, lease_secs } => {
            found_at(ms, "class"@, 1);
            found_at(ms, "instance"@, 2);
            found_at(ms, "substrate"@, 3);
            if lease_secs is Some {
                found_at(ms, "lease_secs"@, 4);
            } else {
                not_found(ms, "lease_secs"@);
            }
        },
        Request::Release(h) => {
            found_at(ms, "id"@, 1);
            found_at(ms, "generation"@, 2);
        },
        Request::Renew(h, lease_secs) => {
            found_at(ms, "id"@, 1);
            found_at(ms, "generation"@, 2);
            if lease_secs is Some {
                found_at(ms, "lease_secs"@, 3);
            } else {
                not_found(ms, "lease_secs"@);
            }
        },
    }
}

/// The answer to a release that a message gives.
pub open spec fn released_in(v: Value) -> Result<bool, Trouble> {
    let title = Title {
        name: "struct ReleaseResponse"@,
        listed: "struct ReleaseResponse with 1 element"@,
    };
    match message_trouble(released_form(), title, v) {
        Some(t) => Err(t),
        None => Ok(part(v, "released"@, 0) == Some(Value::Bool(true))),
    }
}

impl ReleaseResponse {
    /// The answer that a message gives.
    pub fn from_json(j: &Json) -> (r: Result<Self, WireError>)
        ensures
            match r {
                Ok(a) => released_in(j@) == Ok::<bool, Trouble>(a.released),
                Err(e) => released_in(j@) == Err::<bool, Trouble>(e@),
            },
    {
        match check_message(
            &one_field("released", Shape::Truth, true),
            "struct ReleaseResponse",
            "struct ReleaseResponse with 1 element",
            j,
        ) {
            Some(e) => Err(e),
            None => {
                let released: bool = match find_part(j, "released", 0) {
                    Some(Json::Bool(b)) => *b,
                    _ => false,
                };
                Ok(ReleaseResponse { released })
            },
        }
    }
}

/// The answer to a renewal that a message gives. A lease without an end is null; a field that is
/// missing is an error.
pub open spec fn expiry_in(v: Value) -> Result<Option<u64>, Trouble> {
    let title = Title {
        name: "struct RenewResponse"@,
        listed: "struct RenewResponse with 1 element"@,
    };
    match message_trouble(expiry_form(), title, v) {
        Some(t) => Err(t),
        None => Ok(part_number(v, "lease_expires_at"@, 0)),
    }
}

impl RenewResponse {
    /// The answer that a message gives.
    pub fn from_json(j: &Json) -> (r: Result<Self, WireError>)
        ensures
            match r {
                Ok(a) => expiry_in(j@) == Ok::<Option<u64>, Trouble>(a.lease_expires_at),
                Err(e) => expiry_in(j@) == Err::<Option<u64>, Trouble>(e@),
            },
    {
        match check_message(
            &one_field("lease_expires_at", Shape::Lease, true),
            "struct RenewResponse",
            "struct RenewResponse with 1 element",
            j,
        ) {
            Some(e) => Err(e),
            None => Ok(
                RenewResponse { lease_expires_at: read_number(j, "lease_expires_at", 0) },
            ),
        }
    }
}

} // verus!

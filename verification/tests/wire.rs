use portos_kernel::json::{Json, Num};
use portos_kernel::wire::{
    HoldRequest, HoldingRef, ReleaseRequest, ReleaseResponse, RenewRequest, RenewResponse,
    ResourceRequest, WireError,
};

fn json(text: &str) -> Json {
    convert(&serde_json::from_str(text).unwrap())
}

fn convert(v: &serde_json::Value) -> Json {
    match v {
        serde_json::Value::Null => Json::Null,
        serde_json::Value::Bool(b) => Json::Bool(*b),
        serde_json::Value::Number(n) => match (n.as_u64(), n.as_i64(), n.as_f64()) {
            (Some(k), _, _) => Json::Number(Num::Nat(k)),
            (_, Some(k), _) => Json::Number(Num::Neg(k)),
            (_, _, f) => Json::Real { rank: f.unwrap().to_bits() as i64, text: n.to_string() },
        },
        serde_json::Value::String(s) => Json::Str(s.clone()),
        serde_json::Value::Array(a) => Json::Array(a.iter().map(convert).collect()),
        serde_json::Value::Object(m) => {
            Json::Object(m.iter().map(|(k, v)| (k.clone(), convert(v))).collect())
        }
    }
}

fn back(j: &Json) -> serde_json::Value {
    match j {
        Json::Null => serde_json::Value::Null,
        Json::Bool(b) => serde_json::Value::Bool(*b),
        Json::Number(Num::Nat(n)) => serde_json::Value::from(*n),
        Json::Number(Num::Neg(n)) => serde_json::Value::from(*n),
        Json::Real { text, .. } => serde_json::from_str(text).unwrap(),
        Json::Str(s) => serde_json::Value::String(s.clone()),
        Json::Array(a) => serde_json::Value::Array(a.iter().map(back).collect()),
        Json::Object(m) => {
            serde_json::Value::Object(m.iter().map(|(k, v)| (k.clone(), back(v))).collect())
        }
    }
}

#[test]
fn existing_requests_round_trip_and_missing_identity_is_rejected() {
    let cases = [
        r#"{"op":"hold","class":"kernel/port","instance":"tcp:1234","substrate":{}}"#,
        r#"{"op":"release","id":0,"generation":"旧世代"}"#,
        r#"{"op":"renew","id":3,"generation":"g","lease_secs":0}"#,
    ];
    for text in cases {
        let value: serde_json::Value = serde_json::from_str(text).unwrap();
        let request = ResourceRequest::from_json(&convert(&value)).unwrap();
        assert_eq!(back(&request.to_json()), value);
    }
    for text in [
        r#"{"op":"release","generation":"g"}"#,
        r#"{"op":"renew","id":0}"#,
        r#"{"op":"release","id":0,"generation":""}"#,
        r#"{"op":"hold","class":"x","instance":"i"}"#,
        r#"{"op":"renew","id":0,"generation":"g","lease_secs":"2"}"#,
    ] {
        assert!(ResourceRequest::from_json(&json(text)).is_err());
    }
}

#[test]
fn responses_require_fields_even_when_expiry_is_null() {
    assert!(HoldingRef::from_json(&json(r#"{"id":0}"#)).is_err());
    assert!(ReleaseResponse::from_json(&json("{}")).is_err());
    assert!(RenewResponse::from_json(&json("{}")).is_err());
    assert_eq!(
        RenewResponse::from_json(&json(r#"{"lease_expires_at":null}"#)).unwrap().lease_expires_at,
        None
    );
}

#[test]
fn each_trouble_is_told_apart() {
    let trouble = |t: &str| match ResourceRequest::from_json(&json(t)) {
        Ok(_) => panic!("{t}"),
        Err(e) => e,
    };
    assert_eq!(trouble("{}"), WireError::Missing("op".to_string()));
    assert_eq!(trouble("[]"), WireError::Missing("op".to_string()));
    assert_eq!(
        trouble(r#"{"op":1}"#),
        WireError::InvalidType {
            found: "integer `1`".to_string(),
            expected: "variant identifier".to_string(),
        }
    );
    assert_eq!(trouble(r#"{"op":"steal"}"#), WireError::UnknownOp("steal".to_string()));
    assert_eq!(
        trouble(r#"{"op":"release","id":1,"generation":""}"#),
        WireError::EmptyGeneration
    );
    let text = |t: &str| trouble(t).message();
    assert_eq!(text("{}"), "missing field `op`");
    assert_eq!(
        text("null"),
        "invalid type: null, expected internally tagged enum ResourceRequest"
    );
    assert_eq!(
        text(r#"{"op":"steal"}"#),
        "unknown variant `steal`, expected one of `hold`, `release`, `renew`"
    );
    assert_eq!(
        text(r#"{"op":"release","id":1,"generation":""}"#),
        "generation must not be empty"
    );
    assert_eq!(
        text(r#"["release",1,"g"]"#),
        "invalid type: sequence, expected struct ReleaseRequest"
    );
    assert_eq!(
        text(r#"["hold","c","i"]"#),
        "invalid length 2, expected struct HoldRequest with 4 elements"
    );
    assert_eq!(
        text(r#"["hold","c","i",{},1,2]"#),
        "invalid length 5, expected 4 elements in sequence"
    );
}

#[test]
fn a_wrong_type_is_told_before_a_missing_field() {
    let hold = |t: &str| HoldRequest::from_json(&json(t)).err().unwrap().message();
    assert_eq!(
        hold(r#"{"lease_secs":"2"}"#),
        "invalid type: string \"2\", expected u64"
    );
    // Members are read in their order.
    assert_eq!(
        hold(r#"{"class":1,"instance":false}"#),
        "invalid type: integer `1`, expected a string"
    );
    assert_eq!(hold(r#"{"instance":"i"}"#), "missing field `class`");
    assert_eq!(hold(r#"{"class":"c","instance":"i"}"#), "missing field `substrate`");
    assert_eq!(hold("3"), "invalid type: integer `3`, expected struct HoldRequest");
    assert_eq!(hold(r#"["c","i",{},1,2]"#), "invalid length 5, expected fewer elements in array");
    let renew = |t: &str| RenewRequest::from_json(&json(t)).err().unwrap().message();
    // The lease is read before the holding.
    assert_eq!(
        renew(r#"{"generation":1,"lease_secs":-2}"#),
        "invalid value: integer `-2`, expected u64"
    );
    assert_eq!(renew(r#"{"generation":1}"#), "invalid type: integer `1`, expected a string");
    assert_eq!(renew("[]"), "invalid type: sequence, expected struct RenewRequest");
    let release = |t: &str| ReleaseRequest::from_json(&json(t)).err().unwrap().message();
    assert_eq!(release(r#"{"generation":"g"}"#), "missing field `id`");
    assert_eq!(
        release(r#"{"generation":"","id":"x"}"#),
        "generation must not be empty"
    );
    assert_eq!(
        release(r#"{"generation":"g","id":1.5}"#),
        "invalid type: floating point `1.5`, expected u64"
    );
}

#[test]
fn values_are_named_as_serde_names_them() {
    for text in [
        "null", "true", "false", "-1", "-9223372036854775808", "1.5", "1.0", "1e300", "-0.0",
        "\"a\\n\u{e9}'\"", "[]", "[1]", "{}",
    ] {
        let value: serde_json::Value = serde_json::from_str(text).unwrap();
        let mut number = serde_json::Map::new();
        number.insert("id".to_string(), value.clone());
        number.insert("generation".to_string(), serde_json::Value::from("g"));
        let e = HoldingRef::from_json(&convert(&serde_json::Value::Object(number))).unwrap_err();
        let said = serde_json::from_value::<u64>(value.clone()).unwrap_err().to_string();
        assert_eq!(e.message(), said, "{text}");
        let mut released = serde_json::Map::new();
        released.insert("released".to_string(), value.clone());
        let seen = ReleaseResponse::from_json(&convert(&serde_json::Value::Object(released)));
        match serde_json::from_value::<bool>(value.clone()) {
            Ok(b) => assert_eq!(seen.unwrap().released, b),
            Err(said) => assert_eq!(seen.unwrap_err().message(), said.to_string()),
        }
        let mut class = serde_json::Map::new();
        class.insert("class".to_string(), value.clone());
        let seen = HoldRequest::from_json(&convert(&serde_json::Value::Object(class)));
        let told = seen.err().unwrap().message();
        match serde_json::from_value::<String>(value.clone()) {
            Ok(_) => assert_eq!(told, "missing field `instance`"),
            Err(said) => assert_eq!(told, said.to_string()),
        }
        let mut expiry = serde_json::Map::new();
        expiry.insert("lease_expires_at".to_string(), value.clone());
        let seen = RenewResponse::from_json(&convert(&serde_json::Value::Object(expiry)));
        match serde_json::from_value::<Option<u64>>(value) {
            Ok(n) => assert_eq!(seen.unwrap().lease_expires_at, n),
            Err(said) => assert_eq!(seen.unwrap_err().message(), said.to_string()),
        }
    }
}

#[test]
fn fields_can_be_listed_in_order() {
    let h = HoldingRef::from_json(&json(r#"[3,"g"]"#)).unwrap();
    assert_eq!((h.id, h.generation.as_str()), (3, "g"));
    let e = HoldingRef::from_json(&json("[3]")).unwrap_err();
    assert_eq!(e.message(), "invalid length 1, expected struct HoldingRef with 2 elements");
    let e = HoldingRef::from_json(&json(r#"[3,"g",4]"#)).unwrap_err();
    assert_eq!(e.message(), "invalid length 3, expected fewer elements in array");
    assert!(ReleaseResponse::from_json(&json("[true]")).unwrap().released);
    assert_eq!(
        ReleaseResponse::from_json(&json("[]")).unwrap_err().message(),
        "invalid length 0, expected struct ReleaseResponse with 1 element"
    );
    assert_eq!(
        RenewResponse::from_json(&json("[7]")).unwrap().lease_expires_at,
        Some(7)
    );
    assert_eq!(RenewResponse::from_json(&json("[null]")).unwrap().lease_expires_at, None);
    match ResourceRequest::from_json(&json(r#"["hold","c","i",{"pid":1}]"#)) {
        Ok(ResourceRequest::Hold(q)) => {
            assert_eq!((q.class.as_str(), q.instance.as_str(), q.lease_secs), ("c", "i", None));
            assert_eq!(back(&q.substrate), back(&json(r#"{"pid":1}"#)));
        }
        _ => panic!(),
    }
    match HoldRequest::from_json(&json(r#"["c","i",null,9]"#)) {
        Ok(q) => assert_eq!(q.lease_secs, Some(9)),
        Err(e) => panic!("{e:?}"),
    }
}

use portos_kernel::cap::Constraints;
use portos_kernel::caps::CapStore;
use portos_kernel::cleanup::CleanupReport;
use portos_kernel::client::{plan_file, read_window, reclaim_reason};
use portos_kernel::declaration::{
    check_class_declaration, declaration_identity, kind_from_meta, kind_label, manifest_from_meta,
    protocol_from_json, str_array, target_from_meta, withhold, ConsumeGrade, EmitGrade, Kind,
    TargetSpec,
};
use portos_kernel::error::KernelError;
use portos_kernel::events::{
    cleanup_plugin, dispatch_event, next_subscription, remove_sub, unsubscribe, SendSeen, Sub,
    SubTarget,
};
use portos_kernel::handshake::{
    accept_hello, check_first, check_name, check_next, escalate, make_route, plugin_order, publish,
    socket_name, Channel, ChannelRole, Grace, Handshake,
};
use portos_kernel::host::{admit_plugin, ClientAction, Host};
use portos_kernel::json::{Json, Num};
use portos_kernel::records::{
    CleanupRecord, CleanupState, CleanupTarget, Frag, HoldingRecord, HoldingState, Lease,
};
use portos_kernel::resources::{op_hold, op_release, op_renew, release_answer, HoldStep, ReleaseAnswer};
use portos_kernel::routing::{
    call_allowed, call_answered, effect_policy, invoke_as, kernel_schemas, origin_of,
    routed_families, topic_matches, PluginEntry, ProtocolStep, Route,
};
use portos_kernel::strmap::{StrMap, StrSet};
use portos_kernel::wire::{HoldRequest, HoldingRef};

fn json(text: &str) -> Json {
    convert(&serde_json::from_str(text).unwrap())
}

fn convert(v: &serde_json::Value) -> Json {
    match v {
        serde_json::Value::Null => Json::Null,
        serde_json::Value::Bool(b) => Json::Bool(*b),
        serde_json::Value::Number(n) => Json::Number(Num::Nat(n.as_u64().unwrap())),
        serde_json::Value::String(s) => Json::Str(s.clone()),
        serde_json::Value::Array(a) => Json::Array(a.iter().map(convert).collect()),
        serde_json::Value::Object(m) => {
            Json::Object(m.iter().map(|(k, v)| (k.clone(), convert(v))).collect())
        }
    }
}

fn word<'a>(j: &'a Json, name: &str) -> &'a str {
    j.get(name).unwrap().as_str().unwrap().as_str()
}

#[test]
fn malformed_character_fields_are_not_defaulted() {
    for meta in [
        r#"{"kind": 1}"#,
        r#"{"kind": "emitting", "amortizable": "false"}"#,
        r#"{"kind": "consuming", "world": false}"#,
        r#"{"kind": "repeatable", "idempotent": "true"}"#,
        r#"{"kind": "repeatable", "commutes": 1}"#,
        r#"{"kind": "repeatable", "degrade": 0}"#,
        r#"{"kind": "emitting", "compensate_with": false}"#,
        r#"{"commutes": true}"#,
    ] {
        assert!(kind_from_meta(&json(meta)).is_err(), "{meta}");
    }
    for hello in [
        r#"{"name": "p", "verbs": ["v", 1]}"#,
        r#"{"name": "p", "verbs": ["v", "v"]}"#,
        r#"{"name": "p"}"#,
    ] {
        assert!(declaration_identity(&json(hello)).is_err());
    }
}

#[test]
fn checked_character_preserves_legacy_defaults_and_hard_list() {
    let verbs = vec!["emit".to_string(), "send".to_string(), "legacy".to_string()];
    let class = check_class_declaration(
        "p",
        &verbs,
        &json(
            r#"{"emit": {"kind": "emitting"}, "send": {"kind": "emitting", "amortizable": false}}"#,
        ),
        &json("{}"),
    )
    .unwrap();
    let lookup = |verb: &str| class.verbs.iter().find(|(v, _)| v == verb).map(|(_, e)| e);
    assert!(!withhold(&lookup("emit").unwrap().kind));
    assert!(withhold(&lookup("send").unwrap().kind));
    assert!(lookup("legacy").is_none());
    assert!(
        check_class_declaration("p", &verbs, &json("{}"), &json(r#"{"holding_rho": 1}"#)).is_err()
    );
}

#[test]
fn invalid_protocols_and_dangling_relations_cannot_be_published() {
    for protocol in [
        r#"{"initial": "s", "transitions": false}"#,
        r#"{"initial": "s", "transitions": [["s", "read", "s", "extra"]]}"#,
        r#"{"initial": "s", "transitions": [["s", "read", "s"], ["s", "read", "other"]]}"#,
    ] {
        assert!(protocol_from_json(Some(&json(protocol))).is_err());
    }
    assert!(check_class_declaration(
        "p",
        &vec!["read".to_string()],
        &json(r#"{"read": {"kind": "repeatable", "degrade": "unknown"}}"#),
        &json("{}")
    )
    .is_err());
}

#[test]
fn kinds_have_their_defaults_and_their_demands() {
    let kind = |t: &str| kind_from_meta(&json(t)).map(|e| e.map(|e| e.kind));
    assert_eq!(kind("null").unwrap(), None);
    assert_eq!(kind("{}").unwrap(), None);
    assert_eq!(
        kind(r#"{"kind":"repeatable_shared"}"#).unwrap(),
        Some(Kind::Repeatable { shared: true })
    );
    assert_eq!(kind(r#"{"kind":"transforming"}"#).unwrap(), Some(Kind::Transforming));
    assert_eq!(
        kind(r#"{"kind":"consuming"}"#).unwrap(),
        Some(Kind::Consuming(ConsumeGrade::Held))
    );
    assert_eq!(
        kind(r#"{"kind":"emitting"}"#).unwrap(),
        Some(Kind::Emitting { world: EmitGrade::External, amortizable: true })
    );
    assert_eq!(
        kind(r#"{"kind":"emitting","world":"compensable","compensate_with":"undo","amortizable":false}"#)
            .unwrap(),
        Some(Kind::Emitting {
            world: EmitGrade::Compensable { compensate_with: "undo".to_string() },
            amortizable: false,
        })
    );
    assert_eq!(
        kind(r#"{"kind":"consuming","world":"compensable"}"#).unwrap_err(),
        "consuming/compensable needs compensate_with"
    );
    assert_eq!(kind(r#"{"kind":"emitting","world":"held"}"#).unwrap_err(), "unknown emitting world held");
    assert_eq!(kind(r#"{"kind":"x"}"#).unwrap_err(), "unknown verb kind x");
    assert_eq!(kind("3").unwrap_err(), "verb metadata must be an object");
    assert_eq!(kind_label(&Kind::Transforming), "transforming");
    let verbs = vec!["emit".to_string(), "legacy".to_string()];
    let class = check_class_declaration(
        "p",
        &verbs,
        &json(r#"{"emit":{"kind":"emitting","idempotent":true,"degrade":"emit"}}"#),
        &json(r#"{"holding_rho":"external","protocol":{"initial":"s","transitions":[["s","emit","t"]]}}"#),
    )
    .unwrap();
    assert_eq!(class.verbs.len(), 1);
    assert_eq!(class.verbs[0].1.idempotent, Some(true));
    assert_eq!(class.protocol.unwrap().transitions.len(), 1);
    assert!(check_class_declaration("p", &verbs, &json("{}"), &json(r#"{"holding_rho":1}"#)).is_err());
    assert_eq!(
        check_class_declaration("p", &verbs, &json("{}"), &json(r#"{"holding_rho":"x"}"#)).unwrap_err(),
        "unknown holding_rho: x"
    );
    assert_eq!(
        check_class_declaration("p", &verbs, &json("3"), &json("{}")).unwrap_err(),
        "tools must be an object"
    );
}

#[test]
fn declarations_are_read() {
    assert_eq!(str_array(Some(&json(r#"["a",1,"b"]"#))), vec!["a".to_string(), "b".to_string()]);
    assert!(str_array(Some(&json("{}"))).is_empty());
    assert!(str_array(None).is_empty());
    let m = manifest_from_meta(
        &vec!["v".to_string(), "w".to_string()],
        &json(r#"{"v":{"requires":{"caps":["a::b"],"deps":["x"]}}}"#),
    );
    assert!(m[0].caps.contains("a::b") && m[0].deps.contains("x"));
    assert!(m[1].caps.is_empty());
    assert_eq!(
        target_from_meta(Some(&json(r#"{"arg":"url","kind":"origin"}"#))),
        Some(TargetSpec::Origin("url".to_string()))
    );
    assert_eq!(
        target_from_meta(Some(&json(r#"{"arg":"to"}"#))),
        Some(TargetSpec::Literal("to".to_string()))
    );
    assert_eq!(target_from_meta(Some(&json("{}"))), None);
    assert_eq!(target_from_meta(None), None);
}

#[test]
fn topics_match_by_prefix() {
    assert!(topic_matches("*", "anything"));
    assert!(topic_matches("model::session::*", "model::session::1"));
    assert!(topic_matches("model::*", "model::"));
    assert!(!topic_matches("model::*", "model:"));
    assert!(topic_matches("a", "a"));
    assert!(!topic_matches("a", "ab"));
}

#[test]
fn origins_stop_at_the_next_slash() {
    assert_eq!(origin_of("https://h:8/p?q").as_deref(), Some("https://h:8"));
    assert_eq!(origin_of("https://h").as_deref(), Some("https://h"));
    assert_eq!(origin_of("https:///p"), None);
    assert_eq!(origin_of("nothing"), None);
}

fn route(verb: &str, plugin: &str, kind: Option<Kind>) -> Route {
    Route {
        verb: verb.to_string(),
        plugin: plugin.to_string(),
        description: "d".to_string(),
        schema: json(r#"{"type":"object"}"#),
        kind,
        budgeted: None,
        withhold: false,
        target: None,
    }
}

#[test]
fn routes_say_how_effects_are_treated() {
    let mut send = route(
        "mail::send",
        "m",
        Some(Kind::Emitting { world: EmitGrade::External, amortizable: false }),
    );
    send.withhold = true;
    send.target = Some(TargetSpec::Origin("url".to_string()));
    let routes = vec![send, route("mail::list", "m", Some(Kind::Repeatable { shared: false }))];
    let p = effect_policy(&routes, "mail::send", &json(r#"{"url":"http://h/x"}"#));
    assert_eq!((p.target.as_str(), p.withhold), ("http://h", true));
    let p = effect_policy(&routes, "mail::send", &json(r#"{"url":"plain"}"#));
    assert_eq!(p.target, "plain");
    let p = effect_policy(&routes, "mail::send", &json("{}"));
    assert_eq!(p.target, "*");
    let p = effect_policy(&routes, "unknown", &json("{}"));
    assert_eq!((p.target.as_str(), p.withhold), ("*", false));
    let s = kernel_schemas(&routes);
    assert_eq!(s.external_effects.get("mail::send"), Some(&true));
    assert!(s.observe.get("mail::list").unwrap().is_public_trusted());
    assert!(s.observe.get("mail::send").is_none());
    let f = routed_families(&routes);
    assert_eq!(f.len(), 1);
    assert!(f.contains("mail"));
}

#[test]
fn the_protocol_advances_only_on_success() {
    let step = |r: Result<&str, &str>| {
        Some(ProtocolStep { next: r.map(|s| s.to_string()).map_err(|s| s.to_string()) })
    };
    assert!(call_allowed("v", &None).is_ok());
    assert!(call_allowed("v", &step(Ok("t"))).is_ok());
    assert_eq!(
        call_allowed("v", &step(Err("s"))).unwrap_err().message(),
        "denied: protocol violation: v in state s"
    );
    let (r, s) = call_answered(&json(r#"{"ok":3}"#), Some("s".to_string()), step(Ok("t")));
    assert_eq!(r.unwrap().as_u64(), Some(3));
    assert_eq!(s.as_deref(), Some("t"));
    let (r, s) = call_answered(&json(r#"{"err":"no"}"#), Some("s".to_string()), step(Ok("t")));
    assert_eq!(r.unwrap_err().message(), "denied: plugin error: no");
    assert_eq!(s.as_deref(), Some("s"));
    let (r, s) = call_answered(&json("{}"), None, None);
    assert!(r.unwrap().is_null() && s.is_none());
}

fn holding(id: u64, generation: &str, subject: &str, parent: Option<u64>) -> HoldingRecord {
    HoldingRecord {
        id,
        subject: subject.to_string(),
        class_id: "kernel/plugin".to_string(),
        instance: "x".to_string(),
        frag: Frag::Ex { token: true },
        generation: generation.to_string(),
        parent,
        lease: Lease::Unbounded,
        acquired_at: 0,
        state: HoldingState::Active,
        target: CleanupTarget::AccountingOnly,
    }
}

fn href(id: u64, generation: &str) -> HoldingRef {
    HoldingRef { id, generation: generation.to_string() }
}

fn verbs(v: &[&str]) -> StrSet {
    let mut s = StrSet::new();
    for x in v {
        s.insert(x.to_string());
    }
    s
}

fn a_host() -> (Host, Vec<HoldingRecord>) {
    let mut caps = CapStore::new();
    let mut counts = StrMap::new();
    counts.insert("send".to_string(), 2);
    caps.mint_as(
        "c1",
        "plugin:p",
        "driver:mail",
        verbs(&["send", "list"]),
        Constraints { expires_at: Some(90), counts },
        None,
    )
    .unwrap();
    caps.mint_as("c2", "plugin:p", "driver:mail", verbs(&["list"]), Constraints::default(), None)
        .unwrap();
    caps.mint_as("c3", "plugin:p", "kernel:spawn", verbs(&["spawn_child"]), Constraints::default(), None)
        .unwrap();
    let mut host = Host::new(caps, "sess".to_string());
    host.plugins.push(PluginEntry { name: "p".to_string(), holding: href(1, "g1"), offers: None });
    host.plugins.push(PluginEntry { name: "m".to_string(), holding: href(2, "g2"), offers: None });
    host.routes.push(route("mail::send", "m", Some(Kind::Transforming)));
    let mut cap1 = holding(10, "c1", "plugin:p", None);
    cap1.class_id = "kernel/cap".to_string();
    cap1.instance = "c1".to_string();
    let mut cap2 = holding(11, "c2", "plugin:p", None);
    cap2.class_id = "kernel/cap".to_string();
    cap2.instance = "c2".to_string();
    let holdings =
        vec![holding(1, "g1", "plugin:p", None), holding(2, "g2", "plugin:m", None), cap1, cap2];
    (host, holdings)
}

#[test]
fn a_call_is_gated_recorded_and_routed() {
    let (mut host, mut holdings) = a_host();
    let req = json(r#"{"op":"invoke","verb":"mail::send","args":{"a":1}}"#);
    match host.handle_client_op(&holdings, "p", &req, 5) {
        Ok(ClientAction::Invoke { decision, verb, args }) => {
            assert_eq!(decision.target.unwrap(), "m");
            assert_eq!(word(&decision.record, "event"), "invoke.allowed");
            assert_eq!(word(&decision.record, "cap"), "c1");
            assert_eq!(verb, "mail::send");
            assert!(args.get("a").is_some());
        }
        _ => panic!(),
    }
    holdings[1].state = HoldingState::Retiring(2);
    match host.handle_client_op(&holdings, "p", &req, 5) {
        Ok(ClientAction::Invoke { decision, .. }) => {
            assert_eq!(
                decision.target.unwrap_err().message(),
                "denied: target plugin is retiring"
            );
            assert_eq!(word(&decision.record, "event"), "invoke.allowed");
        }
        _ => panic!(),
    }
    match host.handle_client_op(&holdings, "p", &req, 5) {
        Ok(ClientAction::Invoke { decision, .. }) => {
            assert_eq!(word(&decision.record, "event"), "invoke.denied");
            assert!(decision.target.is_err());
        }
        _ => panic!(),
    }
    host.plugins[0].offers = Some(verbs(&["mail::list"]));
    match host.handle_client_op(&holdings, "p", &req, 5) {
        Ok(ClientAction::Invoke { decision, .. }) => {
            assert_eq!(word(&decision.record, "reason"), "verb outside the slot row");
            assert_eq!(
                decision.target.unwrap_err().message(),
                "denied: verb outside the slot row: mail::send"
            );
        }
        _ => panic!(),
    }
}

#[test]
fn a_running_plan_tells_a_spent_budget_from_a_missing_grant() {
    let (host, holdings) = a_host();
    let mut caps = CapStore::new();
    let e = invoke_as(&mut caps, &host.routes, &host.plugins, &holdings, "s", "mail::send", 0);
    assert!(matches!(e, Err(KernelError::NoCapability { .. })));
    let mut counts = StrMap::new();
    counts.insert("send".to_string(), 1);
    caps.mint("s", "driver:mail", verbs(&["send"]), Constraints { expires_at: None, counts }, None)
        .unwrap();
    let mut call = || {
        invoke_as(&mut caps, &host.routes, &host.plugins, &holdings, "s", "mail::send", 0)
    };
    assert_eq!(call().unwrap(), "m");
    assert!(matches!(call(), Err(KernelError::BudgetExhausted(v)) if v == "send"));
}

#[test]
fn grants_report_the_strongest() {
    let (mut host, holdings) = a_host();
    match host.handle_client_op(&holdings, "p", &json(r#"{"op":"grants"}"#), 5) {
        Ok(ClientAction::Grants(g)) => {
            assert_eq!(g.len(), 2);
            assert_eq!(word(&g[0], "verb"), "mail::list");
            assert_eq!(g[0].get("holding").unwrap().as_u64(), Some(11));
            assert!(g[0].get("counts_left").is_none());
            assert!(g[0].get("expires_at").is_none());
            assert_eq!(word(&g[0], "description"), "");
            assert_eq!(word(&g[1], "verb"), "mail::send");
            assert_eq!(g[1].get("counts_left").unwrap().as_u64(), Some(2));
            assert_eq!(g[1].get("expires_at").unwrap().as_u64(), Some(90));
            assert_eq!(word(&g[1], "kind"), "transforming");
        }
        _ => panic!(),
    }
}

#[test]
fn requests_are_read_and_refused() {
    let (mut host, mut holdings) = a_host();
    let ask = |host: &mut Host, hs: &Vec<HoldingRecord>, t: &str| {
        host.handle_client_op(hs, "p", &json(t), 5)
    };
    let unknown = match ask(&mut host, &holdings, r#"{"op":"a\"b"}"#) {
        Err(e) => e.message(),
        Ok(_) => panic!(),
    };
    assert_eq!(unknown, format!("corrupt: unknown client op: {:?}", Some("a\"b")));
    let none = match ask(&mut host, &holdings, "{}") {
        Err(e) => e.message(),
        Ok(_) => panic!(),
    };
    assert_eq!(none, "corrupt: unknown client op: None");
    assert!(matches!(
        ask(&mut host, &holdings, r#"{"op":"emit","topic":"t"}"#),
        Ok(ClientAction::Emit { topic, data }) if topic == "t" && data.is_null()
    ));
    match ask(&mut host, &holdings, r#"{"op":"subscribe","topic":"t::*"}"#) {
        Ok(ClientAction::Subscribe { id, topic, order }) => {
            assert_eq!((id, topic.as_str()), (1, "t::*"));
            assert_eq!(order.instance, "sess/1");
            assert_eq!(order.parent, Some(1));
            assert_eq!(order.owner, "plugin:p");
        }
        _ => panic!(),
    }
    assert_eq!(host.next_sub, 2);
    assert!(matches!(
        ask(&mut host, &holdings, r#"{"op":"unsubscribe","sub":1}"#),
        Ok(ClientAction::Unsubscribe(None))
    ));
    match ask(&mut host, &holdings, r#"{"op":"spawn_child","bin":"b","args":["x"],"env":{"K":"V","N":1}}"#) {
        Ok(ClientAction::SpawnChild { bin, args, envs, parent }) => {
            assert_eq!(bin, "b");
            assert_eq!(args, vec!["x".to_string()]);
            assert_eq!(envs, vec![("K".to_string(), "V".to_string())]);
            assert_eq!(parent.id, 1);
        }
        _ => panic!(),
    }
    assert!(matches!(
        ask(&mut host, &holdings, r#"{"op":"spawn_child"}"#),
        Err(e) if e.message() == "corrupt: spawn_child: missing bin"
    ));
    match host.handle_client_op(&holdings, "q", &json(r#"{"op":"spawn_child","bin":"b"}"#), 5) {
        Ok(ClientAction::Denied { record, why }) => {
            assert_eq!(word(&record, "event"), "spawn_child.denied");
            assert_eq!((word(&record, "from"), word(&record, "bin")), ("q", "b"));
            assert_eq!(word(&record, "reason"), why.message());
        }
        _ => panic!(),
    }
    assert!(matches!(
        ask(&mut host, &holdings, r#"{"op":"plan.submit","plan":[]}"#),
        Ok(ClientAction::Submit { subject, .. }) if subject == "plugin:p"
    ));
    assert!(matches!(
        ask(&mut host, &holdings, r#"{"op":"put"}"#),
        Ok(ClientAction::Put { media_type, labels: None, origin })
            if media_type == "application/octet-stream" && origin == "plugin:p"
    ));
    assert!(matches!(
        ask(&mut host, &holdings, r#"{"op":"read","id":"i","len":4}"#),
        Ok(ClientAction::Read { offset: 0, len: Some(4), .. })
    ));
    assert!(matches!(
        ask(&mut host, &holdings, r#"{"op":"hold","class":"kernel/process","instance":"i","substrate":{"pid":7}}"#),
        Ok(ClientAction::Hold { step: HoldStep::Process(7), .. })
    ));
    assert!(matches!(
        ask(&mut host, &holdings, r#"{"op":"hold","class":"kernel/process"}"#),
        Err(e) if e.message() == "denied: hold request: missing field `instance`"
    ));
    assert!(matches!(
        ask(&mut host, &holdings, r#"{"op":"release","id":1,"generation":"g1"}"#),
        Ok(ClientAction::Release(h)) if h.id == 1
    ));
    assert!(matches!(
        ask(&mut host, &holdings, r#"{"op":"renew","id":1,"generation":"g1","lease_secs":3}"#),
        Ok(ClientAction::Renew(h, Some(3))) if h.id == 1
    ));
    holdings[0].state = HoldingState::Retiring(1);
    assert!(matches!(
        ask(&mut host, &holdings, r#"{"op":"emit"}"#),
        Err(e) if e.message() == "denied: plugin is retiring"
    ));
    assert!(matches!(
        ask(&mut host, &holdings, r#"{"op":"release","id":1,"generation":"g1"}"#),
        Ok(ClientAction::Release(_))
    ));
    host.next_sub = u64::MAX;
    holdings[0].state = HoldingState::Active;
    assert!(matches!(
        ask(&mut host, &holdings, r#"{"op":"subscribe"}"#),
        Err(e) if e.message() == "denied: subscription IDs exhausted"
    ));
}

#[test]
fn holdings_are_made_released_and_renewed_by_their_owners() {
    let request = |class: &str| HoldRequest {
        class: class.to_string(),
        instance: "i".to_string(),
        substrate: json(r#"{"owner_pid":7}"#),
        lease_secs: Some(4),
    };
    let o = op_hold("p", request("kernel/process"), HoldStep::Process(7), Some(9), "t".to_string(), Some(1))
        .unwrap();
    assert_eq!(o.generation, "7:9");
    assert_eq!(o.substrate.get("start").unwrap().as_u64(), Some(9));
    assert_eq!((o.owner.as_str(), o.parent, o.lease_secs), ("plugin:p", Some(1), Some(4)));
    let gone = op_hold("p", request("kernel/process"), HoldStep::Process(7), None, "t".to_string(), None);
    assert!(matches!(gone, Err(e) if e.message() == "denied: hold: process not found"));
    let o = op_hold("p", request("kernel/file-lock"), HoldStep::Owner(7), Some(9), "t".to_string(), None)
        .unwrap();
    assert_eq!(o.generation, "t");
    assert_eq!(o.substrate.get("owner_start").unwrap().as_u64(), Some(9));
    let o = op_hold("p", request("kernel/port"), HoldStep::Nothing, None, "t".to_string(), None).unwrap();
    assert!(o.substrate.get("owner_start").is_none());
    let hs = vec![holding(1, "g", "plugin:p", None)];
    let req = json(r#"{"id":1,"generation":"g"}"#);
    assert!(op_release(&req, &hs, "p").is_ok());
    assert_eq!(
        op_release(&req, &hs, "q").unwrap_err().message(),
        "denied: release: not your holding"
    );
    let other = json(r#"{"id":2,"generation":"g"}"#);
    assert_eq!(
        op_release(&other, &hs, "p").unwrap_err().message(),
        "denied: release: unknown holding"
    );
    assert_eq!(
        op_release(&json(r#"{"id":2}"#), &hs, "p").unwrap_err().message(),
        "denied: release request: missing field `generation`"
    );
    assert_eq!(op_renew(&req, &hs, "p").unwrap().1, None);
    assert_eq!(
        op_renew(&req, &hs, "q").unwrap_err().message(),
        "denied: renew: not your holding"
    );
}

#[test]
fn a_release_is_answered_by_what_is_left() {
    let answer = |state: Option<CleanupState>| {
        let pending = state
            .into_iter()
            .map(|state| CleanupRecord {
                id: 3,
                key: "k".to_string(),
                holding: 1,
                generation: "g".to_string(),
                state,
                attempts: 0,
                requested_at: 0,
                updated_at: 0,
            })
            .collect();
        release_answer(&CleanupReport { completed: vec![], pending })
    };
    let why = || "w".to_string();
    assert_eq!(answer(None), ReleaseAnswer::Released);
    assert_eq!(answer(Some(CleanupState::Pending)), ReleaseAnswer::Pending { cleanup_id: 3 });
    assert_eq!(
        answer(Some(CleanupState::Retryable(why()))),
        ReleaseAnswer::Retryable { cleanup_id: 3, reason: why() }
    );
    assert_eq!(
        answer(Some(CleanupState::Unknown(why()))),
        ReleaseAnswer::Unknown { cleanup_id: 3, reason: why() }
    );
    assert_eq!(
        answer(Some(CleanupState::Blocked(why()))),
        ReleaseAnswer::Blocked { cleanup_id: 3, reason: why() }
    );
}

#[test]
fn events_reach_those_who_can_take_them() {
    let sub = |id: u64, topic: &str, target: SubTarget, h: u64| Sub {
        id,
        topic: topic.to_string(),
        target,
        holding: href(h, "s"),
    };
    let subs = vec![
        sub(1, "t::*", SubTarget::Local, 21),
        sub(2, "t::a", SubTarget::Plugin("p".to_string()), 22),
        sub(3, "other", SubTarget::Local, 23),
        sub(4, "*", SubTarget::Local, 24),
        sub(5, "*", SubTarget::Plugin("gone".to_string()), 25),
        sub(6, "*", SubTarget::Local, 99),
    ];
    let plugins =
        vec![PluginEntry { name: "p".to_string(), holding: href(1, "g"), offers: None }];
    let holdings = vec![
        holding(21, "s", "kernel", None),
        holding(22, "s", "plugin:p", Some(1)),
        holding(23, "s", "kernel", None),
        holding(24, "s", "kernel", None),
        holding(25, "s", "plugin:gone", Some(2)),
    ];
    let send = |seen: [SendSeen; 6]| dispatch_event(&subs, "t::a", &plugins, &holdings, &seen.to_vec());
    let d = send([SendSeen::Sent; 6]);
    assert_eq!(d.delivered, 3);
    assert_eq!(d.dropped, vec![5]);
    let d = send([SendSeen::Full; 6]);
    assert_eq!(d.delivered, 0);
    assert_eq!(d.dropped, vec![1, 4, 5]);
    assert_eq!(d.overflowed, vec![1, 2, 4]);
    assert_eq!(d.killed, vec!["p".to_string()]);
    let d = send([SendSeen::Gone; 6]);
    assert_eq!(d.dropped, vec![1, 2, 4, 5]);
    assert_eq!(unsubscribe(&subs, 2, "p").unwrap().id, 22);
    assert!(unsubscribe(&subs, 2, "q").is_none());
    assert!(unsubscribe(&subs, 1, "p").is_none());
    let mut subs = subs;
    assert!(remove_sub(&mut subs, 1, &href(21, "s")));
    assert!(!remove_sub(&mut subs, 2, &href(22, "other")));
    assert_eq!(subs.len(), 5);
    let mut n = 4;
    assert_eq!(next_subscription(&mut n).unwrap(), 4);
    assert_eq!(n, 5);
    let mut routes = vec![route("a", "p", None), route("b", "q", None), route("c", "p", None)];
    cleanup_plugin(&mut routes, "p");
    assert_eq!(routes.len(), 1);
    assert_eq!(routes[0].verb, "b");
}

#[test]
fn a_plugin_is_let_in_step_by_step() {
    let frame = json(r#"{"hello":{"token":"t","role":"serve","name":"p","verbs":["p::v"],"channels":["client","events"]}}"#);
    assert!(accept_hello(&frame, "x").is_err());
    let hello = accept_hello(&frame, "t").unwrap();
    let mut d = Handshake::first(hello).unwrap();
    assert_eq!(d.name, "p");
    assert!(!d.handshake.complete());
    assert_eq!(d.handshake.next(&json(r#"{"role":"events"}"#)).unwrap(), Channel::Events);
    assert_eq!(
        d.handshake.next(&json(r#"{"role":"events"}"#)).unwrap_err().message(),
        "corrupt: plugin hello: undeclared or duplicate role events"
    );
    assert_eq!(d.handshake.next(&json(r#"{"role":"client"}"#)).unwrap(), Channel::Client);
    assert!(d.handshake.complete());
    let refuse = |t: &str| match Handshake::first(&json(t)) {
        Err(e) => e.message(),
        Ok(_) => panic!("{t}"),
    };
    assert_eq!(
        refuse(r#"{"role":"client"}"#),
        "corrupt: plugin hello: first connection must be role serve"
    );
    assert_eq!(
        refuse(r#"{"role":"serve","name":""}"#),
        "denied: plugin hello: name must be a nonempty string"
    );
    assert_eq!(
        refuse(r#"{"role":"serve","name":"p","verbs":[],"channels":["events"]}"#),
        "corrupt: plugin hello: a client channel is required"
    );
    let mut d =
        Handshake::first(&json(r#"{"role":"serve","name":"p","verbs":[],"channels":["client","odd"]}"#))
            .unwrap();
    assert_eq!(
        d.handshake.next(&json(r#"{"role":"odd"}"#)).unwrap_err().message(),
        "corrupt: plugin hello: unknown channel role odd"
    );
    assert_eq!(
        d.handshake.next(&json("{}")).unwrap_err().message(),
        "corrupt: plugin hello: undeclared or duplicate role ?"
    );
}

#[test]
fn typed_roles_and_versions_are_checked() {
    let both = vec![ChannelRole::Client, ChannelRole::Serve];
    assert!(check_first(ChannelRole::Serve, 2, 2, &both).is_ok());
    assert!(check_first(ChannelRole::Events, 2, 2, &both).is_err());
    assert_eq!(
        check_first(ChannelRole::Serve, 1, 2, &both).unwrap_err().message(),
        "denied: plugin abi 1 != kernel abi 2"
    );
    assert!(check_first(ChannelRole::Serve, 2, 2, &vec![]).is_err());
    let mut expected = both;
    assert!(check_next(&mut expected, ChannelRole::Client).is_ok());
    assert_eq!(
        check_next(&mut expected, ChannelRole::Client).unwrap_err().message(),
        "corrupt: plugin hello: undeclared or duplicate role Client"
    );
    assert_eq!(
        check_next(&mut expected, ChannelRole::Serve).unwrap_err().message(),
        "corrupt: plugin hello: duplicate serve channel"
    );
}

#[test]
fn no_verb_is_served_twice() {
    let mut routes = vec![route("a", "p", None)];
    let clash = publish(&mut routes, vec![route("b", "q", None), route("a", "q", None)]);
    assert_eq!(clash.unwrap_err().message(), "denied: verb already routed: a");
    assert_eq!(routes.len(), 1);
    assert!(publish(&mut routes, vec![route("b", "q", None)]).is_ok());
    assert_eq!(routes.len(), 2);
    let plugins =
        vec![PluginEntry { name: "p".to_string(), holding: href(1, "g"), offers: None }];
    assert!(check_name(&plugins, "q").is_ok());
    assert_eq!(
        check_name(&plugins, "p").unwrap_err().message(),
        "denied: plugin name taken: p"
    );
    let tools = json(r#"{"v":{"description":"d","schema":{"x":1},"target":{"arg":"to"}},"w":{"schema":3}}"#);
    let last = Kind::Emitting { world: EmitGrade::External, amortizable: false };
    let r = make_route("p", "v", &tools, Some(last), Some(true));
    assert_eq!(r.description, "d");
    assert!(r.schema.get("x").is_some() && r.withhold);
    assert_eq!(r.target, Some(TargetSpec::Literal("to".to_string())));
    let r = make_route("p", "w", &tools, None, None);
    assert!(!r.withhold);
    assert_eq!(word(&r.schema, "type"), "object");
    let o = plugin_order("p", "tok", Some(("q".to_string(), 4)));
    assert_eq!(o.parent_subject.as_deref(), Some("plugin:q"));
    assert_eq!((o.class_id.as_str(), o.parent), ("kernel/plugin", Some(4)));
    assert_eq!(socket_name(12, 3), "plugin-12-3.sock");
    assert_eq!(escalate(Grace::Asked, false), Some(Grace::Terminated));
    assert_eq!(escalate(Grace::Terminated, false), Some(Grace::Killed));
    assert_eq!(escalate(Grace::Killed, false), None);
    assert_eq!(escalate(Grace::Asked, true), None);
}

#[test]
fn plugins_are_admitted_by_class_and_slot() {
    let verbs = vec!["v".to_string()];
    let tools = json(r#"{"v":{"kind":"repeatable"}}"#);
    assert!(admit_plugin("p", &verbs, &tools, &json("{}"), &None).is_ok());
    assert!(admit_plugin("p", &verbs, &tools, &json("{}"), &Some(Ok(()))).is_ok());
    let slot = Some(Err("row".to_string()));
    assert_eq!(
        admit_plugin("p", &verbs, &tools, &json("{}"), &slot).unwrap_err().message(),
        "denied: plugin p: slot admission failed: row"
    );
    let bad = json(r#"{"v":{"kind":"x"}}"#);
    assert_eq!(
        admit_plugin("p", &verbs, &bad, &json("{}"), &None).unwrap_err().message(),
        "denied: plugin p: verb metadata rejected: unknown verb kind x"
    );
}

#[test]
fn reads_stay_inside() {
    assert_eq!(read_window(10, 4, None), 6);
    assert_eq!(read_window(10, 4, Some(3)), 3);
    assert_eq!(read_window(10, 4, Some(9)), 6);
    assert_eq!(read_window(10, 11, None), 0);
    assert_eq!(plan_file("blake3:ab"), "blake3_ab.json");
    assert_eq!(reclaim_reason(Some(true)), "shutdown");
    assert_eq!(reclaim_reason(Some(false)), "exited");
    assert_eq!(reclaim_reason(None), "exited");
}

#[test]
fn no_limit_beats_the_largest() {
    let unlimited = Constraints { counts: StrMap::new(), expires_at: None };
    let mut counts = StrMap::new();
    counts.insert("send".to_string(), u64::MAX);
    let counted = Constraints { counts, expires_at: None };
    let expiring = Constraints { counts: StrMap::new(), expires_at: Some(u64::MAX) };
    let mut caps = CapStore::new();
    for (id, c) in [("c1", counted), ("c2", expiring), ("c3", unlimited)] {
        caps.mint_as(id, "plugin:p", "driver:mail", verbs(&["send"]), c, None).unwrap();
    }
    let mut holdings = vec![holding(1, "g1", "plugin:p", None)];
    for (id, cap) in [(11, "c1"), (12, "c2"), (13, "c3")] {
        let mut h = holding(id, cap, "plugin:p", None);
        h.class_id = "kernel/cap".to_string();
        h.instance = cap.to_string();
        holdings.push(h);
    }
    let mut host = Host::new(caps, "s".to_string());
    match host.handle_client_op(&holdings, "p", &json(r#"{"op":"grants"}"#), 5) {
        Ok(ClientAction::Grants(g)) => {
            assert_eq!(g.len(), 1);
            assert_eq!(g[0].get("holding").unwrap().as_u64(), Some(13));
        }
        _ => panic!(),
    }
}

use portos_kernel::artifact::id_for_bytes;
use portos_kernel::cap::{Capability, Constraints};
use portos_kernel::consent::{consent_mac, Budget, ConsentKey, ConsentRecord};
use portos_kernel::error::KernelError;
use portos_kernel::json::{Json, Num};
use portos_kernel::label::Label;
use portos_kernel::plan::{CmpOp, Expr, Guard, Mode, Plan, Stmt};
use portos_kernel::plan_approval::{approve, ApprovalEnd};
use portos_kernel::plan_demand::MintOrder;
use portos_kernel::plan_interp::{exec_thread, Settlement};
use portos_kernel::plan_lifecycle::{expire, recover, resume, start, RunEntry};
use portos_kernel::plan_runtime::PlanRuntime;
use portos_kernel::plan_service::{
    check_and_consume_consent, fiber_of, segment_of, submit, RunRecord,
};
use portos_kernel::plan_types::{
    withheld_batch, BufferState, Buffered, EffectPolicy, Outcome, RunControl, RunSignal, RunState,
};
use portos_kernel::plancheck::VerbSchemas;
use portos_kernel::strmap::StrSet;

struct Toy {
    invoked: Vec<(String, Json)>,
    held: Vec<Buffered>,
    audit: Vec<(String, Json)>,
    states: Vec<RunState>,
    signals: Vec<RunSignal>,
    withhold: bool,
    left: u64,
    marks: Vec<(u64, BufferState)>,
    logged: u64,
    logged_at_pause: Vec<u64>,
    failure: Option<KernelError>,
}

impl Toy {
    fn new(left: u64) -> Toy {
        Toy {
            invoked: vec![],
            held: vec![],
            audit: vec![],
            states: vec![],
            signals: vec![],
            withhold: false,
            left,
            marks: vec![],
            logged: 0,
            logged_at_pause: vec![],
            failure: None,
        }
    }
}

impl PlanRuntime for Toy {
    fn effect_policy(&mut self, _verb: &str, _args: &Json) -> EffectPolicy {
        EffectPolicy { target: "fixture".to_string(), withhold: self.withhold }
    }
    fn invoke(&mut self, verb: &str, args: Json) -> Result<Json, KernelError> {
        self.invoked.push((verb.to_string(), args));
        match &self.failure {
            Some(KernelError::Denied(t)) => return Err(KernelError::Denied(t.clone())),
            Some(_) => return Err(KernelError::BudgetExhausted(verb.to_string())),
            None => {}
        }
        if verb == "compute::run" {
            return Ok(Json::Str("HI".to_string()));
        }
        if self.left == 0 {
            self.invoked.pop();
            return Err(KernelError::BudgetExhausted(verb.to_string()));
        }
        self.left -= 1;
        Ok(Json::Null)
    }
    fn hold(&mut self, verb: &str, t: &str, args: &Json, cost: u64) -> Result<(), KernelError> {
        self.held.push(Buffered {
            seq: self.held.len() as u64 + 1,
            verb: verb.to_string(),
            target: t.to_string(),
            args: args.clone(),
            cost,
        });
        Ok(())
    }
    fn emission_count(&mut self) -> Result<u64, KernelError> {
        Ok(self.logged)
    }
    fn log_emission(&mut self, _s: u64, _v: &str, _t: &str, _n: &str) -> Result<(), KernelError> {
        self.logged += 1;
        Ok(())
    }
    fn mark_buffer(&mut self, seq: u64, state: BufferState) -> Result<(), KernelError> {
        self.marks.push((seq, state));
        Ok(())
    }
    fn emit(&mut self, _data: Json) {}
    fn audit(&mut self, event: &str, extra: Json) {
        self.audit.push((event.to_string(), extra));
    }
    fn set_state(&mut self, state: RunState) {
        self.states.push(state);
    }
    fn await_signal(&mut self) -> RunSignal {
        self.logged_at_pause.push(self.logged);
        self.signals.remove(0)
    }
    fn mint(&mut self, order: &MintOrder) -> Result<(), KernelError> {
        if let Some(n) = order.constraints.counts.get("emit") {
            self.left += n;
        }
        Ok(())
    }
}

fn schemas() -> VerbSchemas {
    let mut s = VerbSchemas::default();
    s.observe.insert("echo::list".to_string(), Label::public_trusted());
    s.external_effects.insert("echo::emit".to_string(), true);
    s
}

fn text(s: &str) -> Json {
    Json::Str(s.to_string())
}

fn emit(arg: Expr) -> Stmt {
    Stmt::Effect { verb: "echo::emit".to_string(), args: vec![arg] }
}

fn emit_times(texts: &[&str]) -> Plan {
    Plan { stmts: texts.iter().map(|t| emit(Expr::Const { value: text(t) })).collect() }
}

fn foreach_stmt(items: &[&str], bound: u32, mode: Mode) -> Stmt {
    Stmt::Foreach {
        var: "x".to_string(),
        list: Expr::Const { value: Json::Array(items.iter().map(|t| text(t)).collect()) },
        bound,
        mode,
        body: vec![emit(Expr::Var { name: "x".to_string() })],
    }
}

fn foreach_plan(items: &[&str], bound: u32, mode: Mode) -> Plan {
    Plan { stmts: vec![foreach_stmt(items, bound, mode)] }
}

fn key() -> ConsentKey {
    ConsentKey::from_stored(&[5u8; 32]).unwrap()
}

fn sign_at(hash: &str, nonce: &str, verb: &str, n: u64, issued_at: u64, ttl_secs: u64) -> ConsentRecord {
    let mut budget = Budget::new();
    budget.insert(verb.to_string(), n);
    let mac = consent_mac(&key(), hash, &budget, nonce, issued_at, ttl_secs);
    ConsentRecord {
        plan_hash: hash.to_string(),
        budget,
        nonce: nonce.to_string(),
        issued_at,
        ttl_secs,
        mac,
    }
}

fn sign(hash: &str, nonce: &str, n: u64) -> ConsentRecord {
    sign_at(hash, nonce, "echo::emit", n, 1000, 3600)
}

#[test]
fn wysiwys_tampered_plan_is_refused_with_zero_effects() {
    let mut used = StrSet::new();
    let out_a = submit("user", b"A", &Ok(emit_times(&["A"])), &schemas(), &vec![]).unwrap();
    let out_b = submit("user", b"B", &Ok(emit_times(&["B"])), &schemas(), &vec![]).unwrap();
    let consent_a = sign(&out_a.plan_hash, "n", 1);
    let mut run_b = RunRecord::admitted(&out_b.plan_hash, &out_b.run_id);
    let e = start(
        &mut run_b,
        &out_b.run_id,
        &consent_a,
        &key(),
        1001,
        &mut used,
        Ok(Ok(emit_times(&["B"]))),
        &schemas(),
    )
    .unwrap_err();
    assert!(e.message().contains("mismatch"), "{}", e.message());
    let mut forged = sign(&out_a.plan_hash, "n", 1);
    forged.budget.insert("echo::emit".to_string(), 99);
    let mut run_a = RunRecord::admitted(&out_a.plan_hash, &out_a.run_id);
    let e = start(
        &mut run_a,
        &out_a.run_id,
        &forged,
        &key(),
        1001,
        &mut used,
        Ok(Ok(emit_times(&["A"]))),
        &schemas(),
    )
    .unwrap_err();
    assert!(e.message().contains("MAC") || e.message().contains("mismatch"));
    assert_eq!(used.len(), 0);
}

#[test]
fn admission_rejects_derived_budget_over_consent() {
    let mut used = StrSet::new();
    let plan = || Ok(emit_times(&["a", "b", "c"]));
    let out = submit("user", b"abc", &plan(), &schemas(), &vec![]).unwrap();
    let mut run = RunRecord::admitted(&out.plan_hash, &out.run_id);
    let consent = sign(&out.plan_hash, "n", 2);
    let e = start(&mut run, "r", &consent, &key(), 1001, &mut used, Ok(plan()), &schemas())
        .unwrap_err();
    assert_eq!(e.message(), "denied: derived budget echo::emit=3 exceeds consent 2");
    assert!(e.message().contains("exceeds consent"));
    assert!(used.contains("n"));
    let mut run = RunRecord::admitted(&out.plan_hash, &out.run_id);
    let consent = sign(&out.plan_hash, "m", 3);
    let orders =
        start(&mut run, "r", &consent, &key(), 1001, &mut used, Ok(plan()), &schemas()).unwrap();
    assert_eq!(orders.len(), 1);
    assert_eq!(orders[0].resource, "driver:echo");
    assert_eq!(orders[0].constraints.counts.get("emit"), Some(&3));
    assert_eq!(orders[0].constraints.expires_at, Some(4600));
    assert_eq!((run.original_ttl_at, run.nonce.as_str()), (4600, "m"));
    let e = start(&mut run, "r", &consent, &key(), 1001, &mut used, Ok(plan()), &schemas())
        .unwrap_err();
    assert_eq!(e.message(), "denied: plan run r not admitted (state running)");
    let mut run = RunRecord::admitted(&out.plan_hash, &out.run_id);
    let consent = sign(&out.plan_hash, "l", 3);
    let e = start(
        &mut run,
        "r",
        &consent,
        &key(),
        1001,
        &mut used,
        Err(KernelError::NotFound("artifact".to_string())),
        &schemas(),
    )
    .unwrap_err();
    assert!(matches!(e, KernelError::NotFound(_)));
}

#[test]
fn strict_bound_fail_stops_with_prefix_delivered() {
    let mut plan = emit_times(&["p1", "p2"]);
    plan.stmts.push(foreach_stmt(&["a", "b", "c"], 2, Mode::Strict));
    let mut rt = Toy::new(4);
    match exec_thread(&mut rt, &plan, "n", &schemas()) {
        Settlement::RollBack(Outcome::FailStop { at }) => assert_eq!(at, "foreach bound 2 < 3"),
        other => panic!("{other:?}"),
    }
    assert_eq!(rt.logged, 2, "the prefix stands");
}

#[test]
fn truncate_reports_and_never_silent() {
    let mut rt = Toy::new(2);
    let plan = foreach_plan(&["a", "b", "c"], 2, Mode::Truncate);
    assert_eq!(exec_thread(&mut rt, &plan, "n", &schemas()), Settlement::Commit);
    assert_eq!(rt.logged, 2);
    let (_, extra) = rt.audit.iter().find(|(e, _)| e == "plan.truncated").unwrap();
    assert_eq!(extra.get("dropped"), Some(&Json::Number(Num::Nat(1))));
}

#[test]
fn withheld_batch_is_released_exactly_once_in_order_after_approval() {
    let mut used = StrSet::new();
    let mut rt = Toy::new(2);
    rt.withhold = true;
    let mut run = RunRecord::admitted("h", "r");
    let consent = sign("h", "n", 2);
    let plan = || Ok(emit_times(&["a", "b"]));
    start(&mut run, "r", &consent, &key(), 1001, &mut used, Ok(plan()), &schemas()).unwrap();
    let end = exec_thread(&mut rt, &plan().unwrap(), "n", &schemas());
    assert_eq!(end, Settlement::AwaitApproval { withheld: 2 });
    assert_eq!(rt.logged, 0, "withheld effects are unseen");
    assert!(rt.invoked.is_empty());
    run.state = RunState::AwaitingApproval;
    let batch = std::mem::take(&mut rt.held);
    let shown = withheld_batch(&batch);
    assert_eq!(shown.len(), 2);
    assert_eq!((shown[0].verb.as_str(), shown[0].cost), ("echo::emit", 1));
    let short = sign("h", "s", 1);
    let e = approve(&mut rt, "r", &mut run, 1002, &short, &key(), &mut used, &batch).unwrap_err();
    assert_eq!(e.message(), "denied: approval budget short: echo::emit needs 2, got 1");
    let approval = sign("h", "m", 2);
    assert_eq!(run.state, RunState::AwaitingApproval);
    let end = approve(&mut rt, "r", &mut run, 1002, &approval, &key(), &mut used, &batch).unwrap();
    assert!(matches!(end, ApprovalEnd::Commit { released: 2 }));
    assert_eq!(end.outcome(), Outcome::Completed);
    assert_eq!(rt.logged, 2, "released exactly once");
    assert!(format!("{:?}", rt.invoked[0].1).contains("\"a\""));
    assert!(format!("{:?}", rt.invoked[1].1).contains("\"b\""));
    assert_eq!(rt.marks, vec![(1, BufferState::Inserted), (2, BufferState::Inserted)]);
    assert_eq!(run.state, RunState::Done);
    let fresh = sign("h", "f", 2);
    for again in [&approval, &fresh] {
        let e = approve(&mut rt, "r", &mut run, 1002, again, &key(), &mut used, &batch).unwrap_err();
        assert!(e.message().contains("not awaiting approval"));
    }
    assert_eq!(rt.invoked.len(), 2);
    run.state = RunState::AwaitingApproval;
    let e = approve(&mut rt, "r", &mut run, 1002, &approval, &key(), &mut used, &batch).unwrap_err();
    assert!(e.message().contains("stale nonce"));
    assert_eq!(rt.invoked.len(), 2);
}

#[test]
fn a_failed_release_rolls_back() {
    let mut used = StrSet::new();
    let mut rt = Toy::new(0);
    rt.failure = Some(KernelError::Denied("offline".to_string()));
    let mut run = RunRecord::admitted("h", "r");
    run.begin("r", &sign("h", "n", 1)).unwrap();
    run.state = RunState::AwaitingApproval;
    let batch = vec![Buffered {
        seq: 1,
        verb: "echo::emit".to_string(),
        target: "*".to_string(),
        args: Json::Null,
        cost: 1,
    }];
    let end = approve(&mut rt, "r", &mut run, 1002, &sign("h", "m", 1), &key(), &mut used, &batch)
        .unwrap();
    assert!(matches!(end, ApprovalEnd::RollBack { released: 0, .. }));
    assert!(matches!(end.outcome(), Outcome::FailStop { .. }));
    assert!(end.answer().unwrap_err().message().contains("approve release failed"));
    assert!(rt.marks.is_empty());
    assert_eq!(run.state, RunState::Done);
}

#[test]
fn ttl_expiry_aborts_awaiting_approval_and_paused_alike() {
    let entry = |id: &str, state: RunState| {
        let mut record = RunRecord::admitted("h", id);
        record.begin(id, &sign_at("h", "n", "echo::emit", 1, 1000, 1)).unwrap();
        record.state = state;
        RunEntry { run_id: id.to_string(), record, control: RunControl::default() }
    };
    let mut runs = vec![
        entry("r1", RunState::AwaitingApproval),
        entry("r2", RunState::Paused),
        entry("r3", RunState::Running),
        entry("r4", RunState::Done),
    ];
    assert!(expire(&mut runs, 1001).is_empty());
    assert!(runs.iter().all(|r| r.control.signal.is_none()));
    assert_eq!(expire(&mut runs, 1002), vec!["r1".to_string()]);
    for (run, aborted) in runs.iter_mut().zip([true, true, false, false]) {
        let signal = run.control.wait();
        assert_eq!(matches!(signal, Some(RunSignal::Abort { expired: true })), aborted);
        assert_eq!(signal.is_some(), aborted);
    }
    let mut rt = Toy::new(2);
    rt.signals = vec![RunSignal::Abort { expired: true }];
    let plan = foreach_plan(&["a", "b"], 1, Mode::Escalate);
    let end = exec_thread(&mut rt, &plan, "n", &schemas());
    assert_eq!(end, Settlement::RollBack(Outcome::Aborted { expired: true }));
    assert_eq!(rt.logged, 0);
}

#[test]
fn escalate_pauses_and_resumes_exactly_with_fresh_consent() {
    let mut rt = Toy::new(2);
    rt.signals = vec![
        RunSignal::Resume(sign("h", "empty", 0)),
        RunSignal::Resume(sign("h", "one", 1)),
    ];
    let plan = foreach_plan(&["a", "b", "c"], 2, Mode::Escalate);
    assert_eq!(exec_thread(&mut rt, &plan, "n", &schemas()), Settlement::Commit);
    assert_eq!(rt.logged_at_pause, vec![0, 2], "the first pool bought exactly two");
    assert_eq!(rt.logged, 3, "each item emitted exactly once");
    assert_eq!(
        rt.states,
        vec![RunState::Paused, RunState::Running, RunState::Paused, RunState::Running]
    );
}

#[test]
fn only_a_paused_run_is_resumed() {
    let mut used = StrSet::new();
    let mut record = RunRecord::admitted("h", "r");
    record.begin("r", &sign("h", "n", 1)).unwrap();
    let mut entry =
        RunEntry { run_id: "r".to_string(), record, control: RunControl::default() };
    let e = resume(&mut entry, 1002, sign("h", "m", 1), &key(), &mut used).unwrap_err();
    assert_eq!(e.message(), "denied: plan run r is running, not paused");
    entry.record.state = RunState::Paused;
    let e = resume(&mut entry, 4601, sign("h", "m", 1), &key(), &mut used).unwrap_err();
    assert_eq!(
        e.message(),
        "denied: original consent expired: the segment can only be aborted"
    );
    assert!(resume(&mut entry, 4600, sign("other", "m", 1), &key(), &mut used).is_err());
    assert!(entry.control.signal.is_none());
    assert!(resume(&mut entry, 4600, sign("h", "m", 1), &key(), &mut used).is_ok());
    assert!(matches!(entry.control.wait(), Some(RunSignal::Resume(c)) if c.nonce == "m"));
    assert!(resume(&mut entry, 4600, sign("h", "m", 1), &key(), &mut used).is_err());
}

#[test]
fn runtime_boundary_distinguishes_budget_exhaustion_from_plugin_error_text() {
    let plan = Plan {
        stmts: vec![Stmt::Foreach {
            var: "x".to_string(),
            list: Expr::Const { value: Json::Array(vec![Json::Number(Num::Nat(1))]) },
            bound: 1,
            mode: Mode::Escalate,
            body: vec![Stmt::Effect { verb: "fixture::emit".to_string(), args: vec![] }],
        }],
    };
    let mut schemas = VerbSchemas::default();
    schemas.external_effects.insert("fixture::emit".to_string(), true);
    for (failure, states) in [
        (KernelError::Denied("plugin error: budget exhausted".to_string()), vec![]),
        (KernelError::BudgetExhausted("fixture::emit".to_string()), vec![RunState::Paused]),
    ] {
        let mut rt = Toy::new(1);
        rt.failure = Some(failure);
        rt.signals = vec![RunSignal::Abort { expired: false }];
        let end = exec_thread(&mut rt, &plan, "n", &schemas);
        assert!(matches!(end, Settlement::RollBack(_)));
        assert_eq!(rt.states, states);
        assert_eq!(rt.invoked.len(), 1);
        assert_eq!(rt.invoked[0].0, "fixture::emit");
    }
}

#[test]
fn pure_evaluation_runs_in_the_compute_plugin() {
    let plan = Plan {
        stmts: vec![
            Stmt::Let {
                var: "u".to_string(),
                expr: Expr::Pure {
                    func: "upper".to_string(),
                    args: vec![Expr::Const { value: text("hi") }],
                },
            },
            emit(Expr::Var { name: "u".to_string() }),
        ],
    };
    let mut rt = Toy::new(1);
    assert_eq!(exec_thread(&mut rt, &plan, "n", &schemas()), Settlement::Commit);
    assert_eq!(rt.logged, 1);
    let called: Vec<&str> = rt.invoked.iter().map(|(v, _)| v.as_str()).collect();
    assert_eq!(called, ["compute::run", "echo::emit"]);
    assert_eq!(rt.invoked[0].1.get("func"), Some(&text("upper")));
    assert_eq!(rt.invoked[1].1, Json::Array(vec![text("HI")]));
}

#[test]
fn what_is_confidential_does_not_leave() {
    let mut schemas = schemas();
    schemas.observe.insert("compute::run".to_string(), Label::with_conf("secret:resume"));
    let plan = Plan {
        stmts: vec![
            emit(Expr::Const { value: text("public") }),
            Stmt::Let {
                var: "s".to_string(),
                expr: Expr::Observe { verb: "compute::run".to_string(), args: vec![] },
            },
            emit(Expr::Var { name: "s".to_string() }),
        ],
    };
    let mut rt = Toy::new(5);
    match exec_thread(&mut rt, &plan, "n", &schemas) {
        Settlement::RollBack(Outcome::FailStop { at }) => {
            assert_eq!(at, "sink denied: echo::emit")
        }
        other => panic!("{other:?}"),
    }
    assert_eq!(rt.logged, 1);
    let called: Vec<&str> = rt.invoked.iter().map(|(v, _)| v.as_str()).collect();
    assert_eq!(called, ["echo::emit", "compute::run"]);
}

#[test]
fn a_nonce_pays_once() {
    let mut used = StrSet::new();
    let c = sign("h", "n", 1);
    assert!(check_and_consume_consent(&c, &key(), "other", 1001, &mut used).is_err());
    assert!(check_and_consume_consent(&c, &key(), "h", 1001, &mut used).is_ok());
    let e = check_and_consume_consent(&c, &key(), "h", 1001, &mut used).unwrap_err();
    assert_eq!(e.message(), "denied: stale nonce: n");
    assert!(used.contains("n"));
}

#[test]
fn runs_have_names_and_states() {
    assert_eq!(fiber_of("h", "r"), "plan:h#r");
    assert_eq!(segment_of("plan:h#r"), "plan:h#r:seg");
    let states = [
        RunState::Admitted,
        RunState::Running,
        RunState::AwaitingApproval,
        RunState::Paused,
        RunState::Done,
    ];
    for s in states {
        assert_eq!(RunState::from_name(s.as_str()).unwrap(), s);
    }
    assert!(RunState::from_name("else").is_err());
    let rows: Vec<(String, RunState)> =
        states.iter().map(|s| (s.as_str().to_string(), *s)).collect();
    assert_eq!(recover(&rows), vec!["running".to_string(), "paused".to_string()]);
}

#[test]
fn an_abort_is_never_replaced() {
    let mut c = RunControl::default();
    assert!(c.wait().is_none());
    c.resume(sign("h", "n", 1));
    c.abort(false);
    c.resume(sign("h", "m", 1));
    assert!(matches!(c.wait(), Some(RunSignal::Abort { expired: false })));
    assert!(c.wait().is_none());
}

fn grant(verbs: &[&str]) -> Capability {
    let mut s = StrSet::new();
    for v in verbs {
        s.insert(v.to_string());
    }
    Capability {
        cap_id: "c".to_string(),
        subject: "plugin:p".to_string(),
        resource: "driver:echo".to_string(),
        verbs: s,
        constraints: Constraints::default(),
        parent: None,
        revoked: false,
    }
}

#[test]
fn a_submission_names_its_plan_and_its_budget() {
    let plan = || Ok(foreach_plan(&["a", "b", "c"], 3, Mode::Strict));
    let bytes = b"plan";
    let out = submit("plugin:p", bytes, &plan(), &schemas(), &vec![grant(&["emit"])]).unwrap();
    assert_eq!(out.plan_hash, id_for_bytes(bytes));
    assert_eq!(out.budget.get("echo::emit"), Some(&3));
    assert!(out.rendering.contains("echo::emit <= 3"));
    assert!(out.run_id.starts_with("run_"));
    assert_eq!(out.run_id.len(), 20);
    let e = submit("plugin:p", bytes, &Err("eof".to_string()), &schemas(), &vec![]).unwrap_err();
    assert_eq!(e.message(), "corrupt: plan parse: eof");
    let e = submit("plugin:p", bytes, &plan(), &schemas(), &vec![grant(&["list"])]).unwrap_err();
    assert_eq!(
        e.message(),
        "denied: plan verbs outside the submitter's grants: [\"echo::emit\"]"
    );
    assert!(submit("user", bytes, &plan(), &schemas(), &vec![]).is_ok());
}

#[test]
fn guards_decide() {
    let run = |guard: Guard| {
        let mut rt = Toy::new(9);
        let plan = Plan {
            stmts: vec![Stmt::If {
                guard,
                then_: vec![Stmt::Effect { verb: "echo::emit".to_string(), args: vec![] }],
                else_: vec![],
            }],
        };
        match exec_thread(&mut rt, &plan, "n", &schemas()) {
            Settlement::Commit => rt.invoked.len() == 1,
            _ => panic!(),
        }
    };
    let word = |s: &str| Box::new(Expr::Const { value: text(s) });
    let num = |n: u64| Box::new(Expr::Const { value: Json::Number(Num::Nat(n)) });
    let list = |n: usize| {
        Box::new(Expr::Const { value: Json::Array((0..n).map(|_| Json::Null).collect()) })
    };
    assert!(run(Guard::Exists { expr: list(1) }));
    assert!(!run(Guard::Exists { expr: list(0) }));
    assert!(run(Guard::Matches { expr: word("abc123"), regex: "^[a-c]+\\d{3}$".to_string() }));
    assert!(!run(Guard::Matches { expr: word("abc"), regex: "\\d".to_string() }));
    assert!(run(Guard::Cmp { lhs: num(2), op: CmpOp::Lt, rhs: num(10) }));
    assert!(run(Guard::Cmp { lhs: word("b"), op: CmpOp::Ge, rhs: word("a") }));
    assert!(run(Guard::Not { g: Box::new(Guard::Exists { expr: list(0) }) }));
    assert!(run(Guard::And {
        l: Box::new(Guard::Exists { expr: list(1) }),
        r: Box::new(Guard::Or {
            l: Box::new(Guard::Exists { expr: list(0) }),
            r: Box::new(Guard::Exists { expr: list(2) }),
        }),
    }));
}

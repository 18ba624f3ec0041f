use portos_kernel::artifact::id_for_bytes;
use portos_kernel::consent::{consent_mac, Budget, ConsentKey, ConsentRecord};
use portos_kernel::interp::{run_plan, EffectExec, StopReason};
use portos_kernel::json::{Json, Num};
use portos_kernel::label::Label;
use portos_kernel::plan::{Expr, Mode, Plan, Stmt};
use portos_kernel::plancheck::{admit_plan, VerbSchemas};

struct Toy {
    emitted: Vec<String>,
}

impl EffectExec for Toy {
    fn observe(&mut self, _verb: &str, _args: &Vec<Json>) -> Result<Json, String> {
        Ok(Json::Array(vec![
            Json::Str("a".to_string()),
            Json::Str("b".to_string()),
            Json::Number(Num::Nat(3)),
        ]))
    }
    fn effect(&mut self, verb: &str, args: &Vec<Json>) -> Result<(), String> {
        self.emitted.push(format!("{verb} {args:?}"));
        Ok(())
    }
    fn pure(&mut self, _func: &str, args: &Vec<Json>) -> Result<Json, String> {
        Ok(args[0].clone())
    }
}

#[test]
fn a_consented_plan_runs_to_its_end() {
    let mut schemas = VerbSchemas::default();
    schemas.observe.insert("echo.list".to_string(), Label::with_integ("toy:echo"));
    schemas.external_effects.insert("echo.emit".to_string(), false);
    let plan = Plan {
        stmts: vec![
            Stmt::Let {
                var: "xs".to_string(),
                expr: Expr::Observe { verb: "echo.list".to_string(), args: vec![] },
            },
            Stmt::Foreach {
                var: "x".to_string(),
                list: Expr::Var { name: "xs".to_string() },
                bound: 3,
                mode: Mode::Strict,
                body: vec![Stmt::Effect {
                    verb: "echo.emit".to_string(),
                    args: vec![Expr::Var { name: "x".to_string() }],
                }],
            },
        ],
    };
    let bytes = b"plan bytes";
    let key = ConsentKey::from_stored(&[7u8; 32]).unwrap();
    let mut budget = Budget::new();
    budget.insert("echo.emit".to_string(), 3);
    let hash = id_for_bytes(bytes);
    let mac = consent_mac(&key, &hash, &budget, "n1", 10, 100);
    let consent = ConsentRecord {
        plan_hash: hash,
        budget,
        nonce: "n1".to_string(),
        issued_at: 10,
        ttl_secs: 100,
        mac,
    };
    let mut toy = Toy { emitted: vec![] };
    let mut audit = vec![];
    let plan = Ok(plan);
    let out = run_plan(bytes, &plan, &consent, &key, 50, &schemas, &mut toy, &mut audit);
    assert_eq!(out.status, StopReason::Completed);
    assert_eq!(out.effects_executed, 3);
    assert_eq!(toy.emitted.len(), 3);
    assert_eq!(out.trace.len(), 4);
    let number = |n: u64| Json::Number(Num::Nat(n));
    let text = |s: &str| Json::Str(s.to_string());
    assert_eq!(audit.len(), 2);
    assert_eq!(audit[0].get("event"), Some(&text("plan.admitted")));
    assert_eq!(audit[0].get("plan"), Some(&text(&consent.plan_hash)));
    assert_eq!(audit[0].get("budget").unwrap().get("echo.emit"), Some(&number(3)));
    let steps = admit_plan(plan.as_ref().unwrap(), &schemas).unwrap().worst_case_steps;
    assert_eq!(audit[0].get("worst_case_steps"), Some(&number(steps)));
    assert_eq!(
        audit[1],
        Json::Object(vec![
            ("event".to_string(), text("plan.finished")),
            ("status".to_string(), text("Completed")),
            ("effects".to_string(), number(3)),
        ])
    );
    // A refused run performs nothing and leaves the record of its end alone.
    let refuse = |bytes: &[u8], plan: &Result<Plan, String>, now: u64| {
        let mut audit = vec![];
        let mut toy = Toy { emitted: vec![] };
        let out = run_plan(bytes, plan, &consent, &key, now, &schemas, &mut toy, &mut audit);
        assert!(toy.emitted.is_empty() && out.trace.is_empty());
        assert_eq!((out.effects_executed, audit.len()), (0, 1));
        assert_eq!(audit[0].get("event"), Some(&text("plan.finished")));
        assert_eq!(audit[0].get("effects"), Some(&number(0)));
        assert_eq!(audit[0].get("status"), Some(&text(&format!("{:?}", out.status))));
        out.status
    };
    assert!(matches!(refuse(b"other", &plan, 50), StopReason::ConsentMismatch(_)));
    assert!(matches!(refuse(bytes, &plan, 111), StopReason::ConsentMismatch(_)));
    assert_eq!(
        refuse(bytes, &Err("eof \"x\"".to_string()), 50),
        StopReason::AdmissionRejected("parse: eof \"x\"".to_string())
    );
}

#[test]
fn reasons_are_told_as_they_stand() {
    for status in [
        StopReason::Completed,
        StopReason::ConsentMismatch("a \"b\"".to_string()),
        StopReason::AdmissionRejected("c".to_string()),
        StopReason::BudgetExhausted("v".to_string()),
        StopReason::BoundExceeded { bound: 2, actual: 30 },
        StopReason::EscalateRequested { bound: 0, actual: 1 },
        StopReason::ExecFailed("d\n'\\ \u{e9}".to_string()),
        StopReason::GuardError("".to_string()),
    ] {
        assert_eq!(status.text(), format!("{status:?}"));
    }
}

use portos_kernel::json::Json;
use portos_kernel::label::Label;
use portos_kernel::plan::{CmpOp, Expr, Guard, Mode, Plan, Stmt};
use portos_kernel::plan_demand::{mint_fiber_caps, split_verb, verb_demand};
use portos_kernel::plan_ir::{to_ast_nodes, AstNode};
use portos_kernel::plancheck::{admit_plan, AdmitError, VerbSchemas, MAX_DEPTH, MAX_NODES};
use std::collections::BTreeMap;

fn toy_schemas() -> VerbSchemas {
    let mut s = VerbSchemas::default();
    s.observe.insert("echo.list".to_string(), Label::with_integ("toy:echo"));
    s.observe.insert("secret.read".to_string(), Label::with_conf("secret:demo"));
    s.external_effects.insert("echo.emit".to_string(), false);
    s.external_effects.insert("external.send".to_string(), true);
    s
}

fn text(s: &str) -> Expr {
    Expr::Const { value: Json::Str(s.to_string()) }
}

fn observe(verb: &str) -> Expr {
    Expr::Observe { verb: verb.to_string(), args: vec![] }
}

fn effect(verb: &str, args: Vec<Expr>) -> Stmt {
    Stmt::Effect { verb: verb.to_string(), args }
}

#[test]
fn budget_multiplies_through_loops() {
    let plan = Plan {
        stmts: vec![
            Stmt::Let { var: "xs".to_string(), expr: observe("echo.list") },
            Stmt::Foreach {
                var: "x".to_string(),
                list: Expr::Var { name: "xs".to_string() },
                bound: 3,
                mode: Mode::Strict,
                body: vec![effect("echo.emit", vec![Expr::Var { name: "x".to_string() }])],
            },
        ],
    };
    let adm = admit_plan(&plan, &toy_schemas()).unwrap();
    assert_eq!(adm.budget.get("echo.emit"), Some(&3));
    assert!(adm.effects[0].effective.integ.contains("toy:echo"));
    assert_eq!(adm.effects[0].multiplier, 3);
}

#[test]
fn pc_label_blocks_confidential_branch_to_external_sink() {
    let plan = Plan {
        stmts: vec![Stmt::If {
            guard: Guard::Cmp {
                lhs: Box::new(observe("secret.read")),
                op: CmpOp::Eq,
                rhs: Box::new(text("A")),
            },
            then_: vec![effect("external.send", vec![text("hi")])],
            else_: vec![],
        }],
    };
    let err = admit_plan(&plan, &toy_schemas()).unwrap_err();
    assert!(
        matches!(err, AdmitError::SinkDenied { .. }),
        "implicit flow via pc must be caught statically, got: {}",
        err.message()
    );
}

#[test]
fn same_effect_outside_secret_branch_is_fine() {
    let plan = Plan { stmts: vec![effect("external.send", vec![text("hi")])] };
    assert!(admit_plan(&plan, &toy_schemas()).is_ok());
}

#[test]
fn unknown_names_are_refused() {
    let plan = Plan { stmts: vec![effect("nobody.knows", vec![])] };
    assert!(matches!(
        admit_plan(&plan, &toy_schemas()),
        Err(AdmitError::UnknownVerb(v)) if v == "nobody.knows"
    ));
    let plan = Plan {
        stmts: vec![effect("echo.emit", vec![Expr::Var { name: "free".to_string() }])],
    };
    assert!(matches!(
        admit_plan(&plan, &toy_schemas()),
        Err(AdmitError::UnknownVar(v)) if v == "free"
    ));
    let plan = Plan { stmts: vec![Stmt::Let { var: "x".to_string(), expr: observe("what") }] };
    assert!(matches!(
        admit_plan(&plan, &toy_schemas()),
        Err(AdmitError::UnknownVerb(v)) if v == "what"
    ));
}

#[test]
fn plans_have_limits() {
    let many = Plan { stmts: (0..MAX_NODES + 1).map(|_| effect("echo.emit", vec![])).collect() };
    assert!(matches!(admit_plan(&many, &toy_schemas()), Err(AdmitError::TooLarge { .. })));
    let mut body = vec![effect("echo.emit", vec![])];
    for _ in 0..MAX_DEPTH + 1 {
        body = vec![Stmt::Foreach {
            var: "x".to_string(),
            list: Expr::Const { value: Json::Array(vec![]) },
            bound: 1,
            mode: Mode::Strict,
            body,
        }];
    }
    let deep = Plan { stmts: body };
    assert!(matches!(admit_plan(&deep, &toy_schemas()), Err(AdmitError::TooDeep { .. })));
    let long = Plan {
        stmts: vec![Stmt::Foreach {
            var: "x".to_string(),
            list: Expr::Const { value: Json::Array(vec![]) },
            bound: 1_000_000,
            mode: Mode::Strict,
            body: vec![effect("echo.emit", vec![])],
        }],
    };
    assert!(matches!(admit_plan(&long, &toy_schemas()), Err(AdmitError::StepCeiling { .. })));
}

#[derive(Clone)]
enum Shape {
    Effect(&'static str),
    Look,
    If(Vec<Shape>, Vec<Shape>),
    Loop(u32, Vec<Shape>),
}

fn stmt(s: &Shape) -> Stmt {
    match s {
        Shape::Effect(v) => effect(v, vec![]),
        Shape::Look => Stmt::Let { var: "x".to_string(), expr: observe("wp::list") },
        Shape::If(a, b) => Stmt::If {
            guard: Guard::Exists {
                expr: Box::new(Expr::Const { value: Json::Array(vec![]) }),
            },
            then_: a.iter().map(stmt).collect(),
            else_: b.iter().map(stmt).collect(),
        },
        Shape::Loop(bound, body) => Stmt::Foreach {
            var: "x".to_string(),
            list: Expr::Const { value: Json::Array(vec![]) },
            bound: *bound,
            mode: Mode::Strict,
            body: body.iter().map(stmt).collect(),
        },
    }
}

fn plans_up_to_depth(depth: u32) -> Vec<Vec<Shape>> {
    let mut all: Vec<Vec<Shape>> =
        vec![vec![Shape::Effect("wp::a")], vec![Shape::Effect("wp::b")], vec![Shape::Look]];
    for _ in 0..depth {
        let mut next = Vec::new();
        for p in &all {
            for q in &all {
                next.push([p.clone(), q.clone()].concat());
                next.push(vec![Shape::If(p.clone(), q.clone())]);
            }
            for bound in 0..=3u32 {
                next.push(vec![Shape::Loop(bound, p.clone())]);
            }
        }
        all.extend(next);
    }
    all
}

fn demand_sum(nodes: &[AstNode], times: u64, out: &mut BTreeMap<String, u64>) {
    for n in nodes {
        match n {
            AstNode::Effect { verb } => *out.entry(verb.clone()).or_insert(0) += times,
            AstNode::Loop { bound, body } => demand_sum(body, times * bound, out),
            AstNode::Branch { then_, else_ } => {
                demand_sum(then_, times, out);
                demand_sum(else_, times, out);
            }
            AstNode::Opaque => {}
        }
    }
}

#[test]
fn plancheck_budget_equals_demand_sum_on_all_small_plans() {
    let mut schemas = VerbSchemas::default();
    schemas.observe.insert("wp::list".to_string(), Label::public_trusted());
    schemas.external_effects.insert("wp::a".to_string(), false);
    schemas.external_effects.insert("wp::b".to_string(), false);
    let shapes = plans_up_to_depth(2);
    assert_eq!(shapes.len(), 3 + 30 + 2310);
    for shape in &shapes {
        let plan = Plan { stmts: shape.iter().map(stmt).collect() };
        let adm = admit_plan(&plan, &schemas).unwrap();
        let mut got = BTreeMap::new();
        for i in 0..adm.budget.len() {
            if *adm.budget.value_at(i) > 0 {
                got.insert(adm.budget.key_at(i).clone(), *adm.budget.value_at(i));
            }
        }
        let mut want = BTreeMap::new();
        demand_sum(&to_ast_nodes(&plan), 1, &mut want);
        want.retain(|_, n| *n > 0);
        assert_eq!(got, want);
    }
}

#[test]
fn demand_names_every_verb_that_a_plan_may_reach() {
    let plan = Plan {
        stmts: vec![Stmt::If {
            guard: Guard::Not {
                g: Box::new(Guard::Matches {
                    expr: Box::new(observe("a::read")),
                    regex: "x".to_string(),
                }),
            },
            then_: vec![effect("b::send", vec![observe("c::peek")])],
            else_: vec![Stmt::Let { var: "y".to_string(), expr: observe("d::look") }],
        }],
    };
    let demand = verb_demand(&plan);
    assert_eq!(demand.len(), 4);
    for v in ["a::read", "b::send", "c::peek", "d::look"] {
        assert!(demand.contains(v), "{v}");
    }
}

#[test]
fn verbs_split_at_the_first_and_the_last_double_colon() {
    assert_eq!(split_verb("fam::sub::act"), ("fam".to_string(), "act".to_string()));
    assert_eq!(split_verb("plain"), ("plain".to_string(), "plain".to_string()));
}

#[test]
fn a_consent_pays_for_the_effects_of_its_budget() {
    let plan = Plan { stmts: vec![effect("echo::emit", vec![observe("echo::list")])] };
    let mut budget = portos_kernel::consent::Budget::new();
    budget.insert("echo::emit".to_string(), 2);
    let consent = portos_kernel::consent::ConsentRecord {
        plan_hash: "blake3:x".to_string(),
        budget,
        nonce: "n".to_string(),
        issued_at: 10,
        ttl_secs: 5,
        mac: String::new(),
    };
    let orders = mint_fiber_caps(&plan, &consent);
    let counted: Vec<_> =
        orders.iter().filter(|o| o.constraints.counts.get("emit").is_some()).collect();
    assert_eq!(counted.len(), 1);
    assert_eq!(counted[0].constraints.counts.get("emit"), Some(&2));
    assert_eq!(counted[0].constraints.expires_at, Some(15));
}

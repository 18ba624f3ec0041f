//! Admission of plans: what is decided about a plan before anyone consents to it.
//!
//! One walk over the finite tree derives the size and the worst-case number of steps, follows
//! the labels of data and of control, refuses confidential data at external sinks, and sums
//! the effects into a budget.

use crate::label::{below, bottom, joined, Label, Tags};
use crate::plan::{expr_size, exprs_size, guard_size, stmts_size, Expr, Guard, Plan, Stmt};
use crate::error::joined_text;
use crate::strmap::{StrMap, StrSet};
use crate::text::{debug_of, debug_text, decimal, push_decimal};
use vstd::prelude::*;

verus! {

/// The largest number of nodes of an admitted plan.
pub const MAX_NODES: usize = 4096;

/// The deepest nesting of an admitted plan.
pub const MAX_DEPTH: usize = 16;

/// The largest worst-case number of steps of an admitted plan.
pub const S_MAX: u64 = 100_000;

/// What is declared about verbs.
#[derive(Debug)]
pub struct VerbSchemas {
    /// The label that the results of an observation carry.
    pub observe: StrMap<Label>,
    /// Whether an effect is an external sink.
    pub external_effects: StrMap<bool>,
}

impl Default for VerbSchemas {
    fn default() -> (s: Self)
        ensures
            s.observe@ == Map::<Seq<char>, Label>::empty(),
            s.external_effects@ == Map::<Seq<char>, bool>::empty(),
    {
        VerbSchemas { observe: StrMap::new(), external_effects: StrMap::new() }
    }
}

/// Why a plan is not admitted.
#[derive(Debug)]
pub enum AdmitError {
    Parse(String),
    TooLarge { nodes: usize },
    TooDeep { depth: usize },
    StepCeiling { worst_case: u64 },
    UnknownVerb(String),
    UnknownVar(String),
    /// An effect with a confidential effective label meets an external sink.
    SinkDenied { verb: String, label: Label },
}

/// An effect of an admitted plan.
#[derive(Debug)]
pub struct EffectAnn {
    pub verb: String,
    /// The join of the labels of the arguments and of the control that leads to the effect.
    pub effective: Label,
    /// The product of the bounds of the enclosing loops.
    pub multiplier: u64,
}

/// What is known of an admitted plan.
#[derive(Debug)]
pub struct Admission {
    pub budget: StrMap<u64>,
    pub effects: Vec<EffectAnn>,
    pub worst_case_steps: u64,
    pub node_count: usize,
}

impl Default for Admission {
    fn default() -> (a: Self)
        ensures
            a.budget@ == Map::<Seq<char>, u64>::empty(),
            a.effects@.len() == 0,
            a.worst_case_steps == 0,
            a.node_count == 0,
    {
        Admission {
            budget: StrMap::new(),
            effects: Vec::new(),
            worst_case_steps: 0,
            node_count: 0,
        }
    }
}

/// What the annotation of an effect says.
#[verifier::ext_equal]
pub struct Sink {
    pub verb: Seq<char>,
    pub effective: Tags,
    pub multiplier: u64,
}

impl View for EffectAnn {
    type V = Sink;

    open spec fn view(&self) -> Sink {
        Sink { verb: self.verb@, effective: self.effective@, multiplier: self.multiplier }
    }
}

/// What the annotations of a list of effects say.
pub open spec fn sinks(effects: Seq<EffectAnn>) -> Seq<Sink> {
    Seq::new(effects.len(), |i: int| effects[i]@)
}

/// What an error of admission says.
pub enum Fault {
    Parse(Seq<char>),
    TooLarge(usize),
    TooDeep(nat),
    StepCeiling(u64),
    UnknownVerb(Seq<char>),
    UnknownVar(Seq<char>),
    SinkDenied(Seq<char>, Tags),
}

impl View for AdmitError {
    type V = Fault;

    open spec fn view(&self) -> Fault {
        match self {
            AdmitError::Parse(e) => Fault::Parse(e@),
            AdmitError::TooLarge { nodes } => Fault::TooLarge(*nodes),
            AdmitError::TooDeep { depth } => Fault::TooDeep(*depth as nat),
            AdmitError::StepCeiling { worst_case } => Fault::StepCeiling(*worst_case),
            AdmitError::UnknownVerb(v) => Fault::UnknownVerb(v@),
            AdmitError::UnknownVar(v) => Fault::UnknownVar(v@),
            AdmitError::SinkDenied { verb, label } => Fault::SinkDenied(verb@, label@),
        }
    }
}

/// The labels that are declared for observations.
pub open spec fn observed(schemas: &VerbSchemas) -> Map<Seq<char>, Tags> {
    schemas.observe@.map_values(|l: Label| l@)
}

/// The labels of variables.
pub type Env = Map<Seq<char>, Tags>;

/// The label of an expression: that of its source, joined with those of its arguments.
pub open spec fn expr_flow(e: Expr, env: Env, obs: Env) -> Result<Tags, Fault>
    decreases e,
{
    match e {
        Expr::Observe { verb, args } => if obs.contains_key(verb@) {
            exprs_flow(args@, obs[verb@], env, obs)
        } else {
            Err(Fault::UnknownVerb(verb@))
        },
        Expr::Pure { func, args } => exprs_flow(args@, bottom(), env, obs),
        Expr::Const { value } => Ok(bottom()),
        Expr::Var { name } => if env.contains_key(name@) {
            Ok(env[name@])
        } else {
            Err(Fault::UnknownVar(name@))
        },
        Expr::Index { base, idx } => expr_flow(*base, env, obs),
    }
}

/// A label joined with those of a list of expressions; the first fault counts.
pub open spec fn exprs_flow(es: Seq<Expr>, acc: Tags, env: Env, obs: Env) -> Result<Tags, Fault>
    decreases es,
{
    if es.len() == 0 {
        Ok(acc)
    } else {
        match expr_flow(es[0], env, obs) {
            Ok(l) => exprs_flow(es.drop_first(), joined(acc, l), env, obs),
            Err(f) => Err(f),
        }
    }
}

/// The join of two labels, the first fault counting.
pub open spec fn both(a: Result<Tags, Fault>, b: Result<Tags, Fault>) -> Result<Tags, Fault> {
    match a {
        Err(f) => Err(f),
        Ok(x) => match b {
            Err(f) => Err(f),
            Ok(y) => Ok(joined(x, y)),
        },
    }
}

/// The label of a guard: the join of the labels of everything that it looks at.
pub open spec fn guard_flow(g: Guard, env: Env, obs: Env) -> Result<Tags, Fault>
    decreases g,
{
    match g {
        Guard::Exists { expr } => expr_flow(*expr, env, obs),
        Guard::Matches { expr, regex } => expr_flow(*expr, env, obs),
        Guard::Cmp { lhs, op, rhs } => both(expr_flow(*lhs, env, obs), expr_flow(*rhs, env, obs)),
        Guard::And { l, r } => both(guard_flow(*l, env, obs), guard_flow(*r, env, obs)),
        Guard::Or { l, r } => both(guard_flow(*l, env, obs), guard_flow(*r, env, obs)),
        Guard::Not { g } => guard_flow(*g, env, obs),
    }
}

/// A number held to the range of `u64`.
pub open spec fn sat(n: int) -> u64 {
    if n > u64::MAX {
        u64::MAX
    } else {
        n as u64
    }
}

/// What the flow of labels through statements leaves behind: the labels of the variables and
/// the effects that were met.
#[verifier::ext_equal]
pub struct Flow {
    pub env: Env,
    pub sinks: Seq<Sink>,
}

/// The flow through one statement, under the label `pc` of the control that leads to it.
pub open spec fn stmt_flow(
    s: Stmt,
    at: Flow,
    pc: Tags,
    mult: u64,
    depth: nat,
    obs: Env,
    external: Map<Seq<char>, bool>,
) -> Result<Flow, Fault>
    decreases s,
{
    match s {
        Stmt::Let { var, expr } => match expr_flow(expr, at.env, obs) {
            Err(f) => Err(f),
            Ok(l) => Ok(Flow { env: at.env.insert(var@, l), sinks: at.sinks }),
        },
        Stmt::Effect { verb, args } => if !external.contains_key(verb@) {
            Err(Fault::UnknownVerb(verb@))
        } else {
            match exprs_flow(args@, pc, at.env, obs) {
                Err(f) => Err(f),
                Ok(l) => if external[verb@] && l.conf != Set::<Seq<char>>::empty() {
                    Err(Fault::SinkDenied(verb@, l))
                } else {
                    Ok(
                        Flow {
                            env: at.env,
                            sinks: at.sinks.push(
                                Sink { verb: verb@, effective: l, multiplier: mult },
                            ),
                        },
                    )
                },
            }
        },
        Stmt::If { guard, then_, else_ } => match guard_flow(guard, at.env, obs) {
            Err(f) => Err(f),
            Ok(l) => match stmts_flow(then_@, at, joined(pc, l), mult, depth + 1, obs, external) {
                Err(f) => Err(f),
                Ok(mid) => stmts_flow(
                    else_@,
                    mid,
                    joined(pc, l),
                    mult,
                    depth + 1,
                    obs,
                    external,
                ),
            },
        },
        Stmt::Foreach { var, list, bound, mode, body } => match expr_flow(list, at.env, obs) {
            Err(f) => Err(f),
            Ok(l) => stmts_flow(
                body@,
                Flow { env: at.env.insert(var@, l), sinks: at.sinks },
                joined(pc, l),
                sat(mult * bound),
                depth + 1,
                obs,
                external,
            ),
        },
    }
}

/// The flow through statements at a depth of nesting.
pub open spec fn stmts_flow(
    ss: Seq<Stmt>,
    at: Flow,
    pc: Tags,
    mult: u64,
    depth: nat,
    obs: Env,
    external: Map<Seq<char>, bool>,
) -> Result<Flow, Fault>
    decreases ss,
{
    if depth > MAX_DEPTH {
        Err(Fault::TooDeep(depth))
    } else if ss.len() == 0 {
        Ok(at)
    } else {
        match stmt_flow(ss[0], at, pc, mult, depth, obs, external) {
            Err(f) => Err(f),
            Ok(mid) => stmts_flow(ss.drop_first(), mid, pc, mult, depth, obs, external),
        }
    }
}

/// The flow through a whole plan.
pub open spec fn plan_flow(plan: &Plan, schemas: &VerbSchemas) -> Result<Flow, Fault> {
    stmts_flow(
        plan.stmts@,
        Flow { env: Map::empty(), sinks: Seq::empty() },
        bottom(),
        1,
        1,
        observed(schemas),
        schemas.external_effects@,
    )
}

/// The most steps that a statement can take: every branch is counted, and a loop as often as
/// its bound allows.
pub open spec fn stmt_steps(s: Stmt) -> nat
    decreases s,
{
    match s {
        Stmt::Let { var, expr } => 1,
        Stmt::Effect { verb, args } => 1,
        Stmt::If { guard, then_, else_ } => 1 + stmts_steps(then_@) + stmts_steps(else_@),
        Stmt::Foreach { var, list, bound, mode, body } => 1 + (bound as nat) * stmts_steps(body@),
    }
}

/// The most steps that statements can take.
pub open spec fn stmts_steps(ss: Seq<Stmt>) -> nat
    decreases ss,
{
    if ss.len() == 0 {
        0
    } else {
        stmt_steps(ss[0]) + stmts_steps(ss.drop_first())
    }
}

/// How often a statement can perform a verb: the sum over the occurrences, each multiplied by
/// the bounds of the loops around it.
pub open spec fn stmt_demand(s: Stmt, verb: Seq<char>) -> nat
    decreases s,
{
    match s {
        Stmt::Let { var, expr } => 0,
        Stmt::Effect { verb: v, args } => if v@ == verb {
            1
        } else {
            0
        },
        Stmt::If { guard, then_, else_ } => stmts_demand(then_@, verb) + stmts_demand(else_@, verb),
        Stmt::Foreach { var, list, bound, mode, body } => (bound as nat) * stmts_demand(body@, verb),
    }
}

/// How often statements can perform a verb.
pub open spec fn stmts_demand(ss: Seq<Stmt>, verb: Seq<char>) -> nat
    decreases ss,
{
    if ss.len() == 0 {
        0
    } else {
        stmt_demand(ss[0], verb) + stmts_demand(ss.drop_first(), verb)
    }
}

/// Whether a statement names a verb as an effect.
pub open spec fn stmt_names(s: Stmt, verb: Seq<char>) -> bool
    decreases s,
{
    match s {
        Stmt::Let { var, expr } => false,
        Stmt::Effect { verb: v, args } => v@ == verb,
        Stmt::If { guard, then_, else_ } => stmts_name(then_@, verb) || stmts_name(else_@, verb),
        Stmt::Foreach { var, list, bound, mode, body } => stmts_name(body@, verb),
    }
}

/// Whether statements name a verb as an effect.
pub open spec fn stmts_name(ss: Seq<Stmt>, verb: Seq<char>) -> bool
    decreases ss,
{
    if ss.len() == 0 {
        false
    } else {
        stmt_names(ss[0], verb) || stmts_name(ss.drop_first(), verb)
    }
}

/// Nodes that have been counted, held to the range of `usize`.
pub open spec fn counted(n: int) -> usize {
    if n > usize::MAX {
        usize::MAX
    } else {
        n as usize
    }
}

/// Why a plan is not admitted, if so: a fault of the walk first, then its size, then its steps.
pub open spec fn admission_fault(plan: &Plan, schemas: &VerbSchemas) -> Option<Fault> {
    match plan_flow(plan, schemas) {
        Err(f) => Some(f),
        Ok(_) => if stmts_size(plan.stmts@) > MAX_NODES {
            Some(Fault::TooLarge(counted(stmts_size(plan.stmts@) as int)))
        } else if stmts_steps(plan.stmts@) > S_MAX {
            Some(Fault::StepCeiling(sat(stmts_steps(plan.stmts@) as int)))
        } else {
            None
        },
    }
}

struct Walk {
    env: StrMap<Label>,
    out: Admission,
}

impl Walk {
    spec fn flow(&self) -> Flow {
        Flow { env: self.env@.map_values(|l: Label| l@), sinks: sinks(self.out.effects@) }
    }
}

/// What a walk adds to the counts and to the budget.
spec fn tallied(before: Walk, after: Walk, mult: u64, ss: Seq<Stmt>) -> bool {
    &&& after.out.node_count == counted(before.out.node_count + stmts_size(ss))
    &&& after.out.worst_case_steps == sat(before.out.worst_case_steps + mult * stmts_steps(ss))
    &&& budget_tallied(before.out.budget@, after.out.budget@, mult, ss)
}

spec fn at_or_zero(b: Map<Seq<char>, u64>, v: Seq<char>) -> u64 {
    if b.contains_key(v) {
        b[v]
    } else {
        0
    }
}

spec fn budget_tallied(
    before: Map<Seq<char>, u64>,
    after: Map<Seq<char>, u64>,
    mult: u64,
    ss: Seq<Stmt>,
) -> bool {
    forall|v: Seq<char>| #![trigger after.contains_key(v)]
        {
            &&& after.contains_key(v) == (before.contains_key(v) || stmts_name(ss, v))
            &&& at_or_zero(after, v) == sat(at_or_zero(before, v) + mult * stmts_demand(ss, v))
        }
}

fn expr_label(w: &mut Walk, e: &Expr, schemas: &VerbSchemas) -> (r: Result<Label, AdmitError>)
    ensures
        final(w).env == old(w).env,
        final(w).out.budget == old(w).out.budget,
        final(w).out.effects == old(w).out.effects,
        final(w).out.worst_case_steps == old(w).out.worst_case_steps,
        match r {
            Ok(l) => {
                &&& expr_flow(*e, old(w).flow().env, observed(schemas)) == Ok::<Tags, Fault>(l@)
                &&& final(w).out.node_count == counted(old(w).out.node_count + expr_size(*e))
            },
            Err(x) => expr_flow(*e, old(w).flow().env, observed(schemas)) == Err::<Tags, Fault>(
                x@,
            ),
        },
    decreases e,
{
    w.out.node_count = w.out.node_count.saturating_add(1);
    match e {
        Expr::Observe { verb, args } => match schemas.observe.get(verb.as_str()) {
            None => Err(AdmitError::UnknownVerb(verb.clone())),
            Some(base) => {
                assert(decreases_to!(e => args@));
                exprs_label(w, args, base, schemas)
            },
        },
        Expr::Pure { func, args } => {
            assert(decreases_to!(e => args@));
            exprs_label(w, args, &Label::public_trusted(), schemas)
        },
        Expr::Const { value } => Ok(Label::public_trusted()),
        Expr::Var { name } => match w.env.get(name.as_str()) {
            None => Err(AdmitError::UnknownVar(name.clone())),
            Some(l) => Ok(l.clone()),
        },
        Expr::Index { base, idx } => expr_label(w, base, schemas),
    }
}

fn exprs_label(w: &mut Walk, es: &Vec<Expr>, start: &Label, schemas: &VerbSchemas) -> (r: Result<
    Label,
    AdmitError,
>)
    ensures
        final(w).env == old(w).env,
        final(w).out.budget == old(w).out.budget,
        final(w).out.effects == old(w).out.effects,
        final(w).out.worst_case_steps == old(w).out.worst_case_steps,
        match r {
            Ok(l) => {
                &&& exprs_flow(es@, start@, old(w).flow().env, observed(schemas)) == Ok::<
                    Tags,
                    Fault,
                >(l@)
                &&& final(w).out.node_count == counted(old(w).out.node_count + exprs_size(es@))
            },
            Err(x) => exprs_flow(es@, start@, old(w).flow().env, observed(schemas)) == Err::<
                Tags,
                Fault,
            >(x@),
        },
    decreases es@,
{
    let mut acc = start.clone();
    let ghost env = w.flow().env;
    let ghost obs = observed(schemas);
    let mut i: usize = 0;
    assert(es@.skip(0) =~= es@);
    while i < es.len()
        invariant
            i <= es.len(),
            obs == observed(schemas),
            env == old(w).flow().env,
            w.env == old(w).env,
            w.out.budget == old(w).out.budget,
            w.out.effects == old(w).out.effects,
            w.out.worst_case_steps == old(w).out.worst_case_steps,
            exprs_flow(es@, start@, env, obs) == exprs_flow(es@.skip(i as int), acc@, env, obs),
            counted(w.out.node_count + exprs_size(es@.skip(i as int))) == counted(
                old(w).out.node_count + exprs_size(es@),
            ),
        decreases es.len() - i,
    {
        let ghost rest = es@.skip(i as int);
        assert(rest[0] == es@[i as int]);
        assert(rest.drop_first() =~= es@.skip(i + 1));
        assert(decreases_to!(es@ => es@[i as int]));
        match expr_label(w, &es[i], schemas) {
            Err(x) => {
                assert(exprs_flow(rest, acc@, env, obs) == Err::<Tags, Fault>(
                    expr_flow(rest[0], env, obs)->Err_0,
                ));
                return Err(x);
            },
            Ok(l) => {
                acc = acc.join(&l);
            },
        }
        i = i + 1;
    }
    assert(es@.skip(i as int).len() == 0);
    Ok(acc)
}

fn guard_label(w: &mut Walk, g: &Guard, schemas: &VerbSchemas) -> (r: Result<Label, AdmitError>)
    ensures
        final(w).env == old(w).env,
        final(w).out.budget == old(w).out.budget,
        final(w).out.effects == old(w).out.effects,
        final(w).out.worst_case_steps == old(w).out.worst_case_steps,
        match r {
            Ok(l) => {
                &&& guard_flow(*g, old(w).flow().env, observed(schemas)) == Ok::<Tags, Fault>(l@)
                &&& final(w).out.node_count == counted(old(w).out.node_count + guard_size(*g))
            },
            Err(x) => guard_flow(*g, old(w).flow().env, observed(schemas)) == Err::<Tags, Fault>(
                x@,
            ),
        },
    decreases g,
{
    match g {
        Guard::Exists { expr } => expr_label(w, expr, schemas),
        Guard::Matches { expr, regex } => expr_label(w, expr, schemas),
        Guard::Cmp { lhs, op, rhs } => match expr_label(w, lhs, schemas) {
            Err(x) => Err(x),
            Ok(a) => match expr_label(w, rhs, schemas) {
                Err(x) => Err(x),
                Ok(b) => Ok(a.join(&b)),
            },
        },
        Guard::And { l, r } => match guard_label(w, l, schemas) {
            Err(x) => Err(x),
            Ok(a) => match guard_label(w, r, schemas) {
                Err(x) => Err(x),
                Ok(b) => Ok(a.join(&b)),
            },
        },
        Guard::Or { l, r } => match guard_label(w, l, schemas) {
            Err(x) => Err(x),
            Ok(a) => match guard_label(w, r, schemas) {
                Err(x) => Err(x),
                Ok(b) => Ok(a.join(&b)),
            },
        },
        Guard::Not { g } => guard_label(w, g, schemas),
    }
}

/// Holding a product to its range early makes no difference to a sum that is held to it.
proof fn sat_product(a: int, m: int, b: int, n: int)
    requires
        0 <= a,
        0 <= m,
        0 <= b,
        0 <= n,
    ensures
        sat(a + sat(m * b) * n) == sat(a + m * (b * n)),
        0 <= m * b,
        0 <= b * n,
        0 <= m * (b * n),
{
    assert(0 <= m * b) by (nonlinear_arith)
        requires
            0 <= m,
            0 <= b,
    ;
    assert(m * (b * n) == (m * b) * n) by (nonlinear_arith);
    assert(0 <= (m * b) * n) by (nonlinear_arith)
        requires
            0 <= m * b,
            0 <= n,
    ;
    assert(0 <= b * n) by (nonlinear_arith)
        requires
            0 <= b,
            0 <= n,
    ;
    if m * b > u64::MAX {
        if n == 0 {
            assert((m * b) * 0 == 0);
        } else {
            assert((m * b) * n >= m * b) by (nonlinear_arith)
                requires
                    n >= 1,
                    m * b >= 0,
            ;
            assert(u64::MAX * n >= u64::MAX) by (nonlinear_arith)
                requires
                    n >= 1,
            ;
        }
    }
}

/// Summing in two parts.
proof fn product_of_sum(m: int, a: int, b: int)
    requires
        0 <= m,
        0 <= a,
        0 <= b,
    ensures
        m * (a + b) == m * a + m * b,
        0 <= m * a,
        0 <= m * b,
{
    assert(m * (a + b) == m * a + m * b) by (nonlinear_arith);
    assert(0 <= m * a) by (nonlinear_arith)
        requires
            0 <= m,
            0 <= a,
    ;
    assert(0 <= m * b) by (nonlinear_arith)
        requires
            0 <= m,
            0 <= b,
    ;
}

fn walk_stmt(
    w: &mut Walk,
    s: &Stmt,
    pc: &Label,
    mult: u64,
    depth: usize,
    schemas: &VerbSchemas,
) -> (r: Result<(), AdmitError>)
    requires
        depth <= MAX_DEPTH,
    ensures
        match r {
            Ok(_) => {
                &&& stmt_flow(
                    *s,
                    old(w).flow(),
                    pc@,
                    mult,
                    depth as nat,
                    observed(schemas),
                    schemas.external_effects@,
                ) == Ok::<Flow, Fault>(final(w).flow())
                &&& tallied(*old(w), *final(w), mult, seq![*s])
            },
            Err(x) => {
                let f = stmt_flow(
                    *s,
                    old(w).flow(),
                    pc@,
                    mult,
                    depth as nat,
                    observed(schemas),
                    schemas.external_effects@,
                );
                f == Err::<Flow, Fault>(x@)
            },
        },
    decreases s,
{
    proof {
        reveal_with_fuel(stmts_size, 2);
        reveal_with_fuel(stmts_steps, 2);
        reveal_with_fuel(stmts_demand, 2);
        reveal_with_fuel(stmts_name, 2);
        assert(seq![*s].drop_first() =~= Seq::<Stmt>::empty());
    }
    let ghost w0 = *w;
    w.out.node_count = w.out.node_count.saturating_add(1);
    w.out.worst_case_steps = w.out.worst_case_steps.saturating_add(mult);
    match s {
        Stmt::Let { var, expr } => match expr_label(w, expr, schemas) {
            Err(x) => Err(x),
            Ok(l) => {
                let ghost env0 = w.flow().env;
                let ghost lv = l@;
                w.env.insert(var.clone(), l);
                proof {
                    assert(w.flow().env =~= env0.insert(var@, lv));
                    assert(mult * 1 == mult);
                    assert forall|v: Seq<char>| at_or_zero(w.out.budget@, v) == sat(
                        at_or_zero(w0.out.budget@, v) + mult * 0,
                    ) by {
                        assert(mult * 0 == 0);
                    }
                }
                Ok(())
            },
        },
        Stmt::Effect { verb, args } => {
            let external: bool = match schemas.external_effects.get(verb.as_str()) {
                None => {
                    return Err(AdmitError::UnknownVerb(verb.clone()));
                },
                Some(b) => *b,
            };
            let eff: Label = match exprs_label(w, args, pc, schemas) {
                Err(x) => {
                    return Err(x);
                },
                Ok(l) => l,
            };
            if external && !eff.conf.is_empty() {
                return Err(AdmitError::SinkDenied { verb: verb.clone(), label: eff });
            }
            let so_far: u64 = match w.out.budget.get(verb.as_str()) {
                None => 0,
                Some(n) => *n,
            };
            w.out.budget.insert(verb.clone(), so_far.saturating_add(mult));
            let ghost effects0 = w.out.effects@;
            let ann = EffectAnn { verb: verb.clone(), effective: eff, multiplier: mult };
            w.out.effects.push(ann);
            proof {
                assert(sinks(w.out.effects@) =~= sinks(effects0).push(ann@));
                assert(mult * 1 == mult);
                assert(mult * 0 == 0);
            }
            Ok(())
        },
        Stmt::If { guard, then_, else_ } => {
            let gl: Label = match guard_label(w, guard, schemas) {
                Err(x) => {
                    return Err(x);
                },
                Ok(l) => l,
            };
            let pc2: Label = pc.join(&gl);
            let ghost w1 = *w;
            assert(decreases_to!(s => then_@));
            assert(decreases_to!(s => else_@));
            match walk_stmts(w, then_, &pc2, mult, depth + 1, schemas) {
                Err(x) => {
                    return Err(x);
                },
                Ok(_) => {},
            }
            let ghost w2 = *w;
            match walk_stmts(w, else_, &pc2, mult, depth + 1, schemas) {
                Err(x) => {
                    return Err(x);
                },
                Ok(_) => {},
            }
            proof {
                let a = stmts_steps(then_@) as int;
                let b = stmts_steps(else_@) as int;
                product_of_sum(mult as int, a, b);
                product_of_sum(mult as int, 1, a + b);
                assert(mult * 1 == mult);
                assert forall|v: Seq<char>| #![trigger w.out.budget@.contains_key(v)]
                    {
                        &&& w.out.budget@.contains_key(v) == (w0.out.budget@.contains_key(v)
                            || stmts_name(seq![*s], v))
                        &&& at_or_zero(w.out.budget@, v) == sat(
                            at_or_zero(w0.out.budget@, v) + mult * stmts_demand(seq![*s], v),
                        )
                    } by {
                    assert(w2.out.budget@.contains_key(v) == (w1.out.budget@.contains_key(v)
                        || stmts_name(then_@, v)));
                    product_of_sum(
                        mult as int,
                        stmts_demand(then_@, v) as int,
                        stmts_demand(else_@, v) as int,
                    );
                }
            }
            Ok(())
        },
        Stmt::Foreach { var, list, bound, mode, body } => {
            let ll: Label = match expr_label(w, list, schemas) {
                Err(x) => {
                    return Err(x);
                },
                Ok(l) => l,
            };
            let pc2: Label = pc.join(&ll);
            let ghost env0 = w.flow().env;
            let ghost lv = ll@;
            w.env.insert(var.clone(), ll);
            assert(w.flow().env =~= env0.insert(var@, lv));
            let m2: u64 = saturating_product(mult, *bound as u64);
            let ghost w1 = *w;
            assert(decreases_to!(s => body@));
            match walk_stmts(w, body, &pc2, m2, depth + 1, schemas) {
                Err(x) => {
                    return Err(x);
                },
                Ok(_) => {},
            }
            proof {
                let n = stmts_steps(body@) as int;
                let b = *bound as int;
                sat_product(w1.out.worst_case_steps as int, mult as int, b, n);
                product_of_sum(mult as int, 1, b * n);
                assert(mult * 1 == mult);
                assert forall|v: Seq<char>| #![trigger w.out.budget@.contains_key(v)]
                    {
                        &&& w.out.budget@.contains_key(v) == (w0.out.budget@.contains_key(v)
                            || stmts_name(seq![*s], v))
                        &&& at_or_zero(w.out.budget@, v) == sat(
                            at_or_zero(w0.out.budget@, v) + mult * stmts_demand(seq![*s], v),
                        )
                    } by {
                    sat_product(
                        at_or_zero(w0.out.budget@, v) as int,
                        mult as int,
                        b,
                        stmts_demand(body@, v) as int,
                    );
                }
            }
            Ok(())
        },
    }
}

/// The product, held to the range of `u64`.
fn saturating_product(a: u64, b: u64) -> (r: u64)
    ensures
        r == sat(a * b),
{
    match a.checked_mul(b) {
        Some(p) => p,
        None => u64::MAX,
    }
}

fn walk_stmts(
    w: &mut Walk,
    stmts: &Vec<Stmt>,
    pc: &Label,
    mult: u64,
    depth: usize,
    schemas: &VerbSchemas,
) -> (r: Result<(), AdmitError>)
    requires
        depth <= MAX_DEPTH + 1,
    ensures
        match r {
            Ok(_) => {
                &&& stmts_flow(
                    stmts@,
                    old(w).flow(),
                    pc@,
                    mult,
                    depth as nat,
                    observed(schemas),
                    schemas.external_effects@,
                ) == Ok::<Flow, Fault>(final(w).flow())
                &&& tallied(*old(w), *final(w), mult, stmts@)
            },
            Err(x) => {
                let f = stmts_flow(
                    stmts@,
                    old(w).flow(),
                    pc@,
                    mult,
                    depth as nat,
                    observed(schemas),
                    schemas.external_effects@,
                );
                f == Err::<Flow, Fault>(x@)
            },
        },
    decreases stmts@,
{
    if depth > MAX_DEPTH {
        return Err(AdmitError::TooDeep { depth });
    }
    let ghost w0 = *w;
    let ghost obs = observed(schemas);
    let ghost ext = schemas.external_effects@;
    let mut i: usize = 0;
    proof {
        assert(stmts@.skip(0) =~= stmts@);
        assert(stmts@.take(0) =~= Seq::<Stmt>::empty());
        tally_nothing(*w, mult);
    }
    while i < stmts.len()
        invariant
            i <= stmts.len(),
            depth <= MAX_DEPTH,
            obs == observed(schemas),
            ext == schemas.external_effects@,
            w0 == *old(w),
            stmts_flow(stmts@, w0.flow(), pc@, mult, depth as nat, obs, ext) == stmts_flow(
                stmts@.skip(i as int),
                w.flow(),
                pc@,
                mult,
                depth as nat,
                obs,
                ext,
            ),
            tallied(w0, *w, mult, stmts@.take(i as int)),
        decreases stmts.len() - i,
    {
        let ghost rest = stmts@.skip(i as int);
        assert(rest[0] == stmts@[i as int]);
        assert(rest.drop_first() =~= stmts@.skip(i + 1));
        assert(decreases_to!(stmts@ => stmts@[i as int]));
        let ghost w1 = *w;
        match walk_stmt(w, &stmts[i], pc, mult, depth, schemas) {
            Err(x) => {
                assert(stmts_flow(rest, w1.flow(), pc@, mult, depth as nat, obs, ext) == Err::<
                    Flow,
                    Fault,
                >(stmt_flow(rest[0], w1.flow(), pc@, mult, depth as nat, obs, ext)->Err_0));
                return Err(x);
            },
            Ok(_) => {},
        }
        proof {
            tally_append(w0, w1, *w, mult, stmts@.take(i as int), stmts@[i as int]);
            assert(stmts@.take(i + 1) =~= stmts@.take(i as int).push(stmts@[i as int]));
        }
        i = i + 1;
    }
    proof {
        assert(stmts@.skip(i as int).len() == 0);
        assert(stmts@.take(i as int) =~= stmts@);
    }
    Ok(())
}

/// No statement adds nothing.
proof fn tally_nothing(w: Walk, mult: u64)
    ensures
        tallied(w, w, mult, Seq::empty()),
{
    assert(mult * 0 == 0);
}

/// The tallies of statements and of one more make up the tally of all of them.
proof fn tally_append(w0: Walk, w1: Walk, w2: Walk, mult: u64, ss: Seq<Stmt>, s: Stmt)
    requires
        tallied(w0, w1, mult, ss),
        tallied(w1, w2, mult, seq![s]),
    ensures
        tallied(w0, w2, mult, ss.push(s)),
{
    let one = seq![s];
    sums_append(ss, s);
    product_of_sum(mult as int, stmts_steps(ss) as int, stmts_steps(one) as int);
    assert forall|v: Seq<char>| #![trigger w2.out.budget@.contains_key(v)]
        {
            &&& w2.out.budget@.contains_key(v) == (w0.out.budget@.contains_key(v) || stmts_name(
                ss.push(s),
                v,
            ))
            &&& at_or_zero(w2.out.budget@, v) == sat(
                at_or_zero(w0.out.budget@, v) + mult * stmts_demand(ss.push(s), v),
            )
        } by {
        demand_append(ss, s, v);
        assert(w1.out.budget@.contains_key(v) == (w0.out.budget@.contains_key(v) || stmts_name(
            ss,
            v,
        )));
        product_of_sum(mult as int, stmts_demand(ss, v) as int, stmts_demand(one, v) as int);
    }
}

proof fn sums_append(ss: Seq<Stmt>, s: Stmt)
    ensures
        stmts_size(ss.push(s)) == stmts_size(ss) + stmts_size(seq![s]),
        stmts_steps(ss.push(s)) == stmts_steps(ss) + stmts_steps(seq![s]),
    decreases ss.len(),
{
    reveal_with_fuel(stmts_size, 2);
    reveal_with_fuel(stmts_steps, 2);
    assert(seq![s].drop_first() =~= Seq::<Stmt>::empty());
    if ss.len() == 0 {
        assert(ss.push(s) =~= seq![s]);
    } else {
        sums_append(ss.drop_first(), s);
        assert(ss.push(s).drop_first() =~= ss.drop_first().push(s));
    }
}

proof fn demand_append(ss: Seq<Stmt>, s: Stmt, v: Seq<char>)
    ensures
        stmts_demand(ss.push(s), v) == stmts_demand(ss, v) + stmts_demand(seq![s], v),
        stmts_name(ss.push(s), v) == (stmts_name(ss, v) || stmts_name(seq![s], v)),
    decreases ss.len(),
{
    reveal_with_fuel(stmts_demand, 2);
    reveal_with_fuel(stmts_name, 2);
    assert(seq![s].drop_first() =~= Seq::<Stmt>::empty());
    if ss.len() == 0 {
        assert(ss.push(s) =~= seq![s]);
    } else {
        demand_append(ss.drop_first(), s, v);
        assert(ss.push(s).drop_first() =~= ss.drop_first().push(s));
    }
}

/// The most occurrences of a verb are no more than the most steps.
pub proof fn demand_within_steps(ss: Seq<Stmt>, v: Seq<char>)
    ensures
        stmts_demand(ss, v) <= stmts_steps(ss),
        !stmts_name(ss, v) ==> stmts_demand(ss, v) == 0,
    decreases ss,
{
    if ss.len() > 0 {
        reveal_with_fuel(stmt_demand, 2);
        reveal_with_fuel(stmts_demand, 2);
        reveal_with_fuel(stmts_steps, 2);
        reveal_with_fuel(stmts_name, 2);
        demand_within_steps(ss.drop_first(), v);
        match ss[0] {
            Stmt::If { guard, then_, else_ } => {
                demand_within_steps(then_@, v);
                demand_within_steps(else_@, v);
            },
            Stmt::Foreach { var, list, bound, mode, body } => {
                demand_within_steps(body@, v);
                let a = stmts_demand(body@, v);
                let b = stmts_steps(body@);
                assert(bound as nat * a <= bound as nat * b) by (nonlinear_arith)
                    requires
                        a <= b,
                ;
                if a == 0 {
                    assert(bound as nat * a == 0) by (nonlinear_arith)
                        requires
                            a == 0,
                    ;
                }
            },
            _ => {},
        }
    }
}

/// Whether no effect that was met lets confidential data reach an external sink.
pub open spec fn contained(sinks: Seq<Sink>, external: Map<Seq<char>, bool>) -> bool {
    forall|i: int|
        0 <= i < sinks.len() && external.contains_key((#[trigger] sinks[i]).verb)
            && external[sinks[i].verb] ==> sinks[i].effective.conf == Set::<Seq<char>>::empty()
}

/// The effects that the flow meets keep confidential data from external sinks, and each of
/// their labels holds the label of the control that led to it: no secret leaves by an argument
/// or by the choice of a branch.
pub proof fn flow_contained(
    ss: Seq<Stmt>,
    at: Flow,
    pc: Tags,
    mult: u64,
    depth: nat,
    obs: Env,
    external: Map<Seq<char>, bool>,
)
    requires
        contained(at.sinks, external),
        stmts_flow(ss, at, pc, mult, depth, obs, external) is Ok,
    ensures
        ({
            let after = stmts_flow(ss, at, pc, mult, depth, obs, external)->Ok_0;
            &&& contained(after.sinks, external)
            &&& at.sinks.is_prefix_of(after.sinks)
            &&& forall|i: int|
                at.sinks.len() <= i < after.sinks.len() ==> below(
                    pc,
                    (#[trigger] after.sinks[i]).effective,
                )
        }),
    decreases ss,
{
    if ss.len() > 0 {
        let mid = stmt_flow(ss[0], at, pc, mult, depth, obs, external)->Ok_0;
        match ss[0] {
            Stmt::Let { var, expr } => {},
            Stmt::Effect { verb, args } => {
                exprs_flow_above(args@, pc, at.env, obs);
                assert(mid.sinks.len() == at.sinks.len() + 1);
                assert forall|i: int|
                    0 <= i < mid.sinks.len() && external.contains_key(
                        (#[trigger] mid.sinks[i]).verb,
                    ) && external[mid.sinks[i].verb] implies mid.sinks[i].effective.conf == Set::<
                    Seq<char>,
                >::empty() by {
                    if i < at.sinks.len() {
                        assert(mid.sinks[i] == at.sinks[i]);
                    }
                }
            },
            Stmt::If { guard, then_, else_ } => {
                let l = guard_flow(guard, at.env, obs)->Ok_0;
                let pc2 = joined(pc, l);
                flow_contained(then_@, at, pc2, mult, depth + 1, obs, external);
                let half = stmts_flow(then_@, at, pc2, mult, depth + 1, obs, external)->Ok_0;
                flow_contained(else_@, half, pc2, mult, depth + 1, obs, external);
                assert forall|i: int| at.sinks.len() <= i < mid.sinks.len() implies below(
                    pc,
                    (#[trigger] mid.sinks[i]).effective,
                ) by {
                    assert(below(pc, pc2));
                    if i < half.sinks.len() {
                        assert(mid.sinks[i] == half.sinks[i]);
                    }
                    assert(below(pc2, mid.sinks[i].effective));
                }
            },
            Stmt::Foreach { var, list, bound, mode, body } => {
                let l = expr_flow(list, at.env, obs)->Ok_0;
                let pc2 = joined(pc, l);
                let inner = Flow { env: at.env.insert(var@, l), sinks: at.sinks };
                flow_contained(body@, inner, pc2, sat(mult * bound), depth + 1, obs, external);
                assert forall|i: int| at.sinks.len() <= i < mid.sinks.len() implies below(
                    pc,
                    (#[trigger] mid.sinks[i]).effective,
                ) by {
                    assert(below(pc, pc2));
                    assert(below(pc2, mid.sinks[i].effective));
                }
            },
        }
        flow_contained(ss.drop_first(), mid, pc, mult, depth, obs, external);
        let after = stmts_flow(ss, at, pc, mult, depth, obs, external)->Ok_0;
        assert forall|i: int| at.sinks.len() <= i < after.sinks.len() implies below(
            pc,
            (#[trigger] after.sinks[i]).effective,
        ) by {
            if i < mid.sinks.len() {
                assert(after.sinks[i] == mid.sinks[i]);
            }
        }
    }
}

/// A join over a list of expressions is above the label that it starts from.
proof fn exprs_flow_above(es: Seq<Expr>, acc: Tags, env: Env, obs: Env)
    requires
        exprs_flow(es, acc, env, obs) is Ok,
    ensures
        below(acc, exprs_flow(es, acc, env, obs)->Ok_0),
    decreases es.len(),
{
    if es.len() > 0 {
        let l = expr_flow(es[0], env, obs)->Ok_0;
        exprs_flow_above(es.drop_first(), joined(acc, l), env, obs);
        assert(below(acc, joined(acc, l)));
    }
}

/// Decides whether a plan is admitted, and derives its budget.
pub fn admit_plan(plan: &Plan, schemas: &VerbSchemas) -> (r: Result<Admission, AdmitError>)
    ensures
        match r {
            Ok(a) => {
                &&& admission_fault(plan, schemas) is None
                &&& sinks(a.effects@) == plan_flow(plan, schemas)->Ok_0.sinks
                &&& contained(sinks(a.effects@), schemas.external_effects@)
                &&& a.node_count == stmts_size(plan.stmts@) <= MAX_NODES
                &&& a.worst_case_steps == stmts_steps(plan.stmts@) <= S_MAX
                &&& forall|v: Seq<char>| #[trigger]
                    a.budget@.contains_key(v) <==> stmts_name(plan.stmts@, v)
                &&& forall|v: Seq<char>| #[trigger]
                    a.budget@.contains_key(v) ==> a.budget@[v] == stmts_demand(plan.stmts@, v)
            },
            Err(e) => admission_fault(plan, schemas) == Some(e@),
        },
{
    let mut w = Walk { env: StrMap::new(), out: Admission::default() };
    let ghost w0 = w;
    proof {
        assert(w.flow() =~= Flow { env: Map::empty(), sinks: Seq::empty() });
    }
    match walk_stmts(&mut w, &plan.stmts, &Label::public_trusted(), 1, 1, schemas) {
        Err(e) => {
            return Err(e);
        },
        Ok(_) => {},
    }
    proof {
        flow_contained(
            plan.stmts@,
            w0.flow(),
            bottom(),
            1,
            1,
            observed(schemas),
            schemas.external_effects@,
        );
    }
    if w.out.node_count > MAX_NODES {
        return Err(AdmitError::TooLarge { nodes: w.out.node_count });
    }
    if w.out.worst_case_steps > S_MAX {
        return Err(AdmitError::StepCeiling { worst_case: w.out.worst_case_steps });
    }
    proof {
        assert forall|v: Seq<char>| #[trigger] w.out.budget@.contains_key(v) implies w.out.budget@[v]
            == stmts_demand(plan.stmts@, v) by {
            demand_within_steps(plan.stmts@, v);
        }
    }
    Ok(w.out)
}

/// The members of a set of tags as the text of an error lists them, up to a number.
pub open spec fn listed_tags(items: Seq<Seq<char>>) -> Seq<char>
    decreases items.len(),
{
    if items.len() == 0 {
        Seq::empty()
    } else {
        listed_tags(items.drop_last()) + (if items.len() == 1 {
            Seq::empty()
        } else {
            ", "@
        }) + debug_text(items.last())
    }
}

/// The text of an error.
pub open spec fn admit_text(e: AdmitError) -> Seq<char> {
    match e {
        AdmitError::Parse(t) => "parse: "@ + t@,
        AdmitError::TooLarge { nodes } => "plan too large: "@ + decimal(nodes as nat) + " nodes"@,
        AdmitError::TooDeep { depth } => "plan too deep: "@ + decimal(depth as nat),
        AdmitError::StepCeiling { worst_case } => "worst-case steps "@ + decimal(worst_case as nat)
            + " exceed S_MAX "@ + decimal(S_MAX as nat),
        AdmitError::UnknownVerb(v) => "unknown verb: "@ + v@,
        AdmitError::UnknownVar(v) => "unknown var: "@ + v@,
        AdmitError::SinkDenied { verb, label } => "sink denied: "@ + verb@
            + " under label Label { conf: {"@ + listed_tags(label.conf.items()) + "}, integ: {"@
            + listed_tags(label.integ.items()) + "} }"@,
    }
}

fn push_tags(s: &mut String, tags: &StrSet)
    ensures
        final(s)@ == old(s)@ + listed_tags(tags.items()),
{
    let n: usize = tags.len();
    let mut i: usize = 0;
    assert(tags.items().take(0) =~= Seq::<Seq<char>>::empty());
    assert(s@ =~= old(s)@ + listed_tags(tags.items().take(0)));
    while i < n
        invariant
            i <= n,
            n == tags.items().len(),
            s@ == old(s)@ + listed_tags(tags.items().take(i as int)),
        decreases n - i,
    {
        if i > 0 {
            s.append(", ");
        }
        s.append(debug_of(tags.item_at(i).as_str()).as_str());
        proof {
            let p = tags.items().take(i + 1);
            assert(p.drop_last() =~= tags.items().take(i as int));
            assert(s@ =~= old(s)@ + listed_tags(p));
        }
        i = i + 1;
    }
    assert(tags.items().take(n as int) =~= tags.items());
}

impl AdmitError {
    /// The text of the error.
    pub fn message(&self) -> (s: String)
        ensures
            s@ == admit_text(*self),
    {
        match self {
            AdmitError::Parse(t) => joined_text("parse: ", t.as_str()),
            AdmitError::TooLarge { nodes } => {
                let mut s: String = "plan too large: ".to_owned();
                push_decimal(&mut s, *nodes as u64);
                s.append(" nodes");
                s
            },
            AdmitError::TooDeep { depth } => {
                let mut s: String = "plan too deep: ".to_owned();
                push_decimal(&mut s, *depth as u64);
                s
            },
            AdmitError::StepCeiling { worst_case } => {
                let mut s: String = "worst-case steps ".to_owned();
                push_decimal(&mut s, *worst_case);
                s.append(" exceed S_MAX ");
                push_decimal(&mut s, S_MAX);
                s
            },
            AdmitError::UnknownVerb(v) => joined_text("unknown verb: ", v.as_str()),
            AdmitError::UnknownVar(v) => joined_text("unknown var: ", v.as_str()),
            AdmitError::SinkDenied { verb, label } => {
                let mut s: String = joined_text("sink denied: ", verb.as_str());
                s.append(" under label Label { conf: {");
                push_tags(&mut s, &label.conf);
                s.append("}, integ: {");
                push_tags(&mut s, &label.integ);
                s.append("} }");
                s
            },
        }
    }
}

} // verus!

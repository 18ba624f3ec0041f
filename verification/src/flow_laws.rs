//! What the admission of a plan promises: where marks can go, how deep and how large a plan is,
//! and how often its effects can happen.

use crate::label::{bottom, joined, Tags};
use crate::plan::{
    expr_size, exprs_size, guard_size, stmt_size, stmts_size, Expr, Guard, Plan, Stmt,
};
use crate::plancheck::{
    admission_fault, expr_flow, exprs_flow, guard_flow, observed, plan_flow, sat, stmt_demand,
    stmt_flow, stmt_names, stmt_steps, stmts_demand, stmts_flow, stmts_name, stmts_steps, Env,
    Fault, Flow, Sink, VerbSchemas,
};
use vstd::prelude::*;

verus! {

/// A mark that data can carry: of confidentiality, or of an origin.
pub enum Mark {
    Conf(Seq<char>),
    Integ(Seq<char>),
}

/// Whether a label holds a mark.
pub open spec fn carries(l: Tags, m: Mark) -> bool {
    match m {
        Mark::Conf(t) => l.conf.contains(t),
        Mark::Integ(t) => l.integ.contains(t),
    }
}

/// The names whose label holds a mark.
pub open spec fn marked(env: Env, m: Mark) -> Set<Seq<char>> {
    Set::new(|n: Seq<char>| env.contains_key(n) && carries(env[n], m))
}

/// Whether an expression depends on a source: as an observation of it, or through an argument,
/// through the list that it takes an element of, or through a variable that depends on one.
pub open spec fn depends(e: Expr, vars: Set<Seq<char>>, sources: Set<Seq<char>>) -> bool
    decreases e,
{
    match e {
        Expr::Observe { verb, args } => sources.contains(verb@) || any_depends(
            args@,
            vars,
            sources,
        ),
        Expr::Pure { func, args } => any_depends(args@, vars, sources),
        Expr::Const { value } => false,
        Expr::Var { name } => vars.contains(name@),
        Expr::Index { base, idx } => depends(*base, vars, sources),
    }
}

/// Whether one of several expressions depends on a source.
pub open spec fn any_depends(
    es: Seq<Expr>,
    vars: Set<Seq<char>>,
    sources: Set<Seq<char>>,
) -> bool
    decreases es,
{
    exists|i: int|
        if 0 <= i < es.len() {
            depends(#[trigger] es[i], vars, sources)
        } else {
            false
        }
}

/// Whether a guard looks at something that depends on a source.
pub open spec fn guard_depends(g: Guard, vars: Set<Seq<char>>, sources: Set<Seq<char>>) -> bool
    decreases g,
{
    match g {
        Guard::Exists { expr } => depends(*expr, vars, sources),
        Guard::Matches { expr, regex } => depends(*expr, vars, sources),
        Guard::Cmp { lhs, op, rhs } => depends(*lhs, vars, sources) || depends(
            *rhs,
            vars,
            sources,
        ),
        Guard::And { l, r } => guard_depends(*l, vars, sources) || guard_depends(
            *r,
            vars,
            sources,
        ),
        Guard::Or { l, r } => guard_depends(*l, vars, sources) || guard_depends(
            *r,
            vars,
            sources,
        ),
        Guard::Not { g } => guard_depends(*g, vars, sources),
    }
}

/// The names that depend on a source after one of them was bound.
pub open spec fn rebound(vars: Set<Seq<char>>, name: Seq<char>, dependent: bool) -> Set<Seq<char>> {
    if dependent {
        vars.insert(name)
    } else {
        vars.remove(name)
    }
}

/// The names that depend on a source after a statement. Of a branching, both branches are passed
/// in order.
pub open spec fn names_after(s: Stmt, vars: Set<Seq<char>>, sources: Set<Seq<char>>) -> Set<
    Seq<char>,
>
    decreases s,
{
    match s {
        Stmt::Let { var, expr } => rebound(vars, var@, depends(expr, vars, sources)),
        Stmt::Effect { verb, args } => vars,
        Stmt::If { guard, then_, else_ } => all_names_after(
            else_@,
            all_names_after(then_@, vars, sources),
            sources,
        ),
        Stmt::Foreach { var, list, bound, mode, body } => all_names_after(
            body@,
            rebound(vars, var@, depends(list, vars, sources)),
            sources,
        ),
    }
}

/// The names that depend on a source after some statements.
pub open spec fn all_names_after(
    ss: Seq<Stmt>,
    vars: Set<Seq<char>>,
    sources: Set<Seq<char>>,
) -> Set<Seq<char>>
    decreases ss,
{
    if ss.len() == 0 {
        vars
    } else {
        all_names_after(ss.drop_first(), names_after(ss[0], vars, sources), sources)
    }
}

/// An effect that statements can come to: its verb, whether an argument or the control that leads
/// to it depends on a source, and how often the loops around it can come to it.
pub struct Reached {
    pub verb: Seq<char>,
    pub dependent: bool,
    pub times: nat,
}

/// The effects that a statement can come to, in the order of the text.
pub open spec fn reaches(
    s: Stmt,
    vars: Set<Seq<char>>,
    ctl: bool,
    times: nat,
    sources: Set<Seq<char>>,
) -> Seq<Reached>
    decreases s,
{
    match s {
        Stmt::Let { var, expr } => Seq::empty(),
        Stmt::Effect { verb, args } => seq![
            Reached { verb: verb@, dependent: ctl || any_depends(args@, vars, sources), times },
        ],
        Stmt::If { guard, then_, else_ } => {
            let c = ctl || guard_depends(guard, vars, sources);
            all_reach(then_@, vars, c, times, sources) + all_reach(
                else_@,
                all_names_after(then_@, vars, sources),
                c,
                times,
                sources,
            )
        },
        Stmt::Foreach { var, list, bound, mode, body } => {
            let c = depends(list, vars, sources);
            all_reach(
                body@,
                rebound(vars, var@, c),
                ctl || c,
                times * (bound as nat),
                sources,
            )
        },
    }
}

/// The effects that statements can come to, in the order of the text.
pub open spec fn all_reach(
    ss: Seq<Stmt>,
    vars: Set<Seq<char>>,
    ctl: bool,
    times: nat,
    sources: Set<Seq<char>>,
) -> Seq<Reached>
    decreases ss,
{
    if ss.len() == 0 {
        Seq::empty()
    } else {
        reaches(ss[0], vars, ctl, times, sources) + all_reach(
            ss.drop_first(),
            names_after(ss[0], vars, sources),
            ctl,
            times,
            sources,
        )
    }
}

/// The label of an expression holds a mark exactly when the expression depends on a source of it:
/// the label of a computation or of an observation is at or above that of each of its arguments,
/// and nothing else adds to it.
pub proof fn labels_follow_dependence(e: Expr, env: Env, obs: Env, m: Mark)
    ensures
        expr_flow(e, env, obs) matches Ok(l) ==> (carries(l, m) <==> depends(
            e,
            marked(env, m),
            marked(obs, m),
        )),
    decreases e,
{
    match e {
        Expr::Observe { verb, args } => {
            if obs.contains_key(verb@) {
                lists_follow_dependence(args@, obs[verb@], env, obs, m);
            }
        },
        Expr::Pure { func, args } => {
            lists_follow_dependence(args@, bottom(), env, obs, m);
        },
        Expr::Index { base, idx } => {
            labels_follow_dependence(*base, env, obs, m);
        },
        _ => {},
    }
}

/// The join of a label with those of several expressions holds a mark exactly when the label does
/// or one of the expressions depends on a source of it.
pub proof fn lists_follow_dependence(es: Seq<Expr>, acc: Tags, env: Env, obs: Env, m: Mark)
    ensures
        exprs_flow(es, acc, env, obs) matches Ok(l) ==> (carries(l, m) <==> carries(acc, m)
            || any_depends(es, marked(env, m), marked(obs, m))),
    decreases es,
{
    let vars = marked(env, m);
    let sources = marked(obs, m);
    if es.len() > 0 {
        labels_follow_dependence(es[0], env, obs, m);
        if let Ok(l) = expr_flow(es[0], env, obs) {
            let rest = es.drop_first();
            lists_follow_dependence(rest, joined(acc, l), env, obs, m);
            assert(any_depends(es, vars, sources) <==> depends(es[0], vars, sources)
                || any_depends(rest, vars, sources)) by {
                if depends(es[0], vars, sources) {
                    assert(any_depends(es, vars, sources));
                }
                if any_depends(rest, vars, sources) {
                    let i = choose|i: int|
                        if 0 <= i < rest.len() {
                            depends(#[trigger] rest[i], vars, sources)
                        } else {
                            false
                        };
                    assert(rest[i] == es[i + 1]);
                    assert(depends(es[i + 1], vars, sources));
                }
                if any_depends(es, vars, sources) && !depends(es[0], vars, sources) {
                    let i = choose|i: int|
                        if 0 <= i < es.len() {
                            depends(#[trigger] es[i], vars, sources)
                        } else {
                            false
                        };
                    assert(i > 0);
                    assert(rest[i - 1] == es[i]);
                }
            }
        }
    }
}

/// The label of a guard holds a mark exactly when the guard looks at something that depends on a
/// source of it.
pub proof fn guards_follow_dependence(g: Guard, env: Env, obs: Env, m: Mark)
    ensures
        guard_flow(g, env, obs) matches Ok(l) ==> (carries(l, m) <==> guard_depends(
            g,
            marked(env, m),
            marked(obs, m),
        )),
    decreases g,
{
    match g {
        Guard::Exists { expr } => {
            labels_follow_dependence(*expr, env, obs, m);
        },
        Guard::Matches { expr, regex } => {
            labels_follow_dependence(*expr, env, obs, m);
        },
        Guard::Cmp { lhs, op, rhs } => {
            labels_follow_dependence(*lhs, env, obs, m);
            labels_follow_dependence(*rhs, env, obs, m);
        },
        Guard::And { l, r } => {
            guards_follow_dependence(*l, env, obs, m);
            guards_follow_dependence(*r, env, obs, m);
        },
        Guard::Or { l, r } => {
            guards_follow_dependence(*l, env, obs, m);
            guards_follow_dependence(*r, env, obs, m);
        },
        Guard::Not { g } => {
            guards_follow_dependence(*g, env, obs, m);
        },
    }
}

/// Whether a list of annotations says of effects what they are.
pub open spec fn annotates(sinks: Seq<Sink>, from: nat, reached: Seq<Reached>, m: Mark) -> bool {
    &&& sinks.len() == from + reached.len()
    &&& forall|i: int|
        0 <= i < reached.len() ==> {
            let r = #[trigger] reached[i];
            &&& sinks[from + i].verb == r.verb
            &&& carries(sinks[from + i].effective, m) <==> r.dependent
            &&& sinks[from + i].multiplier == sat(r.times as int)
        }
}

proof fn annotates_on(
    a: Seq<Sink>,
    b: Seq<Sink>,
    from: nat,
    one: Seq<Reached>,
    two: Seq<Reached>,
    m: Mark,
)
    requires
        annotates(a, from, one, m),
        annotates(b, a.len(), two, m),
        a.is_prefix_of(b),
    ensures
        annotates(b, from, one + two, m),
{
    let all = one + two;
    assert forall|i: int| 0 <= i < all.len() implies {
        let r = #[trigger] all[i];
        &&& b[from + i].verb == r.verb
        &&& carries(b[from + i].effective, m) <==> r.dependent
        &&& b[from + i].multiplier == sat(r.times as int)
    } by {
        if i < one.len() {
            assert(all[i] == one[i]);
            assert(b[from + i] == a[from + i]);
        } else {
            assert(all[i] == two[i - one.len()]);
            assert(a.len() + (i - one.len()) == from + i);
        }
    }
}

proof fn prefix_on(a: Seq<Sink>, b: Seq<Sink>, c: Seq<Sink>)
    requires
        a.is_prefix_of(b),
        b.is_prefix_of(c),
    ensures
        a.is_prefix_of(c),
{
    assert forall|i: int| 0 <= i < a.len() implies a[i] == c[i] by {
        assert(a[i] == b[i]);
        assert(b[i] == c[i]);
    }
}

proof fn saturating_product(times: nat, bound: u32)
    ensures
        sat(sat(times as int) * bound) == sat((times * (bound as nat)) as int),
{
    let t = times as int;
    let b = bound as int;
    if t > u64::MAX {
        if b == 0 {
            assert(t * b == 0) by (nonlinear_arith)
                requires
                    b == 0,
            ;
        } else {
            assert(t * b >= t) by (nonlinear_arith)
                requires
                    b >= 1,
                    t >= 0,
            ;
            assert(u64::MAX * b >= u64::MAX) by (nonlinear_arith)
                requires
                    b >= 1,
            ;
        }
    }
}

proof fn marked_after(env: Env, name: Seq<char>, l: Tags, m: Mark)
    ensures
        marked(env.insert(name, l), m) == rebound(marked(env, m), name, carries(l, m)),
{
    assert(marked(env.insert(name, l), m) =~= rebound(marked(env, m), name, carries(l, m)));
}

/// The annotations of the effects of admitted statements tell the truth: each effect that the
/// text holds is annotated, in order, its label holds a mark exactly when an argument or the
/// control that leads to it depends on a source of the mark, and its multiplier is the product of
/// the bounds of the loops around it.
pub proof fn annotations_follow_dependence(
    ss: Seq<Stmt>,
    at: Flow,
    pc: Tags,
    times: nat,
    depth: nat,
    obs: Env,
    external: Map<Seq<char>, bool>,
    m: Mark,
)
    requires
        stmts_flow(ss, at, pc, sat(times as int), depth, obs, external) is Ok,
    ensures
        ({
            let after = stmts_flow(ss, at, pc, sat(times as int), depth, obs, external)->Ok_0;
            let vars = marked(at.env, m);
            let sources = marked(obs, m);
            &&& marked(after.env, m) == all_names_after(ss, vars, sources)
            &&& at.sinks.is_prefix_of(after.sinks)
            &&& annotates(
                after.sinks,
                at.sinks.len(),
                all_reach(ss, vars, carries(pc, m), times, sources),
                m,
            )
        }),
    decreases ss,
{
    let vars = marked(at.env, m);
    let sources = marked(obs, m);
    let ctl = carries(pc, m);
    let mult = sat(times as int);
    if ss.len() > 0 {
        let mid = stmt_flow(ss[0], at, pc, mult, depth, obs, external)->Ok_0;
        let one = reaches(ss[0], vars, ctl, times, sources);
        match ss[0] {
            Stmt::Let { var, expr } => {
                labels_follow_dependence(expr, at.env, obs, m);
                let l = expr_flow(expr, at.env, obs)->Ok_0;
                marked_after(at.env, var@, l, m);
            },
            Stmt::Effect { verb, args } => {
                lists_follow_dependence(args@, pc, at.env, obs, m);
                assert(mid.sinks.last() == mid.sinks[at.sinks.len() as int]);
            },
            Stmt::If { guard, then_, else_ } => {
                guards_follow_dependence(guard, at.env, obs, m);
                let l = guard_flow(guard, at.env, obs)->Ok_0;
                let pc2 = joined(pc, l);
                annotations_follow_dependence(
                    then_@,
                    at,
                    pc2,
                    times,
                    depth + 1,
                    obs,
                    external,
                    m,
                );
                let half = stmts_flow(then_@, at, pc2, mult, depth + 1, obs, external)->Ok_0;
                annotations_follow_dependence(
                    else_@,
                    half,
                    pc2,
                    times,
                    depth + 1,
                    obs,
                    external,
                    m,
                );
                let c = carries(pc2, m);
                prefix_on(at.sinks, half.sinks, mid.sinks);
                annotates_on(
                    half.sinks,
                    mid.sinks,
                    at.sinks.len(),
                    all_reach(then_@, vars, c, times, sources),
                    all_reach(else_@, all_names_after(then_@, vars, sources), c, times, sources),
                    m,
                );
            },
            Stmt::Foreach { var, list, bound, mode, body } => {
                labels_follow_dependence(list, at.env, obs, m);
                let l = expr_flow(list, at.env, obs)->Ok_0;
                marked_after(at.env, var@, l, m);
                saturating_product(times, bound);
                annotations_follow_dependence(
                    body@,
                    Flow { env: at.env.insert(var@, l), sinks: at.sinks },
                    joined(pc, l),
                    times * (bound as nat),
                    depth + 1,
                    obs,
                    external,
                    m,
                );
            },
        }
        assert(marked(mid.env, m) == names_after(ss[0], vars, sources));
        assert(at.sinks.is_prefix_of(mid.sinks));
        assert(annotates(mid.sinks, at.sinks.len(), one, m));
        annotations_follow_dependence(
            ss.drop_first(),
            mid,
            pc,
            times,
            depth,
            obs,
            external,
            m,
        );
        let after = stmts_flow(ss, at, pc, mult, depth, obs, external)->Ok_0;
        prefix_on(at.sinks, mid.sinks, after.sinks);
        annotates_on(
            mid.sinks,
            after.sinks,
            at.sinks.len(),
            one,
            all_reach(
                ss.drop_first(),
                names_after(ss[0], vars, sources),
                ctl,
                times,
                sources,
            ),
            m,
        );
    }
}

/// The observations that are declared with a mark.
pub open spec fn sources_of(schemas: &VerbSchemas, m: Mark) -> Set<Seq<char>> {
    Set::new(|v: Seq<char>| schemas.observe@.contains_key(v) && carries(schemas.observe@[v]@, m))
}

/// No secret reaches the outside: in an admitted plan no effect on an external sink has an
/// argument, or is led to by a choice or a loop, that depends on an observation with a mark of
/// confidentiality, whether directly, through computations or through variables.
pub proof fn no_secret_reaches_the_outside(plan: &Plan, schemas: &VerbSchemas, tag: Seq<char>)
    requires
        admission_fault(plan, schemas) is None,
    ensures
        ({
            let effects = all_reach(
                plan.stmts@,
                Set::empty(),
                false,
                1,
                sources_of(schemas, Mark::Conf(tag)),
            );
            forall|i: int|
                0 <= i < effects.len() ==> {
                    let e = #[trigger] effects[i];
                    &&& schemas.external_effects@.contains_key(e.verb)
                    &&& schemas.external_effects@[e.verb] ==> !e.dependent
                }
        }),
{
    let m = Mark::Conf(tag);
    let obs = observed(schemas);
    let external = schemas.external_effects@;
    let start = Flow { env: Map::empty(), sinks: Seq::empty() };
    let after = plan_flow(plan, schemas)->Ok_0;
    annotations_follow_dependence(plan.stmts@, start, bottom(), 1, 1, obs, external, m);
    crate::plancheck::flow_contained(plan.stmts@, start, bottom(), 1, 1, obs, external);
    sinks_are_declared(plan.stmts@, start, bottom(), 1, 1, obs, external);
    assert(marked(start.env, m) =~= Set::empty());
    assert(marked(obs, m) =~= sources_of(schemas, m));
    let effects = all_reach(plan.stmts@, Set::empty(), false, 1, sources_of(schemas, m));
    assert forall|i: int| 0 <= i < effects.len() implies {
        let e = #[trigger] effects[i];
        &&& external.contains_key(e.verb)
        &&& external[e.verb] ==> !e.dependent
    } by {
        let s = after.sinks[0 + i];
        assert(s.verb == effects[i].verb);
        assert(external.contains_key(s.verb));
        if external[s.verb] {
            assert(after.sinks[i].effective.conf == Set::<Seq<char>>::empty());
        }
    }
}

proof fn sinks_are_declared(
    ss: Seq<Stmt>,
    at: Flow,
    pc: Tags,
    mult: u64,
    depth: nat,
    obs: Env,
    external: Map<Seq<char>, bool>,
)
    requires
        stmts_flow(ss, at, pc, mult, depth, obs, external) is Ok,
        forall|i: int|
            0 <= i < at.sinks.len() ==> external.contains_key((#[trigger] at.sinks[i]).verb),
    ensures
        ({
            let after = stmts_flow(ss, at, pc, mult, depth, obs, external)->Ok_0;
            forall|i: int|
                0 <= i < after.sinks.len() ==> external.contains_key(
                    (#[trigger] after.sinks[i]).verb,
                )
        }),
    decreases ss,
{
    if ss.len() > 0 {
        let mid = stmt_flow(ss[0], at, pc, mult, depth, obs, external)->Ok_0;
        match ss[0] {
            Stmt::If { guard, then_, else_ } => {
                let l = guard_flow(guard, at.env, obs)->Ok_0;
                let pc2 = joined(pc, l);
                sinks_are_declared(then_@, at, pc2, mult, depth + 1, obs, external);
                let half = stmts_flow(then_@, at, pc2, mult, depth + 1, obs, external)->Ok_0;
                sinks_are_declared(else_@, half, pc2, mult, depth + 1, obs, external);
            },
            Stmt::Foreach { var, list, bound, mode, body } => {
                let l = expr_flow(list, at.env, obs)->Ok_0;
                sinks_are_declared(
                    body@,
                    Flow { env: at.env.insert(var@, l), sinks: at.sinks },
                    joined(pc, l),
                    sat(mult * bound),
                    depth + 1,
                    obs,
                    external,
                );
            },
            _ => {},
        }
        sinks_are_declared(ss.drop_first(), mid, pc, mult, depth, obs, external);
    }
}

/// Whether an effect of a verb is among those that depend on a source.
pub open spec fn leaks(reached: Seq<Reached>, verb: Seq<char>) -> bool {
    exists|i: int|
        0 <= i < reached.len() && (#[trigger] reached[i]).verb == verb && reached[i].dependent
}

proof fn leaks_within(a: Seq<Reached>, b: Seq<Reached>, verb: Seq<char>)
    requires
        leaks(a, verb) || leaks(b, verb),
    ensures
        leaks(a + b, verb),
{
    if leaks(a, verb) {
        let i = choose|i: int|
            0 <= i < a.len() && (#[trigger] a[i]).verb == verb && a[i].dependent;
        assert((a + b)[i] == a[i]);
    } else {
        let i = choose|i: int|
            0 <= i < b.len() && (#[trigger] b[i]).verb == verb && b[i].dependent;
        assert((a + b)[a.len() + i] == b[i]);
    }
}

/// A sink is refused for a reason: where statements are refused at a sink, the verb is declared as
/// external, the label that is told has a mark of confidentiality, and for each of its marks an
/// effect of that verb depends on a source of the mark.
pub proof fn a_sink_is_refused_for_a_reason(
    ss: Seq<Stmt>,
    at: Flow,
    pc: Tags,
    times: nat,
    depth: nat,
    obs: Env,
    external: Map<Seq<char>, bool>,
    verb: Seq<char>,
    l: Tags,
    m: Mark,
)
    requires
        stmts_flow(ss, at, pc, sat(times as int), depth, obs, external) == Err::<Flow, Fault>(
            Fault::SinkDenied(verb, l),
        ),
    ensures
        external.contains_pair(verb, true),
        !l.conf.is_empty(),
        carries(l, m) ==> leaks(
            all_reach(ss, marked(at.env, m), carries(pc, m), times, marked(obs, m)),
            verb,
        ),
    decreases ss,
{
    let vars = marked(at.env, m);
    let sources = marked(obs, m);
    let ctl = carries(pc, m);
    let mult = sat(times as int);
    if depth <= crate::plancheck::MAX_DEPTH && ss.len() > 0 {
        let one = reaches(ss[0], vars, ctl, times, sources);
        let rest = all_reach(
            ss.drop_first(),
            names_after(ss[0], vars, sources),
            ctl,
            times,
            sources,
        );
        match stmt_flow(ss[0], at, pc, mult, depth, obs, external) {
            Ok(mid) => {
                alone(ss[0], at, pc, times, depth, obs, external, m);
                a_sink_is_refused_for_a_reason(
                    ss.drop_first(),
                    mid,
                    pc,
                    times,
                    depth,
                    obs,
                    external,
                    verb,
                    l,
                    m,
                );
            },
            Err(_) => {
                match ss[0] {
                    Stmt::Let { var, expr } => {
                        expr_faults(expr, at.env, obs);
                    },
                    Stmt::Effect { verb: v, args } => {
                        exprs_faults(args@, pc, at.env, obs);
                        lists_follow_dependence(args@, pc, at.env, obs, m);
                        if carries(l, m) {
                            assert(one[0].dependent);
                        }
                        if l.conf.is_empty() {
                            assert(l.conf =~= Set::<Seq<char>>::empty());
                        }
                    },
                    Stmt::If { guard, then_, else_ } => {
                        guard_faults(guard, at.env, obs);
                        guards_follow_dependence(guard, at.env, obs, m);
                        let g = guard_flow(guard, at.env, obs)->Ok_0;
                        let pc2 = joined(pc, g);
                        let c = carries(pc2, m);
                        let left = all_reach(then_@, vars, c, times, sources);
                        let right = all_reach(
                            else_@,
                            all_names_after(then_@, vars, sources),
                            c,
                            times,
                            sources,
                        );
                        match stmts_flow(then_@, at, pc2, mult, depth + 1, obs, external) {
                            Err(_) => {
                                a_sink_is_refused_for_a_reason(
                                    then_@,
                                    at,
                                    pc2,
                                    times,
                                    depth + 1,
                                    obs,
                                    external,
                                    verb,
                                    l,
                                    m,
                                );
                            },
                            Ok(half) => {
                                annotations_follow_dependence(
                                    then_@,
                                    at,
                                    pc2,
                                    times,
                                    depth + 1,
                                    obs,
                                    external,
                                    m,
                                );
                                a_sink_is_refused_for_a_reason(
                                    else_@,
                                    half,
                                    pc2,
                                    times,
                                    depth + 1,
                                    obs,
                                    external,
                                    verb,
                                    l,
                                    m,
                                );
                            },
                        }
                        if carries(l, m) {
                            leaks_within(left, right, verb);
                        }
                    },
                    Stmt::Foreach { var, list, bound, mode, body } => {
                        expr_faults(list, at.env, obs);
                        labels_follow_dependence(list, at.env, obs, m);
                        let g = expr_flow(list, at.env, obs)->Ok_0;
                        marked_after(at.env, var@, g, m);
                        saturating_product(times, bound);
                        a_sink_is_refused_for_a_reason(
                            body@,
                            Flow { env: at.env.insert(var@, g), sinks: at.sinks },
                            joined(pc, g),
                            times * (bound as nat),
                            depth + 1,
                            obs,
                            external,
                            verb,
                            l,
                            m,
                        );
                    },
                }
            },
        }
        if carries(l, m) {
            leaks_within(one, rest, verb);
        }
    }
}

proof fn alone(
    s: Stmt,
    at: Flow,
    pc: Tags,
    times: nat,
    depth: nat,
    obs: Env,
    external: Map<Seq<char>, bool>,
    m: Mark,
)
    requires
        depth <= crate::plancheck::MAX_DEPTH,
        stmt_flow(s, at, pc, sat(times as int), depth, obs, external) is Ok,
    ensures
        marked(stmt_flow(s, at, pc, sat(times as int), depth, obs, external)->Ok_0.env, m)
            == names_after(s, marked(at.env, m), marked(obs, m)),
{
    let one = seq![s];
    let mid = stmt_flow(s, at, pc, sat(times as int), depth, obs, external)->Ok_0;
    assert(one.drop_first() =~= Seq::<Stmt>::empty());
    assert(stmts_flow(
        one.drop_first(),
        mid,
        pc,
        sat(times as int),
        depth,
        obs,
        external,
    ) == Ok::<Flow, Fault>(mid));
    assert(stmts_flow(one, at, pc, sat(times as int), depth, obs, external) == Ok::<Flow, Fault>(
        mid,
    ));
    annotations_follow_dependence(one, at, pc, times, depth, obs, external, m);
    let vars = names_after(s, marked(at.env, m), marked(obs, m));
    assert(all_names_after(one.drop_first(), vars, marked(obs, m)) == vars);
}

/// The label of an expression is wanting only where an observation is not declared or a variable
/// is not bound.
pub proof fn expr_faults(e: Expr, env: Env, obs: Env)
    ensures
        expr_flow(e, env, obs) matches Err(f) ==> {
            ||| f matches Fault::UnknownVerb(v) && !obs.contains_key(v)
            ||| f matches Fault::UnknownVar(v) && !env.contains_key(v)
        },
    decreases e,
{
    match e {
        Expr::Observe { verb, args } => {
            if obs.contains_key(verb@) {
                exprs_faults(args@, obs[verb@], env, obs);
            }
        },
        Expr::Pure { func, args } => {
            exprs_faults(args@, bottom(), env, obs);
        },
        Expr::Index { base, idx } => {
            expr_faults(*base, env, obs);
        },
        _ => {},
    }
}

/// The same of several expressions.
pub proof fn exprs_faults(es: Seq<Expr>, acc: Tags, env: Env, obs: Env)
    ensures
        exprs_flow(es, acc, env, obs) matches Err(f) ==> {
            ||| f matches Fault::UnknownVerb(v) && !obs.contains_key(v)
            ||| f matches Fault::UnknownVar(v) && !env.contains_key(v)
        },
    decreases es,
{
    if es.len() > 0 {
        expr_faults(es[0], env, obs);
        if let Ok(l) = expr_flow(es[0], env, obs) {
            exprs_faults(es.drop_first(), joined(acc, l), env, obs);
        }
    }
}

/// The same of a guard.
pub proof fn guard_faults(g: Guard, env: Env, obs: Env)
    ensures
        guard_flow(g, env, obs) matches Err(f) ==> {
            ||| f matches Fault::UnknownVerb(v) && !obs.contains_key(v)
            ||| f matches Fault::UnknownVar(v) && !env.contains_key(v)
        },
    decreases g,
{
    match g {
        Guard::Exists { expr } => {
            expr_faults(*expr, env, obs);
        },
        Guard::Matches { expr, regex } => {
            expr_faults(*expr, env, obs);
        },
        Guard::Cmp { lhs, op, rhs } => {
            expr_faults(*lhs, env, obs);
            expr_faults(*rhs, env, obs);
        },
        Guard::And { l, r } => {
            guard_faults(*l, env, obs);
            guard_faults(*r, env, obs);
        },
        Guard::Or { l, r } => {
            guard_faults(*l, env, obs);
            guard_faults(*r, env, obs);
        },
        Guard::Not { g } => {
            guard_faults(*g, env, obs);
        },
    }
}

/// How often the effects of a list can happen with a verb.
pub open spec fn occurrences(reached: Seq<Reached>, verb: Seq<char>) -> nat
    decreases reached.len(),
{
    if reached.len() == 0 {
        0
    } else {
        occurrences(reached.drop_last(), verb) + if reached.last().verb == verb {
            reached.last().times
        } else {
            0
        }
    }
}

proof fn occurrences_sum(a: Seq<Reached>, b: Seq<Reached>, verb: Seq<char>)
    ensures
        occurrences(a + b, verb) == occurrences(a, verb) + occurrences(b, verb),
    decreases b.len(),
{
    if b.len() == 0 {
        assert(a + b =~= a);
    } else {
        occurrences_sum(a, b.drop_last(), verb);
        assert((a + b).drop_last() =~= a + b.drop_last());
        assert((a + b).last() == b.last());
    }
}

/// The budget of a verb is the sum over the effects of that verb in the text, each as often as the
/// loops around it can come to it.
pub proof fn demand_sums_occurrences(
    ss: Seq<Stmt>,
    vars: Set<Seq<char>>,
    ctl: bool,
    times: nat,
    sources: Set<Seq<char>>,
    verb: Seq<char>,
)
    ensures
        occurrences(all_reach(ss, vars, ctl, times, sources), verb) == times * stmts_demand(
            ss,
            verb,
        ),
    decreases ss,
{
    if ss.len() == 0 {
        assert(times * 0 == 0);
    } else {
        let one = reaches(ss[0], vars, ctl, times, sources);
        let next = names_after(ss[0], vars, sources);
        let rest = all_reach(ss.drop_first(), next, ctl, times, sources);
        match ss[0] {
            Stmt::Let { var, expr } => {
                assert(times * 0 == 0);
            },
            Stmt::Effect { verb: v, args } => {
                assert(one.drop_last() =~= Seq::<Reached>::empty());
                assert(one.last().times == times);
                assert(occurrences(one.drop_last(), verb) == 0);
                assert(times * 1 == times && times * 0 == 0);
            },
            Stmt::If { guard, then_, else_ } => {
                let c = ctl || guard_depends(guard, vars, sources);
                let mid = all_names_after(then_@, vars, sources);
                demand_sums_occurrences(then_@, vars, c, times, sources, verb);
                demand_sums_occurrences(else_@, mid, c, times, sources, verb);
                occurrences_sum(
                    all_reach(then_@, vars, c, times, sources),
                    all_reach(else_@, mid, c, times, sources),
                    verb,
                );
                spread(times, stmts_demand(then_@, verb), stmts_demand(else_@, verb));
            },
            Stmt::Foreach { var, list, bound, mode, body } => {
                let c = depends(list, vars, sources);
                demand_sums_occurrences(
                    body@,
                    rebound(vars, var@, c),
                    ctl || c,
                    times * (bound as nat),
                    sources,
                    verb,
                );
                let n = stmts_demand(body@, verb);
                assert((times * (bound as nat)) * n == times * ((bound as nat) * n))
                    by (nonlinear_arith);
            },
        }
        assert(occurrences(one, verb) == times * stmt_demand(ss[0], verb));
        demand_sums_occurrences(ss.drop_first(), next, ctl, times, sources, verb);
        occurrences_sum(one, rest, verb);
        spread(times, stmt_demand(ss[0], verb), stmts_demand(ss.drop_first(), verb));
    }
}

proof fn spread(t: nat, a: nat, b: nat)
    ensures
        t * (a + b) == t * a + t * b,
{
    assert(t * (a + b) == t * a + t * b) by (nonlinear_arith);
}

/// How deep statements are nested within each other.
pub open spec fn nesting(ss: Seq<Stmt>) -> nat
    decreases ss,
{
    if ss.len() == 0 {
        0
    } else {
        let here = match ss[0] {
            Stmt::Let { .. } => 0,
            Stmt::Effect { .. } => 0,
            Stmt::If { guard, then_, else_ } => 1 + larger(nesting(then_@), nesting(else_@)),
            Stmt::Foreach { var, list, bound, mode, body } => 1 + nesting(body@),
        };
        larger(here, nesting(ss.drop_first()))
    }
}

/// The larger of two numbers.
pub open spec fn larger(a: nat, b: nat) -> nat {
    if a < b {
        b
    } else {
        a
    }
}

/// Statements are refused as too deep exactly because they are nested too deep, and those that
/// pass are not.
pub proof fn depth_is_bounded(
    ss: Seq<Stmt>,
    at: Flow,
    pc: Tags,
    mult: u64,
    depth: nat,
    obs: Env,
    external: Map<Seq<char>, bool>,
)
    ensures
        match stmts_flow(ss, at, pc, mult, depth, obs, external) {
            Ok(_) => depth + nesting(ss) <= 16,
            Err(Fault::TooDeep(n)) => depth + nesting(ss) > 16 && n > 16,
            Err(_) => true,
        },
    decreases ss,
{
    if depth <= 16 && ss.len() > 0 {
        match ss[0] {
            Stmt::Let { var, expr } => {
                expr_faults(expr, at.env, obs);
            },
            Stmt::Effect { verb, args } => {
                exprs_faults(args@, pc, at.env, obs);
            },
            Stmt::If { guard, then_, else_ } => {
                guard_faults(guard, at.env, obs);
                if let Ok(l) = guard_flow(guard, at.env, obs) {
                    let pc2 = joined(pc, l);
                    depth_is_bounded(then_@, at, pc2, mult, depth + 1, obs, external);
                    if let Ok(half) = stmts_flow(
                        then_@,
                        at,
                        pc2,
                        mult,
                        depth + 1,
                        obs,
                        external,
                    ) {
                        depth_is_bounded(else_@, half, pc2, mult, depth + 1, obs, external);
                    }
                }
            },
            Stmt::Foreach { var, list, bound, mode, body } => {
                expr_faults(list, at.env, obs);
                if let Ok(l) = expr_flow(list, at.env, obs) {
                    depth_is_bounded(
                        body@,
                        Flow { env: at.env.insert(var@, l), sinks: at.sinks },
                        joined(pc, l),
                        sat(mult * bound),
                        depth + 1,
                        obs,
                        external,
                    );
                }
            },
        }
        if let Ok(mid) = stmt_flow(ss[0], at, pc, mult, depth, obs, external) {
            depth_is_bounded(ss.drop_first(), mid, pc, mult, depth, obs, external);
        }
    }
}

/// An admitted plan keeps within every limit: it has at most four thousand and ninety-six nodes, at
/// most a hundred thousand steps in the worst case, and at most fifteen levels within its
/// outermost one. A plan that is refused as too large or as taking too many steps exceeds that
/// limit.
pub proof fn admitted_within_limits(plan: &Plan, schemas: &VerbSchemas)
    ensures
        match admission_fault(plan, schemas) {
            None => {
                &&& stmts_size(plan.stmts@) <= 4096
                &&& stmts_steps(plan.stmts@) <= 100_000
                &&& nesting(plan.stmts@) <= 15
            },
            Some(Fault::TooLarge(n)) => stmts_size(plan.stmts@) > 4096 && n > 4096,
            Some(Fault::StepCeiling(n)) => stmts_steps(plan.stmts@) > 100_000 && n > 100_000,
            Some(Fault::TooDeep(n)) => nesting(plan.stmts@) > 15,
            Some(_) => true,
        },
{
    let obs = observed(schemas);
    let external = schemas.external_effects@;
    let start = Flow { env: Map::empty(), sinks: Seq::empty() };
    depth_is_bounded(plan.stmts@, start, bottom(), 1, 1, obs, external);
    walks_have_walk_faults(plan.stmts@, start, bottom(), 1, 1, obs, external);
}

proof fn walks_have_walk_faults(
    ss: Seq<Stmt>,
    at: Flow,
    pc: Tags,
    mult: u64,
    depth: nat,
    obs: Env,
    external: Map<Seq<char>, bool>,
)
    ensures
        stmts_flow(ss, at, pc, mult, depth, obs, external) matches Err(f) ==> !(f is TooLarge)
            && !(f is StepCeiling) && !(f is Parse),
    decreases ss,
{
    if ss.len() > 0 {
        match ss[0] {
            Stmt::Let { var, expr } => {
                expr_faults(expr, at.env, obs);
            },
            Stmt::Effect { verb, args } => {
                exprs_faults(args@, pc, at.env, obs);
            },
            Stmt::If { guard, then_, else_ } => {
                guard_faults(guard, at.env, obs);
                if let Ok(l) = guard_flow(guard, at.env, obs) {
                    let pc2 = joined(pc, l);
                    walks_have_walk_faults(then_@, at, pc2, mult, depth + 1, obs, external);
                    if let Ok(half) = stmts_flow(
                        then_@,
                        at,
                        pc2,
                        mult,
                        depth + 1,
                        obs,
                        external,
                    ) {
                        walks_have_walk_faults(else_@, half, pc2, mult, depth + 1, obs, external);
                    }
                }
            },
            Stmt::Foreach { var, list, bound, mode, body } => {
                expr_faults(list, at.env, obs);
                if let Ok(l) = expr_flow(list, at.env, obs) {
                    walks_have_walk_faults(
                        body@,
                        Flow { env: at.env.insert(var@, l), sinks: at.sinks },
                        joined(pc, l),
                        sat(mult * bound),
                        depth + 1,
                        obs,
                        external,
                    );
                }
            },
        }
        if let Ok(mid) = stmt_flow(ss[0], at, pc, mult, depth, obs, external) {
            walks_have_walk_faults(ss.drop_first(), mid, pc, mult, depth, obs, external);
        }
    }
}

/// Sizes, steps, demands and names of statements in a row add up, whatever their order, and what
/// stands in a branch or in a loop counts in full: a loop multiplies by its bound.
pub proof fn sums_over_a_row(a: Seq<Stmt>, b: Seq<Stmt>, verb: Seq<char>)
    ensures
        stmts_size(a + b) == stmts_size(a) + stmts_size(b),
        stmts_steps(a + b) == stmts_steps(a) + stmts_steps(b),
        stmts_demand(a + b, verb) == stmts_demand(a, verb) + stmts_demand(b, verb),
        stmts_name(a + b, verb) == (stmts_name(a, verb) || stmts_name(b, verb)),
    decreases a.len(),
{
    if a.len() == 0 {
        assert(a + b =~= b);
    } else {
        sums_over_a_row(a.drop_first(), b, verb);
        assert((a + b).drop_first() =~= a.drop_first() + b);
        assert((a + b)[0] == a[0]);
    }
}

/// A loop or a branching takes one step more than what it holds: a loop as often as its bound
/// says, a branching both branches. Each of them and each part of an expression is a node.
pub proof fn what_a_statement_counts(
    s: Stmt,
    verb: Seq<char>,
)
    ensures
        stmt_steps(s) >= 1,
        stmt_size(s) >= 1,
        s matches Stmt::Let { var, expr } ==> stmt_steps(s) == 1 && stmt_size(s) == 1 + expr_size(
            expr,
        ) && !stmt_names(s, verb),
        s matches Stmt::Effect { verb: v, args } ==> stmt_steps(s) == 1 && stmt_size(s) == 1
            + exprs_size(args@) && (stmt_names(s, verb) <==> v@ == verb),
        s matches Stmt::If { guard, then_, else_ } ==> {
            &&& stmt_steps(s) == 1 + stmts_steps(then_@ + else_@)
            &&& stmt_size(s) == 1 + guard_size(guard) + stmts_size(then_@ + else_@)
            &&& stmt_demand(s, verb) == stmts_demand(then_@ + else_@, verb)
            &&& stmt_names(s, verb) == stmts_name(then_@ + else_@, verb)
        },
        s matches Stmt::Foreach { var, list, bound, mode, body } ==> {
            &&& stmt_steps(s) - 1 == bound * stmts_steps(body@)
            &&& stmt_size(s) == 1 + expr_size(list) + stmts_size(body@)
            &&& stmt_demand(s, verb) == bound * stmts_demand(body@, verb)
            &&& stmt_names(s, verb) == stmts_name(body@, verb)
        },
{
    if let Stmt::If { guard, then_, else_ } = s {
        sums_over_a_row(then_@, else_@, verb);
    }
}

} // verus!

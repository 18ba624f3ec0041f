//! What a plan may reach, and the grants that a run is given for it.

use crate::cap::{Capability, Constraints, Grant};
use crate::caps::grants;
use crate::consent::ConsentRecord;
use crate::error::joined_text;
use crate::plan::{Expr, Guard, Plan, Stmt};
use crate::plancheck::sat;
use crate::strmap::{increasing, listed, listing_of, mapped, mapped_listing, StrMap, StrSet};
use crate::text::{find_first, find_last, occurs_at, strip_prefix};
use vstd::prelude::*;

verus! {

/// Whether an expression may reach a verb. A computation is a verb of the compute plugin.
pub open spec fn expr_reaches(e: Expr, verb: Seq<char>) -> bool
    decreases e,
{
    match e {
        Expr::Observe { verb: v, args } => v@ == verb || exprs_reach(args@, verb),
        Expr::Pure { func, args } => "compute::run"@ == verb || exprs_reach(args@, verb),
        Expr::Index { base, idx } => expr_reaches(*base, verb),
        Expr::Const { value } => false,
        Expr::Var { name } => false,
    }
}

/// Whether one of several expressions may reach a verb.
pub open spec fn exprs_reach(es: Seq<Expr>, verb: Seq<char>) -> bool
    decreases es,
{
    exists|i: int| 0 <= i < es.len() && expr_reaches(#[trigger] es[i], verb)
}

/// Whether a guard may reach a verb.
pub open spec fn guard_reaches(g: Guard, verb: Seq<char>) -> bool
    decreases g,
{
    match g {
        Guard::Exists { expr } => expr_reaches(*expr, verb),
        Guard::Matches { expr, regex } => expr_reaches(*expr, verb),
        Guard::Cmp { lhs, op, rhs } => expr_reaches(*lhs, verb) || expr_reaches(*rhs, verb),
        Guard::And { l, r } => guard_reaches(*l, verb) || guard_reaches(*r, verb),
        Guard::Or { l, r } => guard_reaches(*l, verb) || guard_reaches(*r, verb),
        Guard::Not { g } => guard_reaches(*g, verb),
    }
}

/// Whether a statement may reach a verb, as an effect or by a read.
pub open spec fn stmt_reaches(s: Stmt, verb: Seq<char>) -> bool
    decreases s,
{
    match s {
        Stmt::Effect { verb: v, args } => v@ == verb || exprs_reach(args@, verb),
        Stmt::If { guard, then_, else_ } => guard_reaches(guard, verb) || stmts_reach(then_@, verb)
            || stmts_reach(else_@, verb),
        Stmt::Foreach { var, list, bound, mode, body } => expr_reaches(list, verb) || stmts_reach(
            body@,
            verb,
        ),
        Stmt::Let { var, expr } => expr_reaches(expr, verb),
    }
}

/// Whether one of several statements may reach a verb.
pub open spec fn stmts_reach(ss: Seq<Stmt>, verb: Seq<char>) -> bool
    decreases ss,
{
    exists|i: int| 0 <= i < ss.len() && stmt_reaches(#[trigger] ss[i], verb)
}

fn add_expr(out: &mut StrSet, e: &Expr)
    ensures
        forall|v: Seq<char>| #[trigger]
            final(out)@.contains(v) <==> old(out)@.contains(v) || expr_reaches(*e, v),
    decreases e,
{
    match e {
        Expr::Observe { verb, args } => {
            assert(decreases_to!(e => args@));
            out.insert(verb.clone());
            add_exprs(out, args);
        },
        Expr::Pure { func, args } => {
            assert(decreases_to!(e => args@));
            out.insert("compute::run".to_owned());
            add_exprs(out, args);
        },
        Expr::Index { base, idx } => {
            add_expr(out, base);
        },
        Expr::Const { value } => {},
        Expr::Var { name } => {},
    }
}

fn add_exprs(out: &mut StrSet, es: &Vec<Expr>)
    ensures
        forall|v: Seq<char>| #[trigger]
            final(out)@.contains(v) <==> old(out)@.contains(v) || exprs_reach(es@, v),
    decreases es@,
{
    let mut i: usize = 0;
    while i < es.len()
        invariant
            i <= es@.len(),
            forall|v: Seq<char>| #[trigger]
                out@.contains(v) <==> old(out)@.contains(v) || exists|k: int|
                    0 <= k < i && expr_reaches(#[trigger] es@[k], v),
        decreases es.len() - i,
    {
        assert(decreases_to!(es@ => es@[i as int]));
        add_expr(out, &es[i]);
        i = i + 1;
    }
}

fn add_guard(out: &mut StrSet, g: &Guard)
    ensures
        forall|v: Seq<char>| #[trigger]
            final(out)@.contains(v) <==> old(out)@.contains(v) || guard_reaches(*g, v),
    decreases g,
{
    match g {
        Guard::Exists { expr } => {
            add_expr(out, expr);
        },
        Guard::Matches { expr, regex } => {
            add_expr(out, expr);
        },
        Guard::Cmp { lhs, op, rhs } => {
            add_expr(out, lhs);
            add_expr(out, rhs);
        },
        Guard::And { l, r } => {
            add_guard(out, l);
            add_guard(out, r);
        },
        Guard::Or { l, r } => {
            add_guard(out, l);
            add_guard(out, r);
        },
        Guard::Not { g } => {
            add_guard(out, g);
        },
    }
}

fn add_stmt(out: &mut StrSet, s: &Stmt)
    ensures
        forall|v: Seq<char>| #[trigger]
            final(out)@.contains(v) <==> old(out)@.contains(v) || stmt_reaches(*s, v),
    decreases s,
{
    match s {
        Stmt::Effect { verb, args } => {
            out.insert(verb.clone());
            add_exprs(out, args);
        },
        Stmt::If { guard, then_, else_ } => {
            assert(decreases_to!(s => then_@));
            assert(decreases_to!(s => else_@));
            add_guard(out, guard);
            add_stmts(out, then_);
            add_stmts(out, else_);
        },
        Stmt::Foreach { var, list, bound, mode, body } => {
            assert(decreases_to!(s => body@));
            add_expr(out, list);
            add_stmts(out, body);
        },
        Stmt::Let { var, expr } => {
            add_expr(out, expr);
        },
    }
}

fn add_stmts(out: &mut StrSet, ss: &Vec<Stmt>)
    ensures
        forall|v: Seq<char>| #[trigger]
            final(out)@.contains(v) <==> old(out)@.contains(v) || stmts_reach(ss@, v),
    decreases ss@,
{
    let mut i: usize = 0;
    while i < ss.len()
        invariant
            i <= ss@.len(),
            forall|v: Seq<char>| #[trigger]
                out@.contains(v) <==> old(out)@.contains(v) || exists|k: int|
                    0 <= k < i && stmt_reaches(#[trigger] ss@[k], v),
        decreases ss.len() - i,
    {
        assert(decreases_to!(ss@ => ss@[i as int]));
        add_stmt(out, &ss[i]);
        i = i + 1;
    }
}

/// Every verb that a plan may reach, effects and reads.
pub fn verb_demand(plan: &Plan) -> (out: StrSet)
    ensures
        forall|v: Seq<char>| #[trigger] out@.contains(v) <==> stmts_reach(plan.stmts@, v),
{
    let mut out = StrSet::new();
    add_stmts(&mut out, &plan.stmts);
    out
}

/// The full name of a verb of a family.
pub open spec fn full_verb(family: Seq<char>, short: Seq<char>) -> Seq<char> {
    family + "::"@ + short
}

/// Whether a grant of a driver covers a verb.
pub open spec fn grant_covers(g: Grant, verb: Seq<char>) -> bool {
    exists|family: Seq<char>, short: Seq<char>|
        g.resource == "driver:"@ + family && g.verbs.contains(short) && verb == #[trigger] full_verb(
            family,
            short,
        )
}

/// The verbs that grants of drivers cover.
pub fn live_grant_verbs(caps: &Vec<Capability>) -> (out: StrSet)
    ensures
        forall|v: Seq<char>| #[trigger]
            out@.contains(v) <==> exists|i: int|
                0 <= i < caps@.len() && grant_covers((#[trigger] caps@[i])@, v),
{
    let mut out = StrSet::new();
    let mut i: usize = 0;
    while i < caps.len()
        invariant
            i <= caps@.len(),
            forall|v: Seq<char>| #[trigger]
                out@.contains(v) <==> exists|k: int|
                    0 <= k < i && grant_covers((#[trigger] caps@[k])@, v),
        decreases caps.len() - i,
    {
        let cap: &Capability = &caps[i];
        let ghost before = out@;
        match strip_prefix(cap.resource.as_str(), "driver:") {
            None => {
                assert forall|v: Seq<char>| !grant_covers(cap@, v) by {
                    if grant_covers(cap@, v) {
                        let (f, s): (Seq<char>, Seq<char>) = choose|f: Seq<char>, s: Seq<char>|
                            cap@.resource == "driver:"@ + f && cap@.verbs.contains(s) && v
                                == #[trigger] full_verb(f, s);
                        assert("driver:"@.is_prefix_of(cap@.resource));
                    }
                }
            },
            Some(family) => {
                let n: usize = cap.verbs.len();
                let ghost items = cap.verbs.items();
                let mut k: usize = 0;
                while k < n
                    invariant
                        k <= n,
                        n == items.len(),
                        items == cap.verbs.items(),
                        forall|v: Seq<char>| #[trigger]
                            out@.contains(v) <==> before.contains(v) || exists|j: int|
                                0 <= j < k && v == full_verb(family@, #[trigger] items[j]),
                    decreases n - k,
                {
                    let mut v: String = joined_text(family, "::");
                    v.append(cap.verbs.item_at(k).as_str());
                    out.insert(v);
                    k = k + 1;
                }
                proof {
                    assert forall|v: Seq<char>| grant_covers(cap@, v) <==> exists|j: int|
                        0 <= j < n && v == full_verb(family@, #[trigger] items[j]) by {
                        if grant_covers(cap@, v) {
                            let (f, s): (Seq<char>, Seq<char>) = choose|f: Seq<char>, s: Seq<char>|
                                cap@.resource == "driver:"@ + f && cap@.verbs.contains(s) && v
                                    == #[trigger] full_verb(f, s);
                            assert(f =~= family@) by {
                                let d = "driver:"@;
                                assert(f =~= (d + f).skip(d.len() as int));
                                assert(family@ =~= (d + family@).skip(d.len() as int));
                            }
                            let j = items.index_of(s);
                            assert(items[j] == s);
                        }
                        if exists|j: int|
                            0 <= j < n && v == full_verb(family@, #[trigger] items[j]) {
                            let j = choose|j: int|
                                0 <= j < n && v == full_verb(family@, #[trigger] items[j]);
                            assert(items.contains(items[j]));
                            assert(cap@.verbs.contains(items[j]));
                            assert(v == full_verb(family@, items[j]));
                        }
                    }
                }
            },
        }
        proof {
            assert forall|v: Seq<char>| #[trigger] out@.contains(v) <==> exists|k: int|
                0 <= k < i + 1 && grant_covers((#[trigger] caps@[k])@, v) by {
                assert(out@.contains(v) <==> before.contains(v) || grant_covers(cap@, v));
                if grant_covers(cap@, v) {
                    assert(grant_covers(caps@[i as int]@, v));
                }
            }
        }
        i = i + 1;
    }
    out
}

/// Whether a place is the first one where a piece stands.
pub open spec fn is_first(s: Seq<char>, piece: Seq<char>, i: int) -> bool {
    occurs_at(s, piece, i) && forall|j: int| 0 <= j < i ==> !occurs_at(s, piece, j)
}

/// Whether a place is the last one where a piece stands.
pub open spec fn is_last(s: Seq<char>, piece: Seq<char>, i: int) -> bool {
    occurs_at(s, piece, i) && forall|j: int| i < j ==> !occurs_at(s, piece, j)
}

/// The family of a verb: what stands before the first double colon.
pub open spec fn family_of(verb: Seq<char>) -> Seq<char> {
    if exists|i: int| is_first(verb, "::"@, i) {
        verb.take(choose|i: int| is_first(verb, "::"@, i))
    } else {
        verb
    }
}

/// The short name of a verb: what stands after the last double colon.
pub open spec fn short_of(verb: Seq<char>) -> Seq<char> {
    if exists|i: int| is_last(verb, "::"@, i) {
        verb.skip((choose|i: int| is_last(verb, "::"@, i)) + "::"@.len())
    } else {
        verb
    }
}

/// The family and the short name of a verb.
pub fn split_verb(verb: &str) -> (r: (String, String))
    ensures
        r.0@ == family_of(verb@),
        r.1@ == short_of(verb@),
{
    proof {
        reveal_strlit("::");
    }
    let n: usize = verb.unicode_len();
    let family: String = match find_first(verb, "::") {
        None => {
            assert forall|i: int| !is_first(verb@, "::"@, i) by {
                assert(!occurs_at(verb@, "::"@, i));
            }
            verb.to_owned()
        },
        Some(i) => {
            let t: String = verb.substring_char(0, i).to_owned();
            proof {
                assert(is_first(verb@, "::"@, i as int));
                let c = choose|c: int| is_first(verb@, "::"@, c);
                assert(is_first(verb@, "::"@, c));
                assert(c == i) by {
                    if c < i {
                        assert(!occurs_at(verb@, "::"@, c));
                    } else if i < c {
                        assert(!occurs_at(verb@, "::"@, i as int));
                    }
                }
                assert(t@ =~= verb@.take(i as int));
            }
            t
        },
    };
    let short: String = match find_last(verb, "::") {
        None => {
            assert forall|i: int| !is_last(verb@, "::"@, i) by {
                assert(!occurs_at(verb@, "::"@, i));
            }
            verb.to_owned()
        },
        Some(i) => {
            let t: String = verb.substring_char(i + 2, n).to_owned();
            proof {
                assert(is_last(verb@, "::"@, i as int));
                let c = choose|c: int| is_last(verb@, "::"@, c);
                assert(is_last(verb@, "::"@, c));
                assert(c == i) by {
                    if c < i {
                        assert(!occurs_at(verb@, "::"@, i as int));
                    } else if i < c {
                        assert(!occurs_at(verb@, "::"@, c));
                    }
                }
                assert(t@ =~= verb@.skip(i + 2));
            }
            t
        },
    };
    (family, short)
}

/// The verbs of one family that a run may use, and the counts of those that are counted.
#[derive(Debug)]
pub struct Pool {
    pub verbs: StrSet,
    pub counts: StrMap<u64>,
}

/// What a pool holds.
#[verifier::ext_equal]
pub struct PoolView {
    pub verbs: Set<Seq<char>>,
    pub counts: Map<Seq<char>, u64>,
}

impl View for Pool {
    type V = PoolView;

    open spec fn view(&self) -> PoolView {
        PoolView { verbs: self.verbs@, counts: self.counts@ }
    }
}

/// The pool without verbs.
pub open spec fn empty_pool() -> PoolView {
    PoolView { verbs: Set::empty(), counts: Map::empty() }
}

/// What the pools of several families hold.
pub open spec fn pool_views(m: StrMap<Pool>) -> Map<Seq<char>, PoolView> {
    m@.map_values(|p: Pool| p@)
}

/// The pools with one verb more, counted or not. A verb of the same short name is the same verb
/// of the pool; the last count holds.
pub open spec fn with_verb(
    m: Map<Seq<char>, PoolView>,
    verb: Seq<char>,
    count: Option<u64>,
) -> Map<Seq<char>, PoolView> {
    let family = family_of(verb);
    let short = short_of(verb);
    let p = if m.contains_key(family) {
        m[family]
    } else {
        empty_pool()
    };
    m.insert(
        family,
        PoolView {
            verbs: p.verbs.insert(short),
            counts: match count {
                Some(n) => p.counts.insert(short, n),
                None => p.counts,
            },
        },
    )
}

/// The pools of several verbs.
pub open spec fn pools_of(verbs: Seq<(Seq<char>, Option<u64>)>) -> Map<Seq<char>, PoolView>
    decreases verbs.len(),
{
    if verbs.len() == 0 {
        Map::empty()
    } else {
        with_verb(pools_of(verbs.drop_last()), verbs.last().0, verbs.last().1)
    }
}

/// Adds a verb to the pools.
fn add_verb(m: &mut StrMap<Pool>, verb: &str, count: Option<u64>)
    ensures
        pool_views(*final(m)) == with_verb(pool_views(*old(m)), verb@, count),
{
    let (family, short) = split_verb(verb);
    let mut p: Pool = match m.get(family.as_str()) {
        None => Pool { verbs: StrSet::new(), counts: StrMap::new() },
        Some(p) => Pool { verbs: p.verbs.clone(), counts: p.counts.clone() },
    };
    match count {
        None => {},
        Some(n) => {
            p.counts.insert(short.clone(), n);
        },
    }
    p.verbs.insert(short);
    let ghost before = pool_views(*m);
    let ghost pv = p@;
    m.insert(family, p);
    assert(pool_views(*m) =~= before.insert(family@, pv));
}

/// A grant that a run is to be given.
#[derive(Debug)]
pub struct MintOrder {
    pub resource: String,
    pub verbs: StrSet,
    pub constraints: Constraints,
}

/// What an order asks for.
#[verifier::ext_equal]
pub struct Order {
    pub resource: Seq<char>,
    pub pool: PoolView,
    pub expires_at: Option<u64>,
}

impl View for MintOrder {
    type V = Order;

    open spec fn view(&self) -> Order {
        Order {
            resource: self.resource@,
            pool: PoolView { verbs: self.verbs@, counts: self.constraints.counts@ },
            expires_at: self.constraints.expires_at,
        }
    }
}

/// What several orders ask for.
pub open spec fn order_views(orders: Seq<MintOrder>) -> Seq<Order> {
    Seq::new(orders.len(), |i: int| orders[i]@)
}

/// One order for each family, in the order of their names.
pub open spec fn orders_for(pools: Seq<(Seq<char>, PoolView)>, expires_at: u64) -> Seq<Order> {
    Seq::new(
        pools.len(),
        |i: int| Order {
            resource: "driver:"@ + pools[i].0,
            pool: pools[i].1,
            expires_at: Some(expires_at),
        },
    )
}

/// Writes an order for each family.
fn write_orders(pools: &StrMap<Pool>, expires_at: u64) -> (orders: Vec<MintOrder>)
    ensures
        order_views(orders@) == orders_for(listing_of(pool_views(*pools)), expires_at),
{
    let mut orders: Vec<MintOrder> = Vec::new();
    let n: usize = pools.len();
    let ghost f = |p: Pool| p@;
    let ghost l = mapped(pools.pairs(), f);
    proof {
        mapped_listing(pools.pairs(), f);
        assert(pool_views(*pools) == listed(pools.pairs()).map_values(f));
    }
    let mut i: usize = 0;
    assert(order_views(orders@) =~= orders_for(l, expires_at).take(0));
    while i < n
        invariant
            i <= n,
            n == pools.pairs().len(),
            n == l.len(),
            f == (|p: Pool| p@),
            l == mapped(pools.pairs(), f),
            order_views(orders@) == orders_for(l, expires_at).take(i as int),
        decreases n - i,
    {
        let p: &Pool = pools.value_at(i);
        let ghost o0 = order_views(orders@);
        let order = MintOrder {
            resource: joined_text("driver:", pools.key_at(i).as_str()),
            verbs: p.verbs.clone(),
            constraints: Constraints { expires_at: Some(expires_at), counts: p.counts.clone() },
        };
        orders.push(order);
        proof {
            let all = orders_for(l, expires_at);
            assert(order@ =~= all[i as int]);
            assert(order_views(orders@) =~= o0.push(order@));
            assert(all.take(i + 1) =~= all.take(i as int).push(all[i as int]));
        }
        i = i + 1;
    }
    assert(orders_for(l, expires_at).take(n as int) =~= orders_for(l, expires_at));
    orders
}

/// The counts of a budget as verbs of pools, all counted.
pub open spec fn counted_verbs(budget: Map<Seq<char>, u64>) -> Seq<(Seq<char>, Option<u64>)> {
    let l = listing_of(budget);
    Seq::new(l.len(), |i: int| (l[i].0, Some(l[i].1)))
}

/// The grants that a budget pays for: one for each family, every verb counted.
pub fn budget_orders(budget: &StrMap<u64>, expires_at: u64) -> (orders: Vec<MintOrder>)
    ensures
        order_views(orders@) == orders_for(
            listing_of(pools_of(counted_verbs(budget@))),
            expires_at,
        ),
{
    let mut pools: StrMap<Pool> = StrMap::new();
    let n: usize = budget.len();
    let ghost all = counted_verbs(budget@);
    let mut i: usize = 0;
    assert(all.take(0) =~= Seq::<(Seq<char>, Option<u64>)>::empty());
    assert(pool_views(pools) =~= Map::<Seq<char>, PoolView>::empty());
    while i < n
        invariant
            i <= n,
            n == budget.pairs().len(),
            budget.pairs() == listing_of(budget@),
            all == counted_verbs(budget@),
            pool_views(pools) == pools_of(all.take(i as int)),
        decreases n - i,
    {
        add_verb(&mut pools, budget.key_at(i).as_str(), Some(*budget.value_at(i)));
        proof {
            let p = all.take(i + 1);
            assert(p.drop_last() =~= all.take(i as int));
            assert(p.last() == all[i as int]);
        }
        i = i + 1;
    }
    assert(all.take(n as int) =~= all);
    write_orders(&pools, expires_at)
}

/// The verbs that a plan reaches, in order, with the counts of a budget where it has one.
pub open spec fn granted_verbs(
    verbs: Seq<Seq<char>>,
    budget: Map<Seq<char>, u64>,
) -> Seq<(Seq<char>, Option<u64>)> {
    Seq::new(
        verbs.len(),
        |i: int|
            (
                verbs[i],
                if budget.contains_key(verbs[i]) {
                    Some(budget[verbs[i]])
                } else {
                    None
                },
            ),
    )
}

/// Whether a sequence lists the verbs that a plan reaches, in increasing order.
pub open spec fn lists_demand(verbs: Seq<Seq<char>>, plan: &Plan) -> bool {
    &&& forall|i: int, j: int|
        0 <= i < j < verbs.len() ==> crate::text::lex_lt(
            #[trigger] verbs[i],
            #[trigger] verbs[j],
        )
    &&& forall|v: Seq<char>| #[trigger] verbs.contains(v) <==> stmts_reach(plan.stmts@, v)
}

/// The grants of a run: one for each family that the plan uses, with the counts that the user
/// has consented to. Reads are not counted.
pub fn mint_fiber_caps(plan: &Plan, consent: &ConsentRecord) -> (orders: Vec<MintOrder>)
    ensures
        exists|verbs: Seq<Seq<char>>| #[trigger]
            lists_demand(verbs, plan) && order_views(orders@) == orders_for(
                listing_of(pools_of(granted_verbs(verbs, consent.budget@))),
                sat(consent.issued_at + consent.ttl_secs),
            ),
{
    let demand: StrSet = verb_demand(plan);
    let mut pools: StrMap<Pool> = StrMap::new();
    let n: usize = demand.len();
    let ghost verbs = demand.items();
    let ghost all = granted_verbs(verbs, consent.budget@);
    proof {
        assert(lists_demand(verbs, plan)) by {
            assert forall|v: Seq<char>| #[trigger] verbs.contains(v) <==> stmts_reach(
                plan.stmts@,
                v,
            ) by {
                assert(demand@.contains(v) <==> verbs.contains(v));
            }
        }
    }
    let mut i: usize = 0;
    assert(all.take(0) =~= Seq::<(Seq<char>, Option<u64>)>::empty());
    assert(pool_views(pools) =~= Map::<Seq<char>, PoolView>::empty());
    while i < n
        invariant
            i <= n,
            n == verbs.len(),
            verbs == demand.items(),
            all == granted_verbs(verbs, consent.budget@),
            pool_views(pools) == pools_of(all.take(i as int)),
        decreases n - i,
    {
        let verb: &String = demand.item_at(i);
        let count: Option<u64> = match consent.budget.get(verb.as_str()) {
            None => None,
            Some(c) => Some(*c),
        };
        add_verb(&mut pools, verb.as_str(), count);
        proof {
            let p = all.take(i + 1);
            assert(p.drop_last() =~= all.take(i as int));
            assert(p.last() == all[i as int]);
        }
        i = i + 1;
    }
    assert(all.take(n as int) =~= all);
    write_orders(&pools, consent.issued_at.saturating_add(consent.ttl_secs))
}

} // verus!

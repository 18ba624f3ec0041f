//! The rules of plan runs: submission, consent, start, approval, suspension and expiry.

use crate::artifact::{address, id_for_bytes};
use crate::cap::Capability;
use crate::consent::{consent_fault, render_budget, renders, shown, ConsentKey, ConsentRecord};
use crate::digest::{blake3_digest, hex_chars, hex_chars_are_digits, is_hex_digit};
use crate::error::{joined_text, KernelError, Refusal};
use crate::handle::{fresh_name, random_name};
use crate::interp::{budget_excess, excess, first_excess, first_over, left, over};
use crate::plan::Plan;
use crate::plan_demand::{
    budget_orders, counted_verbs, grant_covers, granted_verbs, lists_demand, live_grant_verbs,
    mint_fiber_caps, order_views, orders_for, pools_of, stmts_reach, verb_demand, MintOrder,
};
use crate::plan_types::{state_name, Buffered, RunState, SubmitOut};
use crate::plancheck::{
    admission_fault, admit_plan, admit_text, listed_tags, sat, stmts_demand, stmts_name, Admission,
    AdmitError, VerbSchemas,
};
use crate::strmap::{listing_of, StrMap, StrSet};
use crate::text::{debug_of, decimal, lex_lt, push_decimal, same};
use vstd::prelude::*;
use vstd::utf8::{encode_utf8, is_char_boundary};

verus! {

/// The verbs that a plan may reach and that no live grant covers, in order.
pub open spec fn missing_verbs(missing: Seq<Seq<char>>, plan: &Plan, caps: Seq<Capability>) -> bool {
    &&& forall|i: int, j: int|
        0 <= i < j < missing.len() ==> lex_lt(#[trigger] missing[i], #[trigger] missing[j])
    &&& forall|v: Seq<char>| #[trigger]
        missing.contains(v) <==> stmts_reach(plan.stmts@, v) && !exists|i: int|
            0 <= i < caps.len() && grant_covers((#[trigger] caps[i])@, v)
}

/// The subject of a run.
pub open spec fn fiber_name(plan_hash: Seq<char>, run_id: Seq<char>) -> Seq<char> {
    "plan:"@ + plan_hash + "#"@ + run_id
}

/// The subject of a run.
pub fn fiber_of(plan_hash: &str, run_id: &str) -> (s: String)
    ensures
        s@ == fiber_name(plan_hash@, run_id@),
{
    let mut s: String = joined_text("plan:", plan_hash);
    s.append("#");
    s.append(run_id);
    s
}

/// The subject of what a run creates: torn down with a run that does not commit.
pub fn segment_of(fiber: &str) -> (s: String)
    ensures
        s@ == fiber@ + ":seg"@,
{
    joined_text(fiber, ":seg")
}

fn missing_of(plan: &Plan, caps: &Vec<Capability>) -> (r: Vec<String>)
    ensures
        missing_verbs(texts(r@), plan, caps@),
{
    let demand: StrSet = verb_demand(plan);
    let have: StrSet = live_grant_verbs(caps);
    let n: usize = demand.len();
    let ghost items = demand.items();
    let mut r: Vec<String> = Vec::new();
    let ghost mut at: Seq<int> = Seq::empty();
    let mut i: usize = 0;
    while i < n
        invariant
            i <= n,
            n == items.len(),
            items == demand.items(),
            forall|a: int, b: int|
                0 <= a < b < items.len() ==> lex_lt(#[trigger] items[a], #[trigger] items[b]),
            at.len() == r@.len(),
            forall|k: int|
                0 <= k < at.len() ==> 0 <= #[trigger] at[k] < i && r@[k]@ == items[at[k]]
                    && !have@.contains(items[at[k]]),
            forall|j: int, k: int| 0 <= j < k < at.len() ==> #[trigger] at[j] < #[trigger] at[k],
            forall|a: int|
                0 <= a < i && !have@.contains(#[trigger] items[a]) ==> exists|k: int|
                    0 <= k < at.len() && #[trigger] at[k] == a,
        decreases n - i,
    {
        let v: &String = demand.item_at(i);
        let ghost at0 = at;
        if !have.contains(v.as_str()) {
            r.push(v.clone());
            proof {
                at = at.push(i as int);
                assert(at[at0.len() as int] == i);
            }
        }
        proof {
            assert forall|a: int| 0 <= a < i + 1 && !have@.contains(
                #[trigger] items[a],
            ) implies exists|k: int| 0 <= k < at.len() && #[trigger] at[k] == a by {
                if a < i {
                    let k = choose|k: int| 0 <= k < at0.len() && #[trigger] at0[k] == a;
                    assert(at[k] == a);
                } else {
                    assert(at[at0.len() as int] == a);
                }
            }
        }
        i = i + 1;
    }
    proof {
        let t = texts(r@);
        assert forall|j: int, k: int| 0 <= j < k < t.len() implies lex_lt(
            #[trigger] t[j],
            #[trigger] t[k],
        ) by {
            assert(at[j] < at[k]);
            assert(lex_lt(items[at[j]], items[at[k]]));
        }
        assert forall|v: Seq<char>| #[trigger] t.contains(v) <==> stmts_reach(plan.stmts@, v)
            && !exists|i: int| 0 <= i < caps@.len() && grant_covers((#[trigger] caps@[i])@, v) by {
            assert(demand@.contains(v) <==> stmts_reach(plan.stmts@, v));
            assert(demand@.contains(v) <==> items.contains(v));
            assert(have@.contains(v) <==> exists|i: int|
                0 <= i < caps@.len() && grant_covers((#[trigger] caps@[i])@, v));
            if t.contains(v) {
                let k = t.index_of(v);
                assert(r@[k]@ == items[at[k]]);
                assert(items.contains(items[at[k]]));
            }
            if items.contains(v) && !have@.contains(v) {
                let a = items.index_of(v);
                assert(!have@.contains(items[a]));
                let k = choose|k: int| 0 <= k < at.len() && #[trigger] at[k] == a;
                assert(t[k] == v);
            }
        }
    }
    r
}

/// What a list of strings says.
pub open spec fn texts(v: Seq<String>) -> Seq<Seq<char>> {
    Seq::new(v.len(), |i: int| v[i]@)
}

/// A list of strings in the notation of a debug format.
pub fn debug_list(v: &Vec<String>) -> (s: String)
    ensures
        s@ == "["@ + listed_tags(texts(v@)) + "]"@,
{
    let mut s: String = "[".to_owned();
    let mut i: usize = 0;
    assert(texts(v@).take(0) =~= Seq::<Seq<char>>::empty());
    assert(s@ =~= "["@ + listed_tags(texts(v@).take(0)));
    while i < v.len()
        invariant
            i <= v@.len(),
            s@ == "["@ + listed_tags(texts(v@).take(i as int)),
        decreases v.len() - i,
    {
        if i > 0 {
            s.append(", ");
        }
        s.append(debug_of(v[i].as_str()).as_str());
        proof {
            let p = texts(v@).take(i + 1);
            assert(p.drop_last() =~= texts(v@).take(i as int));
            assert(s@ =~= "["@ + listed_tags(p));
        }
        i = i + 1;
    }
    assert(texts(v@).take(i as int) =~= texts(v@));
    s.append("]");
    s
}

/// An address starts on a character boundary wherever it is cut.
proof fn address_is_cut(id: Seq<char>)
    requires
        exists|d: Seq<u8>| id == "blake3:"@ + #[trigger] hex_chars(d),
    ensures
        is_char_boundary(encode_utf8(id), shown(encode_utf8(id).len())),
{
    let d = choose|d: Seq<u8>| id == "blake3:"@ + #[trigger] hex_chars(d);
    reveal_strlit("blake3:");
    hex_chars_are_digits(d);
    assert(vstd::utf8::is_ascii_chars(id)) by {
        assert forall|i: int| 0 <= i < id.len() implies (#[trigger] id[i]) as u32 <= 0x7f by {
            if i >= 7 {
                assert(id[i] == hex_chars(d)[i - 7]);
                assert(is_hex_digit(hex_chars(d)[i - 7]));
            }
        }
    }
    vstd::utf8::is_ascii_chars_encode_utf8(id);
    let b = encode_utf8(id);
    let cut = shown(b.len());
    vstd::utf8::encode_utf8_valid_utf8(id);
    if cut == b.len() {
        vstd::utf8::is_char_boundary_start_end_of_seq(b);
    } else {
        vstd::utf8::is_char_boundary_iff_not_is_continuation_byte(b, cut);
    }
}

/// Why a submission is refused, if so. A subject other than the user must hold live grants for
/// every verb that the plan may reach.
pub open spec fn submit_refused(
    e: Refusal,
    subject: Seq<char>,
    parsed: Result<Plan, String>,
    schemas: &VerbSchemas,
    caps: Seq<Capability>,
) -> bool {
    match parsed {
        Err(t) => e == Refusal::Corrupt("plan parse: "@ + t@),
        Ok(plan) => match admission_fault(&plan, schemas) {
            Some(f) => exists|x: AdmitError|
                x@ == f && e == Refusal::Denied("admission: "@ + #[trigger] admit_text(x)),
            None => subject != "user"@ && exists|missing: Seq<Seq<char>>|
                missing.len() > 0 && #[trigger] missing_verbs(missing, &plan, caps) && e
                    == Refusal::Denied(
                    "plan verbs outside the submitter's grants: ["@ + listed_tags(missing) + "]"@,
                ),
        },
    }
}

/// Whether a submission is accepted.
pub open spec fn submit_accepted(
    subject: Seq<char>,
    parsed: Result<Plan, String>,
    schemas: &VerbSchemas,
    caps: Seq<Capability>,
) -> bool {
    &&& parsed is Ok
    &&& admission_fault(&parsed->Ok_0, schemas) is None
    &&& subject != "user"@ ==> forall|v: Seq<char>| #[trigger]
        stmts_reach(parsed->Ok_0.stmts@, v) ==> exists|i: int|
            0 <= i < caps.len() && grant_covers((#[trigger] caps[i])@, v)
}

/// Admits a plan that a subject submits, given the live grants of the subject. Nothing is
/// executed.
pub fn submit(
    subject: &str,
    bytes: &[u8],
    parsed: &Result<Plan, String>,
    schemas: &VerbSchemas,
    caps: &Vec<Capability>,
) -> (r: Result<SubmitOut, KernelError>)
    ensures
        match r {
            Ok(out) => {
                &&& submit_accepted(subject@, *parsed, schemas, caps@)
                &&& random_name(out.run_id@, "run_"@, 8)
                &&& out.plan_hash@ == address(bytes@)
                &&& renders(out.rendering@, out.plan_hash@, out.budget@)
                &&& forall|v: Seq<char>| #[trigger]
                    out.budget@.contains_key(v) <==> stmts_name(parsed->Ok_0.stmts@, v)
                &&& forall|v: Seq<char>| #[trigger]
                    out.budget@.contains_key(v) ==> out.budget@[v] == stmts_demand(
                        parsed->Ok_0.stmts@,
                        v,
                    )
            },
            Err(e) => {
                &&& !submit_accepted(subject@, *parsed, schemas, caps@)
                &&& submit_refused(e@, subject@, *parsed, schemas, caps@)
            },
        },
{
    let plan_hash: String = id_for_bytes(bytes);
    let plan: &Plan = match parsed {
        Err(t) => {
            return Err(KernelError::Corrupt(joined_text("plan parse: ", t.as_str())));
        },
        Ok(p) => p,
    };
    let adm: Admission = match admit_plan(plan, schemas) {
        Err(x) => {
            let e = KernelError::Denied(joined_text("admission: ", x.message().as_str()));
            assert(e@ == Refusal::Denied("admission: "@ + admit_text(x)));
            return Err(e);
        },
        Ok(a) => a,
    };
    if !same(subject, "user") {
        let missing: Vec<String> = missing_of(plan, caps);
        let ghost m = texts(missing@);
        if missing.len() > 0 {
            let mut t: String = "plan verbs outside the submitter's grants: ".to_owned();
            t.append(debug_list(&missing).as_str());
            proof {
                assert(t@ =~= "plan verbs outside the submitter's grants: ["@ + listed_tags(m)
                    + "]"@) by {
                    reveal_strlit("plan verbs outside the submitter's grants: ");
                    reveal_strlit("[");
                    reveal_strlit("plan verbs outside the submitter's grants: [");
                    assert("plan verbs outside the submitter's grants: ["@
                        =~= "plan verbs outside the submitter's grants: "@ + "["@);
                }
                assert(m.contains(m[0]));
            }
            return Err(KernelError::Denied(t));
        }
        proof {
            assert forall|v: Seq<char>| #[trigger] stmts_reach(plan.stmts@, v) implies exists|i: int|
                0 <= i < caps@.len() && grant_covers((#[trigger] caps@[i])@, v) by {
                assert(!m.contains(v));
            }
        }
    }
    proof {
        assert(plan_hash@ == "blake3:"@ + hex_chars(blake3_digest(bytes@)));
        address_is_cut(plan_hash@);
    }
    let rendering: String = render_budget(plan_hash.as_str(), &adm.budget);
    Ok(SubmitOut { run_id: fresh_name("run_", 8), plan_hash, rendering, budget: adm.budget })
}

/// Why a consent does not pay for a plan, if so: it is not authentic or has expired, it speaks of
/// another plan, or its nonce was used before.
pub open spec fn consent_refused(
    c: &ConsentRecord,
    key: Seq<u8>,
    plan_hash: Seq<char>,
    now: u64,
    used: Set<Seq<char>>,
) -> Option<Refusal> {
    match consent_fault(c, key, now) {
        Some(e) => Some(e),
        None => if c.plan_hash@ != plan_hash {
            Some(
                Refusal::Denied(
                    "consent/plan mismatch: "@ + c.plan_hash@ + " vs "@ + plan_hash,
                ),
            )
        } else if used.contains(c.nonce@) {
            Some(Refusal::Denied("stale nonce: "@ + c.nonce@))
        } else {
            None
        },
    }
}

/// Checks a consent for a plan and uses up its nonce.
pub fn check_and_consume_consent(
    consent: &ConsentRecord,
    key: &ConsentKey,
    plan_hash: &str,
    now: u64,
    used: &mut StrSet,
) -> (r: Result<(), KernelError>)
    ensures
        match r {
            Ok(_) => {
                &&& consent_refused(consent, key@, plan_hash@, now, old(used)@) is None
                &&& final(used)@ == old(used)@.insert(consent.nonce@)
            },
            Err(e) => {
                &&& consent_refused(consent, key@, plan_hash@, now, old(used)@) == Some(e@)
                &&& final(used)@ == old(used)@
            },
        },
{
    match consent.verify(key, now) {
        Err(e) => {
            return Err(e);
        },
        Ok(_) => {},
    }
    if !same(consent.plan_hash.as_str(), plan_hash) {
        let mut t: String = joined_text("consent/plan mismatch: ", consent.plan_hash.as_str());
        t.append(" vs ");
        t.append(plan_hash);
        return Err(KernelError::Denied(t));
    }
    if used.contains(consent.nonce.as_str()) {
        return Err(KernelError::Denied(joined_text("stale nonce: ", consent.nonce.as_str())));
    }
    used.insert(consent.nonce.clone());
    Ok(())
}

/// A consent pays once: when the nonce of one has been used up, no consent with that nonce is
/// accepted again, now or later, for this plan or another.
pub proof fn nonce_pays_once(
    paid: &ConsentRecord,
    again: &ConsentRecord,
    before: Set<Seq<char>>,
    later: Set<Seq<char>>,
    key: Seq<u8>,
    plan_hash: Seq<char>,
    now: u64,
)
    requires
        before.insert(paid.nonce@).subset_of(later),
        again.nonce@ == paid.nonce@,
    ensures
        consent_refused(again, key, plan_hash, now, later) is Some,
{
}

/// A run as the service keeps it.
#[derive(Debug)]
pub struct RunRecord {
    pub plan_hash: String,
    pub fiber: String,
    pub nonce: String,
    /// When the consent that the run was started with ends.
    pub original_ttl_at: u64,
    pub state: RunState,
}

/// The refusal to start a run that is not admitted.
pub open spec fn not_admitted(run_id: Seq<char>, state: RunState) -> Refusal {
    Refusal::Denied(
        "plan run "@ + run_id + " not admitted (state "@ + state_name(state) + ")"@,
    )
}

/// The refusal of a run that outlived the consent it was started with.
pub open spec fn ended_consent() -> Refusal {
    Refusal::Denied("original consent expired: the segment can only be aborted"@)
}

impl RunRecord {
    /// A run that was just admitted.
    pub fn admitted(plan_hash: &str, run_id: &str) -> (r: RunRecord)
        ensures
            r.plan_hash@ == plan_hash@,
            r.fiber@ == fiber_name(plan_hash@, run_id@),
            r.nonce@ == Seq::<char>::empty(),
            r.original_ttl_at == 0,
            r.state == RunState::Admitted,
    {
        RunRecord {
            plan_hash: plan_hash.to_owned(),
            fiber: fiber_of(plan_hash, run_id),
            nonce: String::new(),
            original_ttl_at: 0,
            state: RunState::Admitted,
        }
    }

    /// Takes an admitted run into its start under a consent.
    pub fn begin(&mut self, run_id: &str, consent: &ConsentRecord) -> (r: Result<(), KernelError>)
        ensures
            match r {
                Ok(_) => {
                    &&& old(self).state == RunState::Admitted
                    &&& final(self).state == RunState::Running
                    &&& final(self).nonce@ == consent.nonce@
                    &&& final(self).original_ttl_at == sat(consent.issued_at + consent.ttl_secs)
                    &&& final(self).plan_hash == old(self).plan_hash
                    &&& final(self).fiber == old(self).fiber
                },
                Err(e) => {
                    &&& old(self).state != RunState::Admitted
                    &&& e@ == not_admitted(run_id@, old(self).state)
                    &&& *final(self) == *old(self)
                },
            },
    {
        if self.state != RunState::Admitted {
            let mut t: String = joined_text("plan run ", run_id);
            t.append(" not admitted (state ");
            t.append(self.state.as_str());
            t.append(")");
            return Err(KernelError::Denied(t));
        }
        self.state = RunState::Running;
        self.nonce = consent.nonce.clone();
        self.original_ttl_at = consent.issued_at.saturating_add(consent.ttl_secs);
        Ok(())
    }

    /// Whether a suspended run may still be resumed.
    pub fn may_resume(&self, run_id: &str, now: u64) -> (r: Result<(), KernelError>)
        ensures
            match r {
                Ok(_) => self.state == RunState::Paused && now <= self.original_ttl_at,
                Err(e) => if self.state != RunState::Paused {
                    e@ == Refusal::Denied(
                        "plan run "@ + run_id@ + " is "@ + state_name(self.state)
                            + ", not paused"@,
                    )
                } else {
                    now > self.original_ttl_at && e@ == ended_consent()
                },
            },
    {
        if self.state != RunState::Paused {
            let mut t: String = joined_text("plan run ", run_id);
            t.append(" is ");
            t.append(self.state.as_str());
            t.append(", not paused");
            return Err(KernelError::Denied(t));
        }
        if now > self.original_ttl_at {
            return Err(
                KernelError::Denied(
                    "original consent expired: the segment can only be aborted".to_owned(),
                ),
            );
        }
        Ok(())
    }

    /// Whether a suspended run has outlived the consent that it was started with.
    pub fn expires(&self, now: u64) -> (b: bool)
        ensures
            b == ((self.state == RunState::AwaitingApproval || self.state == RunState::Paused)
                && self.original_ttl_at > 0 && now > self.original_ttl_at),
    {
        (self.state == RunState::AwaitingApproval || self.state == RunState::Paused)
            && self.original_ttl_at > 0 && now > self.original_ttl_at
    }
}

/// Whether a run that an earlier process left behind cannot go on: its interpreter is gone. An
/// admitted run may still be started, and a withheld batch may still be approved.
pub fn lost_with_its_process(state: RunState) -> (b: bool)
    ensures
        b == (state == RunState::Running || state == RunState::Paused),
{
    state == RunState::Running || state == RunState::Paused
}

/// Whether a run in a state has no interpreter that would settle it when it is aborted.
pub fn settles_without_interpreter(state: RunState) -> (b: bool)
    ensures
        b == (state == RunState::AwaitingApproval),
{
    state == RunState::AwaitingApproval
}

/// The grants of a run, or why its plan does not run under a consent: it cannot be parsed, it is
/// not admissible, or it can demand more than was consented to.
pub open spec fn start_answer(
    r: Result<Vec<MintOrder>, KernelError>,
    consent: &ConsentRecord,
    parsed: Result<Plan, String>,
    schemas: &VerbSchemas,
) -> bool {
    match r {
        Ok(orders) => {
            &&& parsed is Ok
            &&& admission_fault(&parsed->Ok_0, schemas) is None
            &&& forall|v: Seq<char>| !#[trigger] over(&parsed->Ok_0, consent.budget@, v)
            &&& exists|verbs: Seq<Seq<char>>| #[trigger]
                lists_demand(verbs, &parsed->Ok_0) && order_views(orders@) == orders_for(
                    listing_of(pools_of(granted_verbs(verbs, consent.budget@))),
                    sat(consent.issued_at + consent.ttl_secs),
                )
        },
        Err(e) => match parsed {
            Err(t) => e@ == Refusal::Corrupt("plan parse: "@ + t@),
            Ok(plan) => match admission_fault(&plan, schemas) {
                Some(f) => exists|x: AdmitError|
                    x@ == f && e@ == Refusal::Denied("admission: "@ + #[trigger] admit_text(x)),
                None => exists|v: Seq<char>| #[trigger]
                    first_over(&plan, consent.budget@, v) && e@ == Refusal::Denied(
                        "derived budget "@ + v + "="@ + decimal(stmts_demand(plan.stmts@, v))
                            + " exceeds consent "@ + decimal(left(consent.budget@, v) as nat),
                    ),
            },
        },
    }
}

/// Checks what a plan can demand against the consent, and derives the grants of the run.
pub fn start_orders(
    consent: &ConsentRecord,
    parsed: &Result<Plan, String>,
    schemas: &VerbSchemas,
) -> (r: Result<Vec<MintOrder>, KernelError>)
    ensures
        start_answer(r, consent, *parsed, schemas),
{
    let plan: &Plan = match parsed {
        Err(t) => {
            return Err(KernelError::Corrupt(joined_text("plan parse: ", t.as_str())));
        },
        Ok(p) => p,
    };
    let adm: Admission = match admit_plan(plan, schemas) {
        Err(x) => {
            let e = KernelError::Denied(joined_text("admission: ", x.message().as_str()));
            assert(e@ == Refusal::Denied("admission: "@ + admit_text(x)));
            return Err(e);
        },
        Ok(a) => a,
    };
    match first_excess(&adm.budget, &consent.budget) {
        Some(i) => {
            let ghost v = adm.budget.pairs()[i as int].0;
            let key: &String = adm.budget.key_at(i);
            let mut t: String = joined_text("derived budget ", key.as_str());
            t.append("=");
            push_decimal(&mut t, *adm.budget.value_at(i));
            t.append(" exceeds consent ");
            let allowed: u64 = match consent.budget.get(key.as_str()) {
                None => 0,
                Some(n) => *n,
            };
            push_decimal(&mut t, allowed);
            proof {
                budget_excess(plan, adm.budget, consent.budget@);
                assert(first_over(plan, consent.budget@, v)) by {
                    assert(excess(adm.budget@, consent.budget@, v));
                    assert forall|u: Seq<char>| #[trigger] over(plan, consent.budget@, u) implies u
                        == v || lex_lt(v, u) by {
                        assert(excess(adm.budget@, consent.budget@, u));
                    }
                }
            }
            return Err(KernelError::Denied(t));
        },
        None => {
            proof {
                budget_excess(plan, adm.budget, consent.budget@);
                assert forall|u: Seq<char>| !#[trigger] over(plan, consent.budget@, u) by {
                    assert(!excess(adm.budget@, consent.budget@, u));
                }
            }
        },
    }
    Ok(mint_fiber_caps(plan, consent))
}

/// How much of a verb a batch costs.
pub open spec fn batch_cost(batch: Seq<Buffered>, verb: Seq<char>) -> nat
    decreases batch.len(),
{
    if batch.len() == 0 {
        0
    } else {
        batch_cost(batch.drop_last(), verb) + if batch.last().verb@ == verb {
            batch.last().cost as nat
        } else {
            0nat
        }
    }
}

/// Whether a batch holds a verb.
pub open spec fn batch_names(batch: Seq<Buffered>, verb: Seq<char>) -> bool {
    exists|i: int| 0 <= i < batch.len() && (#[trigger] batch[i]).verb@ == verb
}

/// What a batch needs of each verb, held to the range of `u64`.
pub open spec fn batch_need(batch: Seq<Buffered>) -> Map<Seq<char>, u64> {
    Map::new(|v: Seq<char>| batch_names(batch, v), |v: Seq<char>| sat(batch_cost(batch, v) as int))
}

fn need_of(batch: &Vec<Buffered>) -> (need: StrMap<u64>)
    ensures
        need@ == batch_need(batch@),
{
    let mut need: StrMap<u64> = StrMap::new();
    let mut i: usize = 0;
    assert(batch@.take(0) =~= Seq::<Buffered>::empty());
    assert(need@ =~= batch_need(batch@.take(0)));
    while i < batch.len()
        invariant
            i <= batch@.len(),
            need@ == batch_need(batch@.take(i as int)),
        decreases batch.len() - i,
    {
        let b: &Buffered = &batch[i];
        let so_far: u64 = match need.get(b.verb.as_str()) {
            None => 0,
            Some(n) => *n,
        };
        let ghost p = batch@.take(i as int);
        let ghost q = batch@.take(i + 1);
        proof {
            assert(q.drop_last() =~= p);
            assert(q.last() == batch@[i as int]);
            if !batch_names(p, b.verb@) {
                unnamed_costs_nothing(p, b.verb@);
            }
        }
        need.insert(b.verb.clone(), so_far.saturating_add(b.cost));
        proof {
            assert forall|v: Seq<char>| batch_names(q, v) == (batch_names(p, v) || v == b.verb@) by {
                if batch_names(p, v) {
                    let k = choose|k: int| 0 <= k < p.len() && (#[trigger] p[k]).verb@ == v;
                    assert(q[k].verb@ == v);
                }
                if batch_names(q, v) {
                    let k = choose|k: int| 0 <= k < q.len() && (#[trigger] q[k]).verb@ == v;
                    if k < i {
                        assert(p[k].verb@ == v);
                    }
                }
                assert(q[i as int].verb@ == b.verb@);
            }
            assert(need@ =~= batch_need(q));
        }
        i = i + 1;
    }
    assert(batch@.take(i as int) =~= batch@);
    need
}

proof fn unnamed_costs_nothing(batch: Seq<Buffered>, verb: Seq<char>)
    requires
        !batch_names(batch, verb),
    ensures
        batch_cost(batch, verb) == 0,
    decreases batch.len(),
{
    if batch.len() > 0 {
        assert(batch[batch.len() - 1].verb@ != verb);
        assert(!batch_names(batch.drop_last(), verb)) by {
            if batch_names(batch.drop_last(), verb) {
                let k = choose|k: int|
                    0 <= k < batch.drop_last().len() && (#[trigger] batch.drop_last()[k]).verb@
                        == verb;
                assert(batch[k].verb@ == verb);
            }
        }
        unnamed_costs_nothing(batch.drop_last(), verb);
    }
}

/// Whether a verb is the first that a batch needs more of than a budget grants.
pub open spec fn first_short(
    batch: Seq<Buffered>,
    granted: Map<Seq<char>, u64>,
    verb: Seq<char>,
) -> bool {
    &&& excess(batch_need(batch), granted, verb)
    &&& forall|u: Seq<char>| #[trigger]
        excess(batch_need(batch), granted, u) ==> u == verb || lex_lt(verb, u)
}

/// Why an approval is refused before anything is released, if so, as far as it does not depend on
/// the batch.
pub open spec fn approval_refused(
    run_id: Seq<char>,
    run: &RunRecord,
    now: u64,
    consent: &ConsentRecord,
    key: Seq<u8>,
    used: Set<Seq<char>>,
) -> Option<Refusal> {
    if run.state != RunState::AwaitingApproval {
        Some(
            Refusal::Denied(
                "plan run "@ + run_id + " is "@ + state_name(run.state)
                    + ", not awaiting approval"@,
            ),
        )
    } else if now > run.original_ttl_at {
        Some(ended_consent())
    } else {
        consent_refused(consent, key, run.plan_hash@, now, used)
    }
}

/// Decides on the approval of a withheld batch: the run must await it, the consent that it was
/// started with must not have ended, the new consent must be good, and its budget must cover the
/// whole batch. Returns the grants that the release needs.
pub fn approve_gate(
    run_id: &str,
    run: &RunRecord,
    now: u64,
    consent: &ConsentRecord,
    key: &ConsentKey,
    used: &mut StrSet,
    batch: &Vec<Buffered>,
) -> (r: Result<Vec<MintOrder>, KernelError>)
    ensures
        match approval_refused(run_id@, run, now, consent, key@, old(used)@) {
            Some(e) => r matches Err(x) && x@ == e && final(used)@ == old(used)@,
            None => {
                &&& final(used)@ == old(used)@.insert(consent.nonce@)
                &&& match r {
                    Ok(orders) => {
                        &&& forall|v: Seq<char>| !#[trigger]
                            excess(batch_need(batch@), consent.budget@, v)
                        &&& order_views(orders@) == orders_for(
                            listing_of(pools_of(counted_verbs(batch_need(batch@)))),
                            sat(consent.issued_at + consent.ttl_secs),
                        )
                    },
                    Err(x) => exists|v: Seq<char>| #[trigger]
                        first_short(batch@, consent.budget@, v) && x@ == Refusal::Denied(
                            "approval budget short: "@ + v + " needs "@ + decimal(
                                batch_need(batch@)[v] as nat,
                            ) + ", got "@ + decimal(left(consent.budget@, v) as nat),
                        ),
                }
            },
        },
{
    if run.state != RunState::AwaitingApproval {
        let mut t: String = joined_text("plan run ", run_id);
        t.append(" is ");
        t.append(run.state.as_str());
        t.append(", not awaiting approval");
        return Err(KernelError::Denied(t));
    }
    if now > run.original_ttl_at {
        return Err(
            KernelError::Denied(
                "original consent expired: the segment can only be aborted".to_owned(),
            ),
        );
    }
    match check_and_consume_consent(consent, key, run.plan_hash.as_str(), now, used) {
        Err(e) => {
            return Err(e);
        },
        Ok(_) => {},
    }
    let need: StrMap<u64> = need_of(batch);
    match first_excess(&need, &consent.budget) {
        Some(i) => {
            let ghost v = need.pairs()[i as int].0;
            let verb: &String = need.key_at(i);
            let mut t: String = joined_text("approval budget short: ", verb.as_str());
            t.append(" needs ");
            push_decimal(&mut t, *need.value_at(i));
            t.append(", got ");
            let allowed: u64 = match consent.budget.get(verb.as_str()) {
                None => 0,
                Some(n) => *n,
            };
            push_decimal(&mut t, allowed);
            assert(first_short(batch@, consent.budget@, v));
            return Err(KernelError::Denied(t));
        },
        None => {},
    }
    Ok(budget_orders(&need, consent.issued_at.saturating_add(consent.ttl_secs)))
}

} // verus!

//! The host: what it knows of the plugins that run, and what it decides of their requests and of
//! their admission. The caller holds the connections and the processes, and does what is decided.

use crate::caps::{exercised, found_for, CapStore};
use crate::client::{
    decode_op, invoked, op_in, op_invoke, pairs_view, spawn_child, spawn_denied_record,
    spawn_fault, ClientOp, Invocation, Op, Spawning,
};
use crate::declaration::{check_class_declaration, class_in, ClassDraft, ClassView};
use crate::error::{joined_text, refusal_text, KernelError, Refusal};
use crate::events::{
    next_subscription, own_at, subscription_order, unsubscribe, Sub, SubscriptionOrder,
};
use crate::grants::{grants_for, grants_value, strongest, Best};
use crate::json::{values, Json, Value};
use crate::records::{held_views, Held, HoldingRecord};
use crate::resources::{
    hold_start, hold_step, op_release, op_renew, own_holding, owner_fault, plugin_subject,
    subject_of, HoldStep,
};
use crate::routing::{find_plugin, in_use, is_in_use, plugin_of, PluginEntry, Route};
use crate::strmap::listing_of;
use crate::substrate::CLASS_SUBSCRIPTION;
use crate::text::{decimal, texts};
use crate::wire::{hold_in, renew_in, trouble_text, HoldRequest, HoldingRef, Request};
use vstd::prelude::*;

verus! {

/// What a host knows.
pub struct Host {
    pub caps: CapStore,
    pub routes: Vec<Route>,
    pub plugins: Vec<PluginEntry>,
    pub subs: Vec<Sub>,
    pub next_sub: u64,
    /// The session of this host.
    pub session: String,
}

/// What is to be done for a request.
pub enum ClientAction {
    /// Record the decision; then call the target with these arguments, or answer the refusal.
    Invoke { decision: Invocation, verb: String, args: Json },
    /// Answer with these grants.
    Grants(Vec<Json>),
    Emit { topic: String, data: Json },
    /// Make the holding, and keep the subscription under it.
    Subscribe { id: u64, topic: String, order: SubscriptionOrder },
    /// Release the holding of the subscription; there may be none.
    Unsubscribe(Option<HoldingRef>),
    SpawnChild {
        bin: String,
        args: Vec<String>,
        envs: Vec<(String, String)>,
        parent: HoldingRef,
    },
    /// Record the refusal, and answer it.
    Denied { record: Json, why: KernelError },
    /// Observe what must be observed, and hold.
    Hold { request: HoldRequest, step: HoldStep },
    Release(HoldingRef),
    Renew(HoldingRef, Option<u64>),
    Submit { subject: String, plan: Json },
    /// Store what follows.
    Put { media_type: String, labels: Option<Json>, origin: String },
    Read { id: String, offset: u64, len: Option<u64> },
}

/// Whether the plugin that makes a request is in use; nothing where it is not known.
pub open spec fn caller_state(plugins: Seq<PluginEntry>, hs: Seq<Held>, name: Seq<char>) -> Option<
    bool,
> {
    match plugin_of(plugins, name) {
        Some(p) => Some(in_use(hs, p.holding@)),
        None => None,
    }
}

/// The identity of the holding of a plugin.
pub open spec fn parent_of(plugins: Seq<PluginEntry>, name: Seq<char>) -> Option<u64> {
    match plugin_of(plugins, name) {
        Some(p) => Some(p.holding.id),
        None => None,
    }
}

/// Whether a host is as it was, but for its capabilities.
pub open spec fn only_caps_changed(a: &Host, b: &Host) -> bool {
    &&& b.routes == a.routes
    &&& b.plugins == a.plugins
    &&& b.subs == a.subs
    &&& b.next_sub == a.next_sub
    &&& b.session == a.session
}

fn copy_ref(h: &HoldingRef) -> (r: HoldingRef)
    ensures
        r@ == h@,
{
    HoldingRef { id: h.id, generation: h.generation.clone() }
}

/// Whether a request was decided as it must be, once it was read.
pub open spec fn decided(
    before: &Host,
    after: &Host,
    hs: Seq<Held>,
    name: Seq<char>,
    req: Value,
    now: u64,
    op: Op,
    r: Result<ClientAction, KernelError>,
) -> bool {
    match op {
        Op::Invoke { verb, args } => {
            &&& only_caps_changed(before, after)
            &&& r matches Ok(ClientAction::Invoke { decision, verb: v, args: a }) && v@ == verb
                && a@ == args && invoked(
                &before.caps,
                &after.caps,
                before.routes@,
                before.plugins@,
                hs,
                name,
                verb,
                now,
                decision,
            )
        },
        Op::Grants => {
            &&& *after == *before
            &&& r matches Ok(ClientAction::Grants(v)) && exists|m: Map<Seq<char>, Best>| #[trigger]
                strongest(m, &before.caps, plugin_subject(name), now, hs) && values(v@)
                    == grants_value(listing_of(m), before.routes@)
        },
        Op::Emit { topic, data } => {
            &&& *after == *before
            &&& r matches Ok(ClientAction::Emit { topic: t, data: d }) && t@ == topic && d@ == data
        },
        Op::Subscribe { topic } => {
            &&& after.caps == before.caps
            &&& after.routes == before.routes
            &&& after.plugins == before.plugins
            &&& after.subs == before.subs
            &&& after.session == before.session
            &&& if before.next_sub == u64::MAX {
                &&& after.next_sub == before.next_sub
                &&& r matches Err(e) && e@ == Refusal::Denied("subscription IDs exhausted"@)
            } else {
                &&& after.next_sub == before.next_sub + 1
                &&& r matches Ok(ClientAction::Subscribe { id, topic: t, order }) && id
                    == before.next_sub && t@ == topic && order.owner@ == plugin_subject(name)
                    && order.class_id@ == CLASS_SUBSCRIPTION@ && order.instance@
                    == before.session@ + "/"@ + decimal(id as nat) && order.generation@
                    == before.session@ && order.parent == parent_of(before.plugins@, name)
            }
        },
        Op::Unsubscribe { sub } => {
            &&& *after == *before
            &&& r matches Ok(ClientAction::Unsubscribe(h)) && match own_at(
                before.subs@,
                sub,
                name,
            ) {
                Some(i) => h matches Some(x) && x@ == before.subs@[i].holding@,
                None => h is None,
            }
        },
        Op::SpawnChild { bin, args, envs } => {
            let found = found_for(
                &before.caps,
                plugin_subject(name),
                "kernel:spawn"@,
                "spawn_child"@,
                now,
            );
            let fault = spawn_fault(found, plugin_of(before.plugins@, name), name, bin);
            &&& only_caps_changed(before, after)
            &&& match found {
                Err(e) => {
                    &&& after.caps == before.caps
                    &&& r matches Ok(ClientAction::Denied { record, why }) && why@ == e && record@
                        == spawn_denied_record(name, bin, refusal_text(e))
                },
                Ok(id) => {
                    &&& exercised(&before.caps, &after.caps, id, "spawn_child"@, now)
                    &&& match r {
                        Ok(ClientAction::SpawnChild { bin: b, args: a, envs: e, parent }) => {
                            &&& fault is None
                            &&& b@ == bin
                            &&& texts(a@) == args
                            &&& pairs_view(e@) == envs
                            &&& parent@ == plugin_of(before.plugins@, name)->0.holding@
                        },
                        Ok(_) => false,
                        Err(e) => fault == Some(e@),
                    }
                },
            }
        },
        Op::Hold => {
            &&& *after == *before
            &&& match hold_in(req) {
                Ok(Request::Hold { class, instance, substrate, lease_secs }) => match hold_step(
                    class,
                    instance,
                    substrate,
                ) {
                    Ok(s) => r matches Ok(ClientAction::Hold { request, step }) && step == s
                        && request.class@ == class && request.instance@ == instance
                        && request.substrate@ == substrate && request.lease_secs == lease_secs,
                    Err(e) => r is Err && r->Err_0@ == e,
                },
                Ok(_) => false,
                Err(t) => r is Err && r->Err_0@ == Refusal::Denied(
                    "hold request: "@ + trouble_text(t),
                ),
            }
        },
        Op::Release => {
            &&& *after == *before
            &&& match own_holding(req, hs, name) {
                Ok(h) => r matches Ok(ClientAction::Release(x)) && x@ == h,
                Err(e) => r is Err && r->Err_0@ == e,
            }
        },
        Op::Renew => {
            &&& *after == *before
            &&& match renew_in(req) {
                Err(t) => r is Err && r->Err_0@ == Refusal::Denied(
                    "renew request: "@ + trouble_text(t),
                ),
                Ok((h, lease)) => match owner_fault("renew"@, hs, h.id, name) {
                    Some(e) => r is Err && r->Err_0@ == e,
                    None => r matches Ok(ClientAction::Renew(x, l)) && x@ == h && l == lease,
                },
            }
        },
        Op::SubmitPlan { plan } => {
            &&& *after == *before
            &&& r matches Ok(ClientAction::Submit { subject, plan: p }) && subject@
                == plugin_subject(name) && p@ == plan
        },
        Op::Put { media_type, labels } => {
            &&& *after == *before
            &&& r matches Ok(ClientAction::Put { media_type: m, labels: l, origin }) && m@
                == media_type && origin@ == plugin_subject(name) && match labels {
                Some(v) => l matches Some(x) && x@ == v,
                None => l is None,
            }
        },
        Op::Read { id, offset, len } => {
            &&& *after == *before
            &&& r matches Ok(ClientAction::Read { id: i, offset: o, len: n }) && i@ == id && o
                == offset && n == len
        },
    }
}

impl Host {
    /// A host of a session that knows no plugin yet. Subscriptions are counted from one.
    pub fn new(caps: CapStore, session: String) -> (h: Host)
        ensures
            h.caps == caps,
            h.routes@.len() == 0,
            h.plugins@.len() == 0,
            h.subs@.len() == 0,
            h.next_sub == 1,
            h.session == session,
    {
        Host {
            caps,
            routes: Vec::new(),
            plugins: Vec::new(),
            subs: Vec::new(),
            next_sub: 1,
            session,
        }
    }

    /// What is to be done for a request of a plugin, or why it is refused.
    pub fn handle_client_op(
        &mut self,
        holdings: &Vec<HoldingRecord>,
        name: &str,
        req: &Json,
        now: u64,
    ) -> (r: Result<ClientAction, KernelError>)
        ensures
            ({
                let hs = held_views(holdings@);
                match op_in(req@, caller_state(old(self).plugins@, hs, name@)) {
                    Err(e) => *final(self) == *old(self) && r is Err && r->Err_0@ == e,
                    Ok(op) => decided(old(self), final(self), hs, name@, req@, now, op, r),
                }
            }),
    {
        let caller: Option<bool> = match find_plugin(&self.plugins, name) {
            Some(p) => Some(is_in_use(holdings, &p.holding)),
            None => None,
        };
        let parent: Option<u64> = match find_plugin(&self.plugins, name) {
            Some(p) => Some(p.holding.id),
            None => None,
        };
        let op: ClientOp = match decode_op(req, caller) {
            Ok(op) => op,
            Err(e) => {
                return Err(e);
            },
        };
        match op {
            ClientOp::Invoke { verb, args } => {
                let decision: Invocation = op_invoke(
                    &mut self.caps,
                    &self.routes,
                    &self.plugins,
                    holdings,
                    name,
                    verb.as_str(),
                    now,
                );
                Ok(ClientAction::Invoke { decision, verb, args })
            },
            ClientOp::Grants => {
                let subject: String = subject_of(name);
                Ok(
                    ClientAction::Grants(
                        grants_for(&self.caps, subject.as_str(), now, holdings, &self.routes),
                    ),
                )
            },
            ClientOp::Emit { topic, data } => Ok(ClientAction::Emit { topic, data }),
            ClientOp::Subscribe { topic } => {
                let subject: String = subject_of(name);
                match next_subscription(&mut self.next_sub) {
                    Err(e) => Err(e),
                    Ok(id) => {
                        let order: SubscriptionOrder = subscription_order(
                            subject.as_str(),
                            self.session.as_str(),
                            id,
                            parent,
                        );
                        Ok(ClientAction::Subscribe { id, topic, order })
                    },
                }
            },
            ClientOp::Unsubscribe { sub } => {
                let found: Option<HoldingRef> = match unsubscribe(&self.subs, sub, name) {
                    Some(h) => Some(copy_ref(h)),
                    None => None,
                };
                Ok(ClientAction::Unsubscribe(found))
            },
            ClientOp::SpawnChild { bin, args, envs } => {
                let spawning: Spawning = spawn_child(
                    &mut self.caps,
                    &self.plugins,
                    name,
                    bin.as_str(),
                    now,
                );
                match (spawning.record, spawning.parent) {
                    (Some(record), Err(why)) => Ok(ClientAction::Denied { record, why }),
                    (_, Err(e)) => Err(e),
                    (_, Ok(h)) => {
                        let parent: HoldingRef = copy_ref(h);
                        Ok(ClientAction::SpawnChild { bin, args, envs, parent })
                    },
                }
            },
            ClientOp::Hold => match HoldRequest::from_json(req) {
                Err(t) => Err(
                    KernelError::Denied(joined_text("hold request: ", t.message().as_str())),
                ),
                Ok(request) => match hold_start(&request) {
                    Err(e) => Err(e),
                    Ok(step) => Ok(ClientAction::Hold { request, step }),
                },
            },
            ClientOp::Release => match op_release(req, holdings, name) {
                Ok(h) => Ok(ClientAction::Release(h)),
                Err(e) => Err(e),
            },
            ClientOp::Renew => match op_renew(req, holdings, name) {
                Ok((h, lease)) => Ok(ClientAction::Renew(h, lease)),
                Err(e) => Err(e),
            },
            ClientOp::SubmitPlan { plan } => Ok(
                ClientAction::Submit { subject: subject_of(name), plan },
            ),
            ClientOp::Put { media_type, labels } => Ok(
                ClientAction::Put { media_type, labels, origin: subject_of(name) },
            ),
            ClientOp::Read { id, offset, len } => Ok(ClientAction::Read { id, offset, len }),
        }
    }
}

/// Why a plugin that has declared itself is not admitted: its class is refused, or it does not fit
/// its slot.
pub open spec fn admission_refusal(
    name: Seq<char>,
    verbs: Seq<Seq<char>>,
    tools: Value,
    hello: Value,
    slot: Option<Result<(), String>>,
) -> Option<Refusal> {
    match class_in(name, verbs, tools, hello) {
        Err(e) => Some(
            Refusal::Denied("plugin "@ + name + ": verb metadata rejected: "@ + e),
        ),
        Ok(_) => match slot {
            Some(Err(why)) => Some(
                Refusal::Denied("plugin "@ + name + ": slot admission failed: "@ + why@),
            ),
            _ => None,
        },
    }
}

/// The class of a plugin that has declared itself, if it is admitted. Whether it fits its slot is
/// handed in, where it has one.
pub fn admit_plugin(
    name: &str,
    verbs: &Vec<String>,
    tools_meta: &Json,
    hello: &Json,
    slot: &Option<Result<(), String>>,
) -> (r: Result<ClassDraft, KernelError>)
    ensures
        match r {
            Ok(c) => {
                &&& admission_refusal(name@, texts(verbs@), tools_meta@, hello@, *slot) is None
                &&& class_in(name@, texts(verbs@), tools_meta@, hello@) == Ok::<
                    ClassView,
                    Seq<char>,
                >(c@)
            },
            Err(e) => admission_refusal(name@, texts(verbs@), tools_meta@, hello@, *slot) == Some(
                e@,
            ),
        },
{
    let class: ClassDraft = match check_class_declaration(name, verbs, tools_meta, hello) {
        Ok(c) => c,
        Err(e) => {
            let mut s: String = joined_text("plugin ", name);
            s.append(": verb metadata rejected: ");
            s.append(e.as_str());
            return Err(KernelError::Denied(s));
        },
    };
    if let Some(Err(why)) = slot {
        let mut s: String = joined_text("plugin ", name);
        s.append(": slot admission failed: ");
        s.append(why.as_str());
        return Err(KernelError::Denied(s));
    }
    Ok(class)
}

} // verus!

//! The services that a plan run needs from its host.

use crate::error::{joined_text, KernelError};
use crate::eval::{Ask, Dialect, ReadKind, Reader, Reply};
use crate::json::{named_values, no_members, put, text, values, Json, Value};
use crate::plan_demand::{MintOrder, Order};
use crate::plan_types::{BufferState, EffectPolicy, RunSignal, RunState};
use vstd::prelude::*;

verus! {

/// A question to the host of a run.
#[allow(inconsistent_fields)]
pub enum HostAsk {
    /// How an effect is to be treated.
    Policy { verb: Seq<char>, args: Value },
    /// To keep a withheld effect.
    Hold { verb: Seq<char>, target: Seq<char>, args: Value, cost: u64 },
    /// How many effects have been recorded.
    Emissions,
    /// To record an effect that was performed.
    Log { seq: u64, verb: Seq<char>, target: Seq<char>, nonce: Seq<char> },
    /// To mark a withheld effect.
    Mark { seq: u64, state: BufferState },
    /// To tell the listeners.
    Emit(Value),
    /// To write to the audit log.
    Audit { event: Seq<char>, extra: Value },
    SetState(RunState),
    /// To wait for a signal.
    Await,
    Mint(Order),
}

/// A consent that reached a suspended run.
#[verifier::ext_equal]
pub struct Fresh {
    pub budget: Map<Seq<char>, u64>,
    pub nonce: Seq<char>,
    pub issued_at: u64,
    pub ttl_secs: u64,
}

/// What a signal says.
pub enum SignalView {
    Resume(Fresh),
    Abort(bool),
}

impl View for RunSignal {
    type V = SignalView;

    open spec fn view(&self) -> SignalView {
        match self {
            RunSignal::Resume(c) => SignalView::Resume(
                Fresh {
                    budget: c.budget@,
                    nonce: c.nonce@,
                    issued_at: c.issued_at,
                    ttl_secs: c.ttl_secs,
                },
            ),
            RunSignal::Abort { expired } => SignalView::Abort(*expired),
        }
    }
}

/// A reply of the host of a run.
pub enum HostReply {
    Done,
    Policy { target: Seq<char>, withhold: bool },
    Number(u64),
    Signal(SignalView),
}

/// The reply that a result without a value is.
pub open spec fn done_reply(r: Result<(), KernelError>) -> Reply {
    match r {
        Ok(_) => Reply::Host(HostReply::Done),
        Err(e) => Reply::Refused(e@),
    }
}

/// The reply that a result with a number is.
pub open spec fn number_reply(r: Result<u64, KernelError>) -> Reply {
    match r {
        Ok(n) => Reply::Host(HostReply::Number(n)),
        Err(e) => Reply::Refused(e@),
    }
}

/// The reply that the result of a verb is.
pub open spec fn invoke_reply(r: Result<Json, KernelError>) -> Reply {
    match r {
        Ok(v) => Reply::Got(v@),
        Err(e) => Reply::Refused(e@),
    }
}

/// The host of one run: it routes verbs, enforces capabilities and protocols, keeps what must
/// survive, and delivers signals. Specifications speak of nothing but the conversation with it.
/// A run is sent finitely many signals.
pub trait PlanRuntime {
    /// The conversation so far.
    closed spec fn log(&self) -> Seq<(Ask, Reply)> {
        arbitrary()
    }

    /// How many signals the run will still be sent.
    closed spec fn signals_left(&self) -> nat {
        arbitrary()
    }

    fn effect_policy(&mut self, verb: &str, args: &Json) -> (p: EffectPolicy)
        ensures
            final(self).log() == old(self).log().push(
                (
                    Ask::Host(HostAsk::Policy { verb: verb@, args: args@ }),
                    Reply::Host(HostReply::Policy { target: p.target@, withhold: p.withhold }),
                ),
            ),
            final(self).signals_left() == old(self).signals_left(),
    ;

    /// Performs a verb under the capabilities of the run. A spent budget and the want of a
    /// capability are told by their own errors.
    fn invoke(&mut self, verb: &str, args: Json) -> (r: Result<Json, KernelError>)
        ensures
            final(self).log() == old(self).log().push(
                (Ask::Invoke { verb: verb@, args: args@ }, invoke_reply(r)),
            ),
            final(self).signals_left() == old(self).signals_left(),
    ;

    fn hold(&mut self, verb: &str, target: &str, args: &Json, cost: u64) -> (r: Result<
        (),
        KernelError,
    >)
        ensures
            final(self).log() == old(self).log().push(
                (
                    Ask::Host(
                        HostAsk::Hold { verb: verb@, target: target@, args: args@, cost },
                    ),
                    done_reply(r),
                ),
            ),
            final(self).signals_left() == old(self).signals_left(),
    ;

    fn emission_count(&mut self) -> (r: Result<u64, KernelError>)
        ensures
            final(self).log() == old(self).log().push(
                (Ask::Host(HostAsk::Emissions), number_reply(r)),
            ),
            final(self).signals_left() == old(self).signals_left(),
    ;

    fn log_emission(&mut self, seq: u64, verb: &str, target: &str, nonce: &str) -> (r: Result<
        (),
        KernelError,
    >)
        ensures
            final(self).log() == old(self).log().push(
                (
                    Ask::Host(
                        HostAsk::Log { seq, verb: verb@, target: target@, nonce: nonce@ },
                    ),
                    done_reply(r),
                ),
            ),
            final(self).signals_left() == old(self).signals_left(),
    ;

    fn mark_buffer(&mut self, seq: u64, state: BufferState) -> (r: Result<(), KernelError>)
        ensures
            final(self).log() == old(self).log().push(
                (Ask::Host(HostAsk::Mark { seq, state }), done_reply(r)),
            ),
            final(self).signals_left() == old(self).signals_left(),
    ;

    fn emit(&mut self, data: Json)
        ensures
            final(self).log() == old(self).log().push(
                (Ask::Host(HostAsk::Emit(data@)), Reply::Host(HostReply::Done)),
            ),
            final(self).signals_left() == old(self).signals_left(),
    ;

    fn audit(&mut self, event: &str, extra: Json)
        ensures
            final(self).log() == old(self).log().push(
                (
                    Ask::Host(HostAsk::Audit { event: event@, extra: extra@ }),
                    Reply::Host(HostReply::Done),
                ),
            ),
            final(self).signals_left() == old(self).signals_left(),
    ;

    fn set_state(&mut self, state: RunState)
        ensures
            final(self).log() == old(self).log().push(
                (Ask::Host(HostAsk::SetState(state)), Reply::Host(HostReply::Done)),
            ),
            final(self).signals_left() == old(self).signals_left(),
    ;

    fn await_signal(&mut self) -> (s: RunSignal)
        ensures
            final(self).log() == old(self).log().push(
                (Ask::Host(HostAsk::Await), Reply::Host(HostReply::Signal(s@))),
            ),
            final(self).signals_left() < old(self).signals_left(),
    ;

    fn mint(&mut self, order: &MintOrder) -> (r: Result<(), KernelError>)
        ensures
            final(self).log() == old(self).log().push(
                (Ask::Host(HostAsk::Mint(order@)), done_reply(r)),
            ),
            final(self).signals_left() == old(self).signals_left(),
    ;
}

/// Reads go through the broker of capabilities.
pub struct ThroughBroker;

impl<R: PlanRuntime> Reader<R> for ThroughBroker {
    open spec fn dialect() -> Dialect {
        Dialect::Brokered
    }

    open spec fn log(w: R) -> Seq<(Ask, Reply)> {
        w.log()
    }

    fn direct() -> (r: bool) {
        false
    }

    fn read(w: &mut R, kind: ReadKind, name: &str, args: Vec<Json>) -> (r: Result<Json, String>) {
        match kind {
            ReadKind::Observe => {
                let ghost argv = values(args@);
                let n: usize = args.len();
                let mut args = args;
                let arg: Json = if n == 1 {
                    match args.pop() {
                        Some(v) => v,
                        None => Json::Null,
                    }
                } else {
                    Json::Array(args)
                };
                proof {
                    if n == 1 {
                        assert(arg@ == argv[0]);
                    }
                }
                match w.invoke(name, arg) {
                    Ok(v) => Ok(v),
                    Err(e) => {
                        let mut t: String = joined_text(name, ": ");
                        t.append(e.message().as_str());
                        Err(t)
                    },
                }
            },
            ReadKind::Pure => {
                let mut ms: Vec<(String, Json)> = no_members();
                put(&mut ms, "args", Json::Array(args));
                put(&mut ms, "func", text(name));
                proof {
                    assert(named_values(ms@) =~= seq![
                        ("args"@, Value::Array(values(args@))),
                        ("func"@, Value::Str(name@)),
                    ]);
                }
                match w.invoke("compute::run", Json::Object(ms)) {
                    Ok(v) => Ok(v),
                    Err(e) => {
                        let mut t: String = joined_text("pure ", name);
                        t.append(": ");
                        t.append(e.message().as_str());
                        Err(t)
                    },
                }
            },
        }
    }
}

} // verus!

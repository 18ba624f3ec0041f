//! The states of plan runs and the data that plan services exchange.

use crate::consent::ConsentRecord;
use crate::error::{joined_text, KernelError, Refusal};
use crate::json::Json;
use crate::strmap::StrMap;
use crate::text::same;
use vstd::prelude::*;

verus! {

/// What a submission returns: the identity of the run, the address of the plan, the text that
/// the user is shown, and the budget that it shows.
#[derive(Debug)]
pub struct SubmitOut {
    pub run_id: String,
    pub plan_hash: String,
    pub rendering: String,
    pub budget: StrMap<u64>,
}

/// How a run ended.
#[derive(Debug, PartialEq, Eq)]
pub enum Outcome {
    Completed,
    FailStop { at: String },
    Truncated { dropped: usize },
    Aborted { expired: bool },
}

/// What the end of a run says.
pub enum End {
    Completed,
    FailStop(Seq<char>),
    Truncated(nat),
    Aborted(bool),
}

impl View for Outcome {
    type V = End;

    open spec fn view(&self) -> End {
        match self {
            Outcome::Completed => End::Completed,
            Outcome::FailStop { at } => End::FailStop(at@),
            Outcome::Truncated { dropped } => End::Truncated(*dropped as nat),
            Outcome::Aborted { expired } => End::Aborted(*expired),
        }
    }
}

/// The name of an end.
pub open spec fn end_name(e: End) -> Seq<char> {
    match e {
        End::Completed => "Completed"@,
        End::FailStop(_) => "FailStop"@,
        End::Truncated(_) => "Truncated"@,
        End::Aborted(_) => "Aborted"@,
    }
}

impl Outcome {
    /// The name of the outcome.
    pub fn status(&self) -> (s: &'static str)
        ensures
            s@ == end_name(self@),
    {
        match self {
            Outcome::Completed => "Completed",
            Outcome::FailStop { .. } => "FailStop",
            Outcome::Truncated { .. } => "Truncated",
            Outcome::Aborted { .. } => "Aborted",
        }
    }
}

/// The state of a run.
#[derive(Debug, Clone, Copy, PartialEq, Eq, Structural)]
pub enum RunState {
    Admitted,
    Running,
    AwaitingApproval,
    Paused,
    Done,
}

/// The name of a state.
pub open spec fn state_name(s: RunState) -> Seq<char> {
    match s {
        RunState::Admitted => "admitted"@,
        RunState::Running => "running"@,
        RunState::AwaitingApproval => "awaiting_approval"@,
        RunState::Paused => "paused"@,
        RunState::Done => "done"@,
    }
}

impl RunState {
    /// The name of the state.
    pub fn as_str(&self) -> (s: &'static str)
        ensures
            s@ == state_name(*self),
    {
        match self {
            RunState::Admitted => "admitted",
            RunState::Running => "running",
            RunState::AwaitingApproval => "awaiting_approval",
            RunState::Paused => "paused",
            RunState::Done => "done",
        }
    }

    /// The state of a name.
    pub fn from_name(value: &str) -> (r: Result<RunState, KernelError>)
        ensures
            match r {
                Ok(s) => value@ == state_name(s),
                Err(e) => {
                    &&& forall|s: RunState| value@ != #[trigger] state_name(s)
                    &&& e@ == Refusal::Corrupt("unknown plan run state: "@ + value@)
                },
            },
    {
        if same(value, "admitted") {
            Ok(RunState::Admitted)
        } else if same(value, "running") {
            Ok(RunState::Running)
        } else if same(value, "awaiting_approval") {
            Ok(RunState::AwaitingApproval)
        } else if same(value, "paused") {
            Ok(RunState::Paused)
        } else if same(value, "done") {
            Ok(RunState::Done)
        } else {
            Err(KernelError::Corrupt(joined_text("unknown plan run state: ", value)))
        }
    }
}

/// No two states share a name: a stored state is read back as it was.
pub proof fn state_names_differ(a: RunState, b: RunState)
    requires
        state_name(a) == state_name(b),
    ensures
        a == b,
{
    reveal_strlit("admitted");
    reveal_strlit("running");
    reveal_strlit("awaiting_approval");
    reveal_strlit("paused");
    reveal_strlit("done");
    assert("admitted"@.len() == 8);
    assert("running"@.len() == 7);
    assert("awaiting_approval"@.len() == 17);
    assert("paused"@.len() == 6);
    assert("done"@.len() == 4);
}

/// The state of a withheld effect.
#[derive(Debug, Clone, Copy, PartialEq, Eq, Structural)]
pub enum BufferState {
    Held,
    Inserted,
    Aborted,
}

/// The name of the state of a withheld effect.
pub open spec fn buffer_name(s: BufferState) -> Seq<char> {
    match s {
        BufferState::Held => "held"@,
        BufferState::Inserted => "inserted"@,
        BufferState::Aborted => "aborted"@,
    }
}

impl BufferState {
    /// The name of the state.
    pub fn as_str(self) -> (s: &'static str)
        ensures
            s@ == buffer_name(self),
    {
        match self {
            BufferState::Held => "held",
            BufferState::Inserted => "inserted",
            BufferState::Aborted => "aborted",
        }
    }
}

/// How an evaluated effect is to be treated.
#[derive(Debug, PartialEq, Eq)]
pub struct EffectPolicy {
    pub target: String,
    pub withhold: bool,
}

/// A withheld effect, with all that is needed to release it.
#[derive(Debug)]
pub struct Buffered {
    pub seq: u64,
    pub verb: String,
    pub target: String,
    pub args: Json,
    pub cost: u64,
}

/// A withheld effect as it is shown for approval.
#[derive(Debug)]
pub struct WithheldEffect {
    pub verb: String,
    pub target: String,
    pub cost: u64,
}

/// What a withheld effect shows: everything but the values that it will be performed with.
pub open spec fn shows(w: WithheldEffect, b: Buffered) -> bool {
    w.verb@ == b.verb@ && w.target@ == b.target@ && w.cost == b.cost
}

/// The withheld effects as they are shown for approval, in the order of their release.
pub fn withheld_batch(batch: &Vec<Buffered>) -> (r: Vec<WithheldEffect>)
    ensures
        r@.len() == batch@.len(),
        forall|i: int| 0 <= i < r@.len() ==> shows(#[trigger] r@[i], batch@[i]),
{
    let mut r: Vec<WithheldEffect> = Vec::new();
    let mut i: usize = 0;
    while i < batch.len()
        invariant
            i <= batch@.len(),
            r@.len() == i,
            forall|k: int| 0 <= k < i ==> shows(#[trigger] r@[k], batch@[k]),
        decreases batch.len() - i,
    {
        let b: &Buffered = &batch[i];
        r.push(
            WithheldEffect { verb: b.verb.clone(), target: b.target.clone(), cost: b.cost },
        );
        i = i + 1;
    }
    r
}

/// What wakes a suspended run.
#[derive(Debug)]
pub enum RunSignal {
    Resume(ConsentRecord),
    Abort { expired: bool },
}

/// The signal that waits for a run.
#[derive(Debug)]
pub struct RunControl {
    pub signal: Option<RunSignal>,
}

impl Default for RunControl {
    fn default() -> (c: Self)
        ensures
            c.signal is None,
    {
        RunControl { signal: None }
    }
}

impl RunControl {
    /// Hands over a consent. An abort that waits is never replaced.
    pub fn resume(&mut self, consent: ConsentRecord)
        ensures
            old(self).signal matches Some(RunSignal::Abort { .. }) ==> *final(self) == *old(self),
            !(old(self).signal matches Some(RunSignal::Abort { .. })) ==> final(self).signal
                == Some(RunSignal::Resume(consent)),
    {
        let aborted: bool = match &self.signal {
            Some(RunSignal::Abort { .. }) => true,
            _ => false,
        };
        if !aborted {
            self.signal = Some(RunSignal::Resume(consent));
        }
    }

    /// Aborts the run.
    pub fn abort(&mut self, expired: bool)
        ensures
            final(self).signal == Some(RunSignal::Abort { expired }),
    {
        self.signal = Some(RunSignal::Abort { expired });
    }

    /// Takes the signal that waits, if there is one.
    pub fn wait(&mut self) -> (s: Option<RunSignal>)
        ensures
            s == old(self).signal,
            final(self).signal is None,
    {
        let s = self.signal.take();
        s
    }
}

/// The steps that a control can take.
pub enum Step {
    Resume(ConsentRecord),
    Abort(bool),
}

/// The signal after a step.
pub open spec fn after_step(s: Option<RunSignal>, step: Step) -> Option<RunSignal> {
    match step {
        Step::Abort(expired) => Some(RunSignal::Abort { expired }),
        Step::Resume(c) => if s matches Some(RunSignal::Abort { .. }) {
            s
        } else {
            Some(RunSignal::Resume(c))
        },
    }
}

/// The signal after several steps.
pub open spec fn after_steps(s: Option<RunSignal>, steps: Seq<Step>) -> Option<RunSignal>
    decreases steps.len(),
{
    if steps.len() == 0 {
        s
    } else {
        after_step(after_steps(s, steps.drop_last()), steps.last())
    }
}

/// An abort that waits stays one whatever comes after it: no later consent revives the run.
pub proof fn abort_is_final(s: Option<RunSignal>, steps: Seq<Step>)
    requires
        s matches Some(RunSignal::Abort { .. }),
    ensures
        after_steps(s, steps) matches Some(RunSignal::Abort { .. }),
    decreases steps.len(),
{
    if steps.len() > 0 {
        abort_is_final(s, steps.drop_last());
    }
}

} // verus!

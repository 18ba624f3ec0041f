//! Cleanup targets and obligations in the form in which they are stored. The stored form is plain;
//! what is read of it is checked.

use crate::error::{KernelError, Refusal};
use crate::records::{
    corrupt, kind, kind_name, kind_text, policy_names_differ, storage_fault, CleanupKind,
    CleanupPolicy, CleanupRecord, CleanupState, CleanupTarget, Completion, HostWitness,
    Incarnation, ProcessWitness, Progress, Session, Target, Task, Transport,
};
use crate::substrate::{names_process, names_session};
use crate::text::same;
use vstd::prelude::*;

verus! {

/// A stored incarnation.
#[derive(Debug, PartialEq, Eq)]
pub struct ProcessDto {
    pub pid: u32,
    pub start: u64,
    pub boot: String,
}

/// A stored session.
#[derive(Debug, PartialEq, Eq)]
pub struct HostDto {
    pub process: ProcessDto,
    pub session: String,
}

/// A stored target.
#[derive(Debug, PartialEq, Eq)]
pub enum TargetDto {
    AccountingOnly,
    Process { process: ProcessDto },
    FileLock { path: String, device: u64, inode: u64, owner: Option<ProcessDto> },
    Port { transport: String, port: u16 },
    Subscription { host: HostDto, subscription: u64 },
    Plugin { host: HostDto, process: ProcessDto },
    Provider,
    Unresolved { expected: String, reason: String },
}

/// A stored state.
#[derive(Debug, PartialEq, Eq)]
pub enum StateDto {
    Pending,
    Running { worker: HostDto },
    Retryable { reason: String },
    Unknown { reason: String },
    Blocked { reason: String },
    Confirmed,
    AlreadyAbsent,
}

/// A stored obligation.
#[derive(Debug, PartialEq, Eq)]
pub struct TaskDto {
    pub id: i64,
    pub key: String,
    pub holding: i64,
    pub generation: String,
    pub state: StateDto,
    pub attempts: u64,
    pub requested_at: i64,
    pub updated_at: i64,
}

/// The incarnation that is stored.
pub open spec fn stored_process(d: ProcessDto) -> Incarnation {
    Incarnation { pid: d.pid, start_ticks: d.start, boot: d.boot@ }
}

/// The session that is stored.
pub open spec fn stored_session(d: HostDto) -> Session {
    Session { process: stored_process(d.process), session: d.session@ }
}

/// The refusal of a witness.
pub open spec fn witness_fault() -> Refusal {
    Refusal::Denied("ledger: invalid process witness"@)
}

/// Why a stored session is refused.
pub open spec fn session_fault(d: HostDto) -> Option<Refusal> {
    if !names_process(stored_process(d.process)) {
        Some(witness_fault())
    } else if d.session@.len() == 0 {
        Some(Refusal::Denied("ledger: invalid host witness"@))
    } else {
        None
    }
}

/// The target that is stored, or why it is refused.
pub open spec fn target_in(d: TargetDto) -> Result<Target, Refusal> {
    match d {
        TargetDto::AccountingOnly => Ok(Target::AccountingOnly),
        TargetDto::Process { process } => if names_process(stored_process(process)) {
            Ok(Target::Process(stored_process(process)))
        } else {
            Err(witness_fault())
        },
        TargetDto::FileLock { path, device, inode, owner } => match owner {
            None => Ok(Target::FileLock { path: path@, device, inode, owner: None }),
            Some(p) => if names_process(stored_process(p)) {
                Ok(
                    Target::FileLock { path: path@, device, inode, owner: Some(stored_process(p)) },
                )
            } else {
                Err(witness_fault())
            },
        },
        TargetDto::Port { transport, port } => if transport@ == "tcp"@ {
            Ok(Target::Port { transport: Transport::Tcp, port })
        } else if transport@ == "udp"@ {
            Ok(Target::Port { transport: Transport::Udp, port })
        } else {
            Err(storage_fault("unknown port transport"@))
        },
        TargetDto::Subscription { host, subscription } => match session_fault(host) {
            Some(e) => Err(e),
            None => Ok(Target::Subscription { host: stored_session(host), subscription }),
        },
        TargetDto::Plugin { host, process } => match session_fault(host) {
            Some(e) => Err(e),
            None => if names_process(stored_process(process)) {
                Ok(
                    Target::Plugin {
                        host: stored_session(host),
                        process: stored_process(process),
                    },
                )
            } else {
                Err(witness_fault())
            },
        },
        TargetDto::Provider => Ok(Target::Provider),
        TargetDto::Unresolved { expected, reason } => if exists|k: CleanupKind|
            expected@ == #[trigger] kind_text(k) {
            Ok(
                Target::Unresolved {
                    kind: choose|k: CleanupKind| expected@ == #[trigger] kind_text(k),
                    reason: reason@,
                },
            )
        } else {
            Err(storage_fault("unknown cleanup kind "@ + expected@))
        },
    }
}

fn process_dto(w: &ProcessWitness) -> (d: ProcessDto)
    ensures
        stored_process(d) == w@,
{
    ProcessDto { pid: w.pid, start: w.start_ticks, boot: w.boot.clone() }
}

fn host_dto(w: &HostWitness) -> (d: HostDto)
    ensures
        stored_session(d) == w@,
{
    HostDto { process: process_dto(&w.process), session: w.session.clone() }
}

fn checked_process(d: ProcessDto) -> (r: Result<ProcessWitness, KernelError>)
    ensures
        match r {
            Ok(w) => w@ == stored_process(d) && names_process(stored_process(d)),
            Err(e) => !names_process(stored_process(d)) && e@ == witness_fault(),
        },
{
    ProcessWitness::checked(d.pid, d.start, d.boot)
}

fn checked_host(d: HostDto) -> (r: Result<HostWitness, KernelError>)
    ensures
        match r {
            Ok(w) => w@ == stored_session(d) && session_fault(d) is None,
            Err(e) => session_fault(d) == Some(e@),
        },
{
    match checked_process(d.process) {
        Ok(p) => HostWitness::checked(p, d.session),
        Err(e) => Err(e),
    }
}

/// Whether what a target names can be named.
pub open spec fn valid_target(t: Target) -> bool {
    match t {
        Target::Process(w) => names_process(w),
        Target::FileLock { path, device, inode, owner } => owner matches Some(w)
            ==> names_process(w),
        Target::Subscription { host, subscription } => names_session(host),
        Target::Plugin { host, process } => names_session(host) && names_process(process),
        _ => true,
    }
}

/// The stored form of a target. What is read back of it is the target.
pub fn target_json(target: &CleanupTarget) -> (d: TargetDto)
    ensures
        valid_target(target@) ==> target_in(d) == Ok::<Target, Refusal>(target@),
{
    match target {
        CleanupTarget::AccountingOnly => TargetDto::AccountingOnly,
        CleanupTarget::Process(w) => TargetDto::Process { process: process_dto(w) },
        CleanupTarget::FileLock { path, device, inode, owner } => {
            let owner: Option<ProcessDto> = match owner {
                Some(w) => Some(process_dto(w)),
                None => None,
            };
            TargetDto::FileLock { path: path.clone(), device: *device, inode: *inode, owner }
        },
        CleanupTarget::Port { transport, port } => {
            let name: &str = match transport {
                Transport::Tcp => "tcp",
                Transport::Udp => "udp",
            };
            proof {
                reveal_strlit("tcp");
                reveal_strlit("udp");
                assert("tcp"@[0] == 't');
                assert("udp"@[0] == 'u');
            }
            TargetDto::Port { transport: name.to_owned(), port: *port }
        },
        CleanupTarget::Subscription { host, subscription } => TargetDto::Subscription {
            host: host_dto(host),
            subscription: *subscription,
        },
        CleanupTarget::Plugin { host, process } => TargetDto::Plugin {
            host: host_dto(host),
            process: process_dto(process),
        },
        CleanupTarget::Provider => TargetDto::Provider,
        CleanupTarget::Unresolved { kind: k, reason } => {
            let expected: String = kind_name(*k).to_owned();
            proof {
                assert(expected@ == kind_text(*k));
                let c = choose|c: CleanupKind| expected@ == #[trigger] kind_text(c);
                policy_names_differ(CleanupPolicy::Managed(c), CleanupPolicy::Managed(*k));
            }
            TargetDto::Unresolved { expected, reason: reason.clone() }
        },
    }
}

/// The target that is stored.
pub fn target(d: TargetDto) -> (r: Result<CleanupTarget, KernelError>)
    ensures
        match r {
            Ok(t) => target_in(d) == Ok::<Target, Refusal>(t@),
            Err(e) => target_in(d) == Err::<Target, Refusal>(e@),
        },
{
    match d {
        TargetDto::AccountingOnly => Ok(CleanupTarget::AccountingOnly),
        TargetDto::Process { process } => match checked_process(process) {
            Ok(w) => Ok(CleanupTarget::Process(w)),
            Err(e) => Err(e),
        },
        TargetDto::FileLock { path, device, inode, owner } => match owner {
            None => Ok(CleanupTarget::FileLock { path, device, inode, owner: None }),
            Some(p) => match checked_process(p) {
                Ok(w) => Ok(CleanupTarget::FileLock { path, device, inode, owner: Some(w) }),
                Err(e) => Err(e),
            },
        },
        TargetDto::Port { transport, port } => if same(transport.as_str(), "tcp") {
            Ok(CleanupTarget::Port { transport: Transport::Tcp, port })
        } else if same(transport.as_str(), "udp") {
            Ok(CleanupTarget::Port { transport: Transport::Udp, port })
        } else {
            Err(corrupt("unknown port transport"))
        },
        TargetDto::Subscription { host, subscription } => match checked_host(host) {
            Ok(host) => Ok(CleanupTarget::Subscription { host, subscription }),
            Err(e) => Err(e),
        },
        TargetDto::Plugin { host, process } => match checked_host(host) {
            Ok(host) => match checked_process(process) {
                Ok(process) => Ok(CleanupTarget::Plugin { host, process }),
                Err(e) => Err(e),
            },
            Err(e) => Err(e),
        },
        TargetDto::Provider => Ok(CleanupTarget::Provider),
        TargetDto::Unresolved { expected, reason } => match kind(expected.as_str()) {
            Ok(k) => {
                proof {
                    assert(expected@ == kind_text(k));
                    let c = choose|c: CleanupKind| expected@ == #[trigger] kind_text(c);
                    policy_names_differ(CleanupPolicy::Managed(c), CleanupPolicy::Managed(k));
                }
                Ok(CleanupTarget::Unresolved { kind: k, reason })
            },
            Err(e) => Err(e),
        },
    }
}

/// The state that is stored, or why it is refused.
pub open spec fn state_in(d: StateDto) -> Result<Progress, Refusal> {
    match d {
        StateDto::Pending => Ok(Progress::Pending),
        StateDto::Running { worker } => match session_fault(worker) {
            Some(e) => Err(e),
            None => Ok(Progress::Running(stored_session(worker))),
        },
        StateDto::Retryable { reason } => Ok(Progress::Retryable(reason@)),
        StateDto::Unknown { reason } => Ok(Progress::Unknown(reason@)),
        StateDto::Blocked { reason } => Ok(Progress::Blocked(reason@)),
        StateDto::Confirmed => Ok(Progress::Done(Completion::Confirmed)),
        StateDto::AlreadyAbsent => Ok(Progress::Done(Completion::AlreadyAbsent)),
    }
}

/// The obligation that is stored, or why it is refused.
pub open spec fn task_in(d: TaskDto) -> Result<Task, Refusal> {
    if d.id < 0 {
        Err(Refusal::Denied("ledger: identity out of range"@))
    } else if d.key@.len() == 0 {
        Err(Refusal::Denied("ledger: empty cleanup key"@))
    } else if d.holding < 0 {
        Err(Refusal::Denied("ledger: identity out of range"@))
    } else if d.requested_at < 0 || d.updated_at < 0 {
        Err(Refusal::Denied("ledger: time out of range"@))
    } else {
        match state_in(d.state) {
            Err(e) => Err(e),
            Ok(state) => Ok(
                Task {
                    id: d.id as u64,
                    key: d.key@,
                    holding: d.holding as u64,
                    generation: d.generation@,
                    state,
                    attempts: d.attempts,
                    requested_at: d.requested_at as u64,
                    updated_at: d.updated_at as u64,
                },
            ),
        }
    }
}

/// Whether an obligation fits into its stored form.
pub open spec fn fits_task(t: Task) -> bool {
    &&& t.id <= i64::MAX
    &&& t.key.len() > 0
    &&& t.holding <= i64::MAX
    &&& t.requested_at <= i64::MAX
    &&& t.updated_at <= i64::MAX
    &&& t.state matches Progress::Running(w) ==> names_session(w)
}

/// The stored form of an obligation. What is read back of it is the obligation.
pub fn task_json(t: &CleanupRecord) -> (d: TaskDto)
    requires
        t.id <= i64::MAX,
        t.holding <= i64::MAX,
        t.requested_at <= i64::MAX,
        t.updated_at <= i64::MAX,
    ensures
        fits_task(t@) ==> task_in(d) == Ok::<Task, Refusal>(t@),
{
    let state: StateDto = match &t.state {
        CleanupState::Pending => StateDto::Pending,
        CleanupState::Running { worker } => StateDto::Running { worker: host_dto(worker) },
        CleanupState::Retryable(s) => StateDto::Retryable { reason: s.clone() },
        CleanupState::Unknown(s) => StateDto::Unknown { reason: s.clone() },
        CleanupState::Blocked(s) => StateDto::Blocked { reason: s.clone() },
        CleanupState::Done(Completion::Confirmed) => StateDto::Confirmed,
        CleanupState::Done(Completion::AlreadyAbsent) => StateDto::AlreadyAbsent,
    };
    TaskDto {
        id: t.id as i64,
        key: t.key.clone(),
        holding: t.holding as i64,
        generation: t.generation.clone(),
        state,
        attempts: t.attempts,
        requested_at: t.requested_at as i64,
        updated_at: t.updated_at as i64,
    }
}

fn denied(s: &str) -> (e: KernelError)
    ensures
        e@ == Refusal::Denied(s@),
{
    KernelError::Denied(s.to_owned())
}

/// The obligation that is stored.
pub fn task(d: TaskDto) -> (r: Result<CleanupRecord, KernelError>)
    ensures
        match r {
            Ok(t) => task_in(d) == Ok::<Task, Refusal>(t@),
            Err(e) => task_in(d) == Err::<Task, Refusal>(e@),
        },
{
    if d.id < 0 {
        return Err(denied("ledger: identity out of range"));
    }
    if d.key.as_str().unicode_len() == 0 {
        return Err(denied("ledger: empty cleanup key"));
    }
    if d.holding < 0 {
        return Err(denied("ledger: identity out of range"));
    }
    if d.requested_at < 0 || d.updated_at < 0 {
        return Err(denied("ledger: time out of range"));
    }
    let state: CleanupState = match d.state {
        StateDto::Pending => CleanupState::Pending,
        StateDto::Running { worker } => match checked_host(worker) {
            Ok(worker) => CleanupState::Running { worker },
            Err(e) => {
                return Err(e);
            },
        },
        StateDto::Retryable { reason } => CleanupState::Retryable(reason),
        StateDto::Unknown { reason } => CleanupState::Unknown(reason),
        StateDto::Blocked { reason } => CleanupState::Blocked(reason),
        StateDto::Confirmed => CleanupState::Done(Completion::Confirmed),
        StateDto::AlreadyAbsent => CleanupState::Done(Completion::AlreadyAbsent),
    };
    Ok(
        CleanupRecord {
            id: d.id as u64,
            key: d.key,
            holding: d.holding as u64,
            generation: d.generation,
            state,
            attempts: d.attempts,
            requested_at: d.requested_at as u64,
            updated_at: d.updated_at as u64,
        },
    )
}

} // verus!

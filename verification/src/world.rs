//! The actions by which a target is cleaned up. The caller acts and observes; the decisions are
//! made here. Delivering a signal does not discharge a holding, and an observation that failed is
//! never absence.

use crate::error::joined_text;
use crate::records::{CleanupTarget, Incarnation, ProcessWitness, Target, Transport};
use crate::substrate::{process_stat, stat_of};
use crate::text::same;
use vstd::prelude::*;

verus! {

/// How an attempt to clean up came out.
#[derive(Debug, PartialEq, Eq)]
pub enum CleanupOutcome {
    Confirmed,
    AlreadyAbsent,
    Retryable(String),
    Unknown(String),
    Blocked(String),
}

/// How an attempt came out.
#[verifier::ext_equal]
pub enum Verdict {
    Confirmed,
    AlreadyAbsent,
    Retryable(Seq<char>),
    Unknown(Seq<char>),
    Blocked(Seq<char>),
}

impl View for CleanupOutcome {
    type V = Verdict;

    open spec fn view(&self) -> Verdict {
        match self {
            CleanupOutcome::Confirmed => Verdict::Confirmed,
            CleanupOutcome::AlreadyAbsent => Verdict::AlreadyAbsent,
            CleanupOutcome::Retryable(s) => Verdict::Retryable(s@),
            CleanupOutcome::Unknown(s) => Verdict::Unknown(s@),
            CleanupOutcome::Blocked(s) => Verdict::Blocked(s@),
        }
    }
}

impl Clone for CleanupOutcome {
    fn clone(&self) -> (r: Self)
        ensures
            r@ == self@,
    {
        match self {
            CleanupOutcome::Confirmed => CleanupOutcome::Confirmed,
            CleanupOutcome::AlreadyAbsent => CleanupOutcome::AlreadyAbsent,
            CleanupOutcome::Retryable(s) => CleanupOutcome::Retryable(s.clone()),
            CleanupOutcome::Unknown(s) => CleanupOutcome::Unknown(s.clone()),
            CleanupOutcome::Blocked(s) => CleanupOutcome::Blocked(s.clone()),
        }
    }
}

/// Whether an outcome discharges the holding.
pub open spec fn discharges(v: Verdict) -> bool {
    v is Confirmed || v is AlreadyAbsent
}

impl CleanupOutcome {
    /// Whether the outcome discharges the holding.
    pub fn is_complete(&self) -> (b: bool)
        ensures
            b == discharges(self@),
    {
        match self {
            CleanupOutcome::Confirmed | CleanupOutcome::AlreadyAbsent => true,
            _ => false,
        }
    }
}

/// What reading a file gave: its text, that there is none, or a failure.
#[derive(Debug, PartialEq, Eq)]
pub enum ReadSeen {
    Text(String),
    Missing,
    Failed(String),
}

/// What opening a handle on a process gave.
#[derive(Debug, PartialEq, Eq)]
pub enum OpenSeen {
    Opened,
    NoSuchProcess,
    Failed(String),
}

/// Whether a process is there, gone, or could not be observed.
#[derive(Debug, PartialEq, Eq)]
pub enum Pin {
    Present,
    Absent,
    Unseen(String),
}

/// Whether a process is there.
#[verifier::ext_equal]
pub enum Presence {
    Present,
    Absent,
    Unseen(Seq<char>),
}

impl View for Pin {
    type V = Presence;

    open spec fn view(&self) -> Presence {
        match self {
            Pin::Present => Presence::Present,
            Pin::Absent => Presence::Absent,
            Pin::Unseen(s) => Presence::Unseen(s@),
        }
    }
}

/// Whether an incarnation is there. Another boot, a missing process, another start or an exit
/// tell that it is gone. A corpse tells nothing: a leader may have died before its threads.
pub open spec fn presence(
    w: Incarnation,
    boot: Result<String, String>,
    opened: OpenSeen,
    stat: ReadSeen,
    exited: Result<bool, String>,
) -> Presence {
    match boot {
        Err(e) => Presence::Unseen(e@),
        Ok(b) => if b@ != w.boot {
            Presence::Absent
        } else {
            match opened {
                OpenSeen::NoSuchProcess => Presence::Absent,
                OpenSeen::Failed(e) => Presence::Unseen(e@),
                OpenSeen::Opened => match started(stat) {
                    Err(e) => Presence::Unseen(e),
                    Ok(None) => Presence::Absent,
                    Ok(Some(start)) => if start != w.start_ticks {
                        Presence::Absent
                    } else {
                        match exited {
                            Err(e) => Presence::Unseen(e@),
                            Ok(true) => Presence::Absent,
                            Ok(false) => Presence::Present,
                        }
                    },
                },
            }
        },
    }
}

/// When a process started by its line of statistics; nothing where there is no such line.
pub open spec fn started(stat: ReadSeen) -> Result<Option<u64>, Seq<char>> {
    match stat {
        ReadSeen::Missing => Ok(None),
        ReadSeen::Failed(e) => Err(e@),
        ReadSeen::Text(line) => match stat_of(line@) {
            Ok(p) => Ok(Some(p.0)),
            Err(e) => Err(e),
        },
    }
}

fn start_seen(stat: &ReadSeen) -> (r: Result<Option<u64>, String>)
    ensures
        match r {
            Ok(n) => started(*stat) == Ok::<Option<u64>, Seq<char>>(n),
            Err(e) => started(*stat) == Err::<Option<u64>, Seq<char>>(e@),
        },
{
    match stat {
        ReadSeen::Missing => Ok(None),
        ReadSeen::Failed(e) => Err(e.clone()),
        ReadSeen::Text(line) => match process_stat(line.as_str()) {
            Ok(p) => Ok(Some(p.0)),
            Err(e) => Err(e),
        },
    }
}

/// Whether an incarnation is there, by what was observed of it.
pub fn pin_process(
    w: &ProcessWitness,
    boot: &Result<String, String>,
    opened: &OpenSeen,
    stat: &ReadSeen,
    exited: &Result<bool, String>,
) -> (r: Pin)
    ensures
        r@ == presence(w@, *boot, *opened, *stat, *exited),
{
    match boot {
        Err(e) => {
            return Pin::Unseen(e.clone());
        },
        Ok(b) => if !same(b.as_str(), w.boot.as_str()) {
            return Pin::Absent;
        },
    }
    match opened {
        OpenSeen::NoSuchProcess => {
            return Pin::Absent;
        },
        OpenSeen::Failed(e) => {
            return Pin::Unseen(e.clone());
        },
        OpenSeen::Opened => {},
    }
    match start_seen(stat) {
        Err(e) => Pin::Unseen(e),
        Ok(None) => Pin::Absent,
        Ok(Some(start)) => if start != w.start_ticks {
            Pin::Absent
        } else {
            match exited {
                Err(e) => Pin::Unseen(e.clone()),
                Ok(gone) => if *gone {
                    Pin::Absent
                } else {
                    Pin::Present
                },
            }
        },
    }
}

/// What is done with a process once it was looked for: nothing stands for a signal.
pub open spec fn kill_verdict(p: Presence) -> Option<Verdict> {
    match p {
        Presence::Present => None,
        Presence::Absent => Some(Verdict::AlreadyAbsent),
        Presence::Unseen(e) => Some(Verdict::Unknown("process observation: "@ + e)),
    }
}

/// What is done with a process once it was looked for.
pub fn before_signal(p: &Pin) -> (r: Option<CleanupOutcome>)
    ensures
        match r {
            Some(o) => kill_verdict(p@) == Some(o@),
            None => kill_verdict(p@) is None,
        },
{
    match p {
        Pin::Present => None,
        Pin::Absent => Some(CleanupOutcome::AlreadyAbsent),
        Pin::Unseen(e) => Some(
            CleanupOutcome::Unknown(joined_text("process observation: ", e.as_str())),
        ),
    }
}

/// What sending a signal gave.
#[derive(Debug, PartialEq, Eq)]
pub enum SignalSeen {
    /// It was sent, and the exit was waited for.
    Sent { exited: Result<bool, String> },
    /// It was not sent; whether that is because the process is gone.
    Failed { gone: bool, reason: String },
}

/// How a process came out after a signal.
pub open spec fn signal_verdict(s: SignalSeen) -> Verdict {
    match s {
        SignalSeen::Failed { gone, reason } => if gone {
            Verdict::AlreadyAbsent
        } else {
            Verdict::Retryable("pidfd_send_signal: "@ + reason@)
        },
        SignalSeen::Sent { exited } => match exited {
            Ok(true) => Verdict::Confirmed,
            Ok(false) => Verdict::Retryable("termination requested; exit not yet confirmed"@),
            Err(e) => Verdict::Unknown("exit observation: "@ + e@),
        },
    }
}

/// How a process came out after a signal.
pub fn after_signal(s: &SignalSeen) -> (o: CleanupOutcome)
    ensures
        o@ == signal_verdict(*s),
{
    match s {
        SignalSeen::Failed { gone, reason } => if *gone {
            CleanupOutcome::AlreadyAbsent
        } else {
            CleanupOutcome::Retryable(joined_text("pidfd_send_signal: ", reason.as_str()))
        },
        SignalSeen::Sent { exited } => match exited {
            Ok(done) => if *done {
                CleanupOutcome::Confirmed
            } else {
                CleanupOutcome::Retryable(
                    "termination requested; exit not yet confirmed".to_owned(),
                )
            },
            Err(e) => CleanupOutcome::Unknown(joined_text("exit observation: ", e.as_str())),
        },
    }
}

/// What stands at the path of a lock.
#[derive(Debug, PartialEq, Eq)]
pub enum LockSeen {
    Found { device: u64, inode: u64, is_file: bool },
    Missing,
    Failed(String),
}

/// What is done with a lock once its path was looked at: nothing stands for removing it.
pub open spec fn lock_verdict(device: u64, inode: u64, seen: LockSeen) -> Option<Verdict> {
    match seen {
        LockSeen::Missing => Some(Verdict::AlreadyAbsent),
        LockSeen::Failed(e) => Some(Verdict::Unknown(e@)),
        LockSeen::Found { device: d, inode: i, is_file } => if d != device || i != inode
            || !is_file {
            Some(
                Verdict::Blocked(
                    "lock path now denotes a different file; replacement was left untouched"@,
                ),
            )
        } else {
            None
        },
    }
}

/// What is done with a lock once its path was looked at.
pub fn before_removal(device: u64, inode: u64, seen: &LockSeen) -> (r: Option<CleanupOutcome>)
    ensures
        match r {
            Some(o) => lock_verdict(device, inode, *seen) == Some(o@),
            None => lock_verdict(device, inode, *seen) is None,
        },
{
    match seen {
        LockSeen::Missing => Some(CleanupOutcome::AlreadyAbsent),
        LockSeen::Failed(e) => Some(CleanupOutcome::Unknown(e.clone())),
        LockSeen::Found { device: d, inode: i, is_file } => if *d != device || *i != inode
            || !*is_file {
            Some(
                CleanupOutcome::Blocked(
                    "lock path now denotes a different file; replacement was left untouched"
                        .to_owned(),
                ),
            )
        } else {
            None
        },
    }
}

/// What removing a file gave.
#[derive(Debug, PartialEq, Eq)]
pub enum RemovalSeen {
    Removed,
    Missing,
    Failed(String),
}

/// How a lock came out after its removal.
pub open spec fn removal_verdict(s: RemovalSeen) -> Verdict {
    match s {
        RemovalSeen::Removed => Verdict::Confirmed,
        RemovalSeen::Missing => Verdict::AlreadyAbsent,
        RemovalSeen::Failed(e) => Verdict::Retryable(e@),
    }
}

/// How a lock came out after its removal.
pub fn after_removal(s: &RemovalSeen) -> (o: CleanupOutcome)
    ensures
        o@ == removal_verdict(*s),
{
    match s {
        RemovalSeen::Removed => CleanupOutcome::Confirmed,
        RemovalSeen::Missing => CleanupOutcome::AlreadyAbsent,
        RemovalSeen::Failed(e) => CleanupOutcome::Retryable(e.clone()),
    }
}

/// How a port came out after an attempt to bind it.
pub open spec fn port_verdict(bound: Result<(), String>) -> Verdict {
    match bound {
        Ok(_) => Verdict::AlreadyAbsent,
        Err(e) => Verdict::Retryable("port absence not confirmed: "@ + e@),
    }
}

/// How a port came out after an attempt to bind it.
pub fn after_bind(bound: &Result<(), String>) -> (o: CleanupOutcome)
    ensures
        o@ == port_verdict(*bound),
{
    match bound {
        Ok(_) => CleanupOutcome::AlreadyAbsent,
        Err(e) => CleanupOutcome::Retryable(joined_text("port absence not confirmed: ", e.as_str())),
    }
}

/// How the subscription of another host came out once that host was looked for.
pub open spec fn host_verdict(p: Presence) -> Verdict {
    match p {
        Presence::Absent => Verdict::AlreadyAbsent,
        Presence::Present => Verdict::Blocked("subscription requires its owning host"@),
        Presence::Unseen(e) => Verdict::Unknown(e),
    }
}

/// How the subscription of another host came out once that host was looked for.
pub fn after_host_search(p: &Pin) -> (o: CleanupOutcome)
    ensures
        o@ == host_verdict(p@),
{
    match p {
        Pin::Absent => CleanupOutcome::AlreadyAbsent,
        Pin::Present => CleanupOutcome::Blocked("subscription requires its owning host".to_owned()),
        Pin::Unseen(e) => CleanupOutcome::Unknown(e.clone()),
    }
}

/// What is to be done to clean up a target.
pub enum TargetStep<'a> {
    Finish(CleanupOutcome),
    Kill(&'a ProcessWitness),
    RemoveLock { path: &'a String, device: u64, inode: u64 },
    Bind { transport: Transport, port: u16 },
    FindHost(&'a ProcessWitness),
}

/// What is to be done to clean up a target.
pub enum Act {
    Finish(Verdict),
    Kill(Incarnation),
    RemoveLock { path: Seq<char>, device: u64, inode: u64 },
    Bind { transport: Transport, port: u16 },
    FindHost(Incarnation),
}

impl<'a> View for TargetStep<'a> {
    type V = Act;

    open spec fn view(&self) -> Act {
        match self {
            TargetStep::Finish(o) => Act::Finish(o@),
            TargetStep::Kill(w) => Act::Kill(w@),
            TargetStep::RemoveLock { path, device, inode } => Act::RemoveLock {
                path: path@,
                device: *device,
                inode: *inode,
            },
            TargetStep::Bind { transport, port } => Act::Bind {
                transport: *transport,
                port: *port,
            },
            TargetStep::FindHost(w) => Act::FindHost(w@),
        }
    }
}

/// What is to be done to clean up a target from outside the host that owns it. A host that lived
/// in this process and is gone took its subscriptions with it.
pub open spec fn target_act(target: Target, local_host_gone: bool) -> Act {
    match target {
        Target::AccountingOnly => Act::Finish(Verdict::Confirmed),
        Target::Process(w) => Act::Kill(w),
        Target::FileLock { path, device, inode, owner } => Act::RemoveLock { path, device, inode },
        Target::Port { transport, port } => Act::Bind { transport, port },
        Target::Subscription { host, subscription } => if local_host_gone {
            Act::Finish(Verdict::AlreadyAbsent)
        } else {
            Act::FindHost(host.process)
        },
        Target::Plugin { host, process } => Act::Kill(process),
        Target::Provider => Act::Finish(Verdict::Blocked("cleanup provider is unavailable"@)),
        Target::Unresolved { kind, reason } => Act::Finish(Verdict::Blocked(reason)),
    }
}

/// What is to be done to clean up a target from outside the host that owns it.
pub fn execute_target(target: &CleanupTarget, local_host_gone: bool) -> (r: TargetStep<'_>)
    ensures
        r@ == target_act(target@, local_host_gone),
{
    match target {
        CleanupTarget::AccountingOnly => TargetStep::Finish(CleanupOutcome::Confirmed),
        CleanupTarget::Process(w) => TargetStep::Kill(w),
        CleanupTarget::FileLock { path, device, inode, .. } => TargetStep::RemoveLock {
            path,
            device: *device,
            inode: *inode,
        },
        CleanupTarget::Port { transport, port } => TargetStep::Bind {
            transport: *transport,
            port: *port,
        },
        CleanupTarget::Subscription { host, .. } => if local_host_gone {
            TargetStep::Finish(CleanupOutcome::AlreadyAbsent)
        } else {
            TargetStep::FindHost(&host.process)
        },
        CleanupTarget::Plugin { process, .. } => TargetStep::Kill(process),
        CleanupTarget::Provider => TargetStep::Finish(
            CleanupOutcome::Blocked("cleanup provider is unavailable".to_owned()),
        ),
        CleanupTarget::Unresolved { reason, .. } => TargetStep::Finish(
            CleanupOutcome::Blocked(reason.clone()),
        ),
    }
}

/// Whether a process that an older record names is gone: its line of statistics is missing or
/// tells another start, or it is not there.
pub open spec fn legacy_absence(start: u64, stat: ReadSeen, present: Presence) -> Result<
    bool,
    Seq<char>,
> {
    match started(stat) {
        Err(e) => Err(e),
        Ok(None) => Ok(true),
        Ok(Some(s)) => if s != start {
            Ok(true)
        } else {
            match present {
                Presence::Present => Ok(false),
                Presence::Absent => Ok(true),
                Presence::Unseen(e) => Err(e),
            }
        },
    }
}

/// Whether a process that an older record names is gone.
pub fn legacy_process_absent(start: u64, stat: &ReadSeen, present: &Pin) -> (r: Result<
    bool,
    String,
>)
    ensures
        match r {
            Ok(b) => legacy_absence(start, *stat, present@) == Ok::<bool, Seq<char>>(b),
            Err(e) => legacy_absence(start, *stat, present@) == Err::<bool, Seq<char>>(e@),
        },
{
    match start_seen(stat) {
        Err(e) => Err(e),
        Ok(None) => Ok(true),
        Ok(Some(s)) => if s != start {
            Ok(true)
        } else {
            match present {
                Pin::Present => Ok(false),
                Pin::Absent => Ok(true),
                Pin::Unseen(e) => Err(e.clone()),
            }
        },
    }
}

/// An observation that failed never discharges a holding: not of the boot, of the handle, of the
/// statistics or of the exit of a process, not of the path of a lock or its removal, and not of a
/// port.
pub proof fn failure_is_not_absence(
    w: Incarnation,
    boot: Result<String, String>,
    opened: OpenSeen,
    stat: ReadSeen,
    exited: Result<bool, String>,
    device: u64,
    inode: u64,
    e: String,
)
    ensures
        boot is Err ==> presence(w, boot, opened, stat, exited) is Unseen,
        presence(w, boot, OpenSeen::Failed(e), stat, exited) is Absent ==> boot is Ok
            && boot->Ok_0@ != w.boot,
        presence(w, boot, OpenSeen::Opened, ReadSeen::Failed(e), exited) is Absent ==> boot is Ok
            && boot->Ok_0@ != w.boot,
        presence(w, boot, opened, stat, Err(e)) is Absent ==> boot is Ok && (boot->Ok_0@ != w.boot
            || opened is NoSuchProcess || (started(stat) is Ok && started(stat)->Ok_0 != Some(
            w.start_ticks,
        ))),
        forall|p: Presence|
            p is Unseen ==> (#[trigger] kill_verdict(p) matches Some(v) && !discharges(v))
                && !discharges(#[trigger] host_verdict(p)),
        !discharges(signal_verdict(SignalSeen::Sent { exited: Err(e) })),
        !discharges(signal_verdict(SignalSeen::Sent { exited: Ok(false) })),
        !discharges(signal_verdict(SignalSeen::Failed { gone: false, reason: e })),
        lock_verdict(device, inode, LockSeen::Failed(e)) matches Some(v) && !discharges(v),
        !discharges(removal_verdict(RemovalSeen::Failed(e))),
        !discharges(port_verdict(Err(e))),
{
}

} // verus!

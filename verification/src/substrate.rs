//! What stands behind a holding in the world: how it is captured when the holding is registered,
//! and how it is cleaned up. Observations are handed in. One that failed is never absence.

use crate::error::{KernelError, Refusal};
use crate::json::{member, nat_of, Json, Value};
use crate::records::{
    CleanupTarget, HostWitness, Incarnation, ProcessWitness, Session, Target, Transport,
};
use crate::text::{
    decimal, find_first, find_last, occurs_at, parse_number, parsed_number, push_decimal, same,
    split_words, texts, words,
};
use vstd::prelude::*;

verus! {

/// The class of the counts of capabilities.
pub const CLASS_CAP_COUNT: &'static str = "kernel/cap-count";

/// The class of plugins.
pub const CLASS_PLUGIN: &'static str = "kernel/plugin";

/// The class of subscriptions.
pub const CLASS_SUBSCRIPTION: &'static str = "kernel/subscription";

/// The class of processes.
pub const CLASS_PROCESS: &'static str = "kernel/process";

/// The class of ports.
pub const CLASS_PORT: &'static str = "kernel/port";

/// The class of lock files.
pub const CLASS_FILE_LOCK: &'static str = "kernel/file-lock";

/// The class of capabilities.
pub const CLASS_CAP: &'static str = "kernel/cap";

fn denied(s: &str) -> (e: KernelError)
    ensures
        e@ == Refusal::Denied(s@),
{
    KernelError::Denied(s.to_owned())
}

/// Whether a plugin may hold a class.
pub open spec fn may_hold(class: Seq<char>) -> bool {
    class == CLASS_PROCESS@ || class == CLASS_PORT@ || class == CLASS_FILE_LOCK@
}

/// Whether a plugin may hold a class.
pub fn holdable(class: &str) -> (b: bool)
    ensures
        b == may_hold(class@),
{
    same(class, CLASS_PROCESS) || same(class, CLASS_PORT) || same(class, CLASS_FILE_LOCK)
}

/// Whether a witness can name a process: the numbers of processes are positive and signed, and
/// neither the start nor the boot is missing.
pub open spec fn names_process(w: Incarnation) -> bool {
    0 < w.pid <= i32::MAX && w.start_ticks > 0 && w.boot.len() > 0
}

/// Whether a witness can name a session.
pub open spec fn names_session(w: Session) -> bool {
    names_process(w.process) && w.session.len() > 0
}

impl ProcessWitness {
    /// The witness of a process. One that cannot name a process is refused.
    pub fn checked(pid: u32, start_ticks: u64, boot: String) -> (r: Result<Self, KernelError>)
        ensures
            match r {
                Ok(w) => w@ == (Incarnation { pid, start_ticks, boot: boot@ }) && names_process(w@),
                Err(e) => {
                    &&& !names_process(Incarnation { pid, start_ticks, boot: boot@ })
                    &&& e@ == Refusal::Denied("ledger: invalid process witness"@)
                },
            },
    {
        if pid == 0 || pid > 0x7fff_ffff || start_ticks == 0 || boot.as_str().unicode_len() == 0 {
            return Err(denied("ledger: invalid process witness"));
        }
        Ok(ProcessWitness { pid, start_ticks, boot })
    }

    /// The generation of a holding of this process.
    pub fn generation(&self) -> (s: String)
        ensures
            s@ == generation_of(self.pid, self.start_ticks),
    {
        process_generation(self.pid, self.start_ticks)
    }
}

impl HostWitness {
    /// The witness of a session. One without a name is refused.
    pub fn checked(process: ProcessWitness, session: String) -> (r: Result<Self, KernelError>)
        ensures
            match r {
                Ok(w) => w@ == (Session { process: process@, session: session@ })
                    && session@.len() > 0,
                Err(e) => session@.len() == 0 && e@ == Refusal::Denied(
                    "ledger: invalid host witness"@,
                ),
            },
    {
        if session.as_str().unicode_len() == 0 {
            return Err(denied("ledger: invalid host witness"));
        }
        Ok(HostWitness { process, session })
    }
}

/// The generation of a holding of a process.
pub open spec fn generation_of(pid: u32, start: u64) -> Seq<char> {
    decimal(pid as nat) + ":"@ + decimal(start as nat)
}

/// The generation of a holding of a process.
pub fn process_generation(pid: u32, start: u64) -> (s: String)
    ensures
        s@ == generation_of(pid, start),
{
    let mut s: String = String::new();
    push_decimal(&mut s, pid as u64);
    s.append(":");
    push_decimal(&mut s, start);
    assert(s@ =~= generation_of(pid, start));
    s
}

/// What stands behind the last closing parenthesis of a text.
pub open spec fn behind_last_paren(s: Seq<char>) -> Option<Seq<char>>
    decreases s.len(),
{
    if s.len() == 0 {
        None
    } else if s.last() == ')' {
        Some(Seq::empty())
    } else {
        match behind_last_paren(s.drop_last()) {
            Some(t) => Some(t.push(s.last())),
            None => None,
        }
    }
}

proof fn last_paren_at(s: Seq<char>, i: int)
    requires
        0 <= i < s.len(),
        s[i] == ')',
        forall|j: int| i < j < s.len() ==> s[j] != ')',
    ensures
        behind_last_paren(s) == Some(s.skip(i + 1)),
    decreases s.len(),
{
    if i == s.len() - 1 {
        assert(s.skip(i + 1) =~= Seq::<char>::empty());
    } else {
        last_paren_at(s.drop_last(), i);
        assert(s.drop_last().skip(i + 1).push(s.last()) =~= s.skip(i + 1));
    }
}

proof fn no_paren(s: Seq<char>)
    requires
        forall|j: int| 0 <= j < s.len() ==> s[j] != ')',
    ensures
        behind_last_paren(s) is None,
    decreases s.len(),
{
    if s.len() > 0 {
        no_paren(s.drop_last());
    }
}

/// When a process started and whether it is a corpse, by its line of statistics. The command name
/// may hold spaces and parentheses: the fields resume behind the last one.
pub open spec fn stat_of(line: Seq<char>) -> Result<(u64, bool), Seq<char>> {
    match behind_last_paren(line) {
        None => Err("malformed process stat"@),
        Some(rest) => {
            let fields = words(rest);
            if fields.len() > 19 && parsed_number(fields[19], u64::MAX as nat) is Some {
                Ok(
                    (
                        parsed_number(fields[19], u64::MAX as nat)->0 as u64,
                        fields[0] == "Z"@ || fields[0] == "X"@,
                    ),
                )
            } else {
                Err("missing process start time"@)
            }
        },
    }
}

/// When a process started and whether it is a corpse, by its line of statistics.
pub fn process_stat(line: &str) -> (r: Result<(u64, bool), String>)
    ensures
        match r {
            Ok(p) => stat_of(line@) == Ok::<(u64, bool), Seq<char>>(p),
            Err(e) => stat_of(line@) == Err::<(u64, bool), Seq<char>>(e@),
        },
{
    proof {
        reveal_strlit(")");
        assert(")"@.len() == 1);
        assert(")"@[0] == ')');
        assert forall|j: int| 0 <= j < line@.len() implies (line@[j] == ')') == occurs_at(
            line@,
            ")"@,
            j,
        ) by {
            assert(line@.subrange(j, j + 1)[0] == line@[j]);
            if line@[j] == ')' {
                assert(line@.subrange(j, j + 1) =~= ")"@);
            }
        }
    }
    let at: usize = match find_last(line, ")") {
        None => {
            proof {
                no_paren(line@);
            }
            return Err("malformed process stat".to_owned());
        },
        Some(i) => i,
    };
    proof {
        last_paren_at(line@, at as int);
    }
    let len: usize = line.unicode_len();
    let rest: &str = line.substring_char(at + 1, len);
    assert(rest@ =~= line@.skip(at + 1));
    let fields: Vec<String> = split_words(rest);
    assert(texts(fields@).len() == fields@.len());
    if fields.len() > 19 {
        assert(texts(fields@)[19] == fields@[19]@);
        assert(texts(fields@)[0] == fields@[0]@);
        match parse_number(fields[19].as_str(), u64::MAX) {
            Some(n) => {
                let corpse: bool = same(fields[0].as_str(), "Z") || same(fields[0].as_str(), "X");
                Ok((n, corpse))
            },
            None => Err("missing process start time".to_owned()),
        }
    } else {
        Err("missing process start time".to_owned())
    }
}

/// What a port instance names: a transport and a port.
pub open spec fn port_of(instance: Seq<char>) -> Result<(Transport, u16), Refusal> {
    let at = first_colon(instance);
    if at >= instance.len() {
        Err(Refusal::Denied("port instance must be tcp:<port> or udp:<port>"@))
    } else {
        let name = instance.take(at as int);
        let rest = instance.skip(at as int + 1);
        if name != "tcp"@ && name != "udp"@ {
            Err(Refusal::Denied("unsupported port transport"@))
        } else {
            match parsed_number(rest, u16::MAX as nat) {
                None => Err(Refusal::Denied("invalid port number"@)),
                Some(n) => Ok(
                    (
                        if name == "tcp"@ {
                            Transport::Tcp
                        } else {
                            Transport::Udp
                        },
                        n as u16,
                    ),
                ),
            }
        }
    }
}

/// Where the first colon of a text stands, or its length.
pub open spec fn first_colon(s: Seq<char>) -> nat
    decreases s.len(),
{
    if s.len() == 0 || s[0] == ':' {
        0
    } else {
        1 + first_colon(s.skip(1))
    }
}

proof fn first_colon_at(s: Seq<char>, i: int)
    requires
        0 <= i <= s.len(),
        i < s.len() ==> s[i] == ':',
        forall|j: int| 0 <= j < i ==> s[j] != ':',
    ensures
        first_colon(s) == i,
    decreases s.len(),
{
    if i > 0 {
        assert(s.skip(1).len() == s.len() - 1);
        assert forall|j: int| 0 <= j < i - 1 implies s.skip(1)[j] != ':' by {
            assert(s.skip(1)[j] == s[j + 1]);
        }
        if i < s.len() {
            assert(s.skip(1)[i - 1] == s[i]);
        }
        first_colon_at(s.skip(1), i - 1);
    }
}

/// What a port instance names.
pub fn port_target(instance: &str) -> (r: Result<(Transport, u16), KernelError>)
    ensures
        match r {
            Ok(p) => port_of(instance@) == Ok::<(Transport, u16), Refusal>(p),
            Err(e) => port_of(instance@) == Err::<(Transport, u16), Refusal>(e@),
        },
{
    proof {
        reveal_strlit(":");
        assert(":"@.len() == 1);
        assert(":"@[0] == ':');
        assert forall|j: int| 0 <= j < instance@.len() implies (instance@[j] == ':') == occurs_at(
            instance@,
            ":"@,
            j,
        ) by {
            assert(instance@.subrange(j, j + 1)[0] == instance@[j]);
            if instance@[j] == ':' {
                assert(instance@.subrange(j, j + 1) =~= ":"@);
            }
        }
        reveal_strlit("tcp");
        reveal_strlit("udp");
        assert("tcp"@[0] == 't');
        assert("udp"@[0] == 'u');
    }
    let at: usize = match find_first(instance, ":") {
        None => {
            proof {
                first_colon_at(instance@, instance@.len() as int);
            }
            return Err(denied("port instance must be tcp:<port> or udp:<port>"));
        },
        Some(i) => i,
    };
    proof {
        first_colon_at(instance@, at as int);
    }
    let name: &str = instance.substring_char(0, at);
    let len: usize = instance.unicode_len();
    let rest: &str = instance.substring_char(at + 1, len);
    assert(name@ =~= instance@.take(at as int));
    assert(rest@ =~= instance@.skip(at + 1));
    let transport: Transport = if same(name, "tcp") {
        Transport::Tcp
    } else if same(name, "udp") {
        Transport::Udp
    } else {
        return Err(denied("unsupported port transport"));
    };
    match parse_number(rest, 0xffff) {
        None => Err(denied("invalid port number")),
        Some(n) => Ok((transport, n as u16)),
    }
}

/// What must be observed to capture a target.
#[derive(Debug, Clone, Copy, PartialEq, Eq, Structural)]
pub enum CaptureStep {
    /// The process of this number.
    Observe(u32),
    /// The file that the instance names.
    Inspect,
    /// Nothing: the instance names a port.
    Ready { transport: Transport, port: u16 },
}

/// The number of a process in a field, if it is one.
pub open spec fn pid_in(v: Value, field: Seq<char>) -> Option<u32> {
    match member(v, field) {
        Some(raw) => match nat_of(raw) {
            Some(n) => if n <= u32::MAX {
                Some(n as u32)
            } else {
                None
            },
            None => None,
        },
        None => None,
    }
}

/// The number of a process in a field, if it is one.
pub fn read_pid(v: &Json, field: &str) -> (r: Option<u32>)
    ensures
        r == pid_in(v@, field@),
{
    match v.get(field) {
        None => None,
        Some(raw) => match raw.as_u64() {
            Some(n) => if n <= 0xffff_ffff {
                Some(n as u32)
            } else {
                None
            },
            None => None,
        },
    }
}

/// What must be observed to capture the target of a resource, or why there is none.
pub open spec fn capture_start(class: Seq<char>, instance: Seq<char>, v: Value) -> Result<
    CaptureStep,
    Refusal,
> {
    if !(v is Object) {
        Err(Refusal::Denied("substrate must be an object"@))
    } else if class == CLASS_PROCESS@ {
        match pid_in(v, "pid"@) {
            Some(pid) => if 0 < pid <= i32::MAX {
                Ok(CaptureStep::Observe(pid))
            } else {
                Err(Refusal::Denied("invalid process pid"@))
            },
            None => Err(Refusal::Denied("invalid process pid"@)),
        }
    } else if class == CLASS_FILE_LOCK@ {
        Ok(CaptureStep::Inspect)
    } else if class == CLASS_PORT@ {
        match port_of(instance) {
            Ok(p) => Ok(CaptureStep::Ready { transport: p.0, port: p.1 }),
            Err(e) => Err(e),
        }
    } else {
        Err(Refusal::Denied("class has no substrate registration adapter"@))
    }
}

/// What must be observed to capture the target of a resource.
pub fn capture(class: &str, instance: &str, value: &Json) -> (r: Result<CaptureStep, KernelError>)
    ensures
        match r {
            Ok(s) => capture_start(class@, instance@, value@) == Ok::<CaptureStep, Refusal>(s),
            Err(e) => capture_start(class@, instance@, value@) == Err::<CaptureStep, Refusal>(e@),
        },
{
    if !value.is_object() {
        return Err(denied("substrate must be an object"));
    }
    if same(class, CLASS_PROCESS) {
        match read_pid(value, "pid") {
            Some(pid) => if pid > 0 && pid <= 0x7fff_ffff {
                Ok(CaptureStep::Observe(pid))
            } else {
                Err(denied("invalid process pid"))
            },
            None => Err(denied("invalid process pid")),
        }
    } else if same(class, CLASS_FILE_LOCK) {
        Ok(CaptureStep::Inspect)
    } else if same(class, CLASS_PORT) {
        match port_target(instance) {
            Ok(p) => Ok(CaptureStep::Ready { transport: p.0, port: p.1 }),
            Err(e) => Err(e),
        }
    } else {
        Err(denied("class has no substrate registration adapter"))
    }
}

/// Whether a field that names a start agrees with the start that was observed. A field that is
/// not there agrees with every start.
pub open spec fn start_agrees(v: Value, field: Seq<char>, start: u64) -> bool {
    match member(v, field) {
        Some(raw) => nat_of(raw) == Some(start),
        None => true,
    }
}

fn agrees(v: &Json, field: &str, start: u64) -> (b: bool)
    ensures
        b == start_agrees(v@, field@, start),
{
    match v.get(field) {
        None => true,
        Some(raw) => match raw.as_u64() {
            Some(n) => n == start,
            None => false,
        },
    }
}

/// The target of a process that was observed.
pub fn process_captured(value: &Json, witness: ProcessWitness) -> (r: Result<
    CleanupTarget,
    KernelError,
>)
    ensures
        match r {
            Ok(t) => {
                &&& start_agrees(value@, "start"@, witness.start_ticks)
                &&& t@ == Target::Process(witness@)
            },
            Err(e) => {
                &&& !start_agrees(value@, "start"@, witness.start_ticks)
                &&& e@ == Refusal::Denied("process incarnation changed during registration"@)
            },
        },
{
    if agrees(value, "start", witness.start_ticks) {
        Ok(CleanupTarget::Process(witness))
    } else {
        Err(denied("process incarnation changed during registration"))
    }
}

/// The owner that a lock names, once its file was inspected.
pub open spec fn owner_of(v: Value, is_file: bool) -> Result<Option<u32>, Refusal> {
    if !is_file {
        Err(Refusal::Denied("lock must be a regular file, not a symlink"@))
    } else if member(v, "owner_pid"@) is None {
        Ok(None)
    } else {
        match pid_in(v, "owner_pid"@) {
            Some(pid) => Ok(Some(pid)),
            None => Err(Refusal::Denied("invalid lock owner"@)),
        }
    }
}

/// The owner that a lock names, once its file was inspected.
pub fn lock_owner(value: &Json, is_file: bool) -> (r: Result<Option<u32>, KernelError>)
    ensures
        match r {
            Ok(o) => owner_of(value@, is_file) == Ok::<Option<u32>, Refusal>(o),
            Err(e) => owner_of(value@, is_file) == Err::<Option<u32>, Refusal>(e@),
        },
{
    if !is_file {
        return Err(denied("lock must be a regular file, not a symlink"));
    }
    if value.get("owner_pid").is_none() {
        return Ok(None);
    }
    match read_pid(value, "owner_pid") {
        Some(pid) => Ok(Some(pid)),
        None => Err(denied("invalid lock owner")),
    }
}

/// The target of a lock whose file, and whose owner if it has one, were observed.
pub fn lock_captured(
    value: &Json,
    path: String,
    device: u64,
    inode: u64,
    owner: Option<ProcessWitness>,
) -> (r: Result<CleanupTarget, KernelError>)
    ensures
        ({
            let kept = owner is None || start_agrees(
                value@,
                "owner_start"@,
                owner->0.start_ticks,
            );
            match r {
                Ok(t) => kept && t@ == (Target::FileLock {
                    path: path@,
                    device,
                    inode,
                    owner: match owner {
                        Some(w) => Some(w@),
                        None => None,
                    },
                }),
                Err(e) => !kept && e@ == Refusal::Denied("lock owner incarnation changed"@),
            }
        }),
{
    let kept: bool = match &owner {
        None => true,
        Some(w) => agrees(value, "owner_start", w.start_ticks),
    };
    if kept {
        Ok(CleanupTarget::FileLock { path, device, inode, owner })
    } else {
        Err(denied("lock owner incarnation changed"))
    }
}

/// Whether a generation is that of a target: the generation of a process names its incarnation.
pub open spec fn generation_fits(target: Target, generation: Seq<char>) -> bool {
    match target {
        Target::Process(w) => generation == generation_of(w.pid, w.start_ticks),
        _ => true,
    }
}

/// Whether a generation is that of a target.
pub fn fits_generation(target: &CleanupTarget, generation: &str) -> (b: bool)
    ensures
        b == generation_fits(target@, generation@),
{
    match target {
        CleanupTarget::Process(w) => same(generation, w.generation().as_str()),
        _ => true,
    }
}

/// Checks the generation under which a captured target is to be held.
pub fn hold_substrate(target: &CleanupTarget, generation: &str) -> (r: Result<(), KernelError>)
    ensures
        match r {
            Ok(_) => generation_fits(target@, generation@),
            Err(e) => !generation_fits(target@, generation@) && e@ == Refusal::Denied(
                "process generation differs from captured witness"@,
            ),
        },
{
    if fits_generation(target, generation) {
        Ok(())
    } else {
        Err(denied("process generation differs from captured witness"))
    }
}

} // verus!

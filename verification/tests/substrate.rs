use portos_kernel::cleanup_codec::{
    target, target_json, task, task_json, HostDto, ProcessDto, StateDto, TargetDto, TaskDto,
};
use portos_kernel::host_cleanup::{
    after_stop, after_unsubscribe, execute, reclaimed, same_session, validate_substrate, HostAct,
};
use portos_kernel::json::{Json, Num};
use portos_kernel::records::{
    CleanupKind, CleanupRecord, CleanupState, CleanupTarget, Completion, HostWitness,
    ProcessWitness, Transport,
};
use portos_kernel::substrate::{
    capture, hold_substrate, holdable, lock_captured, lock_owner, port_target, process_captured,
    process_stat, CaptureStep,
};
use portos_kernel::world::{
    after_bind, after_host_search, after_removal, after_signal, before_removal, before_signal,
    execute_target, legacy_process_absent, pin_process, CleanupOutcome, LockSeen, OpenSeen, Pin,
    ReadSeen, RemovalSeen, SignalSeen, TargetStep,
};

fn object(members: Vec<(&str, Json)>) -> Json {
    Json::Object(members.into_iter().map(|(k, v)| (k.to_string(), v)).collect())
}

fn num(n: u64) -> Json {
    Json::Number(Num::Nat(n))
}

fn process(pid: u32, start: u64) -> ProcessWitness {
    ProcessWitness::checked(pid, start, "boot".to_string()).unwrap()
}

fn host(session: &str) -> HostWitness {
    HostWitness::checked(process(1, 1), session.to_string()).unwrap()
}

const STAT: &str =
    "42 (a (b) c) S 1 2 3 4 5 6 7 8 9 10 11 12 13 14 15 16 17 18 777 20 21";

#[test]
fn the_start_of_a_process_stands_behind_its_name() {
    assert_eq!(process_stat(STAT), Ok((777, false)));
    assert_eq!(process_stat(&STAT.replace(" S ", " Z ")), Ok((777, true)));
    assert_eq!(process_stat(&STAT.replace(" S ", " X ")), Ok((777, true)));
    assert_eq!(process_stat("42 a S"), Err("malformed process stat".to_string()));
    assert_eq!(process_stat("42 (a) S 1"), Err("missing process start time".to_string()));
    assert_eq!(
        process_stat(&STAT.replace("777", "many")),
        Err("missing process start time".to_string())
    );
}

#[test]
fn witnesses_name_something() {
    assert!(ProcessWitness::checked(0, 1, "b".to_string()).is_err());
    assert!(ProcessWitness::checked(0x8000_0000, 1, "b".to_string()).is_err());
    assert!(ProcessWitness::checked(1, 0, "b".to_string()).is_err());
    assert!(ProcessWitness::checked(1, 1, String::new()).is_err());
    assert!(HostWitness::checked(process(1, 1), String::new()).is_err());
    assert_eq!(process(7, 9).generation(), "7:9");
}

#[test]
fn ports_name_themselves() {
    assert_eq!(port_target("tcp:80").unwrap(), (Transport::Tcp, 80));
    assert_eq!(port_target("udp:65535").unwrap(), (Transport::Udp, 65535));
    for (bad, why) in [
        ("80", "denied: port instance must be tcp:<port> or udp:<port>"),
        ("sctp:80", "denied: unsupported port transport"),
        ("tcp:65536", "denied: invalid port number"),
        ("tcp:", "denied: invalid port number"),
        ("tcp:1:2", "denied: invalid port number"),
    ] {
        assert_eq!(port_target(bad).unwrap_err().message(), why, "{bad}");
    }
}

#[test]
fn a_capture_says_what_must_be_observed() {
    let pid = object(vec![("pid", num(5))]);
    assert_eq!(capture("kernel/process", "x", &pid).unwrap(), CaptureStep::Observe(5));
    assert!(capture("kernel/process", "x", &object(vec![("pid", num(0))])).is_err());
    assert!(capture("kernel/process", "x", &object(vec![])).is_err());
    assert!(capture("kernel/process", "x", &Json::Null).is_err());
    assert_eq!(
        capture("kernel/file-lock", "x", &object(vec![])).unwrap(),
        CaptureStep::Inspect
    );
    assert_eq!(
        capture("kernel/port", "udp:9", &object(vec![])).unwrap(),
        CaptureStep::Ready { transport: Transport::Udp, port: 9 }
    );
    assert!(capture("other", "x", &object(vec![])).is_err());
    assert!(holdable("kernel/port") && !holdable("kernel/cap"));
}

#[test]
fn an_incarnation_that_changed_is_refused() {
    let same = object(vec![("start", num(9))]);
    let other = object(vec![("start", num(8))]);
    let t = process_captured(&same, process(5, 9)).unwrap();
    assert!(process_captured(&other, process(5, 9)).is_err());
    assert!(process_captured(&object(vec![("start", Json::Null)]), process(5, 9)).is_err());
    assert!(hold_substrate(&t, "5:9").is_ok());
    assert!(hold_substrate(&t, "5:8").is_err());
    assert!(hold_substrate(&CleanupTarget::Provider, "any").is_ok());
}

#[test]
fn a_lock_is_a_regular_file() {
    let none = object(vec![]);
    assert!(lock_owner(&none, false).is_err());
    assert_eq!(lock_owner(&none, true).unwrap(), None);
    assert_eq!(lock_owner(&object(vec![("owner_pid", num(4))]), true).unwrap(), Some(4));
    assert!(lock_owner(&object(vec![("owner_pid", Json::Null)]), true).is_err());
    let started = object(vec![("owner_start", num(3))]);
    assert!(lock_captured(&started, "/l".to_string(), 1, 2, Some(process(4, 3))).is_ok());
    assert!(lock_captured(&started, "/l".to_string(), 1, 2, Some(process(4, 5))).is_err());
    assert!(lock_captured(&started, "/l".to_string(), 1, 2, None).is_ok());
}

#[test]
fn only_evidence_tells_that_a_process_is_gone() {
    let w = process(42, 777);
    let here = Ok("boot".to_string());
    let there = Ok("other".to_string());
    let stat = ReadSeen::Text(STAT.to_string());
    let see = |b: &Result<String, String>, o: &OpenSeen, s: &ReadSeen, x: Result<bool, String>| {
        pin_process(&w, b, o, s, &x)
    };
    assert_eq!(see(&here, &OpenSeen::Opened, &stat, Ok(false)), Pin::Present);
    assert_eq!(see(&here, &OpenSeen::Opened, &stat, Ok(true)), Pin::Absent);
    assert_eq!(see(&there, &OpenSeen::Opened, &stat, Ok(false)), Pin::Absent);
    assert_eq!(see(&here, &OpenSeen::NoSuchProcess, &stat, Ok(false)), Pin::Absent);
    assert_eq!(see(&here, &OpenSeen::Opened, &ReadSeen::Missing, Ok(false)), Pin::Absent);
    let later = ReadSeen::Text(STAT.replace("777", "778"));
    assert_eq!(see(&here, &OpenSeen::Opened, &later, Ok(false)), Pin::Absent);
    let e = || "e".to_string();
    assert_eq!(see(&Err(e()), &OpenSeen::Opened, &stat, Ok(true)), Pin::Unseen(e()));
    assert_eq!(see(&here, &OpenSeen::Failed(e()), &stat, Ok(true)), Pin::Unseen(e()));
    assert_eq!(
        see(&here, &OpenSeen::Opened, &ReadSeen::Failed(e()), Ok(true)),
        Pin::Unseen(e())
    );
    assert_eq!(see(&here, &OpenSeen::Opened, &stat, Err(e())), Pin::Unseen(e()));
    assert_eq!(legacy_process_absent(777, &stat, &Pin::Present), Ok(false));
    assert_eq!(legacy_process_absent(1, &stat, &Pin::Present), Ok(true));
    assert_eq!(legacy_process_absent(777, &ReadSeen::Missing, &Pin::Present), Ok(true));
    assert_eq!(legacy_process_absent(777, &stat, &Pin::Unseen(e())), Err(e()));
}

#[test]
fn outcomes_follow_what_was_seen() {
    let e = || "e".to_string();
    assert_eq!(before_signal(&Pin::Present), None);
    assert_eq!(before_signal(&Pin::Absent), Some(CleanupOutcome::AlreadyAbsent));
    assert_eq!(
        before_signal(&Pin::Unseen(e())),
        Some(CleanupOutcome::Unknown("process observation: e".to_string()))
    );
    assert_eq!(after_signal(&SignalSeen::Sent { exited: Ok(true) }), CleanupOutcome::Confirmed);
    assert!(!after_signal(&SignalSeen::Sent { exited: Ok(false) }).is_complete());
    assert!(!after_signal(&SignalSeen::Sent { exited: Err(e()) }).is_complete());
    assert_eq!(
        after_signal(&SignalSeen::Failed { gone: true, reason: e() }),
        CleanupOutcome::AlreadyAbsent
    );
    assert_eq!(
        after_signal(&SignalSeen::Failed { gone: false, reason: e() }),
        CleanupOutcome::Retryable("pidfd_send_signal: e".to_string())
    );
    let found = LockSeen::Found { device: 1, inode: 2, is_file: true };
    assert_eq!(before_removal(1, 2, &found), None);
    assert!(matches!(before_removal(1, 3, &found), Some(CleanupOutcome::Blocked(_))));
    assert_eq!(before_removal(1, 2, &LockSeen::Missing), Some(CleanupOutcome::AlreadyAbsent));
    assert_eq!(before_removal(1, 2, &LockSeen::Failed(e())), Some(CleanupOutcome::Unknown(e())));
    assert_eq!(after_removal(&RemovalSeen::Removed), CleanupOutcome::Confirmed);
    assert_eq!(after_removal(&RemovalSeen::Missing), CleanupOutcome::AlreadyAbsent);
    assert_eq!(after_removal(&RemovalSeen::Failed(e())), CleanupOutcome::Retryable(e()));
    assert_eq!(after_bind(&Ok(())), CleanupOutcome::AlreadyAbsent);
    assert_eq!(
        after_bind(&Err(e())),
        CleanupOutcome::Retryable("port absence not confirmed: e".to_string())
    );
    assert_eq!(after_host_search(&Pin::Absent), CleanupOutcome::AlreadyAbsent);
    assert!(matches!(after_host_search(&Pin::Present), CleanupOutcome::Blocked(_)));
    assert_eq!(after_host_search(&Pin::Unseen(e())), CleanupOutcome::Unknown(e()));
}

#[test]
fn each_target_has_its_action() {
    let sub = CleanupTarget::Subscription { host: host("s"), subscription: 3 };
    assert!(matches!(execute_target(&sub, true), TargetStep::Finish(CleanupOutcome::AlreadyAbsent)));
    assert!(matches!(execute_target(&sub, false), TargetStep::FindHost(p) if p.pid == 1));
    let plugin = CleanupTarget::Plugin { host: host("s"), process: process(8, 9) };
    assert!(matches!(execute_target(&plugin, false), TargetStep::Kill(p) if p.pid == 8));
    assert!(matches!(
        execute_target(&CleanupTarget::AccountingOnly, false),
        TargetStep::Finish(CleanupOutcome::Confirmed)
    ));
    assert!(matches!(
        execute_target(&CleanupTarget::Provider, false),
        TargetStep::Finish(CleanupOutcome::Blocked(_))
    ));
    let unresolved =
        CleanupTarget::Unresolved { kind: CleanupKind::Port, reason: "why".to_string() };
    assert!(matches!(
        execute_target(&unresolved, false),
        TargetStep::Finish(CleanupOutcome::Blocked(w)) if w == "why"
    ));
    let port = CleanupTarget::Port { transport: Transport::Tcp, port: 7 };
    assert!(matches!(execute_target(&port, false), TargetStep::Bind { port: 7, .. }));
}

#[test]
fn a_host_cleans_up_only_its_own_session() {
    let sub = CleanupTarget::Subscription { host: host("mine"), subscription: 3 };
    assert!(matches!(execute(&sub, &host("mine")), HostAct::RemoveSub(3)));
    assert!(matches!(execute(&sub, &host("yours")), HostAct::Elsewhere));
    let plugin = CleanupTarget::Plugin { host: host("mine"), process: process(8, 9) };
    assert!(matches!(execute(&plugin, &host("mine")), HostAct::StopPlugin(p) if p.pid == 8));
    assert!(same_session(&host("a"), &host("a")) && !same_session(&host("a"), &host("b")));
    assert_eq!(after_unsubscribe(true), CleanupOutcome::Confirmed);
    assert_eq!(after_unsubscribe(false), CleanupOutcome::AlreadyAbsent);
    let bad = RemovalSeen::Failed("busy".to_string());
    assert_eq!(
        after_stop(CleanupOutcome::Confirmed, true, &Ok(()), &bad),
        CleanupOutcome::Retryable("busy".to_string())
    );
    assert_eq!(
        after_stop(CleanupOutcome::Confirmed, false, &Ok(()), &bad),
        CleanupOutcome::Confirmed
    );
    assert_eq!(
        after_stop(CleanupOutcome::Confirmed, true, &Err("w".to_string()), &RemovalSeen::Removed),
        CleanupOutcome::Retryable("w".to_string())
    );
    assert!(reclaimed("p", "exited", 0, &vec![]).is_none());
    let r = reclaimed("p", "exited", 1, &vec![4]).unwrap();
    assert_eq!(r.get("event").unwrap().as_str().unwrap(), "plugin.reclaimed");
    assert_eq!(r.get("pending").unwrap().as_array().unwrap().len(), 1);
}

#[test]
fn targets_and_obligations_survive_storage() {
    let all = vec![
        CleanupTarget::AccountingOnly,
        CleanupTarget::Process(process(1, 2)),
        CleanupTarget::FileLock {
            path: "/l".to_string(),
            device: 1,
            inode: 2,
            owner: Some(process(3, 4)),
        },
        CleanupTarget::Port { transport: Transport::Udp, port: 9 },
        CleanupTarget::Subscription { host: host("s"), subscription: 1 },
        CleanupTarget::Plugin { host: host("s"), process: process(5, 6) },
        CleanupTarget::Provider,
        CleanupTarget::Unresolved { kind: CleanupKind::Plugin, reason: "r".to_string() },
    ];
    for t in all {
        assert_eq!(target(target_json(&t)).unwrap(), t);
    }
    for state in [
        CleanupState::Pending,
        CleanupState::Running { worker: host("w") },
        CleanupState::Retryable("a".to_string()),
        CleanupState::Unknown("b".to_string()),
        CleanupState::Blocked("c".to_string()),
        CleanupState::Done(Completion::Confirmed),
        CleanupState::Done(Completion::AlreadyAbsent),
    ] {
        let t = CleanupRecord {
            id: 1,
            key: "k".to_string(),
            holding: 1,
            generation: "g".to_string(),
            state,
            attempts: 2,
            requested_at: 3,
            updated_at: 4,
        };
        assert_eq!(task(task_json(&t)).unwrap(), t);
    }
}

#[test]
fn malformed_stored_records_are_refused() {
    let nobody = || ProcessDto { pid: 0, start: 1, boot: "b".to_string() };
    assert!(target(TargetDto::Process { process: nobody() }).is_err());
    assert_eq!(
        target(TargetDto::Port { transport: "sctp".to_string(), port: 1 }).unwrap_err().message(),
        "corrupt: resource storage: unknown port transport"
    );
    assert_eq!(
        target(TargetDto::Unresolved { expected: "x".to_string(), reason: String::new() })
            .unwrap_err()
            .message(),
        "corrupt: resource storage: unknown cleanup kind x"
    );
    let dto = |id: i64, key: &str, at: i64, state: StateDto| TaskDto {
        id,
        key: key.to_string(),
        holding: 1,
        generation: "g".to_string(),
        state,
        attempts: 0,
        requested_at: at,
        updated_at: 1,
    };
    assert!(task(dto(1, "k", 1, StateDto::Pending)).is_ok());
    assert!(task(dto(-1, "k", 1, StateDto::Pending)).is_err());
    assert!(task(dto(1, "", 1, StateDto::Pending)).is_err());
    assert!(task(dto(1, "k", -1, StateDto::Pending)).is_err());
    let worker = HostDto { process: nobody(), session: "s".to_string() };
    assert!(task(dto(1, "k", 1, StateDto::Running { worker })).is_err());
}

#[test]
fn records_of_what_stands_behind_a_holding_are_checked() {
    assert!(validate_substrate("kernel/port", &object(vec![])).is_ok());
    assert!(validate_substrate("kernel/port", &Json::Null).is_err());
    let whole = object(vec![("pid", num(1)), ("start", num(2))]);
    assert!(validate_substrate("kernel/process", &whole).is_ok());
    let e = validate_substrate("kernel/process", &object(vec![("pid", num(0))])).unwrap_err();
    assert_eq!(e.message(), "corrupt: resource storage: substrate.pid out of range");
    let e = validate_substrate("kernel/process", &object(vec![("pid", num(1))])).unwrap_err();
    assert_eq!(e.message(), "corrupt: resource storage: substrate.start required");
    let odd = object(vec![("owner_start", Json::Null)]);
    assert!(validate_substrate("kernel/file-lock", &odd).is_err());
    assert!(validate_substrate("else", &object(vec![])).is_err());
}

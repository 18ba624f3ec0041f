use portos_kernel::cap::{Capability, Constraints};
use portos_kernel::cleanup::{
    is_left_behind, owner_incarnation, permitted, reconcile_on_open, recover_worker, release_scope,
    sweep_report, without_world, CleanupReport, CleanupRun, SubstrateReconcile,
};
use portos_kernel::decode::{
    class_row, decode, holding_row, pool_row, ClassRow, HoldingRow, PoolRow,
};
use portos_kernel::error::KernelError;
use portos_kernel::frag::{frag_from_json, frag_to_json};
use portos_kernel::host_cleanup::reconcile_stale;
use portos_kernel::json::{Json, Num};
use portos_kernel::records::{
    algebra, cleanup_key, grade, grade_from_str, is_journal_state, kind, policy, state_str,
    AlgebraTag, ClassDecl, CleanupKind, CleanupPolicy, CleanupRecord, CleanupState, CleanupTarget,
    Completion, Frag, HoldingRecord, HoldingState, JournalState, Lease, PoolRecord, ProcessWitness,
    RevertGrade, Snapshot, Transport,
};
use portos_kernel::recovery::{
    accept, builtin_policy, builtins, check_builtins, import_legacy, migrate, prepare, schema_plan,
    validate_auxiliary, AccountCheck, JournalRow, LegacyCap,
};
use portos_kernel::retirement::{legacy_witness, migrate_retirements, Evidence};
use portos_kernel::store::{
    cap_holding, count_balance, counts, create_count_pool, register_capability, spend, spent_in,
    closing, Binding, DbEnd, LedgerStore, Ran, Settled,
};
use portos_kernel::strmap::{StrMap, StrSet};
use portos_kernel::world::{CleanupOutcome, Pin};

fn convert(v: &serde_json::Value) -> Json {
    match v {
        serde_json::Value::Null => Json::Null,
        serde_json::Value::Bool(b) => Json::Bool(*b),
        serde_json::Value::Number(n) => Json::Number(Num::Nat(n.as_u64().unwrap())),
        serde_json::Value::String(s) => Json::Str(s.clone()),
        serde_json::Value::Array(a) => Json::Array(a.iter().map(convert).collect()),
        serde_json::Value::Object(m) => {
            Json::Object(m.iter().map(|(k, v)| (k.clone(), convert(v))).collect())
        }
    }
}

fn parse(text: &str) -> Result<Json, String> {
    serde_json::from_str(text).map(|v| convert(&v)).map_err(|e| e.to_string())
}

fn read(text: &str) -> Result<Frag, KernelError> {
    frag_from_json(text, &parse(text))
}

fn set(v: &[&str]) -> StrSet {
    let mut s = StrSet::new();
    for x in v {
        s.insert(x.to_string());
    }
    s
}

#[test]
fn malformed_fragment_shapes_are_rejected_without_default_resources() {
    for value in [
        r#"{"ex":"unknown"}"#,
        r#"{"ex":"token","count":1}"#,
        r#"{"set":["good",2]}"#,
        r#"{"range":[[5,2]],"bot":false}"#,
        r#"{"range":[[1,2,3]]}"#,
        r#"{"range":[],"bot":"false"}"#,
        r#"{"frac":[1,0]}"#,
    ] {
        assert!(read(value).is_err(), "{value}");
    }
}

#[test]
fn fragments_round_trip_through_json() {
    let frac = |n: &str, d: &str| Frag::Frac { num: n.to_string(), den: d.to_string() };
    for f in [
        Frag::Ex { token: true },
        Frag::Ex { token: false },
        Frag::Count(Some(7)),
        Frag::Count(Some(u64::MAX)),
        Frag::Count(None),
        Frag::SetOf(set(&["a", "b"])),
        Frag::Range { spans: vec![(0, 8), (16, 32)], bot: false },
        Frag::Range { spans: vec![], bot: true },
        frac("1", "3"),
        frac("0", "0"),
        // One half and one part in u64::MAX.
        frac("18446744073709551617", "36893488147419103230"),
    ] {
        assert_eq!(frag_from_json("", &Ok(frag_to_json(&f))).unwrap(), f);
    }
    assert_eq!(read(r#"{"frac":[2,6]}"#).unwrap(), frac("1", "3"));
    assert!(read(r#"{"frac":[1,0]}"#).is_err());
    assert!(read(r#"{"frac":[1]}"#).is_err());
}

#[test]
fn equal_fractions_are_one_fragment() {
    let frac = |n: &str, d: &str| Frag::Frac { num: n.to_string(), den: d.to_string() };
    for (text, n, d) in [
        (r#"{"frac":[2,"6"]}"#, "1", "3"),
        (r#"{"frac":["007","+21"]}"#, "1", "3"),
        (r#"{"frac":[0,5]}"#, "0", "1"),
        (r#"{"frac":[12,12]}"#, "1", "1"),
        (r#"{"frac":[100,8]}"#, "25", "2"),
        (r#"{"frac":[0,0]}"#, "0", "0"),
        (
            r#"{"frac":["36893488147419103234","73786976294838206460"]}"#,
            "18446744073709551617",
            "36893488147419103230",
        ),
        (r#"{"frac":["100000000000000000000000000000000000000000","30"]}"#,
            "10000000000000000000000000000000000000000", "3"),
    ] {
        assert_eq!(read(text).unwrap(), frac(n, d), "{text}");
    }
    for text in [
        r#"{"frac":["x","y"]}"#,
        r#"{"frac":["","1"]}"#,
        r#"{"frac":["-1","2"]}"#,
        r#"{"frac":["99999999999999999999",0]}"#,
        r#"{"frac":[1,2,3]}"#,
        r#"{"frac":[1,null]}"#,
    ] {
        assert!(read(text).is_err(), "{text}");
    }
}

#[test]
fn a_text_that_is_no_fragment_is_told_back() {
    assert_eq!(
        read("[]").unwrap_err().message(),
        "corrupt: resource storage: malformed fragment: []"
    );
    assert!(read("{").unwrap_err().message().starts_with("corrupt: resource storage: fragment JSON: "));
}

#[test]
fn names_are_read_back() {
    assert_eq!(kind("file_lock").unwrap(), CleanupKind::FileLock);
    assert!(kind("File_Lock").is_err());
    assert_eq!(policy("accounting_only").unwrap(), CleanupPolicy::AccountingOnly);
    assert_eq!(policy("port").unwrap(), CleanupPolicy::Managed(CleanupKind::Port));
    assert_eq!(algebra("set").unwrap(), AlgebraTag::SetOf);
    assert!(algebra("sets").is_err());
    assert_eq!(grade("external").unwrap(), RevertGrade::External);
    assert_eq!(
        grade_from_str("x").unwrap_err().message(),
        "corrupt: journal grade: x"
    );
    assert!(is_journal_state("in_flight") && !is_journal_state("flying"));
    assert_eq!(cleanup_key("r", 12), "cleanup:r:12");
    assert_eq!(builtin_policy("kernel/cap"), CleanupPolicy::AccountingOnly);
    assert_eq!(builtin_policy("kernel/port"), CleanupPolicy::Managed(CleanupKind::Port));
    assert_eq!(builtin_policy("mine"), CleanupPolicy::Managed(CleanupKind::Provider));
}

fn class(id: &str, cleanup: CleanupPolicy) -> ClassDecl {
    ClassDecl {
        class_id: id.to_string(),
        algebra: AlgebraTag::Exclusive,
        release_idempotent: true,
        lease_duration: Some(60),
        revert_grade: RevertGrade::Compensable,
        cleanup,
    }
}

fn holding(id: u64, class: &str, instance: &str) -> HoldingRecord {
    HoldingRecord {
        id,
        subject: "plugin:p".to_string(),
        class_id: class.to_string(),
        instance: instance.to_string(),
        frag: Frag::Ex { token: true },
        generation: "g".to_string(),
        parent: None,
        lease: Lease::Unbounded,
        acquired_at: 1,
        state: HoldingState::Active,
        target: CleanupTarget::AccountingOnly,
    }
}

fn task(id: u64, holding: u64, state: CleanupState) -> CleanupRecord {
    CleanupRecord {
        id,
        key: format!("k{id}"),
        holding,
        generation: "g".to_string(),
        state,
        attempts: 0,
        requested_at: 1,
        updated_at: 1,
    }
}

fn hrow(id: i64) -> HoldingRow {
    HoldingRow {
        id,
        subject: "s".to_string(),
        class_id: "c".to_string(),
        instance: "i".to_string(),
        frag: r#"{"ex":"token"}"#.to_string(),
        parsed: parse(r#"{"ex":"token"}"#),
        generation: "g".to_string(),
        parent: None,
        lease_expires_at: None,
        acquired_at: 1,
        released_at: None,
        lease_kind: Some("unbounded".to_string()),
    }
}

fn crow() -> ClassRow {
    ClassRow {
        class_id: "c".to_string(),
        algebra: "counted".to_string(),
        release_idempotent: 1,
        lease_secs: Some(5),
        revert_grade: "inverse".to_string(),
        cleanup: None,
    }
}

#[test]
fn rows_are_decoded_or_refused() {
    let s = decode(&vec![crow()], &vec![], vec![], &vec![hrow(1)], false).unwrap();
    assert_eq!(s.classes[0].algebra, AlgebraTag::Counted);
    assert_eq!(s.classes[0].lease_duration, Some(5));
    assert_eq!(s.classes[0].cleanup, CleanupPolicy::Managed(CleanupKind::Provider));
    assert_eq!(s.holdings[0].lease, Lease::Unbounded);
    assert_eq!(s.holdings[0].state, HoldingState::Active);
    let bad_class = |f: &dyn Fn(&mut ClassRow)| {
        let mut r = crow();
        f(&mut r);
        decode(&vec![r], &vec![], vec![], &vec![], false).unwrap_err().message()
    };
    let p = "corrupt: resource storage: ";
    assert_eq!(
        bad_class(&|r| r.release_idempotent = 2),
        format!("{p}invalid release declaration")
    );
    assert_eq!(bad_class(&|r| r.lease_secs = Some(-1)), format!("{p}negative duration"));
    assert_eq!(bad_class(&|r| r.algebra = "x".to_string()), format!("{p}unknown algebra x"));
    assert_eq!(bad_class(&|r| r.revert_grade = "x".to_string()), format!("{p}unknown grade x"));
    assert_eq!(
        bad_class(&|r| r.cleanup = Some("x".to_string())),
        format!("{p}unknown cleanup kind x")
    );
    let bad_holding = |f: &dyn Fn(&mut HoldingRow)| {
        let mut r = hrow(7);
        f(&mut r);
        decode(&vec![], &vec![], vec![], &vec![r], false).unwrap_err().message()
    };
    assert_eq!(bad_holding(&|r| r.id = -1), format!("{p}holding identity/time: out of range"));
    assert_eq!(
        bad_holding(&|r| r.acquired_at = -1),
        format!("{p}holding identity/time: out of range")
    );
    let lease = format!("{p}holding 7: invalid lease representation");
    assert_eq!(bad_holding(&|r| r.lease_kind = None), lease);
    assert_eq!(bad_holding(&|r| r.lease_kind = Some("until".to_string())), lease);
    assert_eq!(bad_holding(&|r| r.lease_kind = Some("parent".to_string())), lease);
    assert_eq!(bad_holding(&|r| r.lease_expires_at = Some(3)), lease);
    let pool = PoolRow {
        class_id: "c".to_string(),
        instance: "i".to_string(),
        capacity: "3".to_string(),
        parsed: parse("3"),
    };
    assert_eq!(
        decode(&vec![], &vec![pool], vec![], &vec![hrow(-1)], false).unwrap_err().message(),
        format!("{p}malformed fragment: 3")
    );
}

#[test]
fn a_row_without_a_kind_of_lease_is_an_old_one() {
    let old_lease = |parent: Option<i64>, until: Option<i64>| {
        let mut r = hrow(1);
        r.lease_kind = None;
        r.parent = parent;
        r.lease_expires_at = until;
        decode(&vec![], &vec![], vec![], &vec![r], true).unwrap().holdings[0].lease
    };
    assert_eq!(old_lease(None, None), Lease::Unbounded);
    assert_eq!(old_lease(Some(3), None), Lease::ParentBound);
    assert_eq!(old_lease(Some(3), Some(9)), Lease::Until(9));
}

#[test]
fn what_is_stored_is_read_back() {
    let c = class("c", CleanupPolicy::Managed(CleanupKind::Port));
    let mut h = holding(3, "c", "i");
    h.parent = Some(2);
    h.lease = Lease::Until(99);
    h.state = HoldingState::Retired(8);
    let p = PoolRecord {
        class_id: "c".to_string(),
        instance: "i".to_string(),
        capacity: Frag::Count(Some(4)),
    };
    let links = vec![("child".to_string(), "parent".to_string())];
    let s = decode(
        &vec![class_row(&c)],
        &vec![pool_row(&p, "text".to_string())],
        links,
        &vec![holding_row(&h, "text".to_string())],
        false,
    )
    .unwrap();
    assert_eq!(s.classes, vec![c]);
    assert_eq!(s.pools, vec![p]);
    assert_eq!(s.holdings, vec![h]);
    assert_eq!(s.instantiations.len(), 1);
}

fn empty() -> Snapshot {
    Snapshot {
        classes: builtins(),
        pools: vec![],
        instantiations: vec![],
        holdings: vec![],
        cleanups: vec![],
    }
}

#[test]
fn schemas_and_declarations_are_checked() {
    let plan = schema_plan(None).unwrap();
    assert!(plan.legacy && plan.migrate);
    let plan = schema_plan(Some(1)).unwrap();
    assert!(!plan.legacy && plan.migrate);
    let plan = schema_plan(Some(2)).unwrap();
    assert!(!plan.legacy && !plan.migrate);
    assert_eq!(
        schema_plan(Some(-3)).unwrap_err().message(),
        "corrupt: resource storage: unsupported resource schema Some(-3)"
    );
    assert_eq!(
        schema_plan(Some(i64::MIN)).unwrap_err().message(),
        format!("corrupt: resource storage: unsupported resource schema Some({})", i64::MIN)
    );
    let mut all = builtins();
    assert_eq!(all.len(), 7);
    assert!(check_builtins(&all).is_ok());
    all[3].release_idempotent = false;
    assert_eq!(
        check_builtins(&all).unwrap_err().message(),
        "corrupt: resource storage: builtin declaration differs: kernel/process"
    );
    all.remove(3);
    assert!(check_builtins(&all).is_err());
}

fn cap(id: &str, revoked: bool) -> Capability {
    let mut counts = StrMap::new();
    counts.insert("send".to_string(), 4);
    let mut verbs = StrSet::new();
    verbs.insert("send".to_string());
    Capability {
        cap_id: id.to_string(),
        subject: "plugin:p".to_string(),
        resource: "driver:mail".to_string(),
        verbs,
        constraints: Constraints { expires_at: Some(50), counts },
        parent: None,
        revoked,
    }
}

fn old_cap(id: &str, parsed: Result<Capability, String>, revoked: i64) -> LegacyCap {
    LegacyCap { id: id.to_string(), parsed, revoked }
}

#[test]
fn old_capabilities_become_pools() {
    let mut s = empty();
    s.holdings.push(holding(1, "kernel/process", "x"));
    s.holdings.push(holding(2, "kernel/process", "x"));
    let caps =
        vec![old_cap("a", Ok(cap("a", false)), 0), old_cap("b", Ok(cap("b", true)), 1)];
    let accounts = import_legacy(&caps, &mut s).unwrap();
    assert_eq!(accounts.len(), 2);
    assert_eq!(accounts[0].instance, "a/send");
    assert_eq!(s.pools.len(), 3);
    assert_eq!(s.pools[0].capacity, Frag::Count(Some(4)));
    assert_eq!(s.pools[1].capacity, Frag::Count(Some(0)));
    assert_eq!(s.pools[2].capacity, Frag::Ex { token: true });
    let mut s = empty();
    s.holdings.push(holding(1, "kernel/process", "x"));
    let caps =
        vec![old_cap("b", Ok(cap("b", true)), 1), old_cap("a", Ok(cap("a", false)), 0)];
    let accounts = import_legacy(&caps, &mut s).unwrap();
    assert_eq!((accounts[0].instance.as_str(), accounts[1].instance.as_str()), ("b/send", "a/send"));
    let names: Vec<&str> = s.pools.iter().map(|p| p.instance.as_str()).collect();
    assert_eq!(names, ["a/send", "b/send", "x"]);
    let p = "corrupt: resource storage: ";
    let refuse = |caps: Vec<LegacyCap>| import_legacy(&caps, &mut empty()).unwrap_err().message();
    assert_eq!(
        refuse(vec![old_cap("a", Err("bad".to_string()), 0)]),
        format!("{p}legacy account a: bad")
    );
    assert_eq!(
        refuse(vec![old_cap("a", Ok(cap("b", false)), 0)]),
        format!("{p}inconsistent legacy account a")
    );
    assert_eq!(
        refuse(vec![old_cap("a", Ok(cap("a", false)), 1)]),
        format!("{p}inconsistent legacy account a")
    );
    assert_eq!(
        refuse(vec![old_cap("a", Ok(cap("a", false)), 0), old_cap("a", Ok(cap("a", false)), 0)]),
        format!("{p}ambiguous legacy pool a/send")
    );
    let mut odd = empty();
    odd.holdings.push(holding(5, "nobody", "x"));
    assert_eq!(
        import_legacy(&vec![], &mut odd).unwrap_err().message(),
        format!("{p}holding 5: unknown class nobody")
    );
    let mut pooled = empty();
    pooled.pools.push(PoolRecord {
        class_id: "c".to_string(),
        instance: "i".to_string(),
        capacity: Frag::Count(None),
    });
    assert!(import_legacy(&vec![], &mut pooled).unwrap_err().message().contains("unversioned pool"));
}

fn nothing() -> Evidence {
    Evidence { detail: None, absent: false }
}

#[test]
fn an_old_tombstone_is_no_receipt() {
    let mut s = empty();
    let mut lock = holding(1, "kernel/file-lock", "/l");
    lock.state = HoldingState::Retired(9);
    let gone = holding(2, "kernel/file-lock", "/m");
    let port = holding(3, "kernel/port", "tcp:80");
    let counted = holding(4, "kernel/cap", "c");
    s.holdings = vec![lock, gone, port, counted];
    let evidence =
        vec![nothing(), Evidence { detail: None, absent: true }, nothing(), nothing()];
    let out = migrate_retirements(s, &evidence, "realm", 77).unwrap();
    assert_eq!(out.holdings[0].state, HoldingState::Retiring(1));
    assert!(matches!(&out.holdings[0].target, CleanupTarget::Unresolved { kind: CleanupKind::FileLock, .. }));
    assert_eq!(out.holdings[1].state, HoldingState::Retired(77));
    assert_eq!(out.holdings[2].state, HoldingState::Retiring(3));
    assert_eq!(
        out.holdings[2].target,
        CleanupTarget::Port { transport: Transport::Tcp, port: 80 }
    );
    assert_eq!(out.holdings[3].state, HoldingState::Active);
    assert_eq!(out.cleanups.len(), 3);
    assert!(matches!(out.cleanups[0].state, CleanupState::Blocked(_)));
    assert_eq!(out.cleanups[1].state, CleanupState::Done(Completion::AlreadyAbsent));
    assert_eq!(out.cleanups[2].state, CleanupState::Pending);
    assert_eq!(out.cleanups[2].key, "cleanup:realm:3");
}

#[test]
fn a_parent_is_not_discharged_before_its_uncertain_child() {
    let mut s = empty();
    let mut root = holding(1, "kernel/cap", "a");
    root.state = HoldingState::Retired(5);
    let mut middle = holding(2, "kernel/cap", "b");
    middle.parent = Some(1);
    middle.state = HoldingState::Retired(6);
    let mut leaf = holding(3, "kernel/plugin", "p");
    leaf.parent = Some(2);
    let mut bound = holding(4, "kernel/cap", "c");
    bound.parent = Some(3);
    bound.lease = Lease::ParentBound;
    s.holdings = vec![root, middle, leaf, bound];
    let evidence = vec![nothing(), nothing(), nothing(), nothing()];
    let out = migrate_retirements(s, &evidence, "r", 9).unwrap();
    for h in &out.holdings {
        assert_eq!(h.state, HoldingState::Retiring(h.id));
    }
    assert_eq!(out.cleanups.len(), 4);
    let leaf = out.cleanups.iter().find(|t| t.id == 3).unwrap();
    assert!(matches!(leaf.state, CleanupState::Blocked(_)));
    assert!(out.cleanups.iter().filter(|t| t.state == CleanupState::Pending).count() == 3);
}

#[test]
fn an_old_process_needs_its_witness() {
    let refuse = |generation: &str, detail: Option<Result<Json, String>>| {
        let mut s = empty();
        let mut h = holding(6, "kernel/process", "x");
        h.generation = generation.to_string();
        s.holdings = vec![h];
        migrate_retirements(s, &vec![Evidence { detail, absent: false }], "r", 1)
            .unwrap_err()
            .message()
    };
    let p = "corrupt: resource storage: ";
    assert_eq!(refuse("5:6", None), format!("{p}legacy process 6 has no valid witness"));
    assert_eq!(
        refuse("5:6", Some(Err("eof".to_string()))),
        format!("{p}legacy substrate 6: eof")
    );
    let whole = parse(r#"{"pid":5,"start":6}"#);
    assert_eq!(legacy_witness(whole.as_ref().unwrap()), Some((5, 6)));
    assert_eq!(
        refuse("5:7", Some(whole)),
        format!("{p}legacy process generation mismatch")
    );
    assert_eq!(
        refuse("0:6", Some(parse(r#"{"pid":0,"start":6}"#))),
        format!("{p}legacy process generation mismatch")
    );
    let mut s = empty();
    s.cleanups.push(task(1, 1, CleanupState::Pending));
    assert!(migrate_retirements(s, &vec![], "r", 1).is_err());
    let mut s = empty();
    s.holdings = vec![holding(1, "nobody", "x")];
    assert!(migrate_retirements(s, &vec![nothing()], "r", 1).is_err());
}

#[test]
fn a_ledger_is_prepared_migrated_and_accepted() {
    let plan = schema_plan(None).unwrap();
    let mut s = empty();
    assert!(prepare(&plan, &mut s, &vec![]).unwrap().is_empty());
    let bad: Result<(), String> = Err("cycle".to_string());
    assert_eq!(
        migrate(&plan, empty(), &bad, &vec![], "r", 1).unwrap_err().message(),
        "corrupt: resource storage: legacy graph rejected: cycle"
    );
    let s = migrate(&plan, s, &Ok(()), &vec![], "r", 1).unwrap();
    assert!(accept(&s, "r", &Ok(()), &vec![], &vec![]).is_ok());
    assert_eq!(
        accept(&s, "", &Ok(()), &vec![], &vec![]).unwrap_err().message(),
        "corrupt: resource storage: empty resource realm"
    );
    assert_eq!(
        accept(&s, "r", &bad, &vec![], &vec![]).unwrap_err().message(),
        "corrupt: resource storage: ledger graph rejected: cycle"
    );
}

#[test]
fn records_beside_the_ledger_are_checked() {
    let classes = builtins();
    let holdings = vec![holding(1, "kernel/cap", "c")];
    let row = |id: i64, grade: &str, state: &str, at: i64| {
        vec![JournalRow {
            holding: id,
            grade: grade.to_string(),
            state: state.to_string(),
            updated_at: at,
        }]
    };
    let check = |j: Vec<JournalRow>| validate_auxiliary(&vec![], &j, &classes, &holdings);
    assert!(check(row(1, "inverse", "done", 0)).is_ok());
    assert!(check(row(-1, "inverse", "done", 0)).is_err());
    assert!(check(row(2, "inverse", "done", 0)).unwrap_err().message().contains("no holding"));
    assert!(check(row(1, "odd", "done", 0)).unwrap_err().message().contains("unknown grade"));
    assert!(check(row(1, "external", "done", 0)).unwrap_err().message().contains("invalid legacy"));
    assert!(check(row(1, "inverse", "odd", 0)).unwrap_err().message().contains("invalid legacy"));
    assert!(check(row(1, "inverse", "done", -1)).is_err());
    let account = vec![AccountCheck {
        account: "a".to_string(),
        effect: "e".to_string(),
        pool: Err("none".to_string()),
    }];
    assert_eq!(
        validate_auxiliary(&account, &vec![], &classes, &holdings).unwrap_err().message(),
        "corrupt: resource storage: account a/e: none"
    );
    let mut h = holding(1, "kernel/process", "x");
    h.target =
        CleanupTarget::Process(ProcessWitness::checked(5, 6, "b".to_string()).unwrap());
    assert!(validate_auxiliary(&vec![], &vec![], &classes, &vec![h]).is_err());
}

#[test]
fn each_obligation_is_attempted_once_and_parents_follow_children() {
    let mut parent = holding(1, "kernel/plugin", "p");
    parent.state = HoldingState::Retiring(1);
    let mut child = holding(2, "kernel/subscription", "s");
    child.parent = Some(1);
    child.state = HoldingState::Retiring(2);
    let holdings = vec![parent, child];
    let mut ids = permitted(&vec![2], &holdings);
    ids.sort();
    assert_eq!(ids, vec![1, 2]);
    let tasks = || vec![task(1, 1, CleanupState::Pending), task(2, 2, CleanupState::Pending)];
    let mut run = CleanupRun::new(Some(vec![2]));
    run.begin_pass(tasks(), &holdings);
    assert_eq!(run.next(), Some(1));
    assert_eq!(run.next(), Some(2));
    run.claimed(2);
    run.finished(2, "g".to_string(), &CleanupOutcome::Confirmed);
    assert_eq!(run.next(), None);
    assert!(run.again());
    run.begin_pass(tasks(), &holdings);
    assert_eq!(run.next(), Some(1));
    run.claimed(1);
    run.finished(1, "g".to_string(), &CleanupOutcome::Retryable("busy".to_string()));
    assert_eq!(run.next(), None);
    assert!(!run.again());
    let stored =
        vec![task(1, 1, CleanupState::Pending), task(2, 2, CleanupState::Done(Completion::Confirmed))];
    let report = run.report(&stored);
    assert_eq!(report.completed, vec![(2, "g".to_string())]);
    assert!(report.pending.is_empty());
    let everything = CleanupRun::new(None).report(&stored);
    assert_eq!(everything.pending.len(), 1);
}

#[test]
fn what_stands_for_nothing_needs_no_action() {
    assert_eq!(without_world(&CleanupTarget::AccountingOnly), Some(CleanupOutcome::Confirmed));
    assert_eq!(without_world(&CleanupTarget::Provider), None);
    let u = CleanupTarget::Unresolved { kind: CleanupKind::Port, reason: "r".to_string() };
    assert_eq!(without_world(&u), Some(CleanupOutcome::Blocked("r".to_string())));
    assert!(recover_worker(true, false, &Pin::Present));
    assert!(!recover_worker(true, true, &Pin::Absent));
    assert!(recover_worker(false, true, &Pin::Absent));
    assert!(!recover_worker(false, false, &Pin::Unseen("e".to_string())));
}

#[test]
fn an_opened_ledger_reports_what_it_found() {
    let before = vec![
        holding(1, "kernel/process", "a"),
        holding(2, "kernel/process", "b"),
        holding(3, "kernel/port", "c"),
        holding(4, "kernel/port", "d"),
        holding(5, "kernel/file-lock", "e"),
        holding(6, "kernel/file-lock", "f"),
        holding(7, "kernel/plugin", "g"),
    ];
    let done = |n: u64| (n, "g".to_string());
    let report = CleanupReport {
        completed: vec![done(1), done(2), done(3), done(5), done(7)],
        pending: vec![task(4, 4, CleanupState::Pending)],
    };
    let tasks = vec![
        task(1, 1, CleanupState::Done(Completion::Confirmed)),
        task(2, 2, CleanupState::Done(Completion::AlreadyAbsent)),
    ];
    let r = reconcile_on_open(&before, &report, &tasks);
    assert_eq!(
        r.substrate,
        SubstrateReconcile {
            process_killed: 1,
            process_tombstoned: 1,
            ports_tombstoned: 1,
            ports_still_bound: 1,
            locks_removed: 1,
            locks_kept: 1,
        }
    );
    assert_eq!((r.stale_rows, r.cleanup_pending), (1, 1));
    assert!(!r.substrate.is_empty() && SubstrateReconcile::default().is_empty());
    assert!(is_left_behind("kernel/plugin") && !is_left_behind("kernel/cap"));
    let swept = sweep_report(report, &before).unwrap();
    assert_eq!(swept.released[0], (1, "kernel/process".to_string(), "a".to_string()));
    assert_eq!(swept.pending.len(), 1);
    let lost = CleanupReport { completed: vec![done(99)], pending: vec![] };
    assert!(sweep_report(lost, &before).is_err());
}

#[test]
fn stale_rows_are_released_children_first() {
    let root = holding(1, "kernel/plugin", "p");
    let mut child = holding(2, "kernel/plugin", "q");
    child.parent = Some(1);
    let mut leaf = holding(3, "kernel/subscription", "s");
    leaf.parent = Some(2);
    let holdings = vec![root, child, leaf];
    assert_eq!(reconcile_stale(&holdings, vec![1, 2, 3]), vec![3, 2, 1]);
    assert_eq!(reconcile_stale(&holdings, vec![1, 2]), Vec::<u64>::new());
    assert_eq!(reconcile_stale(&holdings, vec![3, 9]), vec![3]);
}

#[test]
fn only_what_was_committed_is_seen() {
    assert!(LedgerStore::open("a", -1).is_err());
    let mut store = LedgerStore::open("a", 5).unwrap();
    assert_eq!(store.begin(5).unwrap(), 6);
    store.roll_back(true);
    assert_eq!(*store.with_read(5).unwrap(), "a");
    let next = store.begin(5).unwrap();
    assert_eq!(store.commit("b", next, 3, Ok(())).unwrap(), 3);
    assert_eq!(*store.with_read(6).unwrap(), "b");
    let next = store.begin(6).unwrap();
    assert!(store.commit("c", next, 4, Err(KernelError::Db("full".to_string()))).is_err());
    assert_eq!(
        store.with_read(6).unwrap_err().message(),
        "corrupt: resource storage: ledger requires recovery; current state is unknown"
    );
    assert_eq!(
        store.begin(6).unwrap_err().message(),
        "corrupt: resource storage: ledger requires recovery before further writes"
    );
    let mut store = LedgerStore::open("a", 5).unwrap();
    assert!(store.begin(6).unwrap_err().message().contains("changed through another store"));
    assert!(store.begin(5).is_err());
    let mut store = LedgerStore::open("a", 5).unwrap();
    assert!(store.with_read(4).unwrap_err().message().contains("stale"));
    let mut store = LedgerStore::open("a", i64::MAX).unwrap();
    assert!(store.begin(i64::MAX).unwrap_err().message().contains("revision exhausted"));
    let mut store = LedgerStore::open("a", 5).unwrap();
    store.roll_back(false);
    assert!(store.begin(5).is_err());
}

#[test]
fn a_failed_transaction_leaves_everything_as_it_was() {
    let mut store = LedgerStore::open("a", 5).unwrap();
    let refused: Ran<u8> = Ran::Refused(KernelError::Denied("no".to_string()));
    let next = store.begin(5).unwrap();
    assert_eq!(closing(&refused), DbEnd::RollBack);
    match store.settle("b", next, refused, Ok(())) {
        Settled::Answered(Err(e)) => assert_eq!(e.message(), "denied: no"),
        _ => panic!(),
    }
    assert_eq!((*store.with_read(5).unwrap(), *store.current()), ("a", "a"));
    let next = store.begin(5).unwrap();
    assert_eq!(closing(&Ran::<u8>::Unwound), DbEnd::RollBack);
    assert!(matches!(store.settle("b", next, Ran::<u8>::Unwound, Ok(())), Settled::Unwinds));
    assert_eq!(*store.with_read(5).unwrap(), "a");
    let next = store.begin(5).unwrap();
    assert_eq!(closing(&Ran::Done(3)), DbEnd::Commit);
    assert!(matches!(store.settle("b", next, Ran::Done(3), Ok(())), Settled::Answered(Ok(3))));
    assert_eq!(*store.with_read(6).unwrap(), "b");
    let next = store.begin(6).unwrap();
    let stuck = Err(KernelError::Db("busy".to_string()));
    assert!(matches!(store.settle("c", next, Ran::<u8>::Unwound, stuck), Settled::Unwinds));
    assert!(store.begin(6).unwrap_err().message().contains("requires recovery"));
}

#[test]
fn accounts_balance() {
    let mut a = holding(1, "kernel/cap-count", "x/send");
    a.frag = Frag::Count(Some(2));
    let mut b = holding(2, "kernel/cap-count", "x/send");
    b.frag = Frag::Count(Some(3));
    b.state = HoldingState::Retiring(2);
    let mut c = holding(3, "kernel/cap-count", "x/send");
    c.frag = Frag::Count(Some(100));
    c.state = HoldingState::Retired(1);
    let mut d = holding(4, "kernel/cap", "x");
    d.frag = Frag::Ex { token: true };
    let holdings = vec![a, b, c, d];
    let spent = spent_in(&holdings, "kernel/cap-count", "x/send");
    assert_eq!(spent, 5);
    assert_eq!(count_balance(Some(&Frag::Count(Some(7))), spent).unwrap(), 2);
    assert!(count_balance(Some(&Frag::Count(Some(4))), spent).is_err());
    assert!(count_balance(None, spent).is_err());
    assert_eq!(counts(&holdings, "kernel/cap-count"), (1, 1));
    assert_eq!(cap_holding(&holdings, "x").unwrap().id, 4);
    assert!(cap_holding(&holdings, "y").is_none());
    let bound = |owner: &str| {
        Some(Binding {
            owner: owner.to_string(),
            class_id: "kernel/cap-count".to_string(),
            instance: "x/send".to_string(),
        })
    };
    assert_eq!(create_count_pool(&None, "x", "send", "o", None, 3).unwrap(), "x/send");
    assert!(create_count_pool(&bound("o"), "x", "send", "o", None, 3).is_ok());
    assert!(create_count_pool(&bound("p"), "x", "send", "o", None, 3).is_err());
    let other = Frag::Count(Some(4));
    assert_eq!(
        create_count_pool(&None, "x", "send", "o", Some(&other), 3).unwrap_err().message(),
        "denied: ledger: PoolExists"
    );
    assert!(create_count_pool(&None, "x", "send", "o", Some(&other), 4).is_ok());
    assert!(spend("s", None, 0).unwrap().is_none());
    assert!(spend("s", None, 1).is_err());
    let o = spend("s", Some(("c".to_string(), "i".to_string())), 2).unwrap().unwrap();
    assert_eq!((o.owner.as_str(), o.amount, o.generation.as_str()), ("s:spent", 2, "spend"));
    let r = register_capability(&cap("a", false));
    assert_eq!(r.pools, vec![("send".to_string(), 4)]);
    assert_eq!((r.class_id.as_str(), r.lease), ("kernel/cap", Lease::Until(50)));
}

#[test]
fn a_release_drives_what_hangs_under_it_and_is_no_longer_in_use() {
    let mut child = holding(2, "test/leased", "c");
    child.state = HoldingState::Retiring(5);
    let holdings = vec![holding(1, "test/leased", "r"), child, holding(3, "test/leased", "d")];
    assert_eq!(release_scope(1, &vec![2, 3, 9], &holdings), vec![1, 2]);
}

#[test]
fn a_late_exit_of_an_old_owner_collects_nothing_of_its_replacement() {
    let mut old = holding(1, "kernel/plugin", "same-name");
    old.generation = "old".to_string();
    old.state = HoldingState::Retired(7);
    let mut new = holding(2, "kernel/plugin", "same-name");
    new.generation = "new".to_string();
    new.subject = "plugin:same-name".to_string();
    let holdings = vec![old, new];
    assert_eq!(owner_incarnation(&holdings, 1, "old"), None);
    assert_eq!(owner_incarnation(&holdings, 2, "old"), None);
    assert_eq!(owner_incarnation(&holdings, 3, "new"), None);
    assert_eq!(owner_incarnation(&holdings, 2, "new"), Some(&"plugin:same-name".to_string()));
}

#[test]
fn states_of_the_journal_have_names() {
    for (state, name) in [
        (JournalState::Pending, "pending"),
        (JournalState::InFlight, "in_flight"),
        (JournalState::Done, "done"),
        (JournalState::Failed, "failed"),
    ] {
        assert_eq!(state_str(state), name);
        assert!(is_journal_state(name));
    }
    assert!(!is_journal_state("lost"));
}

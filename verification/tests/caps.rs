use portos_kernel::cap::{Capability, Constraints};
use portos_kernel::caps::CapStore;
use portos_kernel::error::KernelError;
use portos_kernel::handle::Handle;
use portos_kernel::strmap::{StrMap, StrSet};

fn verbs(v: &[&str]) -> StrSet {
    let mut s = StrSet::new();
    for x in v {
        s.insert(x.to_string());
    }
    s
}

fn counted(v: &str, n: u64) -> Constraints {
    let mut counts = StrMap::new();
    counts.insert(v.to_string(), n);
    Constraints { expires_at: None, counts }
}

#[test]
fn counting_exercise_never_overdraws() {
    let mut caps = CapStore::new();
    let cap =
        caps.mint("session:test", "toy:echo", verbs(&["emit"]), counted("emit", 2), None).unwrap();
    assert!(caps.exercise(&cap.cap_id, "emit", 0).is_ok());
    assert!(caps.exercise(&cap.cap_id, "emit", 0).is_ok());
    let e = caps.exercise(&cap.cap_id, "emit", 0);
    assert!(matches!(e, Err(KernelError::Denied(_))), "third emit must be denied");
    let stored = caps.get(&cap.cap_id).unwrap();
    assert_eq!(stored.constraints.counts.get("emit"), Some(&2));
    assert_eq!(caps.counts_left(&stored, "emit"), Some(0));
    assert_eq!(caps.counts_left(&stored, "list"), None);
    assert_eq!(caps.list_live("session:test", 0).len(), 1);
}

#[test]
fn attenuation_must_narrow_and_revocation_cascades() {
    let mut caps = CapStore::new();
    let parent = caps
        .mint("session:test", "toy:echo", verbs(&["emit", "list"]), Constraints::default(), None)
        .unwrap();
    let bad = caps.attenuate(
        &parent.cap_id,
        "plugin:kid",
        verbs(&["emit", "delete"]),
        Constraints::default(),
    );
    assert!(bad.is_err());
    let kid = caps
        .attenuate(&parent.cap_id, "plugin:kid", verbs(&["emit"]), Constraints::default())
        .unwrap();
    assert!(caps.exercise(&kid.cap_id, "emit", 0).is_ok());
    let n = caps.revoke(&parent.cap_id).unwrap();
    assert_eq!(n, 2);
    assert!(caps.exercise(&kid.cap_id, "emit", 0).is_err());
    assert!(caps.list_live("session:test", 0).is_empty());
    assert!(caps.list_live("plugin:kid", 0).is_empty());
    assert!(caps
        .attenuate(&parent.cap_id, "plugin:kid", verbs(&["emit"]), Constraints::default())
        .is_err());
}

#[test]
fn a_counted_verb_stays_counted_when_it_is_handed_on() {
    let mut caps = CapStore::new();
    let parent =
        caps.mint_as("p", "s", "toy:echo", verbs(&["emit"]), counted("emit", 2), None).unwrap();
    let free = caps.attenuate_as("k", &parent.cap_id, "t", verbs(&["emit"]), Constraints::default());
    assert!(free.is_err());
    assert!(caps
        .attenuate_as("k", &parent.cap_id, "t", verbs(&["emit"]), counted("emit", 3))
        .is_err());
    let kid = caps
        .attenuate_as("k", &parent.cap_id, "t", verbs(&["emit"]), counted("emit", 1))
        .unwrap();
    assert!(kid.is_valid_attenuation_of(&parent));
    assert!(parent.is_valid_attenuation_of(&parent));
}

#[test]
fn each_refusal_of_the_issuer_has_its_reason() {
    let mut caps = CapStore::new();
    let mut until = Constraints::default();
    until.expires_at = Some(10);
    caps.mint_as("c", "s", "r", verbs(&["v"]), until, None).unwrap();
    assert!(caps.exercise("c", "v", 10).is_ok());
    for (id, verb, now) in [("c", "v", 11), ("c", "w", 0), ("x", "v", 0)] {
        assert!(caps.exercise(id, verb, now).is_err(), "{id} {verb} {now}");
    }
    caps.retire("c");
    assert!(caps.exercise("c", "v", 0).is_err());
    assert!(matches!(caps.get("x"), Err(KernelError::NotFound(e)) if e == "x"));
    assert!(caps.mint_as("c", "s", "r", verbs(&[]), Constraints::default(), None).is_err());
}

#[test]
fn a_search_exercises_the_first_capability_that_lets_it_pass() {
    let mut caps = CapStore::new();
    caps.mint_as("a", "s", "driver:x", verbs(&["v"]), counted("v", 1), None).unwrap();
    caps.mint_as("b", "s", "driver:x", verbs(&["v"]), counted("v", 1), None).unwrap();
    assert_eq!(caps.find_and_exercise("s", "driver:x", "v", 0).unwrap(), "a");
    assert_eq!(caps.find_and_exercise("s", "driver:x", "v", 0).unwrap(), "b");
    assert!(matches!(
        caps.authorize("s", "driver:x", "v", 0),
        Err(KernelError::BudgetExhausted(v)) if v == "v"
    ));
    assert!(matches!(
        caps.authorize("s", "driver:y", "v", 0),
        Err(KernelError::NoCapability { .. })
    ));
    let e = caps.find_and_exercise("s", "driver:y", "v", 0).unwrap_err();
    assert_eq!(e.message(), "denied: no capability: s \u{2192} driver:y verb v");
}

fn row(id: &str, n: u64) -> Capability {
    Capability {
        cap_id: id.to_string(),
        subject: "s".to_string(),
        resource: "r".to_string(),
        verbs: verbs(&["v"]),
        constraints: counted("v", n),
        parent: None,
        revoked: false,
    }
}

#[test]
fn a_table_is_rebuilt_only_from_solvent_rows() {
    let spend = || ("a".to_string(), "v".to_string());
    let mut caps =
        CapStore::rebuild_pools(vec![row("a", 2)], verbs(&["a"]), vec![spend()]).unwrap();
    assert!(caps.exercise("a", "v", 0).is_ok());
    assert!(caps.exercise("a", "v", 0).is_err());
    assert!(CapStore::rebuild_pools(vec![row("a", 1), row("a", 1)], verbs(&[]), vec![]).is_err());
    let e = CapStore::rebuild_pools(vec![row("a", 1)], verbs(&[]), vec![spend(), spend()])
        .unwrap_err();
    assert_eq!(e.message(), "corrupt: resource storage: overdrawn pool");
    let dead = CapStore::rebuild_pools(vec![row("a", 2)], verbs(&[]), vec![]);
    assert!(dead.unwrap().exercise("a", "v", 0).is_err());
}

#[test]
fn handles_are_fresh() {
    let a = Handle::mint();
    let b = Handle::mint();
    assert_ne!(a.0, b.0);
}

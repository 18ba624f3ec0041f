use portos_kernel::json::{Json, Num};
use portos_kernel::reconcile::{
    deal_with, load_pending_journal, probed_port, proc_alive, reconcile_substrate, tally, Behind,
    Dealt, Remnant, StoredEntry,
};
use portos_kernel::records::{JournalState, RevertGrade, Transport};
use portos_kernel::substrate::{CLASS_FILE_LOCK, CLASS_PLUGIN, CLASS_PORT, CLASS_PROCESS};

fn record(fields: &[(&str, u64)]) -> Json {
    Json::Object(
        fields.iter().map(|(k, n)| (k.to_string(), Json::Number(Num::Nat(*n)))).collect(),
    )
}

fn behind(id: u64, class: &str, instance: &str, detail: Json) -> Behind {
    Behind { id, class: class.to_string(), instance: instance.to_string(), detail }
}

#[test]
fn processes_come_before_ports_and_ports_before_locks() {
    let rows = vec![
        behind(1, CLASS_FILE_LOCK, "/l", record(&[("owner_pid", 7), ("owner_start", 3)])),
        behind(2, CLASS_PORT, "udp:53", record(&[])),
        behind(3, CLASS_PLUGIN, "p", Json::Null),
        behind(4, CLASS_PROCESS, "x", record(&[("pid", 7), ("start", 3)])),
        behind(5, CLASS_FILE_LOCK, "/m", record(&[])),
    ];
    let steps = reconcile_substrate(&rows).unwrap();
    assert_eq!(
        steps,
        vec![
            Remnant::Process { id: 4, pid: 7, start: 3 },
            Remnant::Port { id: 2, transport: Transport::Udp, port: 53 },
            Remnant::Lock { id: 1, path: "/l".to_string(), owner: Some(7), owner_start: 3 },
            Remnant::Lock { id: 5, path: "/m".to_string(), owner: None, owner_start: 0 },
        ]
    );
    let dealt: Vec<Dealt> = vec![
        deal_with(&steps[0], Some(3), false),
        deal_with(&steps[1], None, false),
        deal_with(&steps[2], Some(3), false),
        deal_with(&steps[3], None, false),
    ];
    assert_eq!(dealt, vec![Dealt::Kill(7), Dealt::Bound, Dealt::Keep, Dealt::Remove]);
    let t = tally(&dealt);
    assert_eq!((t.process_killed, t.process_tombstoned), (1, 0));
    assert_eq!((t.ports_tombstoned, t.ports_still_bound), (1, 1));
    assert_eq!((t.locks_removed, t.locks_kept), (1, 1));
    assert_eq!(deal_with(&steps[0], Some(4), false), Dealt::Gone);
    assert_eq!(deal_with(&steps[1], None, true), Dealt::Free);
    assert_eq!(deal_with(&steps[2], None, false), Dealt::Remove);
}

#[test]
fn a_bad_record_stops_everything() {
    let rows = vec![
        behind(1, CLASS_PROCESS, "x", record(&[("pid", 7), ("start", 3)])),
        behind(2, CLASS_PROCESS, "x", record(&[("pid", 0), ("start", 3)])),
        behind(3, CLASS_PORT, "x", Json::Null),
    ];
    let e = reconcile_substrate(&rows).unwrap_err();
    assert!(e.message().contains("substrate.pid out of range"));
}

#[test]
fn ports_are_named_by_what_follows_the_last_colon() {
    assert_eq!(probed_port("tcp:80"), (Transport::Tcp, 80));
    assert_eq!(probed_port("udp:65535"), (Transport::Udp, 65535));
    assert_eq!(probed_port("a:udp:9"), (Transport::Tcp, 9));
    assert_eq!(probed_port("udp:65536"), (Transport::Udp, 0));
    assert_eq!(probed_port("80"), (Transport::Tcp, 0));
}

#[test]
fn a_start_of_zero_stands_for_any() {
    assert!(proc_alive(5, 0, Some(9)));
    assert!(proc_alive(5, 9, Some(9)));
    assert!(!proc_alive(5, 8, Some(9)));
    assert!(!proc_alive(5, 0, None));
    assert!(!proc_alive(0, 0, Some(9)));
}

#[test]
fn open_entries_of_some_holdings_are_loaded() {
    let entry = |id: i64, grade: &str| StoredEntry {
        holding_id: id,
        grade: grade.to_string(),
        idem_key: format!("k{id}"),
    };
    let rows = vec![entry(3, "external"), entry(1, "inverse"), entry(9, "strange")];
    let es = load_pending_journal(&rows, &vec![1, 3]).unwrap();
    let seen: Vec<(u64, RevertGrade, &str)> =
        es.iter().map(|e| (e.holding_id, e.grade, e.idem_key.as_str())).collect();
    assert_eq!(
        seen,
        vec![(3, RevertGrade::External, "k3"), (1, RevertGrade::Inverse, "k1")]
    );
    assert!(es.iter().all(|e| e.state == JournalState::Pending));
    let e = load_pending_journal(&rows, &vec![9]).unwrap_err();
    assert_eq!(e.message(), "corrupt: journal grade: strange");
    let e = load_pending_journal(&vec![entry(-1, "inverse")], &vec![]).unwrap_err();
    assert_eq!(e.message(), "denied: ledger: identity out of range");
}

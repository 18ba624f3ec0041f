use portos_kernel::error::KernelError;
use portos_kernel::segments::{check_segments, migrate_plan_segments, RunRow, SegmentRow};

fn legacy(fiber: &str) -> Vec<RunRow> {
    vec![RunRow {
        run: "run_1".to_string(),
        plan: "hash".to_string(),
        fiber: fiber.to_string(),
    }]
}

#[test]
fn plan_segment_migration_is_atomic_and_only_interprets_known_legacy_records() {
    let c = legacy("plan:hash#run_1");
    let table = migrate_plan_segments(&c, None).unwrap();
    let table = migrate_plan_segments(&c, Some(table)).unwrap();
    assert_eq!(table.len(), 1);
    assert_eq!(table[0].subject, "plan:hash#run_1:seg");
    let malformed = legacy("unrelated:seg");
    assert!(matches!(migrate_plan_segments(&malformed, None), Err(KernelError::Corrupt(_))));
}

#[test]
fn missing_current_associations_are_not_reconstructed_from_labels() {
    let c = legacy("plan:hash#run_1");
    migrate_plan_segments(&c, None).unwrap();
    assert!(matches!(migrate_plan_segments(&c, Some(vec![])), Err(KernelError::Corrupt(_))));
}

#[test]
fn a_segment_is_neither_empty_nor_the_run_itself() {
    let c = legacy("plan:hash#run_1");
    for subject in ["", "plan:hash#run_1"] {
        let rows =
            vec![SegmentRow { run: "run_1".to_string(), subject: subject.to_string() }];
        assert!(check_segments(&c, &rows).is_err());
    }
    let stray = vec![
        SegmentRow { run: "run_1".to_string(), subject: "s".to_string() },
        SegmentRow { run: "run_2".to_string(), subject: "t".to_string() },
    ];
    let e = check_segments(&c, &stray).unwrap_err();
    assert_eq!(e.message(), "corrupt: invalid plan/segment association");
    let e = migrate_plan_segments(&legacy("x"), None).unwrap_err();
    assert_eq!(
        e.message(),
        "corrupt: cannot migrate segment for plan run run_1: unexpected subject"
    );
}

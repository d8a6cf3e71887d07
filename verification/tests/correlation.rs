use audit_pipeline::correlator::{
    Correlator, CorrelatorConfig, FinalizeReason, IngestOutcome,
};
use audit_pipeline::record::{AuditId, Record, RecordFields, RecordType};

fn rec(ty: RecordType, sequence: u64) -> Record {
    Record::new(
        ty,
        AuditId { seconds: 1000, millis: 0, sequence },
        RecordFields::empty(),
    )
}

fn config() -> CorrelatorConfig {
    CorrelatorConfig {
        idle_timeout: 2000,
        max_group_size: 100,
        max_groups: 100,
        terminators: vec![RecordType::Unknown("EOE".to_string())],
    }
}

fn eoe() -> RecordType {
    RecordType::Unknown("EOE".to_string())
}

#[test]
fn interleaved_groups_emit_one_event_in_order() {
    let mut c = Correlator::new(config());
    assert!(matches!(c.ingest(rec(RecordType::Syscall, 1), 0), IngestOutcome::Stored));
    assert!(matches!(c.ingest(rec(RecordType::Syscall, 2), 1), IngestOutcome::Stored));
    assert!(matches!(c.ingest(rec(RecordType::Path, 1), 2), IngestOutcome::Stored));
    assert!(matches!(c.ingest(rec(RecordType::Cwd, 2), 3), IngestOutcome::Stored));
    assert_eq!(c.in_progress(), 2);
    match c.ingest(rec(eoe(), 1), 4) {
        IngestOutcome::Finalized(ev, reason) => {
            assert_eq!(reason, FinalizeReason::Terminator);
            assert_eq!(ev.audit_id.sequence, 1);
            assert_eq!(ev.first_seen, 0);
            let types: Vec<RecordType> =
                ev.records.iter().map(|r| r.record_type.clone()).collect();
            assert_eq!(types, vec![RecordType::Syscall, RecordType::Path, eoe()]);
        },
        other => panic!("expected finalize, got {:?}", other),
    }
    // the other group is untouched and still in progress
    assert_eq!(c.in_progress(), 1);
}

#[test]
fn known_variant_terminator_works_too() {
    let mut c = Correlator::new(CorrelatorConfig {
        terminators: vec![RecordType::Proctitle],
        ..config()
    });
    assert!(matches!(c.ingest(rec(RecordType::Syscall, 5), 0), IngestOutcome::Stored));
    match c.ingest(rec(RecordType::Proctitle, 5), 1) {
        IngestOutcome::Finalized(ev, FinalizeReason::Terminator) => {
            assert_eq!(ev.records.len(), 2);
        },
        other => panic!("expected terminator finalize, got {:?}", other),
    }
}

#[test]
fn max_group_size_finalizes_defensively() {
    let mut c = Correlator::new(CorrelatorConfig { max_group_size: 2, ..config() });
    assert!(matches!(c.ingest(rec(RecordType::Syscall, 7), 0), IngestOutcome::Stored));
    match c.ingest(rec(RecordType::Path, 7), 1) {
        IngestOutcome::Finalized(ev, FinalizeReason::MaxSize) => {
            assert_eq!(ev.records.len(), 2);
        },
        other => panic!("expected max-size finalize, got {:?}", other),
    }
    assert_eq!(c.in_progress(), 0);
}

#[test]
fn lone_terminator_is_a_complete_single_record_event() {
    let mut c = Correlator::new(config());
    match c.ingest(rec(eoe(), 9), 0) {
        IngestOutcome::Finalized(ev, FinalizeReason::Terminator) => {
            assert_eq!(ev.records.len(), 1);
        },
        other => panic!("expected finalize, got {:?}", other),
    }
    assert_eq!(c.in_progress(), 0);
}

#[test]
fn idle_sweep_expires_only_overdue_groups() {
    let mut c = Correlator::new(config());
    assert!(matches!(c.ingest(rec(RecordType::Syscall, 1), 0), IngestOutcome::Stored));
    assert!(c.sweep(1999).is_empty());
    assert_eq!(c.in_progress(), 1);
    // a second record refreshes the group's idle clock
    assert!(matches!(c.ingest(rec(RecordType::Path, 1), 1500), IngestOutcome::Stored));
    assert!(c.sweep(3499).is_empty());
    let expired = c.sweep(3500);
    assert_eq!(expired.len(), 1);
    assert_eq!(expired[0].first_seen, 0);
    assert_eq!(expired[0].records.len(), 2);
    assert_eq!(c.in_progress(), 0);
}

#[test]
fn saturated_table_hands_the_record_back() {
    let mut c = Correlator::new(CorrelatorConfig { max_groups: 2, ..config() });
    assert!(matches!(c.ingest(rec(RecordType::Syscall, 1), 0), IngestOutcome::Stored));
    assert!(matches!(c.ingest(rec(RecordType::Syscall, 2), 1), IngestOutcome::Stored));
    match c.ingest(rec(RecordType::Syscall, 3), 2) {
        IngestOutcome::Saturated(r) => assert_eq!(r.audit_id.sequence, 3),
        other => panic!("expected saturation, got {:?}", other),
    }
    assert_eq!(c.in_progress(), 2);
    // a record for an existing group is still absorbed at capacity
    assert!(matches!(c.ingest(rec(RecordType::Path, 1), 3), IngestOutcome::Stored));
    assert_eq!(c.in_progress(), 2);
}

#[test]
fn late_arrival_starts_a_fresh_group() {
    let mut c = Correlator::new(config());
    assert!(matches!(c.ingest(rec(RecordType::Syscall, 4), 0), IngestOutcome::Stored));
    assert!(matches!(
        c.ingest(rec(eoe(), 4), 1),
        IngestOutcome::Finalized(_, FinalizeReason::Terminator)
    ));
    assert_eq!(c.in_progress(), 0);
    // same audit id again: a new, separate, single-record group
    assert!(matches!(c.ingest(rec(RecordType::Proctitle, 4), 2), IngestOutcome::Stored));
    assert_eq!(c.in_progress(), 1);
    let expired = c.sweep(u64::MAX);
    assert_eq!(expired.len(), 1);
    assert_eq!(expired[0].records.len(), 1);
    assert_eq!(expired[0].records[0].record_type, RecordType::Proctitle);
    assert_eq!(expired[0].first_seen, 2);
}

use audit_pipeline::replay::{
    extract_timestamp, LogReplayer, ReplayStep, ReplayTiming,
};

fn captured_log() -> Vec<String> {
    vec![
        "no timestamp here".to_string(),
        "type=SYSCALL msg=audit(100.0:1) a=b".to_string(),
        "type=PATH msg=audit(102.0:2) a=b".to_string(),
        "type=CWD msg=audit(105.0:3) a=b".to_string(),
    ]
}

#[test]
fn extract_timestamp_reads_the_seconds() {
    assert_eq!(extract_timestamp("type=X msg=audit(1234.567:89)"), Some(1234));
    assert_eq!(extract_timestamp("nothing to see"), None);
    assert_eq!(extract_timestamp("msg=audit(abc.1:2)"), None);
    assert_eq!(extract_timestamp("msg=audit(123)"), None);
}

#[test]
fn schedule_keeps_relative_offsets() {
    let r = LogReplayer::from_lines(&captured_log());
    let offsets: Vec<u64> = r.logs.iter().map(|p| p.0).collect();
    assert_eq!(offsets, vec![0, 2000, 5000]);
}

#[test]
fn out_of_order_timestamps_clamp_to_zero() {
    let lines = vec![
        "msg=audit(50.0:1)".to_string(),
        "msg=audit(40.0:2)".to_string(),
    ];
    let r = LogReplayer::from_lines(&lines);
    let offsets: Vec<u64> = r.logs.iter().map(|p| p.0).collect();
    assert_eq!(offsets, vec![0, 0]);
}

#[test]
fn original_timing_delivers_at_recorded_offsets() {
    let mut r = LogReplayer::from_lines(&captured_log());
    r.start();
    match r.step(0) {
        ReplayStep::Deliver(m) => assert_eq!(m, "type=SYSCALL msg=audit(100.0:1) a=b"),
        other => panic!("expected delivery, got {:?}", other),
    }
    assert!(matches!(r.step(0), ReplayStep::Sleep(2000)));
    assert!(matches!(r.step(1999), ReplayStep::Sleep(1)));
    assert!(matches!(r.step(2000), ReplayStep::Deliver(_)));
    assert!(matches!(r.step(3000), ReplayStep::Sleep(2000)));
    assert!(matches!(r.step(5100), ReplayStep::Deliver(_)));
    assert!(matches!(r.step(5100), ReplayStep::Finished));
}

#[test]
fn fast_timing_delivers_everything_at_once() {
    let mut r = LogReplayer::from_lines(&captured_log());
    r.start_fast();
    assert!(matches!(r.step(0), ReplayStep::Deliver(_)));
    assert!(matches!(r.step(0), ReplayStep::Deliver(_)));
    assert!(matches!(r.step(0), ReplayStep::Deliver(_)));
    assert!(matches!(r.step(0), ReplayStep::Finished));
}

#[test]
fn burst_timing_spaces_messages_by_a_fixed_interval() {
    let mut r = LogReplayer::from_lines(&captured_log());
    r.start_with_timing(ReplayTiming::Burst(10));
    assert!(matches!(r.step(0), ReplayStep::Deliver(_)));
    assert!(matches!(r.step(5), ReplayStep::Sleep(5)));
    assert!(matches!(r.step(10), ReplayStep::Deliver(_)));
    assert!(matches!(r.step(25), ReplayStep::Deliver(_)));
    assert!(matches!(r.step(25), ReplayStep::Finished));
}

#[test]
fn restarting_rewinds_the_schedule() {
    let mut r = LogReplayer::from_lines(&captured_log());
    r.start_fast();
    assert!(matches!(r.step(0), ReplayStep::Deliver(_)));
    r.start_with_timing(ReplayTiming::Fast);
    match r.step(0) {
        ReplayStep::Deliver(m) => assert_eq!(m, "type=SYSCALL msg=audit(100.0:1) a=b"),
        other => panic!("expected delivery, got {:?}", other),
    }
}

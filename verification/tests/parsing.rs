use audit_pipeline::parser::{parse_audit_record, ParseError};
use audit_pipeline::record::{AuditId, RecordType};

#[test]
fn parse_well_formed_line() {
    let line = "type=SYSCALL msg=audit(1234.567:89) arch=c000003e success=yes";
    let rec = parse_audit_record(line).unwrap();
    assert_eq!(rec.record_type, RecordType::Syscall);
    assert_eq!(rec.audit_id, AuditId { seconds: 1234, millis: 567, sequence: 89 });
    assert_eq!(
        rec.fields.fields,
        vec![
            ("arch".to_string(), "c000003e".to_string()),
            ("success".to_string(), "yes".to_string()),
        ]
    );
}

#[test]
fn quoted_value_is_one_field() {
    let line = "type=USER_CMD msg=audit(10.20:30) cmd=\"ls -la /tmp\"";
    let rec = parse_audit_record(line).unwrap();
    assert_eq!(rec.fields.fields, vec![("cmd".to_string(), "ls -la /tmp".to_string())]);
}

#[test]
fn unknown_type_still_parses() {
    let rec = parse_audit_record("type=WEIRD_NEW_THING msg=audit(1.2:3)").unwrap();
    assert_eq!(rec.record_type, RecordType::Unknown("WEIRD_NEW_THING".to_string()));
    assert_eq!(rec.audit_id, AuditId { seconds: 1, millis: 2, sequence: 3 });
}

#[test]
fn missing_type_maps_to_empty_unknown() {
    let rec = parse_audit_record("msg=audit(1.2:3) x=y").unwrap();
    assert_eq!(rec.record_type, RecordType::Unknown(String::new()));
    assert_eq!(rec.fields.fields, vec![("x".to_string(), "y".to_string())]);
}

#[test]
fn first_msg_and_type_win_and_are_promoted() {
    let rec = parse_audit_record("type=CWD msg=audit(1.2:3) type=PATH msg=audit(4.5:6)").unwrap();
    assert_eq!(rec.record_type, RecordType::Cwd);
    assert_eq!(rec.audit_id, AuditId { seconds: 1, millis: 2, sequence: 3 });
    assert!(rec.fields.fields.is_empty());
}

#[test]
fn empty_line_is_rejected() {
    assert_eq!(parse_audit_record("").unwrap_err(), ParseError::EmptyLine);
    assert_eq!(parse_audit_record("   ").unwrap_err(), ParseError::EmptyLine);
}

#[test]
fn missing_audit_id_is_rejected() {
    assert_eq!(parse_audit_record("type=SYSCALL foo=bar").unwrap_err(), ParseError::MissingAuditId);
    assert_eq!(parse_audit_record("type=SYSCALL msg=audit(12:34)").unwrap_err(), ParseError::MissingAuditId);
    assert_eq!(parse_audit_record("type=SYSCALL msg=noaudit").unwrap_err(), ParseError::MissingAuditId);
}

#[test]
fn audit_numbers_must_fit() {
    // seconds beyond u64
    assert_eq!(parse_audit_record("type=CWD msg=audit(99999999999999999999.1:2)").unwrap_err(), ParseError::MissingAuditId);
    // milliseconds beyond u32
    assert_eq!(parse_audit_record("type=CWD msg=audit(1.5000000000:2)").unwrap_err(), ParseError::MissingAuditId);
    // largest representable triple parses
    let rec = parse_audit_record(
        "type=CWD msg=audit(18446744073709551615.4294967295:18446744073709551615)",
    )
    .unwrap();
    assert_eq!(rec.audit_id.seconds, u64::MAX);
    assert_eq!(rec.audit_id.millis, u32::MAX);
    assert_eq!(rec.audit_id.sequence, u64::MAX);
}

#[test]
fn malformed_token_reports_offset() {
    assert_eq!(parse_audit_record("type=SYSCALL bogus").unwrap_err(), ParseError::MalformedKeyValue(13));
    // unterminated quote
    assert_eq!(parse_audit_record("a=\"bc").unwrap_err(), ParseError::MalformedKeyValue(0));
    // trailing garbage after the closing quote
    assert_eq!(parse_audit_record("a=\"b\"c").unwrap_err(), ParseError::MalformedKeyValue(0));
}

#[test]
fn empty_values_are_kept_verbatim() {
    let rec = parse_audit_record("type=CWD msg=audit(1.2:3) empty= q=\"\"").unwrap();
    assert_eq!(
        rec.fields.fields,
        vec![
            ("empty".to_string(), String::new()),
            ("q".to_string(), String::new()),
        ]
    );
}

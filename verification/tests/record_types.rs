use audit_pipeline::record::{AuditId, Record, RecordFields, RecordType};

#[test]
fn test_string_to_enum() {
    assert_eq!(RecordType::from_str("SYSCALL").unwrap(), RecordType::Syscall);
    assert_eq!(RecordType::from_str("NETFILTER_CFG").unwrap(), RecordType::NetfilterCfg);
    assert_eq!(RecordType::from_str("CRED_DISP").unwrap(), RecordType::CredDisp);
    assert_eq!(RecordType::from_str("CRYPTO_KEY_USER").unwrap(), RecordType::CryptoKeyUser);
}

#[test]
fn from_str_rejects_unknown_strings() {
    assert!(RecordType::from_str("NOT_A_TYPE").is_err());
    assert!(RecordType::from_str("").is_err());
    assert!(RecordType::from_str("syscall").is_err());
}

#[test]
fn resolve_falls_back_to_unknown() {
    assert_eq!(RecordType::resolve("PATH"), RecordType::Path);
    assert_eq!(
        RecordType::resolve("SOMETHING_NEW"),
        RecordType::Unknown("SOMETHING_NEW".to_string())
    );
}

#[test]
fn record_new_keeps_parts() {
    let id = AuditId { seconds: 7, millis: 8, sequence: 9 };
    let mut fields = RecordFields::empty();
    fields.push("key".to_string(), "value".to_string());
    let rec = Record::new(RecordType::Cwd, id, fields);
    assert_eq!(rec.record_type, RecordType::Cwd);
    assert_eq!(rec.audit_id, id);
    assert_eq!(rec.fields.fields, vec![("key".to_string(), "value".to_string())]);
}

#[test]
fn fields_get_returns_first_match() {
    let mut fields = RecordFields::empty();
    fields.push("a".to_string(), "1".to_string());
    fields.push("b".to_string(), "2".to_string());
    fields.push("a".to_string(), "3".to_string());
    assert_eq!(fields.len(), 3);
    assert_eq!(fields.get("a"), Some(&"1".to_string()));
    assert_eq!(fields.get("b"), Some(&"2".to_string()));
    assert_eq!(fields.get("c"), None);
}

use agent_api::compliance::{
    compliance_alert_run_scope, parse_siem_outbox_status, plan_compliance_policy_update,
    run_id_of_scope, verify_tamper_chain, ChainRow, PolicyUpdateRequest, SiemAdapter,
};

fn row(id: u128, seq: Option<i64>, prev: Option<&str>, hash: &str) -> ChainRow {
    ChainRow {
        event_id: id,
        chain_seq: seq,
        prev_hash: prev.map(|p| p.to_string()),
        hash: hash.to_string(),
    }
}

fn sound_chain() -> Vec<ChainRow> {
    vec![
        row(1, Some(1), None, "h1"),
        row(2, Some(2), Some("h1"), "h2"),
        row(3, Some(3), Some("h2"), "h3"),
    ]
}

#[test]
fn a_sound_chain_verifies() {
    let v = verify_tamper_chain(&sound_chain());
    assert_eq!(v.checked_events, 3);
    assert!(v.verified);
    assert_eq!(v.first_invalid_event_id, None);
    assert_eq!(v.latest_chain_seq, Some(3));
    assert_eq!(v.latest_tamper_hash.as_deref(), Some("h3"));
}

#[test]
fn an_empty_chain_verifies() {
    let v = verify_tamper_chain(&vec![]);
    assert_eq!(v.checked_events, 0);
    assert!(v.verified);
    assert_eq!(v.latest_chain_seq, None);
    assert_eq!(v.latest_tamper_hash, None);
}

#[test]
fn a_rewritten_hash_is_detected_at_the_next_row() {
    let mut rows = sound_chain();
    rows[0].hash = "forged".to_string();
    let v = verify_tamper_chain(&rows);
    assert!(!v.verified);
    assert_eq!(v.first_invalid_event_id, Some(2));
}

#[test]
fn a_removed_row_is_detected() {
    let mut rows = sound_chain();
    rows.remove(1);
    let v = verify_tamper_chain(&rows);
    assert!(!v.verified);
    assert_eq!(v.first_invalid_event_id, Some(3));
    assert_eq!(v.latest_chain_seq, Some(3));
}

#[test]
fn blank_hashes_and_missing_sequence_numbers_are_invalid() {
    let rows = vec![row(7, Some(1), Some(""), "  "), row(8, None, Some("  "), "h")];
    let v = verify_tamper_chain(&rows);
    assert_eq!(v.first_invalid_event_id, Some(7));
    assert_eq!(v.latest_chain_seq, Some(1));
    assert_eq!(v.latest_tamper_hash.as_deref(), Some("h"));
}

#[test]
fn siem_adapters_parse_and_round_trip() {
    assert_eq!(SiemAdapter::parse(None).unwrap(), SiemAdapter::SecureAgntNdjson);
    assert_eq!(SiemAdapter::parse(Some("  ")).unwrap(), SiemAdapter::SecureAgntNdjson);
    assert_eq!(SiemAdapter::parse(Some(" NDJSON ")).unwrap(), SiemAdapter::SecureAgntNdjson);
    assert_eq!(SiemAdapter::parse(Some("Splunk_HEC")).unwrap(), SiemAdapter::SplunkHec);
    for a in [SiemAdapter::SecureAgntNdjson, SiemAdapter::SplunkHec, SiemAdapter::ElasticBulk] {
        assert_eq!(SiemAdapter::parse(Some(a.as_str())).unwrap(), a);
    }
    assert_eq!(
        SiemAdapter::parse(Some("syslog")).unwrap_err().message,
        "adapter must be one of: secureagnt_ndjson, splunk_hec, elastic_bulk"
    );
}

#[test]
fn outbox_status_filters() {
    assert_eq!(parse_siem_outbox_status(None).unwrap(), None);
    assert_eq!(parse_siem_outbox_status(Some(" ")).unwrap(), None);
    assert_eq!(parse_siem_outbox_status(Some(" dead_lettered ")).unwrap().as_deref(), Some("dead_lettered"));
    assert_eq!(
        parse_siem_outbox_status(Some("Pending")).unwrap_err().message,
        "status must be one of: pending, processing, failed, delivered, dead_lettered"
    );
}

#[test]
fn alert_run_scopes() {
    assert_eq!(compliance_alert_run_scope(None), "*");
    let scope = compliance_alert_run_scope(Some(0xabc));
    assert_eq!(scope, "00000000-0000-0000-0000-000000000abc");
    assert_eq!(run_id_of_scope(&scope), Some(0xabc));
    assert_eq!(run_id_of_scope("*"), None);
    assert_eq!(run_id_of_scope("garbage"), None);
}

fn policy(hot: Option<i32>, archive: Option<i32>, hold: Option<bool>, reason: Option<&str>) -> PolicyUpdateRequest {
    PolicyUpdateRequest {
        compliance_hot_retention_days: hot,
        compliance_archive_retention_days: archive,
        legal_hold: hold,
        legal_hold_reason: reason.map(|r| r.to_string()),
    }
}

#[test]
fn policy_updates_keep_hot_within_archive() {
    let p = plan_compliance_policy_update(&policy(Some(30), None, Some(true), Some(" audit ")), 7, 365, false).unwrap();
    assert_eq!((p.compliance_hot_retention_days, p.compliance_archive_retention_days, p.legal_hold), (30, 365, true));
    assert_eq!(p.legal_hold_reason.as_deref(), Some("audit"));
    let p = plan_compliance_policy_update(&policy(None, None, None, Some("  ")), 7, 365, true).unwrap();
    assert_eq!((p.compliance_hot_retention_days, p.legal_hold), (7, true));
    assert_eq!(p.legal_hold_reason, None);
}

#[test]
fn policy_update_errors() {
    let e = plan_compliance_policy_update(&policy(Some(0), None, None, None), 7, 365, false).unwrap_err();
    assert_eq!(e.message, "compliance_hot_retention_days must be greater than zero");
    let e = plan_compliance_policy_update(&policy(None, Some(-1), None, None), 7, 365, false).unwrap_err();
    assert_eq!(e.message, "compliance_archive_retention_days must be greater than zero");
    let e = plan_compliance_policy_update(&policy(Some(400), None, None, None), 7, 365, false).unwrap_err();
    assert_eq!(e.message, "compliance_archive_retention_days must be >= compliance_hot_retention_days");
}

use agent_api::alerts::{
    evaluate_delivery_alert, frame_ndjson, order_alerts, pending_rule_text, plan_alert_ack,
    plan_siem_delivery, plan_siem_export, select_alert_ack, siem_payload_lines, AckSource,
    AlertAckRequest, AlertRule, AlertSortKey, DeliveryTargetCounts, Severity, SiemDeliveryRequest,
};
use agent_api::compliance::SiemAdapter;

fn counts(target: &str, total: i64, pending: i64) -> DeliveryTargetCounts {
    DeliveryTargetCounts {
        delivery_target: target.to_string(),
        total_count: total,
        pending_count: pending,
        processing_count: 0,
        failed_count: 0,
        delivered_count: 0,
        dead_lettered_count: 0,
    }
}

fn delivery(target: &str) -> SiemDeliveryRequest {
    SiemDeliveryRequest {
        limit: None,
        run_id: None,
        event_type: None,
        adapter: None,
        elastic_index: None,
        delivery_target: target.to_string(),
        max_attempts: None,
    }
}

fn strings(v: &[&str]) -> Vec<String> {
    v.iter().map(|s| s.to_string()).collect()
}

#[test]
fn delivery_requests_get_defaults() {
    let p = plan_siem_delivery(&delivery("  https://siem.example ")).unwrap();
    assert_eq!(p.delivery_target, "https://siem.example");
    assert_eq!((p.limit, p.max_attempts), (500, 3));
    assert_eq!(p.adapter, SiemAdapter::SecureAgntNdjson);
    assert_eq!(p.elastic_index, "secureagnt-compliance-audit");
    assert_eq!(p.event_type, None);
}

#[test]
fn delivery_requests_are_clamped() {
    let mut r = delivery("t");
    r.limit = Some(5000);
    r.max_attempts = Some(0);
    r.elastic_index = Some(" audit-idx ".to_string());
    r.adapter = Some("elastic_bulk".to_string());
    r.event_type = Some(" run.created ".to_string());
    let p = plan_siem_delivery(&r).unwrap();
    assert_eq!((p.limit, p.max_attempts), (1000, 1));
    assert_eq!(p.elastic_index, "audit-idx");
    assert_eq!(p.adapter, SiemAdapter::ElasticBulk);
    assert_eq!(p.event_type.as_deref(), Some("run.created"));
    let mut r = delivery("t");
    r.limit = Some(-3);
    r.max_attempts = Some(99);
    let p = plan_siem_delivery(&r).unwrap();
    assert_eq!((p.limit, p.max_attempts), (1, 20));
}

#[test]
fn delivery_request_errors() {
    assert_eq!(plan_siem_delivery(&delivery("   ")).unwrap_err().message, "delivery_target must not be empty");
    let mut r = delivery("t");
    r.adapter = Some("csv".to_string());
    assert_eq!(plan_siem_delivery(&r).unwrap_err().status, 400);
}

#[test]
fn siem_export_plan() {
    let p = plan_siem_export(None, &None, &Some("splunk_hec".to_string()), &None).unwrap();
    assert_eq!((p.limit, p.adapter), (500, SiemAdapter::SplunkHec));
    assert_eq!(p.elastic_index, "secureagnt-compliance-audit");
    assert!(plan_siem_export(Some(2), &None, &Some("x".to_string()), &None).is_err());
}

#[test]
fn ndjson_framing_ends_every_line() {
    assert_eq!(frame_ndjson(&strings(&["{\"a\":1}", "{\"b\":2}"])), "{\"a\":1}\n{\"b\":2}\n");
    assert_eq!(frame_ndjson(&vec![]), "");
}

#[test]
fn elastic_payload_puts_each_action_before_its_record() {
    let lines = siem_payload_lines(SiemAdapter::ElasticBulk, &strings(&["r1", "r2"]), &strings(&["a1", "a2"]));
    assert_eq!(lines, strings(&["a1", "r1", "a2", "r2"]));
    let lines = siem_payload_lines(SiemAdapter::SplunkHec, &strings(&["r1"]), &vec![]);
    assert_eq!(lines, strings(&["r1"]));
}

#[test]
fn quiet_targets_raise_no_alert() {
    assert!(evaluate_delivery_alert(&counts("t", 10, 0), 0, false, false).is_none());
    // rates are only defined for targets with deliveries
    assert!(evaluate_delivery_alert(&counts("t", 0, 0), 0, true, true).is_none());
}

#[test]
fn pending_backlog_is_a_warning() {
    let v = evaluate_delivery_alert(&counts("t", 10, 5), 2, false, false).unwrap();
    assert_eq!(v.rules, vec![AlertRule::PendingCount { pending: 5, max: 2 }]);
    assert_eq!(v.severity, Severity::Warning);
    assert_eq!(v.severity.as_str(), "warning");
    assert_eq!(pending_rule_text(5, 2), "pending_count 5 > 2");
    assert_eq!(pending_rule_text(-1, 0), "pending_count -1 > 0");
}

#[test]
fn failure_rates_are_critical() {
    let v = evaluate_delivery_alert(&counts("t", 10, 5), 2, true, true).unwrap();
    assert_eq!(
        v.rules,
        vec![AlertRule::PendingCount { pending: 5, max: 2 }, AlertRule::HardFailureRate, AlertRule::DeadLetterRate]
    );
    assert_eq!(v.severity, Severity::Critical);
    let v = evaluate_delivery_alert(&counts("t", 10, 0), 0, false, true).unwrap();
    assert_eq!(v.rules, vec![AlertRule::DeadLetterRate]);
    assert_eq!(v.severity.as_str(), "critical");
}

#[test]
fn scoped_acknowledgements_win_over_global_ones() {
    let scoped = strings(&["a", "b", "a"]);
    let global = strings(&["b", "c", "c"]);
    assert_eq!(select_alert_ack("a", "run-1", &scoped, &global), Some(AckSource::Scoped(2)));
    assert_eq!(select_alert_ack("b", "run-1", &scoped, &global), Some(AckSource::Scoped(1)));
    assert_eq!(select_alert_ack("c", "run-1", &scoped, &global), Some(AckSource::Global(1)));
    assert_eq!(select_alert_ack("c", "*", &scoped, &global), None);
    assert_eq!(select_alert_ack("d", "run-1", &scoped, &global), None);
}

fn key(severity: Severity, rules: usize, pending: i64, target: &str) -> AlertSortKey {
    AlertSortKey { severity, rule_count: rules, pending_count: pending, delivery_target: target.to_string() }
}

#[test]
fn alerts_are_listed_most_urgent_first() {
    let keys = vec![
        key(Severity::Warning, 1, 50, "w"),
        key(Severity::Critical, 1, 0, "b"),
        key(Severity::Critical, 2, 0, "z"),
        key(Severity::Critical, 1, 3, "c"),
        key(Severity::Critical, 1, 0, "a"),
        key(Severity::Critical, 1, 0, "a"),
    ];
    assert_eq!(order_alerts(&keys), vec![2, 3, 4, 5, 1, 0]);
    assert_eq!(order_alerts(&vec![]), Vec::<usize>::new());
}

#[test]
fn alert_targets_sort_by_code_point() {
    let keys = vec![
        key(Severity::Warning, 1, 1, "é"),
        key(Severity::Warning, 1, 1, "z"),
        key(Severity::Warning, 1, 1, "Z"),
        key(Severity::Warning, 1, 1, "za"),
    ];
    assert_eq!(order_alerts(&keys), vec![2, 1, 3, 0]);
}

#[test]
fn acknowledgements_need_a_user_and_a_target() {
    let req = AlertAckRequest { run_id: None, delivery_target: " t1 ".to_string(), note: Some("  looked ".to_string()) };
    let p = plan_alert_ack(Some(9), &req).unwrap();
    assert_eq!((p.acknowledged_by_user_id, p.run_scope.as_str(), p.delivery_target.as_str()), (9, "*", "t1"));
    assert_eq!(p.note.as_deref(), Some("looked"));
    let e = plan_alert_ack(None, &req).unwrap_err();
    assert_eq!((e.status, e.message.as_str()), (403, "x-user-id header is required to acknowledge compliance alerts"));
    let blank = AlertAckRequest { run_id: None, delivery_target: "  ".to_string(), note: None };
    assert_eq!(plan_alert_ack(Some(1), &blank).unwrap_err().message, "delivery_target cannot be empty");
}

#[test]
fn acknowledgement_notes_are_limited_to_2000_bytes() {
    let ok = AlertAckRequest { run_id: Some(1), delivery_target: "t".to_string(), note: Some("x".repeat(2000)) };
    let p = plan_alert_ack(Some(1), &ok).unwrap();
    assert_eq!(p.run_scope, "00000000-0000-0000-0000-000000000001");
    let long = AlertAckRequest { run_id: None, delivery_target: "t".to_string(), note: Some("ü".repeat(1001)) };
    assert_eq!(plan_alert_ack(Some(1), &long).unwrap_err().message, "note must be <= 2000 characters");
    let blank_note = AlertAckRequest { run_id: None, delivery_target: "t".to_string(), note: Some("   ".to_string()) };
    assert_eq!(plan_alert_ack(Some(1), &blank_note).unwrap().note, None);
}

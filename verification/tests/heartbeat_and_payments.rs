use agent_api::heartbeat::{
    candidate_outcome, check_materialize_request, ensure_heartbeat_apply_clean, heartbeat_schedule,
    materialize_trigger_actor, CandidateOutcome, CandidateStatus, HeartbeatCandidate,
    HeartbeatIntentKind, HeartbeatSchedule, MaterializeTally,
};
use agent_api::json::{JsonField, JsonValue};
use agent_api::payments::{
    classify_payment_error_code, derive_payment_ledger_fields, normalize_payment_outcome,
    plan_payment_ledger_query, plan_payment_summary_query,
};
use agent_api::roles::RolePreset;

fn candidate(kind: HeartbeatIntentKind) -> HeartbeatCandidate {
    HeartbeatCandidate {
        kind,
        recipe_id: "notify_v1".to_string(),
        interval_seconds: None,
        cron_expression: None,
        timezone: None,
        max_inflight_runs: 1,
        jitter_seconds: 0,
    }
}

#[test]
fn materialization_requires_approval_to_apply() {
    assert_eq!(check_materialize_request(false, false, None, None).unwrap(), 3);
    assert_eq!(check_materialize_request(true, true, Some(1), Some(20)).unwrap(), 20);
    assert_eq!(
        check_materialize_request(true, false, Some(1), None).unwrap_err().message,
        "heartbeat materialization requires approval_confirmed=true"
    );
    assert_eq!(
        check_materialize_request(true, true, None, None).unwrap_err().message,
        "heartbeat materialization requires x-user-id for approval attribution"
    );
    assert_eq!(
        check_materialize_request(false, false, None, Some(0)).unwrap_err().message,
        "cron_max_attempts must be between 1 and 20"
    );
}

#[test]
fn materialized_triggers_run_as_the_resolved_actor() {
    assert_eq!(materialize_trigger_actor(false, RolePreset::Viewer, None, Some(9)).unwrap(), None);
    assert_eq!(materialize_trigger_actor(true, RolePreset::Operator, Some(4), None).unwrap(), Some(4));
    assert!(materialize_trigger_actor(true, RolePreset::Viewer, Some(4), None).is_err());
    assert!(ensure_heartbeat_apply_clean(false, 3).is_ok());
    assert_eq!(
        ensure_heartbeat_apply_clean(true, 1).unwrap_err().message,
        "heartbeat compile produced issues; resolve issues before apply"
    );
}

#[test]
fn heartbeat_schedules() {
    let mut c = candidate(HeartbeatIntentKind::Interval);
    assert_eq!(heartbeat_schedule(&c).unwrap_err().message, "heartbeat interval candidate missing interval seconds");
    c.interval_seconds = Some(300);
    assert!(matches!(heartbeat_schedule(&c).unwrap(), HeartbeatSchedule::Interval { interval_seconds: 300 }));
    let mut c = candidate(HeartbeatIntentKind::Cron);
    assert_eq!(heartbeat_schedule(&c).unwrap_err().message, "heartbeat cron candidate missing cron expression");
    c.cron_expression = Some("0 9 * * *".to_string());
    match heartbeat_schedule(&c).unwrap() {
        HeartbeatSchedule::Cron { cron_expression, timezone } => {
            assert_eq!(cron_expression, "0 9 * * *");
            assert_eq!(timezone, "UTC");
        }
        _ => panic!("expected a cron schedule"),
    }
    assert_eq!(HeartbeatIntentKind::Cron.as_str(), "cron");
}

#[test]
fn candidates_are_planned_reused_or_created_and_counted_once() {
    assert_eq!(candidate_outcome(false, Some(1)), CandidateOutcome::Planned);
    assert_eq!(candidate_outcome(true, Some(1)), CandidateOutcome::Existing(1));
    assert_eq!(candidate_outcome(true, None), CandidateOutcome::Create);
    let mut t = MaterializeTally::new();
    for s in [CandidateStatus::Created, CandidateStatus::Existing, CandidateStatus::Created] {
        t.record(s);
    }
    assert_eq!((t.planned_count, t.created_count, t.existing_count), (0, 2, 1));
    assert_eq!(CandidateStatus::Existing.as_str(), "existing");
}

#[test]
fn payment_outcomes() {
    assert_eq!(normalize_payment_outcome("duplicate", Some("executed")), "duplicate");
    assert_eq!(normalize_payment_outcome("requested", Some("executed")), "executed");
    assert_eq!(normalize_payment_outcome("requested", Some("weird")), "unknown");
    assert_eq!(normalize_payment_outcome("requested", None), "requested");
    assert_eq!(normalize_payment_outcome("pending", None), "unknown");
}

#[test]
fn payment_error_classes() {
    assert_eq!(classify_payment_error_code("NWC_BUDGET_EXCEEDED"), "budget_limit");
    assert_eq!(classify_payment_error_code("APPROVAL_REQUIRED"), "approval_required");
    assert_eq!(classify_payment_error_code("CASHU_MINTS_NOT_CONFIGURED"), "configuration");
    assert_eq!(classify_payment_error_code("NWC_HTTP_DISABLED"), "disabled");
    assert_eq!(classify_payment_error_code("RESPONSE_ERROR"), "upstream_failure");
    assert_eq!(classify_payment_error_code("BUDGET_EXCEEDED_AND_DISABLED"), "budget_limit");
    assert_eq!(classify_payment_error_code("oops"), "unknown");
}

fn obj(fields: Vec<(&str, &str)>) -> JsonValue {
    JsonValue::Object(
        fields
            .into_iter()
            .map(|(k, v)| JsonField { key: k.to_string(), value: JsonValue::Str(v.to_string()) })
            .collect(),
    )
}

#[test]
fn ledger_fields() {
    let d = derive_payment_ledger_fields(
        "nwc",
        "requested",
        Some("failed"),
        &Some(obj(vec![("settlement_status", "settled")])),
        &Some(obj(vec![("code", "NWC_REQUEST_FAILED")])),
    );
    assert_eq!(d.settlement_status.as_deref(), Some("settled"));
    assert_eq!(d.settlement_rail, "nwc");
    assert_eq!(d.normalized_outcome, "failed");
    assert_eq!(d.normalized_error_code.as_deref(), Some("NWC_REQUEST_FAILED"));
    assert_eq!(d.normalized_error_class.as_deref(), Some("upstream_failure"));
    let d = derive_payment_ledger_fields("nwc", "executed", None, &Some(obj(vec![("rail", "lightning")])), &None);
    assert_eq!(d.settlement_rail, "lightning");
    assert_eq!(d.normalized_error_class, None);
}

#[test]
fn payment_queries() {
    let q = plan_payment_ledger_query(Some(9999), Some(" executed "), Some(" "), None);
    assert_eq!((q.limit, q.status.as_deref(), q.destination.as_deref()), (500, Some("executed"), None));
    let s = plan_payment_summary_query(Some(0), Some(" pay_invoice ")).unwrap();
    assert_eq!((s.window_secs, s.operation.as_deref()), (Some(1), Some("pay_invoice")));
    assert_eq!(plan_payment_summary_query(None, None).unwrap().window_secs, None);
    assert_eq!(
        plan_payment_summary_query(None, Some("refund")).unwrap_err().message,
        "operation must be one of: pay_invoice, make_invoice, get_balance"
    );
}

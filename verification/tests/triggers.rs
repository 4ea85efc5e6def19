use agent_api::headers::HeaderValue;
use agent_api::json::{get_field, str_field_of, JsonField, JsonValue};
use agent_api::triggers::{
    check_event_target, check_update_compatibility, default_trigger_max_attempts,
    default_trigger_max_inflight_runs, default_trigger_timezone, ensure_trigger_enabled,
    event_intake_status, manual_fire_answer, manual_fire_run_input,
    map_trigger_enqueue_unavailable_reason, merge_trigger_update, normalize_webhook_secret_ref,
    replay_trigger_event_outcome, validate_cron_trigger_request, validate_fire_request,
    validate_interval_trigger_request, validate_trigger_event_request, validate_update_request,
    validate_webhook_trigger_request, EnqueueUnavailableReason, ManualFireOutcome, TriggerConfig,
    UpdateTriggerRequest,
};

fn empty_update() -> UpdateTriggerRequest {
    UpdateTriggerRequest {
        interval_seconds: None,
        cron_expression: None,
        schedule_timezone: None,
        misfire_policy: None,
        max_attempts: None,
        max_inflight_runs: None,
        jitter_seconds: None,
        webhook_secret_ref: None,
    }
}

fn config() -> TriggerConfig {
    TriggerConfig {
        interval_seconds: Some(60),
        cron_expression: None,
        schedule_timezone: "UTC".to_string(),
        misfire_policy: "fire_now".to_string(),
        max_attempts: 3,
        max_inflight_runs: 1,
        jitter_seconds: 0,
        webhook_secret_ref: Some("vault:old".to_string()),
    }
}

fn msg<T: std::fmt::Debug>(r: Result<T, agent_api::error::ApiError>) -> String {
    r.unwrap_err().message
}

#[test]
fn trigger_defaults() {
    assert_eq!(default_trigger_max_attempts(), 3);
    assert_eq!(default_trigger_max_inflight_runs(), 1);
    assert_eq!(default_trigger_timezone(), "UTC");
}

#[test]
fn interval_trigger_bounds() {
    assert!(validate_interval_trigger_request(60, 1, 0).is_ok());
    assert!(validate_interval_trigger_request(31_536_000, 1000, 3600).is_ok());
    assert_eq!(msg(validate_interval_trigger_request(0, 1, 0)), "interval_seconds must be greater than zero");
    assert_eq!(msg(validate_interval_trigger_request(31_536_001, 1, 0)), "interval_seconds exceeds maximum of 31536000");
    assert_eq!(msg(validate_interval_trigger_request(60, 0, 0)), "max_inflight_runs must be between 1 and 1000");
    assert_eq!(msg(validate_interval_trigger_request(60, 1, 3601)), "jitter_seconds must be between 0 and 3600");
}

#[test]
fn cron_trigger_bounds() {
    assert!(validate_cron_trigger_request("0 * * * *", "UTC", 3, 1, 0).is_ok());
    assert_eq!(msg(validate_cron_trigger_request("  ", "UTC", 3, 1, 0)), "cron_expression must not be empty");
    assert_eq!(msg(validate_cron_trigger_request("x", "", 3, 1, 0)), "schedule_timezone must not be empty");
    assert_eq!(msg(validate_cron_trigger_request("x", "UTC", 21, 1, 0)), "max_attempts must be between 1 and 20");
}

#[test]
fn webhook_trigger_bounds_and_secret() {
    assert!(validate_webhook_trigger_request(20, 1000, 0).is_ok());
    assert_eq!(msg(validate_webhook_trigger_request(0, 1, 0)), "max_attempts must be between 1 and 20");
    assert_eq!(msg(validate_webhook_trigger_request(1, 1, -1)), "jitter_seconds must be between 0 and 3600");
    assert_eq!(normalize_webhook_secret_ref(Some(" env:HOOK ")), Some("env:HOOK".to_string()));
    assert_eq!(normalize_webhook_secret_ref(Some("   ")), None);
}

#[test]
fn update_request_bounds() {
    assert!(validate_update_request(&empty_update()).is_ok());
    let mut r = empty_update();
    r.misfire_policy = Some("later".to_string());
    assert_eq!(msg(validate_update_request(&r)), "misfire_policy must be one of: fire_now, skip");
    let mut r = empty_update();
    r.interval_seconds = Some(0);
    assert_eq!(msg(validate_update_request(&r)), "interval_seconds must be between 1 and 31536000");
    let mut r = empty_update();
    r.cron_expression = Some(" ".to_string());
    assert_eq!(msg(validate_update_request(&r)), "cron_expression must not be empty");
}

#[test]
fn update_fields_must_fit_the_trigger_type() {
    let mut r = empty_update();
    r.cron_expression = Some("0 * * * *".to_string());
    assert_eq!(msg(check_update_compatibility("interval", &r)), "interval trigger does not support cron schedule fields");
    assert_eq!(msg(check_update_compatibility("webhook", &r)), "webhook trigger does not support schedule fields");
    assert!(check_update_compatibility("cron", &r).is_ok());
    let mut r = empty_update();
    r.interval_seconds = Some(5);
    assert_eq!(msg(check_update_compatibility("cron", &r)), "cron trigger does not support interval_seconds");
    assert!(check_update_compatibility("something_else", &r).is_ok());
}

#[test]
fn an_empty_update_keeps_the_trigger() {
    let merged = merge_trigger_update(&empty_update(), config());
    assert_eq!(merged.interval_seconds, Some(60));
    assert_eq!(merged.schedule_timezone, "UTC");
    assert_eq!(merged.misfire_policy, "fire_now");
    assert_eq!(merged.webhook_secret_ref.as_deref(), Some("vault:old"));
    assert_eq!((merged.max_attempts, merged.max_inflight_runs, merged.jitter_seconds), (3, 1, 0));
}

#[test]
fn an_update_replaces_what_it_names() {
    let mut r = empty_update();
    r.schedule_timezone = Some("  Europe/Paris ".to_string());
    r.max_attempts = Some(7);
    r.webhook_secret_ref = Some("   ".to_string());
    let merged = merge_trigger_update(&r, config());
    assert_eq!(merged.schedule_timezone, "Europe/Paris");
    assert_eq!(merged.max_attempts, 7);
    assert_eq!(merged.webhook_secret_ref.as_deref(), Some("vault:old"));
    let twice = merge_trigger_update(&r, merged);
    assert_eq!(twice.schedule_timezone, "Europe/Paris");
    assert_eq!(twice.max_attempts, 7);
}

#[test]
fn fire_requests_need_a_short_key() {
    assert_eq!(validate_fire_request("  k1 ").unwrap(), "k1");
    assert_eq!(msg(validate_fire_request("   ")), "idempotency_key must not be empty");
    assert_eq!(validate_fire_request(&"a".repeat(128)).unwrap().len(), 128);
    assert_eq!(msg(validate_fire_request(&"a".repeat(129))), "idempotency_key exceeds maximum length of 128");
    assert_eq!(msg(validate_fire_request(&"é".repeat(65))), "idempotency_key exceeds maximum length of 128");
}

#[test]
fn only_enabled_triggers_fire() {
    assert!(ensure_trigger_enabled("enabled", false).is_ok());
    assert_eq!(msg(ensure_trigger_enabled("enabled", true)), "trigger is not enabled");
    assert_eq!(ensure_trigger_enabled("disabled", false).unwrap_err().status, 409);
}

#[test]
fn enqueue_failures_map_to_errors() {
    let e = map_trigger_enqueue_unavailable_reason(EnqueueUnavailableReason::TriggerNotFound);
    assert_eq!((e.status, e.message.as_str()), (404, "trigger not found"));
    let e = map_trigger_enqueue_unavailable_reason(EnqueueUnavailableReason::TriggerScheduleBroken);
    assert_eq!((e.status, e.message.as_str()), (409, "trigger is not enabled"));
    let e = map_trigger_enqueue_unavailable_reason(EnqueueUnavailableReason::TriggerTypeMismatch);
    assert_eq!((e.status, e.message.as_str()), (400, "trigger does not accept webhook events"));
    let e = map_trigger_enqueue_unavailable_reason(EnqueueUnavailableReason::PayloadMalformed);
    assert_eq!(e.message, "trigger event payload must be a JSON object");
}

#[test]
fn trigger_events_need_an_id_and_an_object() {
    assert!(validate_trigger_event_request("e1", &JsonValue::Object(vec![])).is_ok());
    assert_eq!(msg(validate_trigger_event_request(" ", &JsonValue::Object(vec![]))), "event_id must not be empty");
    assert_eq!(msg(validate_trigger_event_request("e1", &JsonValue::Null)), "trigger event payload must be a JSON object");
}

#[test]
fn event_targets_check_type_status_and_secret() {
    let t = HeaderValue::Text("s".to_string());
    assert!(check_event_target("webhook", "enabled", false, Some("s"), &t).is_ok());
    assert!(check_event_target("webhook", "enabled", false, None, &HeaderValue::Missing).is_ok());
    assert_eq!(msg(check_event_target("cron", "enabled", false, None, &t)), "trigger does not accept webhook events");
    assert_eq!(msg(check_event_target("webhook", "disabled", false, None, &t)), "trigger is not enabled");
    assert_eq!(msg(check_event_target("webhook", "enabled", false, Some("s"), &HeaderValue::Missing)), "missing x-trigger-secret header");
    let e = check_event_target("webhook", "enabled", false, Some("other"), &t).unwrap_err();
    assert_eq!((e.status, e.code.as_str()), (401, "UNAUTHORIZED"));
}

#[test]
fn event_intake_and_replay_outcomes() {
    assert_eq!(event_intake_status(0), "duplicate");
    assert_eq!(event_intake_status(1), "queued");
    assert_eq!(replay_trigger_event_outcome(1, None).unwrap(), "queued_for_replay");
    let e = replay_trigger_event_outcome(0, Some("processing")).unwrap_err();
    assert_eq!((e.status, e.code.as_str(), e.message.as_str()), (409, "TRIGGER_EVENT_NOT_REPLAYABLE", "trigger event cannot be replayed from status `processing`"));
    assert_eq!(replay_trigger_event_outcome(0, None).unwrap_err().status, 404);
}

#[test]
fn manual_fire_answers() {
    assert_eq!(manual_fire_answer(&ManualFireOutcome::Created).unwrap(), (202, "created"));
    assert_eq!(manual_fire_answer(&ManualFireOutcome::Duplicate).unwrap(), (200, "duplicate"));
    let e = manual_fire_answer(&ManualFireOutcome::InflightLimited).unwrap_err();
    assert_eq!((e.status, e.code.as_str()), (429, "TRIGGER_INFLIGHT_LIMITED"));
    assert_eq!(manual_fire_answer(&ManualFireOutcome::TriggerUnavailable).unwrap_err().status, 409);
}

#[test]
fn manual_fire_input_carries_the_envelope() {
    let input = JsonValue::Object(vec![JsonField { key: "a".to_string(), value: JsonValue::Bool(true) }]);
    let r = manual_fire_run_input(input, "t1", "k1", Some(JsonValue::Str("p".to_string())));
    assert!(matches!(get_field(&r, "a"), Some(JsonValue::Bool(true))));
    let env = get_field(&r, "_trigger").unwrap();
    assert_eq!(str_field_of(env, "type").as_deref(), Some("manual"));
    assert_eq!(str_field_of(env, "trigger_id").as_deref(), Some("t1"));
    assert_eq!(str_field_of(env, "idempotency_key").as_deref(), Some("k1"));
    assert_eq!(str_field_of(&r, "manual_payload").as_deref(), Some("p"));
    let wrapped = manual_fire_run_input(JsonValue::Str("raw".to_string()), "t1", "k1", None);
    assert_eq!(str_field_of(&wrapped, "input").as_deref(), Some("raw"));
    assert!(get_field(&wrapped, "_trigger").is_some());
}

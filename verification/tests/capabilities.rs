use agent_api::capability::{
    is_scope_allowed_for_capability, normalize_capability, normalize_memory_kind,
    parse_requested_capabilities, resolve_granted_capabilities, resolve_max_payload_bytes,
    resolve_recipe_capability_bundle, role_allows_capability, scope_within, GrantedCapability,
};
use agent_api::json::{JsonField, JsonNumber, JsonValue};
use agent_api::roles::RolePreset;

fn s(v: &str) -> JsonValue {
    JsonValue::Str(v.to_string())
}

fn obj(fields: Vec<(&str, JsonValue)>) -> JsonValue {
    JsonValue::Object(
        fields
            .into_iter()
            .map(|(k, v)| JsonField { key: k.to_string(), value: v })
            .collect(),
    )
}

fn num(n: u64) -> JsonValue {
    JsonValue::Number(JsonNumber::PosInt(n))
}

fn request(capability: &str, scope: &str, max: Option<u64>) -> JsonValue {
    let mut fields = vec![("capability", s(capability)), ("scope", s(scope))];
    if let Some(m) = max {
        fields.push(("limits", obj(vec![("max_payload_bytes", num(m))])));
    }
    obj(fields)
}

fn summary(grants: &[GrantedCapability]) -> Vec<(String, String, u64)> {
    grants
        .iter()
        .map(|g| (g.capability.clone(), g.scope.clone(), g.max_payload_bytes))
        .collect()
}

#[test]
fn capability_names_are_normalized() {
    assert_eq!(normalize_capability(" Object_Read "), Some("object.read"));
    assert_eq!(normalize_capability("LLM.INFER"), Some("llm.infer"));
    assert_eq!(normalize_capability("http_request"), Some("http.request"));
    assert_eq!(normalize_capability("shell"), None);
}

#[test]
fn memory_kinds_are_normalized() {
    assert_eq!(normalize_memory_kind(" Semantic"), Some("semantic"));
    assert_eq!(normalize_memory_kind("HANDOFF"), Some("handoff"));
    assert_eq!(normalize_memory_kind("episodic"), None);
}

#[test]
fn scopes_follow_the_capability_prefixes() {
    assert!(is_scope_allowed_for_capability("object.read", "podcasts/ep1"));
    assert!(!is_scope_allowed_for_capability("object.read", "shownotes/ep1"));
    assert!(is_scope_allowed_for_capability("message.send", "slack:ops"));
    assert!(is_scope_allowed_for_capability("payment.send", "cashu:mint"));
    assert!(!is_scope_allowed_for_capability("memory.read", "memory:../x"));
    assert!(!is_scope_allowed_for_capability("memory.read", "memory:a\0b"));
    assert!(!is_scope_allowed_for_capability("db.query", "anything"));
    assert!(!is_scope_allowed_for_capability("http.request", "https://x"));
}

#[test]
fn payload_limits_are_capped_by_the_hard_maximum() {
    assert_eq!(resolve_max_payload_bytes("llm.infer", None), 32_000);
    assert_eq!(resolve_max_payload_bytes("llm.infer", Some(&num(10))), 10);
    assert_eq!(resolve_max_payload_bytes("llm.infer", Some(&num(0))), 32_000);
    assert_eq!(resolve_max_payload_bytes("llm.infer", Some(&num(1_000_000))), 32_000);
    assert_eq!(resolve_max_payload_bytes("db.query", None), 0);
    assert_eq!(resolve_max_payload_bytes("object.write", Some(&s("10"))), 500_000);
}

#[test]
fn scope_within_understands_trailing_wildcards() {
    assert!(scope_within("podcasts/*", "podcasts/ep1"));
    assert!(!scope_within("podcasts/*", "shownotes/ep1"));
    assert!(scope_within("local.exec:file.head", "local.exec:file.head"));
    assert!(!scope_within("local.exec:file.head", "local.exec:file.head2"));
}

#[test]
fn roles_limit_capabilities() {
    assert!(role_allows_capability(RolePreset::Owner, "local.exec", "local.exec:file.head"));
    assert!(!role_allows_capability(RolePreset::Operator, "local.exec", "local.exec:file.head"));
    assert!(role_allows_capability(RolePreset::Operator, "message.send", "whitenoise:x"));
    assert!(role_allows_capability(RolePreset::Viewer, "object.read", "podcasts/x"));
    assert!(role_allows_capability(RolePreset::Viewer, "llm.infer", "local:x"));
    assert!(!role_allows_capability(RolePreset::Viewer, "llm.infer", "remote:x"));
    assert!(!role_allows_capability(RolePreset::Viewer, "message.send", "whitenoise:x"));
}

#[test]
fn recipe_bundles_are_known_by_name() {
    let b = resolve_recipe_capability_bundle("memory_v1").unwrap();
    let names: Vec<(&str, &str, Option<u64>)> =
        b.iter().map(|x| (x.capability, x.scope, x.max_payload_bytes)).collect();
    assert_eq!(names, vec![("memory.read", "memory:*", Some(64_000)), ("memory.write", "memory:*", Some(64_000))]);
    assert_eq!(resolve_recipe_capability_bundle("show_notes_v1").unwrap().len(), 5);
    assert!(resolve_recipe_capability_bundle("unknown_v9").is_none());
}

#[test]
fn empty_request_grants_the_role_filtered_bundle() {
    let g = resolve_granted_capabilities("notify_v1", RolePreset::Operator, &JsonValue::Array(vec![])).unwrap();
    assert_eq!(
        summary(&g),
        vec![
            ("message.send".to_string(), "whitenoise:*".to_string(), 20_000),
            ("llm.infer".to_string(), "local:*".to_string(), 32_000),
        ]
    );
    let g = resolve_granted_capabilities("notify_v1", RolePreset::Viewer, &JsonValue::Array(vec![])).unwrap();
    assert_eq!(summary(&g), vec![("llm.infer".to_string(), "local:*".to_string(), 32_000)]);
}

#[test]
fn requested_capabilities_must_be_covered_by_the_bundle() {
    let req = JsonValue::Array(vec![
        request("message.send", " whitenoise:ops ", Some(100)),
        request("message.send", "slack:ops", None),
        request("llm.infer", "remote:gpt", None),
    ]);
    let g = resolve_granted_capabilities("notify_v1", RolePreset::Owner, &req).unwrap();
    assert_eq!(summary(&g), vec![("message.send".to_string(), "whitenoise:ops".to_string(), 100)]);
}

#[test]
fn without_a_bundle_requests_are_granted_by_role() {
    let req = JsonValue::Array(vec![
        request("local.exec", "local.exec:file.head", None),
        request("object.read", "podcasts/a", Some(5)),
    ]);
    let g = resolve_granted_capabilities("custom", RolePreset::Operator, &req).unwrap();
    assert_eq!(summary(&g), vec![("object.read".to_string(), "podcasts/a".to_string(), 5)]);
}

#[test]
fn requested_capability_errors() {
    let e = parse_requested_capabilities(&obj(vec![])).unwrap_err();
    assert_eq!(e.message, "requested_capabilities must be an array");
    let e = parse_requested_capabilities(&JsonValue::Array(vec![obj(vec![("scope", s("x"))])])).unwrap_err();
    assert_eq!(e.message, "capability entry missing string `capability`");
    let e = parse_requested_capabilities(&JsonValue::Array(vec![obj(vec![("capability", s("llm.infer"))])])).unwrap_err();
    assert_eq!(e.message, "capability entry missing string `scope`");
    let e = parse_requested_capabilities(&JsonValue::Array(vec![request("llm.infer", "  ", None)])).unwrap_err();
    assert_eq!(e.message, "capability scope must not be empty");
}

#[test]
fn unknown_capabilities_and_foreign_scopes_are_skipped() {
    let parsed = parse_requested_capabilities(&JsonValue::Array(vec![
        request("teleport", "x", None),
        request("object.read", "shownotes/a", None),
        request("Object_Read", "podcasts/b", Some(7)),
    ]))
    .unwrap();
    assert_eq!(parsed.len(), 1);
    assert_eq!(parsed[0].capability, "object.read");
    assert_eq!(parsed[0].scope, "podcasts/b");
    assert_eq!(parsed[0].requested_max_payload_bytes, Some(7));
}

#[test]
fn grants_never_exceed_the_request() {
    let req = JsonValue::Array(vec![request("object.read", "podcasts/x", Some(10))]);
    let g = resolve_granted_capabilities("custom", RolePreset::Owner, &req).unwrap();
    assert_eq!(g.len(), 1);
    assert_eq!(g[0].capability, "object.read");
    assert_eq!(g[0].scope, "podcasts/x");
    assert!(g[0].max_payload_bytes <= 10);
}

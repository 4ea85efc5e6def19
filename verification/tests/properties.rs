use agent_api::capability::{
    grant_json, normalize_capability, resolve_granted_capabilities, resolve_recipe_capability_bundle,
    is_scope_allowed_for_capability, GrantedCapability,
};
use agent_api::context::{
    bootstrap_completion_record, find_latest_bootstrap_completion, normalize_context_mutation_path,
    plan_context_jsonl_append,
};
use agent_api::json::{get_field, JsonField, JsonNumber, JsonValue};
use agent_api::memory::tokenize_retrieval_query;
use agent_api::roles::RolePreset;
use agent_api::runs::run_create_outcome;

fn s(v: &str) -> JsonValue {
    JsonValue::Str(v.to_string())
}

fn request(capability: &str, scope: &str) -> JsonValue {
    JsonValue::Object(vec![
        JsonField { key: "capability".to_string(), value: s(capability) },
        JsonField { key: "scope".to_string(), value: s(scope) },
    ])
}

fn keys(v: &JsonValue) -> Vec<String> {
    match v {
        JsonValue::Object(fs) => fs.iter().map(|f| f.key.clone()).collect(),
        _ => vec![],
    }
}

#[test]
fn grant_objects_have_exactly_their_fields() {
    let g = GrantedCapability { capability: "llm.infer".to_string(), scope: "local:x".to_string(), max_payload_bytes: 77 };
    let j = grant_json(&g);
    assert_eq!(keys(&j), vec!["capability", "scope", "limits"]);
    let limits = get_field(&j, "limits").unwrap();
    assert_eq!(keys(limits), vec!["max_payload_bytes"]);
    assert!(matches!(get_field(limits, "max_payload_bytes"), Some(JsonValue::Number(JsonNumber::PosInt(77)))));
}

#[test]
fn jsonl_append_fails_exactly_when_over_the_limit() {
    assert_eq!(plan_context_jsonl_append("sessions/a.jsonl", "abc", 6, 10).unwrap(), "abc\n");
    let e = plan_context_jsonl_append("sessions/a.jsonl", "abc", 7, 10).unwrap_err();
    assert_eq!(e.message, "sessions/a.jsonl exceeds max file size (10 bytes)");
}

#[test]
fn unknown_and_unscoped_capabilities_are_never_granted() {
    let req = JsonValue::Array(vec![
        request("db.query", "anything"),
        request("http.request", "https://x"),
        request("teleport", "x"),
        request("object.read", "podcasts/a"),
    ]);
    let g = resolve_granted_capabilities("custom", RolePreset::Owner, &req).unwrap();
    assert_eq!(g.len(), 1);
    assert_eq!(g[0].capability, "object.read");
    assert!(g[0].max_payload_bytes > 0);
}

#[test]
fn recipe_bundle_entries_are_allowed() {
    for recipe in ["show_notes_v1", "notify_v1", "memory_v1", "local_exec_v1", "payments_cashu_v1"] {
        let b = resolve_recipe_capability_bundle(recipe).unwrap();
        assert!(!b.is_empty());
        for e in b {
            assert!(is_scope_allowed_for_capability(e.capability, e.scope));
        }
    }
}

#[test]
fn grants_grow_with_privilege() {
    let req = JsonValue::Array(vec![request("local.exec", "local.exec:file.head"), request("object.read", "podcasts/a")]);
    let viewer = resolve_granted_capabilities("custom", RolePreset::Viewer, &req).unwrap();
    let operator = resolve_granted_capabilities("custom", RolePreset::Operator, &req).unwrap();
    let owner = resolve_granted_capabilities("custom", RolePreset::Owner, &req).unwrap();
    assert_eq!((viewer.len(), operator.len(), owner.len()), (1, 1, 2));
    assert_eq!(owner[1].capability, viewer[0].capability);
}

#[test]
fn role_and_capability_names_round_trip() {
    for r in [RolePreset::Owner, RolePreset::Operator, RolePreset::Viewer] {
        assert_eq!(RolePreset::parse(r.as_str()), Some(r));
    }
    assert_eq!(RolePreset::parse(" OWNER "), Some(RolePreset::Owner));
    assert_eq!(RolePreset::parse("admin"), None);
    assert_eq!(normalize_capability(" Object_Read "), Some("object.read"));
    assert_eq!(normalize_capability("object.read"), Some("object.read"));
    assert_eq!(normalize_capability("object-read"), None);
}

#[test]
fn normalized_paths_are_stable() {
    let p = normalize_context_mutation_path(" memory//a/./b.md ").unwrap();
    assert_eq!(normalize_context_mutation_path(&p).unwrap(), p);
    assert_eq!(normalize_context_mutation_path("a /").unwrap(), "a ");
}

#[test]
fn retokenizing_joined_tokens_gives_them_back() {
    let t = tokenize_retrieval_query("Zeta, alpha beta-ALPHA 42");
    assert_eq!(t, vec!["42", "alpha", "beta", "zeta"]);
    assert_eq!(tokenize_retrieval_query(&t.join(" ")), t);
}

#[test]
fn a_written_completion_is_read_back() {
    let files = vec!["USER.md".to_string(), "SOUL.md".to_string()];
    let record = bootstrap_completion_record("2024-02-03T04:05:06Z", 0x2a, Some("done"), &files);
    let c = find_latest_bootstrap_completion(&vec![Ok(record)]).unwrap().unwrap();
    assert_eq!(c.completed_at, "2024-02-03T04:05:06Z");
    assert_eq!(c.completed_by_user_id, 0x2a);
    assert_eq!(c.completion_note.as_deref(), Some("done"));
    assert_eq!(c.updated_files, files);
    let record = bootstrap_completion_record("2024-02-03T04:05:06Z", 1, None, &vec![]);
    let c = find_latest_bootstrap_completion(&vec![Ok(record)]).unwrap().unwrap();
    assert_eq!(c.completion_note, None);
}

#[test]
fn deduplicated_runs_answer_ok_not_created() {
    assert_eq!(run_create_outcome(Some(5), None).unwrap(), (5, 201, true));
    assert_eq!(run_create_outcome(None, Some(9)).unwrap(), (9, 200, false));
    let e = run_create_outcome(None, None).unwrap_err();
    assert_eq!((e.status, e.message.as_str()), (409, "run already exists in race with completion; retry request"));
}

#[test]
fn completion_lines_are_written_with_an_rfc3339_time() {
    let files = vec!["USER.md".to_string()];
    let (at, record) = agent_api::context::plan_bootstrap_completion_line(1_546_300_800_000_000_000, 0xabc, None, &files).unwrap();
    assert_eq!(at, "2019-01-01T00:00:00Z");
    let c = find_latest_bootstrap_completion(&vec![Ok(record)]).unwrap().unwrap();
    assert_eq!((c.completed_at.as_str(), c.completed_by_user_id), ("2019-01-01T00:00:00Z", 0xabc));
    assert_eq!(c.updated_files, files);
    let e = agent_api::context::plan_bootstrap_completion_line(i128::MAX, 1, None, &files).unwrap_err();
    assert!(e.message.starts_with("failed formatting bootstrap completion timestamp: "));
}

#[test]
fn written_uuid_texts_parse_back() {
    let u: u128 = 0x0123_4567_89ab_cdef_0011_2233_4455_6677;
    let text = agent_api::ids::uuid_to_text(u);
    assert_eq!(text, "01234567-89ab-cdef-0011-223344556677");
    let doc = JsonValue::Object(vec![JsonField { key: "id".to_string(), value: s(&text) }]);
    assert_eq!(agent_api::json::payload_uuid_field(&doc, &["id"]), Some(u));
}

#[test]
fn manifest_documents_seal_their_fields() {
    let d = agent_api::replay::replay_manifest_document(
        "acme",
        1,
        s("2024-01-01"),
        &vec![2],
        &vec![],
        &vec![3, 4],
        JsonValue::Null,
    );
    assert_eq!(
        keys(&d),
        vec![
            "tenant_id",
            "run_id",
            "generated_at",
            "run_audit_event_ids",
            "compliance_audit_event_ids",
            "payment_request_ids",
            "correlation"
        ]
    );
    match get_field(&d, "payment_request_ids") {
        Some(JsonValue::Array(items)) => {
            assert_eq!(items.len(), 2);
            assert!(matches!(&items[1], JsonValue::Str(t) if t == "00000000-0000-0000-0000-000000000004"));
        }
        _ => panic!("expected the id array"),
    }
}

use agent_api::context::{
    agent_context_precedence_order, bootstrap_status, bootstrap_status_lines,
    check_bootstrap_write_size, check_context_mutation_size, context_mutation_payload,
    default_context_mutation_mode, ensure_bootstrap_enabled, ensure_bootstrap_not_completed,
    ensure_bootstrap_present, ensure_context_mutation_enabled, ensure_context_mutation_role,
    find_bootstrap_status_file, find_latest_bootstrap_completion, map_agent_context_load_error,
    normalize_context_mutation_path, normalize_optional_text, parse_context_mutation_mode,
    plan_bootstrap_updates, plan_context_jsonl_append, projected_context_len,
    validate_context_mutation_mode, AgentContextMutability, ContextLoadFailure,
    ContextMutationMode,
};
use agent_api::json::{JsonField, JsonValue};
use agent_api::roles::RolePreset;

fn s(v: &str) -> JsonValue {
    JsonValue::Str(v.to_string())
}

fn obj(fields: Vec<(&str, JsonValue)>) -> JsonValue {
    JsonValue::Object(fields.into_iter().map(|(k, v)| JsonField { key: k.to_string(), value: v }).collect())
}

const USER: &str = "00000000-0000-0000-0000-000000000007";

fn completion(at: &str, user: &str) -> JsonValue {
    obj(vec![
        ("status", s("completed")),
        ("completed_at", s(at)),
        ("completed_by_user_id", s(user)),
        ("completion_note", s("done")),
        ("updated_files", JsonValue::Array(vec![s("USER.md"), JsonValue::Null, s("SOUL.md")])),
    ])
}

#[test]
fn mutation_modes() {
    assert_eq!(default_context_mutation_mode(), "replace");
    assert_eq!(parse_context_mutation_mode(" APPEND ").unwrap(), ContextMutationMode::Append);
    assert_eq!(parse_context_mutation_mode("replace").unwrap().as_str(), "replace");
    assert_eq!(parse_context_mutation_mode("patch").unwrap_err().message, "mode must be one of: replace, append");
}

#[test]
fn optional_text_is_trimmed() {
    assert_eq!(normalize_optional_text(Some(" x ")), Some("x".to_string()));
    assert_eq!(normalize_optional_text(Some(" ")), None);
}

#[test]
fn mutation_paths_are_normalized() {
    assert_eq!(normalize_context_mutation_path("  memory//notes/./today.md ").unwrap(), "memory/notes/today.md");
    assert_eq!(normalize_context_mutation_path("USER.md").unwrap(), "USER.md");
    assert_eq!(normalize_context_mutation_path("a/ b").unwrap(), "a/ b");
}

#[test]
fn mutation_paths_cannot_escape() {
    assert_eq!(normalize_context_mutation_path("   ").unwrap_err().message, "relative_path must not be empty");
    assert_eq!(normalize_context_mutation_path("/etc/passwd").unwrap_err().message, "relative_path must be a relative path");
    assert_eq!(normalize_context_mutation_path("../x").unwrap_err().message, "relative_path contains invalid path components");
    assert_eq!(normalize_context_mutation_path("a/../b").unwrap_err().message, "relative_path contains invalid path components");
    assert_eq!(normalize_context_mutation_path("./a").unwrap_err().message, "relative_path contains invalid path components");
    assert_eq!(normalize_context_mutation_path(".").unwrap_err().message, "relative_path contains invalid path components");
    assert_eq!(normalize_context_mutation_path("a/ /b").unwrap_err().message, "relative_path contains empty path component");
    assert_eq!(normalize_context_mutation_path("a/ /..").unwrap_err().message, "relative_path contains empty path component");
}

#[test]
fn mutability_decides_who_may_write() {
    assert_eq!(
        ensure_context_mutation_role(RolePreset::Owner, AgentContextMutability::Immutable).unwrap_err().message,
        "immutable agent-context files cannot be mutated via API"
    );
    assert!(ensure_context_mutation_role(RolePreset::Owner, AgentContextMutability::HumanPrimary).is_ok());
    assert_eq!(
        ensure_context_mutation_role(RolePreset::Operator, AgentContextMutability::HumanPrimary).unwrap_err().message,
        "only owner role can mutate human-primary agent-context files"
    );
    assert!(ensure_context_mutation_role(RolePreset::Operator, AgentContextMutability::AgentManaged).is_ok());
    assert_eq!(
        ensure_context_mutation_role(RolePreset::Viewer, AgentContextMutability::AgentManaged).unwrap_err().message,
        "viewer role cannot write memory"
    );
}

#[test]
fn mode_and_extension_rules() {
    let (append, replace) = (ContextMutationMode::Append, ContextMutationMode::Replace);
    let (agent_managed, human_primary) = (AgentContextMutability::AgentManaged, AgentContextMutability::HumanPrimary);
    assert!(validate_context_mutation_mode(append, "sessions/today.jsonl", agent_managed).is_ok());
    assert_eq!(validate_context_mutation_mode(append, "sessions/today.md", agent_managed).unwrap_err().message, "sessions/ context files must use .jsonl extension");
    assert_eq!(validate_context_mutation_mode(replace, "memory/x.txt", agent_managed).unwrap_err().message, "memory/ context files must use .md extension");
    assert_eq!(validate_context_mutation_mode(append, "USER.md", human_primary).unwrap_err().message, "append mode is not allowed for immutable or human-primary files");
    assert_eq!(validate_context_mutation_mode(replace, "sessions/a.jsonl", agent_managed).unwrap_err().message, "sessions/*.jsonl mutations must use append mode");
    assert!(validate_context_mutation_mode(replace, "USER.md", human_primary).is_ok());
}

#[test]
fn precedence_order() {
    assert_eq!(
        agent_context_precedence_order(),
        vec![
            "runtime policy enforcement",
            "AGENTS.md + TOOLS.md",
            "IDENTITY.md + SOUL.md",
            "USER.md",
            "MEMORY.md",
            "memory/*.md + sessions/*.jsonl",
        ]
    );
}

#[test]
fn session_appends_end_with_a_newline() {
    assert_eq!(context_mutation_payload(ContextMutationMode::Append, "sessions/a.jsonl", "{}"), "{}\n");
    assert_eq!(context_mutation_payload(ContextMutationMode::Append, "sessions/a.jsonl", "{}\n"), "{}\n");
    assert_eq!(context_mutation_payload(ContextMutationMode::Append, "memory/a.md", "x"), "x");
    assert_eq!(context_mutation_payload(ContextMutationMode::Replace, "sessions/a.jsonl", "x"), "x");
}

#[test]
fn projected_sizes_and_limits() {
    assert_eq!(projected_context_len(ContextMutationMode::Replace, 100, "héllo"), 6);
    assert_eq!(projected_context_len(ContextMutationMode::Append, 100, "héllo"), 106);
    assert_eq!(projected_context_len(ContextMutationMode::Append, usize::MAX, "x"), usize::MAX);
    assert!(check_context_mutation_size(10, 10).is_ok());
    assert_eq!(check_context_mutation_size(11, 10).unwrap_err().message, "mutation exceeds max file size (10 bytes)");
}

#[test]
fn jsonl_appends_respect_the_file_limit() {
    assert_eq!(plan_context_jsonl_append("sessions/s.jsonl", "{}", 0, 10).unwrap(), "{}\n");
    assert_eq!(
        plan_context_jsonl_append("sessions/s.jsonl", "{}", 8, 10).unwrap_err().message,
        "sessions/s.jsonl exceeds max file size (10 bytes)"
    );
}

#[test]
fn bootstrap_updates_keep_non_blank_drafts_in_order() {
    let u = plan_bootstrap_updates(Some(" me "), None, Some("  "), Some("beat"));
    let pairs: Vec<(String, String)> = u.into_iter().map(|x| (x.relative_path, x.content)).collect();
    assert_eq!(
        pairs,
        vec![("IDENTITY.md".to_string(), "me".to_string()), ("HEARTBEAT.md".to_string(), "beat".to_string())]
    );
    assert_eq!(check_bootstrap_write_size("USER.md", "abc", 2).unwrap_err().message, "USER.md exceeds max file size (2 bytes)");
    assert!(check_bootstrap_write_size("USER.md", "ab", 2).is_ok());
}

#[test]
fn bootstrap_gates() {
    assert_eq!(ensure_bootstrap_enabled(false).unwrap_err().message, "agent bootstrap is disabled by API_AGENT_BOOTSTRAP_ENABLED");
    assert_eq!(ensure_context_mutation_enabled(false).unwrap_err().status, 403);
    assert_eq!(ensure_bootstrap_present(false).unwrap_err().status, 409);
    assert!(ensure_bootstrap_not_completed(true, true).is_ok());
    assert_eq!(
        ensure_bootstrap_not_completed(true, false).unwrap_err().message,
        "bootstrap is already completed; pass force=true to record a new completion event"
    );
    assert_eq!(bootstrap_status(true, false), "completed");
    assert_eq!(bootstrap_status(false, true), "pending");
    assert_eq!(bootstrap_status(false, false), "not_configured");
}

#[test]
fn status_file_lookup_ignores_ascii_case() {
    let paths = vec!["memory/a.md".to_string(), "Sessions/Bootstrap.Status.JSONL".to_string()];
    assert_eq!(find_bootstrap_status_file(&paths), Some(1));
    assert_eq!(find_bootstrap_status_file(&vec!["x".to_string()]), None);
    assert_eq!(bootstrap_status_lines(" a \r\n\n  \nb\n"), vec!["a", "b"]);
}

#[test]
fn latest_bootstrap_completion_wins() {
    let lines = vec![
        Ok(completion("2024-01-01T00:00:00Z", USER)),
        Ok(obj(vec![("status", s("started"))])),
        Ok(completion("2024-02-03T04:05:06Z", USER)),
    ];
    let c = find_latest_bootstrap_completion(&lines).unwrap().unwrap();
    assert_eq!(c.completed_at, "2024-02-03T04:05:06Z");
    assert_eq!(c.completed_by_user_id, 7);
    assert_eq!(c.completion_note.as_deref(), Some("done"));
    assert_eq!(c.updated_files, vec!["USER.md", "SOUL.md"]);
    assert!(find_latest_bootstrap_completion(&vec![]).unwrap().is_none());
}

#[test]
fn bootstrap_completion_errors() {
    let e = find_latest_bootstrap_completion(&vec![Err("expected value".to_string())]).unwrap_err();
    assert_eq!(
        (e.status, e.message.as_str()),
        (500, "failed decoding bootstrap status line in sessions/bootstrap.status.jsonl: expected value")
    );
    let e = find_latest_bootstrap_completion(&vec![Ok(obj(vec![("status", s("completed"))]))]).unwrap_err();
    assert_eq!(e.message, "bootstrap completion status is missing completed_at timestamp");
    let e = find_latest_bootstrap_completion(&vec![Ok(completion("yesterday", USER))]).unwrap_err();
    assert!(e.message.starts_with("invalid bootstrap completion timestamp `yesterday`: "));
    let e = find_latest_bootstrap_completion(&vec![Ok(completion("2024-01-01T00:00:00Z", "bob"))]).unwrap_err();
    assert_eq!(e.message, "invalid bootstrap completion user id `bob`");
    let e = find_latest_bootstrap_completion(&vec![
        Ok(obj(vec![("status", s("completed")), ("completed_at", s("2024-01-01T00:00:00Z"))])),
    ])
    .unwrap_err();
    assert_eq!(e.message, "bootstrap completion status is missing completed_by_user_id");
}

#[test]
fn context_load_errors() {
    let e = map_agent_context_load_error(&ContextLoadFailure::NotFound {
        searched_paths: vec!["/a/t/1".to_string(), "/a/1".to_string()],
    });
    assert_eq!((e.status, e.code.as_str()), (404, "NOT_FOUND"));
    assert_eq!(e.message, "agent context not found; searched: /a/t/1, /a/1");
    let e = map_agent_context_load_error(&ContextLoadFailure::InvalidConfig { message: "bad".to_string() });
    assert_eq!((e.status, e.message.as_str()), (500, "agent context loader is misconfigured: bad"));
    let e = map_agent_context_load_error(&ContextLoadFailure::Io { path: "/p".to_string(), source: "denied".to_string() });
    assert_eq!(e.message, "failed reading agent context at /p: denied");
}

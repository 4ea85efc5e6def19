use agent_api::json::{JsonField, JsonValue};
use agent_api::memory::{
    ensure_memory_run_found, ensure_memory_step_found, handoff_packet_from_memory_record,
    handoff_scope, memory_candidate_kept, memory_purge_audit_due, plan_handoff_packet,
    plan_memory_list_query, plan_memory_record, plan_memory_retrieve_query, retrieval_haystack,
    token_hit_count, tokenize_retrieval_query, HandoffRecord,
};

fn s(v: &str) -> JsonValue {
    JsonValue::Str(v.to_string())
}

fn obj(fields: Vec<(&str, JsonValue)>) -> JsonValue {
    JsonValue::Object(fields.into_iter().map(|(k, v)| JsonField { key: k.to_string(), value: v }).collect())
}

#[test]
fn memory_records_need_a_known_kind_and_a_memory_scope() {
    let p = plan_memory_record(" Semantic ", "  memory:agent/notes ", None, None, None).unwrap();
    assert_eq!((p.memory_kind.as_str(), p.scope.as_str(), p.source.as_str()), ("semantic", "memory:agent/notes", "api"));
    let p = plan_memory_record("session", "memory:x", Some(" import "), Some(1), Some(2)).unwrap();
    assert_eq!(p.source, "import");
    assert_eq!(
        plan_memory_record("diary", "memory:x", None, None, None).unwrap_err().message,
        "memory_kind must be one of: session, semantic, procedural, handoff"
    );
    assert_eq!(plan_memory_record("session", "  ", None, None, None).unwrap_err().message, "scope must not be empty");
    assert_eq!(
        plan_memory_record("session", "podcasts/x", None, None, None).unwrap_err().message,
        "scope must be memory-scoped (prefix `memory:`)"
    );
    assert_eq!(
        plan_memory_record("session", "memory:../etc", None, None, None).unwrap_err().message,
        "scope must be memory-scoped (prefix `memory:`)"
    );
    assert_eq!(
        plan_memory_record("session", "memory:x", None, None, Some(3)).unwrap_err().message,
        "step_id requires run_id for tenant validation"
    );
}

#[test]
fn run_and_step_lookups() {
    assert!(ensure_memory_run_found(true).is_ok());
    assert_eq!(ensure_memory_run_found(false).unwrap_err().message, "run_id is not found for this tenant");
    assert!(ensure_memory_step_found(1).is_ok());
    assert_eq!(ensure_memory_step_found(0).unwrap_err().message, "step_id is not found for this tenant/run");
    assert!(memory_purge_audit_due(3));
    assert!(!memory_purge_audit_due(0));
}

#[test]
fn handoff_packets() {
    let p = plan_handoff_packet("  Plan ", None, 5, None, None, None).unwrap();
    assert_eq!((p.title.as_str(), p.source.as_str(), p.from_agent_id), ("Plan", "api", 5));
    let p = plan_handoff_packet("t", Some("ui"), 5, Some(6), Some(1), None).unwrap();
    assert_eq!(p.from_agent_id, 6);
    assert_eq!(plan_handoff_packet(" ", None, 5, None, None, None).unwrap_err().message, "title must not be empty");
    assert_eq!(
        handoff_scope(0x10, 0x20),
        "memory:handoff/00000000-0000-0000-0000-000000000010/00000000-0000-0000-0000-000000000020"
    );
}

#[test]
fn listing_and_retrieval_queries() {
    let q = plan_memory_list_query(None, Some("HANDOFF"), Some(" memory:handoff/ ")).unwrap();
    assert_eq!((q.limit, q.memory_kind.as_deref(), q.scope_prefix.as_deref()), (100, Some("handoff"), Some("memory:handoff/")));
    assert_eq!(plan_memory_list_query(Some(5000), None, None).unwrap().limit, 1000);
    assert_eq!(
        plan_memory_list_query(None, None, Some("podcasts/")).unwrap_err().message,
        "scope_prefix must use memory scope prefix (`memory:`)"
    );
    let r = plan_memory_retrieve_query(None, None, None, None, None, None, false).unwrap();
    assert_eq!((r.filters.limit, r.candidate_limit), (20, 20));
    let r = plan_memory_retrieve_query(Some(500), None, None, Some(" cats "), None, None, false).unwrap();
    assert_eq!((r.filters.limit, r.candidate_limit), (200, 1000));
    assert_eq!(r.query_text.as_deref(), Some("cats"));
    let r = plan_memory_retrieve_query(Some(3), None, None, None, None, Some(true), false).unwrap();
    assert_eq!((r.candidate_limit, r.require_summary), (15, true));
    let r = plan_memory_retrieve_query(Some(3), None, None, None, None, None, true).unwrap();
    assert_eq!(r.candidate_limit, 15);
    assert!(plan_memory_retrieve_query(None, Some("x"), None, None, None, None, false).is_err());
}

#[test]
fn retrieval_candidates() {
    assert!(memory_candidate_kept("api/import", None, Some("api"), false));
    assert!(!memory_candidate_kept("ui", None, Some("api"), false));
    assert!(!memory_candidate_kept("api", Some("  "), None, true));
    assert!(memory_candidate_kept("api", Some("sum"), None, true));
    assert!(!memory_candidate_kept("api", None, None, true));
}

#[test]
fn query_tokens_are_lowercase_sorted_and_unique() {
    assert_eq!(tokenize_retrieval_query("Cats, dogs & CATS!! x-ray 42"), vec!["42", "cats", "dogs", "ray", "x"]);
    assert_eq!(tokenize_retrieval_query("  ...  "), Vec::<String>::new());
    assert_eq!(tokenize_retrieval_query("naïve"), vec!["na", "ve"]);
}

#[test]
fn token_hits_count_tokens_in_the_haystack() {
    let h = retrieval_haystack(Some("Cat Facts"), "{\"DOG\":1}");
    assert_eq!(h.iter().collect::<String>(), "cat facts {\"dog\":1}");
    let tokens = vec!["cat".to_string(), "dog".to_string(), "emu".to_string()];
    assert_eq!(token_hit_count(&h, &tokens), 2);
    let h = retrieval_haystack(None, "EMU");
    assert_eq!(token_hit_count(&h, &tokens), 1);
}

#[test]
fn handoff_packets_read_back_from_records() {
    let record = HandoffRecord {
        id: 1,
        agent_id: 2,
        summary_text: None,
        content_json: obj(vec![
            ("packet_id", s("00000000-0000-0000-0000-000000000009")),
            ("from_agent_id", s("00000000-0000-0000-0000-000000000003")),
            ("title", s("from content")),
            ("payload_json", obj(vec![("k", s("v"))])),
        ]),
    };
    let p = handoff_packet_from_memory_record(record).unwrap();
    assert_eq!((p.packet_id, p.from_agent_id, p.to_agent_id), (9, 3, 2));
    assert_eq!(p.title, "from content");
    match p.payload_json {
        JsonValue::Object(fs) => {
            assert_eq!(fs.len(), 1);
            assert_eq!(fs[0].key, "k");
        }
        _ => panic!("payload should be the object"),
    }
}

#[test]
fn handoff_packet_defaults_and_errors() {
    let record = HandoffRecord {
        id: 1,
        agent_id: 2,
        summary_text: Some("summary".to_string()),
        content_json: obj(vec![("from_agent_id", s("00000000-0000-0000-0000-000000000003"))]),
    };
    let p = handoff_packet_from_memory_record(record).unwrap();
    assert_eq!((p.packet_id, p.to_agent_id), (1, 2));
    assert_eq!(p.title, "summary");
    assert!(matches!(p.payload_json, JsonValue::Object(ref fs) if fs.len() == 1));
    let bad = HandoffRecord { id: 0x1f, agent_id: 2, summary_text: None, content_json: obj(vec![]) };
    let e = handoff_packet_from_memory_record(bad).unwrap_err();
    assert_eq!(
        (e.status, e.message.as_str()),
        (500, "handoff memory record 00000000-0000-0000-0000-00000000001f missing from_agent_id")
    );
    let untitled = HandoffRecord {
        id: 1,
        agent_id: 2,
        summary_text: None,
        content_json: obj(vec![("from_agent_id", s("00000000-0000-0000-0000-000000000003"))]),
    };
    assert_eq!(handoff_packet_from_memory_record(untitled).unwrap().title, "handoff");
}

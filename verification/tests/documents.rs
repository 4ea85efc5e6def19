use agent_api::json::{
    canonicalize_json_for_semantic_dedupe, get_field, inject_trace_id_into_input,
    merge_json_objects_for_api, normalize_materialization_input_payload,
    normalize_requested_capabilities_payload, payload_string_field, payload_uuid_field,
    str_field_of, trace_id_of, JsonField, JsonNumber, JsonValue,
};
use agent_api::roles::RolePreset;
use agent_api::runs::{json_array_len, semantic_dedupe_payload};

fn s(v: &str) -> JsonValue {
    JsonValue::Str(v.to_string())
}

fn obj(fields: Vec<(&str, JsonValue)>) -> JsonValue {
    JsonValue::Object(fields.into_iter().map(|(k, v)| JsonField { key: k.to_string(), value: v }).collect())
}

fn keys(v: &JsonValue) -> Vec<String> {
    match v {
        JsonValue::Object(fs) => fs.iter().map(|f| f.key.clone()).collect(),
        _ => vec![],
    }
}

#[test]
fn trace_ids_are_injected() {
    let v = inject_trace_id_into_input(obj(vec![("a", s("1"))]), "run-1");
    assert_eq!(keys(&v), vec!["a", "_trace"]);
    assert_eq!(trace_id_of(&v).as_deref(), Some("run-1"));
    let v = inject_trace_id_into_input(obj(vec![("_trace", s("old"))]), "new");
    assert_eq!(str_field_of(&v, "_trace").as_deref(), Some("new"));
    let v = inject_trace_id_into_input(s("plain"), "t");
    assert_eq!(str_field_of(&v, "input").as_deref(), Some("plain"));
    assert_eq!(str_field_of(&v, "_trace").as_deref(), Some("t"));
}

#[test]
fn overlay_fields_replace_primary_ones() {
    let m = merge_json_objects_for_api(obj(vec![("a", s("1")), ("b", s("2"))]), obj(vec![("b", s("3")), ("c", s("4"))]));
    assert_eq!(keys(&m), vec!["a", "b", "c"]);
    assert_eq!(str_field_of(&m, "b").as_deref(), Some("3"));
    let m = merge_json_objects_for_api(s("x"), obj(vec![("c", s("4"))]));
    assert_eq!(str_field_of(&m, "input").as_deref(), Some("x"));
    assert!(get_field(&m, "_trigger").is_some());
    let m = merge_json_objects_for_api(obj(vec![("a", s("1"))]), s("not an object"));
    assert_eq!(keys(&m), vec!["a"]);
}

#[test]
fn payload_defaults() {
    assert!(matches!(normalize_requested_capabilities_payload(None).unwrap(), JsonValue::Array(ref a) if a.is_empty()));
    assert_eq!(
        normalize_requested_capabilities_payload(Some(obj(vec![]))).unwrap_err().message,
        "requested_capabilities must be an array"
    );
    assert!(matches!(normalize_materialization_input_payload(None), JsonValue::Object(ref f) if f.is_empty()));
}

#[test]
fn payload_fields_take_the_first_key_present() {
    let p = obj(vec![("b", s("  second ")), ("run_id", s(" 00000000-0000-0000-0000-000000000011 "))]);
    assert_eq!(payload_string_field(&p, &["a", "b"]).as_deref(), Some("second"));
    assert_eq!(payload_string_field(&p, &["a"]), None);
    assert_eq!(payload_uuid_field(&p, &["run_id"]), Some(0x11));
    assert_eq!(payload_uuid_field(&p, &["b"]), None);
}

#[test]
fn canonical_form_sorts_keys_at_every_level() {
    let v = obj(vec![
        ("b", JsonValue::Array(vec![obj(vec![("z", s("1")), ("a", s("2"))])])),
        ("a", JsonValue::Number(JsonNumber::PosInt(1))),
        ("é", JsonValue::Null),
        ("B", JsonValue::Bool(true)),
    ]);
    let c = canonicalize_json_for_semantic_dedupe(&v);
    assert_eq!(keys(&c), vec!["B", "a", "b", "é"]);
    match get_field(&c, "b") {
        Some(JsonValue::Array(items)) => assert_eq!(keys(&items[0]), vec!["a", "z"]),
        _ => panic!("expected the array"),
    }
}

#[test]
fn field_order_does_not_change_the_canonical_form() {
    let a = canonicalize_json_for_semantic_dedupe(&obj(vec![("x", s("1")), ("y", s("2"))]));
    let b = canonicalize_json_for_semantic_dedupe(&obj(vec![("y", s("2")), ("x", s("1"))]));
    assert_eq!(keys(&a), keys(&b));
    assert_eq!(str_field_of(&a, "x"), str_field_of(&b, "x"));
}

#[test]
fn dedupe_payload_fields() {
    let input = obj(vec![("q", s("1")), ("a", s("2"))]);
    let p = semantic_dedupe_payload("acme", 1, None, "notify_v1", RolePreset::Operator, &input, &JsonValue::Array(vec![]));
    assert_eq!(
        keys(&p),
        vec!["tenant_id", "agent_id", "triggered_by_user_id", "recipe_id", "role_preset", "input", "requested_capabilities"]
    );
    assert_eq!(str_field_of(&p, "agent_id").as_deref(), Some("00000000-0000-0000-0000-000000000001"));
    assert!(matches!(get_field(&p, "triggered_by_user_id"), Some(JsonValue::Null)));
    assert_eq!(str_field_of(&p, "role_preset").as_deref(), Some("operator"));
    assert_eq!(keys(get_field(&p, "input").unwrap()), vec!["a", "q"]);
    assert_eq!(json_array_len(&JsonValue::Array(vec![JsonValue::Null, JsonValue::Null])), 2);
    assert_eq!(json_array_len(&s("x")), 0);
}

#[test]
fn canonical_form_is_stable() {
    let v = obj(vec![
        ("z", JsonValue::Array(vec![obj(vec![("q", s("1")), ("b", s("2"))])])),
        ("a", s("3")),
    ]);
    let once = canonicalize_json_for_semantic_dedupe(&v);
    let twice = canonicalize_json_for_semantic_dedupe(&once);
    assert_eq!(format!("{:?}", once), format!("{:?}", twice));
    assert_eq!(keys(&once), vec!["a", "z"]);
}

use agent_api::headers::{
    enforce_trusted_proxy_auth, role_from_headers, tenant_from_headers, user_id_from_headers,
    HeaderValue, TrustedProxyConfig,
};
use agent_api::roles::{
    ensure_memory_write_role, ensure_owner_role, ensure_trigger_mutation_role,
    ensure_trigger_operator_ownership, ensure_usage_query_role, resolve_trigger_actor_for_create,
    RolePreset,
};
use agent_api::settings::{default_trusted_proxy_auth_config_from_env, SecretResolution};

fn text(s: &str) -> HeaderValue {
    HeaderValue::Text(s.to_string())
}

fn proxy(enabled: bool, secret: Option<&str>, error: Option<&str>) -> TrustedProxyConfig {
    TrustedProxyConfig {
        enabled,
        secret: secret.map(|s| s.to_string()),
        error: error.map(|s| s.to_string()),
    }
}

#[test]
fn tenant_header_is_trimmed() {
    assert_eq!(tenant_from_headers(&text("  acme ")).unwrap(), "acme");
}

#[test]
fn tenant_header_errors() {
    let e = tenant_from_headers(&HeaderValue::Missing).unwrap_err();
    assert_eq!((e.status, e.code.as_str(), e.message.as_str()), (400, "BAD_REQUEST", "missing x-tenant-id header"));
    let e = tenant_from_headers(&HeaderValue::NotUtf8).unwrap_err();
    assert_eq!(e.message, "x-tenant-id header is not valid UTF-8");
    let e = tenant_from_headers(&text("   ")).unwrap_err();
    assert_eq!(e.message, "x-tenant-id header must not be empty");
}

#[test]
fn proxy_auth_off_admits_every_request() {
    let cfg = proxy(false, None, None);
    assert!(enforce_trusted_proxy_auth(&cfg, &HeaderValue::Missing).is_ok());
    assert!(enforce_trusted_proxy_auth(&cfg, &text("anything")).is_ok());
}

#[test]
fn proxy_auth_accepts_exactly_the_secret() {
    let cfg = proxy(true, Some("s3cret"), None);
    assert!(enforce_trusted_proxy_auth(&cfg, &text("s3cret")).is_ok());
    let e = enforce_trusted_proxy_auth(&cfg, &text("s3cret ")).unwrap_err();
    assert_eq!((e.status, e.message.as_str()), (401, "trusted proxy token validation failed"));
    let e = enforce_trusted_proxy_auth(&cfg, &HeaderValue::Missing).unwrap_err();
    assert_eq!((e.status, e.message.as_str()), (401, "missing x-auth-proxy-token header"));
    let e = enforce_trusted_proxy_auth(&cfg, &HeaderValue::NotUtf8).unwrap_err();
    assert_eq!((e.status, e.message.as_str()), (400, "x-auth-proxy-token header is not valid UTF-8"));
}

#[test]
fn proxy_auth_misconfiguration_is_an_internal_error() {
    let e = enforce_trusted_proxy_auth(&proxy(true, None, None), &text("x")).unwrap_err();
    assert_eq!((e.status, e.message.as_str()), (500, "trusted proxy auth is enabled but no shared secret is configured"));
    let e = enforce_trusted_proxy_auth(&proxy(true, Some("  "), None), &text("  ")).unwrap_err();
    assert_eq!(e.status, 500);
    let e = enforce_trusted_proxy_auth(&proxy(true, Some("s"), Some("vault down")), &text("s")).unwrap_err();
    assert_eq!(
        (e.status, e.code.as_str(), e.message.as_str()),
        (500, "INTERNAL", "trusted proxy auth is enabled but secret resolution failed: vault down")
    );
}

#[test]
fn role_header_defaults_to_owner_and_parses_case_insensitively() {
    let cfg = proxy(false, None, None);
    assert_eq!(role_from_headers(&cfg, &HeaderValue::Missing, &HeaderValue::Missing).unwrap(), RolePreset::Owner);
    assert_eq!(role_from_headers(&cfg, &HeaderValue::Missing, &text(" Operator ")).unwrap(), RolePreset::Operator);
    assert_eq!(role_from_headers(&cfg, &HeaderValue::Missing, &text("VIEWER")).unwrap(), RolePreset::Viewer);
    let e = role_from_headers(&cfg, &HeaderValue::Missing, &text("admin")).unwrap_err();
    assert_eq!(e.message, "x-user-role must be one of: owner, operator, viewer");
    let e = role_from_headers(&cfg, &HeaderValue::Missing, &HeaderValue::NotUtf8).unwrap_err();
    assert_eq!(e.message, "x-user-role header is not valid UTF-8");
}

#[test]
fn role_header_checks_the_proxy_first() {
    let cfg = proxy(true, Some("t"), None);
    let e = role_from_headers(&cfg, &HeaderValue::Missing, &text("owner")).unwrap_err();
    assert_eq!(e.status, 401);
}

#[test]
fn user_id_header_parses_a_uuid() {
    let cfg = proxy(false, None, None);
    assert_eq!(user_id_from_headers(&cfg, &HeaderValue::Missing, &HeaderValue::Missing).unwrap(), None);
    assert_eq!(
        user_id_from_headers(&cfg, &HeaderValue::Missing, &text(" 00000000-0000-0000-0000-00000000002a ")).unwrap(),
        Some(42)
    );
    let e = user_id_from_headers(&cfg, &HeaderValue::Missing, &text("not-a-uuid")).unwrap_err();
    assert_eq!(e.message, "x-user-id header must be a valid UUID");
}

#[test]
fn role_names_round_trip() {
    for role in [RolePreset::Owner, RolePreset::Operator, RolePreset::Viewer] {
        assert_eq!(RolePreset::parse(role.as_str()), Some(role));
    }
    assert_eq!(RolePreset::parse("root"), None);
}

#[test]
fn viewers_are_refused_mutation_and_reporting() {
    assert_eq!(ensure_trigger_mutation_role(RolePreset::Viewer).unwrap_err().message, "viewer role cannot mutate triggers");
    assert!(ensure_trigger_mutation_role(RolePreset::Operator).is_ok());
    assert_eq!(ensure_usage_query_role(RolePreset::Viewer).unwrap_err().message, "viewer role cannot query reporting endpoints");
    assert_eq!(ensure_memory_write_role(RolePreset::Viewer).unwrap_err().status, 403);
    assert!(ensure_owner_role(RolePreset::Owner, "m").is_ok());
    assert_eq!(ensure_owner_role(RolePreset::Operator, "only owners").unwrap_err().message, "only owners");
}

#[test]
fn trigger_actor_rules() {
    assert_eq!(resolve_trigger_actor_for_create(RolePreset::Owner, Some(1), Some(2)).unwrap(), Some(2));
    assert_eq!(resolve_trigger_actor_for_create(RolePreset::Operator, Some(1), None).unwrap(), Some(1));
    assert_eq!(resolve_trigger_actor_for_create(RolePreset::Operator, Some(1), Some(1)).unwrap(), Some(1));
    assert_eq!(
        resolve_trigger_actor_for_create(RolePreset::Operator, Some(1), Some(2)).unwrap_err().message,
        "operator can only create triggers for self"
    );
    assert_eq!(
        resolve_trigger_actor_for_create(RolePreset::Operator, None, None).unwrap_err().message,
        "operator role requires x-user-id for trigger mutation"
    );
    assert!(resolve_trigger_actor_for_create(RolePreset::Viewer, Some(1), None).is_err());
}

#[test]
fn operators_only_touch_their_own_triggers() {
    assert!(ensure_trigger_operator_ownership(RolePreset::Owner, None, Some(5)).is_ok());
    assert!(ensure_trigger_operator_ownership(RolePreset::Operator, Some(5), Some(5)).is_ok());
    assert_eq!(
        ensure_trigger_operator_ownership(RolePreset::Operator, Some(5), Some(6)).unwrap_err().message,
        "operator cannot mutate triggers owned by another user"
    );
    assert_eq!(
        ensure_trigger_operator_ownership(RolePreset::Operator, Some(5), None).unwrap_err().message,
        "operator cannot mutate triggers owned by another user"
    );
}

#[test]
fn trusted_proxy_settings_from_configuration() {
    let c = default_trusted_proxy_auth_config_from_env(Some(" YES "), SecretResolution::Resolved(Some("  tok ".to_string())));
    assert!(c.enabled);
    assert_eq!(c.secret.as_deref(), Some("tok"));
    assert!(c.error.is_none());
    let c = default_trusted_proxy_auth_config_from_env(None, SecretResolution::NotConfigured);
    assert!(!c.enabled);
    assert!(c.secret.is_none());
    let c = default_trusted_proxy_auth_config_from_env(Some("maybe"), SecretResolution::Failed("boom".to_string()));
    assert!(!c.enabled);
    assert_eq!(c.error.as_deref(), Some("boom"));
    let c = default_trusted_proxy_auth_config_from_env(Some("1"), SecretResolution::Resolved(Some("   ".to_string())));
    assert!(c.enabled);
    assert!(c.secret.is_none());
}

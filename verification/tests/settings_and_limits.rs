use agent_api::error::sqlite_profile_unavailable;
use agent_api::limits::{
    clamp_i32, clamp_i64, clamp_u64, limit_or_default, non_negative_or_zero, replay_delay_secs,
    window_secs_or_default,
};
use agent_api::quota::{check_tenant_capacity, CapacityKind};
use agent_api::settings::{
    agent_context_loader_limits, parse_bool_setting, parse_i64_text, parse_positive_i64_setting,
    parse_positive_usize_setting, parse_usize_text, split_csv_setting,
};

fn chars(s: &str) -> Vec<char> {
    s.chars().collect()
}

#[test]
fn integers_parse_like_rust() {
    assert_eq!(parse_i64_text(&chars("42")), Some(42));
    assert_eq!(parse_i64_text(&chars("+42")), Some(42));
    assert_eq!(parse_i64_text(&chars("-42")), Some(-42));
    assert_eq!(parse_i64_text(&chars("007")), Some(7));
    assert_eq!(parse_i64_text(&chars("9223372036854775807")), Some(i64::MAX));
    assert_eq!(parse_i64_text(&chars("-9223372036854775808")), Some(i64::MIN));
    assert_eq!(parse_i64_text(&chars("9223372036854775808")), None);
    assert_eq!(parse_i64_text(&chars("")), None);
    assert_eq!(parse_i64_text(&chars("-")), None);
    assert_eq!(parse_i64_text(&chars("1_000")), None);
    assert_eq!(parse_i64_text(&chars(" 1")), None);
    assert_eq!(parse_usize_text(&chars("+8")), Some(8));
    assert_eq!(parse_usize_text(&chars("-0")), None);
    assert_eq!(parse_usize_text(&chars("18446744073709551616")), None);
    for text in ["0", "12", "-5", "+5", "x", "99999999999999999999"] {
        assert_eq!(parse_i64_text(&chars(text)), text.parse::<i64>().ok(), "{text}");
        assert_eq!(parse_usize_text(&chars(text)), text.parse::<usize>().ok(), "{text}");
    }
}

#[test]
fn positive_settings() {
    assert_eq!(parse_positive_i64_setting(Some(" 25 ")), Some(25));
    assert_eq!(parse_positive_i64_setting(Some("0")), None);
    assert_eq!(parse_positive_i64_setting(Some("-3")), None);
    assert_eq!(parse_positive_i64_setting(Some("ten")), None);
    assert_eq!(parse_positive_i64_setting(None), None);
    assert_eq!(parse_positive_usize_setting(Some("4096")), Some(4096));
    assert_eq!(parse_positive_usize_setting(Some("0")), None);
}

#[test]
fn boolean_settings() {
    assert!(parse_bool_setting(Some(" On "), false));
    assert!(parse_bool_setting(Some("1"), false));
    assert!(!parse_bool_setting(Some("NO"), true));
    assert!(!parse_bool_setting(Some("off"), true));
    assert!(parse_bool_setting(Some("sure"), true));
    assert!(!parse_bool_setting(None, false));
}

#[test]
fn csv_settings() {
    assert_eq!(split_csv_setting(Some(" AGENTS.md, ,TOOLS.md,, USER.md ")), vec!["AGENTS.md", "TOOLS.md", "USER.md"]);
    assert_eq!(split_csv_setting(Some("")), Vec::<String>::new());
    assert_eq!(split_csv_setting(None), Vec::<String>::new());
}

#[test]
fn context_loader_limits() {
    let l = agent_context_loader_limits(None, Some("1000"), Some("0"));
    assert_eq!((l.max_file_bytes, l.max_total_bytes, l.max_dynamic_files_per_dir), (65536, 1000, 8));
}

#[test]
fn clamps_and_defaults() {
    assert_eq!(clamp_i64(-5, 1, 10), 1);
    assert_eq!(clamp_u64(50, 1, 10), 10);
    assert_eq!(clamp_i32(5, 1, 10), 5);
    assert_eq!(window_secs_or_default(None), 86_400);
    assert_eq!(window_secs_or_default(Some(0)), 1);
    assert_eq!(window_secs_or_default(Some(u64::MAX)), 31_536_000);
    assert_eq!(limit_or_default(None, 100, 1000), 100);
    assert_eq!(limit_or_default(Some(0), 100, 1000), 1);
    assert_eq!(replay_delay_secs(None), 0);
    assert_eq!(replay_delay_secs(Some(100_000)), 86_400);
    assert_eq!(non_negative_or_zero(Some(-4)), 0);
    assert_eq!(non_negative_or_zero(Some(4)), 4);
    assert_eq!(non_negative_or_zero(None), 0);
}

#[test]
fn tenant_capacity_is_enforced_at_the_limit() {
    assert!(check_tenant_capacity(CapacityKind::InflightRuns, 5, 4).is_ok());
    let e = check_tenant_capacity(CapacityKind::InflightRuns, 5, 5).unwrap_err();
    assert_eq!((e.status, e.code.as_str()), (429, "TENANT_INFLIGHT_LIMITED"));
    assert_eq!(e.message, "tenant is at max inflight run capacity (limit=5, inflight=5)");
    let e = check_tenant_capacity(CapacityKind::Triggers, 2, 7).unwrap_err();
    assert_eq!((e.code.as_str(), e.message.as_str()), ("TENANT_TRIGGER_LIMITED", "tenant is at max trigger capacity (limit=2, triggers=7)"));
    let e = check_tenant_capacity(CapacityKind::MemoryRecords, 10, 10).unwrap_err();
    assert_eq!(e.message, "tenant is at max memory record capacity (limit=10, active_records=10)");
}

#[test]
fn sqlite_profile_refusal() {
    let e = sqlite_profile_unavailable("/v1/ops/summary");
    assert_eq!((e.status, e.code.as_str()), (501, "SQLITE_PROFILE_ENDPOINT_UNAVAILABLE"));
    assert_eq!(e.message, "endpoint `/v1/ops/summary` is not enabled in the current sqlite API profile");
}

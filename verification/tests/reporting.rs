use agent_api::ops::{
    latency_bucket_index, latency_histogram, summarize_action_latency, summarize_gateway_lanes,
    ActionRow, GatewayRow,
};
use agent_api::replay::{order_payment_rows, plan_replay_package_query, replay_event_span};

fn gw(class: &str, cache: &str, admission: &str, slo: &str, escalated: i64) -> GatewayRow {
    GatewayRow {
        request_class: class.to_string(),
        cache_status: cache.to_string(),
        admission_status: admission.to_string(),
        slo_status: slo.to_string(),
        verifier_escalated: escalated,
    }
}

fn action(t: &str, status: &str, ms: i64) -> ActionRow {
    ActionRow { action_type: t.to_string(), status: status.to_string(), duration_ms: ms }
}

#[test]
fn latency_buckets() {
    assert_eq!(latency_bucket_index(0), 0);
    assert_eq!(latency_bucket_index(499), 0);
    assert_eq!(latency_bucket_index(500), 1);
    assert_eq!(latency_bucket_index(1999), 2);
    assert_eq!(latency_bucket_index(4999), 3);
    assert_eq!(latency_bucket_index(9999), 4);
    assert_eq!(latency_bucket_index(10000), 5);
}

#[test]
fn histogram_counts_every_run_once() {
    let h = latency_histogram(&vec![0, 10, 700, 1500, 20000, 9999, 5000]);
    let counts: Vec<usize> = h.iter().map(|b| b.run_count).collect();
    assert_eq!(counts, vec![2, 1, 1, 0, 2, 1]);
    assert_eq!(counts.iter().sum::<usize>(), 7);
    let labels: Vec<&str> = h.iter().map(|b| b.bucket_label.as_str()).collect();
    assert_eq!(labels, vec!["0-499ms", "500-999ms", "1000-1999ms", "2000-4999ms", "5000-9999ms", "10000ms+"]);
    assert_eq!((h[5].lower_bound_ms, h[5].upper_bound_exclusive_ms), (10000, None));
    assert_eq!((h[1].lower_bound_ms, h[1].upper_bound_exclusive_ms), (500, Some(1000)));
}

#[test]
fn gateway_lanes_group_by_request_class() {
    let rows = vec![
        gw("interactive", "hit", "admitted", "ok", 0),
        gw("batch", "distributed_hit", "distributed_fail_open_local", "warn", 1),
        gw("interactive", "miss", "admitted", "breach", 0),
        gw("batch", "miss", "admitted", "warn", 0),
    ];
    let s = summarize_gateway_lanes(&rows);
    let classes: Vec<&str> = s.lanes.iter().map(|l| l.request_class.as_str()).collect();
    assert_eq!(classes, vec!["batch", "interactive"]);
    let batch = &s.lanes[0];
    assert_eq!(
        (batch.total_count, batch.cache_hit_count, batch.distributed_cache_hit_count, batch.verifier_escalated_count, batch.slo_warn_count, batch.slo_breach_count, batch.distributed_fail_open_count),
        (2, 1, 1, 1, 2, 0, 1)
    );
    let inter = &s.lanes[1];
    assert_eq!((inter.total_count, inter.cache_hit_count, inter.slo_breach_count), (2, 1, 1));
    assert_eq!(s.lane_of_row, vec![1, 0, 1, 0]);
}

#[test]
fn action_latency_lists_busiest_types_first() {
    let rows = vec![
        action("llm.infer", "executed", 10),
        action("message.send", "failed", 40),
        action("llm.infer", "denied", 30),
        action("object.read", "executed", 5),
        action("message.send", "executed", 20),
        action("llm.infer", "failed", 20),
    ];
    let s = summarize_action_latency(&rows);
    let summary: Vec<(&str, usize, Option<i64>, usize, usize)> = s
        .entries
        .iter()
        .map(|e| (e.action_type.as_str(), e.total_count, e.max_duration_ms, e.failed_count, e.denied_count))
        .collect();
    assert_eq!(
        summary,
        vec![
            ("llm.infer", 3, Some(30), 1, 1),
            ("message.send", 2, Some(40), 1, 0),
            ("object.read", 1, Some(5), 0, 0),
        ]
    );
    assert_eq!(s.entry_of_row, vec![0, 1, 0, 2, 1, 0]);
}

#[test]
fn equal_counts_fall_back_to_type_order() {
    let rows = vec![action("b", "executed", 1), action("a", "executed", 2)];
    let s = summarize_action_latency(&rows);
    let types: Vec<&str> = s.entries.iter().map(|e| e.action_type.as_str()).collect();
    assert_eq!(types, vec!["a", "b"]);
    assert!(summarize_action_latency(&vec![]).entries.is_empty());
}

#[test]
fn replay_package_limits() {
    let p = plan_replay_package_query(None, Some(99999), Some(0), None);
    assert_eq!((p.audit_limit, p.compliance_limit, p.payment_limit, p.include_payments), (2000, 5000, 1, true));
    assert!(!plan_replay_package_query(None, None, None, Some(false)).include_payments);
}

#[test]
fn payment_rows_are_ordered_by_time_then_id() {
    let keys = vec![(30, 1), (10, 9), (10, 2), (20, 5), (10, 2)];
    assert_eq!(order_payment_rows(&keys), vec![2, 4, 1, 3, 0]);
}

#[test]
fn event_span_takes_first_earliest_and_last_latest() {
    assert_eq!(replay_event_span(&vec![]), None);
    assert_eq!(replay_event_span(&vec![5, 1, 9, 1, 9, 3]), Some((1, 4)));
    assert_eq!(replay_event_span(&vec![4]), Some((0, 0)));
}

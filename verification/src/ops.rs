//! Operations reporting: the run latency histogram, the LLM gateway lanes
//! and the per-action latency table.
use vstd::prelude::*;
use crate::text::{to_chars, chars_eq_str};
use crate::error::own;
use crate::grouping::{
    texts, is_grouping, strictly_sorted, group_rows, marked_in_group, count_marks, group_max,
    max_per_group,
};
use crate::text::text_lt;

verus! {

/// The number of latency buckets.
pub const LATENCY_BUCKETS: usize = 6;

/// The bucket of a run duration: under 500 ms, 1 s, 2 s, 5 s, 10 s, or
/// longer.
pub open spec fn bucket_index_spec(d: i64) -> int {
    if d < 500 {
        0
    } else if d < 1000 {
        1
    } else if d < 2000 {
        2
    } else if d < 5000 {
        3
    } else if d < 10000 {
        4
    } else {
        5
    }
}

pub open spec fn bucket_lower(b: int) -> i64 {
    if b == 0 {
        0
    } else if b == 1 {
        500
    } else if b == 2 {
        1000
    } else if b == 3 {
        2000
    } else if b == 4 {
        5000
    } else {
        10000
    }
}

pub open spec fn bucket_upper(b: int) -> Option<i64> {
    if b == 0 {
        Some(500)
    } else if b == 1 {
        Some(1000)
    } else if b == 2 {
        Some(2000)
    } else if b == 3 {
        Some(5000)
    } else if b == 4 {
        Some(10000)
    } else {
        None
    }
}

pub open spec fn bucket_label(b: int) -> Seq<char> {
    if b == 0 {
        "0-499ms"@
    } else if b == 1 {
        "500-999ms"@
    } else if b == 2 {
        "1000-1999ms"@
    } else if b == 3 {
        "2000-4999ms"@
    } else if b == 4 {
        "5000-9999ms"@
    } else {
        "10000ms+"@
    }
}

pub fn latency_bucket_index(duration_ms: i64) -> (r: usize)
    ensures
        r == bucket_index_spec(duration_ms),
        r < LATENCY_BUCKETS,
        duration_ms < 500 ==> r == 0,
        500 <= duration_ms < 1000 ==> r == 1,
        1000 <= duration_ms < 2000 ==> r == 2,
        2000 <= duration_ms < 5000 ==> r == 3,
        5000 <= duration_ms < 10000 ==> r == 4,
        duration_ms >= 10000 ==> r == 5,
{
    if duration_ms < 500 {
        0
    } else if duration_ms < 1000 {
        1
    } else if duration_ms < 2000 {
        2
    } else if duration_ms < 5000 {
        3
    } else if duration_ms < 10000 {
        4
    } else {
        5
    }
}

/// A non-negative duration lies within the bounds of its bucket.
pub proof fn law_bucket_bounds_hold_duration(d: i64)
    requires
        d >= 0,
    ensures
        bucket_lower(bucket_index_spec(d)) <= d,
        bucket_upper(bucket_index_spec(d)) matches Some(u) ==> d < u,
{
}

/// Longer runs never fall in an earlier bucket.
pub proof fn law_buckets_follow_duration(d1: i64, d2: i64)
    requires
        d1 <= d2,
    ensures
        bucket_index_spec(d1) <= bucket_index_spec(d2),
        0 <= bucket_index_spec(d1) < 6,
{
}

/// One bucket of the latency histogram.
#[derive(Debug)]
pub struct LatencyBucket {
    pub bucket_label: String,
    pub lower_bound_ms: i64,
    pub upper_bound_exclusive_ms: Option<i64>,
    pub run_count: usize,
}

/// How many of the first `n` durations fall in bucket `b`.
pub open spec fn bucket_count(durations: Seq<i64>, b: int, n: int) -> nat
    decreases n,
{
    if n <= 0 {
        0
    } else {
        bucket_count(durations, b, n - 1) + if bucket_index_spec(durations[n - 1]) == b {
            1nat
        } else {
            0nat
        }
    }
}

proof fn lemma_bucket_count_bound(durations: Seq<i64>, b: int, n: int)
    requires
        n >= 0,
    ensures
        bucket_count(durations, b, n) <= n,
    decreases n,
{
    if n > 0 {
        lemma_bucket_count_bound(durations, b, n - 1);
    }
}

fn bucket(label: &str, lower: i64, upper: Option<i64>) -> (r: LatencyBucket)
    ensures
        r.bucket_label@ == label@,
        r.lower_bound_ms == lower,
        r.upper_bound_exclusive_ms == upper,
        r.run_count == 0,
{
    LatencyBucket {
        bucket_label: own(label),
        lower_bound_ms: lower,
        upper_bound_exclusive_ms: upper,
        run_count: 0,
    }
}

/// The histogram of run durations (in whole milliseconds).
pub fn latency_histogram(durations: &Vec<i64>) -> (r: Vec<LatencyBucket>)
    ensures
        r@.len() == LATENCY_BUCKETS,
        forall|b: int|
            0 <= b < LATENCY_BUCKETS ==> {
                &&& (#[trigger] r@[b]).bucket_label@ == bucket_label(b)
                &&& r@[b].lower_bound_ms == bucket_lower(b)
                &&& r@[b].upper_bound_exclusive_ms == bucket_upper(b)
                &&& r@[b].run_count == bucket_count(durations@, b, durations@.len() as int)
            },
{
    let mut counts: Vec<usize> = vec![0, 0, 0, 0, 0, 0];
    let mut i: usize = 0;
    while i < durations.len()
        invariant
            i <= durations@.len(),
            counts@.len() == LATENCY_BUCKETS,
            forall|b: int|
                0 <= b < LATENCY_BUCKETS ==> (#[trigger] counts@[b]) == bucket_count(
                    durations@,
                    b,
                    i as int,
                ),
        decreases durations.len() - i,
    {
        let b = latency_bucket_index(durations[i]);
        proof {
            lemma_bucket_count_bound(durations@, b as int, i as int);
        }
        let c = counts[b] + 1;
        counts.set(b, c);
        i = i + 1;
    }
    let mut out: Vec<LatencyBucket> = Vec::new();
    out.push(bucket("0-499ms", 0, Some(500)));
    out.push(bucket("500-999ms", 500, Some(1000)));
    out.push(bucket("1000-1999ms", 1000, Some(2000)));
    out.push(bucket("2000-4999ms", 2000, Some(5000)));
    out.push(bucket("5000-9999ms", 5000, Some(10000)));
    out.push(bucket("10000ms+", 10000, None));
    let mut b: usize = 0;
    while b < LATENCY_BUCKETS
        invariant
            b <= LATENCY_BUCKETS,
            out@.len() == LATENCY_BUCKETS,
            counts@.len() == LATENCY_BUCKETS,
            forall|k: int|
                0 <= k < LATENCY_BUCKETS ==> {
                    &&& (#[trigger] out@[k]).bucket_label@ == bucket_label(k)
                    &&& out@[k].lower_bound_ms == bucket_lower(k)
                    &&& out@[k].upper_bound_exclusive_ms == bucket_upper(k)
                    &&& out@[k].run_count == if k < b {
                        counts@[k] as int
                    } else {
                        0int
                    }
                },
        decreases LATENCY_BUCKETS - b,
    {
        let old_bucket = &out[b];
        let nb = LatencyBucket {
            bucket_label: old_bucket.bucket_label.clone(),
            lower_bound_ms: old_bucket.lower_bound_ms,
            upper_bound_exclusive_ms: old_bucket.upper_bound_exclusive_ms,
            run_count: counts[b],
        };
        out.set(b, nb);
        b = b + 1;
    }
    out
}

/// Every run is counted in exactly one bucket: the counts add up to the
/// number of runs.
pub proof fn law_histogram_counts_every_run(durations: Seq<i64>, n: int)
    requires
        0 <= n <= durations.len(),
    ensures
        bucket_count(durations, 0, n) + bucket_count(durations, 1, n) + bucket_count(durations, 2, n)
            + bucket_count(durations, 3, n) + bucket_count(durations, 4, n) + bucket_count(
            durations,
            5,
            n,
        ) == n,
    decreases n,
{
    if n > 0 {
        law_histogram_counts_every_run(durations, n - 1);
    }
}

/// One executed LLM call, as the gateway recorded it.
#[derive(Debug)]
pub struct GatewayRow {
    pub request_class: String,
    pub cache_status: String,
    pub admission_status: String,
    pub slo_status: String,
    pub verifier_escalated: i64,
}

pub open spec fn is_cache_hit(r: GatewayRow) -> bool {
    r.cache_status@ == "hit"@ || r.cache_status@ == "distributed_hit"@
}

pub open spec fn is_distributed_hit(r: GatewayRow) -> bool {
    r.cache_status@ == "distributed_hit"@
}

pub open spec fn is_escalated(r: GatewayRow) -> bool {
    r.verifier_escalated > 0
}

pub open spec fn is_slo_warn(r: GatewayRow) -> bool {
    r.slo_status@ == "warn"@
}

pub open spec fn is_slo_breach(r: GatewayRow) -> bool {
    r.slo_status@ == "breach"@
}

pub open spec fn is_fail_open(r: GatewayRow) -> bool {
    r.admission_status@ == "distributed_fail_open_local"@
}

pub open spec fn always(r: GatewayRow) -> bool {
    true
}

pub open spec fn marks_of(rows: Seq<GatewayRow>, f: spec_fn(GatewayRow) -> bool) -> Seq<bool> {
    rows.map_values(f)
}

/// The gateway rows of one request class.
#[derive(Debug)]
pub struct GatewayLane {
    pub request_class: String,
    pub total_count: usize,
    pub cache_hit_count: usize,
    pub distributed_cache_hit_count: usize,
    pub verifier_escalated_count: usize,
    pub slo_warn_count: usize,
    pub slo_breach_count: usize,
    pub distributed_fail_open_count: usize,
}

/// The lanes, in request-class order, and the lane of each row.
#[derive(Debug)]
pub struct GatewaySummary {
    pub lanes: Vec<GatewayLane>,
    pub lane_of_row: Vec<usize>,
}

pub open spec fn lane_classes(lanes: Seq<GatewayLane>) -> Seq<Seq<char>> {
    lanes.map_values(|l: GatewayLane| l.request_class@)
}

pub open spec fn row_classes(rows: Seq<GatewayRow>) -> Seq<Seq<char>> {
    rows.map_values(|r: GatewayRow| r.request_class@)
}

fn marks_where(rows: &Vec<GatewayRow>, which: u8) -> (r: Vec<bool>)
    requires
        which < 7,
    ensures
        r@.len() == rows@.len(),
        forall|i: int|
            0 <= i < rows@.len() ==> (#[trigger] r@[i]) == if which == 0 {
                always(rows@[i])
            } else if which == 1 {
                is_cache_hit(rows@[i])
            } else if which == 2 {
                is_distributed_hit(rows@[i])
            } else if which == 3 {
                is_escalated(rows@[i])
            } else if which == 4 {
                is_slo_warn(rows@[i])
            } else if which == 5 {
                is_slo_breach(rows@[i])
            } else {
                is_fail_open(rows@[i])
            },
{
    let mut out: Vec<bool> = Vec::new();
    let mut i: usize = 0;
    while i < rows.len()
        invariant
            i <= rows@.len(),
            which < 7,
            out@.len() == i,
            forall|k: int|
                0 <= k < i ==> (#[trigger] out@[k]) == if which == 0 {
                    always(rows@[k])
                } else if which == 1 {
                    is_cache_hit(rows@[k])
                } else if which == 2 {
                    is_distributed_hit(rows@[k])
                } else if which == 3 {
                    is_escalated(rows@[k])
                } else if which == 4 {
                    is_slo_warn(rows@[k])
                } else if which == 5 {
                    is_slo_breach(rows@[k])
                } else {
                    is_fail_open(rows@[k])
                },
        decreases rows.len() - i,
    {
        let r = &rows[i];
        let cache = to_chars(r.cache_status.as_str());
        let slo = to_chars(r.slo_status.as_str());
        let adm = to_chars(r.admission_status.as_str());
        let m = if which == 0 {
            true
        } else if which == 1 {
            chars_eq_str(cache.as_slice(), "hit") || chars_eq_str(cache.as_slice(), "distributed_hit")
        } else if which == 2 {
            chars_eq_str(cache.as_slice(), "distributed_hit")
        } else if which == 3 {
            r.verifier_escalated > 0
        } else if which == 4 {
            chars_eq_str(slo.as_slice(), "warn")
        } else if which == 5 {
            chars_eq_str(slo.as_slice(), "breach")
        } else {
            chars_eq_str(adm.as_slice(), "distributed_fail_open_local")
        };
        out.push(m);
        i = i + 1;
    }
    out
}

/// Groups the gateway rows into lanes by request class, in class order,
/// counting in each lane the rows, cache hits (local or distributed),
/// distributed hits, verifier escalations, SLO warnings and breaches, and
/// distributed fail-opens.
pub fn summarize_gateway_lanes(rows: &Vec<GatewayRow>) -> (r: GatewaySummary)
    ensures
        is_grouping(row_classes(rows@), lane_classes(r.lanes@), r.lane_of_row@),
        forall|g: int|
            0 <= g < r.lanes@.len() ==> {
                let n = rows@.len() as int;
                let lo = r.lane_of_row@;
                &&& (#[trigger] r.lanes@[g]).total_count == marked_in_group(
                    lo,
                    marks_of(rows@, |x: GatewayRow| always(x)),
                    g,
                    n,
                )
                &&& r.lanes@[g].cache_hit_count == marked_in_group(
                    lo,
                    marks_of(rows@, |x: GatewayRow| is_cache_hit(x)),
                    g,
                    n,
                )
                &&& r.lanes@[g].distributed_cache_hit_count == marked_in_group(
                    lo,
                    marks_of(rows@, |x: GatewayRow| is_distributed_hit(x)),
                    g,
                    n,
                )
                &&& r.lanes@[g].verifier_escalated_count == marked_in_group(
                    lo,
                    marks_of(rows@, |x: GatewayRow| is_escalated(x)),
                    g,
                    n,
                )
                &&& r.lanes@[g].slo_warn_count == marked_in_group(
                    lo,
                    marks_of(rows@, |x: GatewayRow| is_slo_warn(x)),
                    g,
                    n,
                )
                &&& r.lanes@[g].slo_breach_count == marked_in_group(
                    lo,
                    marks_of(rows@, |x: GatewayRow| is_slo_breach(x)),
                    g,
                    n,
                )
                &&& r.lanes@[g].distributed_fail_open_count == marked_in_group(
                    lo,
                    marks_of(rows@, |x: GatewayRow| is_fail_open(x)),
                    g,
                    n,
                )
            },
{
    let mut keys: Vec<String> = Vec::new();
    let mut i: usize = 0;
    while i < rows.len()
        invariant
            i <= rows@.len(),
            texts(keys@) == row_classes(rows@).take(i as int),
        decreases rows.len() - i,
    {
        let ghost before = keys@;
        keys.push(rows[i].request_class.clone());
        proof {
            assert(texts(keys@) =~= texts(before).push(rows@[i as int].request_class@));
            assert(row_classes(rows@).take(i + 1) =~= row_classes(rows@).take(i as int).push(
                rows@[i as int].request_class@,
            ));
        }
        i = i + 1;
    }
    assert(row_classes(rows@).take(rows@.len() as int) =~= row_classes(rows@));
    let (groups, lane_of_row) = group_rows(&keys);
    let n = groups.len();
    let m0 = marks_where(rows, 0);
    let m1 = marks_where(rows, 1);
    let m2 = marks_where(rows, 2);
    let m3 = marks_where(rows, 3);
    let m4 = marks_where(rows, 4);
    let m5 = marks_where(rows, 5);
    let m6 = marks_where(rows, 6);
    proof {
        assert(m0@ =~= marks_of(rows@, |x: GatewayRow| always(x)));
        assert(m1@ =~= marks_of(rows@, |x: GatewayRow| is_cache_hit(x)));
        assert(m2@ =~= marks_of(rows@, |x: GatewayRow| is_distributed_hit(x)));
        assert(m3@ =~= marks_of(rows@, |x: GatewayRow| is_escalated(x)));
        assert(m4@ =~= marks_of(rows@, |x: GatewayRow| is_slo_warn(x)));
        assert(m5@ =~= marks_of(rows@, |x: GatewayRow| is_slo_breach(x)));
        assert(m6@ =~= marks_of(rows@, |x: GatewayRow| is_fail_open(x)));
    }
    let c0 = count_marks(&lane_of_row, &m0, n);
    let c1 = count_marks(&lane_of_row, &m1, n);
    let c2 = count_marks(&lane_of_row, &m2, n);
    let c3 = count_marks(&lane_of_row, &m3, n);
    let c4 = count_marks(&lane_of_row, &m4, n);
    let c5 = count_marks(&lane_of_row, &m5, n);
    let c6 = count_marks(&lane_of_row, &m6, n);
    let mut lanes: Vec<GatewayLane> = Vec::new();
    let mut g: usize = 0;
    while g < n
        invariant
            g <= n,
            n == groups@.len(),
            c0@.len() == n && c1@.len() == n && c2@.len() == n && c3@.len() == n,
            c4@.len() == n && c5@.len() == n && c6@.len() == n,
            lanes@.len() == g,
            forall|k: int|
                0 <= k < g ==> {
                    &&& (#[trigger] lanes@[k]).request_class@ == groups@[k]@
                    &&& lanes@[k].total_count == c0@[k]
                    &&& lanes@[k].cache_hit_count == c1@[k]
                    &&& lanes@[k].distributed_cache_hit_count == c2@[k]
                    &&& lanes@[k].verifier_escalated_count == c3@[k]
                    &&& lanes@[k].slo_warn_count == c4@[k]
                    &&& lanes@[k].slo_breach_count == c5@[k]
                    &&& lanes@[k].distributed_fail_open_count == c6@[k]
                },
        decreases n - g,
    {
        lanes.push(
            GatewayLane {
                request_class: groups[g].clone(),
                total_count: c0[g],
                cache_hit_count: c1[g],
                distributed_cache_hit_count: c2[g],
                verifier_escalated_count: c3[g],
                slo_warn_count: c4[g],
                slo_breach_count: c5[g],
                distributed_fail_open_count: c6[g],
            },
        );
        g = g + 1;
    }
    proof {
        assert(lane_classes(lanes@) =~= texts(groups@));
    }
    GatewaySummary { lanes, lane_of_row }
}


/// One action request with its duration (in whole milliseconds).
#[derive(Debug)]
pub struct ActionRow {
    pub action_type: String,
    pub status: String,
    pub duration_ms: i64,
}

/// The latency figures of one action type.
#[derive(Debug)]
pub struct ActionLatencyEntry {
    pub action_type: String,
    pub total_count: usize,
    pub max_duration_ms: Option<i64>,
    pub failed_count: usize,
    pub denied_count: usize,
}

/// The entries, busiest action type first, and the entry of each row.
#[derive(Debug)]
pub struct ActionLatencySummary {
    pub entries: Vec<ActionLatencyEntry>,
    pub entry_of_row: Vec<usize>,
}

/// How many of the first `n` rows have type `t` and status `status` (any
/// status where none is given).
pub open spec fn type_count(rows: Seq<ActionRow>, t: Seq<char>, status: Option<Seq<char>>, n: int) -> nat
    decreases n,
{
    if n <= 0 {
        0
    } else {
        type_count(rows, t, status, n - 1) + if rows[n - 1].action_type@ == t && match status {
            Some(s) => rows[n - 1].status@ == s,
            None => true,
        } {
            1nat
        } else {
            0nat
        }
    }
}

/// The longest duration among the first `n` rows of type `t`.
pub open spec fn type_max(rows: Seq<ActionRow>, t: Seq<char>, n: int) -> Option<i64>
    decreases n,
{
    if n <= 0 {
        None
    } else {
        let m = type_max(rows, t, n - 1);
        if rows[n - 1].action_type@ == t {
            match m {
                Some(x) => Some(if x >= rows[n - 1].duration_ms { x } else { rows[n - 1].duration_ms }),
                None => Some(rows[n - 1].duration_ms),
            }
        } else {
            m
        }
    }
}

pub open spec fn action_types(rows: Seq<ActionRow>) -> Seq<Seq<char>> {
    rows.map_values(|r: ActionRow| r.action_type@)
}

pub open spec fn status_marks(rows: Seq<ActionRow>, status: Option<Seq<char>>) -> Seq<bool> {
    rows.map_values(
        |r: ActionRow|
            match status {
                Some(s) => r.status@ == s,
                None => true,
            },
    )
}

proof fn lemma_group_count_is_type_count(
    rows: Seq<ActionRow>,
    groups: Seq<Seq<char>>,
    group_of: Seq<usize>,
    status: Option<Seq<char>>,
    g: int,
    n: int,
)
    requires
        is_grouping(action_types(rows), groups, group_of),
        0 <= g < groups.len(),
        0 <= n <= rows.len(),
    ensures
        marked_in_group(group_of, status_marks(rows, status), g, n) == type_count(
            rows,
            groups[g],
            status,
            n,
        ),
        group_max(group_of, rows.map_values(|r: ActionRow| r.duration_ms), g, n) == type_max(
            rows,
            groups[g],
            n,
        ),
    decreases n,
{
    if n > 0 {
        lemma_group_count_is_type_count(rows, groups, group_of, status, g, n - 1);
        let i = n - 1;
        assert(action_types(rows)[i] == rows[i].action_type@);
        assert(group_of[i] < groups.len() && groups[group_of[i] as int] == action_types(rows)[i]);
        if group_of[i] != g {
            if rows[i].action_type@ == groups[g] {
                let h = group_of[i] as int;
                if h < g {
                    assert(text_lt(groups[h], groups[g]));
                } else {
                    assert(text_lt(groups[g], groups[h]));
                }
                crate::text::lemma_text_lt_irreflexive(groups[g]);
            }
        }
    }
}

/// Group `i` is listed before group `j`: more requests, or as many and
/// an earlier type (the groups being in type order).
pub open spec fn busier_first(counts: Seq<usize>, i: int, j: int) -> bool {
    counts[i] > counts[j] || (counts[i] == counts[j] && i < j)
}

/// Index `h` occurs in `ord`.
pub open spec fn listed(ord: Seq<usize>, h: int) -> bool {
    exists|q: int| 0 <= q < ord.len() && ord[q] == h
}

/// Orders groups by count, largest first, ties keeping their order.
fn order_by_count_desc(counts: &Vec<usize>) -> (ord: Vec<usize>)
    ensures
        ord@.len() == counts@.len(),
        forall|p: int| 0 <= p < ord@.len() ==> (#[trigger] ord@[p]) < counts@.len(),
        forall|p: int, q: int| 0 <= p < q < ord@.len() ==> ord@[p] != ord@[q],
        forall|p: int, q: int|
            0 <= p < q < ord@.len() ==> busier_first(counts@, #[trigger] ord@[p] as int, #[trigger] ord@[q] as int),
        forall|h: int| 0 <= h < counts@.len() ==> #[trigger] listed(ord@, h),
{
    let n = counts.len();
    let mut ord: Vec<usize> = Vec::new();
    let mut k: usize = 0;
    while k < n
        invariant
            n == counts@.len(),
            k <= n,
            ord@.len() == k,
            forall|p: int| 0 <= p < k ==> ord@[p] == p,
        decreases n - k,
    {
        ord.push(k);
        k = k + 1;
    }
    assert forall|h: int| 0 <= h < n implies #[trigger] listed(ord@, h) by {
        assert(ord@[h] == h);
    }
    let mut i: usize = 1;
    while i < n
        invariant
            n == counts@.len(),
            ord@.len() == n,
            forall|p: int| 0 <= p < n ==> (#[trigger] ord@[p]) < n,
            forall|p: int, q: int| 0 <= p < q < n ==> ord@[p] != ord@[q],
            forall|p: int, q: int|
                0 <= p < q < i && q < n ==> busier_first(counts@, #[trigger] ord@[p] as int, #[trigger] ord@[q] as int),
            forall|h: int| 0 <= h < n ==> #[trigger] listed(ord@, h),
        decreases n - i,
    {
        let mut j: usize = i;
        while j > 0 && (counts[ord[j]] > counts[ord[j - 1]] || (counts[ord[j]] == counts[ord[j - 1]]
            && ord[j] < ord[j - 1]))
            invariant
                n == counts@.len(),
                i < n,
                j <= i,
                ord@.len() == n,
                forall|p: int| 0 <= p < n ==> (#[trigger] ord@[p]) < n,
                forall|p: int, q: int| 0 <= p < q < n ==> ord@[p] != ord@[q],
                forall|p: int, q: int|
                    0 <= p < q <= i && p != j && q != j ==> busier_first(
                        counts@,
                        #[trigger] ord@[p] as int,
                        #[trigger] ord@[q] as int,
                    ),
                forall|q: int|
                    j < q <= i ==> busier_first(counts@, ord@[j as int] as int, #[trigger] ord@[q] as int),
                forall|h: int| 0 <= h < n ==> #[trigger] listed(ord@, h),
            decreases j,
        {
            let a = ord[j];
            let b = ord[j - 1];
            let ghost before = ord@;
            ord.set(j, b);
            ord.set(j - 1, a);
            proof {
                assert forall|h: int| 0 <= h < n implies #[trigger] listed(ord@, h) by {
                    assert(listed(before, h));
                    let q = choose|q: int| 0 <= q < before.len() && before[q] == h;
                    if q == j {
                        assert(ord@[j - 1] == h);
                    } else if q == j - 1 {
                        assert(ord@[j as int] == h);
                    } else {
                        assert(ord@[q] == h);
                    }
                }
            }
            j = j - 1;
        }
        proof {
            if j > 0 {
                let x = ord@[j as int] as int;
                let y = ord@[j - 1] as int;
                assert(busier_first(counts@, y, x));
                assert forall|p: int| 0 <= p < j implies busier_first(counts@, #[trigger] ord@[p] as int, x) by {
                    if p < j - 1 {
                        assert(busier_first(counts@, ord@[p] as int, y));
                    }
                }
            }
            assert forall|p: int, q: int|
                0 <= p < q < i + 1 && q < n implies busier_first(counts@, #[trigger] ord@[p] as int, #[trigger] ord@[q] as int) by {
                if q == j {
                    assert(p < j);
                }
            }
        }
        i = i + 1;
    }
    ord
}

/// The per-action latency table: one entry per action type, the busiest
/// first (ties by type), with its request count, longest duration, and
/// failed and denied counts.
pub fn summarize_action_latency(rows: &Vec<ActionRow>) -> (r: ActionLatencySummary)
    ensures
        r.entry_of_row@.len() == rows@.len(),
        forall|i: int|
            0 <= i < rows@.len() ==> (#[trigger] r.entry_of_row@[i]) < r.entries@.len()
                && r.entries@[r.entry_of_row@[i] as int].action_type@ == rows@[i].action_type@,
        forall|t: Seq<char>|
            (exists|p: int| 0 <= p < r.entries@.len() && #[trigger] r.entries@[p].action_type@ == t)
                <==> action_types(rows@).contains(t),
        forall|p: int|
            0 <= p < r.entries@.len() ==> {
                let t = (#[trigger] r.entries@[p]).action_type@;
                let n = rows@.len() as int;
                &&& r.entries@[p].total_count == type_count(rows@, t, None, n)
                &&& r.entries@[p].failed_count == type_count(rows@, t, Some("failed"@), n)
                &&& r.entries@[p].denied_count == type_count(rows@, t, Some("denied"@), n)
                &&& r.entries@[p].max_duration_ms == type_max(rows@, t, n)
            },
        forall|p: int, q: int|
            0 <= p < q < r.entries@.len() ==> {
                ||| (#[trigger] r.entries@[p]).total_count > (#[trigger] r.entries@[q]).total_count
                ||| (r.entries@[p].total_count == r.entries@[q].total_count && text_lt(
                    r.entries@[p].action_type@,
                    r.entries@[q].action_type@,
                ))
            },
{
    let mut keys: Vec<String> = Vec::new();
    let mut durations: Vec<i64> = Vec::new();
    let mut all: Vec<bool> = Vec::new();
    let mut failed: Vec<bool> = Vec::new();
    let mut denied: Vec<bool> = Vec::new();
    let mut i: usize = 0;
    while i < rows.len()
        invariant
            i <= rows@.len(),
            texts(keys@) == action_types(rows@).take(i as int),
            durations@ == rows@.map_values(|r: ActionRow| r.duration_ms).take(i as int),
            all@ == status_marks(rows@, None).take(i as int),
            failed@ == status_marks(rows@, Some("failed"@)).take(i as int),
            denied@ == status_marks(rows@, Some("denied"@)).take(i as int),
        decreases rows.len() - i,
    {
        let r = &rows[i];
        let ghost before = keys@;
        keys.push(r.action_type.clone());
        durations.push(r.duration_ms);
        all.push(true);
        let st = to_chars(r.status.as_str());
        failed.push(chars_eq_str(st.as_slice(), "failed"));
        denied.push(chars_eq_str(st.as_slice(), "denied"));
        proof {
            assert(texts(keys@) =~= texts(before).push(r.action_type@));
            assert(action_types(rows@).take(i + 1) =~= action_types(rows@).take(i as int).push(r.action_type@));
            assert(durations@ =~= rows@.map_values(|r: ActionRow| r.duration_ms).take(i + 1));
            assert(all@ =~= status_marks(rows@, None).take(i + 1));
            assert(failed@ =~= status_marks(rows@, Some("failed"@)).take(i + 1));
            assert(denied@ =~= status_marks(rows@, Some("denied"@)).take(i + 1));
        }
        i = i + 1;
    }
    proof {
        assert(action_types(rows@).take(rows@.len() as int) =~= action_types(rows@));
        assert(durations@ =~= rows@.map_values(|r: ActionRow| r.duration_ms));
        assert(all@ =~= status_marks(rows@, None));
        assert(failed@ =~= status_marks(rows@, Some("failed"@)));
        assert(denied@ =~= status_marks(rows@, Some("denied"@)));
    }
    let (groups, group_of) = group_rows(&keys);
    let n = groups.len();
    let totals = count_marks(&group_of, &all, n);
    let fails = count_marks(&group_of, &failed, n);
    let denies = count_marks(&group_of, &denied, n);
    let maxes = max_per_group(&group_of, &durations, n);
    let ghost gv = texts(groups@);
    let ghost nrows = rows@.len() as int;
    proof {
        assert forall|g: int| 0 <= g < n implies {
            &&& totals@[g] == type_count(rows@, #[trigger] gv[g], None, nrows)
            &&& fails@[g] == type_count(rows@, gv[g], Some("failed"@), nrows)
            &&& denies@[g] == type_count(rows@, gv[g], Some("denied"@), nrows)
            &&& maxes@[g] == type_max(rows@, gv[g], nrows)
        } by {
            lemma_group_count_is_type_count(rows@, gv, group_of@, None, g, nrows);
            lemma_group_count_is_type_count(rows@, gv, group_of@, Some("failed"@), g, nrows);
            lemma_group_count_is_type_count(rows@, gv, group_of@, Some("denied"@), g, nrows);
        }
    }
    let ord = order_by_count_desc(&totals);
    let mut entries: Vec<ActionLatencyEntry> = Vec::new();
    let mut position: Vec<usize> = Vec::new();
    let mut g: usize = 0;
    while g < n
        invariant
            g <= n,
            position@.len() == g,
            forall|h: int| 0 <= h < g ==> position@[h] == 0,
        decreases n - g,
    {
        position.push(0);
        g = g + 1;
    }
    let mut p: usize = 0;
    while p < n
        invariant
            p <= n,
            n == groups@.len(),
            gv == texts(groups@),
            ord@.len() == n,
            totals@.len() == n && fails@.len() == n && denies@.len() == n && maxes@.len() == n,
            position@.len() == n,
            forall|q: int| 0 <= q < n ==> (#[trigger] ord@[q]) < n,
            forall|q1: int, q2: int| 0 <= q1 < q2 < n ==> ord@[q1] != ord@[q2],
            entries@.len() == p,
            forall|q: int|
                0 <= q < p ==> {
                    let h = ord@[q] as int;
                    &&& (#[trigger] entries@[q]).action_type@ == gv[h]
                    &&& entries@[q].total_count == totals@[h]
                    &&& entries@[q].failed_count == fails@[h]
                    &&& entries@[q].denied_count == denies@[h]
                    &&& entries@[q].max_duration_ms == maxes@[h]
                    &&& position@[h] == q
                },
        decreases n - p,
    {
        let h = ord[p];
        entries.push(
            ActionLatencyEntry {
                action_type: groups[h].clone(),
                total_count: totals[h],
                max_duration_ms: maxes[h],
                failed_count: fails[h],
                denied_count: denies[h],
            },
        );
        proof {
            assert forall|q: int| 0 <= q < p implies ord@[q] != h by {}
        }
        position.set(h, p);
        p = p + 1;
    }
    proof {
        assert forall|h: int| 0 <= h < n implies (#[trigger] position@[h]) < n && ord@[position@[h] as int] == h by {
            assert(listed(ord@, h));
            let q = choose|q: int| 0 <= q < ord@.len() && ord@[q] == h;
            assert(entries@[q].action_type@ == gv[h]);
        }
    }
    let mut entry_of_row: Vec<usize> = Vec::new();
    let mut i2: usize = 0;
    while i2 < group_of.len()
        invariant
            i2 <= group_of@.len(),
            position@.len() == n,
            entry_of_row@.len() == i2,
            forall|q: int| 0 <= q < i2 ==> #[trigger] entry_of_row@[q] == position@[group_of@[q] as int],
            forall|q: int| 0 <= q < group_of@.len() ==> (#[trigger] group_of@[q]) < n,
        decreases group_of.len() - i2,
    {
        entry_of_row.push(position[group_of[i2]]);
        i2 = i2 + 1;
    }
    proof {
        assert forall|t: Seq<char>|
            (exists|p: int| 0 <= p < entries@.len() && #[trigger] entries@[p].action_type@ == t)
                <==> action_types(rows@).contains(t) by {
            if exists|p: int| 0 <= p < entries@.len() && #[trigger] entries@[p].action_type@ == t {
                let p = choose|p: int| 0 <= p < entries@.len() && #[trigger] entries@[p].action_type@ == t;
                let h = ord@[p] as int;
                assert(gv[h] == t);
                assert(gv.contains(t));
            }
            if action_types(rows@).contains(t) {
                assert(gv.contains(t));
                let h = choose|h: int| 0 <= h < gv.len() && gv[h] == t;
                assert(listed(ord@, h));
                let q = choose|q: int| 0 <= q < ord@.len() && ord@[q] == h;
                assert(entries@[q].action_type@ == t);
            }
        }
    }
    ActionLatencySummary { entries, entry_of_row }
}
} // verus!

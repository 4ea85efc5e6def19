//! SIEM delivery: queueing requests, NDJSON framing, the alert rules over
//! delivery targets, alert acknowledgements and the order alerts are
//! listed in.
use vstd::prelude::*;
use crate::text::{
    text_lt, text_lt_exec, lemma_text_lt_total, lemma_text_lt_asymmetric, lemma_text_lt_transitive,
    trim, to_chars, trim_chars, from_chars, trim_non_empty, trim_non_empty_spec, utf8_len,
    utf8_len_exceeds, dec_int, dec_i64, append_chars, append_str, chars_eq, chars_eq_str,
};
use crate::error::{ApiError, ErrView, bad_request, forbidden, own};
use crate::compliance::{
    SiemAdapter, adapter_spec, opt_string_view, run_scope_spec, compliance_alert_run_scope,
};
use crate::limits::{clamp_spec, clamp_i32, limit_or_default, or_default_i64};

verus! {

/// The Elasticsearch index that bulk deliveries go to by default.
pub open spec fn default_elastic_index() -> Seq<char> {
    "secureagnt-compliance-audit"@
}

/// The most events one delivery carries.
pub const MAX_DELIVERY_EVENTS: i64 = 1000;

/// The events one delivery carries by default.
pub const DEFAULT_DELIVERY_EVENTS: i64 = 500;

/// The longest acknowledgement note, in bytes.
pub const MAX_ACK_NOTE_BYTES: usize = 2000;

/// A request to queue a SIEM delivery.
#[derive(Debug)]
pub struct SiemDeliveryRequest {
    pub limit: Option<i64>,
    pub run_id: Option<u128>,
    pub event_type: Option<String>,
    pub adapter: Option<String>,
    pub elastic_index: Option<String>,
    pub delivery_target: String,
    pub max_attempts: Option<i32>,
}

/// What a valid delivery request queues.
#[derive(Debug)]
pub struct SiemDeliveryPlan {
    pub delivery_target: String,
    pub limit: i64,
    pub run_id: Option<u128>,
    pub event_type: Option<String>,
    pub adapter: SiemAdapter,
    pub elastic_index: String,
    pub max_attempts: i32,
}

pub open spec fn opt_trim(o: Option<String>) -> Option<Seq<char>> {
    match o {
        Some(s) => trim_non_empty_spec(s@),
        None => None,
    }
}

pub open spec fn max_attempts_spec(raw: Option<i32>) -> int {
    clamp_spec(
        match raw {
            Some(v) => v as int,
            None => 3,
        },
        1,
        20,
    )
}

fn opt_trimmed(o: &Option<String>) -> (r: Option<String>)
    ensures
        opt_string_view(r) == opt_trim(*o),
{
    match o {
        Some(s) => trim_non_empty(Some(s.as_str())),
        None => None,
    }
}

/// Validates a delivery request: the target must not be blank and the
/// adapter must be known; the page of events defaults to 500 (at most
/// 1000), the attempts to 3 (between 1 and 20).
pub fn plan_siem_delivery(req: &SiemDeliveryRequest) -> (r: Result<SiemDeliveryPlan, ApiError>)
    ensures
        match r {
            Err(e) => (trim(req.delivery_target@).len() == 0 && e@ == bad_request(
                "delivery_target must not be empty"@,
            )) || (trim(req.delivery_target@).len() > 0 && adapter_spec(
                opt_string_view(req.adapter),
            ) == Err::<SiemAdapter, ErrView>(e@)),
            Ok(p) => {
                &&& trim(req.delivery_target@).len() > 0
                &&& adapter_spec(opt_string_view(req.adapter)) == Ok::<SiemAdapter, ErrView>(
                    p.adapter,
                )
                &&& p.delivery_target@ == trim(req.delivery_target@)
                &&& p.limit == clamp_spec(
                    or_default_i64(req.limit, DEFAULT_DELIVERY_EVENTS),
                    1,
                    MAX_DELIVERY_EVENTS as int,
                )
                &&& p.run_id == req.run_id
                &&& opt_string_view(p.event_type) == opt_trim(req.event_type)
                &&& p.elastic_index@ == match opt_trim(req.elastic_index) {
                    Some(s) => s,
                    None => default_elastic_index(),
                }
                &&& p.max_attempts == max_attempts_spec(req.max_attempts)
            },
        },
        r matches Ok(p) ==> (req.limit is None ==> p.limit == 500),
        r matches Ok(p) ==> (req.limit matches Some(v) ==> (1 <= v <= 1000 ==> p.limit == v)),
        r matches Ok(p) ==> (req.max_attempts is None ==> p.max_attempts == 3),
        r matches Ok(p) ==> (req.max_attempts matches Some(v) ==> (1 <= v <= 20 ==> p.max_attempts
            == v)),
        r matches Ok(p) ==> (req.max_attempts matches Some(v) ==> (v < 1 ==> p.max_attempts == 1)),
        r matches Ok(p) ==> (req.max_attempts matches Some(v) ==> (v > 20 ==> p.max_attempts == 20)),
{
    let target = to_chars(req.delivery_target.as_str());
    let target = trim_chars(target.as_slice());
    if target.len() == 0 {
        return Err(ApiError::bad_request("delivery_target must not be empty"));
    }
    let limit = limit_or_default(req.limit, DEFAULT_DELIVERY_EVENTS, MAX_DELIVERY_EVENTS);
    let event_type = opt_trimmed(&req.event_type);
    let adapter = match &req.adapter {
        Some(a) => SiemAdapter::parse(Some(a.as_str())),
        None => SiemAdapter::parse(None),
    };
    let adapter = match adapter {
        Ok(a) => a,
        Err(e) => return Err(e),
    };
    let elastic_index = match opt_trimmed(&req.elastic_index) {
        Some(s) => s,
        None => own("secureagnt-compliance-audit"),
    };
    let attempts = match req.max_attempts {
        Some(v) => v,
        None => 3,
    };
    Ok(
        SiemDeliveryPlan {
            delivery_target: from_chars(target.as_slice()),
            limit,
            run_id: req.run_id,
            event_type,
            adapter,
            elastic_index,
            max_attempts: clamp_i32(attempts, 1, 20),
        },
    )
}

/// What an export of compliance events to a SIEM format uses.
#[derive(Debug)]
pub struct SiemExportPlan {
    pub limit: i64,
    pub event_type: Option<String>,
    pub adapter: SiemAdapter,
    pub elastic_index: String,
}

/// An export: 500 events by default, at most 1000, in a known adapter's
/// format, to the default Elasticsearch index unless one is named.
pub fn plan_siem_export(
    limit: Option<i64>,
    event_type: &Option<String>,
    adapter: &Option<String>,
    elastic_index: &Option<String>,
) -> (r: Result<SiemExportPlan, ApiError>)
    ensures
        match (r, adapter_spec(opt_string_view(*adapter))) {
            (Err(e), Err(f)) => e@ == f,
            (Ok(p), Ok(a)) => {
                &&& p.adapter == a
                &&& p.limit == clamp_spec(or_default_i64(limit, 500), 1, 1000)
                &&& opt_string_view(p.event_type) == opt_trim(*event_type)
                &&& p.elastic_index@ == match opt_trim(*elastic_index) {
                    Some(s) => s,
                    None => default_elastic_index(),
                }
            },
            _ => false,
        },
{
    let lim = limit_or_default(limit, 500, 1000);
    let et = opt_trimmed(event_type);
    let a = match adapter {
        Some(x) => SiemAdapter::parse(Some(x.as_str())),
        None => SiemAdapter::parse(None),
    };
    let a = match a {
        Ok(v) => v,
        Err(e) => return Err(e),
    };
    let index = match opt_trimmed(elastic_index) {
        Some(s) => s,
        None => own("secureagnt-compliance-audit"),
    };
    Ok(SiemExportPlan { limit: lim, event_type: et, adapter: a, elastic_index: index })
}

/// Lines joined as NDJSON: each line followed by a newline.
pub open spec fn ndjson(lines: Seq<String>) -> Seq<char>
    decreases lines.len(),
{
    if lines.len() == 0 {
        Seq::empty()
    } else {
        ndjson(lines.drop_last()) + lines.last()@ + seq!['\n']
    }
}

/// Frames serialized records as an NDJSON payload.
pub fn frame_ndjson(lines: &Vec<String>) -> (r: String)
    ensures
        r@ == ndjson(lines@),
{
    let mut out: Vec<char> = Vec::new();
    let mut i: usize = 0;
    while i < lines.len()
        invariant
            i <= lines@.len(),
            out@ == ndjson(lines@.take(i as int)),
        decreases lines.len() - i,
    {
        append_str(&mut out, lines[i].as_str());
        out.push('\n');
        proof {
            assert(lines@.take(i + 1).drop_last() =~= lines@.take(i as int));
        }
        i = i + 1;
    }
    proof {
        assert(lines@.take(lines@.len() as int) =~= lines@);
    }
    from_chars(out.as_slice())
}

pub open spec fn texts(v: Seq<String>) -> Seq<Seq<char>> {
    v.map_values(|s: String| s@)
}

/// Records and bulk actions interleaved: each action line before its
/// record.
pub open spec fn interleave(actions: Seq<Seq<char>>, records: Seq<Seq<char>>) -> Seq<Seq<char>>
    decreases records.len(),
{
    if records.len() == 0 {
        Seq::empty()
    } else {
        interleave(actions.drop_last(), records.drop_last()).push(actions.last()).push(records.last())
    }
}

/// The lines of an adapter's payload: the serialized records, each
/// preceded by its bulk action line for Elasticsearch.
pub fn siem_payload_lines(adapter: SiemAdapter, records: &Vec<String>, bulk_actions: &Vec<String>) -> (r:
    Vec<String>)
    requires
        adapter == SiemAdapter::ElasticBulk ==> bulk_actions@.len() == records@.len(),
    ensures
        adapter == SiemAdapter::ElasticBulk ==> texts(r@) == interleave(
            texts(bulk_actions@),
            texts(records@),
        ),
        adapter != SiemAdapter::ElasticBulk ==> texts(r@) == texts(records@),
{
    let elastic = match adapter {
        SiemAdapter::ElasticBulk => true,
        _ => false,
    };
    let ghost a0 = texts(bulk_actions@);
    let ghost r0 = texts(records@);
    let mut out: Vec<String> = Vec::new();
    let n = records.len();
    let mut i: usize = 0;
    assert(a0.take(0) =~= Seq::<Seq<char>>::empty());
    assert(r0.take(0) =~= Seq::<Seq<char>>::empty());
    assert(texts(out@) =~= Seq::<Seq<char>>::empty());
    while i < n
        invariant
            n == records@.len(),
            a0 == texts(bulk_actions@),
            r0 == texts(records@),
            elastic ==> bulk_actions@.len() == n,
            i <= n,
            elastic ==> texts(out@) == interleave(a0.take(i as int), r0.take(i as int)),
            !elastic ==> texts(out@) == r0.take(i as int),
        decreases n - i,
    {
        let ghost before = out@;
        if elastic {
            out.push(bulk_actions[i].clone());
        }
        out.push(records[i].clone());
        proof {
            assert(r0.take(i + 1).drop_last() =~= r0.take(i as int));
            assert(r0.take(i + 1).last() == records@[i as int]@);
            if elastic {
                assert(a0.take(i + 1).drop_last() =~= a0.take(i as int));
                assert(a0.take(i + 1).last() == bulk_actions@[i as int]@);
                assert(texts(out@) =~= texts(before).push(bulk_actions@[i as int]@).push(records@[i as int]@));
            } else {
                assert(texts(out@) =~= texts(before).push(records@[i as int]@));
                assert(r0.take(i + 1) =~= r0.take(i as int).push(records@[i as int]@));
            }
        }
        i = i + 1;
    }
    proof {
        assert(r0.take(n as int) =~= r0);
        if elastic {
            assert(a0.take(n as int) =~= a0);
        }
    }
    out
}

/// The delivery counts of one target over a window.
#[derive(Debug)]
pub struct DeliveryTargetCounts {
    pub delivery_target: String,
    pub total_count: i64,
    pub pending_count: i64,
    pub processing_count: i64,
    pub failed_count: i64,
    pub delivered_count: i64,
    pub dead_lettered_count: i64,
}

/// A rule an alert triggered.
#[derive(Debug, Clone, Copy, PartialEq, Eq, Structural)]
pub enum AlertRule {
    /// More deliveries are pending than the threshold allows.
    PendingCount { pending: i64, max: i64 },
    /// The share of failed and dead-lettered deliveries is over its
    /// threshold.
    HardFailureRate,
    /// The share of dead-lettered deliveries is over its threshold.
    DeadLetterRate,
}

/// How urgent an alert is.
#[derive(Debug, Clone, Copy, PartialEq, Eq, Structural)]
pub enum Severity {
    Critical,
    Warning,
}

impl Severity {
    pub fn as_str(self) -> (r: &'static str)
        ensures
            r@ == (match self {
                Severity::Critical => "critical"@,
                Severity::Warning => "warning"@,
            }),
    {
        match self {
            Severity::Critical => "critical",
            Severity::Warning => "warning",
        }
    }
}

/// The rules and severity of a target's alert.
#[derive(Debug)]
pub struct AlertVerdict {
    pub rules: Vec<AlertRule>,
    pub severity: Severity,
}

/// The rules a target triggers, in order: the pending count over its
/// threshold, then, where the target had deliveries at all, each failure
/// rate over its threshold (the rates are only defined for a positive
/// total, and whether each exceeds its threshold is given).
pub open spec fn triggered_rules(
    c: DeliveryTargetCounts,
    max_pending: i64,
    hard_exceeds: bool,
    dead_exceeds: bool,
) -> Seq<AlertRule> {
    let p = if c.pending_count > max_pending {
        seq![AlertRule::PendingCount { pending: c.pending_count, max: max_pending }]
    } else {
        Seq::empty()
    };
    let h = if c.total_count > 0 && hard_exceeds {
        seq![AlertRule::HardFailureRate]
    } else {
        Seq::empty()
    };
    let d = if c.total_count > 0 && dead_exceeds {
        seq![AlertRule::DeadLetterRate]
    } else {
        Seq::empty()
    };
    p + h + d
}

/// An alert is critical when a rate rule triggered, a warning otherwise.
pub open spec fn severity_of(rules: Seq<AlertRule>) -> Severity {
    if exists|i: int| 0 <= i < rules.len() && !(rules[i] is PendingCount) {
        Severity::Critical
    } else {
        Severity::Warning
    }
}

/// Each rule is decided by its own threshold alone: the pending rule by the
/// pending count, each rate rule by its own rate where the target had
/// deliveries. An alert is raised exactly when some rule triggers, and it is
/// critical exactly when a rate rule triggers.
pub proof fn law_each_rule_decided_by_its_own_threshold(
    c: DeliveryTargetCounts,
    max_pending: i64,
    hard_exceeds: bool,
    dead_exceeds: bool,
)
    ensures
        triggered_rules(c, max_pending, hard_exceeds, dead_exceeds).contains(
            AlertRule::PendingCount { pending: c.pending_count, max: max_pending },
        ) <==> c.pending_count > max_pending,
        triggered_rules(c, max_pending, hard_exceeds, dead_exceeds).contains(
            AlertRule::HardFailureRate,
        ) <==> (c.total_count > 0 && hard_exceeds),
        triggered_rules(c, max_pending, hard_exceeds, dead_exceeds).contains(
            AlertRule::DeadLetterRate,
        ) <==> (c.total_count > 0 && dead_exceeds),
        triggered_rules(c, max_pending, hard_exceeds, dead_exceeds).len() > 0 <==> (c.pending_count
            > max_pending || (c.total_count > 0 && (hard_exceeds || dead_exceeds))),
        severity_of(triggered_rules(c, max_pending, hard_exceeds, dead_exceeds)) == Severity::Critical
            <==> (c.total_count > 0 && (hard_exceeds || dead_exceeds)),
{
    let rules = triggered_rules(c, max_pending, hard_exceeds, dead_exceeds);
    let pr = AlertRule::PendingCount { pending: c.pending_count, max: max_pending };
    let p: Seq<AlertRule> = if c.pending_count > max_pending {
        seq![pr]
    } else {
        Seq::empty()
    };
    let h: Seq<AlertRule> = if c.total_count > 0 && hard_exceeds {
        seq![AlertRule::HardFailureRate]
    } else {
        Seq::empty()
    };
    let d: Seq<AlertRule> = if c.total_count > 0 && dead_exceeds {
        seq![AlertRule::DeadLetterRate]
    } else {
        Seq::empty()
    };
    assert(rules =~= p + h + d);
    assert forall|i: int| 0 <= i < h.len() + d.len() implies !(#[trigger] rules[p.len()
        + i] is PendingCount) by {
        if i < h.len() {
            assert(rules[p.len() + i] == h[i]);
        } else {
            assert(rules[p.len() + i] == d[i - h.len()]);
        }
    }
    assert forall|i: int| 0 <= i < p.len() implies (#[trigger] rules[i]) == pr by {
        assert(rules[i] == p[i]);
    }
    if c.pending_count > max_pending {
        assert(rules[0] == pr);
    }
    if c.total_count > 0 && hard_exceeds {
        assert(rules[p.len() as int] == AlertRule::HardFailureRate);
        assert(!(rules[p.len() as int] is PendingCount));
    }
    if c.total_count > 0 && dead_exceeds {
        assert(rules[(p.len() + h.len()) as int] == AlertRule::DeadLetterRate);
        assert(!(rules[(p.len() + h.len()) as int] is PendingCount));
    }
    if rules.contains(AlertRule::HardFailureRate) {
        let k = choose|k: int| 0 <= k < rules.len() && rules[k] == AlertRule::HardFailureRate;
        if k < p.len() {
            assert(rules[k] == pr);
        } else if k < p.len() + h.len() {
        } else {
            assert(rules[k] == d[k - p.len() - h.len()]);
        }
    }
    if rules.contains(AlertRule::DeadLetterRate) {
        let k = choose|k: int| 0 <= k < rules.len() && rules[k] == AlertRule::DeadLetterRate;
        if k < p.len() {
            assert(rules[k] == pr);
        } else if k < p.len() + h.len() {
            assert(rules[k] == h[k - p.len()]);
        }
    }
    if rules.contains(pr) {
        let k = choose|k: int| 0 <= k < rules.len() && rules[k] == pr;
        if k >= p.len() {
            assert(!(rules[p.len() + (k - p.len())] is PendingCount));
        }
    }
    if severity_of(rules) == Severity::Critical {
        let k = choose|k: int| 0 <= k < rules.len() && !(rules[k] is PendingCount);
        if k < p.len() {
            assert(rules[k] == pr);
        }
    }
}

/// Evaluates the alert rules for one target; none when no rule triggers.
pub fn evaluate_delivery_alert(
    counts: &DeliveryTargetCounts,
    max_pending_count: i64,
    hard_failure_rate_exceeds: bool,
    dead_letter_rate_exceeds: bool,
) -> (r: Option<AlertVerdict>)
    ensures
        match r {
            None => triggered_rules(
                *counts,
                max_pending_count,
                hard_failure_rate_exceeds,
                dead_letter_rate_exceeds,
            ).len() == 0,
            Some(v) => {
                &&& v.rules@ == triggered_rules(
                    *counts,
                    max_pending_count,
                    hard_failure_rate_exceeds,
                    dead_letter_rate_exceeds,
                )
                &&& v.rules@.len() > 0
                &&& v.severity == severity_of(v.rules@)
            },
        },
        counts.pending_count > max_pending_count ==> (r is Some && r->0.rules@.contains(
            AlertRule::PendingCount { pending: counts.pending_count, max: max_pending_count },
        )),
        counts.total_count > 0 && hard_failure_rate_exceeds ==> (r is Some
            && r->0.rules@.contains(AlertRule::HardFailureRate)
            && r->0.severity == Severity::Critical),
        counts.total_count > 0 && dead_letter_rate_exceeds ==> (r is Some
            && r->0.rules@.contains(AlertRule::DeadLetterRate)
            && r->0.severity == Severity::Critical),
        r is None <==> (counts.pending_count <= max_pending_count && (counts.total_count <= 0 || (
        !hard_failure_rate_exceeds && !dead_letter_rate_exceeds))),
        r matches Some(v) ==> (v.rules@.contains(AlertRule::HardFailureRate) <==> (
        counts.total_count > 0 && hard_failure_rate_exceeds)),
        r matches Some(v) ==> (v.rules@.contains(AlertRule::DeadLetterRate) <==> (
        counts.total_count > 0 && dead_letter_rate_exceeds)),
        r matches Some(v) ==> (v.severity == Severity::Critical <==> (counts.total_count > 0 && (
        hard_failure_rate_exceeds || dead_letter_rate_exceeds))),
{
    let mut rules: Vec<AlertRule> = Vec::new();
    if counts.pending_count > max_pending_count {
        rules.push(
            AlertRule::PendingCount { pending: counts.pending_count, max: max_pending_count },
        );
    }
    let mut critical = false;
    if counts.total_count > 0 && hard_failure_rate_exceeds {
        rules.push(AlertRule::HardFailureRate);
        critical = true;
    }
    if counts.total_count > 0 && dead_letter_rate_exceeds {
        rules.push(AlertRule::DeadLetterRate);
        critical = true;
    }
    let ghost expected = triggered_rules(
        *counts,
        max_pending_count,
        hard_failure_rate_exceeds,
        dead_letter_rate_exceeds,
    );
    assert(rules@ =~= expected);
    proof {
        law_each_rule_decided_by_its_own_threshold(
            *counts,
            max_pending_count,
            hard_failure_rate_exceeds,
            dead_letter_rate_exceeds,
        );
    }
    if rules.len() == 0 {
        return None;
    }
    let severity = if critical {
        proof {
            let k = rules@.len() - 1;
            assert(!(rules@[k] is PendingCount));
        }
        Severity::Critical
    } else {
        assert forall|i: int| 0 <= i < rules@.len() implies (rules@[i] is PendingCount) by {}
        Severity::Warning
    };
    Some(AlertVerdict { rules, severity })
}

/// The text of a pending-count rule, as listed in an alert.
pub fn pending_rule_text(pending: i64, max: i64) -> (r: String)
    ensures
        r@ == "pending_count "@ + dec_int(pending as int) + " > "@ + dec_int(max as int),
{
    let mut out: Vec<char> = Vec::new();
    append_str(&mut out, "pending_count ");
    let p = dec_i64(pending);
    append_chars(&mut out, p.as_slice());
    append_str(&mut out, " > ");
    let m = dec_i64(max);
    append_chars(&mut out, m.as_slice());
    from_chars(out.as_slice())
}

/// A request to acknowledge the alert of a delivery target.
#[derive(Debug)]
pub struct AlertAckRequest {
    pub run_id: Option<u128>,
    pub delivery_target: String,
    pub note: Option<String>,
}

/// What a valid acknowledgement stores.
#[derive(Debug)]
pub struct AlertAckPlan {
    pub acknowledged_by_user_id: u128,
    pub run_scope: String,
    pub delivery_target: String,
    pub note: Option<String>,
}

/// Validates an acknowledgement: the caller must name a user, the target
/// must not be blank, and the trimmed note must fit in 2000 bytes.
pub fn plan_alert_ack(user_id: Option<u128>, req: &AlertAckRequest) -> (r: Result<AlertAckPlan, ApiError>)
    ensures
        match r {
            Err(e) => {
                ||| (user_id is None && e@ == forbidden(
                    "x-user-id header is required to acknowledge compliance alerts"@,
                ))
                ||| (user_id is Some && trim(req.delivery_target@).len() == 0 && e@
                    == bad_request("delivery_target cannot be empty"@))
                ||| (user_id is Some && trim(req.delivery_target@).len() > 0 && (opt_trim(
                    req.note,
                ) matches Some(n) && utf8_len(n) > MAX_ACK_NOTE_BYTES) && e@ == bad_request(
                    "note must be <= 2000 characters"@,
                ))
            },
            Ok(p) => {
                &&& user_id == Some(p.acknowledged_by_user_id)
                &&& trim(req.delivery_target@).len() > 0
                &&& p.delivery_target@ == trim(req.delivery_target@)
                &&& opt_string_view(p.note) == opt_trim(req.note)
                &&& !(opt_trim(req.note) matches Some(n) && utf8_len(n) > MAX_ACK_NOTE_BYTES)
                &&& p.run_scope@ == run_scope_spec(req.run_id)
            },
        },
{
    let user = match user_id {
        Some(u) => u,
        None => {
            return Err(
                ApiError::forbidden(
                    "x-user-id header is required to acknowledge compliance alerts",
                ),
            )
        },
    };
    let target = to_chars(req.delivery_target.as_str());
    let target = trim_chars(target.as_slice());
    if target.len() == 0 {
        return Err(ApiError::bad_request("delivery_target cannot be empty"));
    }
    let note = opt_trimmed(&req.note);
    let too_long = match &note {
        Some(n) => {
            let c = to_chars(n.as_str());
            utf8_len_exceeds(c.as_slice(), MAX_ACK_NOTE_BYTES)
        },
        None => false,
    };
    if too_long {
        return Err(ApiError::bad_request("note must be <= 2000 characters"));
    }
    Ok(
        AlertAckPlan {
            acknowledged_by_user_id: user,
            run_scope: compliance_alert_run_scope(req.run_id),
            delivery_target: from_chars(target.as_slice()),
            note,
        },
    )
}

/// Where the acknowledgement shown with an alert comes from.
#[derive(Debug, Clone, Copy, PartialEq, Eq, Structural)]
pub enum AckSource {
    /// The acknowledgement at this index of the run scope's list.
    Scoped(usize),
    /// The acknowledgement at this index of the all-runs list.
    Global(usize),
}

/// The last index below `n` whose text is `t`.
pub open spec fn last_with(ts: Seq<String>, t: Seq<char>, n: int) -> Option<int>
    decreases n,
{
    if n <= 0 {
        None
    } else if ts[n - 1]@ == t {
        Some(n - 1)
    } else {
        last_with(ts, t, n - 1)
    }
}

/// The first index at or after `i` whose text is `t`.
pub open spec fn first_with(ts: Seq<String>, t: Seq<char>, i: int) -> Option<int>
    decreases ts.len() - i,
{
    if i < 0 || i >= ts.len() {
        None
    } else if ts[i]@ == t {
        Some(i)
    } else {
        first_with(ts, t, i + 1)
    }
}

/// The acknowledgement of a target: among the run scope's
/// acknowledgements the last one listed for the target; failing that, for
/// a single run's scope, the first all-runs acknowledgement listed for it.
pub open spec fn ack_choice(
    target: Seq<char>,
    run_scope: Seq<char>,
    scoped: Seq<String>,
    global: Seq<String>,
) -> Option<AckSource> {
    match last_with(scoped, target, scoped.len() as int) {
        Some(i) => Some(AckSource::Scoped(i as usize)),
        None => if run_scope == "*"@ {
            None
        } else {
            match first_with(global, target, 0) {
                Some(j) => Some(AckSource::Global(j as usize)),
                None => None,
            }
        },
    }
}

proof fn lemma_last_with_bounds(ts: Seq<String>, t: Seq<char>, n: int)
    requires
        0 <= n <= ts.len(),
    ensures
        last_with(ts, t, n) matches Some(i) ==> 0 <= i < n && ts[i]@ == t && forall|k: int|
            i < k < n ==> ts[k]@ != t,
        last_with(ts, t, n) is None ==> forall|k: int| 0 <= k < n ==> ts[k]@ != t,
    decreases n,
{
    if n > 0 {
        lemma_last_with_bounds(ts, t, n - 1);
    }
}

proof fn lemma_first_with_bounds(ts: Seq<String>, t: Seq<char>, i: int)
    requires
        0 <= i <= ts.len(),
    ensures
        first_with(ts, t, i) matches Some(j) ==> i <= j < ts.len() && ts[j]@ == t && forall|k: int|
            i <= k < j ==> ts[k]@ != t,
        first_with(ts, t, i) is None ==> forall|k: int| i <= k < ts.len() ==> ts[k]@ != t,
    decreases ts.len() - i,
{
    if i < ts.len() {
        lemma_first_with_bounds(ts, t, i + 1);
    }
}

/// Picks the acknowledgement shown with a target's alert.
pub fn select_alert_ack(
    target: &str,
    run_scope: &str,
    scoped_targets: &Vec<String>,
    global_targets: &Vec<String>,
) -> (r: Option<AckSource>)
    ensures
        r == ack_choice(target@, run_scope@, scoped_targets@, global_targets@),
{
    let t = to_chars(target);
    let mut n: usize = scoped_targets.len();
    while n > 0
        invariant
            n <= scoped_targets@.len(),
            t@ == target@,
            last_with(scoped_targets@, target@, n as int) == last_with(
                scoped_targets@,
                target@,
                scoped_targets@.len() as int,
            ),
        decreases n,
    {
        let c = to_chars(scoped_targets[n - 1].as_str());
        if chars_eq(c.as_slice(), t.as_slice()) {
            return Some(AckSource::Scoped(n - 1));
        }
        n = n - 1;
    }
    let rs = to_chars(run_scope);
    if chars_eq_str(rs.as_slice(), "*") {
        return None;
    }
    let mut i: usize = 0;
    while i < global_targets.len()
        invariant
            i <= global_targets@.len(),
            t@ == target@,
            first_with(global_targets@, target@, i as int) == first_with(
                global_targets@,
                target@,
                0,
            ),
            run_scope@ != "*"@,
            last_with(scoped_targets@, target@, scoped_targets@.len() as int) is None,
        decreases global_targets.len() - i,
    {
        let c = to_chars(global_targets[i].as_str());
        if chars_eq(c.as_slice(), t.as_slice()) {
            return Some(AckSource::Global(i));
        }
        i = i + 1;
    }
    None
}

/// An acknowledgement made for the alert's own scope always wins over an
/// all-runs one: where the scope's list names the target, the one shown is
/// the last of those.
pub proof fn law_scoped_ack_wins(
    target: Seq<char>,
    run_scope: Seq<char>,
    scoped: Seq<String>,
    global: Seq<String>,
    i: int,
)
    requires
        0 <= i < scoped.len(),
        scoped.len() <= usize::MAX,
        scoped[i]@ == target,
    ensures
        ack_choice(target, run_scope, scoped, global) matches Some(AckSource::Scoped(k)) && i <= k
            < scoped.len() && scoped[k as int]@ == target && forall|m: int|
            k < m < scoped.len() ==> (#[trigger] scoped[m])@ != target,
{
    lemma_last_with_bounds(scoped, target, scoped.len() as int);
}

/// For a single run's alert with no acknowledgement of its own, the first
/// all-runs acknowledgement listed for the target is shown, and none when
/// no all-runs acknowledgement names it.
pub proof fn law_single_run_falls_back_to_global_ack(
    target: Seq<char>,
    run_scope: Seq<char>,
    scoped: Seq<String>,
    global: Seq<String>,
)
    requires
        run_scope != "*"@,
        forall|k: int| 0 <= k < scoped.len() ==> (#[trigger] scoped[k])@ != target,
        global.len() <= usize::MAX,
    ensures
        ack_choice(target, run_scope, scoped, global) is Some <==> exists|j: int|
            0 <= j < global.len() && (#[trigger] global[j])@ == target,
        ack_choice(target, run_scope, scoped, global) matches Some(src) ==> (src matches AckSource::Global(
            j,
        ) && j < global.len() && global[j as int]@ == target && forall|m: int|
            0 <= m < j ==> (#[trigger] global[m])@ != target),
{
    lemma_last_with_bounds(scoped, target, scoped.len() as int);
    lemma_first_with_bounds(global, target, 0);
}

/// Under the all-runs scope only all-runs acknowledgements count: an
/// acknowledgement is shown exactly when the list names the target.
pub proof fn law_global_scope_uses_own_acks(
    target: Seq<char>,
    scoped: Seq<String>,
    global: Seq<String>,
)
    ensures
        ack_choice(target, "*"@, scoped, global) is Some <==> exists|k: int|
            0 <= k < scoped.len() && #[trigger] scoped[k]@ == target,
{
    lemma_last_with_bounds(scoped, target, scoped.len() as int);
}


/// What alerts are ordered by.
#[derive(Debug)]
pub struct AlertSortKey {
    pub severity: Severity,
    pub rule_count: usize,
    pub pending_count: i64,
    pub delivery_target: String,
}

pub open spec fn severity_rank(s: Severity) -> int {
    match s {
        Severity::Critical => 0,
        Severity::Warning => 1,
    }
}

/// Alert `a` sorts strictly before `b`: critical first, then more rules,
/// then more pending deliveries, then by target.
pub open spec fn key_before(a: AlertSortKey, b: AlertSortKey) -> bool {
    let ra = severity_rank(a.severity);
    let rb = severity_rank(b.severity);
    ||| ra < rb
    ||| ra == rb && a.rule_count > b.rule_count
    ||| ra == rb && a.rule_count == b.rule_count && a.pending_count > b.pending_count
    ||| ra == rb && a.rule_count == b.rule_count && a.pending_count == b.pending_count && text_lt(
        a.delivery_target@,
        b.delivery_target@,
    )
}

/// Neither alert sorts before the other.
pub open spec fn key_tied(a: AlertSortKey, b: AlertSortKey) -> bool {
    &&& a.severity == b.severity
    &&& a.rule_count == b.rule_count
    &&& a.pending_count == b.pending_count
    &&& a.delivery_target@ == b.delivery_target@
}

/// The alert at index `i` is listed before the one at `j`: it sorts
/// before it, or ties with it and came first (the sort is stable).
pub open spec fn listed_before(keys: Seq<AlertSortKey>, i: int, j: int) -> bool {
    key_before(keys[i], keys[j]) || (key_tied(keys[i], keys[j]) && i < j)
}

/// `ord` lists each of the `n` alerts once, in order.
pub open spec fn is_alert_order(keys: Seq<AlertSortKey>, ord: Seq<usize>) -> bool {
    &&& ord.len() == keys.len()
    &&& forall|p: int| 0 <= p < ord.len() ==> (#[trigger] ord[p]) < keys.len()
    &&& forall|p: int, q: int| 0 <= p < q < ord.len() ==> ord[p] != ord[q]
    &&& forall|p: int, q: int|
        0 <= p < q < ord.len() ==> listed_before(keys, #[trigger] ord[p] as int, #[trigger] ord[q] as int)
}

proof fn lemma_listed_before_total(keys: Seq<AlertSortKey>, i: int, j: int)
    requires
        i != j,
    ensures
        listed_before(keys, i, j) || listed_before(keys, j, i),
{
    let a = keys[i];
    let b = keys[j];
    if a.delivery_target@ != b.delivery_target@ {
        lemma_text_lt_total(a.delivery_target@, b.delivery_target@);
    }
    if severity_rank(a.severity) == severity_rank(b.severity) {
        assert(a.severity == b.severity);
    }
}

proof fn lemma_listed_before_transitive(keys: Seq<AlertSortKey>, i: int, j: int, k: int)
    requires
        listed_before(keys, i, j),
        listed_before(keys, j, k),
    ensures
        listed_before(keys, i, k),
{
    let a = keys[i];
    let b = keys[j];
    let c = keys[k];
    if text_lt(a.delivery_target@, b.delivery_target@) && text_lt(
        b.delivery_target@,
        c.delivery_target@,
    ) {
        lemma_text_lt_transitive(a.delivery_target@, b.delivery_target@, c.delivery_target@);
    }
    if severity_rank(a.severity) == severity_rank(b.severity) {
        assert(a.severity == b.severity);
    }
    if severity_rank(b.severity) == severity_rank(c.severity) {
        assert(b.severity == c.severity);
    }
}

fn listed_before_exec(keys: &Vec<AlertSortKey>, i: usize, j: usize) -> (r: bool)
    requires
        i < keys@.len(),
        j < keys@.len(),
    ensures
        r == listed_before(keys@, i as int, j as int),
{
    let a = &keys[i];
    let b = &keys[j];
    let ra: u8 = match a.severity {
        Severity::Critical => 0,
        Severity::Warning => 1,
    };
    let rb: u8 = match b.severity {
        Severity::Critical => 0,
        Severity::Warning => 1,
    };
    if ra != rb {
        return ra < rb;
    }
    proof {
        assert(a.severity == b.severity);
    }
    if a.rule_count != b.rule_count {
        return a.rule_count > b.rule_count;
    }
    if a.pending_count != b.pending_count {
        return a.pending_count > b.pending_count;
    }
    let ta = to_chars(a.delivery_target.as_str());
    let tb = to_chars(b.delivery_target.as_str());
    if text_lt_exec(ta.as_slice(), tb.as_slice()) {
        return true;
    }
    if chars_eq(ta.as_slice(), tb.as_slice()) {
        i < j
    } else {
        proof {
            lemma_text_lt_total(ta@, tb@);
            lemma_text_lt_asymmetric(tb@, ta@);
        }
        false
    }
}

/// The order alerts are listed in, as indices into `keys`: critical alerts
/// first, then those with more rules, then more pending deliveries, then
/// by target, ties keeping their order.
pub fn order_alerts(keys: &Vec<AlertSortKey>) -> (ord: Vec<usize>)
    ensures
        is_alert_order(keys@, ord@),
{
    let n = keys.len();
    let mut ord: Vec<usize> = Vec::new();
    let mut k: usize = 0;
    while k < n
        invariant
            n == keys@.len(),
            k <= n,
            ord@.len() == k,
            forall|p: int| 0 <= p < k ==> ord@[p] == p,
        decreases n - k,
    {
        ord.push(k);
        k = k + 1;
    }
    let mut i: usize = 1;
    while i < n
        invariant
            n == keys@.len(),
            ord@.len() == n,
            forall|p: int| 0 <= p < n ==> (#[trigger] ord@[p]) < n,
            forall|p: int, q: int| 0 <= p < q < n ==> ord@[p] != ord@[q],
            forall|p: int, q: int|
                0 <= p < q < i && q < n ==> listed_before(keys@, #[trigger] ord@[p] as int, #[trigger] ord@[q] as int),
        decreases n - i,
    {
        let mut j: usize = i;
        while j > 0 && listed_before_exec(keys, ord[j], ord[j - 1])
            invariant
                n == keys@.len(),
                i < n,
                j <= i,
                ord@.len() == n,
                forall|p: int| 0 <= p < n ==> (#[trigger] ord@[p]) < n,
                forall|p: int, q: int| 0 <= p < q < n ==> ord@[p] != ord@[q],
                forall|p: int, q: int|
                    0 <= p < q <= i && p != j && q != j ==> listed_before(
                        keys@,
                        #[trigger] ord@[p] as int,
                        #[trigger] ord@[q] as int,
                    ),
                forall|q: int|
                    j < q <= i ==> listed_before(keys@, ord@[j as int] as int, #[trigger] ord@[q] as int),
            decreases j,
        {
            let a = ord[j];
            let b = ord[j - 1];
            ord.set(j, b);
            ord.set(j - 1, a);
            j = j - 1;
        }
        proof {
            if j > 0 {
                let x = ord@[j as int] as int;
                let y = ord@[j - 1] as int;
                lemma_listed_before_total(keys@, x, y);
                assert forall|p: int| 0 <= p < j implies listed_before(keys@, #[trigger] ord@[p] as int, x) by {
                    if p < j - 1 {
                        lemma_listed_before_transitive(keys@, ord@[p] as int, y, x);
                    }
                }
            }
            assert forall|p: int, q: int|
                0 <= p < q < i + 1 && q < n implies listed_before(keys@, #[trigger] ord@[p] as int, #[trigger] ord@[q] as int) by {
                if q == j {
                    assert(p < j);
                }
            }
        }
        i = i + 1;
    }
    ord
}

} // verus!

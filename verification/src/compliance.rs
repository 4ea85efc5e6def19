//! Compliance audit: SIEM adapters and outbox statuses, the tamper-evident
//! hash chain and its verification, the retention policy, and the alert
//! rules over SIEM delivery targets.
use vstd::prelude::*;
use crate::text::{
    trim, norm_key, to_chars, trim_chars, from_chars, chars_eq, chars_eq_str, norm_key_of,
    trim_non_empty, trim_non_empty_spec, utf8_len, utf8_len_exceeds,
};
use crate::error::{ApiError, ErrView, bad_request, forbidden, own};
use crate::ids::{uuid_text, uuid_to_text, uuid_parse, parse_uuid};

verus! {

/// The export formats of compliance events.
#[derive(Debug, Clone, Copy, PartialEq, Eq, Structural)]
pub enum SiemAdapter {
    SecureAgntNdjson,
    SplunkHec,
    ElasticBulk,
}

/// The adapter a request names: absent or blank means NDJSON; names are
/// trimmed and ASCII case-insensitive.
pub open spec fn adapter_spec(raw: Option<Seq<char>>) -> Result<SiemAdapter, ErrView> {
    match raw {
        None => Ok(SiemAdapter::SecureAgntNdjson),
        Some(r) => if trim(r).len() == 0 {
            Ok(SiemAdapter::SecureAgntNdjson)
        } else {
            let k = norm_key(r);
            if k == "secureagnt_ndjson"@ || k == "ndjson"@ {
                Ok(SiemAdapter::SecureAgntNdjson)
            } else if k == "splunk_hec"@ {
                Ok(SiemAdapter::SplunkHec)
            } else if k == "elastic_bulk"@ {
                Ok(SiemAdapter::ElasticBulk)
            } else {
                Err(
                    bad_request(
                        "adapter must be one of: secureagnt_ndjson, splunk_hec, elastic_bulk"@,
                    ),
                )
            }
        },
    }
}

pub open spec fn adapter_name(a: SiemAdapter) -> Seq<char> {
    match a {
        SiemAdapter::SecureAgntNdjson => "secureagnt_ndjson"@,
        SiemAdapter::SplunkHec => "splunk_hec"@,
        SiemAdapter::ElasticBulk => "elastic_bulk"@,
    }
}

pub open spec fn opt_view(o: Option<&str>) -> Option<Seq<char>> {
    match o {
        Some(s) => Some(s@),
        None => None,
    }
}

impl SiemAdapter {
    pub fn parse(raw: Option<&str>) -> (r: Result<SiemAdapter, ApiError>)
        ensures
            match (r, adapter_spec(opt_view(raw))) {
                (Ok(a), Ok(b)) => a == b,
                (Err(e), Err(f)) => e@ == f,
                _ => false,
            },
    {
        let s = match raw {
            None => return Ok(SiemAdapter::SecureAgntNdjson),
            Some(s) => s,
        };
        let c = to_chars(s);
        if trim_chars(c.as_slice()).len() == 0 {
            return Ok(SiemAdapter::SecureAgntNdjson);
        }
        let k = norm_key_of(s);
        let k = k.as_slice();
        if chars_eq_str(k, "secureagnt_ndjson") || chars_eq_str(k, "ndjson") {
            Ok(SiemAdapter::SecureAgntNdjson)
        } else if chars_eq_str(k, "splunk_hec") {
            Ok(SiemAdapter::SplunkHec)
        } else if chars_eq_str(k, "elastic_bulk") {
            Ok(SiemAdapter::ElasticBulk)
        } else {
            Err(ApiError::bad_request("adapter must be one of: secureagnt_ndjson, splunk_hec, elastic_bulk"))
        }
    }

    pub fn as_str(self) -> (r: &'static str)
        ensures
            r@ == adapter_name(self),
    {
        match self {
            SiemAdapter::SecureAgntNdjson => "secureagnt_ndjson",
            SiemAdapter::SplunkHec => "splunk_hec",
            SiemAdapter::ElasticBulk => "elastic_bulk",
        }
    }
}

/// Every adapter's name parses back to that adapter.
pub proof fn law_adapter_name_round_trip(a: SiemAdapter)
    ensures
        adapter_spec(Some(adapter_name(a))) == Ok::<SiemAdapter, ErrView>(a),
{
    reveal_strlit("secureagnt_ndjson");
    reveal_strlit("splunk_hec");
    reveal_strlit("elastic_bulk");
    reveal_strlit("ndjson");
    let n = adapter_name(a);
    lemma_plain_name_is_key(n);
}

/// Adapters: none, or a blank name, means NDJSON; `secureagnt_ndjson` and
/// `ndjson`, `splunk_hec` and `elastic_bulk` (trimmed, any ASCII case) name
/// their adapters; any other name is refused.
pub proof fn law_adapter_spellings(raw: Seq<char>)
    ensures
        adapter_spec(None) == Ok::<SiemAdapter, ErrView>(SiemAdapter::SecureAgntNdjson),
        trim(raw).len() == 0 ==> adapter_spec(Some(raw)) == Ok::<SiemAdapter, ErrView>(
            SiemAdapter::SecureAgntNdjson,
        ),
        norm_key(raw) == "secureagnt_ndjson"@ ==> adapter_spec(Some(raw)) == Ok::<SiemAdapter, ErrView>(
            SiemAdapter::SecureAgntNdjson,
        ),
        norm_key(raw) == "ndjson"@ ==> adapter_spec(Some(raw)) == Ok::<SiemAdapter, ErrView>(
            SiemAdapter::SecureAgntNdjson,
        ),
        norm_key(raw) == "splunk_hec"@ ==> adapter_spec(Some(raw)) == Ok::<SiemAdapter, ErrView>(
            SiemAdapter::SplunkHec,
        ),
        norm_key(raw) == "elastic_bulk"@ ==> adapter_spec(Some(raw)) == Ok::<SiemAdapter, ErrView>(
            SiemAdapter::ElasticBulk,
        ),
        trim(raw).len() > 0 && norm_key(raw) != "secureagnt_ndjson"@
            && norm_key(raw) != "ndjson"@
            && norm_key(raw) != "splunk_hec"@
            && norm_key(raw) != "elastic_bulk"@
            ==> adapter_spec(Some(raw)) is Err,
{
    reveal_strlit("secureagnt_ndjson");
    reveal_strlit("ndjson");
    reveal_strlit("splunk_hec");
    reveal_strlit("elastic_bulk");
    assert("secureagnt_ndjson"@.len() != "ndjson"@.len());
    assert("secureagnt_ndjson"@.len() != "splunk_hec"@.len());
    assert("ndjson"@.len() != "splunk_hec"@.len());
    assert("secureagnt_ndjson"@.len() != "elastic_bulk"@.len());
    assert("ndjson"@.len() != "elastic_bulk"@.len());
    assert("splunk_hec"@.len() != "elastic_bulk"@.len());
    assert(norm_key(raw).len() == trim(raw).len());
}

/// Outbox statuses: a blank filter is none; each of the five statuses,
/// trimmed and spelled exactly, is itself; anything else is refused.
pub proof fn law_outbox_status_names(raw: Seq<char>)
    ensures
        outbox_status_spec(None) == Ok::<Option<Seq<char>>, ErrView>(None),
        trim(raw).len() == 0 ==> outbox_status_spec(Some(raw)) == Ok::<Option<Seq<char>>, ErrView>(None),
        trim(raw) == "pending"@ ==> outbox_status_spec(Some(raw)) == Ok::<Option<Seq<char>>, ErrView>(
            Some("pending"@),
        ),
        trim(raw) == "processing"@ ==> outbox_status_spec(Some(raw)) == Ok::<Option<Seq<char>>, ErrView>(
            Some("processing"@),
        ),
        trim(raw) == "failed"@ ==> outbox_status_spec(Some(raw)) == Ok::<Option<Seq<char>>, ErrView>(
            Some("failed"@),
        ),
        trim(raw) == "delivered"@ ==> outbox_status_spec(Some(raw)) == Ok::<Option<Seq<char>>, ErrView>(
            Some("delivered"@),
        ),
        trim(raw) == "dead_lettered"@ ==> outbox_status_spec(Some(raw)) == Ok::<Option<Seq<char>>, ErrView>(
            Some("dead_lettered"@),
        ),
        trim(raw).len() > 0 && trim(raw) != "pending"@
            && trim(raw) != "processing"@
            && trim(raw) != "failed"@
            && trim(raw) != "delivered"@
            && trim(raw) != "dead_lettered"@
            ==> outbox_status_spec(Some(raw)) is Err,
{
    reveal_strlit("pending");
    reveal_strlit("processing");
    reveal_strlit("failed");
    reveal_strlit("delivered");
    reveal_strlit("dead_lettered");
}

/// A name of lower-case letters and underscores is its own key.
proof fn lemma_plain_name_is_key(n: Seq<char>)
    requires
        n.len() > 0,
        forall|i: int| 0 <= i < n.len() ==> (('a' <= #[trigger] n[i] && n[i] <= 'z') || n[i] == '_'),
    ensures
        trim(n) == n,
        norm_key(n) == n,
{
    crate::text::lemma_trim_range(n, 0, n.len() as int);
    assert(n.subrange(0, n.len() as int) =~= n);
    assert(crate::text::ascii_lower(n) =~= n);
}

/// An outbox status filter: blank means none; otherwise one of the five
/// statuses, exactly.
pub open spec fn outbox_status_spec(raw: Option<Seq<char>>) -> Result<Option<Seq<char>>, ErrView> {
    match raw {
        None => Ok(None),
        Some(r) => {
            let t = trim(r);
            if t.len() == 0 {
                Ok(None)
            } else if t == "pending"@ || t == "processing"@ || t == "failed"@ || t == "delivered"@ || t
                == "dead_lettered"@ {
                Ok(Some(t))
            } else {
                Err(
                    bad_request(
                        "status must be one of: pending, processing, failed, delivered, dead_lettered"@,
                    ),
                )
            }
        },
    }
}

/// `parse_siem_outbox_status`.
pub fn parse_siem_outbox_status(raw: Option<&str>) -> (r: Result<Option<String>, ApiError>)
    ensures
        match (r, outbox_status_spec(opt_view(raw))) {
            (Ok(None), Ok(None)) => true,
            (Ok(Some(a)), Ok(Some(b))) => a@ == b,
            (Err(e), Err(f)) => e@ == f,
            _ => false,
        },
{
    let s = match raw {
        None => return Ok(None),
        Some(s) => s,
    };
    let c = to_chars(s);
    let t = trim_chars(c.as_slice());
    if t.len() == 0 {
        return Ok(None);
    }
    let ts = t.as_slice();
    if chars_eq_str(ts, "pending") || chars_eq_str(ts, "processing") || chars_eq_str(ts, "failed")
        || chars_eq_str(ts, "delivered") || chars_eq_str(ts, "dead_lettered") {
        Ok(Some(from_chars(ts)))
    } else {
        Err(
            ApiError::bad_request(
                "status must be one of: pending, processing, failed, delivered, dead_lettered",
            ),
        )
    }
}

/// The run scope of an alert acknowledgement: the run's id, or `*` for all
/// runs.
pub open spec fn run_scope_spec(run_id: Option<u128>) -> Seq<char> {
    match run_id {
        Some(u) => uuid_text(u),
        None => "*"@,
    }
}

/// `compliance_alert_run_scope`.
pub fn compliance_alert_run_scope(run_id: Option<u128>) -> (r: String)
    ensures
        r@ == run_scope_spec(run_id),
{
    match run_id {
        Some(u) => uuid_to_text(u),
        None => own("*"),
    }
}

/// The run an acknowledgement's scope names: none for `*`, otherwise the
/// UUID it parses to (none when it does not parse).
pub fn run_id_of_scope(run_scope: &str) -> (r: Option<u128>)
    ensures
        run_scope@ == "*"@ ==> r is None,
        run_scope@ != "*"@ ==> r == uuid_parse(run_scope@),
{
    let c = to_chars(run_scope);
    if chars_eq_str(c.as_slice(), "*") {
        None
    } else {
        parse_uuid(run_scope)
    }
}

/// One row of a tenant's tamper-evident audit chain, in chain order.
#[derive(Debug)]
pub struct ChainRow {
    pub event_id: u128,
    pub chain_seq: Option<i64>,
    pub prev_hash: Option<String>,
    pub hash: String,
}

pub open spec fn text_or_empty(o: Option<String>) -> Seq<char> {
    match o {
        Some(s) => s@,
        None => Seq::empty(),
    }
}

/// The previous hash that row `i` must carry: empty for the first row, the
/// hash of the row before otherwise.
pub open spec fn expected_prev(rows: Seq<ChainRow>, i: int) -> Seq<char> {
    if i == 0 {
        Seq::empty()
    } else {
        rows[i - 1].hash@
    }
}

/// Row `i` is sound: its sequence number is `i + 1`, its previous hash is
/// the hash of the row before (missing counting as empty), and its own hash
/// is not blank.
pub open spec fn row_ok(rows: Seq<ChainRow>, i: int) -> bool {
    &&& rows[i].chain_seq matches Some(s) && s == i + 1
    &&& text_or_empty(rows[i].prev_hash) == expected_prev(rows, i)
    &&& trim(rows[i].hash@).len() > 0
}

pub open spec fn chain_ok(rows: Seq<ChainRow>) -> bool {
    forall|i: int| 0 <= i < rows.len() ==> row_ok(rows, i)
}

pub open spec fn first_bad(rows: Seq<ChainRow>, i: int) -> bool {
    &&& 0 <= i < rows.len()
    &&& !row_ok(rows, i)
    &&& forall|k: int| 0 <= k < i ==> row_ok(rows, k)
}

/// The id of the first unsound row.
pub open spec fn first_invalid_id(rows: Seq<ChainRow>) -> Option<u128> {
    if exists|i: int| first_bad(rows, i) {
        Some(rows[choose|i: int| first_bad(rows, i)].event_id)
    } else {
        None
    }
}

pub open spec fn max_seq(rows: Seq<ChainRow>, n: int) -> Option<i64>
    decreases n,
{
    if n <= 0 {
        None
    } else {
        let acc = max_seq(rows, n - 1);
        match (acc, rows[n - 1].chain_seq) {
            (Some(m), Some(c)) => Some(if m >= c { m } else { c }),
            (None, Some(c)) => Some(c),
            (a, None) => a,
        }
    }
}

/// The outcome of verifying a chain.
#[derive(Debug)]
pub struct ChainVerification {
    pub checked_events: usize,
    pub verified: bool,
    pub first_invalid_event_id: Option<u128>,
    pub latest_chain_seq: Option<i64>,
    pub latest_tamper_hash: Option<String>,
}

fn opt_text_chars(o: &Option<String>) -> (r: Vec<char>)
    ensures
        r@ == text_or_empty(*o),
{
    match o {
        Some(s) => to_chars(s.as_str()),
        None => Vec::new(),
    }
}

/// Verifies a tenant's audit chain (rows in chain order).
pub fn verify_tamper_chain(rows: &Vec<ChainRow>) -> (r: ChainVerification)
    ensures
        r.checked_events == rows@.len(),
        r.verified == chain_ok(rows@),
        r.first_invalid_event_id == first_invalid_id(rows@),
        r.latest_chain_seq == max_seq(rows@, rows@.len() as int),
        rows@.len() == 0 ==> r.latest_tamper_hash is None,
        rows@.len() > 0 ==> (r.latest_tamper_hash matches Some(h) && h@ == rows@.last().hash@),
{
    let mut first_invalid: Option<u128> = None;
    let mut latest_seq: Option<i64> = None;
    let mut expected: Vec<char> = Vec::new();
    let mut i: usize = 0;
    while i < rows.len()
        invariant
            i <= rows@.len(),
            latest_seq == max_seq(rows@, i as int),
            expected@ == expected_prev(rows@, i as int),
            match first_invalid {
                None => forall|k: int| 0 <= k < i ==> row_ok(rows@, k),
                Some(id) => exists|k: int| k < i && first_bad(rows@, k) && rows@[k].event_id == id,
            },
        decreases rows.len() - i,
    {
        let row = &rows[i];
        latest_seq = match (latest_seq, row.chain_seq) {
            (Some(m), Some(c)) => Some(if m >= c { m } else { c }),
            (None, Some(c)) => Some(c),
            (a, None) => a,
        };
        let seq_valid = match row.chain_seq {
            Some(v) => v > 0 && ((v - 1) as u64) == (i as u64),
            None => false,
        };
        let prev = opt_text_chars(&row.prev_hash);
        let prev_valid = chars_eq(prev.as_slice(), expected.as_slice());
        let h = to_chars(row.hash.as_str());
        let hash_valid = trim_chars(h.as_slice()).len() > 0;
        proof {
            assert(seq_valid == (rows@[i as int].chain_seq matches Some(s) && s == i + 1));
        }
        if first_invalid.is_none() && !(seq_valid && prev_valid && hash_valid) {
            first_invalid = Some(row.event_id);
            proof {
                assert(first_bad(rows@, i as int));
            }
        }
        expected = h;
        i = i + 1;
    }
    let latest_hash = if rows.len() == 0 {
        None
    } else {
        Some(rows[rows.len() - 1].hash.clone())
    };
    proof {
        match first_invalid {
            None => {},
            Some(id) => {
                let k = choose|k: int| k < rows@.len() && first_bad(rows@, k) && rows@[k].event_id == id;
                let c = choose|j: int| first_bad(rows@, j);
                assert(c == k) by {
                    if c < k {
                        assert(row_ok(rows@, c));
                    } else if k < c {
                        assert(row_ok(rows@, k));
                    }
                }
            },
        }
    }
    ChainVerification {
        checked_events: rows.len(),
        verified: first_invalid.is_none(),
        first_invalid_event_id: first_invalid,
        latest_chain_seq: latest_seq,
        latest_tamper_hash: latest_hash,
    }
}

/// Tamper evidence: in a sound chain, changing the hash of any row but the
/// last makes the chain unsound.
pub proof fn law_rewritten_hash_is_detected(rows: Seq<ChainRow>, k: int, forged: ChainRow)
    requires
        chain_ok(rows),
        0 <= k < rows.len() - 1,
        forged.hash@ != rows[k].hash@,
    ensures
        !chain_ok(rows.update(k, forged)),
{
    let r2 = rows.update(k, forged);
    assert(row_ok(rows, k + 1));
    assert(r2[k + 1] == rows[k + 1]);
    assert(expected_prev(r2, k + 1) == forged.hash@);
    assert(!row_ok(r2, k + 1));
}

/// Tamper evidence: removing any row but the last from a sound chain makes
/// it unsound.
pub proof fn law_removed_event_is_detected(rows: Seq<ChainRow>, k: int)
    requires
        chain_ok(rows),
        0 <= k < rows.len() - 1,
        rows.len() <= i64::MAX,
    ensures
        !chain_ok(rows.remove(k)),
{
    let r2 = rows.remove(k);
    assert(row_ok(rows, k + 1));
    assert(r2[k] == rows[k + 1]);
    assert(!row_ok(r2, k));
}

/// The retention-policy fields an update may carry.
#[derive(Debug)]
pub struct PolicyUpdateRequest {
    pub compliance_hot_retention_days: Option<i32>,
    pub compliance_archive_retention_days: Option<i32>,
    pub legal_hold: Option<bool>,
    pub legal_hold_reason: Option<String>,
}

/// A tenant's retention policy.
#[derive(Debug)]
pub struct CompliancePolicy {
    pub compliance_hot_retention_days: i32,
    pub compliance_archive_retention_days: i32,
    pub legal_hold: bool,
    pub legal_hold_reason: Option<String>,
}

pub open spec fn or_i32(o: Option<i32>, d: i32) -> i32 {
    match o {
        Some(v) => v,
        None => d,
    }
}

/// The policy an update yields: supplied values replace current ones; the
/// reason is the supplied one, trimmed, or none; the result must keep
/// `0 < hot <= archive`.
pub open spec fn policy_update_spec(req: PolicyUpdateRequest, hot: i32, archive: i32, hold: bool) -> Result<
    (i32, i32, bool, Option<Seq<char>>),
    ErrView,
> {
    let h = or_i32(req.compliance_hot_retention_days, hot);
    let a = or_i32(req.compliance_archive_retention_days, archive);
    let l = match req.legal_hold {
        Some(v) => v,
        None => hold,
    };
    let reason = match req.legal_hold_reason {
        Some(s) => trim_non_empty_spec(s@),
        None => None,
    };
    if h <= 0 {
        Err(bad_request("compliance_hot_retention_days must be greater than zero"@))
    } else if a <= 0 {
        Err(bad_request("compliance_archive_retention_days must be greater than zero"@))
    } else if a < h {
        Err(bad_request("compliance_archive_retention_days must be >= compliance_hot_retention_days"@))
    } else {
        Ok((h, a, l, reason))
    }
}

pub open spec fn opt_string_view(o: Option<String>) -> Option<Seq<char>> {
    match o {
        Some(s) => Some(s@),
        None => None,
    }
}

/// The policy that `PUT /v1/audit/compliance/policy` stores.
pub fn plan_compliance_policy_update(
    req: &PolicyUpdateRequest,
    current_hot_days: i32,
    current_archive_days: i32,
    current_legal_hold: bool,
) -> (r: Result<CompliancePolicy, ApiError>)
    ensures
        match (r, policy_update_spec(*req, current_hot_days, current_archive_days, current_legal_hold)) {
            (Ok(p), Ok(s)) => p.compliance_hot_retention_days == s.0
                && p.compliance_archive_retention_days == s.1 && p.legal_hold == s.2
                && opt_string_view(p.legal_hold_reason) == s.3,
            (Err(e), Err(f)) => e@ == f,
            _ => false,
        },
        r matches Ok(p) ==> (req.compliance_hot_retention_days matches Some(v)
            ==> p.compliance_hot_retention_days == v),
        r matches Ok(p) ==> (req.compliance_hot_retention_days is None
            ==> p.compliance_hot_retention_days == current_hot_days),
        r matches Ok(p) ==> (req.compliance_archive_retention_days matches Some(v)
            ==> p.compliance_archive_retention_days == v),
        r matches Ok(p) ==> (req.compliance_archive_retention_days is None
            ==> p.compliance_archive_retention_days == current_archive_days),
        r matches Ok(p) ==> (req.legal_hold matches Some(v) ==> p.legal_hold == v),
        r matches Ok(p) ==> (req.legal_hold is None ==> p.legal_hold == current_legal_hold),
        r matches Ok(p) ==> 0 < p.compliance_hot_retention_days
            <= p.compliance_archive_retention_days,
        r is Ok <==> (0 < or_i32(req.compliance_hot_retention_days, current_hot_days) <= or_i32(
            req.compliance_archive_retention_days,
            current_archive_days,
        )),
{
    let hot = match req.compliance_hot_retention_days {
        Some(v) => v,
        None => current_hot_days,
    };
    let archive = match req.compliance_archive_retention_days {
        Some(v) => v,
        None => current_archive_days,
    };
    let legal_hold = match req.legal_hold {
        Some(v) => v,
        None => current_legal_hold,
    };
    let reason = match &req.legal_hold_reason {
        Some(s) => trim_non_empty(Some(s.as_str())),
        None => None,
    };
    if hot <= 0 {
        return Err(ApiError::bad_request("compliance_hot_retention_days must be greater than zero"));
    }
    if archive <= 0 {
        return Err(
            ApiError::bad_request("compliance_archive_retention_days must be greater than zero"),
        );
    }
    if archive < hot {
        return Err(
            ApiError::bad_request(
                "compliance_archive_retention_days must be >= compliance_hot_retention_days",
            ),
        );
    }
    Ok(
        CompliancePolicy {
            compliance_hot_retention_days: hot,
            compliance_archive_retention_days: archive,
            legal_hold,
            legal_hold_reason: reason,
        },
    )
}

/// Every stored retention policy keeps hot data for a positive number of
/// days and archives at least as long.
pub proof fn law_policy_update_keeps_retention_order(
    req: PolicyUpdateRequest,
    hot: i32,
    archive: i32,
    hold: bool,
)
    ensures
        policy_update_spec(req, hot, archive, hold) matches Ok(p) ==> 0 < p.0 <= p.1,
{
}

} // verus!

//! Replay packages of a run: how much they gather, the order of their
//! payment rows, and the span of their events.
use vstd::prelude::*;
use crate::limits::{clamp_spec, or_default_i64, limit_or_default};
use crate::json::{JsonValue, JsonField, get, as_str, str_field, keys_unique, insert_field, json_str};
use crate::ids::{uuid_text, uuid_to_text};

verus! {

/// How much a replay package gathers.
#[derive(Debug)]
pub struct ReplayPackagePlan {
    pub audit_limit: i64,
    pub compliance_limit: i64,
    pub payment_limit: i64,
    pub include_payments: bool,
}

/// Up to 2000 run audit events and compliance events (at most 5000 each),
/// and, unless left out, up to 500 payment rows (at most 2000).
pub fn plan_replay_package_query(
    audit_limit: Option<i64>,
    compliance_limit: Option<i64>,
    payment_limit: Option<i64>,
    include_payments: Option<bool>,
) -> (r: ReplayPackagePlan)
    ensures
        r.audit_limit == clamp_spec(or_default_i64(audit_limit, 2000), 1, 5000),
        r.compliance_limit == clamp_spec(or_default_i64(compliance_limit, 2000), 1, 5000),
        r.payment_limit == clamp_spec(or_default_i64(payment_limit, 500), 1, 2000),
        r.include_payments == match include_payments {
            Some(b) => b,
            None => true,
        },
{
    ReplayPackagePlan {
        audit_limit: limit_or_default(audit_limit, 2000, 5000),
        compliance_limit: limit_or_default(compliance_limit, 2000, 5000),
        payment_limit: limit_or_default(payment_limit, 500, 2000),
        include_payments: match include_payments {
            Some(b) => b,
            None => true,
        },
    }
}

/// Payment row `i` comes before row `j`: earlier creation time, then
/// smaller id, ties keeping their order.
pub open spec fn payment_before(keys: Seq<(i128, u128)>, i: int, j: int) -> bool {
    ||| keys[i].0 < keys[j].0
    ||| (keys[i].0 == keys[j].0 && keys[i].1 < keys[j].1)
    ||| (keys[i].0 == keys[j].0 && keys[i].1 == keys[j].1 && i < j)
}

fn payment_before_exec(keys: &Vec<(i128, u128)>, i: usize, j: usize) -> (r: bool)
    requires
        i < keys@.len(),
        j < keys@.len(),
    ensures
        r == payment_before(keys@, i as int, j as int),
{
    let (ti, ii) = keys[i];
    let (tj, ij) = keys[j];
    ti < tj || (ti == tj && ii < ij) || (ti == tj && ii == ij && i < j)
}

/// The order of payment rows, as indices into `keys` (creation time in
/// nanoseconds and id of each row): each row once, by creation time, then
/// id.
pub fn order_payment_rows(keys: &Vec<(i128, u128)>) -> (ord: Vec<usize>)
    ensures
        ord@.len() == keys@.len(),
        forall|p: int| 0 <= p < ord@.len() ==> (#[trigger] ord@[p]) < keys@.len(),
        forall|p: int, q: int| 0 <= p < q < ord@.len() ==> ord@[p] != ord@[q],
        forall|p: int, q: int|
            0 <= p < q < ord@.len() ==> payment_before(keys@, #[trigger] ord@[p] as int, #[trigger] ord@[q] as int),
{
    let n = keys.len();
    let mut ord: Vec<usize> = Vec::new();
    let mut k: usize = 0;
    while k < n
        invariant
            n == keys@.len(),
            k <= n,
            ord@.len() == k,
            forall|p: int| 0 <= p < k ==> ord@[p] == p,
        decreases n - k,
    {
        ord.push(k);
        k = k + 1;
    }
    let mut i: usize = 1;
    while i < n
        invariant
            n == keys@.len(),
            ord@.len() == n,
            forall|p: int| 0 <= p < n ==> (#[trigger] ord@[p]) < n,
            forall|p: int, q: int| 0 <= p < q < n ==> ord@[p] != ord@[q],
            forall|p: int, q: int|
                0 <= p < q < i && q < n ==> payment_before(keys@, #[trigger] ord@[p] as int, #[trigger] ord@[q] as int),
        decreases n - i,
    {
        let mut j: usize = i;
        while j > 0 && payment_before_exec(keys, ord[j], ord[j - 1])
            invariant
                n == keys@.len(),
                i < n,
                j <= i,
                ord@.len() == n,
                forall|p: int| 0 <= p < n ==> (#[trigger] ord@[p]) < n,
                forall|p: int, q: int| 0 <= p < q < n ==> ord@[p] != ord@[q],
                forall|p: int, q: int|
                    0 <= p < q <= i && p != j && q != j ==> payment_before(
                        keys@,
                        #[trigger] ord@[p] as int,
                        #[trigger] ord@[q] as int,
                    ),
                forall|q: int|
                    j < q <= i ==> payment_before(keys@, ord@[j as int] as int, #[trigger] ord@[q] as int),
            decreases j,
        {
            let a = ord[j];
            let b = ord[j - 1];
            ord.set(j, b);
            ord.set(j - 1, a);
            j = j - 1;
        }
        proof {
            if j > 0 {
                let x = ord@[j as int] as int;
                let y = ord@[j - 1] as int;
                assert(payment_before(keys@, y, x));
                assert forall|p: int| 0 <= p < j implies payment_before(keys@, #[trigger] ord@[p] as int, x) by {
                    if p < j - 1 {
                        assert(payment_before(keys@, ord@[p] as int, y));
                    }
                }
            }
            assert forall|p: int, q: int|
                0 <= p < q < i + 1 && q < n implies payment_before(keys@, #[trigger] ord@[p] as int, #[trigger] ord@[q] as int) by {
                if q == j {
                    assert(p < j);
                }
            }
        }
        i = i + 1;
    }
    ord
}

/// The first and last events of a package, as indices into the event
/// times (run audit events, then compliance events, then payment rows):
/// the first of the earliest and the last of the latest.
pub open spec fn is_event_span(times: Seq<i128>, first: int, last: int) -> bool {
    &&& 0 <= first < times.len()
    &&& 0 <= last < times.len()
    &&& forall|k: int| 0 <= k < times.len() ==> times[first] <= #[trigger] times[k]
    &&& forall|k: int| 0 <= k < first ==> times[first] < #[trigger] times[k]
    &&& forall|k: int| 0 <= k < times.len() ==> #[trigger] times[k] <= times[last]
    &&& forall|k: int| last < k < times.len() ==> #[trigger] times[k] < times[last]
}

pub fn replay_event_span(times: &Vec<i128>) -> (r: Option<(usize, usize)>)
    ensures
        match r {
            None => times@.len() == 0,
            Some((f, l)) => is_event_span(times@, f as int, l as int),
        },
{
    if times.len() == 0 {
        return None;
    }
    let mut first: usize = 0;
    let mut last: usize = 0;
    let mut i: usize = 1;
    while i < times.len()
        invariant
            1 <= i <= times@.len(),
            first < i,
            last < i,
            forall|k: int| 0 <= k < i ==> times@[first as int] <= #[trigger] times@[k],
            forall|k: int| 0 <= k < first ==> times@[first as int] < #[trigger] times@[k],
            forall|k: int| 0 <= k < i ==> #[trigger] times@[k] <= times@[last as int],
            forall|k: int| last < k < i ==> #[trigger] times@[k] < times@[last as int],
        decreases times.len() - i,
    {
        if times[i] < times[first] {
            first = i;
        }
        if times[i] >= times[last] {
            last = i;
        }
        i = i + 1;
    }
    Some((first, last))
}

/// An array holding the hyphenated texts of `ids`, in order.
pub open spec fn is_id_text_array(v: JsonValue, ids: Seq<u128>) -> bool {
    v matches JsonValue::Array(items) && items@.len() == ids.len() && forall|i: int|
        0 <= i < ids.len() ==> as_str(#[trigger] items@[i]) == Some(uuid_text(ids[i]))
}

/// The document a replay manifest seals: the tenant, the run, when the
/// package was generated, the ids of its run audit events, compliance
/// events and payment requests in package order, and the correlation
/// summary; no other field.
pub open spec fn is_manifest_document(
    r: JsonValue,
    tenant_id: Seq<char>,
    run_id: u128,
    generated_at: JsonValue,
    run_audit_event_ids: Seq<u128>,
    compliance_audit_event_ids: Seq<u128>,
    payment_request_ids: Seq<u128>,
    correlation: JsonValue,
) -> bool {
    &&& r is Object
    &&& keys_unique(r->Object_0@)
    &&& str_field(r, "tenant_id"@) == Some(tenant_id)
    &&& str_field(r, "run_id"@) == Some(uuid_text(run_id))
    &&& get(r, "generated_at"@) == Some(generated_at)
    &&& (get(r, "run_audit_event_ids"@) matches Some(a) && is_id_text_array(a, run_audit_event_ids))
    &&& (get(r, "compliance_audit_event_ids"@) matches Some(c) && is_id_text_array(
        c,
        compliance_audit_event_ids,
    ))
    &&& (get(r, "payment_request_ids"@) matches Some(p) && is_id_text_array(p, payment_request_ids))
    &&& get(r, "correlation"@) == Some(correlation)
    &&& forall|k: Seq<char>|
        k != "tenant_id"@ && k != "run_id"@ && k != "generated_at"@ && k != "run_audit_event_ids"@
            && k != "compliance_audit_event_ids"@ && k != "payment_request_ids"@ && k
            != "correlation"@ ==> #[trigger] get(r, k) is None
}

fn id_text_array(ids: &Vec<u128>) -> (r: JsonValue)
    ensures
        is_id_text_array(r, ids@),
{
    let mut items: Vec<JsonValue> = Vec::new();
    let mut i: usize = 0;
    while i < ids.len()
        invariant
            i <= ids@.len(),
            items@.len() == i,
            forall|k: int| 0 <= k < i ==> as_str(#[trigger] items@[k]) == Some(uuid_text(ids@[k])),
        decreases ids.len() - i,
    {
        let t = uuid_to_text(ids[i]);
        items.push(json_str(t.as_str()));
        i = i + 1;
    }
    JsonValue::Array(items)
}

/// Builds the document a replay manifest seals. `generated_at` and
/// `correlation` come as the JSON the application writes for them.
pub fn replay_manifest_document(
    tenant_id: &str,
    run_id: u128,
    generated_at: JsonValue,
    run_audit_event_ids: &Vec<u128>,
    compliance_audit_event_ids: &Vec<u128>,
    payment_request_ids: &Vec<u128>,
    correlation: JsonValue,
) -> (r: JsonValue)
    ensures
        is_manifest_document(
            r,
            tenant_id@,
            run_id,
            generated_at,
            run_audit_event_ids@,
            compliance_audit_event_ids@,
            payment_request_ids@,
            correlation,
        ),
{
    proof {
        reveal_strlit("tenant_id");
        reveal_strlit("run_id");
        reveal_strlit("generated_at");
        reveal_strlit("run_audit_event_ids");
        reveal_strlit("compliance_audit_event_ids");
        reveal_strlit("payment_request_ids");
        reveal_strlit("correlation");
        assert("tenant_id"@.len() == 9);
        assert("run_id"@.len() == 6);
        assert("generated_at"@.len() == 12);
        assert("run_audit_event_ids"@.len() == 19);
        assert("compliance_audit_event_ids"@.len() == 26);
        assert("payment_request_ids"@.len() == 19);
        assert("correlation"@.len() == 11);
        assert("run_audit_event_ids"@[0] != "payment_request_ids"@[0]);
    }
    let audits = id_text_array(run_audit_event_ids);
    let compliance = id_text_array(compliance_audit_event_ids);
    let payments = id_text_array(payment_request_ids);
    let run_text = uuid_to_text(run_id);
    let mut fs: Vec<JsonField> = Vec::new();
    assert(keys_unique(fs@));
    insert_field(&mut fs, "tenant_id", json_str(tenant_id));
    insert_field(&mut fs, "run_id", json_str(run_text.as_str()));
    insert_field(&mut fs, "generated_at", generated_at);
    insert_field(&mut fs, "run_audit_event_ids", audits);
    insert_field(&mut fs, "compliance_audit_event_ids", compliance);
    insert_field(&mut fs, "payment_request_ids", payments);
    insert_field(&mut fs, "correlation", correlation);
    JsonValue::Object(fs)
}

} // verus!

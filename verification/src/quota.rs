//! Tenant capacity limits on inflight runs, triggers and memory records.
use vstd::prelude::*;
use crate::text::{dec_int, dec_i64, append_chars, append_str, from_chars};
use crate::error::{ApiError, ErrView, err, own, STATUS_TOO_MANY_REQUESTS};

verus! {

/// What a tenant limit counts.
#[derive(Debug, Clone, Copy, PartialEq, Eq, Structural)]
pub enum CapacityKind {
    InflightRuns,
    Triggers,
    MemoryRecords,
}

pub open spec fn capacity_code(kind: CapacityKind) -> Seq<char> {
    match kind {
        CapacityKind::InflightRuns => "TENANT_INFLIGHT_LIMITED"@,
        CapacityKind::Triggers => "TENANT_TRIGGER_LIMITED"@,
        CapacityKind::MemoryRecords => "TENANT_MEMORY_LIMITED"@,
    }
}

pub open spec fn capacity_message(kind: CapacityKind, limit: i64, count: i64) -> Seq<char> {
    let (what, counted) = match kind {
        CapacityKind::InflightRuns => ("inflight run"@, "inflight"@),
        CapacityKind::Triggers => ("trigger"@, "triggers"@),
        CapacityKind::MemoryRecords => ("memory record"@, "active_records"@),
    };
    "tenant is at max "@ + what + " capacity (limit="@ + dec_int(limit as int) + ", "@ + counted
        + "="@ + dec_int(count as int) + ")"@
}

/// A tenant at or over its limit is refused with 429.
pub open spec fn capacity_spec(kind: CapacityKind, limit: i64, count: i64) -> Option<ErrView> {
    if count >= limit {
        Some(err(STATUS_TOO_MANY_REQUESTS, capacity_code(kind), capacity_message(kind, limit, count)))
    } else {
        None
    }
}

/// Checks a tenant's current count against its configured limit.
pub fn check_tenant_capacity(kind: CapacityKind, limit: i64, count: i64) -> (r: Result<(), ApiError>)
    ensures
        match capacity_spec(kind, limit, count) {
            None => r is Ok,
            Some(e) => r matches Err(x) && x@ == e,
        },
{
    if count < limit {
        return Ok(());
    }
    let (code, what, counted) = match kind {
        CapacityKind::InflightRuns => ("TENANT_INFLIGHT_LIMITED", "inflight run", "inflight"),
        CapacityKind::Triggers => ("TENANT_TRIGGER_LIMITED", "trigger", "triggers"),
        CapacityKind::MemoryRecords => ("TENANT_MEMORY_LIMITED", "memory record", "active_records"),
    };
    let mut m: Vec<char> = Vec::new();
    append_str(&mut m, "tenant is at max ");
    append_str(&mut m, what);
    append_str(&mut m, " capacity (limit=");
    let l = dec_i64(limit);
    append_chars(&mut m, l.as_slice());
    append_str(&mut m, ", ");
    append_str(&mut m, counted);
    append_str(&mut m, "=");
    let c = dec_i64(count);
    append_chars(&mut m, c.as_slice());
    append_str(&mut m, ")");
    Err(ApiError { status: STATUS_TOO_MANY_REQUESTS, code: own(code), message: from_chars(m.as_slice()) })
}

/// With a limit configured, a tenant is admitted exactly while its count is
/// below the limit.
pub proof fn law_capacity_admits_below_limit(kind: CapacityKind, limit: i64, count: i64)
    ensures
        capacity_spec(kind, limit, count) is None <==> count < limit,
        capacity_spec(kind, limit, count) matches Some(e) ==> e.status == STATUS_TOO_MANY_REQUESTS,
{
}

} // verus!

//! The payment ledger's reading of payment requests: normalized outcomes,
//! error classes, settlement fields, and the ledger and summary queries.
use vstd::prelude::*;
use crate::text::{
    contains_sub, trim, to_chars, chars_eq_str, contains_str, trim_non_empty, trim_non_empty_spec,
};
use crate::error::{ApiError, ErrView, bad_request, own};
use crate::json::{JsonValue, str_field, str_field_of};
use crate::limits::{clamp_spec, clamp_u64, or_default_i64, limit_or_default, MAX_WINDOW_SECS};

verus! {

pub open spec fn opt_text(o: Option<&str>) -> Option<Seq<char>> {
    match o {
        Some(s) => Some(s@),
        None => None,
    }
}

/// The outcome a ledger row reports: a duplicate request stays a
/// duplicate; otherwise the latest result's status decides (unknown for an
/// unexpected one), and without a result the request's own status.
pub open spec fn payment_outcome_spec(request_status: Seq<char>, latest: Option<Seq<char>>) -> Seq<char> {
    if request_status == "duplicate"@ {
        "duplicate"@
    } else {
        match latest {
            Some(l) => if l == "executed"@ || l == "failed"@ || l == "duplicate"@ {
                l
            } else {
                "unknown"@
            },
            None => if request_status == "executed"@ || request_status == "failed"@
                || request_status == "requested"@ {
                request_status
            } else {
                "unknown"@
            },
        }
    }
}

pub fn normalize_payment_outcome(request_status: &str, latest_result_status: Option<&str>) -> (r:
    &'static str)
    ensures
        r@ == payment_outcome_spec(request_status@, opt_text(latest_result_status)),
        request_status@ == "duplicate"@ ==> r@ == "duplicate"@,
        request_status@ != "duplicate"@ ==> (latest_result_status matches Some(l) ==> (l@
            == "executed"@ || l@ == "failed"@ || l@ == "duplicate"@ ==> r@ == l@)),
        request_status@ != "duplicate"@ ==> (latest_result_status matches Some(l) ==> (l@
            != "executed"@ && l@ != "failed"@ && l@ != "duplicate"@ ==> r@ == "unknown"@)),
        request_status@ != "duplicate"@ && latest_result_status is None ==> (request_status@
            == "executed"@ || request_status@ == "failed"@ || request_status@ == "requested"@
            ==> r@ == request_status@),
        request_status@ != "duplicate"@ && latest_result_status is None ==> (request_status@
            != "executed"@ && request_status@ != "failed"@ && request_status@ != "requested"@
            ==> r@ == "unknown"@),
{
    let req = to_chars(request_status);
    let req = req.as_slice();
    if chars_eq_str(req, "duplicate") {
        return "duplicate";
    }
    match latest_result_status {
        Some(l) => {
            let lc = to_chars(l);
            let lc = lc.as_slice();
            if chars_eq_str(lc, "executed") {
                "executed"
            } else if chars_eq_str(lc, "failed") {
                "failed"
            } else if chars_eq_str(lc, "duplicate") {
                "duplicate"
            } else {
                "unknown"
            }
        },
        None => {
            if chars_eq_str(req, "executed") {
                "executed"
            } else if chars_eq_str(req, "failed") {
                "failed"
            } else if chars_eq_str(req, "requested") {
                "requested"
            } else {
                "unknown"
            }
        },
    }
}

/// A request recorded as a duplicate is reported as one, whatever its
/// results say.
pub proof fn law_duplicate_request_stays_duplicate(latest: Option<Seq<char>>)
    ensures
        payment_outcome_spec("duplicate"@, latest) == "duplicate"@,
{
}

/// The class of a payment error code, by the first marker it contains.
pub open spec fn error_class_spec(code: Seq<char>) -> Seq<char> {
    if contains_sub(code, "BUDGET_EXCEEDED"@) {
        "budget_limit"@
    } else if contains_sub(code, "APPROVAL_REQUIRED"@) {
        "approval_required"@
    } else if contains_sub(code, "WALLET_NOT_CONFIGURED"@) || contains_sub(
        code,
        "MINT_NOT_CONFIGURED"@,
    ) || contains_sub(code, "MINTS_NOT_CONFIGURED"@) || contains_sub(
        code,
        "INVALID_DESTINATION"@,
    ) {
        "configuration"@
    } else if contains_sub(code, "HTTP_DISABLED"@) || contains_sub(code, "DISABLED"@) {
        "disabled"@
    } else if contains_sub(code, "REQUEST_FAILED"@) || contains_sub(code, "HTTP_FAILED"@)
        || contains_sub(code, "RESPONSE_ERROR"@) {
        "upstream_failure"@
    } else {
        "unknown"@
    }
}

/// Each marker decides the class of every code that contains it and none of
/// the markers that come before it: a spent budget, a required approval, a
/// missing wallet, mint or destination (configuration), a disabled rail, a
/// failed upstream request; a code with no marker is of unknown class.
pub proof fn law_error_markers_decide_class(code: Seq<char>)
    ensures
        contains_sub(code, "BUDGET_EXCEEDED"@)
            ==> error_class_spec(code) == "budget_limit"@,
        contains_sub(code, "APPROVAL_REQUIRED"@)
            && !contains_sub(code, "BUDGET_EXCEEDED"@)
            ==> error_class_spec(code) == "approval_required"@,
        contains_sub(code, "WALLET_NOT_CONFIGURED"@)
            && !contains_sub(code, "BUDGET_EXCEEDED"@)
            && !contains_sub(code, "APPROVAL_REQUIRED"@)
            ==> error_class_spec(code) == "configuration"@,
        contains_sub(code, "MINT_NOT_CONFIGURED"@)
            && !contains_sub(code, "BUDGET_EXCEEDED"@)
            && !contains_sub(code, "APPROVAL_REQUIRED"@)
            ==> error_class_spec(code) == "configuration"@,
        contains_sub(code, "MINTS_NOT_CONFIGURED"@)
            && !contains_sub(code, "BUDGET_EXCEEDED"@)
            && !contains_sub(code, "APPROVAL_REQUIRED"@)
            ==> error_class_spec(code) == "configuration"@,
        contains_sub(code, "INVALID_DESTINATION"@)
            && !contains_sub(code, "BUDGET_EXCEEDED"@)
            && !contains_sub(code, "APPROVAL_REQUIRED"@)
            ==> error_class_spec(code) == "configuration"@,
        contains_sub(code, "HTTP_DISABLED"@)
            && !contains_sub(code, "BUDGET_EXCEEDED"@)
            && !contains_sub(code, "APPROVAL_REQUIRED"@)
            && !contains_sub(code, "WALLET_NOT_CONFIGURED"@)
            && !contains_sub(code, "MINT_NOT_CONFIGURED"@)
            && !contains_sub(code, "MINTS_NOT_CONFIGURED"@)
            && !contains_sub(code, "INVALID_DESTINATION"@)
            ==> error_class_spec(code) == "disabled"@,
        contains_sub(code, "DISABLED"@)
            && !contains_sub(code, "BUDGET_EXCEEDED"@)
            && !contains_sub(code, "APPROVAL_REQUIRED"@)
            && !contains_sub(code, "WALLET_NOT_CONFIGURED"@)
            && !contains_sub(code, "MINT_NOT_CONFIGURED"@)
            && !contains_sub(code, "MINTS_NOT_CONFIGURED"@)
            && !contains_sub(code, "INVALID_DESTINATION"@)
            ==> error_class_spec(code) == "disabled"@,
        contains_sub(code, "REQUEST_FAILED"@)
            && !contains_sub(code, "BUDGET_EXCEEDED"@)
            && !contains_sub(code, "APPROVAL_REQUIRED"@)
            && !contains_sub(code, "WALLET_NOT_CONFIGURED"@)
            && !contains_sub(code, "MINT_NOT_CONFIGURED"@)
            && !contains_sub(code, "MINTS_NOT_CONFIGURED"@)
            && !contains_sub(code, "INVALID_DESTINATION"@)
            && !contains_sub(code, "HTTP_DISABLED"@)
            && !contains_sub(code, "DISABLED"@)
            ==> error_class_spec(code) == "upstream_failure"@,
        contains_sub(code, "HTTP_FAILED"@)
            && !contains_sub(code, "BUDGET_EXCEEDED"@)
            && !contains_sub(code, "APPROVAL_REQUIRED"@)
            && !contains_sub(code, "WALLET_NOT_CONFIGURED"@)
            && !contains_sub(code, "MINT_NOT_CONFIGURED"@)
            && !contains_sub(code, "MINTS_NOT_CONFIGURED"@)
            && !contains_sub(code, "INVALID_DESTINATION"@)
            && !contains_sub(code, "HTTP_DISABLED"@)
            && !contains_sub(code, "DISABLED"@)
            ==> error_class_spec(code) == "upstream_failure"@,
        contains_sub(code, "RESPONSE_ERROR"@)
            && !contains_sub(code, "BUDGET_EXCEEDED"@)
            && !contains_sub(code, "APPROVAL_REQUIRED"@)
            && !contains_sub(code, "WALLET_NOT_CONFIGURED"@)
            && !contains_sub(code, "MINT_NOT_CONFIGURED"@)
            && !contains_sub(code, "MINTS_NOT_CONFIGURED"@)
            && !contains_sub(code, "INVALID_DESTINATION"@)
            && !contains_sub(code, "HTTP_DISABLED"@)
            && !contains_sub(code, "DISABLED"@)
            ==> error_class_spec(code) == "upstream_failure"@,
        !contains_sub(code, "BUDGET_EXCEEDED"@)
            && !contains_sub(code, "APPROVAL_REQUIRED"@)
            && !contains_sub(code, "WALLET_NOT_CONFIGURED"@)
            && !contains_sub(code, "MINT_NOT_CONFIGURED"@)
            && !contains_sub(code, "MINTS_NOT_CONFIGURED"@)
            && !contains_sub(code, "INVALID_DESTINATION"@)
            && !contains_sub(code, "HTTP_DISABLED"@)
            && !contains_sub(code, "DISABLED"@)
            && !contains_sub(code, "REQUEST_FAILED"@)
            && !contains_sub(code, "HTTP_FAILED"@)
            && !contains_sub(code, "RESPONSE_ERROR"@)
            ==> error_class_spec(code) == "unknown"@,
{
}

pub fn classify_payment_error_code(code: &str) -> (r: &'static str)
    ensures
        r@ == error_class_spec(code@),
        contains_sub(code@, "BUDGET_EXCEEDED"@)
            ==> r@ == "budget_limit"@,
        contains_sub(code@, "APPROVAL_REQUIRED"@)
            && !contains_sub(code@, "BUDGET_EXCEEDED"@)
            ==> r@ == "approval_required"@,
        contains_sub(code@, "WALLET_NOT_CONFIGURED"@)
            && !contains_sub(code@, "BUDGET_EXCEEDED"@)
            && !contains_sub(code@, "APPROVAL_REQUIRED"@)
            ==> r@ == "configuration"@,
        contains_sub(code@, "MINT_NOT_CONFIGURED"@)
            && !contains_sub(code@, "BUDGET_EXCEEDED"@)
            && !contains_sub(code@, "APPROVAL_REQUIRED"@)
            ==> r@ == "configuration"@,
        contains_sub(code@, "MINTS_NOT_CONFIGURED"@)
            && !contains_sub(code@, "BUDGET_EXCEEDED"@)
            && !contains_sub(code@, "APPROVAL_REQUIRED"@)
            ==> r@ == "configuration"@,
        contains_sub(code@, "INVALID_DESTINATION"@)
            && !contains_sub(code@, "BUDGET_EXCEEDED"@)
            && !contains_sub(code@, "APPROVAL_REQUIRED"@)
            ==> r@ == "configuration"@,
        contains_sub(code@, "HTTP_DISABLED"@)
            && !contains_sub(code@, "BUDGET_EXCEEDED"@)
            && !contains_sub(code@, "APPROVAL_REQUIRED"@)
            && !contains_sub(code@, "WALLET_NOT_CONFIGURED"@)
            && !contains_sub(code@, "MINT_NOT_CONFIGURED"@)
            && !contains_sub(code@, "MINTS_NOT_CONFIGURED"@)
            && !contains_sub(code@, "INVALID_DESTINATION"@)
            ==> r@ == "disabled"@,
        contains_sub(code@, "DISABLED"@)
            && !contains_sub(code@, "BUDGET_EXCEEDED"@)
            && !contains_sub(code@, "APPROVAL_REQUIRED"@)
            && !contains_sub(code@, "WALLET_NOT_CONFIGURED"@)
            && !contains_sub(code@, "MINT_NOT_CONFIGURED"@)
            && !contains_sub(code@, "MINTS_NOT_CONFIGURED"@)
            && !contains_sub(code@, "INVALID_DESTINATION"@)
            ==> r@ == "disabled"@,
        contains_sub(code@, "REQUEST_FAILED"@)
            && !contains_sub(code@, "BUDGET_EXCEEDED"@)
            && !contains_sub(code@, "APPROVAL_REQUIRED"@)
            && !contains_sub(code@, "WALLET_NOT_CONFIGURED"@)
            && !contains_sub(code@, "MINT_NOT_CONFIGURED"@)
            && !contains_sub(code@, "MINTS_NOT_CONFIGURED"@)
            && !contains_sub(code@, "INVALID_DESTINATION"@)
            && !contains_sub(code@, "HTTP_DISABLED"@)
            && !contains_sub(code@, "DISABLED"@)
            ==> r@ == "upstream_failure"@,
        contains_sub(code@, "HTTP_FAILED"@)
            && !contains_sub(code@, "BUDGET_EXCEEDED"@)
            && !contains_sub(code@, "APPROVAL_REQUIRED"@)
            && !contains_sub(code@, "WALLET_NOT_CONFIGURED"@)
            && !contains_sub(code@, "MINT_NOT_CONFIGURED"@)
            && !contains_sub(code@, "MINTS_NOT_CONFIGURED"@)
            && !contains_sub(code@, "INVALID_DESTINATION"@)
            && !contains_sub(code@, "HTTP_DISABLED"@)
            && !contains_sub(code@, "DISABLED"@)
            ==> r@ == "upstream_failure"@,
        contains_sub(code@, "RESPONSE_ERROR"@)
            && !contains_sub(code@, "BUDGET_EXCEEDED"@)
            && !contains_sub(code@, "APPROVAL_REQUIRED"@)
            && !contains_sub(code@, "WALLET_NOT_CONFIGURED"@)
            && !contains_sub(code@, "MINT_NOT_CONFIGURED"@)
            && !contains_sub(code@, "MINTS_NOT_CONFIGURED"@)
            && !contains_sub(code@, "INVALID_DESTINATION"@)
            && !contains_sub(code@, "HTTP_DISABLED"@)
            && !contains_sub(code@, "DISABLED"@)
            ==> r@ == "upstream_failure"@,
        !contains_sub(code@, "BUDGET_EXCEEDED"@)
            && !contains_sub(code@, "APPROVAL_REQUIRED"@)
            && !contains_sub(code@, "WALLET_NOT_CONFIGURED"@)
            && !contains_sub(code@, "MINT_NOT_CONFIGURED"@)
            && !contains_sub(code@, "MINTS_NOT_CONFIGURED"@)
            && !contains_sub(code@, "INVALID_DESTINATION"@)
            && !contains_sub(code@, "HTTP_DISABLED"@)
            && !contains_sub(code@, "DISABLED"@)
            && !contains_sub(code@, "REQUEST_FAILED"@)
            && !contains_sub(code@, "HTTP_FAILED"@)
            && !contains_sub(code@, "RESPONSE_ERROR"@)
            ==> r@ == "unknown"@,
{
    let c = to_chars(code);
    let c = c.as_slice();
    if contains_str(c, "BUDGET_EXCEEDED") {
        "budget_limit"
    } else if contains_str(c, "APPROVAL_REQUIRED") {
        "approval_required"
    } else if contains_str(c, "WALLET_NOT_CONFIGURED") || contains_str(c, "MINT_NOT_CONFIGURED")
        || contains_str(c, "MINTS_NOT_CONFIGURED") || contains_str(c, "INVALID_DESTINATION") {
        "configuration"
    } else if contains_str(c, "HTTP_DISABLED") || contains_str(c, "DISABLED") {
        "disabled"
    } else if contains_str(c, "REQUEST_FAILED") || contains_str(c, "HTTP_FAILED") || contains_str(
        c,
        "RESPONSE_ERROR",
    ) {
        "upstream_failure"
    } else {
        "unknown"
    }
}

/// The fields a ledger row derives from the request and its latest result.
#[derive(Debug)]
pub struct PaymentLedgerDerived {
    pub settlement_status: Option<String>,
    pub settlement_rail: String,
    pub normalized_outcome: String,
    pub normalized_error_code: Option<String>,
    pub normalized_error_class: Option<String>,
}

pub open spec fn opt_json_str(o: Option<JsonValue>, key: Seq<char>) -> Option<Seq<char>> {
    match o {
        Some(j) => str_field(j, key),
        None => None,
    }
}

pub open spec fn opt_string(o: Option<String>) -> Option<Seq<char>> {
    match o {
        Some(s) => Some(s@),
        None => None,
    }
}

fn opt_json_str_of(o: &Option<JsonValue>, key: &str) -> (r: Option<String>)
    ensures
        opt_string(r) == opt_json_str(*o, key@),
{
    match o {
        Some(j) => str_field_of(j, key),
        None => None,
    }
}

/// Derives a ledger row's reading: the settlement status and rail from
/// the latest result (the rail defaulting to the provider), the outcome,
/// and the error code and class from the latest error.
pub fn derive_payment_ledger_fields(
    provider: &str,
    request_status: &str,
    latest_result_status: Option<&str>,
    latest_result_json: &Option<JsonValue>,
    latest_error_json: &Option<JsonValue>,
) -> (r: PaymentLedgerDerived)
    ensures
        opt_string(r.settlement_status) == opt_json_str(*latest_result_json, "settlement_status"@),
        r.settlement_rail@ == match opt_json_str(*latest_result_json, "rail"@) {
            Some(x) => x,
            None => provider@,
        },
        r.normalized_outcome@ == payment_outcome_spec(
            request_status@,
            opt_text(latest_result_status),
        ),
        opt_string(r.normalized_error_code) == opt_json_str(*latest_error_json, "code"@),
        opt_string(r.normalized_error_class) == match opt_json_str(*latest_error_json, "code"@) {
            Some(c) => Some(error_class_spec(c)),
            None => None,
        },
{
    let settlement_status = opt_json_str_of(latest_result_json, "settlement_status");
    let settlement_rail = match opt_json_str_of(latest_result_json, "rail") {
        Some(x) => x,
        None => own(provider),
    };
    let outcome = normalize_payment_outcome(request_status, latest_result_status);
    let code = opt_json_str_of(latest_error_json, "code");
    let class = match &code {
        Some(c) => Some(own(classify_payment_error_code(c.as_str()))),
        None => None,
    };
    PaymentLedgerDerived {
        settlement_status,
        settlement_rail,
        normalized_outcome: own(outcome),
        normalized_error_code: code,
        normalized_error_class: class,
    }
}

/// The filters of a ledger listing.
#[derive(Debug)]
pub struct PaymentLedgerFilters {
    pub limit: i64,
    pub status: Option<String>,
    pub destination: Option<String>,
    pub idempotency_key: Option<String>,
}

pub open spec fn trimmed_filter(o: Option<Seq<char>>) -> Option<Seq<char>> {
    match o {
        Some(s) => trim_non_empty_spec(s),
        None => None,
    }
}

/// A ledger listing: 100 rows by default, at most 500; text filters are
/// trimmed, blank ones dropped.
pub fn plan_payment_ledger_query(
    limit: Option<i64>,
    status: Option<&str>,
    destination: Option<&str>,
    idempotency_key: Option<&str>,
) -> (r: PaymentLedgerFilters)
    ensures
        r.limit == clamp_spec(or_default_i64(limit, 100), 1, 500),
        limit is None ==> r.limit == 100,
        limit matches Some(v) ==> (1 <= v <= 500 ==> r.limit == v),
        limit matches Some(v) ==> (v < 1 ==> r.limit == 1),
        limit matches Some(v) ==> (v > 500 ==> r.limit == 500),
        opt_string(r.status) == trimmed_filter(opt_text(status)),
        opt_string(r.destination) == trimmed_filter(opt_text(destination)),
        opt_string(r.idempotency_key) == trimmed_filter(opt_text(idempotency_key)),
{
    PaymentLedgerFilters {
        limit: limit_or_default(limit, 100, 500),
        status: trim_non_empty(status),
        destination: trim_non_empty(destination),
        idempotency_key: trim_non_empty(idempotency_key),
    }
}

/// The filters of a payment summary.
#[derive(Debug)]
pub struct PaymentSummaryFilters {
    pub window_secs: Option<u64>,
    pub operation: Option<String>,
}

/// A payment summary: an optional window of one second to a year, and an
/// optional operation, which must be a known one.
pub open spec fn payment_summary_spec(window_secs: Option<u64>, operation: Option<Seq<char>>) -> Result<
    (Option<int>, Option<Seq<char>>),
    ErrView,
> {
    let w = match window_secs {
        Some(v) => Some(clamp_spec(v as int, 1, MAX_WINDOW_SECS as int)),
        None => None,
    };
    match trimmed_filter(operation) {
        None => Ok((w, None)),
        Some(op) => if op == "pay_invoice"@ || op == "make_invoice"@ || op == "get_balance"@ {
            Ok((w, Some(op)))
        } else {
            Err(bad_request("operation must be one of: pay_invoice, make_invoice, get_balance"@))
        },
    }
}

pub open spec fn opt_u64(o: Option<u64>) -> Option<int> {
    match o {
        Some(v) => Some(v as int),
        None => None,
    }
}

pub fn plan_payment_summary_query(window_secs: Option<u64>, operation: Option<&str>) -> (r: Result<
    PaymentSummaryFilters,
    ApiError,
>)
    ensures
        match (r, payment_summary_spec(window_secs, opt_text(operation))) {
            (Ok(p), Ok(v)) => opt_u64(p.window_secs) == v.0 && opt_string(p.operation) == v.1,
            (Err(e), Err(f)) => e@ == f,
            _ => false,
        },
        r is Err <==> (operation matches Some(o) && trim(o@).len() > 0 && trim(o@) != "pay_invoice"@
            && trim(o@) != "make_invoice"@ && trim(o@) != "get_balance"@),
        r matches Ok(p) ==> (operation matches Some(o) ==> (trim(o@).len() > 0 ==> (p.operation
            matches Some(x) && x@ == trim(o@)))),
        r matches Ok(p) ==> (operation matches Some(o) ==> (trim(o@).len() == 0 ==> p.operation
            is None)),
        r matches Ok(p) ==> (operation is None ==> p.operation is None),
        r matches Ok(p) ==> (window_secs is None <==> p.window_secs is None),
        r matches Ok(p) ==> (window_secs matches Some(v) ==> (1 <= v <= 31_536_000
            ==> p.window_secs == Some(v))),
        r matches Ok(p) ==> (window_secs matches Some(v) ==> (v == 0 ==> p.window_secs == Some(
            1u64))),
        r matches Ok(p) ==> (window_secs matches Some(v) ==> (v > 31_536_000 ==> p.window_secs
            == Some(31_536_000u64))),
{
    let w = match window_secs {
        Some(v) => Some(clamp_u64(v, 1, MAX_WINDOW_SECS)),
        None => None,
    };
    let op = trim_non_empty(operation);
    match &op {
        Some(o) => {
            let c = to_chars(o.as_str());
            let c = c.as_slice();
            if !(chars_eq_str(c, "pay_invoice") || chars_eq_str(c, "make_invoice") || chars_eq_str(
                c,
                "get_balance",
            )) {
                return Err(
                    ApiError::bad_request(
                        "operation must be one of: pay_invoice, make_invoice, get_balance",
                    ),
                );
            }
        },
        None => {},
    }
    Ok(PaymentSummaryFilters { window_secs: w, operation: op })
}

} // verus!

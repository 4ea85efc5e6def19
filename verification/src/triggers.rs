//! Trigger requests: the bounds on new interval, cron and webhook
//! triggers, the rules of a configuration update and the configuration it
//! yields, manual fires, webhook event intake and event replay.
use vstd::prelude::*;
use crate::headers::HeaderValue;
use crate::text::{
    trim, trim_non_empty, trim_non_empty_spec, utf8_len, utf8_len_exceeds, to_chars, trim_chars, from_chars, chars_eq,
    chars_eq_str, append_str, append_chars,
};
use crate::error::{ApiError, ErrView, err, bad_request, conflict, not_found, unauthorized, own};
use crate::json::{JsonValue, JsonField, insert_field, json_str, merge_json_objects_for_api, get, str_field, keys_unique, merged_lookup};

verus! {

pub const MAX_INTERVAL_SECONDS: i64 = 31_536_000;
pub const MAX_TRIGGER_INFLIGHT_RUNS: i32 = 1000;
pub const MAX_TRIGGER_ATTEMPTS: i32 = 20;
pub const MAX_JITTER_SECONDS: i32 = 3600;
pub const MAX_IDEMPOTENCY_KEY_BYTES: usize = 128;

pub open spec fn inflight_err() -> ErrView {
    bad_request("max_inflight_runs must be between 1 and 1000"@)
}

pub open spec fn jitter_err() -> ErrView {
    bad_request("jitter_seconds must be between 0 and 3600"@)
}

pub open spec fn attempts_err() -> ErrView {
    bad_request("max_attempts must be between 1 and 20"@)
}

pub open spec fn inflight_ok(v: i32) -> bool {
    1 <= v <= MAX_TRIGGER_INFLIGHT_RUNS
}

pub open spec fn jitter_ok(v: i32) -> bool {
    0 <= v <= MAX_JITTER_SECONDS
}

pub open spec fn attempts_ok(v: i32) -> bool {
    1 <= v <= MAX_TRIGGER_ATTEMPTS
}

/// The first bound a new interval trigger breaks, if any.
pub open spec fn interval_request_check(interval_seconds: i64, max_inflight_runs: i32, jitter_seconds: i32) -> Option<ErrView> {
    if interval_seconds <= 0 {
        Some(bad_request("interval_seconds must be greater than zero"@))
    } else if interval_seconds > MAX_INTERVAL_SECONDS {
        Some(bad_request("interval_seconds exceeds maximum of 31536000"@))
    } else if !inflight_ok(max_inflight_runs) {
        Some(inflight_err())
    } else if !jitter_ok(jitter_seconds) {
        Some(jitter_err())
    } else {
        None
    }
}

pub open spec fn check_result(r: Result<(), ApiError>, expected: Option<ErrView>) -> bool {
    match (r, expected) {
        (Ok(_), None) => true,
        (Err(e), Some(x)) => e@ == x,
        _ => false,
    }
}

/// The bounds on a new interval trigger.
pub fn validate_interval_trigger_request(interval_seconds: i64, max_inflight_runs: i32, jitter_seconds: i32) -> (r: Result<(), ApiError>)
    ensures
        check_result(r, interval_request_check(interval_seconds, max_inflight_runs, jitter_seconds)),
        r is Ok <==> (1 <= interval_seconds <= 31_536_000 && 1 <= max_inflight_runs <= 1000 && 0
            <= jitter_seconds <= 3600),
{
    if interval_seconds <= 0 {
        return Err(ApiError::bad_request("interval_seconds must be greater than zero"));
    }
    if interval_seconds > MAX_INTERVAL_SECONDS {
        return Err(ApiError::bad_request("interval_seconds exceeds maximum of 31536000"));
    }
    if max_inflight_runs <= 0 || max_inflight_runs > MAX_TRIGGER_INFLIGHT_RUNS {
        return Err(ApiError::bad_request("max_inflight_runs must be between 1 and 1000"));
    }
    if jitter_seconds < 0 || jitter_seconds > MAX_JITTER_SECONDS {
        return Err(ApiError::bad_request("jitter_seconds must be between 0 and 3600"));
    }
    Ok(())
}

/// The first bound a new cron trigger breaks, if any.
pub open spec fn cron_request_check(
    cron_expression: Seq<char>,
    schedule_timezone: Seq<char>,
    max_attempts: i32,
    max_inflight_runs: i32,
    jitter_seconds: i32,
) -> Option<ErrView> {
    if trim(cron_expression).len() == 0 {
        Some(bad_request("cron_expression must not be empty"@))
    } else if trim(schedule_timezone).len() == 0 {
        Some(bad_request("schedule_timezone must not be empty"@))
    } else if !attempts_ok(max_attempts) {
        Some(attempts_err())
    } else if !inflight_ok(max_inflight_runs) {
        Some(inflight_err())
    } else if !jitter_ok(jitter_seconds) {
        Some(jitter_err())
    } else {
        None
    }
}

fn is_blank(s: &str) -> (r: bool)
    ensures
        r == (trim(s@).len() == 0),
{
    let v = to_chars(s);
    trim_chars(v.as_slice()).len() == 0
}

/// The bounds on a new cron trigger.
pub fn validate_cron_trigger_request(
    cron_expression: &str,
    schedule_timezone: &str,
    max_attempts: i32,
    max_inflight_runs: i32,
    jitter_seconds: i32,
) -> (r: Result<(), ApiError>)
    ensures
        check_result(
            r,
            cron_request_check(
                cron_expression@,
                schedule_timezone@,
                max_attempts,
                max_inflight_runs,
                jitter_seconds,
            ),
        ),
        r is Ok <==> (trim(cron_expression@).len() > 0 && trim(schedule_timezone@).len() > 0 && 1
            <= max_attempts <= 20 && 1 <= max_inflight_runs <= 1000 && 0 <= jitter_seconds <= 3600),
{
    if is_blank(cron_expression) {
        return Err(ApiError::bad_request("cron_expression must not be empty"));
    }
    if is_blank(schedule_timezone) {
        return Err(ApiError::bad_request("schedule_timezone must not be empty"));
    }
    if max_attempts <= 0 || max_attempts > MAX_TRIGGER_ATTEMPTS {
        return Err(ApiError::bad_request("max_attempts must be between 1 and 20"));
    }
    if max_inflight_runs <= 0 || max_inflight_runs > MAX_TRIGGER_INFLIGHT_RUNS {
        return Err(ApiError::bad_request("max_inflight_runs must be between 1 and 1000"));
    }
    if jitter_seconds < 0 || jitter_seconds > MAX_JITTER_SECONDS {
        return Err(ApiError::bad_request("jitter_seconds must be between 0 and 3600"));
    }
    Ok(())
}

/// The first bound a new webhook trigger breaks, if any.
pub open spec fn webhook_request_check(max_attempts: i32, max_inflight_runs: i32, jitter_seconds: i32) -> Option<ErrView> {
    if !attempts_ok(max_attempts) {
        Some(attempts_err())
    } else if !inflight_ok(max_inflight_runs) {
        Some(inflight_err())
    } else if !jitter_ok(jitter_seconds) {
        Some(jitter_err())
    } else {
        None
    }
}

/// The bounds on a new webhook trigger.
pub fn validate_webhook_trigger_request(max_attempts: i32, max_inflight_runs: i32, jitter_seconds: i32) -> (r: Result<(), ApiError>)
    ensures
        check_result(r, webhook_request_check(max_attempts, max_inflight_runs, jitter_seconds)),
        r is Ok <==> (1 <= max_attempts <= 20 && 1 <= max_inflight_runs <= 1000 && 0 <= jitter_seconds
            <= 3600),
{
    if max_attempts <= 0 || max_attempts > MAX_TRIGGER_ATTEMPTS {
        return Err(ApiError::bad_request("max_attempts must be between 1 and 20"));
    }
    if max_inflight_runs <= 0 || max_inflight_runs > MAX_TRIGGER_INFLIGHT_RUNS {
        return Err(ApiError::bad_request("max_inflight_runs must be between 1 and 1000"));
    }
    if jitter_seconds < 0 || jitter_seconds > MAX_JITTER_SECONDS {
        return Err(ApiError::bad_request("jitter_seconds must be between 0 and 3600"));
    }
    Ok(())
}

/// The secret reference stored for a new webhook trigger: trimmed, or none
/// where blank.
pub fn normalize_webhook_secret_ref(raw: Option<&str>) -> (r: Option<String>)
    ensures
        match raw {
            None => r is None,
            Some(s) => match r {
                None => trim_non_empty_spec(s@) is None,
                Some(t) => trim_non_empty_spec(s@) == Some(t@),
            },
        },
{
    trim_non_empty(raw)
}

/// A partial update of a trigger's configuration.
#[derive(Debug)]
pub struct UpdateTriggerRequest {
    pub interval_seconds: Option<i64>,
    pub cron_expression: Option<String>,
    pub schedule_timezone: Option<String>,
    pub misfire_policy: Option<String>,
    pub max_attempts: Option<i32>,
    pub max_inflight_runs: Option<i32>,
    pub jitter_seconds: Option<i32>,
    pub webhook_secret_ref: Option<String>,
}

pub open spec fn opt_string_view(o: Option<String>) -> Option<Seq<char>> {
    match o {
        Some(s) => Some(s@),
        None => None,
    }
}

/// The first rule a configuration update breaks, if any.
pub open spec fn update_request_check(req: UpdateTriggerRequest) -> Option<ErrView> {
    if req.interval_seconds matches Some(s) && (s <= 0 || s > MAX_INTERVAL_SECONDS) {
        Some(bad_request("interval_seconds must be between 1 and 31536000"@))
    } else if req.cron_expression matches Some(c) && trim(c@).len() == 0 {
        Some(bad_request("cron_expression must not be empty"@))
    } else if req.schedule_timezone matches Some(t) && trim(t@).len() == 0 {
        Some(bad_request("schedule_timezone must not be empty"@))
    } else if req.misfire_policy matches Some(p) && p@ != "fire_now"@ && p@ != "skip"@ {
        Some(bad_request("misfire_policy must be one of: fire_now, skip"@))
    } else if req.max_attempts matches Some(a) && !attempts_ok(a) {
        Some(attempts_err())
    } else if req.max_inflight_runs matches Some(m) && !inflight_ok(m) {
        Some(inflight_err())
    } else if req.jitter_seconds matches Some(j) && !jitter_ok(j) {
        Some(jitter_err())
    } else {
        None
    }
}

/// The field rules of a configuration update.
pub fn validate_update_request(req: &UpdateTriggerRequest) -> (r: Result<(), ApiError>)
    ensures
        check_result(r, update_request_check(*req)),
        r is Ok <==> {
            &&& (req.interval_seconds matches Some(v) ==> 1 <= v <= 31_536_000)
            &&& (req.cron_expression matches Some(c) ==> trim(c@).len() > 0)
            &&& (req.schedule_timezone matches Some(t) ==> trim(t@).len() > 0)
            &&& (req.misfire_policy matches Some(p) ==> (p@ == "fire_now"@ || p@ == "skip"@))
            &&& (req.max_attempts matches Some(v) ==> 1 <= v <= 20)
            &&& (req.max_inflight_runs matches Some(v) ==> 1 <= v <= 1000)
            &&& (req.jitter_seconds matches Some(v) ==> 0 <= v <= 3600)
        },
{
    if let Some(seconds) = req.interval_seconds {
        if seconds <= 0 || seconds > MAX_INTERVAL_SECONDS {
            return Err(ApiError::bad_request("interval_seconds must be between 1 and 31536000"));
        }
    }
    if let Some(expression) = &req.cron_expression {
        if is_blank(expression.as_str()) {
            return Err(ApiError::bad_request("cron_expression must not be empty"));
        }
    }
    if let Some(timezone) = &req.schedule_timezone {
        if is_blank(timezone.as_str()) {
            return Err(ApiError::bad_request("schedule_timezone must not be empty"));
        }
    }
    if let Some(policy) = &req.misfire_policy {
        let p = to_chars(policy.as_str());
        if !chars_eq_str(p.as_slice(), "fire_now") && !chars_eq_str(p.as_slice(), "skip") {
            return Err(ApiError::bad_request("misfire_policy must be one of: fire_now, skip"));
        }
    }
    if let Some(attempts) = req.max_attempts {
        if attempts <= 0 || attempts > MAX_TRIGGER_ATTEMPTS {
            return Err(ApiError::bad_request("max_attempts must be between 1 and 20"));
        }
    }
    if let Some(max_inflight_runs) = req.max_inflight_runs {
        if max_inflight_runs <= 0 || max_inflight_runs > MAX_TRIGGER_INFLIGHT_RUNS {
            return Err(ApiError::bad_request("max_inflight_runs must be between 1 and 1000"));
        }
    }
    if let Some(jitter_seconds) = req.jitter_seconds {
        if jitter_seconds < 0 || jitter_seconds > MAX_JITTER_SECONDS {
            return Err(ApiError::bad_request("jitter_seconds must be between 0 and 3600"));
        }
    }
    Ok(())
}

/// Which fields an update may carry for the trigger's type.
pub open spec fn compat_check(trigger_type: Seq<char>, req: UpdateTriggerRequest) -> Option<ErrView> {
    if trigger_type == "interval"@ {
        if req.cron_expression is Some || req.schedule_timezone is Some {
            Some(bad_request("interval trigger does not support cron schedule fields"@))
        } else {
            None
        }
    } else if trigger_type == "cron"@ {
        if req.interval_seconds is Some {
            Some(bad_request("cron trigger does not support interval_seconds"@))
        } else {
            None
        }
    } else if trigger_type == "webhook"@ {
        if req.interval_seconds is Some || req.cron_expression is Some || req.schedule_timezone is Some {
            Some(bad_request("webhook trigger does not support schedule fields"@))
        } else {
            None
        }
    } else {
        None
    }
}

/// The schedule fields an update may change for a trigger of the given type.
pub fn check_update_compatibility(trigger_type: &str, req: &UpdateTriggerRequest) -> (r: Result<(), ApiError>)
    ensures
        check_result(r, compat_check(trigger_type@, *req)),
        trigger_type@ == "interval"@ ==> (r is Ok <==> (req.cron_expression is None
            && req.schedule_timezone is None)),
        trigger_type@ == "cron"@ ==> (r is Ok <==> req.interval_seconds is None),
        trigger_type@ == "webhook"@ ==> (r is Ok <==> (req.interval_seconds is None
            && req.cron_expression is None && req.schedule_timezone is None)),
        trigger_type@ != "interval"@ && trigger_type@ != "cron"@ && trigger_type@ != "webhook"@
            ==> r is Ok,
{
    proof {
        reveal_strlit("interval");
        reveal_strlit("cron");
        reveal_strlit("webhook");
        assert("interval"@.len() != "cron"@.len() && "interval"@.len() != "webhook"@.len()
            && "cron"@.len() != "webhook"@.len());
    }
    let t = to_chars(trigger_type);
    let t = t.as_slice();
    if chars_eq_str(t, "interval") {
        if req.cron_expression.is_some() || req.schedule_timezone.is_some() {
            return Err(ApiError::bad_request("interval trigger does not support cron schedule fields"));
        }
    } else if chars_eq_str(t, "cron") {
        if req.interval_seconds.is_some() {
            return Err(ApiError::bad_request("cron trigger does not support interval_seconds"));
        }
    } else if chars_eq_str(t, "webhook") {
        if req.interval_seconds.is_some() || req.cron_expression.is_some()
            || req.schedule_timezone.is_some() {
            return Err(ApiError::bad_request("webhook trigger does not support schedule fields"));
        }
    }
    Ok(())
}

/// The configurable part of a trigger.
#[derive(Debug)]
pub struct TriggerConfig {
    pub interval_seconds: Option<i64>,
    pub cron_expression: Option<String>,
    pub schedule_timezone: String,
    pub misfire_policy: String,
    pub max_attempts: i32,
    pub max_inflight_runs: i32,
    pub jitter_seconds: i32,
    pub webhook_secret_ref: Option<String>,
}

pub struct ConfigView {
    pub interval_seconds: Option<i64>,
    pub cron_expression: Option<Seq<char>>,
    pub schedule_timezone: Seq<char>,
    pub misfire_policy: Seq<char>,
    pub max_attempts: i32,
    pub max_inflight_runs: i32,
    pub jitter_seconds: i32,
    pub webhook_secret_ref: Option<Seq<char>>,
}

impl View for TriggerConfig {
    type V = ConfigView;

    open spec fn view(&self) -> ConfigView {
        ConfigView {
            interval_seconds: self.interval_seconds,
            cron_expression: opt_string_view(self.cron_expression),
            schedule_timezone: self.schedule_timezone@,
            misfire_policy: self.misfire_policy@,
            max_attempts: self.max_attempts,
            max_inflight_runs: self.max_inflight_runs,
            jitter_seconds: self.jitter_seconds,
            webhook_secret_ref: opt_string_view(self.webhook_secret_ref),
        }
    }
}

/// A supplied text replaces the current one unless it is blank once
/// trimmed; the replacement is stored trimmed.
pub open spec fn text_or(supplied: Option<Seq<char>>, current: Option<Seq<char>>) -> Option<Seq<char>> {
    match supplied {
        Some(s) if trim(s).len() > 0 => Some(trim(s)),
        _ => current,
    }
}

pub open spec fn or_else<T>(supplied: Option<T>, current: T) -> T {
    match supplied {
        Some(v) => v,
        None => current,
    }
}

/// The configuration after an update: each supplied field replaces the
/// current one (texts trimmed, blank texts ignored).
pub open spec fn merged_config(req: UpdateTriggerRequest, cur: ConfigView) -> ConfigView {
    ConfigView {
        interval_seconds: match req.interval_seconds {
            Some(v) => Some(v),
            None => cur.interval_seconds,
        },
        cron_expression: text_or(opt_string_view(req.cron_expression), cur.cron_expression),
        schedule_timezone: or_else(
            text_or(opt_string_view(req.schedule_timezone), None),
            cur.schedule_timezone,
        ),
        misfire_policy: or_else(opt_string_view(req.misfire_policy), cur.misfire_policy),
        max_attempts: or_else(req.max_attempts, cur.max_attempts),
        max_inflight_runs: or_else(req.max_inflight_runs, cur.max_inflight_runs),
        jitter_seconds: or_else(req.jitter_seconds, cur.jitter_seconds),
        webhook_secret_ref: text_or(opt_string_view(req.webhook_secret_ref), cur.webhook_secret_ref),
    }
}

fn text_or_exec(supplied: &Option<String>, current: Option<String>) -> (r: Option<String>)
    ensures
        opt_string_view(r) == text_or(opt_string_view(*supplied), opt_string_view(current)),
{
    match supplied {
        Some(s) => match trim_non_empty(Some(s.as_str())) {
            Some(t) => Some(t),
            None => current,
        },
        None => current,
    }
}

/// The configuration an update yields from the current one.
pub fn merge_trigger_update(req: &UpdateTriggerRequest, current: TriggerConfig) -> (r: TriggerConfig)
    ensures
        r@ == merged_config(*req, current@),
        req.interval_seconds matches Some(v) ==> r.interval_seconds == Some(v),
        req.interval_seconds is None ==> r.interval_seconds == current.interval_seconds,
        req.max_attempts matches Some(v) ==> r.max_attempts == v,
        req.max_attempts is None ==> r.max_attempts == current.max_attempts,
        req.max_inflight_runs matches Some(v) ==> r.max_inflight_runs == v,
        req.max_inflight_runs is None ==> r.max_inflight_runs == current.max_inflight_runs,
        req.jitter_seconds matches Some(v) ==> r.jitter_seconds == v,
        req.jitter_seconds is None ==> r.jitter_seconds == current.jitter_seconds,
        req.misfire_policy matches Some(p) ==> r.misfire_policy@ == p@,
        req.misfire_policy is None ==> r.misfire_policy@ == current.misfire_policy@,
        req.cron_expression matches Some(c) ==> (trim(c@).len() > 0 ==> opt_string_view(r.cron_expression) == Some(trim(c@))),
        req.cron_expression matches Some(c) ==> (trim(c@).len() == 0 ==> opt_string_view(r.cron_expression) == opt_string_view(current.cron_expression)),
        req.cron_expression is None ==> opt_string_view(r.cron_expression) == opt_string_view(current.cron_expression),
        req.schedule_timezone matches Some(t) ==> (trim(t@).len() > 0 ==> r.schedule_timezone@ == trim(t@)),
        req.schedule_timezone matches Some(t) ==> (trim(t@).len() == 0 ==> r.schedule_timezone@ == current.schedule_timezone@),
        req.schedule_timezone is None ==> r.schedule_timezone@ == current.schedule_timezone@,
        req.webhook_secret_ref matches Some(w) ==> (trim(w@).len() > 0 ==> opt_string_view(r.webhook_secret_ref) == Some(trim(w@))),
        req.webhook_secret_ref matches Some(w) ==> (trim(w@).len() == 0 ==> opt_string_view(r.webhook_secret_ref) == opt_string_view(current.webhook_secret_ref)),
        req.webhook_secret_ref is None ==> opt_string_view(r.webhook_secret_ref) == opt_string_view(current.webhook_secret_ref),
{
    let interval_seconds = match req.interval_seconds {
        Some(v) => Some(v),
        None => current.interval_seconds,
    };
    let cron_expression = text_or_exec(&req.cron_expression, current.cron_expression);
    let schedule_timezone = match text_or_exec(&req.schedule_timezone, None) {
        Some(t) => t,
        None => current.schedule_timezone,
    };
    let misfire_policy = match &req.misfire_policy {
        Some(p) => p.clone(),
        None => current.misfire_policy,
    };
    let max_attempts = match req.max_attempts {
        Some(v) => v,
        None => current.max_attempts,
    };
    let max_inflight_runs = match req.max_inflight_runs {
        Some(v) => v,
        None => current.max_inflight_runs,
    };
    let jitter_seconds = match req.jitter_seconds {
        Some(v) => v,
        None => current.jitter_seconds,
    };
    let webhook_secret_ref = text_or_exec(&req.webhook_secret_ref, current.webhook_secret_ref);
    TriggerConfig {
        interval_seconds,
        cron_expression,
        schedule_timezone,
        misfire_policy,
        max_attempts,
        max_inflight_runs,
        jitter_seconds,
        webhook_secret_ref,
    }
}

pub open spec fn empty_update(req: UpdateTriggerRequest) -> bool {
    &&& req.interval_seconds is None
    &&& req.cron_expression is None
    &&& req.schedule_timezone is None
    &&& req.misfire_policy is None
    &&& req.max_attempts is None
    &&& req.max_inflight_runs is None
    &&& req.jitter_seconds is None
    &&& req.webhook_secret_ref is None
}

pub(crate) proof fn lemma_trim_idempotent(s: Seq<char>)
    ensures
        trim(trim(s)) == trim(s),
{
    let t = trim(s);
    if t.len() == 0 {
        crate::text::lemma_trim_range(t, 0, 0);
        assert(t.subrange(0, 0) =~= t);
    } else {
        lemma_trim_ends_not_ws(s);
        crate::text::lemma_trim_range(t, 0, t.len() as int);
        assert(t.subrange(0, t.len() as int) =~= t);
    }
}

/// A non-empty trimmed text starts and ends with non-whitespace.
pub(crate) proof fn lemma_trim_ends_not_ws(s: Seq<char>)
    requires
        trim(s).len() > 0,
    ensures
        !crate::text::is_ws(trim(s)[0]),
        !crate::text::is_ws(trim(s).last()),
{
    let v = s;
    let i = first_non_ws(s, 0);
    let j = last_non_ws_end(s, s.len() as int, i);
    crate::text::lemma_trim_range(s, i, j);
}

proof fn first_non_ws(s: Seq<char>, k: int) -> (i: int)
    requires
        0 <= k <= s.len(),
        forall|m: int| 0 <= m < k ==> crate::text::is_ws(#[trigger] s[m]),
    ensures
        k <= i <= s.len(),
        forall|m: int| 0 <= m < i ==> crate::text::is_ws(#[trigger] s[m]),
        i == s.len() || !crate::text::is_ws(s[i]),
    decreases s.len() - k,
{
    if k == s.len() || !crate::text::is_ws(s[k]) {
        k
    } else {
        first_non_ws(s, k + 1)
    }
}

proof fn last_non_ws_end(s: Seq<char>, k: int, i: int) -> (j: int)
    requires
        0 <= i <= k <= s.len(),
        forall|m: int| k <= m < s.len() ==> crate::text::is_ws(#[trigger] s[m]),
        i == s.len() || !crate::text::is_ws(s[i]),
    ensures
        i <= j <= k,
        forall|m: int| j <= m < s.len() ==> crate::text::is_ws(#[trigger] s[m]),
        i == j ==> j == s.len(),
        i < j ==> !crate::text::is_ws(s[j - 1]),
    decreases k,
{
    if k == i || !crate::text::is_ws(s[k - 1]) {
        if k == i && i < s.len() {
            // s[i] is not whitespace yet every position from k on is
            assert(false);
        }
        k
    } else {
        last_non_ws_end(s, k - 1, i)
    }
}

/// An update that names no field leaves the configuration unchanged.
pub proof fn law_empty_update_keeps_config(req: UpdateTriggerRequest, cur: ConfigView)
    requires
        empty_update(req),
    ensures
        merged_config(req, cur) == cur,
{
}

/// Each field that an update supplies replaces the current one (a supplied
/// text only when it is not blank, and then trimmed); each field it leaves
/// out keeps its current value.
pub proof fn law_supplied_fields_replace_current(req: UpdateTriggerRequest, cur: ConfigView)
    ensures
        req.interval_seconds matches Some(v) ==> merged_config(req, cur).interval_seconds == Some(v),
        req.interval_seconds is None ==> merged_config(req, cur).interval_seconds == cur.interval_seconds,
        req.max_attempts matches Some(v) ==> merged_config(req, cur).max_attempts == v,
        req.max_attempts is None ==> merged_config(req, cur).max_attempts == cur.max_attempts,
        req.max_inflight_runs matches Some(v) ==> merged_config(req, cur).max_inflight_runs == v,
        req.max_inflight_runs is None ==> merged_config(req, cur).max_inflight_runs == cur.max_inflight_runs,
        req.jitter_seconds matches Some(v) ==> merged_config(req, cur).jitter_seconds == v,
        req.jitter_seconds is None ==> merged_config(req, cur).jitter_seconds == cur.jitter_seconds,
        req.misfire_policy matches Some(p) ==> merged_config(req, cur).misfire_policy == p@,
        req.misfire_policy is None ==> merged_config(req, cur).misfire_policy == cur.misfire_policy,
        req.cron_expression matches Some(c) ==> (trim(c@).len() > 0 ==> merged_config(req, cur).cron_expression == Some(trim(c@))),
        req.cron_expression matches Some(c) ==> (trim(c@).len() == 0 ==> merged_config(req, cur).cron_expression == cur.cron_expression),
        req.cron_expression is None ==> merged_config(req, cur).cron_expression == cur.cron_expression,
        req.schedule_timezone matches Some(t) ==> (trim(t@).len() > 0 ==> merged_config(req, cur).schedule_timezone == trim(t@)),
        req.schedule_timezone matches Some(t) ==> (trim(t@).len() == 0 ==> merged_config(req, cur).schedule_timezone == cur.schedule_timezone),
        req.schedule_timezone is None ==> merged_config(req, cur).schedule_timezone == cur.schedule_timezone,
        req.webhook_secret_ref matches Some(w) ==> (trim(w@).len() > 0 ==> merged_config(req, cur).webhook_secret_ref == Some(trim(w@))),
        req.webhook_secret_ref matches Some(w) ==> (trim(w@).len() == 0 ==> merged_config(req, cur).webhook_secret_ref == cur.webhook_secret_ref),
        req.webhook_secret_ref is None ==> merged_config(req, cur).webhook_secret_ref == cur.webhook_secret_ref,
{
}

/// Applying the same update twice yields what applying it once yields.
pub proof fn law_update_idempotent(req: UpdateTriggerRequest, cur: ConfigView)
    ensures
        merged_config(req, merged_config(req, cur)) == merged_config(req, cur),
{
    if let Some(c) = req.cron_expression {
        lemma_trim_idempotent(c@);
    }
    if let Some(t) = req.schedule_timezone {
        lemma_trim_idempotent(t@);
    }
    if let Some(w) = req.webhook_secret_ref {
        lemma_trim_idempotent(w@);
    }
}

/// `validate_fire_request`: the trimmed idempotency key of a manual fire,
/// non-empty and at most 128 bytes.
pub open spec fn fire_key_check(raw: Seq<char>) -> Result<Seq<char>, ErrView> {
    let k = trim(raw);
    if k.len() == 0 {
        Err(bad_request("idempotency_key must not be empty"@))
    } else if utf8_len(k) > MAX_IDEMPOTENCY_KEY_BYTES {
        Err(bad_request("idempotency_key exceeds maximum length of 128"@))
    } else {
        Ok(k)
    }
}

/// The idempotency key of a manual fire.
pub fn validate_fire_request(idempotency_key: &str) -> (r: Result<String, ApiError>)
    ensures
        match (r, fire_key_check(idempotency_key@)) {
            (Ok(k), Ok(s)) => k@ == s,
            (Err(e), Err(f)) => e@ == f,
            _ => false,
        },
        r is Ok <==> (trim(idempotency_key@).len() > 0 && utf8_len(trim(idempotency_key@)) <= 128),
        r matches Ok(k) ==> k@ == trim(idempotency_key@),
{
    let v = to_chars(idempotency_key);
    let t = trim_chars(v.as_slice());
    if t.len() == 0 {
        return Err(ApiError::bad_request("idempotency_key must not be empty"));
    }
    if utf8_len_exceeds(t.as_slice(), MAX_IDEMPOTENCY_KEY_BYTES) {
        return Err(ApiError::bad_request("idempotency_key exceeds maximum length of 128"));
    }
    Ok(from_chars(t.as_slice()))
}

/// A trigger can be fired or fed events only while enabled and not
/// dead-lettered.
pub fn ensure_trigger_enabled(status: &str, dead_lettered: bool) -> (r: Result<(), ApiError>)
    ensures
        r is Ok <==> (status@ == "enabled"@ && !dead_lettered),
        r matches Err(e) ==> e@ == conflict("trigger is not enabled"@),
{
    let s = to_chars(status);
    if !chars_eq_str(s.as_slice(), "enabled") || dead_lettered {
        return Err(ApiError::conflict("trigger is not enabled"));
    }
    Ok(())
}

/// Why a trigger event could not be queued.
#[derive(Debug, Clone, Copy, PartialEq, Eq, Structural)]
pub enum EnqueueUnavailableReason {
    TriggerNotFound,
    TriggerDisabled,
    TriggerScheduleBroken,
    TriggerTypeMismatch,
    PayloadMalformed,
}

pub open spec fn enqueue_reason_err(reason: EnqueueUnavailableReason) -> ErrView {
    match reason {
        EnqueueUnavailableReason::TriggerNotFound => not_found("trigger not found"@),
        EnqueueUnavailableReason::TriggerDisabled => conflict("trigger is not enabled"@),
        EnqueueUnavailableReason::TriggerScheduleBroken => conflict("trigger is not enabled"@),
        EnqueueUnavailableReason::TriggerTypeMismatch => bad_request(
            "trigger does not accept webhook events"@,
        ),
        EnqueueUnavailableReason::PayloadMalformed => bad_request(
            "trigger event payload must be a JSON object"@,
        ),
    }
}

/// `map_trigger_enqueue_unavailable_reason`.
pub fn map_trigger_enqueue_unavailable_reason(reason: EnqueueUnavailableReason) -> (e: ApiError)
    ensures
        e@ == enqueue_reason_err(reason),
{
    match reason {
        EnqueueUnavailableReason::TriggerNotFound => ApiError::not_found("trigger not found"),
        EnqueueUnavailableReason::TriggerDisabled | EnqueueUnavailableReason::TriggerScheduleBroken => {
            ApiError::conflict("trigger is not enabled")
        },
        EnqueueUnavailableReason::TriggerTypeMismatch => ApiError::bad_request(
            "trigger does not accept webhook events",
        ),
        EnqueueUnavailableReason::PayloadMalformed => ApiError::bad_request(
            "trigger event payload must be a JSON object",
        ),
    }
}

/// The request-level rules of a webhook event: a non-blank event id and an
/// object payload.
pub fn validate_trigger_event_request(event_id: &str, payload: &JsonValue) -> (r: Result<(), ApiError>)
    ensures
        check_result(
            r,
            if trim(event_id@).len() == 0 {
                Some(bad_request("event_id must not be empty"@))
            } else if !(payload is Object) {
                Some(bad_request("trigger event payload must be a JSON object"@))
            } else {
                None
            },
        ),
{
    if is_blank(event_id) {
        return Err(ApiError::bad_request("event_id must not be empty"));
    }
    match payload {
        JsonValue::Object(_) => Ok(()),
        _ => Err(ApiError::bad_request("trigger event payload must be a JSON object")),
    }
}

/// The rules on the trigger an event is sent to: a webhook trigger, enabled,
/// and, where it has a secret, a matching `x-trigger-secret` header.
pub open spec fn event_target_check(
    trigger_type: Seq<char>,
    status: Seq<char>,
    dead_lettered: bool,
    expected_secret: Option<Seq<char>>,
    provided: HeaderValue,
) -> Option<ErrView> {
    if trigger_type != "webhook"@ {
        Some(bad_request("trigger does not accept webhook events"@))
    } else if status != "enabled"@ || dead_lettered {
        Some(conflict("trigger is not enabled"@))
    } else {
        match expected_secret {
            None => None,
            Some(expected) => match provided {
                HeaderValue::Missing => Some(bad_request("missing x-trigger-secret header"@)),
                HeaderValue::NotUtf8 => Some(bad_request("x-trigger-secret must be valid UTF-8"@)),
                HeaderValue::Text(p) => if p@ == expected {
                    None
                } else {
                    Some(err(401, "UNAUTHORIZED"@, "trigger secret validation failed"@))
                },
            },
        }
    }
}

/// Checks the trigger an event is sent to; `expected_secret` is the value
/// the trigger's secret reference resolved to.
pub fn check_event_target(
    trigger_type: &str,
    status: &str,
    dead_lettered: bool,
    expected_secret: Option<&str>,
    provided: &HeaderValue,
) -> (r: Result<(), ApiError>)
    ensures
        check_result(
            r,
            event_target_check(
                trigger_type@,
                status@,
                dead_lettered,
                match expected_secret {
                    Some(s) => Some(s@),
                    None => None,
                },
                *provided,
            ),
        ),
        r is Ok <==> {
            &&& trigger_type@ == "webhook"@
            &&& status@ == "enabled"@
            &&& !dead_lettered
            &&& (expected_secret matches Some(e) ==> (*provided matches HeaderValue::Text(p) && p@
                == e@))
        },
{
    let t = to_chars(trigger_type);
    if !chars_eq_str(t.as_slice(), "webhook") {
        return Err(ApiError::bad_request("trigger does not accept webhook events"));
    }
    ensure_trigger_enabled(status, dead_lettered)?;
    match expected_secret {
        None => Ok(()),
        Some(expected) => match provided {
            HeaderValue::Missing => Err(ApiError::bad_request("missing x-trigger-secret header")),
            HeaderValue::NotUtf8 => Err(ApiError::bad_request("x-trigger-secret must be valid UTF-8")),
            HeaderValue::Text(p) => {
                let pc = to_chars(p.as_str());
                if chars_eq_str(pc.as_slice(), expected) {
                    Ok(())
                } else {
                    Err(ApiError::new(401, "UNAUTHORIZED", "trigger secret validation failed"))
                }
            },
        },
    }
}

/// The intake status of a webhook event: `duplicate` where the insert was a
/// no-op, `queued` otherwise.
pub fn event_intake_status(rows_affected: u64) -> (r: &'static str)
    ensures
        rows_affected == 0 ==> r@ == "duplicate"@,
        rows_affected != 0 ==> r@ == "queued"@,
{
    if rows_affected == 0 {
        "duplicate"
    } else {
        "queued"
    }
}

/// The outcome of an event replay: queued when exactly one dead-lettered
/// event was reset; otherwise a conflict naming the event's status, or not
/// found.
pub open spec fn replay_outcome(rows_affected: u64, current_status: Option<Seq<char>>) -> Result<Seq<char>, ErrView> {
    if rows_affected == 1 {
        Ok("queued_for_replay"@)
    } else {
        match current_status {
            Some(s) => Err(
                err(
                    409,
                    "TRIGGER_EVENT_NOT_REPLAYABLE"@,
                    "trigger event cannot be replayed from status `"@ + s + "`"@,
                ),
            ),
            None => Err(not_found("trigger event not found"@)),
        }
    }
}

/// Decides what a replay request answers.
pub fn replay_trigger_event_outcome(rows_affected: u64, current_status: Option<&str>) -> (r: Result<&'static str, ApiError>)
    ensures
        match (r, replay_outcome(
            rows_affected,
            match current_status {
                Some(s) => Some(s@),
                None => None,
            },
        )) {
            (Ok(a), Ok(b)) => a@ == b,
            (Err(e), Err(f)) => e@ == f,
            _ => false,
        },
{
    if rows_affected == 1 {
        return Ok("queued_for_replay");
    }
    match current_status {
        Some(s) => {
            let mut m: Vec<char> = Vec::new();
            append_str(&mut m, "trigger event cannot be replayed from status `");
            append_str(&mut m, s);
            append_str(&mut m, "`");
            let msg = from_chars(m.as_slice());
            Err(
                ApiError {
                    status: 409,
                    code: own("TRIGGER_EVENT_NOT_REPLAYABLE"),
                    message: msg,
                },
            )
        },
        None => Err(ApiError::not_found("trigger event not found")),
    }
}

/// The result of a manual fire.
#[derive(Debug)]
pub enum ManualFireOutcome {
    Created,
    Duplicate,
    InflightLimited,
    TriggerUnavailable,
}

/// What a manual fire answers: an HTTP status and the fire status, or an
/// error.
pub open spec fn fire_answer(o: ManualFireOutcome) -> Result<(u16, Seq<char>), ErrView> {
    match o {
        ManualFireOutcome::Created => Ok((202, "created"@)),
        ManualFireOutcome::Duplicate => Ok((200, "duplicate"@)),
        ManualFireOutcome::InflightLimited => Err(
            err(
                429,
                "TRIGGER_INFLIGHT_LIMITED"@,
                "trigger or tenant is at max inflight run capacity"@,
            ),
        ),
        ManualFireOutcome::TriggerUnavailable => Err(conflict("trigger is not enabled"@)),
    }
}

pub fn manual_fire_answer(o: &ManualFireOutcome) -> (r: Result<(u16, &'static str), ApiError>)
    ensures
        match (r, fire_answer(*o)) {
            (Ok(a), Ok(b)) => a.0 == b.0 && a.1@ == b.1,
            (Err(e), Err(f)) => e@ == f,
            _ => false,
        },
{
    match o {
        ManualFireOutcome::Created => Ok((202, "created")),
        ManualFireOutcome::Duplicate => Ok((200, "duplicate")),
        ManualFireOutcome::InflightLimited => Err(
            ApiError::new(
                429,
                "TRIGGER_INFLIGHT_LIMITED",
                "trigger or tenant is at max inflight run capacity",
            ),
        ),
        ManualFireOutcome::TriggerUnavailable => Err(ApiError::conflict("trigger is not enabled")),
    }
}

/// The envelope a manual fire adds to the trigger's input:
/// `{"_trigger": {"type": "manual", "trigger_id", "idempotency_key"},
/// "manual_payload": payload}`.
pub open spec fn is_manual_envelope(e: JsonValue, trigger_id: Seq<char>, key: Seq<char>, payload: JsonValue) -> bool {
    &&& e is Object
    &&& keys_unique(e->Object_0@)
    &&& get(e, "manual_payload"@) == Some(payload)
    &&& get(e, "_trigger"@) matches Some(t) && str_field(t, "type"@) == Some("manual"@)
        && str_field(t, "trigger_id"@) == Some(trigger_id) && str_field(t, "idempotency_key"@)
        == Some(key)
}

fn manual_envelope(trigger_id: &str, idempotency_key: &str, payload: Option<JsonValue>) -> (r: JsonValue)
    ensures
        is_manual_envelope(
            r,
            trigger_id@,
            idempotency_key@,
            match payload {
                Some(p) => p,
                None => JsonValue::Null,
            },
        ),
{
    proof {
        reveal_strlit("type");
        reveal_strlit("trigger_id");
        reveal_strlit("idempotency_key");
        reveal_strlit("_trigger");
        reveal_strlit("manual_payload");
        assert("type"@.len() != "trigger_id"@.len());
        assert("type"@.len() != "idempotency_key"@.len());
        assert("trigger_id"@.len() != "idempotency_key"@.len());
        assert("_trigger"@.len() != "manual_payload"@.len());
    }
    let p = match payload {
        Some(p) => p,
        None => JsonValue::Null,
    };
    let mut t: Vec<JsonField> = Vec::new();
    insert_field(&mut t, "type", json_str("manual"));
    insert_field(&mut t, "trigger_id", json_str(trigger_id));
    insert_field(&mut t, "idempotency_key", json_str(idempotency_key));
    let mut e: Vec<JsonField> = Vec::new();
    insert_field(&mut e, "_trigger", JsonValue::Object(t));
    insert_field(&mut e, "manual_payload", p);
    JsonValue::Object(e)
}

/// The input of the run a manual fire creates: the trigger's input merged
/// with the manual-fire envelope.
pub fn manual_fire_run_input(
    trigger_input: JsonValue,
    trigger_id: &str,
    idempotency_key: &str,
    payload: Option<JsonValue>,
) -> (r: JsonValue)
    ensures
        exists|env: JsonValue|
            is_manual_envelope(
                env,
                trigger_id@,
                idempotency_key@,
                match payload {
                    Some(p) => p,
                    None => JsonValue::Null,
                },
            ) && (trigger_input is Object ==> forall|k: Seq<char>|
                get(r, k) == merged_lookup(trigger_input->Object_0@, env, k)) && (!(
            trigger_input is Object) ==> get(r, "input"@) == Some(trigger_input) && get(
                r,
                "_trigger"@,
            ) == Some(env)),
{
    let env = manual_envelope(trigger_id, idempotency_key, payload);
    let ghost envg = env;
    let r = merge_json_objects_for_api(trigger_input, env);
    assert(is_manual_envelope(
        envg,
        trigger_id@,
        idempotency_key@,
        match payload {
            Some(p) => p,
            None => JsonValue::Null,
        },
    ));
    r
}


/// The attempts a trigger gets when the request names none.
pub fn default_trigger_max_attempts() -> (r: i32)
    ensures
        r == 3,
{
    3
}

/// The runs a trigger may have in flight when the request names none.
pub fn default_trigger_max_inflight_runs() -> (r: i32)
    ensures
        r == 1,
{
    1
}

/// The time zone of a cron trigger when the request names none.
pub fn default_trigger_timezone() -> (r: String)
    ensures
        r@ == "UTC"@,
{
    own("UTC")
}
} // verus!

//! Capabilities: their names, the scopes each may act on, the payload caps,
//! the bundles that recipes grant, and the grant computed for a run or a
//! trigger from a recipe, a role and the capabilities it requests.
use vstd::prelude::*;
use crate::text::{
    norm_key, norm_key_of, chars_eq_str, chars_eq, to_chars, trim, trim_chars, starts_with,
    starts_with_str, starts_with_chars, slice_chars, contains_sub, contains_str, contains_char,
};
use crate::error::{ApiError, ErrView, bad_request, own};
use crate::json::{JsonValue, JsonField, JsonNumber, keys_unique, get, as_u64, str_field, get_field, as_u64_of, as_str_chars, insert_field, json_str};
use crate::roles::RolePreset;

verus! {

pub const MAX_OBJECT_WRITE_PAYLOAD_BYTES: u64 = 500_000;
pub const MAX_MESSAGE_SEND_PAYLOAD_BYTES: u64 = 20_000;
pub const MAX_OBJECT_READ_PAYLOAD_BYTES: u64 = 128_000;
pub const MAX_LOCAL_EXEC_PAYLOAD_BYTES: u64 = 4_096;
pub const MAX_LLM_INFER_PAYLOAD_BYTES: u64 = 32_000;
pub const MAX_PAYMENT_SEND_PAYLOAD_BYTES: u64 = 16_000;
pub const MAX_MEMORY_READ_PAYLOAD_BYTES: u64 = 64_000;
pub const MAX_MEMORY_WRITE_PAYLOAD_BYTES: u64 = 64_000;

pub open spec fn opt_view(o: Option<&str>) -> Option<Seq<char>> {
    match o {
        Some(s) => Some(s@),
        None => None,
    }
}

/// The canonical capability a requested name stands for (dotted or
/// underscored spelling, trimmed, ASCII case-insensitive).
pub open spec fn capability_of(raw: Seq<char>) -> Option<Seq<char>> {
    let k = norm_key(raw);
    if k == "object.read"@ || k == "object_read"@ {
        Some("object.read"@)
    } else if k == "object.write"@ || k == "object_write"@ {
        Some("object.write"@)
    } else if k == "memory.read"@ || k == "memory_read"@ {
        Some("memory.read"@)
    } else if k == "memory.write"@ || k == "memory_write"@ {
        Some("memory.write"@)
    } else if k == "message.send"@ || k == "message_send"@ {
        Some("message.send"@)
    } else if k == "payment.send"@ || k == "payment_send"@ {
        Some("payment.send"@)
    } else if k == "llm.infer"@ || k == "llm_infer"@ {
        Some("llm.infer"@)
    } else if k == "local.exec"@ || k == "local_exec"@ {
        Some("local.exec"@)
    } else if k == "db.query"@ || k == "db_query"@ {
        Some("db.query"@)
    } else if k == "http.request"@ || k == "http_request"@ {
        Some("http.request"@)
    } else {
        None
    }
}

fn key_is(k: &[char], a: &str, b: &str) -> (r: bool)
    ensures
        r == (k@ == a@ || k@ == b@),
{
    chars_eq_str(k, a) || chars_eq_str(k, b)
}

/// `normalize_capability`.
pub fn normalize_capability(raw: &str) -> (r: Option<&'static str>)
    ensures
        opt_view(r) == capability_of(raw@),
{
    let k = norm_key_of(raw);
    let k = k.as_slice();
    if key_is(k, "object.read", "object_read") {
        Some("object.read")
    } else if key_is(k, "object.write", "object_write") {
        Some("object.write")
    } else if key_is(k, "memory.read", "memory_read") {
        Some("memory.read")
    } else if key_is(k, "memory.write", "memory_write") {
        Some("memory.write")
    } else if key_is(k, "message.send", "message_send") {
        Some("message.send")
    } else if key_is(k, "payment.send", "payment_send") {
        Some("payment.send")
    } else if key_is(k, "llm.infer", "llm_infer") {
        Some("llm.infer")
    } else if key_is(k, "local.exec", "local_exec") {
        Some("local.exec")
    } else if key_is(k, "db.query", "db_query") {
        Some("db.query")
    } else if key_is(k, "http.request", "http_request") {
        Some("http.request")
    } else {
        None
    }
}

/// The memory kind a requested name stands for.
pub open spec fn memory_kind_of(raw: Seq<char>) -> Option<Seq<char>> {
    let k = norm_key(raw);
    if k == "session"@ {
        Some("session"@)
    } else if k == "semantic"@ {
        Some("semantic"@)
    } else if k == "procedural"@ {
        Some("procedural"@)
    } else if k == "handoff"@ {
        Some("handoff"@)
    } else {
        None
    }
}

/// `normalize_memory_kind`.
pub fn normalize_memory_kind(raw: &str) -> (r: Option<&'static str>)
    ensures
        opt_view(r) == memory_kind_of(raw@),
{
    let k = norm_key_of(raw);
    let k = k.as_slice();
    if chars_eq_str(k, "session") {
        Some("session")
    } else if chars_eq_str(k, "semantic") {
        Some("semantic")
    } else if chars_eq_str(k, "procedural") {
        Some("procedural")
    } else if chars_eq_str(k, "handoff") {
        Some("handoff")
    } else {
        None
    }
}

/// A scope a capability may act on: no `..` and no NUL anywhere, and the
/// prefix that the capability's namespace demands. `db.query`,
/// `http.request` and unknown capabilities allow no scope.
pub open spec fn scope_allowed(cap: Seq<char>, scope: Seq<char>) -> bool {
    if contains_sub(scope, ".."@) || scope.contains('\0') {
        false
    } else if cap == "object.read"@ {
        starts_with(scope, "podcasts/"@)
    } else if cap == "object.write"@ {
        starts_with(scope, "shownotes/"@)
    } else if cap == "memory.read"@ || cap == "memory.write"@ {
        starts_with(scope, "memory:"@)
    } else if cap == "message.send"@ {
        starts_with(scope, "whitenoise:"@) || starts_with(scope, "slack:"@)
    } else if cap == "payment.send"@ {
        starts_with(scope, "nwc:"@) || starts_with(scope, "cashu:"@)
    } else if cap == "llm.infer"@ {
        starts_with(scope, "local:"@) || starts_with(scope, "remote:"@)
    } else if cap == "local.exec"@ {
        starts_with(scope, "local.exec:"@)
    } else {
        false
    }
}

/// `is_scope_allowed_for_capability`.
pub fn is_scope_allowed_for_capability(capability: &str, scope: &str) -> (r: bool)
    ensures
        r == scope_allowed(capability@, scope@),
{
    let s = to_chars(scope);
    let s = s.as_slice();
    if contains_str(s, "..") || contains_char(s, '\0') {
        return false;
    }
    let c = to_chars(capability);
    let c = c.as_slice();
    if chars_eq_str(c, "object.read") {
        starts_with_str(s, "podcasts/")
    } else if chars_eq_str(c, "object.write") {
        starts_with_str(s, "shownotes/")
    } else if chars_eq_str(c, "memory.read") || chars_eq_str(c, "memory.write") {
        starts_with_str(s, "memory:")
    } else if chars_eq_str(c, "message.send") {
        starts_with_str(s, "whitenoise:") || starts_with_str(s, "slack:")
    } else if chars_eq_str(c, "payment.send") {
        starts_with_str(s, "nwc:") || starts_with_str(s, "cashu:")
    } else if chars_eq_str(c, "llm.infer") {
        starts_with_str(s, "local:") || starts_with_str(s, "remote:")
    } else if chars_eq_str(c, "local.exec") {
        starts_with_str(s, "local.exec:")
    } else {
        false
    }
}

/// The hard payload cap of a capability (zero for capabilities without one).
pub open spec fn hard_max(cap: Seq<char>) -> u64 {
    if cap == "object.read"@ {
        MAX_OBJECT_READ_PAYLOAD_BYTES
    } else if cap == "object.write"@ {
        MAX_OBJECT_WRITE_PAYLOAD_BYTES
    } else if cap == "memory.read"@ {
        MAX_MEMORY_READ_PAYLOAD_BYTES
    } else if cap == "memory.write"@ {
        MAX_MEMORY_WRITE_PAYLOAD_BYTES
    } else if cap == "message.send"@ {
        MAX_MESSAGE_SEND_PAYLOAD_BYTES
    } else if cap == "payment.send"@ {
        MAX_PAYMENT_SEND_PAYLOAD_BYTES
    } else if cap == "llm.infer"@ {
        MAX_LLM_INFER_PAYLOAD_BYTES
    } else if cap == "local.exec"@ {
        MAX_LOCAL_EXEC_PAYLOAD_BYTES
    } else {
        0
    }
}

pub open spec fn min_u64(a: u64, b: u64) -> u64 {
    if a <= b {
        a
    } else {
        b
    }
}

/// A positive requested cap lowers the given cap; zero or nothing keeps it.
pub open spec fn cap_by_request(requested: Option<u64>, cap: u64) -> u64 {
    match requested {
        Some(v) if v > 0 => min_u64(v, cap),
        _ => cap,
    }
}

fn hard_max_exec(capability: &str) -> (r: u64)
    ensures
        r == hard_max(capability@),
{
    let c = to_chars(capability);
    let c = c.as_slice();
    if chars_eq_str(c, "object.read") {
        MAX_OBJECT_READ_PAYLOAD_BYTES
    } else if chars_eq_str(c, "object.write") {
        MAX_OBJECT_WRITE_PAYLOAD_BYTES
    } else if chars_eq_str(c, "memory.read") {
        MAX_MEMORY_READ_PAYLOAD_BYTES
    } else if chars_eq_str(c, "memory.write") {
        MAX_MEMORY_WRITE_PAYLOAD_BYTES
    } else if chars_eq_str(c, "message.send") {
        MAX_MESSAGE_SEND_PAYLOAD_BYTES
    } else if chars_eq_str(c, "payment.send") {
        MAX_PAYMENT_SEND_PAYLOAD_BYTES
    } else if chars_eq_str(c, "llm.infer") {
        MAX_LLM_INFER_PAYLOAD_BYTES
    } else if chars_eq_str(c, "local.exec") {
        MAX_LOCAL_EXEC_PAYLOAD_BYTES
    } else {
        0
    }
}

fn cap_by_request_exec(requested: Option<u64>, cap: u64) -> (r: u64)
    ensures
        r == cap_by_request(requested, cap),
{
    match requested {
        Some(v) if v > 0 => if v <= cap {
            v
        } else {
            cap
        },
        _ => cap,
    }
}

/// `resolve_max_payload_bytes`: the capability's hard cap, lowered by a
/// positive integer in `limits`.
pub fn resolve_max_payload_bytes(capability: &str, limits: Option<&JsonValue>) -> (r: u64)
    ensures
        r == cap_by_request(
            match limits {
                Some(l) => as_u64(*l),
                None => None,
            },
            hard_max(capability@),
        ),
        r <= hard_max(capability@),
{
    let hard = hard_max_exec(capability);
    let requested = match limits {
        Some(l) => as_u64_of(l),
        None => None,
    };
    cap_by_request_exec(requested, hard)
}

/// The payload cap granted: the hard cap, lowered by the bundle's cap, then
/// by a positive requested cap.
pub open spec fn capped_max(cap: Seq<char>, requested: Option<u64>, bundle: Option<u64>) -> u64 {
    let hard = hard_max(cap);
    let bundle_cap = match bundle {
        Some(m) => min_u64(m, hard),
        None => hard,
    };
    cap_by_request(requested, bundle_cap)
}

/// The granted payload cap (the number inside `capability_json`).
pub fn capped_max_payload_bytes(capability: &str, requested: Option<u64>, bundle: Option<u64>) -> (r: u64)
    ensures
        r == capped_max(capability@, requested, bundle),
        r <= hard_max(capability@),
{
    let hard = hard_max_exec(capability);
    let bundle_cap = match bundle {
        Some(m) => if m <= hard {
            m
        } else {
            hard
        },
        None => hard,
    };
    cap_by_request_exec(requested, bundle_cap)
}

/// A grant's scope pattern covers a requested scope: a trailing `*` matches
/// any continuation; otherwise the scopes must be equal.
pub open spec fn scope_within_spec(grant: Seq<char>, requested: Seq<char>) -> bool {
    if grant.len() > 0 && grant.last() == '*' {
        starts_with(requested, grant.drop_last())
    } else {
        grant == requested
    }
}

/// `scope_within`.
pub fn scope_within(grant_scope: &str, requested_scope: &str) -> (r: bool)
    ensures
        r == scope_within_spec(grant_scope@, requested_scope@),
{
    let g = to_chars(grant_scope);
    let q = to_chars(requested_scope);
    let n = g.len();
    if n > 0 && g[n - 1] == '*' {
        let prefix = slice_chars(g.as_slice(), 0, n - 1);
        proof {
            assert(prefix@ =~= g@.drop_last());
        }
        starts_with_chars(q.as_slice(), prefix.as_slice())
    } else {
        chars_eq(g.as_slice(), q.as_slice())
    }
}

/// What a role may hold: owners everything, operators everything but
/// `local.exec`, viewers `object.read` and local `llm.infer` only.
pub open spec fn role_allows(role: RolePreset, cap: Seq<char>, scope: Seq<char>) -> bool {
    match role {
        RolePreset::Owner => true,
        RolePreset::Operator => cap != "local.exec"@,
        RolePreset::Viewer => cap == "object.read"@ || (cap == "llm.infer"@ && starts_with(
            scope,
            "local:"@,
        )),
    }
}

/// `role_allows_capability`.
pub fn role_allows_capability(role: RolePreset, capability: &str, scope: &str) -> (r: bool)
    ensures
        r == role_allows(role, capability@, scope@),
{
    match role {
        RolePreset::Owner => true,
        RolePreset::Operator => {
            let c = to_chars(capability);
            !chars_eq_str(c.as_slice(), "local.exec")
        },
        RolePreset::Viewer => {
            let c = to_chars(capability);
            let s = to_chars(scope);
            chars_eq_str(c.as_slice(), "object.read") || (chars_eq_str(c.as_slice(), "llm.infer")
                && starts_with_str(s.as_slice(), "local:"))
        },
    }
}

/// One capability of a recipe's bundle.
#[derive(Debug, Clone, Copy)]
pub struct BundleCapability {
    pub capability: &'static str,
    pub scope: &'static str,
    pub max_payload_bytes: Option<u64>,
}

pub struct BundleView {
    pub capability: Seq<char>,
    pub scope: Seq<char>,
    pub max: Option<u64>,
}

impl View for BundleCapability {
    type V = BundleView;

    open spec fn view(&self) -> BundleView {
        BundleView { capability: self.capability@, scope: self.scope@, max: self.max_payload_bytes }
    }
}

pub open spec fn bv(capability: Seq<char>, scope: Seq<char>, max: u64) -> BundleView {
    BundleView { capability, scope, max: Some(max) }
}

/// The capabilities each known recipe is granted.
pub open spec fn recipe_bundle(recipe: Seq<char>) -> Option<Seq<BundleView>> {
    if recipe == "show_notes_v1"@ {
        Some(
            seq![
                bv("object.read"@, "podcasts/*"@, MAX_OBJECT_READ_PAYLOAD_BYTES),
                bv("object.write"@, "shownotes/*"@, MAX_OBJECT_WRITE_PAYLOAD_BYTES),
                bv("message.send"@, "whitenoise:*"@, MAX_MESSAGE_SEND_PAYLOAD_BYTES),
                bv("llm.infer"@, "local:*"@, MAX_LLM_INFER_PAYLOAD_BYTES),
                bv("local.exec"@, "local.exec:file.head"@, MAX_LOCAL_EXEC_PAYLOAD_BYTES),
            ],
        )
    } else if recipe == "notify_v1"@ {
        Some(
            seq![
                bv("message.send"@, "whitenoise:*"@, MAX_MESSAGE_SEND_PAYLOAD_BYTES),
                bv("llm.infer"@, "local:*"@, MAX_LLM_INFER_PAYLOAD_BYTES),
            ],
        )
    } else if recipe == "operator_reply_v1"@ {
        Some(seq![bv("message.send"@, "whitenoise:*"@, MAX_MESSAGE_SEND_PAYLOAD_BYTES)])
    } else if recipe == "payments_v1"@ {
        Some(seq![bv("payment.send"@, "nwc:*"@, MAX_PAYMENT_SEND_PAYLOAD_BYTES)])
    } else if recipe == "payments_cashu_v1"@ {
        Some(seq![bv("payment.send"@, "cashu:*"@, MAX_PAYMENT_SEND_PAYLOAD_BYTES)])
    } else if recipe == "memory_v1"@ {
        Some(
            seq![
                bv("memory.read"@, "memory:*"@, MAX_MEMORY_READ_PAYLOAD_BYTES),
                bv("memory.write"@, "memory:*"@, MAX_MEMORY_WRITE_PAYLOAD_BYTES),
            ],
        )
    } else if recipe == "llm_local_v1"@ {
        Some(seq![bv("llm.infer"@, "local:*"@, MAX_LLM_INFER_PAYLOAD_BYTES)])
    } else if recipe == "llm_remote_v1"@ {
        Some(seq![bv("llm.infer"@, "remote:*"@, MAX_LLM_INFER_PAYLOAD_BYTES)])
    } else if recipe == "local_exec_v1"@ {
        Some(
            seq![
                bv("local.exec"@, "local.exec:file.head"@, MAX_LOCAL_EXEC_PAYLOAD_BYTES),
                bv("local.exec"@, "local.exec:file.word_count"@, MAX_LOCAL_EXEC_PAYLOAD_BYTES),
            ],
        )
    } else {
        None
    }
}

pub open spec fn bundle_views(v: Seq<BundleCapability>) -> Seq<BundleView> {
    v.map_values(|b: BundleCapability| b@)
}

fn bc(capability: &'static str, scope: &'static str, max: u64) -> (r: BundleCapability)
    ensures
        r@ == bv(capability@, scope@, max),
{
    BundleCapability { capability, scope, max_payload_bytes: Some(max) }
}

/// `resolve_recipe_capability_bundle`.
pub fn resolve_recipe_capability_bundle(recipe_id: &str) -> (r: Option<Vec<BundleCapability>>)
    ensures
        match r {
            Some(v) => recipe_bundle(recipe_id@) == Some(bundle_views(v@)),
            None => recipe_bundle(recipe_id@) is None,
        },
{
    let k = to_chars(recipe_id);
    let k = k.as_slice();
    let v: Vec<BundleCapability> = if chars_eq_str(k, "show_notes_v1") {
        vec![
            bc("object.read", "podcasts/*", MAX_OBJECT_READ_PAYLOAD_BYTES),
            bc("object.write", "shownotes/*", MAX_OBJECT_WRITE_PAYLOAD_BYTES),
            bc("message.send", "whitenoise:*", MAX_MESSAGE_SEND_PAYLOAD_BYTES),
            bc("llm.infer", "local:*", MAX_LLM_INFER_PAYLOAD_BYTES),
            bc("local.exec", "local.exec:file.head", MAX_LOCAL_EXEC_PAYLOAD_BYTES),
        ]
    } else if chars_eq_str(k, "notify_v1") {
        vec![
            bc("message.send", "whitenoise:*", MAX_MESSAGE_SEND_PAYLOAD_BYTES),
            bc("llm.infer", "local:*", MAX_LLM_INFER_PAYLOAD_BYTES),
        ]
    } else if chars_eq_str(k, "operator_reply_v1") {
        vec![bc("message.send", "whitenoise:*", MAX_MESSAGE_SEND_PAYLOAD_BYTES)]
    } else if chars_eq_str(k, "payments_v1") {
        vec![bc("payment.send", "nwc:*", MAX_PAYMENT_SEND_PAYLOAD_BYTES)]
    } else if chars_eq_str(k, "payments_cashu_v1") {
        vec![bc("payment.send", "cashu:*", MAX_PAYMENT_SEND_PAYLOAD_BYTES)]
    } else if chars_eq_str(k, "memory_v1") {
        vec![
            bc("memory.read", "memory:*", MAX_MEMORY_READ_PAYLOAD_BYTES),
            bc("memory.write", "memory:*", MAX_MEMORY_WRITE_PAYLOAD_BYTES),
        ]
    } else if chars_eq_str(k, "llm_local_v1") {
        vec![bc("llm.infer", "local:*", MAX_LLM_INFER_PAYLOAD_BYTES)]
    } else if chars_eq_str(k, "llm_remote_v1") {
        vec![bc("llm.infer", "remote:*", MAX_LLM_INFER_PAYLOAD_BYTES)]
    } else if chars_eq_str(k, "local_exec_v1") {
        vec![
            bc("local.exec", "local.exec:file.head", MAX_LOCAL_EXEC_PAYLOAD_BYTES),
            bc("local.exec", "local.exec:file.word_count", MAX_LOCAL_EXEC_PAYLOAD_BYTES),
        ]
    } else {
        return None;
    };
    proof {
        assert(bundle_views(v@) =~= recipe_bundle(recipe_id@)->0);
    }
    Some(v)
}

/// A capability that a request asks for, after normalisation.
#[derive(Debug)]
pub struct RequestedCapability {
    pub capability: &'static str,
    pub scope: String,
    pub requested_max_payload_bytes: Option<u64>,
}

pub struct ReqView {
    pub capability: Seq<char>,
    pub scope: Seq<char>,
    pub max: Option<u64>,
}

impl View for RequestedCapability {
    type V = ReqView;

    open spec fn view(&self) -> ReqView {
        ReqView {
            capability: self.capability@,
            scope: self.scope@,
            max: self.requested_max_payload_bytes,
        }
    }
}

pub open spec fn req_views(v: Seq<RequestedCapability>) -> Seq<ReqView> {
    v.map_values(|r: RequestedCapability| r@)
}

/// `item.get("limits").and_then(|v| v.get("max_payload_bytes")).and_then(as_u64)`.
pub open spec fn limits_max(item: JsonValue) -> Option<u64> {
    match get(item, "limits"@) {
        Some(l) => match get(l, "max_payload_bytes"@) {
            Some(x) => as_u64(x),
            None => None,
        },
        None => None,
    }
}

/// One requested entry: refused where `capability` or `scope` is not a
/// string or the scope is blank; skipped where the capability is unknown or
/// the scope is not allowed for it.
pub open spec fn parse_item(item: JsonValue) -> Result<Option<ReqView>, ErrView> {
    match str_field(item, "capability"@) {
        None => Err(bad_request("capability entry missing string `capability`"@)),
        Some(raw_cap) => match str_field(item, "scope"@) {
            None => Err(bad_request("capability entry missing string `scope`"@)),
            Some(raw_scope) => {
                let scope = trim(raw_scope);
                if scope.len() == 0 {
                    Err(bad_request("capability scope must not be empty"@))
                } else {
                    match capability_of(raw_cap) {
                        None => Ok(None),
                        Some(cap) => if scope_allowed(cap, scope) {
                            Ok(Some(ReqView { capability: cap, scope, max: limits_max(item) }))
                        } else {
                            Ok(None)
                        },
                    }
                }
            },
        },
    }
}

/// The entries among the first `n` items, or the first error among them.
pub open spec fn parse_prefix(items: Seq<JsonValue>, n: int) -> Result<Seq<ReqView>, ErrView>
    decreases n,
{
    if n <= 0 {
        Ok(Seq::empty())
    } else {
        match parse_prefix(items, n - 1) {
            Err(e) => Err(e),
            Ok(acc) => match parse_item(items[n - 1]) {
                Err(e) => Err(e),
                Ok(None) => Ok(acc),
                Ok(Some(x)) => Ok(acc.push(x)),
            },
        }
    }
}

/// What `parse_requested_capabilities` yields for a payload.
pub open spec fn parse_requested(v: JsonValue) -> Result<Seq<ReqView>, ErrView> {
    match v {
        JsonValue::Array(items) => parse_prefix(items@, items@.len() as int),
        _ => Err(bad_request("requested_capabilities must be an array"@)),
    }
}

fn limits_max_of(item: &JsonValue) -> (r: Option<u64>)
    ensures
        r == limits_max(*item),
{
    match get_field(item, "limits") {
        Some(l) => match get_field(l, "max_payload_bytes") {
            Some(x) => as_u64_of(x),
            None => None,
        },
        None => None,
    }
}

fn parse_one(item: &JsonValue) -> (r: Result<Option<RequestedCapability>, ApiError>)
    ensures
        match (r, parse_item(*item)) {
            (Ok(None), Ok(None)) => true,
            (Ok(Some(a)), Ok(Some(b))) => a@ == b,
            (Err(e), Err(f)) => e@ == f,
            _ => false,
        },
{
    let raw_cap = match get_field(item, "capability") {
        Some(x) => match as_str_chars(x) {
            Some(c) => c,
            None => {
                return Err(ApiError::bad_request("capability entry missing string `capability`"))
            },
        },
        None => return Err(ApiError::bad_request("capability entry missing string `capability`")),
    };
    let raw_scope = match get_field(item, "scope") {
        Some(x) => match as_str_chars(x) {
            Some(c) => c,
            None => return Err(ApiError::bad_request("capability entry missing string `scope`")),
        },
        None => return Err(ApiError::bad_request("capability entry missing string `scope`")),
    };
    let scope = trim_chars(raw_scope.as_slice());
    if scope.len() == 0 {
        return Err(ApiError::bad_request("capability scope must not be empty"));
    }
    let raw_cap_s = crate::text::from_chars(raw_cap.as_slice());
    let capability = match normalize_capability(raw_cap_s.as_str()) {
        Some(c) => c,
        None => return Ok(None),
    };
    let scope_s = crate::text::from_chars(scope.as_slice());
    if !is_scope_allowed_for_capability(capability, scope_s.as_str()) {
        return Ok(None);
    }
    Ok(
        Some(
            RequestedCapability {
                capability,
                scope: scope_s,
                requested_max_payload_bytes: limits_max_of(item),
            },
        ),
    )
}

/// `parse_requested_capabilities`.
pub fn parse_requested_capabilities(requested: &JsonValue) -> (r: Result<
    Vec<RequestedCapability>,
    ApiError,
>)
    ensures
        match (r, parse_requested(*requested)) {
            (Ok(v), Ok(w)) => req_views(v@) == w,
            (Err(e), Err(f)) => e@ == f,
            _ => false,
        },
{
    let items = match requested {
        JsonValue::Array(items) => items,
        _ => return Err(ApiError::bad_request("requested_capabilities must be an array")),
    };
    let mut parsed: Vec<RequestedCapability> = Vec::new();
    proof {
        assert(req_views(parsed@) =~= Seq::<ReqView>::empty());
    }
    let mut i: usize = 0;
    while i < items.len()
        invariant
            i <= items@.len(),
            parse_requested(*requested) == parse_prefix(items@, items@.len() as int),
            parse_prefix(items@, i as int) == Ok::<Seq<ReqView>, ErrView>(req_views(parsed@)),
        decreases items.len() - i,
    {
        let ghost before = parsed@;
        match parse_one(&items[i]) {
            Err(e) => {
                proof {
                    assert(parse_item(items@[i as int]) == Err::<Option<ReqView>, ErrView>(e@));
                    assert(parse_prefix(items@, i + 1) == Err::<Seq<ReqView>, ErrView>(e@));
                    lemma_prefix_err_sticks(items@, i + 1, items@.len() as int);
                }
                return Err(e);
            },
            Ok(None) => {},
            Ok(Some(x)) => {
                parsed.push(x);
                proof {
                    assert(req_views(parsed@) =~= req_views(before).push(x@));
                }
            },
        }
        i = i + 1;
    }
    Ok(parsed)
}

proof fn lemma_prefix_err_sticks(items: Seq<JsonValue>, n: int, m: int)
    requires
        0 <= n <= m,
        parse_prefix(items, n) is Err,
    ensures
        parse_prefix(items, m) == parse_prefix(items, n),
    decreases m - n,
{
    if m > n {
        lemma_prefix_err_sticks(items, n, m - 1);
    }
}

/// A granted capability: name, scope and payload cap.
#[derive(Debug)]
pub struct GrantedCapability {
    pub capability: String,
    pub scope: String,
    pub max_payload_bytes: u64,
}

pub struct GrantView {
    pub capability: Seq<char>,
    pub scope: Seq<char>,
    pub max: u64,
}

impl View for GrantedCapability {
    type V = GrantView;

    open spec fn view(&self) -> GrantView {
        GrantView {
            capability: self.capability@,
            scope: self.scope@,
            max: self.max_payload_bytes,
        }
    }
}

pub open spec fn grant_views(v: Seq<GrantedCapability>) -> Seq<GrantView> {
    v.map_values(|g: GrantedCapability| g@)
}

pub open spec fn grant_of(cap: Seq<char>, scope: Seq<char>, requested: Option<u64>, bundle: Option<u64>) -> GrantView {
    GrantView { capability: cap, scope, max: capped_max(cap, requested, bundle) }
}

/// Without a bundle: the requested entries the role allows, each capped by
/// its hard cap and its own request.
pub open spec fn grants_unbundled(req: Seq<ReqView>, role: RolePreset, n: int) -> Seq<GrantView>
    decreases n,
{
    if n <= 0 {
        Seq::empty()
    } else {
        let acc = grants_unbundled(req, role, n - 1);
        let x = req[n - 1];
        if role_allows(role, x.capability, x.scope) {
            acc.push(grant_of(x.capability, x.scope, x.max, None))
        } else {
            acc
        }
    }
}

/// The bundle entries the role allows, in order.
pub open spec fn bundle_for_role(b: Seq<BundleView>, role: RolePreset, n: int) -> Seq<BundleView>
    decreases n,
{
    if n <= 0 {
        Seq::empty()
    } else {
        let acc = bundle_for_role(b, role, n - 1);
        if role_allows(role, b[n - 1].capability, b[n - 1].scope) {
            acc.push(b[n - 1])
        } else {
            acc
        }
    }
}

/// Entry `i` of the bundle is the first that covers the requested entry.
pub open spec fn covers(e: BundleView, x: ReqView) -> bool {
    e.capability == x.capability && scope_within_spec(e.scope, x.scope)
}

pub open spec fn cover_pos(bf: Seq<BundleView>, x: ReqView, i: int) -> bool {
    &&& 0 <= i < bf.len()
    &&& covers(bf[i], x)
    &&& forall|k: int| 0 <= k < i ==> !covers(bf[k], x)
}

pub open spec fn first_cover(bf: Seq<BundleView>, x: ReqView) -> Option<BundleView> {
    if exists|i: int| cover_pos(bf, x, i) {
        Some(bf[choose|i: int| cover_pos(bf, x, i)])
    } else {
        None
    }
}

/// With a bundle and a non-empty request: each requested entry that some
/// allowed bundle entry covers, capped by the first such entry.
pub open spec fn grants_bundled(req: Seq<ReqView>, bf: Seq<BundleView>, n: int) -> Seq<GrantView>
    decreases n,
{
    if n <= 0 {
        Seq::empty()
    } else {
        let acc = grants_bundled(req, bf, n - 1);
        let x = req[n - 1];
        match first_cover(bf, x) {
            Some(e) => acc.push(grant_of(x.capability, x.scope, x.max, e.max)),
            None => acc,
        }
    }
}

/// The grant for a recipe, a role and parsed requested entries.
pub open spec fn granted(recipe: Seq<char>, role: RolePreset, req: Seq<ReqView>) -> Seq<GrantView> {
    match recipe_bundle(recipe) {
        None => grants_unbundled(req, role, req.len() as int),
        Some(b) => {
            let bf = bundle_for_role(b, role, b.len() as int);
            if req.len() == 0 {
                bf.map_values(|e: BundleView| grant_of(e.capability, e.scope, None, e.max))
            } else {
                grants_bundled(req, bf, req.len() as int)
            }
        },
    }
}

/// What `resolve_granted_capabilities` yields.
pub open spec fn granted_for(recipe: Seq<char>, role: RolePreset, requested: JsonValue) -> Result<
    Seq<GrantView>,
    ErrView,
> {
    match parse_requested(requested) {
        Err(e) => Err(e),
        Ok(req) => Ok(granted(recipe, role, req)),
    }
}

fn make_grant(capability: &str, scope: &str, requested: Option<u64>, bundle: Option<u64>) -> (g: GrantedCapability)
    ensures
        g@ == grant_of(capability@, scope@, requested, bundle),
{
    GrantedCapability {
        capability: own(capability),
        scope: own(scope),
        max_payload_bytes: capped_max_payload_bytes(capability, requested, bundle),
    }
}

fn find_cover(bf: &Vec<BundleCapability>, x: &RequestedCapability) -> (r: Option<usize>)
    ensures
        match r {
            Some(i) => cover_pos(bundle_views(bf@), x@, i as int),
            None => forall|i: int| 0 <= i < bf@.len() ==> !covers(bundle_views(bf@)[i], x@),
        },
{
    let ghost bv = bundle_views(bf@);
    let c = to_chars(x.capability);
    let mut i: usize = 0;
    while i < bf.len()
        invariant
            i <= bf@.len(),
            bv == bundle_views(bf@),
            c@ == x@.capability,
            forall|k: int| 0 <= k < i ==> !covers(bv[k], x@),
        decreases bf.len() - i,
    {
        let e = bf[i];
        proof {
            assert(bv[i as int] == e@);
        }
        let ec = to_chars(e.capability);
        let same = chars_eq(ec.as_slice(), c.as_slice());
        let within = scope_within(e.scope, x.scope.as_str());
        proof {
            assert(same == (bv[i as int].capability == x@.capability));
            assert(within == scope_within_spec(bv[i as int].scope, x@.scope));
        }
        if same && within {
            return Some(i);
        }
        i = i + 1;
    }
    None
}

/// `resolve_granted_capabilities`.
pub fn resolve_granted_capabilities(
    recipe_id: &str,
    role: RolePreset,
    requested_capabilities: &JsonValue,
) -> (r: Result<Vec<GrantedCapability>, ApiError>)
    ensures
        match (r, granted_for(recipe_id@, role, *requested_capabilities)) {
            (Ok(v), Ok(w)) => grant_views(v@) == w,
            (Err(e), Err(f)) => e@ == f,
            _ => false,
        },
{
    let requested = parse_requested_capabilities(requested_capabilities)?;
    let ghost req = req_views(requested@);
    let mut granted_caps: Vec<GrantedCapability> = Vec::new();
    match resolve_recipe_capability_bundle(recipe_id) {
        None => {
            let mut i: usize = 0;
            while i < requested.len()
                invariant
                    i <= requested@.len(),
                    req == req_views(requested@),
                    grant_views(granted_caps@) == grants_unbundled(req, role, i as int),
                decreases requested.len() - i,
            {
                let x = &requested[i];
                let ghost before = granted_caps@;
                if role_allows_capability(role, x.capability, x.scope.as_str()) {
                    granted_caps.push(
                        make_grant(x.capability, x.scope.as_str(), x.requested_max_payload_bytes, None),
                    );
                    proof {
                        assert(grant_views(granted_caps@) =~= grant_views(before).push(
                            grant_of(x.capability@, x.scope@, x.requested_max_payload_bytes, None),
                        ));
                    }
                }
                i = i + 1;
            }
        },
        Some(bundle) => {
            let ghost b = bundle_views(bundle@);
            let mut bf: Vec<BundleCapability> = Vec::new();
            let mut j: usize = 0;
            while j < bundle.len()
                invariant
                    j <= bundle@.len(),
                    b == bundle_views(bundle@),
                    bundle_views(bf@) == bundle_for_role(b, role, j as int),
                decreases bundle.len() - j,
            {
                let e = bundle[j];
                let ghost before = bf@;
                if role_allows_capability(role, e.capability, e.scope) {
                    bf.push(e);
                    proof {
                        assert(bundle_views(bf@) =~= bundle_views(before).push(e@));
                    }
                }
                j = j + 1;
            }
            let ghost bfv = bundle_views(bf@);
            if requested.len() == 0 {
                let mut k: usize = 0;
                while k < bf.len()
                    invariant
                        k <= bf@.len(),
                        bfv == bundle_views(bf@),
                        grant_views(granted_caps@) == bfv.take(k as int).map_values(
                            |e: BundleView| grant_of(e.capability, e.scope, None, e.max),
                        ),
                    decreases bf.len() - k,
                {
                    let e = bf[k];
                    let ghost before = granted_caps@;
                    granted_caps.push(make_grant(e.capability, e.scope, None, e.max_payload_bytes));
                    proof {
                        assert(bfv.take(k + 1) =~= bfv.take(k as int).push(e@));
                        assert(grant_views(granted_caps@) =~= grant_views(before).push(
                            grant_of(e.capability@, e.scope@, None, e.max_payload_bytes),
                        ));
                    }
                    k = k + 1;
                }
                proof {
                    assert(bfv.take(bf@.len() as int) =~= bfv);
                }
            } else {
                let mut i: usize = 0;
                while i < requested.len()
                    invariant
                        i <= requested@.len(),
                        req == req_views(requested@),
                        bfv == bundle_views(bf@),
                        grant_views(granted_caps@) == grants_bundled(req, bfv, i as int),
                    decreases requested.len() - i,
                {
                    let x = &requested[i];
                    let ghost before = granted_caps@;
                    match find_cover(&bf, x) {
                        Some(p) => {
                            let e = bf[p];
                            proof {
                                let c = choose|q: int| cover_pos(bfv, x@, q);
                                assert(c == p as int) by {
                                    if c < p as int {
                                        assert(!covers(bfv[c], x@));
                                    } else if c > p as int {
                                        assert(!covers(bfv[p as int], x@));
                                    }
                                }
                            }
                            granted_caps.push(
                                make_grant(
                                    x.capability,
                                    x.scope.as_str(),
                                    x.requested_max_payload_bytes,
                                    e.max_payload_bytes,
                                ),
                            );
                            proof {
                                assert(grant_views(granted_caps@) =~= grant_views(before).push(
                                    grant_of(
                                        x.capability@,
                                        x.scope@,
                                        x.requested_max_payload_bytes,
                                        e.max_payload_bytes,
                                    ),
                                ));
                            }
                        },
                        None => {},
                    }
                    i = i + 1;
                }
            }
        },
    }
    Ok(granted_caps)
}

/// The JSON object of a grant, exactly: `{"capability": cap, "scope":
/// scope, "limits": {"max_payload_bytes": max}}`, with no other key at
/// either level.
pub open spec fn is_grant_json(r: JsonValue, cap: Seq<char>, scope: Seq<char>, max: u64) -> bool {
    &&& r is Object
    &&& keys_unique(r->Object_0@)
    &&& str_field(r, "capability"@) == Some(cap)
    &&& str_field(r, "scope"@) == Some(scope)
    &&& (get(r, "limits"@) matches Some(l) && is_limits_json(l, max))
    &&& forall|k: Seq<char>|
        k != "capability"@ && k != "scope"@ && k != "limits"@ ==> #[trigger] get(r, k) is None
}

/// `{"max_payload_bytes": max}` and no other key.
pub open spec fn is_limits_json(l: JsonValue, max: u64) -> bool {
    &&& l is Object
    &&& keys_unique(l->Object_0@)
    &&& get(l, "max_payload_bytes"@) == Some(JsonValue::Number(JsonNumber::PosInt(max)))
    &&& forall|k: Seq<char>| k != "max_payload_bytes"@ ==> #[trigger] get(l, k) is None
}

/// `capability_json`: `{"capability", "scope", "limits": {"max_payload_bytes"}}`.
pub fn capability_json(capability: &str, scope: &str, requested: Option<u64>, bundle: Option<u64>) -> (r: JsonValue)
    ensures
        is_grant_json(r, capability@, scope@, capped_max(capability@, requested, bundle)),
{
    let g = make_grant(capability, scope, requested, bundle);
    grant_json(&g)
}

/// The JSON object of one grant.
pub fn grant_json(g: &GrantedCapability) -> (r: JsonValue)
    ensures
        is_grant_json(r, g.capability@, g.scope@, g.max_payload_bytes),
{
    proof {
        reveal_strlit("capability");
        reveal_strlit("scope");
        reveal_strlit("limits");
        assert("capability"@[0] != "scope"@[0]);
        assert("capability"@[0] != "limits"@[0]);
        assert("scope"@[0] != "limits"@[0]);
    }
    let mut limits: Vec<JsonField> = Vec::new();
    assert(keys_unique(limits@));
    insert_field(
        &mut limits,
        "max_payload_bytes",
        JsonValue::Number(JsonNumber::PosInt(g.max_payload_bytes)),
    );
    let mut fs: Vec<JsonField> = Vec::new();
    assert(keys_unique(fs@));
    insert_field(&mut fs, "capability", json_str(g.capability.as_str()));
    insert_field(&mut fs, "scope", json_str(g.scope.as_str()));
    insert_field(&mut fs, "limits", JsonValue::Object(limits));
    JsonValue::Object(fs)
}

/// The JSON array of a grant, in order: item `i` is exactly the object of
/// grant `i`.
pub fn grants_json(grants: &Vec<GrantedCapability>) -> (r: JsonValue)
    ensures
        r matches JsonValue::Array(items) && items@.len() == grants@.len() && forall|i: int|
            0 <= i < grants@.len() ==> is_grant_json(
                #[trigger] items@[i],
                grants@[i].capability@,
                grants@[i].scope@,
                grants@[i].max_payload_bytes,
            ),
{
    let mut items: Vec<JsonValue> = Vec::new();
    let mut i: usize = 0;
    while i < grants.len()
        invariant
            i <= grants@.len(),
            items@.len() == i,
            forall|k: int|
                0 <= k < i ==> is_grant_json(
                    #[trigger] items@[k],
                    grants@[k].capability@,
                    grants@[k].scope@,
                    grants@[k].max_payload_bytes,
                ),
        decreases grants.len() - i,
    {
        items.push(grant_json(&grants[i]));
        i = i + 1;
    }
    JsonValue::Array(items)
}

proof fn lemma_capped_le_hard(cap: Seq<char>, requested: Option<u64>, bundle: Option<u64>)
    ensures
        capped_max(cap, requested, bundle) <= hard_max(cap),
{
}

proof fn lemma_unbundled_allowed(req: Seq<ReqView>, role: RolePreset, n: int)
    requires
        0 <= n <= req.len(),
    ensures
        forall|i: int|
            0 <= i < grants_unbundled(req, role, n).len() ==> role_allows(
                role,
                #[trigger] grants_unbundled(req, role, n)[i].capability,
                grants_unbundled(req, role, n)[i].scope,
            ),
        forall|i: int|
            0 <= i < grants_unbundled(req, role, n).len() ==> #[trigger] grants_unbundled(
                req,
                role,
                n,
            )[i].max <= hard_max(grants_unbundled(req, role, n)[i].capability),
    decreases n,
{
    if n > 0 {
        lemma_unbundled_allowed(req, role, n - 1);
        let acc = grants_unbundled(req, role, n - 1);
        let x = req[n - 1];
        if role_allows(role, x.capability, x.scope) {
            let g = grant_of(x.capability, x.scope, x.max, None);
            lemma_capped_le_hard(x.capability, x.max, None);
            assert forall|i: int| 0 <= i < acc.len() + 1 implies role_allows(
                role,
                (#[trigger] acc.push(g)[i]).capability,
                acc.push(g)[i].scope,
            ) && acc.push(g)[i].max <= hard_max(acc.push(g)[i].capability) by {
                if i < acc.len() {
                    assert(acc.push(g)[i] == acc[i]);
                }
            }
        }
    }
}

proof fn lemma_bundle_for_role(b: Seq<BundleView>, role: RolePreset, n: int)
    requires
        0 <= n <= b.len(),
    ensures
        forall|i: int|
            0 <= i < bundle_for_role(b, role, n).len() ==> role_allows(
                role,
                #[trigger] bundle_for_role(b, role, n)[i].capability,
                bundle_for_role(b, role, n)[i].scope,
            ),
        forall|i: int|
            0 <= i < bundle_for_role(b, role, n).len() ==> b.contains(
                #[trigger] bundle_for_role(b, role, n)[i],
            ),
    decreases n,
{
    if n > 0 {
        lemma_bundle_for_role(b, role, n - 1);
        let acc = bundle_for_role(b, role, n - 1);
        if role_allows(role, b[n - 1].capability, b[n - 1].scope) {
            assert(b[n - 1] == b[n - 1]);
            assert forall|i: int| 0 <= i < acc.len() + 1 implies b.contains(
                #[trigger] acc.push(b[n - 1])[i],
            ) by {
                if i == acc.len() {
                    assert(b[n - 1] == acc.push(b[n - 1])[i]);
                } else {
                    assert(acc.push(b[n - 1])[i] == acc[i]);
                }
            }
        }
    }
}

pub open spec fn llm_scope_ok(e: BundleView) -> bool {
    e.capability == "llm.infer"@ ==> e.scope == "local:*"@ || e.scope == "remote:*"@
}

/// Inside every recipe bundle, `llm.infer` is scoped to `local:*` or
/// `remote:*`.
proof fn lemma_bundle_llm_scopes(recipe: Seq<char>)
    ensures
        recipe_bundle(recipe) matches Some(b) ==> forall|i: int|
            0 <= i < b.len() ==> llm_scope_ok(#[trigger] b[i]),
{
    reveal_strlit("llm.infer");
    reveal_strlit("object.read");
    reveal_strlit("object.write");
    reveal_strlit("message.send");
    reveal_strlit("local.exec");
    reveal_strlit("payment.send");
    reveal_strlit("memory.read");
    reveal_strlit("memory.write");
    assert("llm.infer"@.len() == 9);
    assert("object.read"@.len() == 11);
    assert("object.write"@.len() == 12);
    assert("message.send"@.len() == 12);
    assert("local.exec"@.len() == 10);
    assert("payment.send"@.len() == 12);
    assert("memory.read"@.len() == 11);
    assert("memory.write"@.len() == 12);
    if let Some(b) = recipe_bundle(recipe) {
        assert forall|i: int| 0 <= i < b.len() implies llm_scope_ok(#[trigger] b[i]) by {
            assert(i == 0 || i == 1 || i == 2 || i == 3 || i == 4);
        }
    }
}

/// A grant drawn from a bundle entry the role allows is itself allowed.
proof fn lemma_cover_keeps_role(role: RolePreset, e: BundleView, x: ReqView)
    requires
        covers(e, x),
        role_allows(role, e.capability, e.scope),
        llm_scope_ok(e),
    ensures
        role_allows(role, x.capability, x.scope),
{
    reveal_strlit("object.read");
    reveal_strlit("llm.infer");
    reveal_strlit("local:*");
    reveal_strlit("local:");
    reveal_strlit("remote:*");
    assert("llm.infer"@.len() == 9);
    assert("object.read"@.len() == 11);
    if role == RolePreset::Viewer && x.capability == "llm.infer"@ {
        assert(e.capability != "object.read"@);
        assert(starts_with(e.scope, "local:"@));
        if e.scope == "remote:*"@ {
            assert(e.scope[0] != "local:"@[0]);
            assert(e.scope.subrange(0, 6)[0] == e.scope[0]);
        }
        assert(e.scope == "local:*"@);
        assert(e.scope.drop_last() =~= "local:"@);
        assert(starts_with(x.scope, "local:"@));
    }
}

proof fn lemma_bundled_allowed(req: Seq<ReqView>, bf: Seq<BundleView>, role: RolePreset, n: int)
    requires
        0 <= n <= req.len(),
        forall|i: int| 0 <= i < bf.len() ==> role_allows(role, (#[trigger] bf[i]).capability, bf[i].scope),
        forall|i: int| 0 <= i < bf.len() ==> llm_scope_ok(#[trigger] bf[i]),
    ensures
        forall|i: int|
            0 <= i < grants_bundled(req, bf, n).len() ==> role_allows(
                role,
                #[trigger] grants_bundled(req, bf, n)[i].capability,
                grants_bundled(req, bf, n)[i].scope,
            ),
        forall|i: int|
            0 <= i < grants_bundled(req, bf, n).len() ==> #[trigger] grants_bundled(
                req,
                bf,
                n,
            )[i].max <= hard_max(grants_bundled(req, bf, n)[i].capability),
    decreases n,
{
    if n > 0 {
        lemma_bundled_allowed(req, bf, role, n - 1);
        let acc = grants_bundled(req, bf, n - 1);
        let x = req[n - 1];
        if exists|i: int| cover_pos(bf, x, i) {
            let p = choose|i: int| cover_pos(bf, x, i);
            assert(role_allows(role, bf[p].capability, bf[p].scope));
            assert(llm_scope_ok(bf[p]));
            lemma_cover_keeps_role(role, bf[p], x);
            let g = grant_of(x.capability, x.scope, x.max, bf[p].max);
            lemma_capped_le_hard(x.capability, x.max, bf[p].max);
            assert(grants_bundled(req, bf, n) == acc.push(g));
            assert forall|i: int| 0 <= i < acc.len() + 1 implies role_allows(
                role,
                (#[trigger] acc.push(g)[i]).capability,
                acc.push(g)[i].scope,
            ) && acc.push(g)[i].max <= hard_max(acc.push(g)[i].capability) by {
                if i < acc.len() {
                    assert(acc.push(g)[i] == acc[i]);
                }
            }
        }
    }
}

/// Default deny: every capability granted for a recipe, a role and any
/// parsed request is one that the role may hold, and its payload cap never
/// exceeds the capability's hard cap.
pub proof fn law_grants_respect_role_and_caps(recipe: Seq<char>, role: RolePreset, req: Seq<ReqView>)
    ensures
        forall|i: int|
            0 <= i < granted(recipe, role, req).len() ==> role_allows(
                role,
                #[trigger] granted(recipe, role, req)[i].capability,
                granted(recipe, role, req)[i].scope,
            ),
        forall|i: int|
            0 <= i < granted(recipe, role, req).len() ==> #[trigger] granted(recipe, role, req)[i].max
                <= hard_max(granted(recipe, role, req)[i].capability),
{
    match recipe_bundle(recipe) {
        None => {
            lemma_unbundled_allowed(req, role, req.len() as int);
        },
        Some(b) => {
            let bf = bundle_for_role(b, role, b.len() as int);
            lemma_bundle_for_role(b, role, b.len() as int);
            lemma_bundle_llm_scopes(recipe);
            assert forall|i: int| 0 <= i < bf.len() implies llm_scope_ok(#[trigger] bf[i]) by {
                assert(b.contains(bf[i]));
                let j = choose|j: int| 0 <= j < b.len() && b[j] == bf[i];
                assert(llm_scope_ok(b[j]));
            }
            if req.len() == 0 {
                let g = bf.map_values(|e: BundleView| grant_of(e.capability, e.scope, None, e.max));
                assert forall|i: int| 0 <= i < g.len() implies role_allows(
                    role,
                    (#[trigger] g[i]).capability,
                    g[i].scope,
                ) && g[i].max <= hard_max(g[i].capability) by {
                    lemma_capped_le_hard(bf[i].capability, None, bf[i].max);
                }
            } else {
                lemma_bundled_allowed(req, bf, role, req.len() as int);
            }
        },
    }
}

/// Some entry of `b` has the grant's capability and a scope pattern
/// covering the grant's scope.
pub open spec fn covered_by(b: Seq<BundleView>, g: GrantView) -> bool {
    exists|j: int|
        0 <= j < b.len() && b[j].capability == g.capability && scope_within_spec(b[j].scope, g.scope)
}

/// Bundle containment: for a known recipe with a non-empty request, every
/// grant names the capability of an entry of the recipe's bundle whose scope
/// pattern covers the granted scope.
pub proof fn law_bundled_grants_are_covered(recipe: Seq<char>, role: RolePreset, req: Seq<ReqView>)
    requires
        recipe_bundle(recipe) is Some,
        req.len() > 0,
    ensures
        forall|i: int|
            0 <= i < granted(recipe, role, req).len() ==> covered_by(
                recipe_bundle(recipe)->0,
                #[trigger] granted(recipe, role, req)[i],
            ),
{
    let b = recipe_bundle(recipe)->0;
    let bf = bundle_for_role(b, role, b.len() as int);
    lemma_bundle_for_role(b, role, b.len() as int);
    lemma_bundled_covered(req, b, bf, req.len() as int);
}

proof fn lemma_bundled_covered(req: Seq<ReqView>, b: Seq<BundleView>, bf: Seq<BundleView>, n: int)
    requires
        0 <= n <= req.len(),
        forall|i: int| 0 <= i < bf.len() ==> b.contains(#[trigger] bf[i]),
    ensures
        forall|i: int|
            0 <= i < grants_bundled(req, bf, n).len() ==> covered_by(
                b,
                #[trigger] grants_bundled(req, bf, n)[i],
            ),
    decreases n,
{
    if n > 0 {
        lemma_bundled_covered(req, b, bf, n - 1);
        let x = req[n - 1];
        let acc = grants_bundled(req, bf, n - 1);
        if exists|i: int| cover_pos(bf, x, i) {
            let p = choose|i: int| cover_pos(bf, x, i);
            assert(b.contains(bf[p]));
            let j = choose|j: int| 0 <= j < b.len() && b[j] == bf[p];
            let g = grant_of(x.capability, x.scope, x.max, bf[p].max);
            assert(grants_bundled(req, bf, n) == acc.push(g));
            assert(covers(bf[p], x));
            assert(covered_by(b, g));
            assert forall|i: int| 0 <= i < acc.len() + 1 implies covered_by(
                b,
                #[trigger] acc.push(g)[i],
            ) by {
                if i < acc.len() {
                    assert(acc.push(g)[i] == acc[i]);
                }
            }
        } else {
            assert(grants_bundled(req, bf, n) == acc);
        }
    }
}


/// The requested entry at `j` asks for the grant's capability and scope, and
/// the grant keeps within the payload cap that entry asked for.
pub open spec fn answers_request(req: Seq<ReqView>, g: GrantView, j: int) -> bool {
    &&& 0 <= j < req.len()
    &&& req[j].capability == g.capability
    &&& req[j].scope == g.scope
    &&& match req[j].max {
        Some(m) => m > 0 ==> g.max <= m,
        None => true,
    }
}

/// Some requested entry answers for the grant.
pub open spec fn requested_grant(req: Seq<ReqView>, g: GrantView) -> bool {
    exists|j: int| answers_request(req, g, j)
}

proof fn lemma_unbundled_requested(req: Seq<ReqView>, role: RolePreset, n: int)
    requires
        0 <= n <= req.len(),
    ensures
        forall|i: int|
            0 <= i < grants_unbundled(req, role, n).len() ==> requested_grant(
                req,
                #[trigger] grants_unbundled(req, role, n)[i],
            ),
    decreases n,
{
    if n > 0 {
        lemma_unbundled_requested(req, role, n - 1);
        let acc = grants_unbundled(req, role, n - 1);
        let x = req[n - 1];
        if role_allows(role, x.capability, x.scope) {
            let g = grant_of(x.capability, x.scope, x.max, None);
            assert(answers_request(req, g, n - 1));
            assert forall|i: int| 0 <= i < acc.len() + 1 implies requested_grant(
                req,
                #[trigger] acc.push(g)[i],
            ) by {
                if i < acc.len() {
                    assert(acc.push(g)[i] == acc[i]);
                }
            }
        }
    }
}

proof fn lemma_bundled_requested(req: Seq<ReqView>, bf: Seq<BundleView>, n: int)
    requires
        0 <= n <= req.len(),
    ensures
        forall|i: int|
            0 <= i < grants_bundled(req, bf, n).len() ==> requested_grant(
                req,
                #[trigger] grants_bundled(req, bf, n)[i],
            ),
    decreases n,
{
    if n > 0 {
        lemma_bundled_requested(req, bf, n - 1);
        let acc = grants_bundled(req, bf, n - 1);
        let x = req[n - 1];
        match first_cover(bf, x) {
            Some(e) => {
                let g = grant_of(x.capability, x.scope, x.max, e.max);
                assert(answers_request(req, g, n - 1));
                assert forall|i: int| 0 <= i < acc.len() + 1 implies requested_grant(
                    req,
                    #[trigger] acc.push(g)[i],
                ) by {
                    if i < acc.len() {
                        assert(acc.push(g)[i] == acc[i]);
                    }
                }
            },
            None => {},
        }
    }
}

/// Nothing beyond the request: whenever the request names capabilities (or
/// the recipe has no bundle), every grant is one the request asked for, with
/// the same capability and scope and within any payload cap it gave.
pub proof fn law_grants_only_what_was_requested(recipe: Seq<char>, role: RolePreset, req: Seq<ReqView>)
    requires
        req.len() > 0 || recipe_bundle(recipe) is None,
    ensures
        forall|i: int|
            0 <= i < granted(recipe, role, req).len() ==> requested_grant(
                req,
                #[trigger] granted(recipe, role, req)[i],
            ),
{
    match recipe_bundle(recipe) {
        None => {
            lemma_unbundled_requested(req, role, req.len() as int);
        },
        Some(b) => {
            let bf = bundle_for_role(b, role, b.len() as int);
            lemma_bundled_requested(req, bf, req.len() as int);
        },
    }
}


/// A text without NUL and without two dots in a row.
pub open spec fn plain_text(s: Seq<char>) -> bool {
    forall|k: int|
        0 <= k < s.len() ==> (#[trigger] s[k]) != '\0' && (s[k] == '.' && k + 1 < s.len() ==> s[k
            + 1] != '.')
}

proof fn lemma_plain_text_clean(s: Seq<char>)
    requires
        plain_text(s),
    ensures
        !contains_sub(s, ".."@),
        !s.contains('\0'),
{
    reveal_strlit("..");
    if contains_sub(s, ".."@) {
        let i = choose|i: int| crate::text::occurs_at(s, ".."@, i);
        assert(s.subrange(i, i + 2)[0] == '.');
        assert(s.subrange(i, i + 2)[1] == '.');
        assert(s[i] == '.');
        assert(s[i + 1] == '.');
    }
}

/// The scope patterns of the recipe bundles are allowed for their
/// capabilities.
proof fn lemma_bundle_pairs_allowed()
    ensures
        hard_max("object.read"@) == MAX_OBJECT_READ_PAYLOAD_BYTES,
        hard_max("object.write"@) == MAX_OBJECT_WRITE_PAYLOAD_BYTES,
        hard_max("memory.read"@) == MAX_MEMORY_READ_PAYLOAD_BYTES,
        hard_max("memory.write"@) == MAX_MEMORY_WRITE_PAYLOAD_BYTES,
        hard_max("message.send"@) == MAX_MESSAGE_SEND_PAYLOAD_BYTES,
        hard_max("payment.send"@) == MAX_PAYMENT_SEND_PAYLOAD_BYTES,
        hard_max("llm.infer"@) == MAX_LLM_INFER_PAYLOAD_BYTES,
        hard_max("local.exec"@) == MAX_LOCAL_EXEC_PAYLOAD_BYTES,
        scope_allowed("object.read"@, "podcasts/*"@),
        scope_allowed("object.write"@, "shownotes/*"@),
        scope_allowed("message.send"@, "whitenoise:*"@),
        scope_allowed("llm.infer"@, "local:*"@),
        scope_allowed("llm.infer"@, "remote:*"@),
        scope_allowed("local.exec"@, "local.exec:file.head"@),
        scope_allowed("local.exec"@, "local.exec:file.word_count"@),
        scope_allowed("payment.send"@, "nwc:*"@),
        scope_allowed("payment.send"@, "cashu:*"@),
        scope_allowed("memory.read"@, "memory:*"@),
        scope_allowed("memory.write"@, "memory:*"@),
{
    lemma_bundle_pair_0();
    lemma_bundle_pair_1();
    lemma_bundle_pair_2();
    lemma_bundle_pair_3();
    lemma_bundle_pair_4();
    lemma_bundle_pair_5();
    lemma_bundle_pair_6();
    lemma_bundle_pair_7();
    lemma_bundle_pair_8();
    lemma_bundle_pair_9();
    lemma_bundle_pair_10();
}

proof fn lemma_bundle_pair_0()
    ensures
        scope_allowed("object.read"@, "podcasts/*"@),
        hard_max("object.read"@) == MAX_OBJECT_READ_PAYLOAD_BYTES,
{
    reveal_strlit("object.read");
    reveal_strlit("podcasts/*");
    reveal_strlit("podcasts/");
    lemma_plain_text_clean("podcasts/*"@);
    assert("podcasts/*"@.subrange(0, 9) =~= "podcasts/"@);
}

proof fn lemma_bundle_pair_1()
    ensures
        scope_allowed("object.write"@, "shownotes/*"@),
        hard_max("object.write"@) == MAX_OBJECT_WRITE_PAYLOAD_BYTES,
{
    reveal_strlit("object.read");
    reveal_strlit("object.write");
    reveal_strlit("shownotes/*");
    reveal_strlit("shownotes/");
    assert("object.read"@.len() != "object.write"@.len());
    lemma_plain_text_clean("shownotes/*"@);
    assert("shownotes/*"@.subrange(0, 10) =~= "shownotes/"@);
}

proof fn lemma_bundle_pair_2()
    ensures
        scope_allowed("message.send"@, "whitenoise:*"@),
        hard_max("message.send"@) == MAX_MESSAGE_SEND_PAYLOAD_BYTES,
{
    reveal_strlit("object.read");
    reveal_strlit("object.write");
    reveal_strlit("memory.read");
    reveal_strlit("memory.write");
    reveal_strlit("message.send");
    reveal_strlit("whitenoise:*");
    reveal_strlit("whitenoise:");
    assert("object.read"@.len() != "message.send"@.len());
    assert("object.write"@[0] != "message.send"@[0]);
    assert("memory.read"@.len() != "message.send"@.len());
    assert("memory.write"@[2] != "message.send"@[2]);
    lemma_plain_text_clean("whitenoise:*"@);
    assert("whitenoise:*"@.subrange(0, 11) =~= "whitenoise:"@);
}

proof fn lemma_bundle_pair_3()
    ensures
        scope_allowed("llm.infer"@, "local:*"@),
        hard_max("llm.infer"@) == MAX_LLM_INFER_PAYLOAD_BYTES,
{
    reveal_strlit("object.read");
    reveal_strlit("object.write");
    reveal_strlit("memory.read");
    reveal_strlit("memory.write");
    reveal_strlit("message.send");
    reveal_strlit("payment.send");
    reveal_strlit("llm.infer");
    reveal_strlit("local:*");
    reveal_strlit("local:");
    assert("object.read"@.len() != "llm.infer"@.len());
    assert("object.write"@.len() != "llm.infer"@.len());
    assert("memory.read"@.len() != "llm.infer"@.len());
    assert("memory.write"@.len() != "llm.infer"@.len());
    assert("message.send"@.len() != "llm.infer"@.len());
    assert("payment.send"@.len() != "llm.infer"@.len());
    lemma_plain_text_clean("local:*"@);
    assert("local:*"@.subrange(0, 6) =~= "local:"@);
}

proof fn lemma_bundle_pair_4()
    ensures
        scope_allowed("llm.infer"@, "remote:*"@),
        hard_max("llm.infer"@) == MAX_LLM_INFER_PAYLOAD_BYTES,
{
    reveal_strlit("object.read");
    reveal_strlit("object.write");
    reveal_strlit("memory.read");
    reveal_strlit("memory.write");
    reveal_strlit("message.send");
    reveal_strlit("payment.send");
    reveal_strlit("llm.infer");
    reveal_strlit("remote:*");
    reveal_strlit("remote:");
    assert("object.read"@.len() != "llm.infer"@.len());
    assert("object.write"@.len() != "llm.infer"@.len());
    assert("memory.read"@.len() != "llm.infer"@.len());
    assert("memory.write"@.len() != "llm.infer"@.len());
    assert("message.send"@.len() != "llm.infer"@.len());
    assert("payment.send"@.len() != "llm.infer"@.len());
    lemma_plain_text_clean("remote:*"@);
    assert("remote:*"@.subrange(0, 7) =~= "remote:"@);
}

proof fn lemma_bundle_pair_5()
    ensures
        scope_allowed("local.exec"@, "local.exec:file.head"@),
        hard_max("local.exec"@) == MAX_LOCAL_EXEC_PAYLOAD_BYTES,
{
    reveal_strlit("object.read");
    reveal_strlit("object.write");
    reveal_strlit("memory.read");
    reveal_strlit("memory.write");
    reveal_strlit("message.send");
    reveal_strlit("payment.send");
    reveal_strlit("llm.infer");
    reveal_strlit("local.exec");
    reveal_strlit("local.exec:file.head");
    reveal_strlit("local.exec:");
    assert("object.read"@.len() != "local.exec"@.len());
    assert("object.write"@.len() != "local.exec"@.len());
    assert("memory.read"@.len() != "local.exec"@.len());
    assert("memory.write"@.len() != "local.exec"@.len());
    assert("message.send"@.len() != "local.exec"@.len());
    assert("payment.send"@.len() != "local.exec"@.len());
    assert("llm.infer"@.len() != "local.exec"@.len());
    lemma_plain_text_clean("local.exec:file.head"@);
    assert("local.exec:file.head"@.subrange(0, 11) =~= "local.exec:"@);
}

proof fn lemma_bundle_pair_6()
    ensures
        scope_allowed("local.exec"@, "local.exec:file.word_count"@),
        hard_max("local.exec"@) == MAX_LOCAL_EXEC_PAYLOAD_BYTES,
{
    reveal_strlit("object.read");
    reveal_strlit("object.write");
    reveal_strlit("memory.read");
    reveal_strlit("memory.write");
    reveal_strlit("message.send");
    reveal_strlit("payment.send");
    reveal_strlit("llm.infer");
    reveal_strlit("local.exec");
    reveal_strlit("local.exec:file.word_count");
    reveal_strlit("local.exec:");
    assert("object.read"@.len() != "local.exec"@.len());
    assert("object.write"@.len() != "local.exec"@.len());
    assert("memory.read"@.len() != "local.exec"@.len());
    assert("memory.write"@.len() != "local.exec"@.len());
    assert("message.send"@.len() != "local.exec"@.len());
    assert("payment.send"@.len() != "local.exec"@.len());
    assert("llm.infer"@.len() != "local.exec"@.len());
    lemma_plain_text_clean("local.exec:file.word_count"@);
    assert("local.exec:file.word_count"@.subrange(0, 11) =~= "local.exec:"@);
}

proof fn lemma_bundle_pair_7()
    ensures
        scope_allowed("payment.send"@, "nwc:*"@),
        hard_max("payment.send"@) == MAX_PAYMENT_SEND_PAYLOAD_BYTES,
{
    reveal_strlit("object.read");
    reveal_strlit("object.write");
    reveal_strlit("memory.read");
    reveal_strlit("memory.write");
    reveal_strlit("message.send");
    reveal_strlit("payment.send");
    reveal_strlit("nwc:*");
    reveal_strlit("nwc:");
    assert("object.read"@.len() != "payment.send"@.len());
    assert("object.write"@[0] != "payment.send"@[0]);
    assert("memory.read"@.len() != "payment.send"@.len());
    assert("memory.write"@[0] != "payment.send"@[0]);
    assert("message.send"@[0] != "payment.send"@[0]);
    lemma_plain_text_clean("nwc:*"@);
    assert("nwc:*"@.subrange(0, 4) =~= "nwc:"@);
}

proof fn lemma_bundle_pair_8()
    ensures
        scope_allowed("payment.send"@, "cashu:*"@),
        hard_max("payment.send"@) == MAX_PAYMENT_SEND_PAYLOAD_BYTES,
{
    reveal_strlit("object.read");
    reveal_strlit("object.write");
    reveal_strlit("memory.read");
    reveal_strlit("memory.write");
    reveal_strlit("message.send");
    reveal_strlit("payment.send");
    reveal_strlit("cashu:*");
    reveal_strlit("cashu:");
    assert("object.read"@.len() != "payment.send"@.len());
    assert("object.write"@[0] != "payment.send"@[0]);
    assert("memory.read"@.len() != "payment.send"@.len());
    assert("memory.write"@[0] != "payment.send"@[0]);
    assert("message.send"@[0] != "payment.send"@[0]);
    lemma_plain_text_clean("cashu:*"@);
    assert("cashu:*"@.subrange(0, 6) =~= "cashu:"@);
}

proof fn lemma_bundle_pair_9()
    ensures
        scope_allowed("memory.read"@, "memory:*"@),
        hard_max("memory.read"@) == MAX_MEMORY_READ_PAYLOAD_BYTES,
{
    reveal_strlit("object.read");
    reveal_strlit("object.write");
    reveal_strlit("memory.read");
    reveal_strlit("memory:*");
    reveal_strlit("memory:");
    assert("object.read"@[0] != "memory.read"@[0]);
    assert("object.write"@.len() != "memory.read"@.len());
    lemma_plain_text_clean("memory:*"@);
    assert("memory:*"@.subrange(0, 7) =~= "memory:"@);
}

proof fn lemma_bundle_pair_10()
    ensures
        scope_allowed("memory.write"@, "memory:*"@),
        hard_max("memory.write"@) == MAX_MEMORY_WRITE_PAYLOAD_BYTES,
{
    reveal_strlit("object.read");
    reveal_strlit("object.write");
    reveal_strlit("memory.read");
    reveal_strlit("memory.write");
    reveal_strlit("memory:*");
    reveal_strlit("memory:");
    assert("object.read"@.len() != "memory.write"@.len());
    assert("object.write"@[0] != "memory.write"@[0]);
    assert("memory.read"@.len() != "memory.write"@.len());
    lemma_plain_text_clean("memory:*"@);
    assert("memory:*"@.subrange(0, 7) =~= "memory:"@);
}

/// Every recipe bundle names at least one capability, and each entry's
/// scope pattern is allowed for its capability, with exactly the
/// capability's hard cap, which is above zero.
pub proof fn law_recipe_bundles_are_allowed(recipe: Seq<char>)
    ensures
        recipe_bundle(recipe) matches Some(b) ==> b.len() > 0 && forall|i: int|
            0 <= i < b.len() ==> {
                &&& scope_allowed((#[trigger] b[i]).capability, b[i].scope)
                &&& b[i].max == Some(hard_max(b[i].capability))
                &&& hard_max(b[i].capability) > 0
            },
{
    lemma_bundle_pairs_allowed();
    if let Some(b) = recipe_bundle(recipe) {
        assert forall|i: int| 0 <= i < b.len() implies {
            &&& scope_allowed((#[trigger] b[i]).capability, b[i].scope)
            &&& b[i].max == Some(hard_max(b[i].capability))
            &&& hard_max(b[i].capability) > 0
        } by {
            assert(i == 0 || i == 1 || i == 2 || i == 3 || i == 4);
        }
    }
}

/// A requested entry whose scope is allowed for its capability.
pub open spec fn req_allowed(x: ReqView) -> bool {
    scope_allowed(x.capability, x.scope)
}

/// A grant whose scope is allowed for its capability and whose payload cap
/// is above zero.
pub open spec fn grant_allowed(g: GrantView) -> bool {
    scope_allowed(g.capability, g.scope) && g.max > 0
}

/// Default deny for one grant: a known capability on an allowed scope
/// (never `db.query`, `http.request` or an unknown name), one the role may
/// hold, with a payload cap above zero and within the capability's hard
/// cap.
pub open spec fn default_deny_ok(role: RolePreset, g: GrantView) -> bool {
    &&& scope_allowed(g.capability, g.scope)
    &&& role_allows(role, g.capability, g.scope)
    &&& 0 < g.max <= hard_max(g.capability)
}

proof fn lemma_allowed_cap_positive(cap: Seq<char>, scope: Seq<char>)
    requires
        scope_allowed(cap, scope),
    ensures
        hard_max(cap) > 0,
{
}

proof fn lemma_parsed_allowed(items: Seq<JsonValue>, n: int, req: Seq<ReqView>)
    requires
        parse_prefix(items, n) == Ok::<Seq<ReqView>, ErrView>(req),
    ensures
        forall|j: int| 0 <= j < req.len() ==> req_allowed(#[trigger] req[j]),
    decreases n,
{
    if n > 0 {
        let acc = parse_prefix(items, n - 1)->Ok_0;
        assert(parse_prefix(items, n - 1) is Ok);
        lemma_parsed_allowed(items, n - 1, acc);
        if let Ok(Some(x)) = parse_item(items[n - 1]) {
            assert(req == acc.push(x));
            assert forall|j: int| 0 <= j < req.len() implies req_allowed(#[trigger] req[j]) by {
                if j < acc.len() {
                    assert(acc.push(x)[j] == acc[j]);
                }
            }
        } else {
            assert(req == acc);
        }
    }
}

proof fn lemma_unbundled_deny(req: Seq<ReqView>, role: RolePreset, n: int)
    requires
        0 <= n <= req.len(),
        forall|j: int| 0 <= j < req.len() ==> req_allowed(#[trigger] req[j]),
    ensures
        forall|i: int|
            0 <= i < grants_unbundled(req, role, n).len() ==> grant_allowed(
                #[trigger] grants_unbundled(req, role, n)[i],
            ),
    decreases n,
{
    if n > 0 {
        lemma_unbundled_deny(req, role, n - 1);
        let acc = grants_unbundled(req, role, n - 1);
        let x = req[n - 1];
        if role_allows(role, x.capability, x.scope) {
            assert(req_allowed(req[n - 1]));
            lemma_allowed_cap_positive(x.capability, x.scope);
            let g = grant_of(x.capability, x.scope, x.max, None);
            assert forall|i: int| 0 <= i < acc.len() + 1 implies grant_allowed(
                #[trigger] acc.push(g)[i],
            ) by {
                if i < acc.len() {
                    assert(acc.push(g)[i] == acc[i]);
                }
            }
        }
    }
}

/// A bundle entry with a payload cap above zero.
pub open spec fn bundle_cap_positive(e: BundleView) -> bool {
    e.max matches Some(m) && m > 0
}

proof fn lemma_bundled_deny(req: Seq<ReqView>, bf: Seq<BundleView>, n: int)
    requires
        0 <= n <= req.len(),
        forall|j: int| 0 <= j < req.len() ==> req_allowed(#[trigger] req[j]),
        forall|k: int| 0 <= k < bf.len() ==> bundle_cap_positive(#[trigger] bf[k]),
    ensures
        forall|i: int|
            0 <= i < grants_bundled(req, bf, n).len() ==> grant_allowed(
                #[trigger] grants_bundled(req, bf, n)[i],
            ),
    decreases n,
{
    if n > 0 {
        lemma_bundled_deny(req, bf, n - 1);
        let acc = grants_bundled(req, bf, n - 1);
        let x = req[n - 1];
        if let Some(e) = first_cover(bf, x) {
            let k = choose|k: int| cover_pos(bf, x, k);
            assert(e == bf[k]);
            assert(bundle_cap_positive(bf[k]));
            assert(req_allowed(req[n - 1]));
            lemma_allowed_cap_positive(x.capability, x.scope);
            let g = grant_of(x.capability, x.scope, x.max, e.max);
            assert forall|i: int| 0 <= i < acc.len() + 1 implies grant_allowed(
                #[trigger] acc.push(g)[i],
            ) by {
                if i < acc.len() {
                    assert(acc.push(g)[i] == acc[i]);
                }
            }
        }
    }
}

/// Default deny, in full: for any value that parses as a list of requested
/// capabilities, every capability granted for any recipe and role names a
/// known capability on a scope allowed for it (so `db.query`,
/// `http.request` and unknown names are never granted), is one the role may
/// hold, and carries a payload cap above zero and within the capability's
/// hard cap.
pub proof fn law_default_deny(recipe: Seq<char>, role: RolePreset, v: JsonValue, req: Seq<ReqView>)
    requires
        parse_requested(v) == Ok::<Seq<ReqView>, ErrView>(req),
    ensures
        forall|i: int|
            0 <= i < granted(recipe, role, req).len() ==> default_deny_ok(
                role,
                #[trigger] granted(recipe, role, req)[i],
            ),
{
    let items = v->Array_0@;
    assert(parse_prefix(items, items.len() as int) == Ok::<Seq<ReqView>, ErrView>(req));
    lemma_parsed_allowed(items, items.len() as int, req);
    assert(forall|j: int| 0 <= j < req.len() ==> req_allowed(#[trigger] req[j]));
    law_grants_respect_role_and_caps(recipe, role, req);
    let gs = granted(recipe, role, req);
    assert(forall|i: int| 0 <= i < gs.len() ==> grant_allowed(#[trigger] gs[i])) by {
        match recipe_bundle(recipe) {
            None => {
                lemma_unbundled_deny(req, role, req.len() as int);
            },
            Some(b) => {
                law_recipe_bundles_are_allowed(recipe);
                let bf = bundle_for_role(b, role, b.len() as int);
                lemma_bundle_for_role(b, role, b.len() as int);
                assert forall|k: int| 0 <= k < bf.len() implies bundle_cap_positive(#[trigger] bf[k])
                    && scope_allowed(bf[k].capability, bf[k].scope) by {
                    assert(b.contains(bf[k]));
                    let j = choose|j: int| 0 <= j < b.len() && b[j] == bf[k];
                    assert(scope_allowed(b[j].capability, b[j].scope));
                }
                if req.len() == 0 {
                    assert forall|i: int| 0 <= i < gs.len() implies grant_allowed(#[trigger] gs[i]) by {
                        assert(bundle_cap_positive(bf[i]));
                        lemma_allowed_cap_positive(bf[i].capability, bf[i].scope);
                    }
                } else {
                    lemma_bundled_deny(req, bf, req.len() as int);
                }
            },
        }
    }
    assert forall|i: int| 0 <= i < gs.len() implies default_deny_ok(role, #[trigger] gs[i]) by {
        assert(grant_allowed(gs[i]));
    }
}

proof fn lemma_dotted_name_0()
    ensures
        capability_of("object.read"@) == Some("object.read"@),
{
    reveal_strlit("object.read");
    crate::text::lemma_norm_key_of_plain("object.read"@);
}

proof fn lemma_dotted_name_1()
    ensures
        capability_of("object.write"@) == Some("object.write"@),
{
    reveal_strlit("object.read");
    reveal_strlit("object_read");
    reveal_strlit("object.write");
    crate::text::lemma_norm_key_of_plain("object.write"@);
    assert("object.read"@.len() != "object.write"@.len());
    assert("object_read"@.len() != "object.write"@.len());
}

proof fn lemma_dotted_name_2()
    ensures
        capability_of("memory.read"@) == Some("memory.read"@),
{
    reveal_strlit("object.read");
    reveal_strlit("object_read");
    reveal_strlit("object.write");
    reveal_strlit("object_write");
    reveal_strlit("memory.read");
    crate::text::lemma_norm_key_of_plain("memory.read"@);
    assert("object.read"@[0] != "memory.read"@[0]);
    assert("object_read"@[0] != "memory.read"@[0]);
    assert("object.write"@.len() != "memory.read"@.len());
    assert("object_write"@.len() != "memory.read"@.len());
}

proof fn lemma_dotted_name_3()
    ensures
        capability_of("memory.write"@) == Some("memory.write"@),
{
    reveal_strlit("object.read");
    reveal_strlit("object_read");
    reveal_strlit("object.write");
    reveal_strlit("object_write");
    reveal_strlit("memory.read");
    reveal_strlit("memory_read");
    reveal_strlit("memory.write");
    crate::text::lemma_norm_key_of_plain("memory.write"@);
    assert("object.read"@.len() != "memory.write"@.len());
    assert("object_read"@.len() != "memory.write"@.len());
    assert("object.write"@[0] != "memory.write"@[0]);
    assert("object_write"@[0] != "memory.write"@[0]);
    assert("memory.read"@.len() != "memory.write"@.len());
    assert("memory_read"@.len() != "memory.write"@.len());
}

proof fn lemma_dotted_name_4()
    ensures
        capability_of("message.send"@) == Some("message.send"@),
{
    reveal_strlit("object.read");
    reveal_strlit("object_read");
    reveal_strlit("object.write");
    reveal_strlit("object_write");
    reveal_strlit("memory.read");
    reveal_strlit("memory_read");
    reveal_strlit("memory.write");
    reveal_strlit("memory_write");
    reveal_strlit("message.send");
    crate::text::lemma_norm_key_of_plain("message.send"@);
    assert("object.read"@.len() != "message.send"@.len());
    assert("object_read"@.len() != "message.send"@.len());
    assert("object.write"@[0] != "message.send"@[0]);
    assert("object_write"@[0] != "message.send"@[0]);
    assert("memory.read"@.len() != "message.send"@.len());
    assert("memory_read"@.len() != "message.send"@.len());
    assert("memory.write"@[2] != "message.send"@[2]);
    assert("memory_write"@[2] != "message.send"@[2]);
}

proof fn lemma_dotted_name_5()
    ensures
        capability_of("payment.send"@) == Some("payment.send"@),
{
    reveal_strlit("object.read");
    reveal_strlit("object_read");
    reveal_strlit("object.write");
    reveal_strlit("object_write");
    reveal_strlit("memory.read");
    reveal_strlit("memory_read");
    reveal_strlit("memory.write");
    reveal_strlit("memory_write");
    reveal_strlit("message.send");
    reveal_strlit("message_send");
    reveal_strlit("payment.send");
    crate::text::lemma_norm_key_of_plain("payment.send"@);
    assert("object.read"@.len() != "payment.send"@.len());
    assert("object_read"@.len() != "payment.send"@.len());
    assert("object.write"@[0] != "payment.send"@[0]);
    assert("object_write"@[0] != "payment.send"@[0]);
    assert("memory.read"@.len() != "payment.send"@.len());
    assert("memory_read"@.len() != "payment.send"@.len());
    assert("memory.write"@[0] != "payment.send"@[0]);
    assert("memory_write"@[0] != "payment.send"@[0]);
    assert("message.send"@[0] != "payment.send"@[0]);
    assert("message_send"@[0] != "payment.send"@[0]);
}

proof fn lemma_dotted_name_6()
    ensures
        capability_of("llm.infer"@) == Some("llm.infer"@),
{
    reveal_strlit("object.read");
    reveal_strlit("object_read");
    reveal_strlit("object.write");
    reveal_strlit("object_write");
    reveal_strlit("memory.read");
    reveal_strlit("memory_read");
    reveal_strlit("memory.write");
    reveal_strlit("memory_write");
    reveal_strlit("message.send");
    reveal_strlit("message_send");
    reveal_strlit("payment.send");
    reveal_strlit("payment_send");
    reveal_strlit("llm.infer");
    crate::text::lemma_norm_key_of_plain("llm.infer"@);
    assert("object.read"@.len() != "llm.infer"@.len());
    assert("object_read"@.len() != "llm.infer"@.len());
    assert("object.write"@.len() != "llm.infer"@.len());
    assert("object_write"@.len() != "llm.infer"@.len());
    assert("memory.read"@.len() != "llm.infer"@.len());
    assert("memory_read"@.len() != "llm.infer"@.len());
    assert("memory.write"@.len() != "llm.infer"@.len());
    assert("memory_write"@.len() != "llm.infer"@.len());
    assert("message.send"@.len() != "llm.infer"@.len());
    assert("message_send"@.len() != "llm.infer"@.len());
    assert("payment.send"@.len() != "llm.infer"@.len());
    assert("payment_send"@.len() != "llm.infer"@.len());
}

proof fn lemma_dotted_name_7()
    ensures
        capability_of("local.exec"@) == Some("local.exec"@),
{
    reveal_strlit("object.read");
    reveal_strlit("object_read");
    reveal_strlit("object.write");
    reveal_strlit("object_write");
    reveal_strlit("memory.read");
    reveal_strlit("memory_read");
    reveal_strlit("memory.write");
    reveal_strlit("memory_write");
    reveal_strlit("message.send");
    reveal_strlit("message_send");
    reveal_strlit("payment.send");
    reveal_strlit("payment_send");
    reveal_strlit("llm.infer");
    reveal_strlit("llm_infer");
    reveal_strlit("local.exec");
    crate::text::lemma_norm_key_of_plain("local.exec"@);
    assert("object.read"@.len() != "local.exec"@.len());
    assert("object_read"@.len() != "local.exec"@.len());
    assert("object.write"@.len() != "local.exec"@.len());
    assert("object_write"@.len() != "local.exec"@.len());
    assert("memory.read"@.len() != "local.exec"@.len());
    assert("memory_read"@.len() != "local.exec"@.len());
    assert("memory.write"@.len() != "local.exec"@.len());
    assert("memory_write"@.len() != "local.exec"@.len());
    assert("message.send"@.len() != "local.exec"@.len());
    assert("message_send"@.len() != "local.exec"@.len());
    assert("payment.send"@.len() != "local.exec"@.len());
    assert("payment_send"@.len() != "local.exec"@.len());
    assert("llm.infer"@.len() != "local.exec"@.len());
    assert("llm_infer"@.len() != "local.exec"@.len());
}

proof fn lemma_dotted_name_8()
    ensures
        capability_of("db.query"@) == Some("db.query"@),
{
    reveal_strlit("object.read");
    reveal_strlit("object_read");
    reveal_strlit("object.write");
    reveal_strlit("object_write");
    reveal_strlit("memory.read");
    reveal_strlit("memory_read");
    reveal_strlit("memory.write");
    reveal_strlit("memory_write");
    reveal_strlit("message.send");
    reveal_strlit("message_send");
    reveal_strlit("payment.send");
    reveal_strlit("payment_send");
    reveal_strlit("llm.infer");
    reveal_strlit("llm_infer");
    reveal_strlit("local.exec");
    reveal_strlit("local_exec");
    reveal_strlit("db.query");
    crate::text::lemma_norm_key_of_plain("db.query"@);
    assert("object.read"@.len() != "db.query"@.len());
    assert("object_read"@.len() != "db.query"@.len());
    assert("object.write"@.len() != "db.query"@.len());
    assert("object_write"@.len() != "db.query"@.len());
    assert("memory.read"@.len() != "db.query"@.len());
    assert("memory_read"@.len() != "db.query"@.len());
    assert("memory.write"@.len() != "db.query"@.len());
    assert("memory_write"@.len() != "db.query"@.len());
    assert("message.send"@.len() != "db.query"@.len());
    assert("message_send"@.len() != "db.query"@.len());
    assert("payment.send"@.len() != "db.query"@.len());
    assert("payment_send"@.len() != "db.query"@.len());
    assert("llm.infer"@.len() != "db.query"@.len());
    assert("llm_infer"@.len() != "db.query"@.len());
    assert("local.exec"@.len() != "db.query"@.len());
    assert("local_exec"@.len() != "db.query"@.len());
}

proof fn lemma_dotted_name_9()
    ensures
        capability_of("http.request"@) == Some("http.request"@),
{
    reveal_strlit("object.read");
    reveal_strlit("object_read");
    reveal_strlit("object.write");
    reveal_strlit("object_write");
    reveal_strlit("memory.read");
    reveal_strlit("memory_read");
    reveal_strlit("memory.write");
    reveal_strlit("memory_write");
    reveal_strlit("message.send");
    reveal_strlit("message_send");
    reveal_strlit("payment.send");
    reveal_strlit("payment_send");
    reveal_strlit("llm.infer");
    reveal_strlit("llm_infer");
    reveal_strlit("local.exec");
    reveal_strlit("local_exec");
    reveal_strlit("db.query");
    reveal_strlit("db_query");
    reveal_strlit("http.request");
    crate::text::lemma_norm_key_of_plain("http.request"@);
    assert("object.read"@.len() != "http.request"@.len());
    assert("object_read"@.len() != "http.request"@.len());
    assert("object.write"@[0] != "http.request"@[0]);
    assert("object_write"@[0] != "http.request"@[0]);
    assert("memory.read"@.len() != "http.request"@.len());
    assert("memory_read"@.len() != "http.request"@.len());
    assert("memory.write"@[0] != "http.request"@[0]);
    assert("memory_write"@[0] != "http.request"@[0]);
    assert("message.send"@[0] != "http.request"@[0]);
    assert("message_send"@[0] != "http.request"@[0]);
    assert("payment.send"@[0] != "http.request"@[0]);
    assert("payment_send"@[0] != "http.request"@[0]);
    assert("llm.infer"@.len() != "http.request"@.len());
    assert("llm_infer"@.len() != "http.request"@.len());
    assert("local.exec"@.len() != "http.request"@.len());
    assert("local_exec"@.len() != "http.request"@.len());
    assert("db.query"@.len() != "http.request"@.len());
    assert("db_query"@.len() != "http.request"@.len());
}

/// Capability names: only the ten dotted names come out of normalization,
/// each of them normalizes to itself, and the result depends only on the
/// trimmed, lower-cased text.
pub proof fn law_capability_names_are_canonical(raw: Seq<char>)
    ensures
        capability_of(raw) == capability_of(norm_key(raw)),
        capability_of(raw) matches Some(c) ==> capability_of(c) == Some(c) && (c == "object.read"@
            || c == "object.write"@ || c == "memory.read"@ || c == "memory.write"@ || c
            == "message.send"@ || c == "payment.send"@ || c == "llm.infer"@ || c == "local.exec"@
            || c == "db.query"@ || c == "http.request"@),
{
    crate::text::lemma_norm_key_idempotent(raw);
    lemma_dotted_name_0();
    lemma_dotted_name_1();
    lemma_dotted_name_2();
    lemma_dotted_name_3();
    lemma_dotted_name_4();
    lemma_dotted_name_5();
    lemma_dotted_name_6();
    lemma_dotted_name_7();
    lemma_dotted_name_8();
    lemma_dotted_name_9();
}

/// Roles by privilege: viewer, then operator, then owner.
pub open spec fn role_rank(r: RolePreset) -> int {
    match r {
        RolePreset::Viewer => 0,
        RolePreset::Operator => 1,
        RolePreset::Owner => 2,
    }
}

/// `idx` places each item of `a`, in order, at a position of `b` holding
/// the same item.
pub open spec fn embeds<T>(a: Seq<T>, b: Seq<T>, idx: Seq<int>) -> bool {
    &&& idx.len() == a.len()
    &&& forall|i: int| 0 <= i < idx.len() ==> 0 <= #[trigger] idx[i] < b.len() && a[i] == b[idx[i]]
    &&& forall|i: int, j: int| 0 <= i < j < idx.len() ==> #[trigger] idx[i] < #[trigger] idx[j]
}

/// `a` is a subsequence of `b`.
pub open spec fn is_subsequence<T>(a: Seq<T>, b: Seq<T>) -> bool {
    exists|idx: Seq<int>| embeds(a, b, idx)
}

proof fn lemma_role_allows_monotone(r1: RolePreset, r2: RolePreset, cap: Seq<char>, scope: Seq<char>)
    requires
        role_rank(r1) <= role_rank(r2),
        role_allows(r1, cap, scope),
    ensures
        role_allows(r2, cap, scope),
{
    reveal_strlit("object.read");
    reveal_strlit("llm.infer");
    reveal_strlit("local.exec");
    assert("object.read"@.len() != "local.exec"@.len());
    assert("llm.infer"@.len() != "local.exec"@.len());
}

proof fn lemma_embed_push<T>(a: Seq<T>, b: Seq<T>, idx: Seq<int>, x: T)
    requires
        embeds(a, b, idx),
    ensures
        embeds(a.push(x), b.push(x), idx.push(b.len() as int)),
        embeds(a, b.push(x), idx),
{
    let i2 = idx.push(b.len() as int);
    assert forall|i: int| 0 <= i < i2.len() implies 0 <= #[trigger] i2[i] < b.len() + 1 && a.push(x)[i]
        == b.push(x)[i2[i]] by {
        if i < idx.len() {
            assert(i2[i] == idx[i]);
        }
    }
    assert forall|i: int, j: int| 0 <= i < j < i2.len() implies #[trigger] i2[i] < #[trigger] i2[j] by {
        if j < idx.len() {
            assert(i2[i] == idx[i] && i2[j] == idx[j]);
        } else {
            assert(i2[i] == idx[i]);
        }
    }
    assert forall|i: int| 0 <= i < idx.len() implies 0 <= #[trigger] idx[i] < b.len() + 1 && a[i]
        == b.push(x)[idx[i]] by {
    }
}

proof fn lemma_unbundled_sub(req: Seq<ReqView>, r1: RolePreset, r2: RolePreset, n: int) -> (idx: Seq<int>)
    requires
        0 <= n <= req.len(),
        role_rank(r1) <= role_rank(r2),
    ensures
        embeds(grants_unbundled(req, r1, n), grants_unbundled(req, r2, n), idx),
    decreases n,
{
    if n <= 0 {
        Seq::empty()
    } else {
        let idx = lemma_unbundled_sub(req, r1, r2, n - 1);
        let a = grants_unbundled(req, r1, n - 1);
        let b = grants_unbundled(req, r2, n - 1);
        let x = req[n - 1];
        let g = grant_of(x.capability, x.scope, x.max, None);
        if role_allows(r1, x.capability, x.scope) {
            lemma_role_allows_monotone(r1, r2, x.capability, x.scope);
            lemma_embed_push(a, b, idx, g);
            idx.push(b.len() as int)
        } else if role_allows(r2, x.capability, x.scope) {
            lemma_embed_push(a, b, idx, g);
            idx
        } else {
            idx
        }
    }
}

proof fn lemma_bundle_for_role_sub(b: Seq<BundleView>, r1: RolePreset, r2: RolePreset, n: int) -> (idx: Seq<int>)
    requires
        0 <= n <= b.len(),
        role_rank(r1) <= role_rank(r2),
    ensures
        embeds(bundle_for_role(b, r1, n), bundle_for_role(b, r2, n), idx),
    decreases n,
{
    if n <= 0 {
        Seq::empty()
    } else {
        let idx = lemma_bundle_for_role_sub(b, r1, r2, n - 1);
        let a = bundle_for_role(b, r1, n - 1);
        let c = bundle_for_role(b, r2, n - 1);
        let e = b[n - 1];
        if role_allows(r1, e.capability, e.scope) {
            lemma_role_allows_monotone(r1, r2, e.capability, e.scope);
            lemma_embed_push(a, c, idx, e);
            idx.push(c.len() as int)
        } else if role_allows(r2, e.capability, e.scope) {
            lemma_embed_push(a, c, idx, e);
            idx
        } else {
            idx
        }
    }
}

/// Bundle entries carry the hard cap of their capability.
pub open spec fn entry_hard_capped(e: BundleView) -> bool {
    e.max == Some(hard_max(e.capability))
}

proof fn lemma_bundled_sub(req: Seq<ReqView>, bf1: Seq<BundleView>, bf2: Seq<BundleView>, emb: Seq<int>, n: int) -> (idx: Seq<int>)
    requires
        0 <= n <= req.len(),
        embeds(bf1, bf2, emb),
        forall|k: int| 0 <= k < bf2.len() ==> entry_hard_capped(#[trigger] bf2[k]),
    ensures
        embeds(grants_bundled(req, bf1, n), grants_bundled(req, bf2, n), idx),
    decreases n,
{
    if n <= 0 {
        Seq::empty()
    } else {
        let idx = lemma_bundled_sub(req, bf1, bf2, emb, n - 1);
        let a = grants_bundled(req, bf1, n - 1);
        let c = grants_bundled(req, bf2, n - 1);
        let x = req[n - 1];
        match first_cover(bf1, x) {
            Some(e1) => {
                let k1 = choose|k: int| cover_pos(bf1, x, k);
                assert(e1 == bf1[k1]);
                let k2 = emb[k1];
                assert(bf2[k2] == e1);
                assert(cover_pos(bf2, x, k2) || exists|i: int| cover_pos(bf2, x, i)) by {
                    lemma_first_cover_exists(bf2, x, k2);
                }
                assert(exists|i: int| cover_pos(bf2, x, i));
                let e2 = first_cover(bf2, x)->Some_0;
                let k3 = choose|k: int| cover_pos(bf2, x, k);
                assert(e2 == bf2[k3]);
                assert(entry_hard_capped(bf2[k2]) && entry_hard_capped(bf2[k3]));
                assert(e1.max == e2.max);
                let g = grant_of(x.capability, x.scope, x.max, e1.max);
                lemma_embed_push(a, c, idx, g);
                idx.push(c.len() as int)
            },
            None => {
                match first_cover(bf2, x) {
                    Some(e2) => {
                        let g = grant_of(x.capability, x.scope, x.max, e2.max);
                        lemma_embed_push(a, c, idx, g);
                        idx
                    },
                    None => idx,
                }
            },
        }
    }
}

/// Where some entry covers `x`, a first one does.
proof fn lemma_first_cover_exists(bf: Seq<BundleView>, x: ReqView, k: int)
    requires
        0 <= k < bf.len(),
        covers(bf[k], x),
    ensures
        exists|i: int| cover_pos(bf, x, i),
    decreases k,
{
    if forall|m: int| 0 <= m < k ==> !covers(bf[m], x) {
        assert(cover_pos(bf, x, k));
    } else {
        let m = choose|m: int| 0 <= m < k && covers(bf[m], x);
        lemma_first_cover_exists(bf, x, m);
    }
}

/// Privilege is monotone: for one recipe and one request, what a less
/// privileged role is granted is a subsequence (same grants, same order) of
/// what a more privileged role is granted; a viewer never receives a grant
/// that an operator does not, nor an operator one that an owner does not.
pub proof fn law_grants_grow_with_privilege(recipe: Seq<char>, r1: RolePreset, r2: RolePreset, req: Seq<ReqView>)
    requires
        role_rank(r1) <= role_rank(r2),
    ensures
        is_subsequence(granted(recipe, r1, req), granted(recipe, r2, req)),
{
    match recipe_bundle(recipe) {
        None => {
            let idx = lemma_unbundled_sub(req, r1, r2, req.len() as int);
            assert(embeds(granted(recipe, r1, req), granted(recipe, r2, req), idx));
        },
        Some(b) => {
            let bf1 = bundle_for_role(b, r1, b.len() as int);
            let bf2 = bundle_for_role(b, r2, b.len() as int);
            let emb = lemma_bundle_for_role_sub(b, r1, r2, b.len() as int);
            if req.len() == 0 {
                let f = |e: BundleView| grant_of(e.capability, e.scope, None, e.max);
                let g1 = bf1.map_values(f);
                let g2 = bf2.map_values(f);
                assert(embeds(g1, g2, emb)) by {
                    assert forall|i: int| 0 <= i < emb.len() implies 0 <= #[trigger] emb[i] < g2.len() && g1[i]
                        == g2[emb[i]] by {
                        assert(bf1[i] == bf2[emb[i]]);
                    }
                }
                assert(granted(recipe, r1, req) == g1);
                assert(granted(recipe, r2, req) == g2);
            } else {
                law_recipe_bundles_are_allowed(recipe);
                lemma_bundle_for_role(b, r2, b.len() as int);
                assert forall|k: int| 0 <= k < bf2.len() implies entry_hard_capped(#[trigger] bf2[k]) by {
                    assert(b.contains(bf2[k]));
                    let j = choose|j: int| 0 <= j < b.len() && b[j] == bf2[k];
                    assert(b[j].max == Some(hard_max(b[j].capability)));
                }
                let idx = lemma_bundled_sub(req, bf1, bf2, emb, req.len() as int);
                assert(embeds(granted(recipe, r1, req), granted(recipe, r2, req), idx));
            }
        },
    }
}

/// Each capability is known by its dotted name and by the same name with
/// an underscore, trimmed and in any ASCII case; both spellings normalize to
/// the dotted name.
pub proof fn law_capability_spellings(raw: Seq<char>)
    ensures
        norm_key(raw) == "object.read"@ ==> capability_of(raw) == Some("object.read"@),
        norm_key(raw) == "object_read"@ ==> capability_of(raw) == Some("object.read"@),
        norm_key(raw) == "object.write"@ ==> capability_of(raw) == Some("object.write"@),
        norm_key(raw) == "object_write"@ ==> capability_of(raw) == Some("object.write"@),
        norm_key(raw) == "memory.read"@ ==> capability_of(raw) == Some("memory.read"@),
        norm_key(raw) == "memory_read"@ ==> capability_of(raw) == Some("memory.read"@),
        norm_key(raw) == "memory.write"@ ==> capability_of(raw) == Some("memory.write"@),
        norm_key(raw) == "memory_write"@ ==> capability_of(raw) == Some("memory.write"@),
        norm_key(raw) == "message.send"@ ==> capability_of(raw) == Some("message.send"@),
        norm_key(raw) == "message_send"@ ==> capability_of(raw) == Some("message.send"@),
        norm_key(raw) == "payment.send"@ ==> capability_of(raw) == Some("payment.send"@),
        norm_key(raw) == "payment_send"@ ==> capability_of(raw) == Some("payment.send"@),
        norm_key(raw) == "llm.infer"@ ==> capability_of(raw) == Some("llm.infer"@),
        norm_key(raw) == "llm_infer"@ ==> capability_of(raw) == Some("llm.infer"@),
        norm_key(raw) == "local.exec"@ ==> capability_of(raw) == Some("local.exec"@),
        norm_key(raw) == "local_exec"@ ==> capability_of(raw) == Some("local.exec"@),
        norm_key(raw) == "db.query"@ ==> capability_of(raw) == Some("db.query"@),
        norm_key(raw) == "db_query"@ ==> capability_of(raw) == Some("db.query"@),
        norm_key(raw) == "http.request"@ ==> capability_of(raw) == Some("http.request"@),
        norm_key(raw) == "http_request"@ ==> capability_of(raw) == Some("http.request"@),
{
    reveal_strlit("object.read");
    reveal_strlit("object_read");
    reveal_strlit("object.write");
    reveal_strlit("object_write");
    reveal_strlit("memory.read");
    reveal_strlit("memory_read");
    reveal_strlit("memory.write");
    reveal_strlit("memory_write");
    reveal_strlit("message.send");
    reveal_strlit("message_send");
    reveal_strlit("payment.send");
    reveal_strlit("payment_send");
    reveal_strlit("llm.infer");
    reveal_strlit("llm_infer");
    reveal_strlit("local.exec");
    reveal_strlit("local_exec");
    reveal_strlit("db.query");
    reveal_strlit("db_query");
    reveal_strlit("http.request");
    reveal_strlit("http_request");
    assert("object.read"@[6] != "object_read"@[6]);
    assert("object.read"@.len() != "object.write"@.len());
    assert("object_read"@.len() != "object.write"@.len());
    assert("object.read"@.len() != "object_write"@.len());
    assert("object_read"@.len() != "object_write"@.len());
    assert("object.write"@[6] != "object_write"@[6]);
    assert("object.read"@[0] != "memory.read"@[0]);
    assert("object_read"@[0] != "memory.read"@[0]);
    assert("object.write"@.len() != "memory.read"@.len());
    assert("object_write"@.len() != "memory.read"@.len());
    assert("object.read"@[0] != "memory_read"@[0]);
    assert("object_read"@[0] != "memory_read"@[0]);
    assert("object.write"@.len() != "memory_read"@.len());
    assert("object_write"@.len() != "memory_read"@.len());
    assert("memory.read"@[6] != "memory_read"@[6]);
    assert("object.read"@.len() != "memory.write"@.len());
    assert("object_read"@.len() != "memory.write"@.len());
    assert("object.write"@[0] != "memory.write"@[0]);
    assert("object_write"@[0] != "memory.write"@[0]);
    assert("memory.read"@.len() != "memory.write"@.len());
    assert("memory_read"@.len() != "memory.write"@.len());
    assert("object.read"@.len() != "memory_write"@.len());
    assert("object_read"@.len() != "memory_write"@.len());
    assert("object.write"@[0] != "memory_write"@[0]);
    assert("object_write"@[0] != "memory_write"@[0]);
    assert("memory.read"@.len() != "memory_write"@.len());
    assert("memory_read"@.len() != "memory_write"@.len());
    assert("memory.write"@[6] != "memory_write"@[6]);
    assert("object.read"@.len() != "message.send"@.len());
    assert("object_read"@.len() != "message.send"@.len());
    assert("object.write"@[0] != "message.send"@[0]);
    assert("object_write"@[0] != "message.send"@[0]);
    assert("memory.read"@.len() != "message.send"@.len());
    assert("memory_read"@.len() != "message.send"@.len());
    assert("memory.write"@[2] != "message.send"@[2]);
    assert("memory_write"@[2] != "message.send"@[2]);
    assert("object.read"@.len() != "message_send"@.len());
    assert("object_read"@.len() != "message_send"@.len());
    assert("object.write"@[0] != "message_send"@[0]);
    assert("object_write"@[0] != "message_send"@[0]);
    assert("memory.read"@.len() != "message_send"@.len());
    assert("memory_read"@.len() != "message_send"@.len());
    assert("memory.write"@[2] != "message_send"@[2]);
    assert("memory_write"@[2] != "message_send"@[2]);
    assert("message.send"@[7] != "message_send"@[7]);
    assert("object.read"@.len() != "payment.send"@.len());
    assert("object_read"@.len() != "payment.send"@.len());
    assert("object.write"@[0] != "payment.send"@[0]);
    assert("object_write"@[0] != "payment.send"@[0]);
    assert("memory.read"@.len() != "payment.send"@.len());
    assert("memory_read"@.len() != "payment.send"@.len());
    assert("memory.write"@[0] != "payment.send"@[0]);
    assert("memory_write"@[0] != "payment.send"@[0]);
    assert("message.send"@[0] != "payment.send"@[0]);
    assert("message_send"@[0] != "payment.send"@[0]);
    assert("object.read"@.len() != "payment_send"@.len());
    assert("object_read"@.len() != "payment_send"@.len());
    assert("object.write"@[0] != "payment_send"@[0]);
    assert("object_write"@[0] != "payment_send"@[0]);
    assert("memory.read"@.len() != "payment_send"@.len());
    assert("memory_read"@.len() != "payment_send"@.len());
    assert("memory.write"@[0] != "payment_send"@[0]);
    assert("memory_write"@[0] != "payment_send"@[0]);
    assert("message.send"@[0] != "payment_send"@[0]);
    assert("message_send"@[0] != "payment_send"@[0]);
    assert("payment.send"@[7] != "payment_send"@[7]);
    assert("object.read"@.len() != "llm.infer"@.len());
    assert("object_read"@.len() != "llm.infer"@.len());
    assert("object.write"@.len() != "llm.infer"@.len());
    assert("object_write"@.len() != "llm.infer"@.len());
    assert("memory.read"@.len() != "llm.infer"@.len());
    assert("memory_read"@.len() != "llm.infer"@.len());
    assert("memory.write"@.len() != "llm.infer"@.len());
    assert("memory_write"@.len() != "llm.infer"@.len());
    assert("message.send"@.len() != "llm.infer"@.len());
    assert("message_send"@.len() != "llm.infer"@.len());
    assert("payment.send"@.len() != "llm.infer"@.len());
    assert("payment_send"@.len() != "llm.infer"@.len());
    assert("object.read"@.len() != "llm_infer"@.len());
    assert("object_read"@.len() != "llm_infer"@.len());
    assert("object.write"@.len() != "llm_infer"@.len());
    assert("object_write"@.len() != "llm_infer"@.len());
    assert("memory.read"@.len() != "llm_infer"@.len());
    assert("memory_read"@.len() != "llm_infer"@.len());
    assert("memory.write"@.len() != "llm_infer"@.len());
    assert("memory_write"@.len() != "llm_infer"@.len());
    assert("message.send"@.len() != "llm_infer"@.len());
    assert("message_send"@.len() != "llm_infer"@.len());
    assert("payment.send"@.len() != "llm_infer"@.len());
    assert("payment_send"@.len() != "llm_infer"@.len());
    assert("llm.infer"@[3] != "llm_infer"@[3]);
    assert("object.read"@.len() != "local.exec"@.len());
    assert("object_read"@.len() != "local.exec"@.len());
    assert("object.write"@.len() != "local.exec"@.len());
    assert("object_write"@.len() != "local.exec"@.len());
    assert("memory.read"@.len() != "local.exec"@.len());
    assert("memory_read"@.len() != "local.exec"@.len());
    assert("memory.write"@.len() != "local.exec"@.len());
    assert("memory_write"@.len() != "local.exec"@.len());
    assert("message.send"@.len() != "local.exec"@.len());
    assert("message_send"@.len() != "local.exec"@.len());
    assert("payment.send"@.len() != "local.exec"@.len());
    assert("payment_send"@.len() != "local.exec"@.len());
    assert("llm.infer"@.len() != "local.exec"@.len());
    assert("llm_infer"@.len() != "local.exec"@.len());
    assert("object.read"@.len() != "local_exec"@.len());
    assert("object_read"@.len() != "local_exec"@.len());
    assert("object.write"@.len() != "local_exec"@.len());
    assert("object_write"@.len() != "local_exec"@.len());
    assert("memory.read"@.len() != "local_exec"@.len());
    assert("memory_read"@.len() != "local_exec"@.len());
    assert("memory.write"@.len() != "local_exec"@.len());
    assert("memory_write"@.len() != "local_exec"@.len());
    assert("message.send"@.len() != "local_exec"@.len());
    assert("message_send"@.len() != "local_exec"@.len());
    assert("payment.send"@.len() != "local_exec"@.len());
    assert("payment_send"@.len() != "local_exec"@.len());
    assert("llm.infer"@.len() != "local_exec"@.len());
    assert("llm_infer"@.len() != "local_exec"@.len());
    assert("local.exec"@[5] != "local_exec"@[5]);
    assert("object.read"@.len() != "db.query"@.len());
    assert("object_read"@.len() != "db.query"@.len());
    assert("object.write"@.len() != "db.query"@.len());
    assert("object_write"@.len() != "db.query"@.len());
    assert("memory.read"@.len() != "db.query"@.len());
    assert("memory_read"@.len() != "db.query"@.len());
    assert("memory.write"@.len() != "db.query"@.len());
    assert("memory_write"@.len() != "db.query"@.len());
    assert("message.send"@.len() != "db.query"@.len());
    assert("message_send"@.len() != "db.query"@.len());
    assert("payment.send"@.len() != "db.query"@.len());
    assert("payment_send"@.len() != "db.query"@.len());
    assert("llm.infer"@.len() != "db.query"@.len());
    assert("llm_infer"@.len() != "db.query"@.len());
    assert("local.exec"@.len() != "db.query"@.len());
    assert("local_exec"@.len() != "db.query"@.len());
    assert("object.read"@.len() != "db_query"@.len());
    assert("object_read"@.len() != "db_query"@.len());
    assert("object.write"@.len() != "db_query"@.len());
    assert("object_write"@.len() != "db_query"@.len());
    assert("memory.read"@.len() != "db_query"@.len());
    assert("memory_read"@.len() != "db_query"@.len());
    assert("memory.write"@.len() != "db_query"@.len());
    assert("memory_write"@.len() != "db_query"@.len());
    assert("message.send"@.len() != "db_query"@.len());
    assert("message_send"@.len() != "db_query"@.len());
    assert("payment.send"@.len() != "db_query"@.len());
    assert("payment_send"@.len() != "db_query"@.len());
    assert("llm.infer"@.len() != "db_query"@.len());
    assert("llm_infer"@.len() != "db_query"@.len());
    assert("local.exec"@.len() != "db_query"@.len());
    assert("local_exec"@.len() != "db_query"@.len());
    assert("db.query"@[2] != "db_query"@[2]);
    assert("object.read"@.len() != "http.request"@.len());
    assert("object_read"@.len() != "http.request"@.len());
    assert("object.write"@[0] != "http.request"@[0]);
    assert("object_write"@[0] != "http.request"@[0]);
    assert("memory.read"@.len() != "http.request"@.len());
    assert("memory_read"@.len() != "http.request"@.len());
    assert("memory.write"@[0] != "http.request"@[0]);
    assert("memory_write"@[0] != "http.request"@[0]);
    assert("message.send"@[0] != "http.request"@[0]);
    assert("message_send"@[0] != "http.request"@[0]);
    assert("payment.send"@[0] != "http.request"@[0]);
    assert("payment_send"@[0] != "http.request"@[0]);
    assert("llm.infer"@.len() != "http.request"@.len());
    assert("llm_infer"@.len() != "http.request"@.len());
    assert("local.exec"@.len() != "http.request"@.len());
    assert("local_exec"@.len() != "http.request"@.len());
    assert("db.query"@.len() != "http.request"@.len());
    assert("db_query"@.len() != "http.request"@.len());
    assert("object.read"@.len() != "http_request"@.len());
    assert("object_read"@.len() != "http_request"@.len());
    assert("object.write"@[0] != "http_request"@[0]);
    assert("object_write"@[0] != "http_request"@[0]);
    assert("memory.read"@.len() != "http_request"@.len());
    assert("memory_read"@.len() != "http_request"@.len());
    assert("memory.write"@[0] != "http_request"@[0]);
    assert("memory_write"@[0] != "http_request"@[0]);
    assert("message.send"@[0] != "http_request"@[0]);
    assert("message_send"@[0] != "http_request"@[0]);
    assert("payment.send"@[0] != "http_request"@[0]);
    assert("payment_send"@[0] != "http_request"@[0]);
    assert("llm.infer"@.len() != "http_request"@.len());
    assert("llm_infer"@.len() != "http_request"@.len());
    assert("local.exec"@.len() != "http_request"@.len());
    assert("local_exec"@.len() != "http_request"@.len());
    assert("db.query"@.len() != "http_request"@.len());
    assert("db_query"@.len() != "http_request"@.len());
    assert("http.request"@[4] != "http_request"@[4]);
}

/// The hard payload caps, in bytes: 128 000 for object reads, 500 000 for
/// object writes, 64 000 for memory reads and writes, 20 000 for messages,
/// 16 000 for payments, 32 000 for inference, 4 096 for local execution;
/// none for database queries and HTTP requests.
pub proof fn law_hard_payload_caps()
    ensures
        hard_max("object.read"@) == 128_000,
        hard_max("object.write"@) == 500_000,
        hard_max("memory.read"@) == 64_000,
        hard_max("memory.write"@) == 64_000,
        hard_max("message.send"@) == 20_000,
        hard_max("payment.send"@) == 16_000,
        hard_max("llm.infer"@) == 32_000,
        hard_max("local.exec"@) == 4_096,
        hard_max("db.query"@) == 0,
        hard_max("http.request"@) == 0,
{
    reveal_strlit("object.read");
    reveal_strlit("object.write");
    reveal_strlit("memory.read");
    reveal_strlit("memory.write");
    reveal_strlit("message.send");
    reveal_strlit("payment.send");
    reveal_strlit("llm.infer");
    reveal_strlit("local.exec");
    reveal_strlit("db.query");
    reveal_strlit("http.request");
    assert("object.read"@.len() != "object.write"@.len());
    assert("object.read"@[0] != "memory.read"@[0]);
    assert("object.write"@.len() != "memory.read"@.len());
    assert("object.read"@.len() != "memory.write"@.len());
    assert("object.write"@[0] != "memory.write"@[0]);
    assert("memory.read"@.len() != "memory.write"@.len());
    assert("object.read"@.len() != "message.send"@.len());
    assert("object.write"@[0] != "message.send"@[0]);
    assert("memory.read"@.len() != "message.send"@.len());
    assert("memory.write"@[2] != "message.send"@[2]);
    assert("object.read"@.len() != "payment.send"@.len());
    assert("object.write"@[0] != "payment.send"@[0]);
    assert("memory.read"@.len() != "payment.send"@.len());
    assert("memory.write"@[0] != "payment.send"@[0]);
    assert("message.send"@[0] != "payment.send"@[0]);
    assert("object.read"@.len() != "llm.infer"@.len());
    assert("object.write"@.len() != "llm.infer"@.len());
    assert("memory.read"@.len() != "llm.infer"@.len());
    assert("memory.write"@.len() != "llm.infer"@.len());
    assert("message.send"@.len() != "llm.infer"@.len());
    assert("payment.send"@.len() != "llm.infer"@.len());
    assert("object.read"@.len() != "local.exec"@.len());
    assert("object.write"@.len() != "local.exec"@.len());
    assert("memory.read"@.len() != "local.exec"@.len());
    assert("memory.write"@.len() != "local.exec"@.len());
    assert("message.send"@.len() != "local.exec"@.len());
    assert("payment.send"@.len() != "local.exec"@.len());
    assert("llm.infer"@.len() != "local.exec"@.len());
    assert("object.read"@.len() != "db.query"@.len());
    assert("object.write"@.len() != "db.query"@.len());
    assert("memory.read"@.len() != "db.query"@.len());
    assert("memory.write"@.len() != "db.query"@.len());
    assert("message.send"@.len() != "db.query"@.len());
    assert("payment.send"@.len() != "db.query"@.len());
    assert("llm.infer"@.len() != "db.query"@.len());
    assert("local.exec"@.len() != "db.query"@.len());
    assert("object.read"@.len() != "http.request"@.len());
    assert("object.write"@[0] != "http.request"@[0]);
    assert("memory.read"@.len() != "http.request"@.len());
    assert("memory.write"@[0] != "http.request"@[0]);
    assert("message.send"@[0] != "http.request"@[0]);
    assert("payment.send"@[0] != "http.request"@[0]);
    assert("llm.infer"@.len() != "http.request"@.len());
    assert("local.exec"@.len() != "http.request"@.len());
    assert("db.query"@.len() != "http.request"@.len());
}

/// Scopes: a scope holding `..` or a NUL is never allowed; otherwise each
/// capability allows exactly the scopes under its own prefixes (`podcasts/`
/// for object reads, `shownotes/` for object writes, `memory:` for memory,
/// `whitenoise:` or `slack:` for messages, `nwc:` or `cashu:` for payments,
/// `local:` or `remote:` for inference, `local.exec:` for local execution),
/// and any other capability allows none.
pub proof fn law_scope_prefixes(cap: Seq<char>, scope: Seq<char>)
    ensures
        contains_sub(scope, ".."@) || scope.contains('\0') ==> !scope_allowed(cap, scope),
        !contains_sub(scope, ".."@) && !scope.contains('\0') ==> (scope_allowed("object.read"@, scope) <==> starts_with(scope, "podcasts/"@)),
        !contains_sub(scope, ".."@) && !scope.contains('\0') ==> (scope_allowed("object.write"@, scope) <==> starts_with(scope, "shownotes/"@)),
        !contains_sub(scope, ".."@) && !scope.contains('\0') ==> (scope_allowed("memory.read"@, scope) <==> starts_with(scope, "memory:"@)),
        !contains_sub(scope, ".."@) && !scope.contains('\0') ==> (scope_allowed("memory.write"@, scope) <==> starts_with(scope, "memory:"@)),
        !contains_sub(scope, ".."@) && !scope.contains('\0') ==> (scope_allowed("message.send"@, scope) <==> (starts_with(scope, "whitenoise:"@) || starts_with(scope, "slack:"@))),
        !contains_sub(scope, ".."@) && !scope.contains('\0') ==> (scope_allowed("payment.send"@, scope) <==> (starts_with(scope, "nwc:"@) || starts_with(scope, "cashu:"@))),
        !contains_sub(scope, ".."@) && !scope.contains('\0') ==> (scope_allowed("llm.infer"@, scope) <==> (starts_with(scope, "local:"@) || starts_with(scope, "remote:"@))),
        !contains_sub(scope, ".."@) && !scope.contains('\0') ==> (scope_allowed("local.exec"@, scope) <==> starts_with(scope, "local.exec:"@)),
        cap != "object.read"@
            && cap != "object.write"@
            && cap != "memory.read"@
            && cap != "memory.write"@
            && cap != "message.send"@
            && cap != "payment.send"@
            && cap != "llm.infer"@
            && cap != "local.exec"@
            ==> !scope_allowed(cap, scope),
{
    reveal_strlit("object.read");
    reveal_strlit("object.write");
    reveal_strlit("memory.read");
    reveal_strlit("memory.write");
    reveal_strlit("message.send");
    reveal_strlit("payment.send");
    reveal_strlit("llm.infer");
    reveal_strlit("local.exec");
    assert("object.read"@.len() != "object.write"@.len());
    assert("object.read"@[0] != "memory.read"@[0]);
    assert("object.write"@.len() != "memory.read"@.len());
    assert("object.read"@.len() != "memory.write"@.len());
    assert("object.write"@[0] != "memory.write"@[0]);
    assert("memory.read"@.len() != "memory.write"@.len());
    assert("object.read"@.len() != "message.send"@.len());
    assert("object.write"@[0] != "message.send"@[0]);
    assert("memory.read"@.len() != "message.send"@.len());
    assert("memory.write"@[2] != "message.send"@[2]);
    assert("object.read"@.len() != "payment.send"@.len());
    assert("object.write"@[0] != "payment.send"@[0]);
    assert("memory.read"@.len() != "payment.send"@.len());
    assert("memory.write"@[0] != "payment.send"@[0]);
    assert("message.send"@[0] != "payment.send"@[0]);
    assert("object.read"@.len() != "llm.infer"@.len());
    assert("object.write"@.len() != "llm.infer"@.len());
    assert("memory.read"@.len() != "llm.infer"@.len());
    assert("memory.write"@.len() != "llm.infer"@.len());
    assert("message.send"@.len() != "llm.infer"@.len());
    assert("payment.send"@.len() != "llm.infer"@.len());
    assert("object.read"@.len() != "local.exec"@.len());
    assert("object.write"@.len() != "local.exec"@.len());
    assert("memory.read"@.len() != "local.exec"@.len());
    assert("memory.write"@.len() != "local.exec"@.len());
    assert("message.send"@.len() != "local.exec"@.len());
    assert("payment.send"@.len() != "local.exec"@.len());
    assert("llm.infer"@.len() != "local.exec"@.len());
}

/// Roles: an owner may hold any capability, an operator any but local
/// execution, a viewer only object reads and inference on a `local:` scope.
pub proof fn law_role_permissions(cap: Seq<char>, scope: Seq<char>)
    ensures
        role_allows(RolePreset::Owner, cap, scope),
        role_allows(RolePreset::Operator, cap, scope) <==> cap != "local.exec"@,
        role_allows(RolePreset::Viewer, "object.read"@, scope),
        role_allows(RolePreset::Viewer, "llm.infer"@, scope) <==> starts_with(scope, "local:"@),
        cap != "object.read"@ && cap != "llm.infer"@ ==> !role_allows(RolePreset::Viewer, cap, scope),
{
    reveal_strlit("object.read");
    reveal_strlit("llm.infer");
    assert("object.read"@.len() != "llm.infer"@.len());
}

/// Memory kinds: `session`, `semantic`, `procedural` and `handoff`, trimmed
/// and in any ASCII case; nothing else.
pub proof fn law_memory_kind_names(raw: Seq<char>)
    ensures
        norm_key(raw) == "session"@ ==> memory_kind_of(raw) == Some("session"@),
        norm_key(raw) == "semantic"@ ==> memory_kind_of(raw) == Some("semantic"@),
        norm_key(raw) == "procedural"@ ==> memory_kind_of(raw) == Some("procedural"@),
        norm_key(raw) == "handoff"@ ==> memory_kind_of(raw) == Some("handoff"@),
        norm_key(raw) != "session"@
            && norm_key(raw) != "semantic"@
            && norm_key(raw) != "procedural"@
            && norm_key(raw) != "handoff"@
            ==> memory_kind_of(raw) is None,
{
    reveal_strlit("session");
    reveal_strlit("semantic");
    reveal_strlit("procedural");
    reveal_strlit("handoff");
    assert("session"@.len() != "semantic"@.len());
    assert("session"@.len() != "procedural"@.len());
    assert("semantic"@.len() != "procedural"@.len());
    assert("session"@[0] != "handoff"@[0]);
    assert("semantic"@.len() != "handoff"@.len());
    assert("procedural"@.len() != "handoff"@.len());
}

/// A grant scope covers itself; a scope ending in `*` covers exactly the
/// scopes that begin with what precedes the `*`; any other covers only
/// itself.
pub proof fn law_scope_within_covers(grant: Seq<char>, requested: Seq<char>, prefix: Seq<char>)
    ensures
        scope_within_spec(grant, grant),
        scope_within_spec(prefix.push('*'), requested) <==> starts_with(requested, prefix),
        !(grant.len() > 0 && grant.last() == '*') ==> (scope_within_spec(grant, requested) <==> grant
            == requested),
{
    assert(prefix.push('*').drop_last() =~= prefix);
    if grant.len() > 0 && grant.last() == '*' {
        assert(grant.subrange(0, grant.drop_last().len() as int) =~= grant.drop_last());
    }
}

/// The granted payload cap never exceeds the capability's hard cap, the
/// bundle's cap, or a positive requested cap; a positive request within
/// both caps is granted as asked, and with neither a request nor a bundle
/// the hard cap is granted.
pub proof fn law_capped_payload(cap: Seq<char>, requested: Option<u64>, bundle: Option<u64>)
    ensures
        capped_max(cap, requested, bundle) <= hard_max(cap),
        bundle matches Some(m) ==> capped_max(cap, requested, bundle) <= m,
        requested matches Some(v) ==> (v > 0 ==> capped_max(cap, requested, bundle) <= v),
        requested matches Some(v) ==> (v > 0 && v <= hard_max(cap) && (bundle matches Some(m) ==> v
            <= m) ==> capped_max(cap, requested, bundle) == v),
        (requested is None || requested == Some(0u64)) && bundle is None ==> capped_max(
            cap,
            requested,
            bundle,
        ) == hard_max(cap),
{
}

} // verus!

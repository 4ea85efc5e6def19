//! Request identity from headers: the tenant, the trusted-proxy token,
//! the role preset and the acting user.
use vstd::prelude::*;
use crate::text::{trim, to_chars, trim_chars, from_chars, chars_eq, append_str};
use crate::error::{ApiError, ErrView, bad_request, unauthorized, internal, own};
use crate::roles::{RolePreset, role_of};
use crate::ids::{parse_uuid, uuid_parse};

verus! {

/// A header as the request carries it: absent, present but not UTF-8, or
/// text.
#[derive(Debug)]
pub enum HeaderValue {
    Missing,
    NotUtf8,
    Text(String),
}

/// `tenant_from_headers`: the trimmed, non-empty `x-tenant-id`.
pub open spec fn tenant_spec(h: HeaderValue) -> Result<Seq<char>, ErrView> {
    match h {
        HeaderValue::Missing => Err(bad_request("missing x-tenant-id header"@)),
        HeaderValue::NotUtf8 => Err(bad_request("x-tenant-id header is not valid UTF-8"@)),
        HeaderValue::Text(v) => if trim(v@).len() == 0 {
            Err(bad_request("x-tenant-id header must not be empty"@))
        } else {
            Ok(trim(v@))
        },
    }
}

pub fn tenant_from_headers(tenant: &HeaderValue) -> (r: Result<String, ApiError>)
    ensures
        match (r, tenant_spec(*tenant)) {
            (Ok(a), Ok(b)) => a@ == b,
            (Err(e), Err(f)) => e@ == f,
            _ => false,
        },
        r is Ok <==> (*tenant matches HeaderValue::Text(v) && trim(v@).len() > 0),
        r matches Ok(t) ==> (*tenant matches HeaderValue::Text(v) && t@ == trim(v@)),
{
    match tenant {
        HeaderValue::Missing => Err(ApiError::bad_request("missing x-tenant-id header")),
        HeaderValue::NotUtf8 => Err(ApiError::bad_request("x-tenant-id header is not valid UTF-8")),
        HeaderValue::Text(v) => {
            let c = to_chars(v.as_str());
            let t = trim_chars(c.as_slice());
            if t.len() == 0 {
                Err(ApiError::bad_request("x-tenant-id header must not be empty"))
            } else {
                Ok(from_chars(t.as_slice()))
            }
        },
    }
}

/// The trusted-proxy settings: whether the check is on, the shared secret
/// and the error met while resolving it.
#[derive(Debug)]
pub struct TrustedProxyConfig {
    pub enabled: bool,
    pub secret: Option<String>,
    pub error: Option<String>,
}

/// `enforce_trusted_proxy_auth`: with the check on, a resolution error or a
/// missing secret is an internal error; otherwise `x-auth-proxy-token` must
/// equal the secret.
pub open spec fn proxy_auth_spec(cfg: TrustedProxyConfig, token: HeaderValue) -> Option<ErrView> {
    if !cfg.enabled {
        None
    } else {
        match cfg.error {
            Some(e) => Some(
                internal("trusted proxy auth is enabled but secret resolution failed: "@ + e@),
            ),
            None => match cfg.secret {
                Some(s) if trim(s@).len() > 0 => match token {
                    HeaderValue::Missing => Some(unauthorized("missing x-auth-proxy-token header"@)),
                    HeaderValue::NotUtf8 => Some(
                        bad_request("x-auth-proxy-token header is not valid UTF-8"@),
                    ),
                    HeaderValue::Text(p) => if p@ == s@ {
                        None
                    } else {
                        Some(unauthorized("trusted proxy token validation failed"@))
                    },
                },
                _ => Some(
                    internal("trusted proxy auth is enabled but no shared secret is configured"@),
                ),
            },
        }
    }
}

pub open spec fn unit_result(r: Result<(), ApiError>, expected: Option<ErrView>) -> bool {
    match (r, expected) {
        (Ok(_), None) => true,
        (Err(e), Some(x)) => e@ == x,
        _ => false,
    }
}

pub fn enforce_trusted_proxy_auth(cfg: &TrustedProxyConfig, token: &HeaderValue) -> (r: Result<(), ApiError>)
    ensures
        unit_result(r, proxy_auth_spec(*cfg, *token)),
        !cfg.enabled ==> r is Ok,
        cfg.enabled ==> (r is Ok <==> (cfg.error is None && (cfg.secret matches Some(s) && trim(s@).len()
            > 0 && (*token matches HeaderValue::Text(p) && p@ == s@)))),
{
    if !cfg.enabled {
        return Ok(());
    }
    if let Some(e) = &cfg.error {
        let mut m: Vec<char> = Vec::new();
        append_str(&mut m, "trusted proxy auth is enabled but secret resolution failed: ");
        append_str(&mut m, e.as_str());
        let msg = from_chars(m.as_slice());
        return Err(ApiError { status: 500, code: own("INTERNAL"), message: msg });
    }
    let expected = match &cfg.secret {
        Some(s) => {
            let c = to_chars(s.as_str());
            if trim_chars(c.as_slice()).len() == 0 {
                return Err(
                    ApiError::internal("trusted proxy auth is enabled but no shared secret is configured"),
                );
            }
            c
        },
        None => {
            return Err(
                ApiError::internal("trusted proxy auth is enabled but no shared secret is configured"),
            );
        },
    };
    match token {
        HeaderValue::Missing => Err(ApiError::unauthorized("missing x-auth-proxy-token header")),
        HeaderValue::NotUtf8 => Err(
            ApiError::bad_request("x-auth-proxy-token header is not valid UTF-8"),
        ),
        HeaderValue::Text(p) => {
            let pc = to_chars(p.as_str());
            if chars_eq(pc.as_slice(), expected.as_slice()) {
                Ok(())
            } else {
                Err(ApiError::unauthorized("trusted proxy token validation failed"))
            }
        },
    }
}

/// Trusted-proxy authentication is exactly a token check: with the check on
/// and a configured non-blank secret, a request passes if and only if its
/// token is the secret; with the check off every request passes.
pub proof fn law_proxy_auth_is_token_equality(cfg: TrustedProxyConfig, token: HeaderValue, secret: String)
    requires
        cfg.enabled,
        cfg.error is None,
        cfg.secret == Some(secret),
        trim(secret@).len() > 0,
    ensures
        proxy_auth_spec(cfg, token) is None <==> (token matches HeaderValue::Text(p) && p@
            == secret@),
{
}

/// With trusted-proxy authentication off, every request passes the check.
pub proof fn law_proxy_auth_off_admits_all(cfg: TrustedProxyConfig, token: HeaderValue)
    requires
        !cfg.enabled,
    ensures
        proxy_auth_spec(cfg, token) is None,
{
}

/// `role_from_headers`: after the proxy check, `x-user-role` names the role;
/// an absent header means owner.
pub open spec fn role_spec(cfg: TrustedProxyConfig, token: HeaderValue, role: HeaderValue) -> Result<
    RolePreset,
    ErrView,
> {
    match proxy_auth_spec(cfg, token) {
        Some(e) => Err(e),
        None => match role {
            HeaderValue::Missing => Ok(RolePreset::Owner),
            HeaderValue::NotUtf8 => Err(bad_request("x-user-role header is not valid UTF-8"@)),
            HeaderValue::Text(v) => match role_of(v@) {
                Some(r) => Ok(r),
                None => Err(bad_request("x-user-role must be one of: owner, operator, viewer"@)),
            },
        },
    }
}

pub fn role_from_headers(cfg: &TrustedProxyConfig, token: &HeaderValue, role: &HeaderValue) -> (r: Result<RolePreset, ApiError>)
    ensures
        match (r, role_spec(*cfg, *token, *role)) {
            (Ok(a), Ok(b)) => a == b,
            (Err(e), Err(f)) => e@ == f,
            _ => false,
        },
{
    enforce_trusted_proxy_auth(cfg, token)?;
    match role {
        HeaderValue::Missing => Ok(RolePreset::Owner),
        HeaderValue::NotUtf8 => Err(ApiError::bad_request("x-user-role header is not valid UTF-8")),
        HeaderValue::Text(v) => match RolePreset::parse(v.as_str()) {
            Some(r) => Ok(r),
            None => Err(ApiError::bad_request("x-user-role must be one of: owner, operator, viewer")),
        },
    }
}

/// `user_id_from_headers`: after the proxy check, the UUID in `x-user-id`
/// (trimmed), if the header is present.
pub open spec fn user_id_spec(cfg: TrustedProxyConfig, token: HeaderValue, user: HeaderValue) -> Result<
    Option<u128>,
    ErrView,
> {
    match proxy_auth_spec(cfg, token) {
        Some(e) => Err(e),
        None => match user {
            HeaderValue::Missing => Ok(None),
            HeaderValue::NotUtf8 => Err(bad_request("x-user-id header is not valid UTF-8"@)),
            HeaderValue::Text(v) => match uuid_parse(trim(v@)) {
                Some(u) => Ok(Some(u)),
                None => Err(bad_request("x-user-id header must be a valid UUID"@)),
            },
        },
    }
}

pub fn user_id_from_headers(cfg: &TrustedProxyConfig, token: &HeaderValue, user: &HeaderValue) -> (r: Result<Option<u128>, ApiError>)
    ensures
        match (r, user_id_spec(*cfg, *token, *user)) {
            (Ok(a), Ok(b)) => a == b,
            (Err(e), Err(f)) => e@ == f,
            _ => false,
        },
{
    enforce_trusted_proxy_auth(cfg, token)?;
    match user {
        HeaderValue::Missing => Ok(None),
        HeaderValue::NotUtf8 => Err(ApiError::bad_request("x-user-id header is not valid UTF-8")),
        HeaderValue::Text(v) => {
            let c = to_chars(v.as_str());
            let t = from_chars(trim_chars(c.as_slice()).as_slice());
            match parse_uuid(t.as_str()) {
                Some(u) => Ok(Some(u)),
                None => Err(ApiError::bad_request("x-user-id header must be a valid UUID")),
            }
        },
    }
}

} // verus!

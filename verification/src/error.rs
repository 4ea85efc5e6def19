//! The API error: an HTTP status, a stable machine code and a message.
use vstd::prelude::*;

verus! {

pub const STATUS_BAD_REQUEST: u16 = 400;
pub const STATUS_UNAUTHORIZED: u16 = 401;
pub const STATUS_FORBIDDEN: u16 = 403;
pub const STATUS_NOT_FOUND: u16 = 404;
pub const STATUS_CONFLICT: u16 = 409;
pub const STATUS_TOO_MANY_REQUESTS: u16 = 429;
pub const STATUS_INTERNAL: u16 = 500;
pub const STATUS_NOT_IMPLEMENTED: u16 = 501;

#[derive(Debug)]
pub struct ApiError {
    pub status: u16,
    pub code: String,
    pub message: String,
}

/// What an error says: status, code and message as character sequences.
pub struct ErrView {
    pub status: u16,
    pub code: Seq<char>,
    pub message: Seq<char>,
}

impl View for ApiError {
    type V = ErrView;

    open spec fn view(&self) -> ErrView {
        ErrView { status: self.status, code: self.code@, message: self.message@ }
    }
}

pub open spec fn err(status: u16, code: Seq<char>, message: Seq<char>) -> ErrView {
    ErrView { status, code, message }
}

pub open spec fn bad_request(message: Seq<char>) -> ErrView {
    err(STATUS_BAD_REQUEST, "BAD_REQUEST"@, message)
}

pub open spec fn unauthorized(message: Seq<char>) -> ErrView {
    err(STATUS_UNAUTHORIZED, "UNAUTHORIZED"@, message)
}

pub open spec fn forbidden(message: Seq<char>) -> ErrView {
    err(STATUS_FORBIDDEN, "FORBIDDEN"@, message)
}

pub open spec fn conflict(message: Seq<char>) -> ErrView {
    err(STATUS_CONFLICT, "CONFLICT"@, message)
}

pub open spec fn not_found(message: Seq<char>) -> ErrView {
    err(STATUS_NOT_FOUND, "NOT_FOUND"@, message)
}

pub open spec fn internal(message: Seq<char>) -> ErrView {
    err(STATUS_INTERNAL, "INTERNAL"@, message)
}

/// The view of a result whose error is an `ApiError`, the success value
/// being kept as it is.
pub open spec fn res_view<T>(r: Result<T, ApiError>) -> Result<T, ErrView> {
    match r {
        Ok(v) => Ok(v),
        Err(e) => Err(e@),
    }
}

/// Copies a text into an owned `String`.
pub fn own(s: &str) -> (r: String)
    ensures
        r@ == s@,
{
    broadcast use vstd::string::group_string_axioms;

    s.to_string()
}

impl ApiError {
    pub fn new(status: u16, code: &str, message: &str) -> (e: ApiError)
        ensures
            e@ == err(status, code@, message@),
    {
        ApiError { status, code: own(code), message: own(message) }
    }

    pub fn bad_request(message: &str) -> (e: ApiError)
        ensures
            e@ == bad_request(message@),
    {
        ApiError::new(STATUS_BAD_REQUEST, "BAD_REQUEST", message)
    }

    pub fn unauthorized(message: &str) -> (e: ApiError)
        ensures
            e@ == unauthorized(message@),
    {
        ApiError::new(STATUS_UNAUTHORIZED, "UNAUTHORIZED", message)
    }

    pub fn forbidden(message: &str) -> (e: ApiError)
        ensures
            e@ == forbidden(message@),
    {
        ApiError::new(STATUS_FORBIDDEN, "FORBIDDEN", message)
    }

    pub fn conflict(message: &str) -> (e: ApiError)
        ensures
            e@ == conflict(message@),
    {
        ApiError::new(STATUS_CONFLICT, "CONFLICT", message)
    }

    pub fn not_found(message: &str) -> (e: ApiError)
        ensures
            e@ == not_found(message@),
    {
        ApiError::new(STATUS_NOT_FOUND, "NOT_FOUND", message)
    }

    pub fn internal(message: &str) -> (e: ApiError)
        ensures
            e@ == internal(message@),
    {
        ApiError::new(STATUS_INTERNAL, "INTERNAL", message)
    }
}


/// The error for an endpoint the SQLite profile does not serve (501).
pub fn sqlite_profile_unavailable(path: &str) -> (e: ApiError)
    ensures
        e@ == err(
            STATUS_NOT_IMPLEMENTED,
            "SQLITE_PROFILE_ENDPOINT_UNAVAILABLE"@,
            "endpoint `"@ + path@ + "` is not enabled in the current sqlite API profile"@,
        ),
{
    let mut m: Vec<char> = Vec::new();
    crate::text::append_str(&mut m, "endpoint `");
    crate::text::append_str(&mut m, path);
    crate::text::append_str(&mut m, "` is not enabled in the current sqlite API profile");
    ApiError::new(
        STATUS_NOT_IMPLEMENTED,
        "SQLITE_PROFILE_ENDPOINT_UNAVAILABLE",
        crate::text::from_chars(m.as_slice()).as_str(),
    )
}
} // verus!

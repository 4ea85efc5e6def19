//! Timestamps in RFC 3339 form, as the `time` crate reads them.
use vstd::prelude::*;

verus! {

/// Whether the `time` crate reads `text` as an RFC 3339 timestamp.
pub uninterp spec fn rfc3339_parses(text: Seq<char>) -> bool;

/// Calls `time::OffsetDateTime::parse` with the RFC 3339 description. It
/// succeeds exactly on the texts the crate reads; on failure it hands back
/// the crate's own description of the error, whose wording is not stated.
#[verifier::external_body]
pub(crate) fn check_rfc3339(text: &str) -> (r: Result<(), String>)
    ensures
        r is Ok == rfc3339_parses(text@),
{
    match time::OffsetDateTime::parse(text, &time::format_description::well_known::Rfc3339) {
        Ok(_) => Ok(()),
        Err(e) => Err(e.to_string()),
    }
}

/// The RFC 3339 text the `time` crate writes for the instant `nanos`
/// nanoseconds after the Unix epoch, in UTC; none where the instant is out
/// of the crate's range or its year is outside 0..=9999.
pub uninterp spec fn rfc3339_of_nanos(nanos: int) -> Option<Seq<char>>;

/// Calls `time::OffsetDateTime::format` with the RFC 3339 description on
/// the UTC instant `nanos` nanoseconds after the epoch (built by
/// `OffsetDateTime::from_unix_timestamp_nanos`). The text is named
/// `rfc3339_of_nanos(nanos)`; the crate's RFC 3339 writer emits
/// `YYYY-MM-DDTHH:MM:SS[.fraction]Z`, which its RFC 3339 reader accepts, so
/// the text written is one the crate reads back. On failure the crate's own
/// error description comes back, its wording not stated.
#[verifier::external_body]
pub(crate) fn format_rfc3339_nanos(nanos: i128) -> (r: Result<String, String>)
    ensures
        match r {
            Ok(s) => rfc3339_of_nanos(nanos as int) == Some(s@) && rfc3339_parses(s@),
            Err(_) => rfc3339_of_nanos(nanos as int) is None,
        },
{
    match time::OffsetDateTime::from_unix_timestamp_nanos(nanos) {
        Ok(at) => match at.format(&time::format_description::well_known::Rfc3339) {
            Ok(s) => Ok(s),
            Err(e) => Err(e.to_string()),
        },
        Err(e) => Err(e.to_string()),
    }
}

} // verus!

//! Defaults and bounds of the numeric query and request parameters.
use vstd::prelude::*;

verus! {

/// The default length of a reporting window, in seconds (one day).
pub const DEFAULT_WINDOW_SECS: u64 = 86_400;

/// The longest reporting window, in seconds (365 days).
pub const MAX_WINDOW_SECS: u64 = 31_536_000;

/// The longest delay before a replayed delivery is retried, in seconds.
pub const MAX_REPLAY_DELAY_SECS: u64 = 86_400;

/// `v` brought into `[lo, hi]`.
pub open spec fn clamp_spec(v: int, lo: int, hi: int) -> int {
    if v < lo {
        lo
    } else if v > hi {
        hi
    } else {
        v
    }
}

pub open spec fn or_default_i64(raw: Option<i64>, d: i64) -> int {
    match raw {
        Some(v) => v as int,
        None => d as int,
    }
}

pub open spec fn or_default_u64(raw: Option<u64>, d: u64) -> int {
    match raw {
        Some(v) => v as int,
        None => d as int,
    }
}

/// `v.clamp(lo, hi)` on `i64`.
pub fn clamp_i64(v: i64, lo: i64, hi: i64) -> (r: i64)
    requires
        lo <= hi,
    ensures
        r == clamp_spec(v as int, lo as int, hi as int),
        lo <= r <= hi,
        lo <= v <= hi ==> r == v,
        v < lo ==> r == lo,
        v > hi ==> r == hi,
{
    if v < lo {
        lo
    } else if v > hi {
        hi
    } else {
        v
    }
}

/// `v.clamp(lo, hi)` on `u64`.
pub fn clamp_u64(v: u64, lo: u64, hi: u64) -> (r: u64)
    requires
        lo <= hi,
    ensures
        r == clamp_spec(v as int, lo as int, hi as int),
        lo <= r <= hi,
        lo <= v <= hi ==> r == v,
        v < lo ==> r == lo,
        v > hi ==> r == hi,
{
    if v < lo {
        lo
    } else if v > hi {
        hi
    } else {
        v
    }
}

/// `v.clamp(lo, hi)` on `i32`.
pub fn clamp_i32(v: i32, lo: i32, hi: i32) -> (r: i32)
    requires
        lo <= hi,
    ensures
        r == clamp_spec(v as int, lo as int, hi as int),
        lo <= r <= hi,
        lo <= v <= hi ==> r == v,
        v < lo ==> r == lo,
        v > hi ==> r == hi,
{
    if v < lo {
        lo
    } else if v > hi {
        hi
    } else {
        v
    }
}

/// A reporting window: one day when absent, and between one second and a
/// year.
pub fn window_secs_or_default(raw: Option<u64>) -> (r: u64)
    ensures
        r == clamp_spec(or_default_u64(raw, DEFAULT_WINDOW_SECS), 1, MAX_WINDOW_SECS as int),
        1 <= r <= MAX_WINDOW_SECS,
        raw is None ==> r == 86_400,
        raw matches Some(v) ==> (1 <= v <= 31_536_000 ==> r == v),
        raw matches Some(v) ==> (v == 0 ==> r == 1),
        raw matches Some(v) ==> (v > 31_536_000 ==> r == 31_536_000),
{
    let v = match raw {
        Some(v) => v,
        None => DEFAULT_WINDOW_SECS,
    };
    clamp_u64(v, 1, MAX_WINDOW_SECS)
}

/// A page size: `default` when absent, and between 1 and `max`.
pub fn limit_or_default(raw: Option<i64>, default: i64, max: i64) -> (r: i64)
    requires
        1 <= max,
    ensures
        r == clamp_spec(or_default_i64(raw, default), 1, max as int),
        1 <= r <= max,
        raw matches Some(v) ==> (1 <= v <= max ==> r == v),
        raw matches Some(v) ==> (v < 1 ==> r == 1),
        raw matches Some(v) ==> (v > max ==> r == max),
        raw is None ==> (1 <= default <= max ==> r == default),
{
    let v = match raw {
        Some(v) => v,
        None => default,
    };
    clamp_i64(v, 1, max)
}

/// The delay of a replayed delivery: none when absent, at most a day.
pub fn replay_delay_secs(raw: Option<u64>) -> (r: u64)
    ensures
        r == clamp_spec(or_default_u64(raw, 0), 0, MAX_REPLAY_DELAY_SECS as int),
        r <= MAX_REPLAY_DELAY_SECS,
        raw is None ==> r == 0,
        raw matches Some(v) ==> (v <= 86_400 ==> r == v),
        raw matches Some(v) ==> (v > 86_400 ==> r == 86_400),
{
    let v = match raw {
        Some(v) => v,
        None => 0,
    };
    clamp_u64(v, 0, MAX_REPLAY_DELAY_SECS)
}

/// A count threshold: zero when absent, never negative.
pub fn non_negative_or_zero(raw: Option<i64>) -> (r: i64)
    ensures
        r == (match raw {
            Some(v) => if v > 0 { v } else { 0 },
            None => 0,
        }),
        r >= 0,
{
    match raw {
        Some(v) => if v > 0 { v } else { 0 },
        None => 0,
    }
}

} // verus!

//! Normalization of the three incompatible visit-time epochs into Unix
//! seconds.
//!
//! Chromium-schema stores keep microseconds since 1601-01-01,
//! WebKit-schema stores keep seconds since 2001-01-01, and Mozilla-schema
//! stores keep microseconds since 1970-01-01.  Every extractor converts to
//! one canonical instant: seconds since 1970-01-01.

use vstd::prelude::*;

verus! {

/// Seconds from 1601-01-01 (the Chromium epoch origin) to 1970-01-01.
pub const CHROMIUM_EPOCH_OFFSET_SECONDS: i64 = 11644473600;

/// Seconds from 1970-01-01 to 2001-01-01 (the WebKit epoch origin).
pub const WEBKIT_EPOCH_OFFSET_SECONDS: i64 = 978307200;

pub const MICROSECONDS_PER_SECOND: i64 = 1000000;

/// Unix seconds denoted by a raw Chromium-schema visit time.
pub open spec fn chromium_to_unix(us: int) -> int {
    us / (MICROSECONDS_PER_SECOND as int) - CHROMIUM_EPOCH_OFFSET_SECONDS
}

/// Unix seconds denoted by a raw WebKit-schema visit time.
pub open spec fn webkit_to_unix(s: int) -> int {
    s + WEBKIT_EPOCH_OFFSET_SECONDS
}

/// Unix seconds denoted by a raw Mozilla-schema visit time.
pub open spec fn mozilla_to_unix(us: int) -> int {
    us / (MICROSECONDS_PER_SECOND as int)
}

/// The raw Chromium-schema value that denotes the Unix instant `t`.
pub open spec fn chromium_encoding(t: int) -> int {
    (t + CHROMIUM_EPOCH_OFFSET_SECONDS) * MICROSECONDS_PER_SECOND
}

/// The raw WebKit-schema value that denotes the Unix instant `t`.
pub open spec fn webkit_encoding(t: int) -> int {
    t - WEBKIT_EPOCH_OFFSET_SECONDS
}

/// The raw Mozilla-schema value that denotes the Unix instant `t`.
pub open spec fn mozilla_encoding(t: int) -> int {
    t * MICROSECONDS_PER_SECOND
}

/// The three epoch tables agree: encoding any Unix instant in any of the
/// three source schemes and converting it back yields the same instant, so
/// a record's canonical timestamp does not depend on which browser family
/// stored it.
pub proof fn lemma_epoch_round_trip(t: int)
    ensures
        chromium_to_unix(chromium_encoding(t)) == t,
        webkit_to_unix(webkit_encoding(t)) == t,
        mozilla_to_unix(mozilla_encoding(t)) == t,
{
    assert(((t + CHROMIUM_EPOCH_OFFSET_SECONDS) * (MICROSECONDS_PER_SECOND as int)) / (
    MICROSECONDS_PER_SECOND as int) == t + CHROMIUM_EPOCH_OFFSET_SECONDS) by (nonlinear_arith);
    assert((t * (MICROSECONDS_PER_SECOND as int)) / (MICROSECONDS_PER_SECOND as int) == t)
        by (nonlinear_arith);
}

/// Converts a raw Chromium-schema visit time (microseconds since
/// 1601-01-01) to Unix seconds.
pub fn chromium_time_to_unix(us: i64) -> (r: i64)
    requires
        0 <= us,
    ensures
        r == chromium_to_unix(us as int),
{
    let seconds: i64 = ((us as u64) / 1000000u64) as i64;
    seconds - CHROMIUM_EPOCH_OFFSET_SECONDS
}

/// Converts a raw WebKit-schema visit time (whole seconds since
/// 2001-01-01) to Unix seconds.
pub fn webkit_time_to_unix(s: i64) -> (r: i64)
    requires
        s + WEBKIT_EPOCH_OFFSET_SECONDS <= i64::MAX,
        i64::MIN <= s + WEBKIT_EPOCH_OFFSET_SECONDS,
    ensures
        r == webkit_to_unix(s as int),
{
    s + WEBKIT_EPOCH_OFFSET_SECONDS
}

/// Converts a raw Mozilla-schema visit time (microseconds since
/// 1970-01-01) to Unix seconds.
pub fn mozilla_time_to_unix(us: i64) -> (r: i64)
    requires
        0 <= us,
    ensures
        r == mozilla_to_unix(us as int),
{
    ((us as u64) / 1000000u64) as i64
}

} // verus!

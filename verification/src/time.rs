//! Timestamps and their RFC 2822 rendering.
//!
//! A timestamp is a count of non-leap seconds since the Unix epoch. The
//! renderable range covers the years 0000 through 9999, the span the RFC 2822
//! format can express.

use vstd::prelude::*;

verus! {

/// 0000-01-01 00:00:00 UTC, the earliest renderable second.
pub const MIN_TIMESTAMP: i64 = -62167219200;

/// 9999-12-31 23:59:59 UTC, the latest renderable second.
pub const MAX_TIMESTAMP: i64 = 253402300799;

/// Whether the UTC date of `ts` falls in the years 0000 through 9999.
pub open spec fn ts_in_range(ts: int) -> bool {
    MIN_TIMESTAMP <= ts <= MAX_TIMESTAMP
}

/// `ts` clamped into the renderable range; the identity on in-range inputs.
pub open spec fn clamp_ts(ts: int) -> int {
    if ts < MIN_TIMESTAMP {
        MIN_TIMESTAMP as int
    } else if ts > MAX_TIMESTAMP {
        MAX_TIMESTAMP as int
    } else {
        ts
    }
}

/// Clamps a timestamp into the renderable range.
pub fn clamp_timestamp(ts: i64) -> (r: i64)
    ensures
        r as int == clamp_ts(ts as int),
        ts_in_range(r as int),
{
    if ts < MIN_TIMESTAMP {
        MIN_TIMESTAMP
    } else if ts > MAX_TIMESTAMP {
        MAX_TIMESTAMP
    } else {
        ts
    }
}

/// The RFC 2822 date-time string for the in-range timestamp `ts`, e.g.
/// `Thu, 1 Jan 1970 00:00:00 +0000`; a function of `ts` alone.
pub uninterp spec fn rfc2822_of(ts: int) -> Seq<char>;

/// Relies on chrono's `DateTime::<Utc>::from_timestamp`, which returns `Some`
/// for every second whose date years 0000..=9999 can hold, and on
/// `DateTime::to_rfc2822`, which formats the date-time and panics only on
/// years outside that span; the `requires` keeps both inside it.
#[verifier::external_body]
pub(crate) fn format_rfc2822(ts: i64) -> (r: String)
    requires
        ts_in_range(ts as int),
    ensures
        r@ == rfc2822_of(ts as int),
{
    chrono::DateTime::<chrono::Utc>::from_timestamp(ts, 0).unwrap().to_rfc2822()
}

/// Relies on std's `SystemTime::now` and `SystemTime::duration_since`: a
/// clock reading, of which no fixed value can be promised. Both arms of the
/// result are converted to signed seconds (saturating at the i64 bounds), so
/// the call cannot panic, whatever the clock reads.
#[verifier::external_body]
fn now_timestamp() -> (r: i64) {
    match std::time::SystemTime::now().duration_since(std::time::UNIX_EPOCH) {
        Ok(d) => i64::try_from(d.as_secs()).unwrap_or(i64::MAX),
        Err(e) => i64::try_from(e.duration().as_secs()).map(|v| -v).unwrap_or(i64::MIN),
    }
}

/// The current time, clamped into the renderable range.
pub fn current_timestamp() -> (r: i64)
    ensures
        ts_in_range(r as int),
{
    clamp_timestamp(now_timestamp())
}

} // verus!

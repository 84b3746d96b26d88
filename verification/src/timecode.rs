//! Decoding of the backup's epoch-based timestamps, and trusted local-time
//! formatting.
//!
//! A raw stored value counts seconds since 2001-01-01T00:00:00Z. If it is
//! still negative after that offset is applied, the source stored a date with
//! no year component: the value is reinterpreted against a second, larger
//! epoch and flagged year-unknown. Message timestamps are stored in
//! nanoseconds and are always year-known.
use vstd::prelude::*;

use crate::constants::{NO_YEAR_OFFSET, TIMESTAMP_OFFSET};
use crate::Error;

verus! {

/// The decoded form of a raw stored value: a UNIX timestamp in seconds, and
/// whether the year component is meaningful.
pub open spec fn decode_spec(raw: int) -> (int, bool) {
    let t = raw + TIMESTAMP_OFFSET as int;
    if t >= 0 {
        (t, true)
    } else {
        (t + NO_YEAR_OFFSET as int, false)
    }
}

/// Decodes a raw stored date. Fails only when the offset addition leaves the
/// machine's integer range, which no well-formed backup produces.
pub fn decode(raw: i64) -> (r: Result<(i64, bool), Error>)
    ensures
        r is Ok <==> raw + TIMESTAMP_OFFSET as int <= i64::MAX as int,
        r matches Ok(p) ==> p.0 == decode_spec(raw as int).0 && p.1 == decode_spec(raw as int).1,
        r matches Err(e) ==> e matches Error::Decode(v) && v == raw,
{
    if raw > i64::MAX - TIMESTAMP_OFFSET {
        return Err(Error::Decode(raw));
    }
    let t = raw + TIMESTAMP_OFFSET;
    if t >= 0 {
        Ok((t, true))
    } else {
        Ok((t + NO_YEAR_OFFSET, false))
    }
}

/// Division of a raw nanosecond count by 10^9, truncated toward zero as the
/// message store's own query engine truncates.
pub open spec fn ns_to_secs_spec(raw: int) -> int {
    if raw >= 0 {
        raw / 1000000000
    } else {
        -((-raw) / 1000000000)
    }
}

/// The decoded UNIX timestamp of a message, stored raw in nanoseconds since
/// the 2001 epoch.
pub open spec fn msg_timestamp_spec(raw_ns: int) -> int {
    ns_to_secs_spec(raw_ns) + TIMESTAMP_OFFSET as int
}

/// Converts a raw message timestamp (nanoseconds since the 2001 epoch) to a
/// UNIX timestamp in seconds. Never fails: the divided value cannot leave the
/// machine's integer range.
pub fn msg_timestamp(raw_ns: i64) -> (r: i64)
    ensures
        r == msg_timestamp_spec(raw_ns as int),
{
    let secs: i64 = if raw_ns >= 0 {
        raw_ns / 1_000_000_000
    } else if raw_ns == i64::MIN {
        -9_223_372_036
    } else {
        assert((-(raw_ns as int)) / 1000000000 <= 9223372036) by {
            assert(-(raw_ns as int) <= i64::MAX as int);
        };
        -((-raw_ns) / 1_000_000_000)
    };
    secs + TIMESTAMP_OFFSET
}

/// Relies on chrono's `DateTime::from_timestamp`, `with_timezone` and
/// `format`: renders the UTC instant `secs` in the machine's local timezone
/// as a weekday, date and twelve-hour time, for session-break headers.
/// `from_timestamp` returns `None` only outside chrono's representable date
/// range (about 262,000 years either side of the common era), so any instant
/// within eight trillion seconds of the UNIX epoch formats successfully.
#[verifier::external_body]
pub(crate) fn format_timestamp_local(secs: i64) -> (r: Option<String>)
    ensures
        -8000000000000 <= secs <= 8000000000000 ==> r is Some,
{
    chrono::DateTime::from_timestamp(secs, 0)
        .map(|utc| utc.with_timezone(&chrono::Local).format("%A, %B %d, %Y @ %I:%M %p").to_string())
}

/// Relies on chrono's `DateTime::from_timestamp`, `with_timezone` and
/// `format`: renders the UTC instant `secs` in the machine's local timezone
/// as a month, day and year, for contact dates whose year is known.
/// Returns `None` only outside chrono's representable date range.
#[verifier::external_body]
pub(crate) fn format_date_with_year_local(secs: i64) -> (r: Option<String>)
    ensures
        -8000000000000 <= secs <= 8000000000000 ==> r is Some,
{
    chrono::DateTime::from_timestamp(secs, 0)
        .map(|utc| utc.with_timezone(&chrono::Local).format("%B %d, %Y").to_string())
}

/// Relies on chrono's `DateTime::from_timestamp`, `with_timezone` and
/// `format`: renders the UTC instant `secs` in the machine's local timezone
/// as a month and day only, for contact dates stored without a year.
/// Returns `None` only outside chrono's representable date range.
#[verifier::external_body]
pub(crate) fn format_date_no_year_local(secs: i64) -> (r: Option<String>)
    ensures
        -8000000000000 <= secs <= 8000000000000 ==> r is Some,
{
    chrono::DateTime::from_timestamp(secs, 0)
        .map(|utc| utc.with_timezone(&chrono::Local).format("%B %d").to_string())
}

} // verus!

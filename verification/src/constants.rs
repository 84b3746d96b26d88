//! Epoch constants of the backup's timestamp format.
use vstd::prelude::*;

verus! {

/// Seconds from the UNIX epoch to 2001-01-01T00:00:00Z, the zero point of the
/// backup's absolute timestamps.
pub const TIMESTAMP_OFFSET: i64 = 978307200;

/// Extra offset applied when a stored date carries no year component: a raw
/// value that is still negative after `TIMESTAMP_OFFSET` is reinterpreted
/// against this second, larger epoch and flagged as year-unknown.
pub const NO_YEAR_OFFSET: i64 = 12528129600;

} // verus!

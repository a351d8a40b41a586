//! Spans of time: what is known of [`std::time::Duration`].

use std::time::Duration;
use vstd::prelude::*;

verus! {

/// The nanoseconds in a second.
pub const NANOS_PER_SEC: u32 = 1_000_000_000;

/// The milliseconds between two reports of either program.
pub const REPORT_INTERVAL_MILLIS: u64 = 1000;

/// The whole seconds of a span of time.
pub uninterp spec fn duration_secs(span: Duration) -> u64;

/// The nanoseconds of a span of time beyond its whole seconds.
pub uninterp spec fn duration_nanos(span: Duration) -> u32;

/// The whole milliseconds of a span of time.
pub open spec fn duration_millis(span: Duration) -> nat {
    (duration_secs(span) * 1000 + duration_nanos(span) / 1_000_000) as nat
}

/// `Duration::from_secs` makes a span of the given number of whole seconds.
pub assume_specification[ Duration::from_secs ](secs: u64) -> (span: Duration)
    ensures
        duration_secs(span) == secs,
        duration_nanos(span) == 0,
;

/// `Duration::as_secs` returns the whole seconds.
pub assume_specification[ Duration::as_secs ](span: &Duration) -> (secs: u64)
    ensures
        secs == duration_secs(*span),
;

/// `Duration::subsec_nanos` returns the nanoseconds beyond the whole seconds, which
/// are less than a second.
pub assume_specification[ Duration::subsec_nanos ](span: &Duration) -> (nanos: u32)
    ensures
        nanos == duration_nanos(*span),
        nanos < NANOS_PER_SEC,
;

} // verus!

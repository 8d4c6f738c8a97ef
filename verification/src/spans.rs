//! Session-time span arithmetic shared by epoch planning and gap assignment.
use vstd::prelude::*;

verus! {

/// An inclusive session-time range `[start, end]` in nanoseconds.
#[derive(Clone, Copy, Debug, PartialEq, Eq, Structural)]
pub struct SessionSpan {
    pub start: u64,
    pub end: u64,
}

impl SessionSpan {
    /// Whether `time` lies inside the inclusive span.
    pub open spec fn holds(self, time: u64) -> bool {
        self.start <= time && time <= self.end
    }

    /// Whether `time` lies inside the inclusive span.
    pub fn contains(&self, time: u64) -> (r: bool)
        ensures
            r == self.holds(time),
    {
        self.start <= time && time <= self.end
    }
}

/// The pair that `clamp_range` returns, stated directly.
pub open spec fn clamp_range_spec(start_value: u64, end_value: u64, start: u64, end: u64) -> (u64, u64) {
    if end_value < start {
        (start, start)
    } else if start_value > end {
        (end, end)
    } else {
        (
            if start_value >= start { start_value } else { start },
            if end_value <= end { end_value } else { end },
        )
    }
}

/// Clamps `[start_value, end_value]` into the span `[start, end]`. A range entirely
/// before the span collapses onto its start, one entirely after it onto its end.
pub fn clamp_range(start_value: u64, end_value: u64, start: u64, end: u64) -> (r: (u64, u64))
    ensures
        r == clamp_range_spec(start_value, end_value, start, end),
{
    if end_value < start {
        (start, start)
    } else if start_value > end {
        (end, end)
    } else {
        let s = if start_value >= start { start_value } else { start };
        let e = if end_value <= end { end_value } else { end };
        (s, e)
    }
}

/// Distance between a gap and a span, stated directly.
pub open spec fn distance_to_span_spec(gap_start: u64, gap_end: u64, start: u64, end: u64) -> u64 {
    if gap_end < start {
        (start - gap_end) as u64
    } else if gap_start > end {
        (gap_start - end) as u64
    } else {
        0
    }
}

/// Session-time distance from a gap `[gap_start, gap_end]` to a span `[start, end]`;
/// zero when they overlap.
pub fn distance_to_span(gap_start: u64, gap_end: u64, start: u64, end: u64) -> (d: u64)
    ensures
        d == distance_to_span_spec(gap_start, gap_end, start, end),
{
    if gap_end < start {
        start - gap_end
    } else if gap_start > end {
        gap_start - end
    } else {
        0
    }
}

/// A clamped range always lies inside the span it was clamped to, and stays ordered
/// when both the range and the span are ordered.
pub proof fn lemma_clamp_range_within_span(start_value: u64, end_value: u64, start: u64, end: u64)
    requires
        start_value <= end_value,
        start <= end,
    ensures
        ({
            let (s, e) = clamp_range_spec(start_value, end_value, start, end);
            start <= s && s <= e && e <= end
        }),
{
}

} // verus!

//! Startup / icon-pipeline timing.
//!
//! Makes "where does launch time go?" answerable from a log file: each mark
//! reports milliseconds since process start and since the previous mark on
//! the same timeline. Times are nanoseconds on a monotonic clock, measured
//! from one fixed reference instant by the caller, which also prints the
//! lines.
//!
//! A [`StartupTimer`] is one timeline. It is deliberately not `Clone`: code
//! that hands the timeline to several threads shares the one value (for
//! example behind `Arc<Mutex<..>>`), so a mark from any holder moves the
//! "previous mark" for all of them.

use vstd::prelude::*;

verus! {

/// Nanoseconds per millisecond.
pub const NANOS_PER_MILLI: u64 = 1_000_000;

/// `ns` nanoseconds as whole milliseconds, rounded to nearest, with a tie
/// (exactly half a millisecond over) going to the even neighbour, as
/// `{:.0}` formatting rounds.
pub open spec fn spec_round_millis(ns: int) -> int {
    let q = ns / 1_000_000;
    let r = ns % 1_000_000;
    if r > 500_000 || (r == 500_000 && q % 2 == 1) {
        q + 1
    } else {
        q
    }
}

/// `later - earlier`, or 0 when `later` is earlier.
pub open spec fn spec_elapsed(later: u64, earlier: u64) -> int {
    if later >= earlier {
        later - earlier
    } else {
        0
    }
}

/// Timings reported for one mark.
#[derive(Debug, Clone, Copy, PartialEq, Eq, Structural)]
pub struct MarkTiming {
    /// Milliseconds since the previous mark (or since start for the first).
    pub delta_ms: u64,
    /// Milliseconds since process start.
    pub total_ms: u64,
}

/// Records the startup timeline: the process start and the latest mark.
#[derive(Debug)]
pub struct StartupTimer {
    process_start: u64,
    last: u64,
}

fn round_millis(ns: u64) -> (r: u64)
    ensures
        r == spec_round_millis(ns as int),
{
    let q = ns / NANOS_PER_MILLI;
    let r = ns % NANOS_PER_MILLI;
    if r > 500_000 || (r == 500_000 && q % 2 == 1) {
        q + 1
    } else {
        q
    }
}

impl StartupTimer {
    pub closed spec fn spec_start(&self) -> u64 {
        self.process_start
    }

    pub closed spec fn spec_last(&self) -> u64 {
        self.last
    }

    /// Capture `now` as the process start reference.
    pub fn new(now: u64) -> (r: Self)
        ensures
            r.spec_start() == now,
            r.spec_last() == now,
    {
        StartupTimer { process_start: now, last: now }
    }

    /// Record a phase boundary at `now`: the time since the previous mark and
    /// since process start, both in rounded milliseconds.
    pub fn mark(&mut self, now: u64) -> (r: MarkTiming)
        ensures
            final(self).spec_start() == old(self).spec_start(),
            final(self).spec_last() == now,
            r.delta_ms == spec_round_millis(spec_elapsed(now, old(self).spec_last())),
            r.total_ms == spec_round_millis(spec_elapsed(now, old(self).spec_start())),
    {
        let total_ns = if now >= self.process_start {
            now - self.process_start
        } else {
            0
        };
        let delta_ns = if now >= self.last {
            now - self.last
        } else {
            0
        };
        self.last = now;
        MarkTiming { delta_ms: round_millis(delta_ns), total_ms: round_millis(total_ns) }
    }

    /// The time captured at construction.
    pub fn process_start(&self) -> (r: u64)
        ensures
            r == self.spec_start(),
    {
        self.process_start
    }
}

/// For marks taken in time order, the spans between consecutive marks add
/// up to the span since the first of them: what the timeline reports is
/// consistent from mark to mark.
pub proof fn law_mark_spans_add_up(start: u64, t1: u64, t2: u64)
    requires
        start <= t1 <= t2,
    ensures
        spec_elapsed(t1, start) + spec_elapsed(t2, t1) == spec_elapsed(t2, start),
{
}

} // verus!

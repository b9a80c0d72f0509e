//! Frame-rate tracking for the on-screen FPS overlay.
//!
//! [`FpsTracker`] turns frame presentation events into a smoothed integer FPS
//! reading. Its core is a ring buffer of presentation timestamps; the rate is
//! the number of intervals between the oldest and newest timestamp divided
//! by the time between them.
//!
//! Timestamps are nanoseconds on a monotonic clock (the caller measures them
//! from one fixed reference instant).
//!
//! - [`FpsTracker::note_presented`] is the portable path, called right after
//!   a frame is presented.
//! - [`FpsTracker::note_dxgi`] consumes compositor-confirmed presentation
//!   times and drops repeated timestamps, so a stalled compositor does not
//!   inflate the reading.

use vstd::prelude::*;

verus! {

/// Maximum number of presentation timestamps kept in the ring buffer.
pub const RING_CAP: usize = 64;

/// Minimum span between the oldest and newest samples (120 ms) before a
/// reading is emitted.
pub const MIN_SPAN_NANOS: u64 = 120_000_000;

/// FPS value reported before enough samples have accumulated.
pub const WARMUP_FPS: u32 = 0;

/// Nanoseconds per second.
pub const NANOS_PER_SEC: u64 = 1_000_000_000;

/// The reading for `count` samples spanning `span` nanoseconds: the number
/// of intervals per second, rounded to the nearest integer (halves up), and
/// at least 1.
pub open spec fn fps_reading(count: int, span: int) -> int {
    let intervals = if count - 1 > 1 {
        count - 1
    } else {
        1
    };
    let q = (2 * intervals * NANOS_PER_SEC + span) / (2 * span);
    if q < 1 {
        1
    } else {
        q
    }
}

/// `newest - oldest`, or 0 when `newest` is earlier.
pub open spec fn span_between(newest: u64, oldest: u64) -> int {
    if newest >= oldest {
        newest - oldest
    } else {
        0
    }
}

/// Abstract state of an [`FpsTracker`]: the retained timestamps, oldest
/// first, and the current reading.
pub ghost struct FpsModel {
    pub window: Seq<u64>,
    pub cached: u32,
}

impl FpsModel {
    /// The window after recording `ts`: the newest `RING_CAP` timestamps.
    pub open spec fn pushed(self, ts: u64) -> FpsModel {
        FpsModel {
            window: if self.window.len() < RING_CAP {
                self.window.push(ts)
            } else {
                self.window.drop_first().push(ts)
            },
            ..self
        }
    }

    /// The reading after recomputing with `newest` as the current time: zero
    /// without samples, unchanged while the window spans less than
    /// `MIN_SPAN_NANOS`, and `fps_reading` otherwise.
    pub open spec fn recomputed(self, newest: u64) -> FpsModel {
        if self.window.len() == 0 {
            FpsModel { cached: WARMUP_FPS, ..self }
        } else {
            let span = span_between(newest, self.window[0]);
            if span < MIN_SPAN_NANOS {
                self
            } else {
                FpsModel { cached: fps_reading(self.window.len() as int, span) as u32, ..self }
            }
        }
    }

    pub open spec fn first(self) -> Option<u64> {
        if self.window.len() == 0 {
            None
        } else {
            Some(self.window[0])
        }
    }

    pub open spec fn last(self) -> Option<u64> {
        if self.window.len() == 0 {
            None
        } else {
            Some(self.window.last())
        }
    }

    pub open spec fn presented(self, now: u64) -> FpsModel {
        self.pushed(now).recomputed(now)
    }

    /// The tracker after recording presentations at each time of `ts`, in
    /// order.
    pub open spec fn presented_all(self, ts: Seq<u64>) -> FpsModel
        decreases ts.len(),
    {
        if ts.len() == 0 {
            self
        } else {
            self.presented_all(ts.drop_last()).presented(ts.last())
        }
    }

    pub open spec fn dxgi(self, at: u64) -> FpsModel {
        if self.last() != Some(at) {
            self.pushed(at).recomputed(at)
        } else {
            self.recomputed(at)
        }
    }
}

/// A ring-buffer presentation-rate estimator.
#[derive(Debug)]
pub struct FpsTracker {
    /// Timestamps of frame presentations; a ring buffer once full.
    samples: Vec<u64>,
    /// Index in `samples` that receives the next push.
    head: usize,
    /// Number of valid samples currently held (saturates at `RING_CAP`).
    len: usize,
    /// Most recent reading.
    cached: u32,
}

impl View for FpsTracker {
    type V = FpsModel;

    closed spec fn view(&self) -> FpsModel {
        let start = if self.len < RING_CAP {
            0
        } else {
            self.head as int
        };
        FpsModel {
            window: Seq::new(
                self.len as nat,
                |i: int| self.samples@[(start + i) % (RING_CAP as int)],
            ),
            cached: self.cached,
        }
    }
}

impl FpsTracker {
    pub closed spec fn wf(&self) -> bool {
        &&& self.len == self.samples@.len()
        &&& self.len <= RING_CAP
        &&& self.head < RING_CAP
        &&& self.len < RING_CAP ==> self.head == self.len
    }

    /// An empty tracker that reports `0` until it warms up.
    pub fn new() -> (r: Self)
        ensures
            r.wf(),
            r@.window.len() == 0,
            r@.cached == WARMUP_FPS,
    {
        Self { samples: Vec::with_capacity(RING_CAP), head: 0, len: 0, cached: WARMUP_FPS }
    }

    /// Record a frame that was just presented at `now` (portable path).
    pub fn note_presented(&mut self, now: u64)
        requires
            old(self).wf(),
        ensures
            final(self).wf(),
            final(self)@ == old(self)@.presented(now),
    {
        self.push(now);
        self.recompute(now);
    }

    /// Record a frame whose presentation the compositor confirmed at
    /// `presented_at`. A timestamp equal to the newest sample is not pushed
    /// again, so repeated calls while the compositor is idle do not inflate
    /// the rate.
    pub fn note_dxgi(&mut self, presented_at: u64)
        requires
            old(self).wf(),
        ensures
            final(self).wf(),
            final(self)@ == old(self)@.dxgi(presented_at),
    {
        if self.last_sample() != Some(presented_at) {
            self.push(presented_at);
        }
        self.recompute(presented_at);
    }

    /// Latest reported FPS reading. Returns `0` until enough samples arrive.
    pub fn current(&self) -> (r: u32)
        ensures
            r == self@.cached,
    {
        self.cached
    }

    /// Push a timestamp, overwriting the oldest sample once the capacity is
    /// reached.
    pub fn push(&mut self, ts: u64)
        requires
            old(self).wf(),
        ensures
            final(self).wf(),
            final(self)@ == old(self)@.pushed(ts),
    {
        let ghost w = self@.window;
        if self.samples.len() < RING_CAP {
            self.samples.push(ts);
            self.head = (self.head + 1) % RING_CAP;
            self.len = self.samples.len();
            proof {
                assert(self@.window =~= w.push(ts));
            }
            return;
        }
        let ghost old_head = self.head as int;
        self.samples.set(self.head, ts);
        self.head = (self.head + 1) % RING_CAP;
        self.len = RING_CAP;
        proof {
            let target = w.drop_first().push(ts);
            assert forall|i: int| 0 <= i < RING_CAP implies #[trigger] self@.window[i]
                == target[i] by {
                let h1 = (old_head + 1) % (RING_CAP as int);
                assert(h1 == old_head + 1 || (old_head == 63 && h1 == 0));
                if i < 63 {
                    assert((h1 + i) % 64 == (old_head + i + 1) % 64);
                    assert((old_head + i + 1) % 64 != old_head);
                } else {
                    assert((h1 + i) % 64 == old_head);
                }
            }
            assert(self@.window =~= target);
        }
    }

    /// Newest sample currently held in the buffer, if any.
    pub fn last_sample(&self) -> (r: Option<u64>)
        requires
            self.wf(),
        ensures
            r == self@.last(),
    {
        if self.len == 0 {
            return None;
        }
        let idx = (self.head + RING_CAP - 1) % RING_CAP;
        let last = self.samples.len() - 1;
        let i = if idx < last {
            idx
        } else {
            last
        };
        proof {
            if self.len == RING_CAP {
                assert(((self.head as int) + (RING_CAP as int) - 1) % 64 == ((self.head as int) + (
                self.len as int) - 1) % 64);
            }
        }
        Some(self.samples[i])
    }

    /// Oldest sample currently held in the buffer, if any.
    pub fn first_sample(&self) -> (r: Option<u64>)
        requires
            self.wf(),
        ensures
            r == self@.first(),
    {
        if self.len == 0 {
            return None;
        }
        if self.len < RING_CAP {
            // Buffer hasn't wrapped yet: oldest is index 0.
            return Some(self.samples[0]);
        }
        // Buffer is full: oldest is the current head (next write target).
        Some(self.samples[self.head])
    }

    /// Recompute the cached FPS from the current buffer window.
    pub fn recompute(&mut self, newest: u64)
        requires
            old(self).wf(),
        ensures
            final(self).wf(),
            final(self)@ == old(self)@.recomputed(newest),
    {
        let oldest = match self.first_sample() {
            Some(t) => t,
            None => {
                self.cached = WARMUP_FPS;
                proof {
                    assert(self@.window =~= old(self)@.window);
                }
                return;
            },
        };
        let span: u64 = if newest >= oldest {
            newest - oldest
        } else {
            0
        };
        if span < MIN_SPAN_NANOS {
            return;
        }
        // `len` counts samples; the rate is (samples-1) intervals over `span`.
        let intervals: u64 = if self.len > 2 {
            (self.len - 1) as u64
        } else {
            1
        };
        let num: u128 = 2 * (intervals as u128) * (NANOS_PER_SEC as u128) + span as u128;
        let den: u128 = 2 * (span as u128);
        let q: u128 = num / den;
        proof {
            assert(q <= 525) by (nonlinear_arith)
                requires
                    q == num / den,
                    num == 2 * intervals * 1_000_000_000 + span,
                    den == 2 * span,
                    intervals <= 63,
                    span >= 120_000_000,
            ;
        }
        self.cached = if q < 1 {
            1
        } else {
            q as u32
        };
        proof {
            assert(self@.window =~= old(self)@.window);
        }
    }
}

/// Recording a presentation keeps at most `RING_CAP` timestamps, makes the
/// new one the newest, and keeps the oldest while the buffer has room.
pub proof fn law_push_tracks_newest(m: FpsModel, ts: u64)
    requires
        m.window.len() <= RING_CAP,
    ensures
        m.pushed(ts).window.len() <= RING_CAP,
        m.pushed(ts).last() == Some(ts),
        0 < m.window.len() < RING_CAP ==> m.pushed(ts).first() == m.first(),
        m.window.len() == 0 ==> m.pushed(ts).first() == Some(ts),
{
}

/// A compositor timestamp reported twice in a row counts once: repeating
/// the same report changes nothing.
pub proof fn law_dxgi_repeat_is_idempotent(m: FpsModel, at: u64)
    requires
        m.window.len() <= RING_CAP,
    ensures
        m.dxgi(at).dxgi(at) == m.dxgi(at),
{
    let a = m.dxgi(at);
    if m.last() == Some(at) {
        assert(a.window == m.window);
    } else {
        assert(a.window == m.pushed(at).window);
    }
    assert(a.last() == Some(at));
}

/// While the window spans less than `MIN_SPAN_NANOS`, recording frames
/// leaves the reading unchanged; a fresh tracker therefore reports 0.
pub proof fn law_no_reading_before_warmup(m: FpsModel, now: u64)
    requires
        m.window.len() <= RING_CAP,
        m.pushed(now).window.len() > 0,
        span_between(now, m.pushed(now).window[0]) < MIN_SPAN_NANOS,
    ensures
        m.presented(now).cached == m.cached,
{
}

/// Presentation times in order, at most `RING_CAP` of them, all within
/// `MIN_SPAN_NANOS` of the first.
pub open spec fn warmup_run(ts: Seq<u64>) -> bool {
    &&& ts.len() <= RING_CAP
    &&& forall|i: int, j: int| 0 <= i <= j < ts.len() ==> ts[i] <= ts[j]
    &&& ts.len() > 0 ==> ts.last() - ts[0] < MIN_SPAN_NANOS
}

proof fn lemma_warmup_run(m: FpsModel, ts: Seq<u64>)
    requires
        m.window.len() == 0,
        m.cached == WARMUP_FPS,
        warmup_run(ts),
    ensures
        m.presented_all(ts).window == ts,
        m.presented_all(ts).cached == WARMUP_FPS,
    decreases ts.len(),
{
    if ts.len() > 0 {
        let p = ts.drop_last();
        assert(warmup_run(p)) by {
            if p.len() > 0 {
                assert(ts[0] <= p.last());
            }
        }
        lemma_warmup_run(m, p);
        assert(m.presented_all(p).pushed(ts.last()).window =~= ts);
    }
}

/// A fresh tracker reports 0 after every presentation of a run that stays
/// within the warm-up span: no reading is emitted before `MIN_SPAN_NANOS`
/// have passed since the first frame.
pub proof fn law_zero_through_warmup(m: FpsModel, ts: Seq<u64>)
    requires
        m.window.len() == 0,
        m.cached == WARMUP_FPS,
        warmup_run(ts),
    ensures
        forall|k: int| 0 <= k <= ts.len() ==> #[trigger] m.presented_all(ts.take(k)).cached == 0,
{
    assert forall|k: int| 0 <= k <= ts.len() implies #[trigger] m.presented_all(ts.take(k)).cached
        == 0 by {
        let p = ts.take(k);
        assert(warmup_run(p)) by {
            if p.len() > 0 {
                assert(p.last() == ts[k - 1]);
                assert(ts[k - 1] <= ts.last());
            }
        }
        lemma_warmup_run(m, p);
    }
}

/// For frames presented at a steady interval of `period` nanoseconds the
/// reading is the frame rate `1e9 / period` rounded to the nearest integer
/// (at least 1), however many frames the window holds.
pub proof fn law_steady_rate(count: int, period: int)
    requires
        count >= 2,
        period > 0,
    ensures
        fps_reading(count, (count - 1) * period) == if (2 * NANOS_PER_SEC + period) / (2 * period)
            < 1 {
            1
        } else {
            (2 * NANOS_PER_SEC + period) / (2 * period)
        },
{
    let n = count - 1;
    let a = 2 * NANOS_PER_SEC + period;
    let b = 2 * period;
    assert(2 * n * NANOS_PER_SEC + n * period == n * a) by (nonlinear_arith)
        requires
            a == 2 * NANOS_PER_SEC + period,
    ;
    assert(2 * (n * period) == n * b) by (nonlinear_arith)
        requires
            b == 2 * period,
    ;
    assert((n * a) / (n * b) == a / b) by {
        assert(n * b > 0) by (nonlinear_arith)
            requires
                n >= 1,
                b > 0,
        ;
        vstd::arithmetic::div_mod::lemma_fundamental_div_mod(a, b);
        vstd::arithmetic::div_mod::lemma_mod_bound(a, b);
        let q = a / b;
        let r = a % b;
        assert(n * a == q * (n * b) + n * r) by (nonlinear_arith)
            requires
                a == b * q + r,
        ;
        assert(0 <= n * r < n * b) by (nonlinear_arith)
            requires
                0 <= r < b,
                n >= 1,
        ;
        vstd::arithmetic::div_mod::lemma_fundamental_div_mod_converse(n * a, n * b, q, n * r);
    }
}

} // verus!

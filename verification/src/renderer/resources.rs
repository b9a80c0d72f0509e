//! Capacity bookkeeping for persistent GPU instance buffers.
//!
//! Each overlay batch keeps one GPU buffer alive, with a logical length (how
//! many instances are valid this frame) and a capacity (how many fit without
//! reallocation). A write that fits within the capacity reuses the buffer;
//! only a capacity overflow grows it. An empty list sets the length to 0 and
//! keeps the buffer for reuse, so a batch that disappears and reappears does
//! not churn allocations.
//!
//! [`InstanceBuffer`] holds the length and capacity and decides, for each
//! write, whether the renderer must allocate a larger GPU buffer and whether
//! it uploads bytes.

use vstd::prelude::*;

verus! {

/// Minimum capacity (in instances) a buffer is grown to. Avoids repeated
/// tiny reallocations for small batches.
pub const MIN_CAPACITY: u32 = 16;

/// Outcome of an [`InstanceBuffer::set`] call.
#[derive(Debug, Clone, Copy, PartialEq, Eq, Structural)]
pub struct SetOutcome {
    /// A brand-new buffer was allocated (capacity grew or first allocation).
    pub allocated: bool,
    /// Number of instances now stored.
    pub len: u32,
    /// Whether bytes were submitted to the GPU.
    pub wrote: bool,
}

impl Default for SetOutcome {
    fn default() -> (r: Self)
        ensures
            r == (SetOutcome { allocated: false, len: 0, wrote: false }),
    {
        SetOutcome { allocated: false, len: 0, wrote: false }
    }
}

pub open spec fn spec_next_capacity(current: u32, needed: u32) -> u32 {
    let doubled: int = if current * 2 > u32::MAX {
        u32::MAX as int
    } else {
        current * 2
    };
    let a: int = if needed > doubled {
        needed as int
    } else {
        doubled
    };
    (if a > MIN_CAPACITY {
        a
    } else {
        MIN_CAPACITY as int
    }) as u32
}

/// Capacity to grow to: at least `needed`, at least double the current
/// capacity (saturating), and at least `MIN_CAPACITY`.
pub fn next_capacity(current: u32, needed: u32) -> (r: u32)
    ensures
        r == spec_next_capacity(current, needed),
        r >= needed,
        r >= MIN_CAPACITY,
{
    // Doubling, saturating at `u32::MAX`.
    let doubled = if current > u32::MAX / 2 {
        u32::MAX
    } else {
        current * 2
    };
    let a = if needed > doubled {
        needed
    } else {
        doubled
    };
    if a > MIN_CAPACITY {
        a
    } else {
        MIN_CAPACITY
    }
}

/// The decision for one write of `needed` instances into a buffer of
/// `capacity`: no upload for an empty list, a fresh allocation when the
/// list outgrows the capacity, a plain upload otherwise.
/// The stored length is `count` truncated to `u32`.
pub open spec fn spec_outcome(capacity: u32, count: int) -> SetOutcome {
    let needed = count as u32;
    if count == 0 {
        SetOutcome { allocated: false, len: 0, wrote: false }
    } else if needed > capacity {
        SetOutcome { allocated: true, len: needed, wrote: true }
    } else {
        SetOutcome { allocated: false, len: needed, wrote: true }
    }
}

/// The outcome of writing `needed` instances into a buffer of `capacity`.
pub fn outcome_for(capacity: u32, needed: u32) -> (r: SetOutcome)
    ensures
        r == spec_outcome(capacity, needed as int),
{
    if needed == 0 {
        SetOutcome { allocated: false, len: 0, wrote: false }
    } else if needed > capacity {
        SetOutcome { allocated: true, len: needed, wrote: true }
    } else {
        SetOutcome { allocated: false, len: needed, wrote: true }
    }
}

/// Length and capacity of one persistent instance buffer.
#[derive(Debug, Clone, Copy, PartialEq, Eq, Structural)]
pub struct InstanceBuffer {
    /// Number of valid instances this frame. Draw count.
    logical: u32,
    /// Capacity in instances (not bytes).
    capacity: u32,
}

impl Default for InstanceBuffer {
    fn default() -> (r: Self)
        ensures
            r.spec_len() == 0,
            r.spec_capacity() == 0,
    {
        Self::new()
    }
}

impl InstanceBuffer {
    pub closed spec fn spec_len(&self) -> u32 {
        self.logical
    }

    pub closed spec fn spec_capacity(&self) -> u32 {
        self.capacity
    }

    /// An empty buffer with no allocation yet. The first non-empty write
    /// allocates.
    pub fn new() -> (r: Self)
        ensures
            r.spec_len() == 0,
            r.spec_capacity() == 0,
    {
        InstanceBuffer { logical: 0, capacity: 0 }
    }

    /// Number of valid instances this frame.
    pub fn len(&self) -> (r: u32)
        ensures
            r == self.spec_len(),
    {
        self.logical
    }

    /// Whether the draw pass should draw this batch: only when it holds
    /// instances.
    pub fn has_instances(&self) -> (r: bool)
        ensures
            r == (self.spec_len() != 0),
    {
        self.logical != 0
    }

    /// Current capacity in instances.
    pub fn capacity(&self) -> (r: u32)
        ensures
            r == self.spec_capacity(),
    {
        self.capacity
    }

    /// Record a write of `count` instances. Grows the capacity only when the
    /// list exceeds it (to `next_capacity`); an empty list keeps the
    /// capacity for reuse. The caller allocates a GPU buffer of the new
    /// capacity when the outcome says `allocated`, and uploads when it says
    /// `wrote`.
    pub fn set(&mut self, count: usize) -> (r: SetOutcome)
        ensures
            final(self).spec_len() == count as u32,
            r == spec_outcome(old(self).spec_capacity(), count as int),
            final(self).spec_capacity() == if r.allocated {
                spec_next_capacity(old(self).spec_capacity(), count as u32)
            } else {
                old(self).spec_capacity()
            },
    {
        #[verifier::truncate]
        let needed = count as u32;
        self.logical = needed;
        if count == 0 {
            return SetOutcome { allocated: false, len: 0, wrote: false };
        }
        if needed > self.capacity {
            self.capacity = next_capacity(self.capacity, needed);
            SetOutcome { allocated: true, len: self.logical, wrote: true }
        } else {
            SetOutcome { allocated: false, len: self.logical, wrote: true }
        }
    }

    /// Drop the buffer entirely (length and capacity reset), to release
    /// GPU memory when a batch is permanently retired.
    pub fn clear(&mut self)
        ensures
            final(self).spec_len() == 0,
            final(self).spec_capacity() == 0,
    {
        self.logical = 0;
        self.capacity = 0;
    }
}

/// After any write the buffer holds at least as many instances as the write
/// asked for, and its capacity never shrinks.
pub proof fn law_capacity_covers_len(capacity: u32, needed: u32)
    ensures
        spec_outcome(capacity, needed as int).allocated ==> spec_next_capacity(capacity, needed) >= needed,
        spec_outcome(capacity, needed as int).allocated ==> spec_next_capacity(capacity, needed)
            >= capacity,
        !spec_outcome(capacity, needed as int).allocated ==> needed <= capacity,
{
}

/// A write that fits the current capacity never allocates, and an empty
/// write never allocates nor uploads.
pub proof fn law_fitting_write_reuses_buffer(capacity: u32, needed: u32)
    requires
        needed <= capacity,
    ensures
        !spec_outcome(capacity, needed as int).allocated,
        needed == 0 ==> !spec_outcome(capacity, needed as int).wrote,
{
}

} // verus!

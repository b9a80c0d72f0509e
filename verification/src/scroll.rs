//! Scroll gesture phases.

use vstd::prelude::*;

verus! {

/// Phase of the paging scroller.
#[derive(Debug, Clone, Copy, PartialEq, Eq, Structural)]
pub enum Phase {
    Idle,
    Dragging,
    Inertial,
    Settling,
    /// A trackpad wheel gesture is driving the position directly from
    /// physical-contact deltas until an explicit terminal event.
    WheelGesture,
}

/// Phase of a wheel/trackpad gesture.
///
/// - [`WheelPhase::Started`]: first delta of a new finger gesture.
/// - [`WheelPhase::Moved`]: an intermediate physical-contact delta.
/// - [`WheelPhase::Ended`]: fingers lifted — start the snap immediately.
/// - [`WheelPhase::Cancelled`]: the gesture was interrupted; snap to the
///   nearest page from rest.
#[derive(Debug, Clone, Copy, PartialEq, Eq, Structural)]
pub enum WheelPhase {
    Started,
    Moved,
    Ended,
    Cancelled,
}

/// Resolved dominant axis of an in-flight wheel gesture, locked once the
/// intent is clear and kept until the gesture ends.
#[derive(Debug, Clone, Copy, PartialEq, Eq, Structural)]
pub enum WheelDirection {
    /// Not enough movement yet to decide.
    Undecided,
    /// Horizontal intent confirmed — deltas drive the grid pager.
    Horizontal,
    /// Vertical intent confirmed — deltas are ignored on the grid.
    Vertical,
}

/// Vertical continuous-scroll phase.
#[derive(Debug, Clone, Copy, PartialEq, Eq, Structural)]
pub enum ContinuousPhase {
    Idle,
    Dragging,
    Inertial,
    Settling,
}

} // verus!

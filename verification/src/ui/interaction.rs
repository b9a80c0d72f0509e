//! Per-widget interaction phase.

use vstd::prelude::*;

verus! {

/// Interaction phase for a widget, following a simple state machine:
///
/// ```text
/// Idle -> Hovered -> Pressed -> Dragging
///                ↓          ↓
///            Settling   Settling
///                          ↓
///                        Idle
/// ```
///
/// `Disabled` is orthogonal — widgets in this phase do not process input.
#[derive(Clone, Copy, Debug, PartialEq, Eq, Structural)]
pub enum InteractionPhase {
    Idle,
    Hovered,
    Pressed,
    Dragging,
    Settling,
    Disabled,
}

impl Default for InteractionPhase {
    fn default() -> (r: Self)
        ensures
            r == InteractionPhase::Idle,
    {
        InteractionPhase::Idle
    }
}

} // verus!

//! Button styles, and a button's input state for one frame.

use crate::ui::interaction::InteractionPhase;
use vstd::prelude::*;

verus! {

/// Visual style for a button.
#[derive(Clone, Copy, Debug, PartialEq, Eq, Structural)]
pub enum ButtonStyle {
    /// Plain row background with label.
    Plain,
    /// Accent-coloured background (prominent action).
    Prominent,
}

/// A button's input state for one frame.
#[derive(Clone, Copy, Debug, PartialEq, Eq, Structural)]
pub struct ButtonInput {
    /// The pointer is over an enabled button.
    pub hovered: bool,
    /// The pointer is held down over an enabled button.
    pub pressed: bool,
    /// The app confirmed a click on this button this frame.
    pub clicked: bool,
}

/// Input state of a button: hovered when the pointer is inside and the
/// button is enabled, pressed when hovered with the pointer held down, and
/// clicked exactly when the app confirmed a click on it (a click routed to a
/// disabled button still reports, as the app decided it).
pub fn button_input(
    pointer_inside: bool,
    pointer_pressed: bool,
    enabled: bool,
    click_confirmed: bool,
) -> (r: ButtonInput)
    ensures
        r.hovered == (pointer_inside && enabled),
        r.pressed == (pointer_inside && enabled && pointer_pressed),
        r.clicked == click_confirmed,
{
    let hovered = pointer_inside && enabled;
    ButtonInput { hovered, pressed: hovered && pointer_pressed, clicked: click_confirmed }
}

/// Interaction phase a button records for the frame: `Disabled` for a
/// disabled button, else `Pressed` while pressed, `Hovered` while hovered,
/// `Idle` otherwise. (An icon button has no disabled state: it passes
/// `enabled == true`.)
pub fn button_phase(enabled: bool, hovered: bool, pressed: bool) -> (r: InteractionPhase)
    ensures
        r == (if !enabled {
            InteractionPhase::Disabled
        } else if pressed {
            InteractionPhase::Pressed
        } else if hovered {
            InteractionPhase::Hovered
        } else {
            InteractionPhase::Idle
        }),
{
    if !enabled {
        InteractionPhase::Disabled
    } else if pressed {
        InteractionPhase::Pressed
    } else if hovered {
        InteractionPhase::Hovered
    } else {
        InteractionPhase::Idle
    }
}

} // verus!

//! Toggle switch types, and the toggle's interaction state machine on the
//! decisions it takes: which phase it is in, which side the thumb is headed
//! for, and whether the value changed. The thumb's spring positions are
//! floating point and stay with the caller, who reports the few facts about
//! them the machine needs as booleans.

use crate::ui::response::Response;
use vstd::prelude::*;

verus! {

/// Visual style for a toggle.
#[derive(Clone, Copy, Debug, PartialEq, Eq, Structural)]
pub enum ToggleStyle {
    /// Single Switch variant (current only choice).
    Switch,
}

/// Response returned when placing a toggle.
#[derive(Clone, Debug)]
pub struct ToggleResponse {
    pub response: Response,
    /// The new toggle value after processing input.
    pub value: bool,
    /// `true` when the value changed this frame.
    pub changed: bool,
}

/// Interaction phase for the toggle state machine.
#[derive(Clone, Copy, Debug, PartialEq, Eq, Structural)]
pub enum ToggleInteractionPhase {
    Idle,
    Hovered,
    Pressed,
    Dragging,
    Settling,
    Disabled,
}

/// The click part of a toggle's frame: whether it counts as clicked, and
/// which side the thumb ends on.
#[derive(Clone, Copy, Debug, PartialEq, Eq, Structural)]
pub struct ToggleClick {
    /// The app confirmed a click on this toggle and the toggle is enabled.
    pub clicked: bool,
    /// The thumb is on the ON side after the click.
    pub on: bool,
}

/// What a click does to a toggle whose thumb is `on` (on the ON side): a
/// click the app confirmed (`click_confirmed`) on an enabled toggle counts
/// and flips it to the other side; otherwise nothing happens.
pub open spec fn spec_toggle_click(enabled: bool, click_confirmed: bool, on: bool) -> ToggleClick {
    let clicked = enabled && click_confirmed;
    ToggleClick {
        clicked,
        on: if clicked {
            !on
        } else {
            on
        },
    }
}

/// The click part of a toggle's frame (see [`spec_toggle_click`]); a flip
/// is a change of value this frame.
pub fn toggle_click(enabled: bool, click_confirmed: bool, on: bool) -> (r: ToggleClick)
    ensures
        r == spec_toggle_click(enabled, click_confirmed, on),
{
    let clicked = click_confirmed && enabled;
    ToggleClick {
        clicked,
        on: if clicked {
            !on
        } else {
            on
        },
    }
}

/// Two confirmed clicks on an enabled toggle bring it back to where it
/// was, and a disabled toggle never moves.
pub proof fn law_toggle_click_round_trip(on: bool, click_confirmed: bool)
    ensures
        spec_toggle_click(true, true, spec_toggle_click(true, true, on).on).on == on,
        spec_toggle_click(true, true, on).on != on,
        spec_toggle_click(false, click_confirmed, on) == (ToggleClick { clicked: false, on }),
{
}

/// The discrete part of a toggle's state.
#[derive(Clone, Copy, Debug, PartialEq, Eq, Structural)]
pub struct ToggleLogic {
    pub phase: ToggleInteractionPhase,
    /// The thumb is headed for (or rests on) the ON side.
    pub on: bool,
    /// Which side the thumb was on when the current press began.
    pub value_at_press_start: bool,
    /// A press has begun and has not yet become a drag.
    pub pending_drag: bool,
}

/// What the toggle sees this frame.
#[derive(Clone, Copy, Debug, PartialEq, Eq, Structural)]
pub struct ToggleInput {
    pub enabled: bool,
    /// The app confirmed a click on this toggle.
    pub click_confirmed: bool,
    pub pointer_pressed: bool,
    /// The pointer is over the (enabled) toggle.
    pub hovered: bool,
    /// The toggle has keyboard focus.
    pub focused: bool,
    /// The pointer is present and has moved at least the drag threshold
    /// since the press began.
    pub drag_past_threshold: bool,
    /// While dragging with the pointer present: whether the dragged thumb
    /// position is at or past the midpoint (`None` without a pointer).
    pub drag_position_past_mid: Option<bool>,
    /// The thumb's current position is at or past the midpoint (decides a
    /// released drag).
    pub thumb_past_mid: bool,
}

impl ToggleLogic {
    /// A toggle at rest on `value`.
    pub fn new(value: bool) -> (r: Self)
        ensures
            r == (ToggleLogic {
                phase: ToggleInteractionPhase::Idle,
                on: value,
                value_at_press_start: value,
                pending_drag: false,
            }),
    {
        ToggleLogic {
            phase: ToggleInteractionPhase::Idle,
            on: value,
            value_at_press_start: value,
            pending_drag: false,
        }
    }

    /// A press begins: remember the side, expect a possible drag.
    pub open spec fn pressed(self) -> ToggleLogic {
        ToggleLogic {
            phase: ToggleInteractionPhase::Pressed,
            value_at_press_start: self.on,
            pending_drag: true,
            ..self
        }
    }

    /// The thumb heads for `on` and the toggle settles there.
    pub open spec fn settling_to(self, on: bool) -> ToggleLogic {
        ToggleLogic { phase: ToggleInteractionPhase::Settling, on, ..self }
    }
}

/// One frame of the toggle's state machine, before its springs advance:
/// - a disabled toggle goes to `Disabled` and freezes;
/// - a click confirmed for an enabled toggle flips the thumb and settles;
/// - then, by phase: Idle and Hovered follow hover and start a press;
///   Pressed becomes Dragging past the drag threshold, or on release flips
///   the side it was pressed on and settles; Dragging follows the dragged
///   position and on release settles on the side the thumb is on;
///   Settling starts a new press on press-over; Disabled stays;
/// - a focused, clicked toggle that is still Idle or Hovered flips and
///   settles (keyboard activation).
pub open spec fn spec_toggle_step(s: ToggleLogic, i: ToggleInput) -> ToggleLogic {
    let clicked = i.click_confirmed && i.enabled;
    let s1 = if !i.enabled {
        ToggleLogic { phase: ToggleInteractionPhase::Disabled, ..s }
    } else {
        let s0 = if clicked {
            ToggleLogic {
                value_at_press_start: s.on,
                pending_drag: false,
                ..s
            }.settling_to(!s.on)
        } else {
            s
        };
        match s0.phase {
            ToggleInteractionPhase::Idle => if i.pointer_pressed && i.hovered {
                s0.pressed()
            } else if i.hovered {
                ToggleLogic { phase: ToggleInteractionPhase::Hovered, ..s0 }
            } else {
                s0
            },
            ToggleInteractionPhase::Hovered => if i.pointer_pressed && i.hovered {
                s0.pressed()
            } else if !i.hovered {
                ToggleLogic { phase: ToggleInteractionPhase::Idle, ..s0 }
            } else {
                s0
            },
            ToggleInteractionPhase::Pressed => if i.pointer_pressed {
                if i.drag_past_threshold && s0.pending_drag {
                    ToggleLogic {
                        phase: ToggleInteractionPhase::Dragging,
                        pending_drag: false,
                        ..s0
                    }
                } else {
                    s0
                }
            } else {
                ToggleLogic { pending_drag: false, ..s0 }.settling_to(!s0.value_at_press_start)
            },
            ToggleInteractionPhase::Dragging => if i.pointer_pressed {
                match i.drag_position_past_mid {
                    Some(past) => ToggleLogic { on: past, ..s0 },
                    None => s0,
                }
            } else {
                s0.settling_to(i.thumb_past_mid)
            },
            ToggleInteractionPhase::Settling => if i.pointer_pressed && i.hovered {
                s0.pressed()
            } else {
                s0
            },
            ToggleInteractionPhase::Disabled => s0,
        }
    };
    if i.focused && clicked && (s1.phase == ToggleInteractionPhase::Idle || s1.phase
        == ToggleInteractionPhase::Hovered) {
        ToggleLogic { value_at_press_start: s1.on, ..s1 }.settling_to(!s1.on)
    } else {
        s1
    }
}

/// Begin a press (see [`ToggleLogic::pressed`]).
fn press(s: ToggleLogic) -> (r: ToggleLogic)
    ensures
        r == s.pressed(),
{
    ToggleLogic {
        phase: ToggleInteractionPhase::Pressed,
        value_at_press_start: s.on,
        pending_drag: true,
        ..s
    }
}

/// One frame of the toggle's state machine (see [`spec_toggle_step`]).
pub fn toggle_step(s: ToggleLogic, i: ToggleInput) -> (r: ToggleLogic)
    ensures
        r == spec_toggle_step(s, i),
{
    let clicked = i.click_confirmed && i.enabled;
    let s1 = if !i.enabled {
        ToggleLogic { phase: ToggleInteractionPhase::Disabled, ..s }
    } else {
        let s0 = if clicked {
            ToggleLogic {
                phase: ToggleInteractionPhase::Settling,
                on: !s.on,
                value_at_press_start: s.on,
                pending_drag: false,
            }
        } else {
            s
        };
        match s0.phase {
            ToggleInteractionPhase::Idle => if i.pointer_pressed && i.hovered {
                press(s0)
            } else if i.hovered {
                ToggleLogic { phase: ToggleInteractionPhase::Hovered, ..s0 }
            } else {
                s0
            },
            ToggleInteractionPhase::Hovered => if i.pointer_pressed && i.hovered {
                press(s0)
            } else if !i.hovered {
                ToggleLogic { phase: ToggleInteractionPhase::Idle, ..s0 }
            } else {
                s0
            },
            ToggleInteractionPhase::Pressed => if i.pointer_pressed {
                if i.drag_past_threshold && s0.pending_drag {
                    ToggleLogic {
                        phase: ToggleInteractionPhase::Dragging,
                        pending_drag: false,
                        ..s0
                    }
                } else {
                    s0
                }
            } else {
                ToggleLogic {
                    phase: ToggleInteractionPhase::Settling,
                    on: !s0.value_at_press_start,
                    pending_drag: false,
                    ..s0
                }
            },
            ToggleInteractionPhase::Dragging => if i.pointer_pressed {
                match i.drag_position_past_mid {
                    Some(past) => ToggleLogic { on: past, ..s0 },
                    None => s0,
                }
            } else {
                ToggleLogic { phase: ToggleInteractionPhase::Settling, on: i.thumb_past_mid, ..s0 }
            },
            ToggleInteractionPhase::Settling => if i.pointer_pressed && i.hovered {
                press(s0)
            } else {
                s0
            },
            ToggleInteractionPhase::Disabled => s0,
        }
    };
    if i.focused && clicked && (s1.phase == ToggleInteractionPhase::Idle || s1.phase
        == ToggleInteractionPhase::Hovered) {
        ToggleLogic {
            phase: ToggleInteractionPhase::Settling,
            on: !s1.on,
            value_at_press_start: s1.on,
            ..s1
        }
    } else {
        s1
    }
}

/// After the springs advance: a settling toggle whose springs have all come
/// to rest is idle again.
pub fn toggle_settle(s: ToggleLogic, springs_settled: bool) -> (r: ToggleLogic)
    ensures
        r == (if s.phase == ToggleInteractionPhase::Settling && springs_settled {
            ToggleLogic { phase: ToggleInteractionPhase::Idle, ..s }
        } else {
            s
        }),
{
    if s.phase == ToggleInteractionPhase::Settling && springs_settled {
        ToggleLogic { phase: ToggleInteractionPhase::Idle, ..s }
    } else {
        s
    }
}

/// The frame's result: the value is the side the thumb is headed for, and
/// it changed when a click was confirmed for the enabled toggle or when it
/// is settling on the other side from where its press began.
pub fn toggle_response_value(s: ToggleLogic, clicked: bool) -> (r: (bool, bool))
    ensures
        r.0 == s.on,
        r.1 == (clicked || (s.phase == ToggleInteractionPhase::Settling && s.on
            != s.value_at_press_start)),
{
    (s.on, clicked || (s.phase == ToggleInteractionPhase::Settling && s.on != s.value_at_press_start))
}

/// A press over an enabled toggle at rest (Idle or Hovered), or settling,
/// starts a press: phase Pressed, a drag may follow, and the side it was
/// pressed on is remembered; the thumb does not move yet.
pub proof fn law_press_begins(s: ToggleLogic, i: ToggleInput)
    requires
        i.enabled,
        !i.click_confirmed,
        i.pointer_pressed,
        i.hovered,
        s.phase == ToggleInteractionPhase::Idle || s.phase == ToggleInteractionPhase::Hovered
            || s.phase == ToggleInteractionPhase::Settling,
    ensures
        spec_toggle_step(s, i).phase == ToggleInteractionPhase::Pressed,
        spec_toggle_step(s, i).pending_drag,
        spec_toggle_step(s, i).value_at_press_start == s.on,
        spec_toggle_step(s, i).on == s.on,
{
}

/// A press that goes past the drag threshold while held becomes a drag; one
/// released first flips the toggle. So press-and-release over an enabled
/// toggle changes its value.
pub proof fn law_press_then_release_flips(s: ToggleLogic, press: ToggleInput, release: ToggleInput)
    requires
        press.enabled && !press.click_confirmed && press.pointer_pressed && press.hovered,
        s.phase == ToggleInteractionPhase::Idle || s.phase == ToggleInteractionPhase::Hovered,
        release.enabled && !release.click_confirmed && !release.pointer_pressed,
    ensures
        spec_toggle_step(spec_toggle_step(s, press), release).on == !s.on,
        spec_toggle_step(spec_toggle_step(s, press), release).phase
            == ToggleInteractionPhase::Settling,
        press.drag_past_threshold ==> spec_toggle_step(
            spec_toggle_step(s, press),
            ToggleInput { pointer_pressed: true, click_confirmed: false, enabled: true, ..press },
        ).phase == ToggleInteractionPhase::Dragging,
{
}

/// The machine's promises: a disabled toggle never moves its thumb; a
/// confirmed click on an enabled toggle always flips it; a press released
/// without a drag flips it; and with no pointer, click or focus the thumb
/// stays where it is headed.
pub proof fn law_toggle_step(s: ToggleLogic, i: ToggleInput)
    ensures
        !i.enabled ==> spec_toggle_step(s, i).on == s.on && spec_toggle_step(s, i).phase
            == ToggleInteractionPhase::Disabled,
        i.enabled && i.click_confirmed ==> spec_toggle_step(s, i).on == !s.on,
        i.enabled && !i.click_confirmed && s.phase == ToggleInteractionPhase::Pressed
            && !i.pointer_pressed ==> spec_toggle_step(s, i).on == !s.value_at_press_start
            && spec_toggle_step(s, i).phase == ToggleInteractionPhase::Settling,
        !i.click_confirmed && !i.pointer_pressed && s.phase != ToggleInteractionPhase::Dragging
            && s.phase != ToggleInteractionPhase::Pressed ==> spec_toggle_step(s, i).on == s.on,
{
}

} // verus!

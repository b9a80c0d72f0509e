//! Result of placing a widget.

use crate::ui_model::geometry::{Point, Rect};
use crate::ui_model::ids::UiId;
use vstd::prelude::*;

verus! {

/// Widget operation result returned by every widget and layout container.
///
/// Carries the widget's layout rectangle, hit-test region, and current input
/// state for the frame.
#[derive(Clone, Debug, PartialEq)]
pub struct Response {
    pub id: UiId,
    /// Visual ("ink") rectangle occupied by the widget.
    pub rect: Rect,
    /// Hit-test rectangle (may be larger than `rect` for touch-friendly taps).
    pub hit_rect: Rect,
    pub hovered: bool,
    pub pressed: bool,
    pub clicked: bool,
    pub focused: bool,
    /// `true` when the widget's value changed this frame (e.g. toggle toggled).
    pub changed: bool,
}

impl Default for Response {
    /// An empty id, empty rectangles, and no input state.
    fn default() -> (r: Self)
        ensures
            r.id@ == Seq::<char>::empty(),
            r.rect == (Rect { x: 0, y: 0, width: 0, height: 0 }),
            r.hit_rect == (Rect { x: 0, y: 0, width: 0, height: 0 }),
            !r.hovered,
            !r.pressed,
            !r.clicked,
            !r.focused,
            !r.changed,
    {
        proof {
            reveal_strlit("");
        }
        Self {
            id: UiId::named(""),
            rect: Rect::default(),
            hit_rect: Rect::default(),
            hovered: false,
            pressed: false,
            clicked: false,
            focused: false,
            changed: false,
        }
    }
}

impl Response {
    /// The visual rectangle, so callers can write `resp.rect()`.
    pub fn rect(&self) -> (r: Rect)
        ensures
            r == self.rect,
    {
        self.rect
    }

    /// Returns `true` when `point` lies inside the hit-test rectangle.
    pub fn contains(&self, point: Point) -> (r: bool)
        ensures
            r == self.hit_rect.spec_contains(point),
    {
        self.hit_rect.contains(point)
    }
}

} // verus!

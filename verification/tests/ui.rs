use launchpad::ui::context::{anon_id, LayoutDirection};
use launchpad::ui::interaction::InteractionPhase;
use launchpad::ui::registry::Registry;
use launchpad::ui::response::Response;
use launchpad::ui::theme::ControlSize;
use launchpad::ui::widgets::button::{button_input, button_phase};
use launchpad::ui::widgets::divider::Divider;
use launchpad::ui::widgets::slider::format_slider_id;
use launchpad::ui::widgets::toggle::{
    toggle_click, toggle_response_value, toggle_settle, toggle_step, ToggleInput,
    ToggleInteractionPhase, ToggleLogic,
};
use launchpad::ui_model::geometry::{Point, Rect};
use launchpad::ui_model::ids::UiId;

/// A layout rectangle in logical pixels, as the layout pass produces them.
#[derive(Clone, Copy, Debug, PartialEq)]
struct LayoutRect {
    x: f32,
    y: f32,
    width: f32,
    height: f32,
}

fn r(x: f32, y: f32, w: f32, h: f32) -> LayoutRect {
    LayoutRect { x, y, width: w, height: h }
}

#[test]
fn default_interaction_phase_is_idle() {
    assert_eq!(InteractionPhase::default(), InteractionPhase::Idle);
}

#[test]
fn interaction_phase_all_variants_exist() {
    let phases = [
        InteractionPhase::Idle,
        InteractionPhase::Hovered,
        InteractionPhase::Pressed,
        InteractionPhase::Dragging,
        InteractionPhase::Settling,
        InteractionPhase::Disabled,
    ];
    assert_eq!(phases.len(), 6);
}

#[test]
fn registry_register_and_retrieve_rect() {
    let mut reg = Registry::new();
    let id = UiId::named("test-btn");
    reg.register(id.clone(), r(10.0, 20.0, 100.0, 40.0), r(8.0, 18.0, 104.0, 44.0));

    assert_eq!(reg.rect(&id), Some(r(10.0, 20.0, 100.0, 40.0)));
    assert_eq!(reg.hit_rect(&id), Some(r(8.0, 18.0, 104.0, 44.0)));
}

#[test]
fn re_register_same_id_overwrites() {
    let mut reg = Registry::new();
    let id = UiId::named("btn");
    reg.register(id.clone(), r(0.0, 0.0, 10.0, 10.0), r(0.0, 0.0, 10.0, 10.0));
    reg.register(id.clone(), r(1.0, 2.0, 30.0, 40.0), r(1.0, 2.0, 32.0, 42.0));

    assert_eq!(reg.rect(&id), Some(r(1.0, 2.0, 30.0, 40.0)));
    assert_eq!(reg.hit_rect(&id), Some(r(1.0, 2.0, 32.0, 42.0)));
    assert_eq!(reg.len(), 1);
}

#[test]
fn unknown_id_returns_none() {
    let reg: Registry<LayoutRect> = Registry::new();
    assert_eq!(reg.rect(&UiId::named("nope")), None);
    assert_eq!(reg.hit_rect(&UiId::named("nope")), None);
}

#[test]
fn clear_removes_all_entries() {
    let mut reg = Registry::new();
    reg.register(UiId::named("a"), r(0.0, 0.0, 1.0, 1.0), r(0.0, 0.0, 1.0, 1.0));
    reg.register(UiId::named("b"), r(0.0, 0.0, 1.0, 1.0), r(0.0, 0.0, 1.0, 1.0));
    assert_eq!(reg.len(), 2);

    reg.clear();
    assert!(reg.is_empty());
    assert_eq!(reg.len(), 0);
    assert_eq!(reg.rect(&UiId::named("a")), None);
}

#[test]
fn registry_keeps_other_ids_when_one_is_overwritten() {
    let mut reg: Registry<LayoutRect> = Registry::default();
    reg.register(UiId::named("a"), r(1.0, 1.0, 1.0, 1.0), r(1.0, 1.0, 1.0, 1.0));
    reg.register(UiId::named("b"), r(2.0, 2.0, 2.0, 2.0), r(2.0, 2.0, 2.0, 2.0));
    reg.register(UiId::named("a"), r(3.0, 3.0, 3.0, 3.0), r(4.0, 4.0, 4.0, 4.0));
    assert_eq!(reg.rect(&UiId::named("b")), Some(r(2.0, 2.0, 2.0, 2.0)));
    assert_eq!(reg.hit_rect(&UiId::named("a")), Some(r(4.0, 4.0, 4.0, 4.0)));
    assert_eq!(reg.len(), 2);
    assert!(!reg.is_empty());
}

#[test]
fn default_response_has_empty_id() {
    let r = Response::default();
    assert_eq!(r.id, UiId::named(""));
}

#[test]
fn contains_uses_hit_rect() {
    let r = Response {
        id: UiId::named("btn"),
        rect: Rect::new(10, 10, 20, 20),
        hit_rect: Rect::new(5, 5, 30, 30),
        ..Default::default()
    };

    // Inside hit_rect but outside visual rect
    assert!(r.contains(Point::new(6, 6)));
    // Outside hit_rect
    assert!(!r.contains(Point::new(0, 0)));
}

#[test]
fn rect_alias_returns_visual_rect() {
    let r = Response {
        id: UiId::named("btn"),
        rect: Rect::new(1, 2, 3, 4),
        hit_rect: Rect::new(0, 0, 5, 6),
        ..Default::default()
    };

    assert_eq!(r.rect(), Rect::new(1, 2, 3, 4));
}

#[test]
fn rect_contains_is_half_open() {
    let rect = Rect::new(5, 5, 30, 30);
    assert!(rect.contains(Point::new(5, 5)));
    assert!(rect.contains(Point::new(34, 34)));
    assert!(!rect.contains(Point::new(35, 10)));
    assert!(!rect.contains(Point::new(10, 35)));
    assert!(!Rect::new(0, 0, 0, 0).contains(Point::new(0, 0)));
}

#[test]
fn divider_builder_sets_id() {
    let d = Divider::new();
    assert_eq!(d.id.as_str(), "");
    let d = Divider::new().id(UiId::named("sep"));
    assert_eq!(d.id, UiId::named("sep"));
}

#[test]
fn slider_sub_ids_join_with_hyphen() {
    let parent = UiId::named("volume");
    assert_eq!(format_slider_id(&parent, "track").as_str(), "volume-track");
    assert_eq!(format_slider_id(&parent, "reset"), UiId::named("volume-reset"));
}

#[test]
fn layout_and_size_defaults() {
    assert_eq!(LayoutDirection::default(), LayoutDirection::Vertical);
    assert_eq!(ControlSize::default(), ControlSize::Regular);
}

#[test]
fn anonymous_ids_are_numbered_in_decimal() {
    assert_eq!(anon_id(0).as_str(), "_ui_0");
    assert_eq!(anon_id(7).as_str(), "_ui_7");
    assert_eq!(anon_id(42).as_str(), "_ui_42");
    assert_eq!(anon_id(1000).as_str(), "_ui_1000");
    assert_eq!(anon_id(u64::MAX).as_str(), "_ui_18446744073709551615");
    assert!(anon_id(1).as_str().starts_with("_ui_"));
}

#[test]
fn anonymous_ids_never_collide() {
    let ids: Vec<String> = (0..2000u64).map(|n| anon_id(n).as_str().to_string()).collect();
    let mut sorted = ids.clone();
    sorted.sort();
    sorted.dedup();
    assert_eq!(sorted.len(), ids.len());
}

#[test]
fn confirmed_click_flips_an_enabled_toggle_only() {
    let c = toggle_click(true, true, false);
    assert!(c.clicked && c.on);
    let c = toggle_click(true, true, c.on);
    assert!(c.clicked && !c.on);
    let c = toggle_click(true, false, true);
    assert!(!c.clicked && c.on);
    let c = toggle_click(false, true, true);
    assert!(!c.clicked && c.on);
}

#[test]
fn button_hover_press_and_click() {
    let b = button_input(true, true, true, false);
    assert!(b.hovered && b.pressed && !b.clicked);
    let b = button_input(true, true, false, false);
    assert!(!b.hovered && !b.pressed);
    let b = button_input(false, true, true, true);
    assert!(!b.hovered && !b.pressed && b.clicked);
}

fn idle_input() -> ToggleInput {
    ToggleInput {
        enabled: true,
        click_confirmed: false,
        pointer_pressed: false,
        hovered: false,
        focused: false,
        drag_past_threshold: false,
        drag_position_past_mid: None,
        thumb_past_mid: false,
    }
}

#[test]
fn toggle_machine_click_press_and_drag() {
    // A confirmed click flips and settles, and reports a change.
    let s = toggle_step(ToggleLogic::new(false), ToggleInput { click_confirmed: true, ..idle_input() });
    assert_eq!(s.phase, ToggleInteractionPhase::Settling);
    assert!(s.on);
    assert_eq!(toggle_response_value(s, true), (true, true));
    let s = toggle_settle(s, true);
    assert_eq!(s.phase, ToggleInteractionPhase::Idle);
    assert_eq!(toggle_response_value(s, false), (true, false));

    // Press over the toggle, release without dragging: flips back.
    let s = toggle_step(s, ToggleInput { pointer_pressed: true, hovered: true, ..idle_input() });
    assert_eq!(s.phase, ToggleInteractionPhase::Pressed);
    assert!(s.pending_drag && s.value_at_press_start);
    let s = toggle_step(s, ToggleInput { hovered: true, ..idle_input() });
    assert_eq!(s.phase, ToggleInteractionPhase::Settling);
    assert!(!s.on);
    assert_eq!(toggle_response_value(s, false), (false, true));

    // Press, drag past the threshold, drag across the midpoint, release on
    // the side the thumb is on.
    let s = toggle_settle(s, true);
    let s = toggle_step(s, ToggleInput { pointer_pressed: true, hovered: true, ..idle_input() });
    let s = toggle_step(
        s,
        ToggleInput { pointer_pressed: true, hovered: true, drag_past_threshold: true, ..idle_input() },
    );
    assert_eq!(s.phase, ToggleInteractionPhase::Dragging);
    let s = toggle_step(
        s,
        ToggleInput { pointer_pressed: true, drag_position_past_mid: Some(true), ..idle_input() },
    );
    assert!(s.on);
    let s = toggle_step(s, ToggleInput { thumb_past_mid: false, ..idle_input() });
    assert_eq!(s.phase, ToggleInteractionPhase::Settling);
    assert!(!s.on);
    assert_eq!(toggle_response_value(s, false), (false, false));
}

#[test]
fn disabled_toggle_freezes() {
    let s = ToggleLogic::new(true);
    let s = toggle_step(s, ToggleInput { enabled: false, click_confirmed: true, ..idle_input() });
    assert_eq!(s.phase, ToggleInteractionPhase::Disabled);
    assert!(s.on);
}

#[test]
fn hover_moves_between_idle_and_hovered() {
    let s = toggle_step(ToggleLogic::new(false), ToggleInput { hovered: true, ..idle_input() });
    assert_eq!(s.phase, ToggleInteractionPhase::Hovered);
    let s = toggle_step(s, idle_input());
    assert_eq!(s.phase, ToggleInteractionPhase::Idle);
}

#[test]
fn button_phase_follows_enabled_press_hover() {
    assert_eq!(button_phase(false, true, true), InteractionPhase::Disabled);
    assert_eq!(button_phase(true, true, true), InteractionPhase::Pressed);
    assert_eq!(button_phase(true, true, false), InteractionPhase::Hovered);
    assert_eq!(button_phase(true, false, false), InteractionPhase::Idle);
}

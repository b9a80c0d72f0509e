use launchpad::renderer::init::{
    resized_surface_size, select_alpha_mode, select_present_mode, CompositeAlphaMode, PresentMode,
};

#[test]
fn fifo_is_preferred_over_mailbox_for_animation_pacing() {
    assert_eq!(
        select_present_mode(&[PresentMode::Mailbox, PresentMode::Fifo]),
        PresentMode::Fifo
    );
}

#[test]
fn present_mode_falls_back_in_order() {
    assert_eq!(
        select_present_mode(&[PresentMode::Mailbox, PresentMode::AutoVsync]),
        PresentMode::AutoVsync
    );
    assert_eq!(
        select_present_mode(&[PresentMode::Immediate, PresentMode::Mailbox]),
        PresentMode::Mailbox
    );
    assert_eq!(select_present_mode(&[PresentMode::Immediate]), PresentMode::Fifo);
    assert_eq!(select_present_mode(&[]), PresentMode::Fifo);
}

#[test]
fn alpha_mode_prefers_premultiplied() {
    assert_eq!(
        select_alpha_mode(&[CompositeAlphaMode::Opaque, CompositeAlphaMode::PreMultiplied]),
        CompositeAlphaMode::PreMultiplied
    );
    assert_eq!(
        select_alpha_mode(&[CompositeAlphaMode::Auto, CompositeAlphaMode::PostMultiplied]),
        CompositeAlphaMode::PostMultiplied
    );
    assert_eq!(
        select_alpha_mode(&[CompositeAlphaMode::Inherit, CompositeAlphaMode::Auto]),
        CompositeAlphaMode::Auto
    );
    assert_eq!(
        select_alpha_mode(&[CompositeAlphaMode::Inherit]),
        CompositeAlphaMode::Opaque
    );
}

#[test]
fn resize_ignores_minimized_windows_and_clamps_to_the_device_limit() {
    assert_eq!(resized_surface_size(0, 600, 8192), None);
    assert_eq!(resized_surface_size(800, 0, 8192), None);
    assert_eq!(resized_surface_size(800, 600, 8192), Some((800, 600)));
    assert_eq!(resized_surface_size(10000, 600, 8192), Some((8192, 600)));
    assert_eq!(resized_surface_size(8192, 9000, 8192), Some((8192, 8192)));
}

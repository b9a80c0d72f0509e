use launchpad::renderer::frame::{
    depad_rows, frame_target, normalize_capture_rgba, padded_bytes_per_row, CaptureFormat,
    grid_draw_plan, FrameTarget, GridDrawPlan, SkipReason, SurfaceStatus,
};

#[test]
fn qa_capture_converts_bgra_surfaces_to_png_rgba() {
    let mut pixels = vec![10, 20, 30, 255, 1, 2, 3, 4];
    normalize_capture_rgba(CaptureFormat::Bgra8UnormSrgb, &mut pixels);
    assert_eq!(pixels, [30, 20, 10, 255, 3, 2, 1, 4]);
}

#[test]
fn qa_capture_keeps_rgba_surfaces_unchanged() {
    let mut pixels = vec![10, 20, 30, 255];
    normalize_capture_rgba(CaptureFormat::Rgba8UnormSrgb, &mut pixels);
    assert_eq!(pixels, [10, 20, 30, 255]);
}

#[test]
fn bgra_partial_trailing_pixel_is_left_alone() {
    let mut pixels = vec![1, 2, 3, 4, 5, 6];
    normalize_capture_rgba(CaptureFormat::Bgra8Unorm, &mut pixels);
    assert_eq!(pixels, [3, 2, 1, 4, 5, 6]);
}

#[test]
fn readback_rows_are_padded_to_256_bytes() {
    assert_eq!(padded_bytes_per_row(1), 256);
    assert_eq!(padded_bytes_per_row(64), 256);
    assert_eq!(padded_bytes_per_row(65), 512);
    assert_eq!(padded_bytes_per_row(0), 0);
}

#[test]
fn depad_keeps_only_row_pixels() {
    // Two rows of 3 bytes, each padded to 5.
    let data = [1, 2, 3, 0, 0, 4, 5, 6, 0, 0];
    assert_eq!(depad_rows(&data, 3, 5, 2), vec![1, 2, 3, 4, 5, 6]);
    assert_eq!(depad_rows(&data, 3, 5, 0), Vec::<u8>::new());
}

#[test]
fn frame_goes_to_the_surface_only_when_it_hands_out_a_texture() {
    assert_eq!(frame_target(Some(SurfaceStatus::Success), true), FrameTarget::Surface);
    assert_eq!(frame_target(Some(SurfaceStatus::Suboptimal), false), FrameTarget::Surface);
    assert_eq!(
        frame_target(Some(SurfaceStatus::Lost), true),
        FrameTarget::Skip(SkipReason::OutdatedOrLost)
    );
    assert_eq!(
        frame_target(Some(SurfaceStatus::Outdated), false),
        FrameTarget::Skip(SkipReason::OutdatedOrLost)
    );
    assert_eq!(frame_target(Some(SurfaceStatus::Timeout), true), FrameTarget::Skip(SkipReason::Timeout));
    assert_eq!(frame_target(Some(SurfaceStatus::Occluded), true), FrameTarget::Skip(SkipReason::Occluded));
    assert_eq!(
        frame_target(Some(SurfaceStatus::Validation), true),
        FrameTarget::Skip(SkipReason::Validation)
    );
    assert_eq!(frame_target(None, true), FrameTarget::Offscreen);
    assert_eq!(frame_target(None, false), FrameTarget::Skip(SkipReason::NoTarget));
}

#[test]
fn dragged_tile_and_icons_are_held_back_for_the_overlay() {
    assert_eq!(
        grid_draw_plan(10, true, 8, 1),
        GridDrawPlan { normal_tiles: 9, dragged_tile: true, normal_icons: 7, dragged_icons: 1 }
    );
    assert_eq!(
        grid_draw_plan(0, true, 2, 5),
        GridDrawPlan { normal_tiles: 0, dragged_tile: false, normal_icons: 0, dragged_icons: 2 }
    );
    assert_eq!(
        grid_draw_plan(4, false, 3, 0),
        GridDrawPlan { normal_tiles: 4, dragged_tile: false, normal_icons: 3, dragged_icons: 0 }
    );
}

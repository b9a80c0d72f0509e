use launchpad::renderer::counters::{BufferCounters, Category};
use launchpad::renderer::prepare::{
    highest_shape_index, prepare_bookkeeping, set_instances, GlassLayer, GlyphLane, InkLane,
    PrepareBatch, PrepareBuffers,
};
use launchpad::renderer::resources::InstanceBuffer;

/// A modal surface: name, z, and rect (x, y, width, height).
struct Surface {
    _id: &'static str,
    z: i16,
    rect: [f32; 4],
}

fn surface(id: &'static str, z: i16, cx: f32) -> Surface {
    Surface {
        _id: id,
        z,
        rect: [cx - 50.0, 20.0, 100.0, 80.0],
    }
}

/// Center of the surface the modal pass would draw.
fn highest_center(surfaces: &[Surface]) -> Option<[f32; 2]> {
    let zs: Vec<i16> = surfaces.iter().map(|s| s.z).collect();
    highest_shape_index(&zs).map(|i| {
        let r = surfaces[i].rect;
        [r[0] + r[2] / 2.0, r[1] + r[3] / 2.0]
    })
}

#[test]
fn modal_selection_uses_layer_not_feature_id() {
    let surfaces = [surface("arbitrary-modal", 10, 100.0)];
    let center = highest_center(&surfaces).expect("modal surface");
    assert_eq!(center, [100.0, 60.0]);
}

#[test]
fn non_modal_surfaces_are_not_submitted_to_modal_lane() {
    assert!(highest_center(&[]).is_none());
}

#[test]
fn highest_z_modal_wins() {
    let surfaces = [surface("low", 10, 100.0), surface("high", 20, 200.0)];
    assert_eq!(highest_center(&surfaces).unwrap()[0], 200.0);
}

#[test]
fn later_same_z_modal_wins() {
    let surfaces = [surface("first", 10, 100.0), surface("later", 10, 200.0)];
    assert_eq!(highest_center(&surfaces).unwrap()[0], 200.0);
}

#[test]
fn empty_model_clears_modal_lane() {
    assert!(highest_center(&[]).is_none());
}

#[test]
fn highest_index_prefers_max_then_latest() {
    assert_eq!(highest_shape_index(&[3, 7, 7, 1]), Some(2));
    assert_eq!(highest_shape_index(&[9, 7, 7, 1]), Some(0));
    assert_eq!(highest_shape_index(&[-5]), Some(0));
    assert_eq!(highest_shape_index(&[]), None);
}

#[test]
fn set_instances_counts_growth_only_when_the_buffer_reallocates() {
    let mut buffer = InstanceBuffer::new();
    let mut counters = BufferCounters::default();
    let first = set_instances(&mut buffer, 10, &mut counters, Category::Icon);
    assert!(first.allocated && first.wrote);
    assert_eq!(buffer.capacity(), 16);
    assert_eq!(counters.grows(Category::Icon), 1);
    let fits = set_instances(&mut buffer, 16, &mut counters, Category::Icon);
    assert!(!fits.allocated && fits.wrote);
    assert_eq!(counters.grows(Category::Icon), 1);
    let empty = set_instances(&mut buffer, 0, &mut counters, Category::Icon);
    assert!(!empty.allocated && !empty.wrote);
    assert_eq!(buffer.capacity(), 16);
    let grown = set_instances(&mut buffer, 17, &mut counters, Category::Icon);
    assert!(grown.allocated);
    assert_eq!(buffer.capacity(), 32);
    assert_eq!(counters.grows(Category::Icon), 2);
    assert_eq!(counters.grows(Category::Tile), 0);
}

#[test]
fn prepare_counts_calls_rebuilds_and_growth_per_lane() {
    let mut counters = BufferCounters::default();
    let mut buffers = PrepareBuffers::new();
    let frame = [
        (PrepareBatch::Glass(GlassLayer::Base), 2),
        (PrepareBatch::Glass(GlassLayer::Overlay), 1),
        (PrepareBatch::Tiles, 10),
        (PrepareBatch::Icons, 0),
        (PrepareBatch::Ink(InkLane::Gear), 3),
        (PrepareBatch::Ink(InkLane::EditBadge), 5),
        (PrepareBatch::Glyphs(GlyphLane::Grid), 20),
    ];
    let out = prepare_bookkeeping(&mut counters, &mut buffers, &frame);
    assert_eq!(out.len(), frame.len());
    assert!(out[0].is_none() && out[1].is_none() && out[5].is_none());
    assert!(out[2].unwrap().allocated);
    assert!(!out[3].unwrap().allocated && !out[3].unwrap().wrote);
    assert!(out[4].unwrap().allocated && out[6].unwrap().allocated);
    assert_eq!(counters.prepare_calls(), 1);
    assert_eq!(counters.full_scene_rebuilds(), 1);
    assert_eq!(counters.grows(Category::Tile), 1);
    assert_eq!(counters.grows(Category::Icon), 0);
    assert_eq!(counters.grows(Category::Gear), 1);
    assert_eq!(counters.grows(Category::TextLabel), 1);
    assert_eq!(buffers.buffer(Category::TextLabel).capacity(), 20);
    assert_eq!(buffers.buffer(Category::Tile).len(), 10);

    // A scroll-only frame: same lanes within capacity, no base glass.
    let scroll = [(PrepareBatch::Tiles, 10), (PrepareBatch::Glyphs(GlyphLane::Grid), 18)];
    let out = prepare_bookkeeping(&mut counters, &mut buffers, &scroll);
    assert!(out.iter().all(|o| !o.unwrap().allocated));
    assert_eq!(counters.prepare_calls(), 2);
    assert_eq!(counters.full_scene_rebuilds(), 1);
    assert_eq!(counters.grows(Category::Tile), 1);
    assert_eq!(counters.grows(Category::TextLabel), 1);
    assert_eq!(counters.creations(Category::Tile), 0);
}

use launchpad::renderer::counters::{BufferCounters, Category};

#[test]
fn counters_accumulate_per_category() {
    let mut c = BufferCounters::default();
    assert_eq!(c.creations(Category::Control), 0);
    c.record_creation(Category::Control);
    c.record_creation(Category::Control);
    c.record_creation(Category::Settings);
    assert_eq!(c.creations(Category::Control), 2);
    assert_eq!(c.creations(Category::Settings), 1);
    assert_eq!(c.creations(Category::Gear), 0);
}

#[test]
fn growth_is_distinct_from_creation() {
    let mut c = BufferCounters::default();
    c.record_creation(Category::Tile);
    c.record_growth(Category::Tile);
    c.record_growth(Category::Tile);
    assert_eq!(c.creations(Category::Tile), 1);
    assert_eq!(c.grows(Category::Tile), 2);
}

#[test]
fn prepare_and_full_scene_counters_are_independent() {
    let mut c = BufferCounters::default();
    c.record_prepare();
    c.record_prepare();
    c.record_full_scene_rebuild();
    assert_eq!(c.prepare_calls(), 2);
    assert_eq!(c.full_scene_rebuilds(), 1);
}

#[test]
fn atlas_rebinds_and_readbacks_count_separately() {
    let mut c = BufferCounters::default();
    c.record_atlas_rebind();
    c.record_atlas_rebind();
    c.record_atlas_rebind();
    c.record_non_qa_readback();
    assert_eq!(c.atlas_rebinds(), 3);
    assert_eq!(c.non_qa_readbacks(), 1);
    assert_eq!(c.prepare_calls(), 0);
    assert_eq!(c.full_scene_rebuilds(), 0);
}

#[test]
fn category_labels_and_indices() {
    let all = Category::all();
    for (i, cat) in all.iter().enumerate() {
        assert_eq!(cat.index(), i);
    }
    assert_eq!(Category::Tile.label(), "tile");
    assert_eq!(Category::TextLabel.label(), "text_label");
    assert_eq!(Category::BadgeForeground.label(), "badge_foreground");
}

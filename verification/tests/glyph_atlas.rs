use launchpad::renderer::glyph_atlas::{GlyphAtlas, GlyphContent, ATLAS_INITIAL_SIZE};

fn pixel(atlas: &GlyphAtlas, x: u32, y: u32) -> [u8; 4] {
    let (w, _) = atlas.atlas_dimensions();
    let i = ((y * w + x) * 4) as usize;
    let rgba = atlas.atlas_rgba();
    [rgba[i], rgba[i + 1], rgba[i + 2], rgba[i + 3]]
}

fn mask(w: u32, h: u32, seed: u8) -> Vec<u8> {
    (0..w * h).map(|i| seed.wrapping_add(i as u8)).collect()
}

#[test]
fn new_atlas_is_empty_initial_square_and_dirty() {
    let mut atlas = GlyphAtlas::new();
    assert_eq!(atlas.atlas_dimensions(), (ATLAS_INITIAL_SIZE, ATLAS_INITIAL_SIZE));
    assert_eq!(atlas.atlas_rgba().len(), 1024 * 1024 * 4);
    assert!(atlas.atlas_rgba().iter().all(|&b| b == 0));
    assert!(atlas.is_dirty());
    assert!(!atlas.take_atlas_grew());
    atlas.mark_uploaded();
    assert!(!atlas.is_dirty());
}

#[test]
fn first_glyph_lands_one_pad_from_the_corner_and_reads_back() {
    let mut atlas = GlyphAtlas::with_atlas_size(16, 16);
    atlas.mark_uploaded();
    let data = mask(3, 2, 10);
    assert_eq!(atlas.insert_glyph(GlyphContent::Mask, &data, 3, 2), Some((1, 1)));
    assert!(atlas.is_dirty());
    assert_eq!(pixel(&atlas, 1, 1), [255, 255, 255, 10]);
    assert_eq!(pixel(&atlas, 3, 1), [255, 255, 255, 12]);
    assert_eq!(pixel(&atlas, 1, 2), [255, 255, 255, 13]);
    assert_eq!(pixel(&atlas, 3, 2), [255, 255, 255, 15]);
    // The padding around the glyph stays transparent.
    assert_eq!(pixel(&atlas, 0, 1), [0, 0, 0, 0]);
    assert_eq!(pixel(&atlas, 4, 1), [0, 0, 0, 0]);
    assert_eq!(pixel(&atlas, 1, 3), [0, 0, 0, 0]);
}

#[test]
fn glyphs_share_a_row_then_wrap_to_the_next() {
    let mut atlas = GlyphAtlas::with_atlas_size(16, 16);
    assert_eq!(atlas.insert_glyph(GlyphContent::Mask, &mask(3, 2, 1), 3, 2), Some((1, 1)));
    assert_eq!(atlas.insert_glyph(GlyphContent::Mask, &mask(4, 4, 1), 4, 4), Some((5, 1)));
    // Cursor is at x = 10; a 6-wide glyph needs 10 + 6 + 1 > 16, so it wraps
    // below the tallest glyph of the row (1 + 4 + 1 = 6).
    assert_eq!(atlas.insert_glyph(GlyphContent::Mask, &mask(6, 3, 1), 6, 3), Some((1, 6)));
    assert!(!atlas.take_atlas_grew());
}

#[test]
fn out_of_rows_grows_and_keeps_existing_pixels() {
    let mut atlas = GlyphAtlas::with_atlas_size(16, 16);
    let first = mask(3, 2, 100);
    assert_eq!(atlas.insert_glyph(GlyphContent::Mask, &first, 3, 2), Some((1, 1)));
    assert_eq!(atlas.insert_glyph(GlyphContent::Mask, &mask(4, 4, 1), 4, 4), Some((5, 1)));
    assert_eq!(atlas.insert_glyph(GlyphContent::Mask, &mask(6, 3, 1), 6, 3), Some((1, 6)));
    let before: Vec<[u8; 4]> = (0..16).flat_map(|y| (0..16).map(move |x| (x, y))).map(|(x, y)| pixel(&atlas, x, y)).collect();
    atlas.mark_uploaded();
    // 6 + 10 + 1 > 16 rows: the atlas doubles instead of evicting.
    assert_eq!(atlas.insert_glyph(GlyphContent::Mask, &mask(2, 10, 1), 2, 10), Some((8, 6)));
    assert_eq!(atlas.atlas_dimensions(), (32, 32));
    assert_eq!(atlas.atlas_rgba().len(), 32 * 32 * 4);
    assert!(atlas.take_atlas_grew());
    assert!(!atlas.take_atlas_grew());
    assert!(atlas.is_dirty());
    for y in 0..16u32 {
        for x in 0..16u32 {
            if x >= 8 && x < 10 && y >= 6 {
                continue;
            }
            assert_eq!(pixel(&atlas, x, y), before[(y * 16 + x) as usize], "pixel ({x}, {y})");
        }
    }
    assert_eq!(pixel(&atlas, 1, 1), [255, 255, 255, 100]);
    // The area gained by growing is transparent.
    assert_eq!(pixel(&atlas, 20, 20), [0, 0, 0, 0]);
    assert_eq!(pixel(&atlas, 31, 0), [0, 0, 0, 0]);
}

#[test]
fn ultra_wide_glyph_grows_the_width_first() {
    let mut atlas = GlyphAtlas::with_atlas_size(8, 8);
    assert_eq!(atlas.insert_glyph(GlyphContent::Mask, &mask(20, 1, 0), 20, 1), Some((1, 1)));
    assert_eq!(atlas.atlas_dimensions(), (32, 32));
    assert!(atlas.take_atlas_grew());
}

#[test]
fn subpixel_mask_averages_coverage_into_alpha() {
    let mut atlas = GlyphAtlas::with_atlas_size(8, 8);
    let data = [30, 60, 90, 0, 255, 255, 254, 7];
    assert_eq!(atlas.insert_glyph(GlyphContent::SubpixelMask, &data, 2, 1), Some((1, 1)));
    assert_eq!(pixel(&atlas, 1, 1), [255, 255, 255, 60]);
    assert_eq!(pixel(&atlas, 2, 1), [255, 255, 255, 254]);
}

#[test]
fn color_glyph_is_reordered_from_bgra_to_rgba() {
    let mut atlas = GlyphAtlas::with_atlas_size(8, 8);
    let data = [10, 20, 30, 40];
    assert_eq!(atlas.insert_glyph(GlyphContent::Color, &data, 1, 1), Some((1, 1)));
    assert_eq!(pixel(&atlas, 1, 1), [30, 20, 10, 40]);
}

#[test]
fn empty_or_oversized_glyphs_are_dropped_without_change() {
    let mut atlas = GlyphAtlas::with_atlas_size(8, 8);
    atlas.mark_uploaded();
    assert_eq!(atlas.insert_glyph(GlyphContent::Mask, &[], 0, 5), None);
    assert_eq!(atlas.insert_glyph(GlyphContent::Mask, &[], 5, 0), None);
    let wide = vec![1u8; 4095];
    assert_eq!(atlas.insert_glyph(GlyphContent::Mask, &wide, 4095, 1), None);
    assert_eq!(atlas.insert_glyph(GlyphContent::Mask, &wide, 1, 4095), None);
    assert_eq!(atlas.atlas_dimensions(), (8, 8));
    assert!(!atlas.is_dirty());
    assert!(!atlas.take_atlas_grew());
    // The largest glyph that fits with its padding is accepted.
    let widest = vec![1u8; 4094];
    assert_eq!(atlas.insert_glyph(GlyphContent::Mask, &widest, 4094, 1), Some((1, 1)));
    assert_eq!(atlas.atlas_dimensions(), (4096, 4096));
}

#[test]
fn full_atlas_at_maximum_size_drops_the_glyph() {
    let mut atlas = GlyphAtlas::with_atlas_size(4096, 4096);
    let row = vec![9u8; 4094];
    assert_eq!(atlas.insert_glyph(GlyphContent::Mask, &row, 4094, 1), Some((1, 1)));
    // Wraps to y = 3, then needs 3 + 4094 + 1 > 4096 rows and cannot grow.
    let column = vec![9u8; 4094];
    assert_eq!(atlas.insert_glyph(GlyphContent::Mask, &column, 1, 4094), None);
    assert_eq!(atlas.atlas_dimensions(), (4096, 4096));
    // The row moved on, so a short glyph now goes to the new row.
    assert_eq!(atlas.insert_glyph(GlyphContent::Mask, &[5], 1, 1), Some((1, 3)));
    assert_eq!(pixel(&atlas, 1, 1), [255, 255, 255, 9]);
}

#[test]
fn placed_glyphs_never_overlap() {
    let mut atlas = GlyphAtlas::with_atlas_size(16, 16);
    let sizes = [(3u32, 2u32), (4, 4), (6, 3), (2, 10), (9, 1), (5, 7), (12, 2), (1, 1)];
    let mut rects = Vec::new();
    for (i, &(w, h)) in sizes.iter().enumerate() {
        let data = vec![i as u8 + 1; (w * h) as usize];
        let (x, y) = atlas.insert_glyph(GlyphContent::Mask, &data, w, h).expect("room after growth");
        rects.push((x, y, w, h));
    }
    let (aw, ah) = atlas.atlas_dimensions();
    for (i, a) in rects.iter().enumerate() {
        assert!(a.0 >= 1 && a.1 >= 1 && a.0 + a.2 + 1 <= aw && a.1 + a.3 + 1 <= ah);
        for b in rects.iter().skip(i + 1) {
            let apart = a.0 + a.2 + 1 <= b.0
                || b.0 + b.2 + 1 <= a.0
                || a.1 + a.3 + 1 <= b.1
                || b.1 + b.3 + 1 <= a.1;
            assert!(apart, "{a:?} and {b:?} overlap");
        }
    }
    // Every glyph still reads back with its own fill after all the growth.
    for (i, &(x, y, w, h)) in rects.iter().enumerate() {
        assert_eq!(pixel(&atlas, x, y)[3], i as u8 + 1);
        assert_eq!(pixel(&atlas, x + w - 1, y + h - 1)[3], i as u8 + 1);
    }
}

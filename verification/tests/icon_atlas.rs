use launchpad::renderer::atlas_grid::{CELL, TARGET};
use launchpad::renderer::icon_atlas::{DecodedIcon, IconAtlas, UvRect};

fn solid(c: [u8; 4]) -> DecodedIcon {
    DecodedIcon {
        rgba: c.repeat((TARGET as usize).pow(2)),
        w: TARGET,
        h: TARGET,
    }
}

fn u0(uv: &UvRect) -> f32 {
    uv.left as f32 / uv.atlas_width as f32
}
fn v0(uv: &UvRect) -> f32 {
    uv.top as f32 / uv.atlas_height as f32
}
fn u1(uv: &UvRect) -> f32 {
    uv.right as f32 / uv.atlas_width as f32
}
fn v1(uv: &UvRect) -> f32 {
    uv.bottom as f32 / uv.atlas_height as f32
}

#[test]
fn new_atlas_has_valid_dimensions() {
    let a = IconAtlas::new(0);
    assert!(a.width() > 0);
    assert!(a.height() > 0);
    assert_eq!(a.width() % CELL, 0);
    assert_eq!(a.height() % CELL, 0);
}

#[test]
fn write_icon_records_uv_inside_unit_square() {
    let mut a = IconAtlas::new(8);
    let (_, _, uv) = a.write_icon(0, &solid([255, 0, 0, 255]));
    for v in [u0(&uv), v0(&uv), u1(&uv), v1(&uv)] {
        assert!((0.0..=1.0).contains(&v));
    }
    assert!(u1(&uv) > u0(&uv));
    assert!(v1(&uv) > v0(&uv));
    assert_eq!(a.uv(0), Some(uv));
}

#[test]
fn write_icon_blits_pixels_at_slot_origin() {
    let mut a = IconAtlas::new(8);
    let (x, y, _) = a.write_icon(3, &solid([10, 20, 30, 40]));
    let stride = a.width() as usize * 4;
    let px = (y as usize) * stride + x as usize * 4;
    assert_eq!(&a.rgba()[px..px + 4], &[10, 20, 30, 40]);
}

#[test]
fn different_slots_do_not_overlap() {
    let mut a = IconAtlas::new(8);
    let (_, _, uv0) = a.write_icon(0, &solid([255, 0, 0, 255]));
    let (_, _, uv1) = a.write_icon(1, &solid([0, 255, 0, 255]));
    // Pixel distance between the two icon origins must be >= TARGET.
    let p0 = u0(&uv0) * a.width() as f32;
    let p1 = u0(&uv1) * a.width() as f32;
    assert!((p1 - p0).abs() >= TARGET as f32);
}

#[test]
fn clearing_slot_makes_uv_none_and_zeroes_pixels() {
    let mut a = IconAtlas::new(8);
    a.write_icon(2, &solid([1, 2, 3, 4]));
    assert!(a.uv(2).is_some());
    a.clear_slot(2);
    assert!(a.uv(2).is_none());
    // The cell region (including padding) must be all zero.
    let col = 2u32;
    let row = 0u32;
    let cx = col * CELL;
    let cy = row * CELL;
    let stride = a.width() as usize * 4;
    for y in 0..CELL {
        for x in 0..CELL {
            let idx = (cy as usize + y as usize) * stride + (cx as usize + x as usize) * 4;
            assert!(
                a.rgba()[idx..idx + 4].iter().all(|&b| b == 0),
                "pixel nonzero after clear at ({x},{y})"
            );
        }
    }
}

#[test]
fn empty_icon_clears_slot() {
    let mut a = IconAtlas::new(8);
    a.write_icon(1, &solid([9, 9, 9, 9]));
    let empty = DecodedIcon {
        rgba: vec![],
        w: 0,
        h: 0,
    };
    a.write_icon(1, &empty);
    assert!(a.uv(1).is_none());
}

#[test]
fn ensure_capacity_grows_preserving_existing_uvs_and_pixels() {
    let mut a = IconAtlas::new(2);
    let (_, _, uv0) = a.write_icon(0, &solid([255, 0, 0, 255]));
    let (_, _, uv1) = a.write_icon(1, &solid([0, 255, 0, 255]));
    let old_capacity = a.capacity();

    // Force growth far beyond current capacity.
    let grew = a.ensure_capacity(old_capacity + 50);
    assert!(grew);
    assert!(a.capacity() >= old_capacity + 50);

    // UVs changed (texture resized), but pixel content migrated intact.
    let new_uv0 = a.uv(0).expect("slot 0 preserved");
    let (x0, y0) = a.icon_origin(0);
    let stride = a.width() as usize * 4;
    let px = y0 as usize * stride + x0 as usize * 4;
    assert_eq!(&a.rgba()[px..px + 4], &[255, 0, 0, 255]);
    // The newly written slot 1 should also be intact.
    let (x1, y1) = a.icon_origin(1);
    let px1 = y1 as usize * stride + x1 as usize * 4;
    assert_eq!(&a.rgba()[px1..px1 + 4], &[0, 255, 0, 255]);
    // uv0 must have been recomputed for the new dimensions.
    let _ = (uv0, uv1, new_uv0);
}

#[test]
fn writing_slot_beyond_capacity_auto_grows() {
    let mut a = IconAtlas::new(1);
    let (_, _, uv) = a.write_icon(5, &solid([1, 1, 1, 255]));
    assert!(a.capacity() >= 6);
    assert_eq!(a.uv(5), Some(uv));
}

#[test]
fn auto_grow_keeps_uv_bookkeeping_for_all_new_capacity() {
    let mut a = IconAtlas::new(64);

    // Slot 64 grows the atlas from 64 to a larger allocation. The UV table
    // must keep the full new capacity, not just the 65 slots needed by
    // this write, or later slots will be lost on the next grow.
    a.write_icon(64, &solid([64, 0, 0, 255]));
    assert!(a.capacity() >= 128);

    let (_, _, uv100) = a.write_icon(100, &solid([100, 0, 0, 255]));
    assert_eq!(a.uv(100), Some(uv100));

    // Force a second grow. Slot 100 should migrate with the CPU atlas and
    // keep a valid UV instead of disappearing.
    a.write_icon(128, &solid([128, 0, 0, 255]));
    let (x, y) = a.icon_origin(100);
    let stride = a.width() as usize * 4;
    let px = y as usize * stride + x as usize * 4;
    assert_eq!(&a.rgba()[px..px + 4], &[100, 0, 0, 255]);
    assert!(a.uv(100).is_some());
}

#[test]
fn slot_uv_is_stable_across_other_writes() {
    let mut a = IconAtlas::new(16);
    let (_, _, uv0) = a.write_icon(0, &solid([1, 1, 1, 255]));
    // Writing other slots must not move slot 0's UV.
    for s in 1..8 {
        a.write_icon(s, &solid([2, 2, 2, 255]));
    }
    assert_eq!(a.uv(0), Some(uv0));
}

#[test]
fn new_atlas_grid_is_roughly_square() {
    // 10 slots: ceil(sqrt(10)) = 4 columns, ceil(10 / 4) = 3 rows.
    let a = IconAtlas::new(10);
    assert_eq!(a.width(), 4 * CELL);
    assert_eq!(a.height(), 3 * CELL);
    assert_eq!(a.capacity(), 12);
    assert_eq!(a.rgba().len(), (4 * CELL * 3 * CELL * 4) as usize);
    // An empty atlas still gets a 16-column row.
    let e = IconAtlas::new(0);
    assert_eq!(e.width(), 16 * CELL);
    assert_eq!(e.height(), CELL);
}

#[test]
fn growth_doubles_rows_and_keeps_columns() {
    let mut a = IconAtlas::new(4); // 2 x 2
    assert!(!a.ensure_capacity(4));
    assert!(a.ensure_capacity(5));
    assert_eq!(a.width(), 2 * CELL);
    assert_eq!(a.height(), 4 * CELL);
    assert_eq!(a.capacity(), 8);
}

#[test]
fn uv_rect_is_exact_icon_area() {
    let mut a = IconAtlas::new(4); // 2 x 2 grid
    let (x, y, uv) = a.write_icon(3, &solid([5, 5, 5, 5]));
    assert_eq!((x, y), (CELL + 1, CELL + 1));
    assert_eq!(
        uv,
        UvRect {
            left: CELL + 1,
            top: CELL + 1,
            right: CELL + 1 + TARGET,
            bottom: CELL + 1 + TARGET,
            atlas_width: 2 * CELL,
            atlas_height: 2 * CELL,
        }
    );
}

#[test]
fn padding_stays_transparent_after_write() {
    let mut a = IconAtlas::new(4);
    a.write_icon(0, &solid([7, 7, 7, 7]));
    let stride = a.width() as usize * 4;
    // Top-left padding pixel of cell 0 and the pixel right of the icon.
    assert_eq!(&a.rgba()[0..4], &[0, 0, 0, 0]);
    let right = stride + (1 + TARGET as usize) * 4;
    assert_eq!(&a.rgba()[right..right + 4], &[0, 0, 0, 0]);
    // Neighbour cell untouched.
    let n = stride + (CELL as usize + 1) * 4;
    assert_eq!(&a.rgba()[n..n + 4], &[0, 0, 0, 0]);
}

#[test]
fn clear_beyond_capacity_is_a_no_op() {
    let mut a = IconAtlas::new(4);
    a.write_icon(1, &solid([3, 3, 3, 3]));
    let before = a.rgba().to_vec();
    a.clear_slot(99);
    assert_eq!(a.rgba(), &before[..]);
    assert_eq!(a.capacity(), 4);
}

#[test]
fn grown_atlas_drops_nothing_but_unwritten_cells() {
    let mut a = IconAtlas::new(4);
    a.write_icon(2, &solid([9, 8, 7, 6]));
    a.ensure_capacity(20);
    assert!(a.uv(0).is_none());
    assert!(a.uv(2).is_some());
    let (x, y) = a.icon_origin(2);
    let stride = a.width() as usize * 4;
    let px = y as usize * stride + x as usize * 4;
    assert_eq!(&a.rgba()[px..px + 4], &[9, 8, 7, 6]);
}

#[test]
fn oversized_icon_is_clipped_to_its_own_cell() {
    let mut a = IconAtlas::new(4);
    let (_, _, uv1) = a.write_icon(1, &solid([9, 9, 9, 9]));
    let before = a.rgba().to_vec();
    // 100 × 70 icon whose pixel (px, py) holds [px, py, 7, 255].
    let (w, h) = (100u32, 70u32);
    let mut rgba = Vec::new();
    for py in 0..h {
        for px in 0..w {
            rgba.extend_from_slice(&[px as u8, py as u8, 7, 255]);
        }
    }
    let big = DecodedIcon { rgba, w, h };
    let (x, y, _) = a.write_icon(0, &big);
    assert_eq!((x, y), (1, 1));
    let stride = a.width() as usize * 4;
    for ay in 0..a.height() {
        for ax in 0..a.width() {
            let i = ay as usize * stride + ax as usize * 4;
            let in_icon_area = ax >= 1 && ax < 1 + TARGET && ay >= 1 && ay < 1 + TARGET;
            if in_icon_area {
                assert_eq!(&a.rgba()[i..i + 4], &[(ax - 1) as u8, (ay - 1) as u8, 7, 255]);
            } else {
                assert_eq!(&a.rgba()[i..i + 4], &before[i..i + 4], "pixel ({ax}, {ay})");
            }
        }
    }
    assert_eq!(a.uv(1), Some(uv1));
    assert!(a.uv(0).is_some());
}

//! Which target a frame is drawn to, and pixel handling for QA frame
//! captures: GPU readback rows are padded to a 256-byte alignment, and BGRA
//! surfaces must be reordered to RGBA before the frame is saved as a PNG.

use vstd::prelude::*;

verus! {

/// What the surface answered when asked for the next texture.
#[derive(Debug, Clone, Copy, PartialEq, Eq, Structural)]
pub enum SurfaceStatus {
    Success,
    /// A texture that no longer matches the surface exactly but can be used.
    Suboptimal,
    Outdated,
    Lost,
    Timeout,
    Occluded,
    Validation,
}

/// Why a frame is skipped.
#[derive(Debug, Clone, Copy, PartialEq, Eq, Structural)]
pub enum SkipReason {
    /// The surface is outdated or lost (reported in the log).
    OutdatedOrLost,
    /// Getting a texture timed out (silent).
    Timeout,
    /// The window is occluded (silent).
    Occluded,
    /// The surface reported a validation error (reported in the log).
    Validation,
    /// There is neither a surface nor an offscreen target (reported in the
    /// log).
    NoTarget,
}

/// Where a frame goes.
#[derive(Debug, Clone, Copy, PartialEq, Eq, Structural)]
pub enum FrameTarget {
    /// Draw into the surface's texture.
    Surface,
    /// Draw into the offscreen QA texture.
    Offscreen,
    Skip(SkipReason),
}

/// The frame's target: the surface's texture when the surface gave one
/// (also when suboptimal), a skip on any other surface answer, the
/// offscreen texture when there is no surface, and a skip when there is
/// neither. `surface` is the surface's answer, `None` without a surface.
pub open spec fn spec_frame_target(surface: Option<SurfaceStatus>, has_offscreen: bool) -> FrameTarget {
    match surface {
        Some(SurfaceStatus::Success) | Some(SurfaceStatus::Suboptimal) => FrameTarget::Surface,
        Some(SurfaceStatus::Outdated) | Some(SurfaceStatus::Lost) => FrameTarget::Skip(
            SkipReason::OutdatedOrLost,
        ),
        Some(SurfaceStatus::Timeout) => FrameTarget::Skip(SkipReason::Timeout),
        Some(SurfaceStatus::Occluded) => FrameTarget::Skip(SkipReason::Occluded),
        Some(SurfaceStatus::Validation) => FrameTarget::Skip(SkipReason::Validation),
        None => if has_offscreen {
            FrameTarget::Offscreen
        } else {
            FrameTarget::Skip(SkipReason::NoTarget)
        },
    }
}

/// Decide where this frame is drawn (see [`spec_frame_target`]).
pub fn frame_target(surface: Option<SurfaceStatus>, has_offscreen: bool) -> (r: FrameTarget)
    ensures
        r == spec_frame_target(surface, has_offscreen),
{
    match surface {
        Some(SurfaceStatus::Success) | Some(SurfaceStatus::Suboptimal) => FrameTarget::Surface,
        Some(SurfaceStatus::Outdated) | Some(SurfaceStatus::Lost) => FrameTarget::Skip(
            SkipReason::OutdatedOrLost,
        ),
        Some(SurfaceStatus::Timeout) => FrameTarget::Skip(SkipReason::Timeout),
        Some(SurfaceStatus::Occluded) => FrameTarget::Skip(SkipReason::Occluded),
        Some(SurfaceStatus::Validation) => FrameTarget::Skip(SkipReason::Validation),
        None => if has_offscreen {
            FrameTarget::Offscreen
        } else {
            FrameTarget::Skip(SkipReason::NoTarget)
        },
    }
}

/// A surface always takes precedence: the offscreen target is used only
/// without a surface, and a frame is drawn to the surface exactly when it
/// handed out a texture.
pub proof fn law_surface_first(surface: SurfaceStatus, has_offscreen: bool)
    ensures
        spec_frame_target(Some(surface), has_offscreen) != FrameTarget::Offscreen,
        (spec_frame_target(Some(surface), has_offscreen) == FrameTarget::Surface) == (surface
            == SurfaceStatus::Success || surface == SurfaceStatus::Suboptimal),
{
}

/// How the grid's tiles and icons are drawn this frame: a dragged tile (the
/// last tile instance) and the dragged icons (the last icon instances) are
/// held back from the grid passes and drawn on top in the drag overlay pass.
/// A count of zero means the draw is skipped.
#[derive(Debug, Clone, Copy, PartialEq, Eq, Structural)]
pub struct GridDrawPlan {
    /// Tiles drawn in the grid pass (the first ones).
    pub normal_tiles: u32,
    /// The last tile is drawn in the overlay pass.
    pub dragged_tile: bool,
    /// Icons drawn in the grid pass (the first ones).
    pub normal_icons: u32,
    /// Icons drawn in the overlay pass (the last ones).
    pub dragged_icons: u32,
}

/// Split the grid's `tile_count` tiles and `icon_count` icons between the
/// grid passes and the drag overlay: the tile drag is active only when a
/// tile is dragged and there is a tile; at most `icon_count` icons are held
/// back as dragged.
pub open spec fn spec_grid_draw_plan(
    tile_count: u32,
    tile_dragged: bool,
    icon_count: u32,
    dragged_icon_count: u32,
) -> GridDrawPlan {
    let dragged_tile = tile_dragged && tile_count > 0;
    let dragged_icons = if dragged_icon_count < icon_count {
        dragged_icon_count
    } else {
        icon_count
    };
    GridDrawPlan {
        normal_tiles: (if dragged_tile {
            tile_count - 1
        } else {
            tile_count as int
        }) as u32,
        dragged_tile,
        normal_icons: (icon_count - dragged_icons) as u32,
        dragged_icons,
    }
}

/// The grid's draw plan (see [`spec_grid_draw_plan`]).
pub fn grid_draw_plan(
    tile_count: u32,
    tile_dragged: bool,
    icon_count: u32,
    dragged_icon_count: u32,
) -> (r: GridDrawPlan)
    ensures
        r == spec_grid_draw_plan(tile_count, tile_dragged, icon_count, dragged_icon_count),
{
    let dragged_tile = tile_dragged && tile_count > 0;
    let normal_tiles = if dragged_tile {
        tile_count - 1
    } else {
        tile_count
    };
    let dragged_icons = if dragged_icon_count < icon_count {
        dragged_icon_count
    } else {
        icon_count
    };
    GridDrawPlan { normal_tiles, dragged_tile, normal_icons: icon_count - dragged_icons, dragged_icons }
}

/// Every tile and icon is drawn exactly once: the grid passes and the drag
/// overlay together cover all instances, with nothing drawn twice; without
/// a drag everything goes to the grid passes.
pub proof fn law_grid_draw_plan_covers_all(
    tile_count: u32,
    tile_dragged: bool,
    icon_count: u32,
    dragged_icon_count: u32,
)
    ensures
        ({
            let plan = spec_grid_draw_plan(tile_count, tile_dragged, icon_count, dragged_icon_count);
            &&& plan.normal_tiles + (if plan.dragged_tile {
                1int
            } else {
                0int
            }) == tile_count
            &&& plan.normal_icons + plan.dragged_icons == icon_count
            &&& (!tile_dragged && dragged_icon_count == 0) ==> (plan.normal_tiles == tile_count
                && plan.normal_icons == icon_count)
        }),
{
}

/// Byte order of a surface's pixels, as far as a capture cares.
#[derive(Debug, Clone, Copy, PartialEq, Eq, Structural)]
pub enum CaptureFormat {
    Bgra8Unorm,
    Bgra8UnormSrgb,
    Rgba8Unorm,
    Rgba8UnormSrgb,
    /// Any other surface format; captured bytes are kept as they are.
    Other,
}

impl CaptureFormat {
    pub open spec fn spec_is_bgra(self) -> bool {
        self == CaptureFormat::Bgra8Unorm || self == CaptureFormat::Bgra8UnormSrgb
    }
}

/// `pixels` with bytes 0 and 2 of every whole 4-byte pixel exchanged when
/// `bgra`; a trailing partial pixel is left as it is.
pub open spec fn spec_normalized(pixels: Seq<u8>, bgra: bool) -> Seq<u8> {
    Seq::new(
        pixels.len(),
        |i: int|
            {
                let base = i - i % 4;
                if bgra && base + 4 <= pixels.len() && i % 4 == 0 {
                    pixels[base + 2]
                } else if bgra && base + 4 <= pixels.len() && i % 4 == 2 {
                    pixels[base]
                } else {
                    pixels[i]
                }
            },
    )
}

/// Reorder captured BGRA pixels to RGBA in place; other formats are left
/// unchanged.
pub fn normalize_capture_rgba(format: CaptureFormat, pixels: &mut Vec<u8>)
    ensures
        final(pixels)@ == spec_normalized(old(pixels)@, format.spec_is_bgra()),
{
    let bgra = match format {
        CaptureFormat::Bgra8Unorm | CaptureFormat::Bgra8UnormSrgb => true,
        _ => false,
    };
    if !bgra {
        proof {
            assert(pixels@ =~= spec_normalized(old(pixels)@, false));
        }
        return;
    }
    let n = pixels.len();
    let mut p: usize = 0;
    while 4 <= n - p
        invariant
            n == old(pixels)@.len(),
            pixels@.len() == n,
            p % 4 == 0,
            p <= n,
            forall|i: int|
                0 <= i < n ==> #[trigger] pixels@[i] == if i < p {
                    spec_normalized(old(pixels)@, true)[i]
                } else {
                    old(pixels)@[i]
                },
        decreases n - p,
    {
        let a = pixels[p];
        let c = pixels[p + 2];
        pixels.set(p, c);
        pixels.set(p + 2, a);
        proof {
            assert forall|i: int| 0 <= i < n implies #[trigger] pixels@[i] == if i < p + 4 {
                spec_normalized(old(pixels)@, true)[i]
            } else {
                old(pixels)@[i]
            } by {
                if p <= i < p + 4 {
                    assert(i - i % 4 == p);
                }
            }
        }
        p = p + 4;
    }
    proof {
        assert forall|i: int| 0 <= i < n implies #[trigger] pixels@[i] == spec_normalized(
            old(pixels)@,
            true,
        )[i] by {
            if i >= p {
                assert(i - i % 4 + 4 > n);
            }
        }
        assert(pixels@ =~= spec_normalized(old(pixels)@, true));
    }
}

/// Bytes per readback row for a `width`-pixel capture: the RGBA row length
/// rounded up to the 256-byte alignment the GPU requires.
pub fn padded_bytes_per_row(width: u32) -> (r: u32)
    requires
        width * 4 + 255 <= u32::MAX,
    ensures
        r % 256 == 0,
        width * 4 <= r < width * 4 + 256,
{
    let bytes_per_row = width * 4;
    let y = bytes_per_row + 255;
    let r = y & !255u32;
    assert(y & !255u32 == y - y % 256) by (bit_vector);
    r
}

/// Rows of `bytes_per_row` bytes taken from `data`, where each row starts
/// `padded` bytes after the previous one.
pub open spec fn spec_depadded(data: Seq<u8>, bytes_per_row: int, padded: int, height: int) -> Seq<
    u8,
> {
    Seq::new(
        (height * bytes_per_row) as nat,
        |i: int| data[(i / bytes_per_row) * padded + i % bytes_per_row],
    )
}

/// De-pad readback rows into a tight RGBA buffer.
pub fn depad_rows(data: &[u8], bytes_per_row: u32, padded: u32, height: u32) -> (r: Vec<u8>)
    requires
        bytes_per_row <= padded,
        height == 0 || (height - 1) * padded + bytes_per_row <= data@.len(),
    ensures
        r@ == spec_depadded(data@, bytes_per_row as int, padded as int, height as int),
{
    let mut pixels: Vec<u8> = Vec::new();
    let dlen = data.len();
    let mut row: u32 = 0;
    let bpr = bytes_per_row as usize;
    while row < height
        invariant
            bpr == bytes_per_row,
            dlen == data@.len(),
            bytes_per_row <= padded,
            height == 0 || (height - 1) * padded + bytes_per_row <= data@.len(),
            row <= height,
            pixels@.len() == row * bytes_per_row,
            forall|i: int|
                0 <= i < pixels@.len() ==> #[trigger] pixels@[i] == data@[(i / (bytes_per_row as int))
                    * padded + i % (bytes_per_row as int)],
        decreases height - row,
    {
        assert(row * padded + bytes_per_row <= data@.len()) by {
            vstd::arithmetic::mul::lemma_mul_inequality(row as int, height - 1, padded as int);
        }
        let start = (row as usize) * (padded as usize);
        let mut j: usize = 0;
        while j < bpr
            invariant
                bpr == bytes_per_row,
                dlen == data@.len(),
                start == row * padded,
                start + bpr <= data@.len(),
                j <= bpr,
                pixels@.len() == row * bytes_per_row + j,
                forall|i: int|
                    0 <= i < row * bytes_per_row ==> #[trigger] pixels@[i] == data@[(i / (
                    bytes_per_row as int)) * padded + i % (bytes_per_row as int)],
                forall|i: int|
                    row * bytes_per_row <= i < row * bytes_per_row + j ==> #[trigger] pixels@[i]
                        == data@[start + (i - row * bytes_per_row)],
            decreases bpr - j,
        {
            pixels.push(data[start + j]);
            j = j + 1;
        }
        proof {
            assert((row + 1) * bytes_per_row == row * bytes_per_row + bytes_per_row) by {
                vstd::arithmetic::mul::lemma_mul_is_distributive_add_other_way(
                    bytes_per_row as int,
                    row as int,
                    1,
                );
            }
            assert forall|i: int|
                row * bytes_per_row <= i < (row + 1) * bytes_per_row implies #[trigger] pixels@[i]
                == data@[(i / (bytes_per_row as int)) * padded + i % (bytes_per_row as int)] by {
                vstd::arithmetic::div_mod::lemma_fundamental_div_mod_converse(
                    i,
                    bytes_per_row as int,
                    row as int,
                    i - row * bytes_per_row,
                );
            }
        }
        row = row + 1;
    }
    proof {
        assert(pixels@ =~= spec_depadded(
            data@,
            bytes_per_row as int,
            padded as int,
            height as int,
        ));
    }
    pixels
}

} // verus!

//! Fixed-slot icon atlas.
//!
//! Each app owns a **fixed** cell in a grid texture, addressed by its `slot`
//! index. Updating one icon rewrites only that cell; adding or removing apps
//! never shifts another app's UV.
//!
//! Layout:
//!   - Each cell is `TARGET + 2*CELL_PAD` pixels square (the padding keeps
//!     linear filtering from bleeding a neighbour's edge into the icon).
//!   - The atlas holds a `cols × rows` grid of cells, row-major RGBA bytes.
//!   - When a slot outgrows the capacity, the atlas grows (a full re-blit of
//!     the written cells). This is the only operation that reallocates.
//!
//! All cells start transparent, so missing/loading icons render nothing over
//! their color tile.

use super::atlas_grid::{
    byte_len, cell_index, dy_of, in_block, k_of, lemma_block_in_cell, lemma_block_row_step, lemma_cell_fits,
    lemma_cell_index_inverse, lemma_index_coords, lemma_index_decompose, lemma_row_split,
    row_stride, slot_of, CELL, CELL_PAD, CELL_ROW_BYTES, MAX_COLS, MAX_DIM, TARGET,
};
use vstd::arithmetic::div_mod::*;
use vstd::arithmetic::mul::*;
use vstd::prelude::*;

verus! {

/// A decoded icon bitmap: `w × h` RGBA pixels, row-major.
#[derive(Debug)]
pub struct DecodedIcon {
    pub rgba: Vec<u8>,
    pub w: u32,
    pub h: u32,
}

impl DecodedIcon {
    /// An icon with no pixels (a cleared or failed decode).
    pub open spec fn spec_is_empty(&self) -> bool {
        self.w == 0 || self.h == 0
    }

    /// The icon carries its `w * h` pixels (an empty icon needs none).
    pub open spec fn has_all_pixels(&self) -> bool {
        self.spec_is_empty() || self.rgba@.len() >= self.w * self.h * 4
    }

    /// Columns of the icon that land in the atlas: the icon area is
    /// `TARGET` pixels wide, and wider icons are clipped to it.
    pub open spec fn clip_w(&self) -> int {
        if self.w < TARGET {
            self.w as int
        } else {
            TARGET as int
        }
    }

    /// Rows of the icon that land in the atlas (clipped to `TARGET`).
    pub open spec fn clip_h(&self) -> int {
        if self.h < TARGET {
            self.h as int
        } else {
            TARGET as int
        }
    }
}

/// Texture coordinates of an icon inside the atlas, as exact pixel
/// fractions: the normalized coordinates are `left / atlas_width`,
/// `top / atlas_height`, `right / atlas_width` and `bottom / atlas_height`.
#[derive(Clone, Copy, Debug, PartialEq, Eq, Structural)]
pub struct UvRect {
    pub left: u32,
    pub top: u32,
    pub right: u32,
    pub bottom: u32,
    pub atlas_width: u32,
    pub atlas_height: u32,
}

/// Ceiling of `a / b` for positive `b`.
pub open spec fn ceil_div(a: int, b: int) -> int {
    (a + b - 1) / b
}

/// Smallest `c >= start` whose square reaches `n`.
pub open spec fn ceil_sqrt_from(start: nat, n: nat) -> nat
    decreases n - start,
{
    if start * start >= n || start >= n {
        start
    } else {
        ceil_sqrt_from(start + 1, n)
    }
}

/// Column count that keeps an atlas for `capacity` slots roughly square.
pub open spec fn spec_cols_for_capacity(capacity: nat) -> int {
    if capacity == 0 {
        16
    } else {
        let c = ceil_sqrt_from(0, capacity) as int;
        if c < 1 {
            1
        } else if c > MAX_COLS {
            MAX_COLS as int
        } else {
            c
        }
    }
}

/// Grid rows of a fresh atlas with `cols` columns for `capacity` slots.
pub open spec fn spec_initial_rows(capacity: nat, cols: int) -> int {
    let r = ceil_div(capacity as int, cols);
    if r < 1 {
        1
    } else {
        r
    }
}

/// Abstract state of an [`IconAtlas`]: a `cols × rows` grid of cells, the
/// RGBA bytes of the whole texture, and which slots hold an icon.
pub ghost struct AtlasModel {
    pub cols: int,
    pub rows: int,
    pub rgba: Seq<u8>,
    pub written: Seq<bool>,
}

impl AtlasModel {
    pub open spec fn width(self) -> int {
        self.cols * (CELL as int)
    }

    pub open spec fn height(self) -> int {
        self.rows * (CELL as int)
    }

    pub open spec fn capacity(self) -> int {
        self.cols * self.rows
    }

    pub open spec fn wf(self) -> bool {
        &&& 1 <= self.cols <= MAX_COLS
        &&& self.rows >= 1
        &&& byte_len(self.cols, self.rows) <= u32::MAX
        &&& self.rgba.len() == byte_len(self.cols, self.rows)
        &&& self.written.len() == self.capacity()
    }

    /// A transparent atlas with nothing written.
    pub open spec fn blank(cols: int, rows: int) -> AtlasModel {
        AtlasModel {
            cols,
            rows,
            rgba: Seq::new(byte_len(cols, rows) as nat, |i: int| 0u8),
            written: Seq::new((cols * rows) as nat, |s: int| false),
        }
    }

    /// Byte `k` of pixel row `dy` of cell `slot`.
    pub open spec fn cell_byte(self, slot: int, dy: int, k: int) -> u8 {
        self.rgba[cell_index(self.cols, slot, dy, k)]
    }

    /// Top-left pixel of the icon area of `slot` (inside the padding).
    pub open spec fn icon_origin(self, slot: int) -> (int, int) {
        (
            (slot % self.cols) * (CELL as int) + (CELL_PAD as int),
            (slot / self.cols) * (CELL as int) + (CELL_PAD as int),
        )
    }

    /// UV rect of the icon area of `slot` in this atlas.
    pub open spec fn std_uv(self, slot: int) -> UvRect {
        let (x, y) = self.icon_origin(slot);
        UvRect {
            left: x as u32,
            top: y as u32,
            right: (x + TARGET) as u32,
            bottom: (y + TARGET) as u32,
            atlas_width: self.width() as u32,
            atlas_height: self.height() as u32,
        }
    }

    /// UV rect of `slot`, or `None` if the slot has no icon.
    pub open spec fn uv(self, slot: int) -> Option<UvRect> {
        if 0 <= slot < self.written.len() && self.written[slot] {
            Some(self.std_uv(slot))
        } else {
            None
        }
    }

    /// Rows after growing to hold `needed` slots: double the rows (or take
    /// as many as `needed` asks for), capped at the largest texture height
    /// unless `needed` itself asks for more.
    pub open spec fn grow_rows(self, needed: int) -> int {
        let want = ceil_div(needed, self.cols);
        let r0 = if want > 2 * self.rows {
            want
        } else {
            2 * self.rows
        };
        let r1 = if r0 * (CELL as int) > MAX_DIM {
            (MAX_DIM / CELL) as int
        } else {
            r0
        };
        if r1 >= want {
            r1
        } else {
            want
        }
    }

    /// The grown atlas: same columns, `grow_rows(needed)` rows, every written
    /// cell copied to its slot's position, everything else transparent.
    pub open spec fn grown(self, needed: int) -> AtlasModel {
        let rows = self.grow_rows(needed);
        AtlasModel {
            cols: self.cols,
            rows,
            rgba: Seq::new(
                byte_len(self.cols, rows) as nat,
                |i: int|
                    {
                        let s = slot_of(self.cols, i);
                        if s < self.capacity() && self.written[s] {
                            self.cell_byte(s, dy_of(self.cols, i), k_of(self.cols, i))
                        } else {
                            0u8
                        }
                    },
            ),
            written: Seq::new(
                (self.cols * rows) as nat,
                |s: int| s < self.capacity() && self.written[s],
            ),
        }
    }

    /// The atlas after making room for `needed` slots.
    pub open spec fn ensure_capacity(self, needed: int) -> AtlasModel {
        if needed <= self.capacity() {
            self
        } else {
            self.grown(needed)
        }
    }

    /// Byte size after making room for `needed` slots.
    pub open spec fn byte_len_for(self, needed: int) -> int {
        if needed <= self.capacity() {
            byte_len(self.cols, self.rows)
        } else {
            byte_len(self.cols, self.grow_rows(needed))
        }
    }

    /// The atlas with the whole cell of `slot` transparent and the slot
    /// marked empty.
    pub open spec fn with_cleared(self, slot: int) -> AtlasModel {
        AtlasModel {
            rgba: Seq::new(
                self.rgba.len(),
                |i: int|
                    if slot_of(self.cols, i) == slot {
                        0u8
                    } else {
                        self.rgba[i]
                    },
            ),
            written: self.written.update(slot, false),
            ..self
        }
    }

    /// The atlas with `icon` copied into the icon area of `slot`, clipped to
    /// `TARGET × TARGET`; the padding and every other cell keep their bytes.
    pub open spec fn with_icon(self, slot: int, icon: DecodedIcon) -> AtlasModel {
        AtlasModel {
            rgba: Seq::new(
                self.rgba.len(),
                |i: int|
                    {
                        let dy = dy_of(self.cols, i);
                        let k = k_of(self.cols, i);
                        if slot_of(self.cols, i) == slot && 1 <= dy < 1 + icon.clip_h() && 4 <= k
                            < 4 + icon.clip_w() * 4 {
                            icon.rgba@[(dy - 1) * (icon.w * 4) + (k - 4)]
                        } else {
                            self.rgba[i]
                        }
                    },
            ),
            written: self.written.update(slot, true),
            ..self
        }
    }

    /// The atlas after writing `icon` into `slot`, growing first when the
    /// slot lies beyond the capacity. An empty icon clears the slot.
    pub open spec fn write_icon(self, slot: int, icon: DecodedIcon) -> AtlasModel {
        let g = if slot >= self.capacity() {
            self.grown(slot + 1)
        } else {
            self
        };
        if icon.spec_is_empty() {
            g.with_cleared(slot)
        } else {
            g.with_icon(slot, icon)
        }
    }

    /// The atlas after clearing `slot` (unchanged beyond the capacity).
    pub open spec fn clear_slot(self, slot: int) -> AtlasModel {
        if slot >= self.capacity() {
            self
        } else {
            self.with_cleared(slot)
        }
    }
}

/// A growable, fixed-slot RGBA atlas.
pub struct IconAtlas {
    /// CPU-side pixel buffer (`width * height * 4`), kept in sync with the GPU
    /// texture so a grow can re-blit everything without re-extracting icons.
    rgba: Vec<u8>,
    width: u32,
    height: u32,
    /// Grid columns (derived from width / CELL).
    cols: u32,
    /// How many cells the current allocation can hold.
    capacity: u32,
    /// Per-slot UV. `None` = slot holds no icon (transparent).
    uvs: Vec<Option<UvRect>>,
}

impl View for IconAtlas {
    type V = AtlasModel;

    closed spec fn view(&self) -> AtlasModel {
        AtlasModel {
            cols: self.cols as int,
            rows: self.height as int / (CELL as int),
            rgba: self.rgba@,
            written: Seq::new(self.uvs@.len(), |s: int| self.uvs@[s] is Some),
        }
    }
}

impl IconAtlas {
    /// What a well-formed atlas tells about its model.
    pub proof fn lemma_model_wf(&self)
        requires
            self.wf(),
        ensures
            self@.wf(),
    {
    }

    /// Internal consistency: the fields agree with the grid, and each
    /// written slot records the UV of its own cell.
    pub closed spec fn wf(&self) -> bool {
        &&& self@.wf()
        &&& self.width == self.cols * CELL
        &&& self.height == self@.rows * CELL
        &&& self.capacity == self@.capacity()
        &&& self.uvs@.len() == self.capacity
        &&& forall|s: int|
            0 <= s < self.uvs@.len() && (#[trigger] self.uvs@[s]) is Some ==> self.uvs@[s] == Some(
                self@.std_uv(s),
            )
    }

    fn with_grid(cols: u32, rows: u32) -> (r: Self)
        requires
            1 <= cols <= MAX_COLS,
            rows >= 1,
            byte_len(cols as int, rows as int) <= u32::MAX,
        ensures
            r.wf(),
            r@ == AtlasModel::blank(cols as int, rows as int),
    {
        proof {
            lemma_grid_sizes(cols as int, rows as int);
        }
        let width = cols * CELL;
        let height = rows * CELL;
        let capacity = cols * rows;
        let rgba = vec![0u8; (width * height * 4) as usize];
        let mut uvs: Vec<Option<UvRect>> = Vec::new();
        let mut n: u32 = 0;
        while n < capacity
            invariant
                n <= capacity,
                uvs@.len() == n,
                forall|s: int| 0 <= s < n ==> #[trigger] uvs@[s] == None::<UvRect>,
            decreases capacity - n,
        {
            uvs.push(None);
            n = n + 1;
        }
        let r = Self { rgba, width, height, cols, capacity, uvs };
        proof {
            assert(r@.rows == rows as int) by {
                lemma_div_multiples_vanish(rows as int, CELL as int);
            }
            assert(r@.rgba =~= AtlasModel::blank(cols as int, rows as int).rgba);
            assert(r@.written =~= AtlasModel::blank(cols as int, rows as int).written);
        }
        r
    }

    /// Create an atlas sized for `initial_capacity` slots (rounded up to a
    /// roughly square grid). One row is the minimum so the GPU always has a
    /// valid texture.
    pub fn new(initial_capacity: u32) -> (r: Self)
        requires
            byte_len(
                spec_cols_for_capacity(initial_capacity as nat),
                spec_initial_rows(
                    initial_capacity as nat,
                    spec_cols_for_capacity(initial_capacity as nat),
                ),
            ) <= u32::MAX,
        ensures
            r.wf(),
            r@ == AtlasModel::blank(
                spec_cols_for_capacity(initial_capacity as nat),
                spec_initial_rows(
                    initial_capacity as nat,
                    spec_cols_for_capacity(initial_capacity as nat),
                ),
            ),
    {
        let c = cols_for_capacity(initial_capacity);
        let cols = if c < 1 {
            1
        } else {
            c
        };
        let r = div_ceil(initial_capacity, cols);
        let rows = if r < 1 {
            1
        } else {
            r
        };
        Self::with_grid(cols, rows)
    }

    pub fn width(&self) -> (r: u32)
        requires
            self.wf(),
        ensures
            r == self@.width(),
    {
        self.width
    }

    pub fn height(&self) -> (r: u32)
        requires
            self.wf(),
        ensures
            r == self@.height(),
    {
        self.height
    }

    pub fn rgba(&self) -> (r: &[u8])
        ensures
            r@ == self@.rgba,
    {
        self.rgba.as_slice()
    }

    pub fn capacity(&self) -> (r: u32)
        requires
            self.wf(),
        ensures
            r == self@.capacity(),
    {
        self.capacity
    }

    /// UV rect for a slot, or `None` if the slot holds no icon.
    pub fn uv(&self, slot: u32) -> (r: Option<UvRect>)
        requires
            self.wf(),
        ensures
            r == self@.uv(slot as int),
    {
        if (slot as usize) < self.uvs.len() {
            self.uvs[slot as usize]
        } else {
            None
        }
    }

    /// (col, row) of a slot in the cell grid.
    fn cell_xy(&self, slot: u32) -> (r: (u32, u32))
        requires
            self.wf(),
        ensures
            r.0 == slot as int % self@.cols,
            r.1 == slot as int / self@.cols,
    {
        let col = slot % self.cols;
        let row = slot / self.cols;
        (col, row)
    }

    /// Pixel origin (top-left of the *icon*, i.e. inside the padding) of a slot.
    pub fn icon_origin(&self, slot: u32) -> (r: (u32, u32))
        requires
            self.wf(),
            slot < self@.capacity(),
        ensures
            (r.0 as int, r.1 as int) == self@.icon_origin(slot as int),
    {
        proof {
            lemma_cell_fits(self@.cols, self@.rows, slot as int);
            lemma_grid_sizes(self@.cols, self@.rows);
        }
        let (col, row) = self.cell_xy(slot);
        (col * CELL + CELL_PAD, row * CELL + CELL_PAD)
    }

    fn rows(&self) -> (r: u32)
        requires
            self.wf(),
        ensures
            r == self@.rows,
    {
        self.height / CELL
    }

    fn rows_for_capacity(&self, needed: u32, cols: u32) -> (r: u32)
        requires
            cols >= 1,
        ensures
            r == ceil_div(needed as int, cols as int),
    {
        div_ceil(needed, if cols < 1 {
            1
        } else {
            cols
        })
    }

    /// Ensure the atlas can hold at least `needed` slots. Grows the texture
    /// (more rows, re-blitting every written cell) when necessary. Returns
    /// `true` if the texture was reallocated, in which case the caller must
    /// re-upload the whole atlas to the GPU.
    pub fn ensure_capacity(&mut self, needed: u32) -> (grew: bool)
        requires
            old(self).wf(),
            old(self)@.byte_len_for(needed as int) <= u32::MAX,
        ensures
            final(self).wf(),
            final(self)@ == old(self)@.ensure_capacity(needed as int),
            grew == (needed > old(self)@.capacity()),
    {
        if needed <= self.capacity {
            // Still make sure the UV bookkeeping tracks `needed`.
            if (needed as usize) > self.uvs.len() {
                self.uvs.resize(needed as usize, None);
            }
            return false;
        }
        let ghost m = self@;
        proof {
            lemma_grow_bounds(m, needed as int);
            lemma_grid_sizes(m.cols, m.rows);
        }
        // Grow: double rows, keep cols. If that still isn't enough, widen cols.
        let want0 = self.rows_for_capacity(needed, self.cols);
        let twice = self.rows() * 2;
        let mut cols = self.cols;
        let mut rows = if want0 > twice {
            want0
        } else {
            twice
        };
        while cols * CELL > MAX_DIM && cols > 1
            invariant
                cols == m.cols,
                1 <= m.cols <= MAX_COLS,
            decreases cols,
        {
            cols = cols / 2;
        }
        rows = if rows < 1 {
            1
        } else {
            rows
        };
        while cols * CELL > MAX_DIM
            invariant
                cols == m.cols,
                1 <= m.cols <= MAX_COLS,
            decreases cols,
        {
            cols = cols - 1;
        }
        if rows * CELL > MAX_DIM {
            rows = MAX_DIM / CELL;
        }
        let new_cols = if cols < 1 {
            1
        } else {
            cols
        };
        let want1 = div_ceil(needed, new_cols);
        let want = if want1 < 1 {
            1
        } else {
            want1
        };
        let new_rows = if rows < want {
            want
        } else {
            rows
        };
        assert(new_rows == m.grow_rows(needed as int));
        let mut grown = Self::with_grid(new_cols, new_rows);
        // Re-blit every written slot into the new buffer. Whole CELL×CELL
        // regions are copied by *cell* origin, so the padding gutter travels
        // with the icon.
        let old_cols = self.cols;
        let n: u32 = self.uvs.len() as u32;
        let mut slot: u32 = 0;
        while slot < n
            invariant
                *self == *old(self),
                m == self@,
                self.wf(),
                grown.wf(),
                n == m.capacity(),
                old_cols == m.cols,
                grown@.cols == m.cols,
                grown@.rows == m.grow_rows(needed as int),
                m.capacity() < grown@.capacity(),
                slot <= n,
                forall|i: int|
                    0 <= i < grown@.rgba.len() ==> #[trigger] grown@.rgba[i] == if slot_of(m.cols, i)
                        < slot && m.written[slot_of(m.cols, i)] {
                        m.cell_byte(slot_of(m.cols, i), dy_of(m.cols, i), k_of(m.cols, i))
                    } else {
                        0u8
                    },
                forall|s: int|
                    0 <= s < grown@.written.len() ==> #[trigger] grown@.written[s] == (s < slot
                        && m.written[s]),
            decreases n - slot,
        {
            if self.uvs[slot as usize].is_some() {
                proof {
                    lemma_cell_fits(m.cols, m.rows, slot as int);
                    lemma_cell_fits(grown@.cols, grown@.rows, slot as int);
                }
                let (old_col, old_row) = (slot % old_cols, slot / old_cols);
                let src_x = old_col * CELL;
                let src_y = old_row * CELL;
                let (dst_col, dst_row) = (slot % grown.cols, slot / grown.cols);
                let dst_x = dst_col * CELL;
                let dst_y = dst_row * CELL;
                let ghost before = grown@;
                copy_cell(
                    &self.rgba,
                    self.width,
                    src_x,
                    src_y,
                    &mut grown.rgba,
                    grown.width,
                    dst_x,
                    dst_y,
                );
                proof {
                    assert forall|i: int| 0 <= i < grown@.rgba.len() implies #[trigger] grown@.rgba[i]
                        == if slot_of(m.cols, i) < slot + 1 && m.written[slot_of(m.cols, i)] {
                        m.cell_byte(slot_of(m.cols, i), dy_of(m.cols, i), k_of(m.cols, i))
                    } else {
                        0u8
                    } by {
                        lemma_block_in_cell(
                            grown@.cols,
                            grown@.rows,
                            slot as int,
                            0,
                            0,
                            CELL_ROW_BYTES as int,
                            CELL as int,
                            i,
                        );
                        lemma_index_coords(grown@.cols, grown@.rows, i);
                        lemma_index_decompose(grown@.cols, grown@.rows, i);
                    }
                }
                let uv = grown.uv_for_slot(slot);
                let ghost prev_written = grown@.written;
                let ghost prev_uvs = grown.uvs@;
                let ghost prev_rgba = grown@.rgba;
                grown.uvs.set(slot as usize, Some(uv));
                proof {
                    assert(grown@.rgba == prev_rgba);
                    assert(grown.uvs@ == prev_uvs.update(slot as int, Some(uv)));
                    assert forall|s: int| 0 <= s < grown@.written.len() implies #[trigger] grown@.written[s]
                        == (s < slot + 1 && m.written[s]) by {
                        if s == slot {
                            assert(m.written[s]);
                        } else {
                            assert(grown.uvs@[s] == prev_uvs[s]);
                            assert(prev_written[s] == (prev_uvs[s] is Some));
                        }
                    }
                }
            } else {
                proof {
                    assert forall|i: int| 0 <= i < grown@.rgba.len() implies #[trigger] grown@.rgba[i]
                        == if slot_of(m.cols, i) < slot + 1 && m.written[slot_of(m.cols, i)] {
                        m.cell_byte(slot_of(m.cols, i), dy_of(m.cols, i), k_of(m.cols, i))
                    } else {
                        0u8
                    } by {
                        if slot_of(m.cols, i) == slot {
                            assert(!m.written[slot as int]);
                        }
                    }
                }
            }
            slot = slot + 1;
        }
        let keep = if grown.capacity < needed {
            needed
        } else {
            grown.capacity
        };
        let ghost uvs_before = grown.uvs@;
        let ghost written_before = grown@.written;
        grown.uvs.resize(keep as usize, None);
        proof {
            assert(grown.uvs@ =~= uvs_before);
            assert(grown@.written =~= written_before);
            let target = m.grown(needed as int);
            assert(grown@.rgba =~= target.rgba);
            assert(grown@.written =~= target.written);
        }
        *self = grown;
        true
    }

    /// Write one icon into its slot, growing the atlas first when the slot
    /// lies beyond the capacity. Returns the icon origin `(x, y)` the caller
    /// needs for a partial GPU upload, plus the slot's UV rect. An icon
    /// larger than `TARGET × TARGET` is clipped to the icon area, so only
    /// the slot's own cell changes. An empty (0×0) icon clears the whole
    /// cell to transparent and marks the slot empty so the placeholder
    /// shows.
    pub fn write_icon(&mut self, slot: u32, icon: &DecodedIcon) -> (r: (u32, u32, UvRect))
        requires
            old(self).wf(),
            icon.has_all_pixels(),
            slot < u32::MAX,
            old(self)@.byte_len_for(slot + 1) <= u32::MAX,
        ensures
            final(self).wf(),
            final(self)@ == old(self)@.write_icon(slot as int, *icon),
            (r.0 as int, r.1 as int) == final(self)@.icon_origin(slot as int),
            r.2 == final(self)@.std_uv(slot as int),
    {
        // Grow on demand (rare: only when a new app appears beyond capacity).
        if slot >= self.capacity {
            self.ensure_capacity(slot + 1);
            proof {
                lemma_grow_bounds(old(self)@, slot + 1);
            }
        }
        let ghost g = self@;
        proof {
            lemma_cell_fits(g.cols, g.rows, slot as int);
            lemma_grid_sizes(g.cols, g.rows);
        }
        let (x, y) = self.icon_origin(slot);
        let uv = self.uv_for_slot(slot);
        if icon.w == 0 || icon.h == 0 {
            clear_cell(&mut self.rgba, self.width, x - CELL_PAD, y - CELL_PAD);
            let ghost prev_uvs = self.uvs@;
            if (slot as usize) < self.uvs.len() {
                self.uvs.set(slot as usize, None);
            }
            proof {
                assert(self.uvs@ == prev_uvs.update(slot as int, None));
                assert(self@.written =~= g.written.update(slot as int, false));
                lemma_cleared_cell(g, slot as int, self@);
            }
            return (x, y, uv);
        }
        proof {
            let stride = row_stride(g.cols);
            let cy = (slot as int / g.cols) * (CELL as int);
            assert((y + icon.clip_h()) * stride <= (cy + CELL) * stride) by {
                lemma_mul_inequality(y + icon.clip_h(), cy + CELL, stride);
            }
        }
        blit_icon(&mut self.rgba, self.width, icon, x, y);
        let ghost prev_uvs = self.uvs@;
        if (slot as usize) < self.uvs.len() {
            self.uvs.set(slot as usize, Some(uv));
        }
        proof {
            let target = g.with_icon(slot as int, *icon);
            assert forall|i: int| 0 <= i < self@.rgba.len() implies #[trigger] self@.rgba[i]
                == target.rgba[i] by {
                lemma_block_in_cell(
                    g.cols,
                    g.rows,
                    slot as int,
                    4,
                    1,
                    icon.clip_w() * 4,
                    icon.clip_h(),
                    i,
                );
                lemma_index_coords(g.cols, g.rows, i);
            }
            assert(self@.rgba =~= target.rgba);
            assert(self.uvs@ == prev_uvs.update(slot as int, Some(uv)));
            assert(self@.written =~= target.written);
        }
        (x, y, uv)
    }

    /// Clear a slot back to transparent (used when an app is removed and its
    /// cell should be invisible rather than show a stale icon). Slots beyond
    /// the capacity are left alone.
    pub fn clear_slot(&mut self, slot: u32)
        requires
            old(self).wf(),
        ensures
            final(self).wf(),
            final(self)@ == old(self)@.clear_slot(slot as int),
    {
        if slot >= self.capacity {
            return;
        }
        let ghost g = self@;
        proof {
            lemma_cell_fits(g.cols, g.rows, slot as int);
            lemma_grid_sizes(g.cols, g.rows);
        }
        let (x, y) = self.icon_origin(slot);
        clear_cell(&mut self.rgba, self.width, x - CELL_PAD, y - CELL_PAD);
        let ghost prev_uvs = self.uvs@;
        if (slot as usize) < self.uvs.len() {
            self.uvs.set(slot as usize, None);
        }
        proof {
            assert(self.uvs@ == prev_uvs.update(slot as int, None));
            assert(self@.written =~= g.written.update(slot as int, false));
            lemma_cleared_cell(g, slot as int, self@);
        }
    }

    /// The UV rect (over the icon bitmap, not the padding) for a slot at its
    /// standard cell position in *this* atlas.
    fn uv_for_slot(&self, slot: u32) -> (r: UvRect)
        requires
            self.wf(),
            slot < self@.capacity(),
        ensures
            r == self@.std_uv(slot as int),
    {
        proof {
            lemma_cell_fits(self@.cols, self@.rows, slot as int);
            lemma_grid_sizes(self@.cols, self@.rows);
        }
        let (x, y) = self.icon_origin(slot);
        UvRect {
            left: x,
            top: y,
            right: x + TARGET,
            bottom: y + TARGET,
            atlas_width: self.width,
            atlas_height: self.height,
        }
    }
}

/// `a / b` rounded up.
fn div_ceil(a: u32, b: u32) -> (r: u32)
    requires
        b > 0,
    ensures
        r == ceil_div(a as int, b as int),
{
    proof {
        lemma_fundamental_div_mod(a as int, b as int);
        lemma_mod_bound(a as int, b as int);
        let q = a as int / b as int;
        let m = a as int % b as int;
        lemma_mul_is_commutative(b as int, q);
        lemma_mul_is_distributive_add_other_way(b as int, q, 1);
        lemma_div_pos_is_pos(a as int, b as int);
        if m == 0 {
            lemma_fundamental_div_mod_converse(a + b - 1, b as int, q, b - 1);
        } else {
            lemma_fundamental_div_mod_converse(a + b - 1, b as int, q + 1, m - 1);
            lemma_mul_inequality(1, b as int, q);
        }
    }
    a / b + if a % b == 0 {
        0
    } else {
        1
    }
}

/// Choose a column count so the atlas stays reasonably square for `capacity`.
fn cols_for_capacity(capacity: u32) -> (r: u32)
    ensures
        r == spec_cols_for_capacity(capacity as nat),
{
    if capacity == 0 {
        return 16;
    }
    let n: u64 = capacity as u64;
    let mut c: u64 = 0;
    while c < n && c * c < n
        invariant
            n == capacity,
            c <= n,
            c * c <= u64::MAX,
            ceil_sqrt_from(c as nat, n as nat) == ceil_sqrt_from(0, n as nat),
        decreases n - c,
    {
        proof {
            assert(c * c < n);
        }
        c = c + 1;
        assert(c * c <= u64::MAX) by (nonlinear_arith)
            requires
                c <= u32::MAX,
        ;
    }
    let c32: u32 = c as u32;
    let max_cols: u32 = MAX_DIM / CELL;
    if c32 < 1 {
        1
    } else if c32 > max_cols {
        max_cols
    } else {
        c32
    }
}

/// Facts about the grown grid: it keeps the columns, has more rows than
/// before, and every intermediate row count fits the arithmetic.
proof fn lemma_grow_bounds(m: AtlasModel, needed: int)
    requires
        m.wf(),
        m.capacity() < needed,
        needed <= u32::MAX,
        byte_len(m.cols, m.grow_rows(needed)) <= u32::MAX,
    ensures
        ceil_div(needed, m.cols) >= 1,
        ceil_div(needed, m.cols) > m.rows,
        m.grow_rows(needed) > m.rows,
        m.grow_rows(needed) >= ceil_div(needed, m.cols),
        m.grow_rows(needed) * CELL <= u32::MAX,
        2 * m.rows * CELL <= u32::MAX,
        ceil_div(needed, m.cols) * CELL <= u32::MAX,
        m.cols * m.grow_rows(needed) > m.capacity(),
        m.cols * m.grow_rows(needed) >= needed,
        m.cols * CELL <= MAX_DIM,
{
    let cols = m.cols;
    let rows = m.rows;
    let want = ceil_div(needed, cols);
    let g = m.grow_rows(needed);
    lemma_fundamental_div_mod(needed + cols - 1, cols);
    lemma_mod_bound(needed + cols - 1, cols);
    // cols * want >= needed > cols * rows
    assert(cols * want >= needed) by {
        lemma_mul_is_commutative(cols, want);
    }
    assert(want > rows) by {
        if want <= rows {
            lemma_mul_inequality(want, rows, cols);
            lemma_mul_is_commutative(cols, want);
            lemma_mul_is_commutative(cols, rows);
        }
    }
    assert(g >= want);
    assert(g > rows);
    lemma_grid_sizes(cols, g);
    lemma_grid_sizes(cols, rows);
    assert(want * CELL <= g * CELL);
    assert(cols * g >= cols * want) by {
        lemma_mul_inequality(want, g, cols);
        lemma_mul_is_commutative(cols, want);
        lemma_mul_is_commutative(cols, g);
    }
    assert(cols * g > cols * rows) by {
        lemma_mul_strict_inequality(rows, g, cols);
        lemma_mul_is_commutative(cols, rows);
        lemma_mul_is_commutative(cols, g);
    }
    assert(2 * rows * CELL <= u32::MAX) by {
        assert(rows * CELL * row_stride(cols) >= rows * CELL * 264) by {
            lemma_mul_inequality(264, row_stride(cols), rows * CELL);
            lemma_mul_is_commutative(rows * CELL, 264);
            lemma_mul_is_commutative(rows * CELL, row_stride(cols));
        }
    }
}

/// Clearing the block at a cell's origin clears exactly that cell.
proof fn lemma_cleared_cell(g: AtlasModel, slot: int, after: AtlasModel)
    requires
        g.wf(),
        0 <= slot < g.capacity(),
        after.cols == g.cols,
        after.rows == g.rows,
        after.rgba.len() == g.rgba.len(),
        forall|i: int|
            0 <= i < g.rgba.len() ==> #[trigger] after.rgba[i] == if in_block(
                i,
                row_stride(g.cols),
                (slot % g.cols) * (CELL_ROW_BYTES as int),
                (slot / g.cols) * (CELL as int),
                CELL_ROW_BYTES as int,
                CELL as int,
            ) {
                0u8
            } else {
                g.rgba[i]
            },
        after.written == g.written.update(slot, false),
    ensures
        after == g.with_cleared(slot),
{
    let target = g.with_cleared(slot);
    assert forall|i: int| 0 <= i < after.rgba.len() implies #[trigger] after.rgba[i]
        == target.rgba[i] by {
        lemma_block_in_cell(
            g.cols,
            g.rows,
            slot,
            0,
            0,
            CELL_ROW_BYTES as int,
            CELL as int,
            i,
        );
    }
    assert(after.rgba =~= target.rgba);
}

/// Writing an icon into one slot of an atlas that already holds that slot
/// leaves every other slot alone: its UV, whether it holds an icon, and
/// every byte of its cell.
pub proof fn law_write_keeps_other_slots(
    m: AtlasModel,
    slot: int,
    icon: DecodedIcon,
    other: int,
    dy: int,
    k: int,
)
    requires
        m.wf(),
        icon.has_all_pixels(),
        0 <= slot < m.capacity(),
        0 <= other < m.capacity(),
        other != slot,
        0 <= dy < CELL,
        0 <= k < CELL_ROW_BYTES,
    ensures
        m.write_icon(slot, icon).uv(other) == m.uv(other),
        m.write_icon(slot, icon).cell_byte(other, dy, k) == m.cell_byte(other, dy, k),
{
    lemma_cell_index_inverse(m.cols, m.rows, other, dy, k);
}

/// After writing a non-empty icon, its slot reports the UV of its own cell
/// and the cell holds the icon's pixels at the icon origin, inside the
/// padding.
pub proof fn law_write_then_read(m: AtlasModel, slot: int, icon: DecodedIcon, y: int, x: int)
    requires
        m.wf(),
        icon.has_all_pixels(),
        !icon.spec_is_empty(),
        0 <= slot < u32::MAX,
        m.byte_len_for(slot + 1) <= u32::MAX,
        0 <= y < icon.clip_h(),
        0 <= x < icon.clip_w() * 4,
    ensures
        m.write_icon(slot, icon).wf(),
        m.write_icon(slot, icon).uv(slot) == Some(m.write_icon(slot, icon).std_uv(slot)),
        m.write_icon(slot, icon).cell_byte(slot, 1 + y, 4 + x) == icon.rgba@[y * (icon.w * 4) + x],
{
    let g = if slot >= m.capacity() {
        m.grown(slot + 1)
    } else {
        m
    };
    if slot >= m.capacity() {
        lemma_grow_bounds(m, slot + 1);
        lemma_grid_sizes(g.cols, g.rows);
    }
    lemma_cell_index_inverse(g.cols, g.rows, slot, 1 + y, 4 + x);
}

/// A cleared slot holds no icon and its whole cell is transparent.
pub proof fn law_clear_empties_cell(m: AtlasModel, slot: int, dy: int, k: int)
    requires
        m.wf(),
        0 <= slot < m.capacity(),
        0 <= dy < CELL,
        0 <= k < CELL_ROW_BYTES,
    ensures
        m.clear_slot(slot).wf(),
        m.clear_slot(slot).uv(slot) == None::<UvRect>,
        m.clear_slot(slot).cell_byte(slot, dy, k) == 0u8,
{
    lemma_cell_index_inverse(m.cols, m.rows, slot, dy, k);
}

/// Growing keeps every icon: afterwards the atlas holds at least `needed`
/// slots, and each slot that held an icon still holds it, byte for byte.
pub proof fn law_grow_keeps_icons(m: AtlasModel, needed: int, slot: int, dy: int, k: int)
    requires
        m.wf(),
        0 <= needed <= u32::MAX,
        m.byte_len_for(needed) <= u32::MAX,
        0 <= slot < m.capacity(),
        m.written[slot],
        0 <= dy < CELL,
        0 <= k < CELL_ROW_BYTES,
    ensures
        m.ensure_capacity(needed).wf(),
        m.ensure_capacity(needed).capacity() >= needed,
        m.ensure_capacity(needed).capacity() >= m.capacity(),
        m.ensure_capacity(needed).uv(slot) is Some,
        m.ensure_capacity(needed).cell_byte(slot, dy, k) == m.cell_byte(slot, dy, k),
{
    if needed > m.capacity() {
        lemma_grow_bounds(m, needed);
        let g = m.grown(needed);
        lemma_grid_sizes(g.cols, g.rows);
        lemma_cell_index_inverse(g.cols, g.rows, slot, dy, k);
    }
}

/// Cells of different slots never share a byte.
pub proof fn law_cells_disjoint(
    m: AtlasModel,
    s: int,
    t: int,
    dy1: int,
    k1: int,
    dy2: int,
    k2: int,
)
    requires
        m.wf(),
        0 <= s < m.capacity(),
        0 <= t < m.capacity(),
        s != t,
        0 <= dy1 < CELL,
        0 <= k1 < CELL_ROW_BYTES,
        0 <= dy2 < CELL,
        0 <= k2 < CELL_ROW_BYTES,
    ensures
        cell_index(m.cols, s, dy1, k1) != cell_index(m.cols, t, dy2, k2),
{
    lemma_cell_index_inverse(m.cols, m.rows, s, dy1, k1);
    lemma_cell_index_inverse(m.cols, m.rows, t, dy2, k2);
}

/// A slot's UV rect covers a `TARGET × TARGET` area that lies inside the
/// atlas, so its normalized coordinates are within the unit square.
pub proof fn law_uv_inside_atlas(m: AtlasModel, slot: int)
    requires
        m.wf(),
        0 <= slot < m.capacity(),
    ensures
        m.std_uv(slot).left < m.std_uv(slot).right <= m.std_uv(slot).atlas_width,
        m.std_uv(slot).top < m.std_uv(slot).bottom <= m.std_uv(slot).atlas_height,
        m.std_uv(slot).right - m.std_uv(slot).left == TARGET,
        m.std_uv(slot).bottom - m.std_uv(slot).top == TARGET,
{
    lemma_cell_fits(m.cols, m.rows, slot);
    lemma_grid_sizes(m.cols, m.rows);
}

/// A well-formed atlas is a whole grid of cells: its width and height are
/// positive multiples of `CELL`, its buffer holds `width * height` RGBA
/// pixels, and its capacity is the number of cells.
pub proof fn law_atlas_sizes(m: AtlasModel)
    requires
        m.wf(),
    ensures
        m.width() > 0,
        m.height() > 0,
        m.width() % (CELL as int) == 0,
        m.height() % (CELL as int) == 0,
        m.rgba.len() == m.width() * m.height() * 4,
        m.capacity() == (m.width() / (CELL as int)) * (m.height() / (CELL as int)),
        m.written.len() == m.capacity(),
{
    lemma_grid_sizes(m.cols, m.rows);
    lemma_fundamental_div_mod_converse(m.cols * (CELL as int), CELL as int, m.cols, 0);
    lemma_fundamental_div_mod_converse(m.rows * (CELL as int), CELL as int, m.rows, 0);
}

/// One call on an icon atlas, for stating what a run of calls does.
pub ghost enum AtlasOp {
    /// `write_icon(slot, icon)`.
    Write(nat, DecodedIcon),
    /// `clear_slot(slot)`.
    Clear(nat),
    /// `ensure_capacity(needed)`.
    Reserve(nat),
}

impl AtlasModel {
    /// The atlas after one call.
    pub open spec fn apply(self, op: AtlasOp) -> AtlasModel {
        match op {
            AtlasOp::Write(slot, icon) => self.write_icon(slot as int, icon),
            AtlasOp::Clear(slot) => self.clear_slot(slot as int),
            AtlasOp::Reserve(needed) => self.ensure_capacity(needed as int),
        }
    }

    /// The atlas after the calls of `ops`, in order.
    pub open spec fn run(self, ops: Seq<AtlasOp>) -> AtlasModel
        decreases ops.len(),
    {
        if ops.len() == 0 {
            self
        } else {
            self.run(ops.drop_last()).apply(ops.last())
        }
    }

    /// A grid of at least one cell with one written flag per cell.
    pub open spec fn grid_shaped(self) -> bool {
        &&& self.cols >= 1
        &&& self.rows >= 1
        &&& self.written.len() == self.cols * self.rows
    }
}

/// Whether the latest write or clear naming `slot` in `ops` wrote a
/// non-empty icon (`false` when no call names it).
pub open spec fn latest_write_shows(ops: Seq<AtlasOp>, slot: int) -> bool
    decreases ops.len(),
{
    if ops.len() == 0 {
        false
    } else {
        match ops.last() {
            AtlasOp::Write(s, icon) => if s == slot {
                !icon.spec_is_empty()
            } else {
                latest_write_shows(ops.drop_last(), slot)
            },
            AtlasOp::Clear(s) => if s == slot {
                false
            } else {
                latest_write_shows(ops.drop_last(), slot)
            },
            AtlasOp::Reserve(_) => latest_write_shows(ops.drop_last(), slot),
        }
    }
}

/// Growing to hold more than the capacity adds rows and room for `needed`.
proof fn lemma_grow_rows_cover(m: AtlasModel, needed: int)
    requires
        m.grid_shaped(),
        m.capacity() < needed,
    ensures
        m.grow_rows(needed) > m.rows,
        m.cols * m.grow_rows(needed) >= needed,
        m.cols * m.grow_rows(needed) > m.capacity(),
{
    let cols = m.cols;
    let want = ceil_div(needed, cols);
    let g = m.grow_rows(needed);
    lemma_fundamental_div_mod(needed + cols - 1, cols);
    lemma_mod_bound(needed + cols - 1, cols);
    assert(cols * want >= needed) by {
        lemma_mul_is_commutative(cols, want);
    }
    assert(want > m.rows) by {
        if want <= m.rows {
            lemma_mul_inequality(want, m.rows, cols);
            lemma_mul_is_commutative(cols, want);
            lemma_mul_is_commutative(cols, m.rows);
        }
    }
    assert(cols * g >= cols * want) by {
        lemma_mul_inequality(want, g, cols);
        lemma_mul_is_commutative(want, cols);
        lemma_mul_is_commutative(g, cols);
    }
}

/// Growing keeps the grid shape and which slots hold an icon.
proof fn lemma_grown_written(m: AtlasModel, needed: int, slot: int)
    requires
        m.grid_shaped(),
        m.capacity() < needed,
    ensures
        m.grown(needed).grid_shaped(),
        m.grown(needed).written.len() >= needed,
        (m.grown(needed).uv(slot) is Some) == (m.uv(slot) is Some),
{
    lemma_grow_rows_cover(m, needed);
}

/// One call changes only the slot it names (if any): a write shows the slot
/// exactly when the icon is non-empty, a clear hides it.
proof fn lemma_apply_uv(m: AtlasModel, op: AtlasOp, slot: int)
    requires
        m.grid_shaped(),
    ensures
        m.apply(op).grid_shaped(),
        (m.apply(op).uv(slot) is Some) == match op {
            AtlasOp::Write(s, icon) => if s == slot {
                !icon.spec_is_empty()
            } else {
                m.uv(slot) is Some
            },
            AtlasOp::Clear(s) => if s == slot {
                false
            } else {
                m.uv(slot) is Some
            },
            AtlasOp::Reserve(_) => m.uv(slot) is Some,
        },
{
    match op {
        AtlasOp::Write(s, icon) => {
            if s >= m.capacity() {
                lemma_grown_written(m, s + 1int, slot);
            }
        },
        AtlasOp::Clear(s) => {},
        AtlasOp::Reserve(n) => {
            if n > m.capacity() {
                lemma_grown_written(m, n as int, slot);
            }
        },
    }
}

/// Starting from an atlas with no icon (as `IconAtlas::new` gives), after
/// any run of writes, clears and capacity requests a slot holds an icon
/// exactly when the latest write or clear naming it wrote a non-empty icon.
pub proof fn law_uv_follows_latest_write(m: AtlasModel, ops: Seq<AtlasOp>, slot: int)
    requires
        m.grid_shaped(),
        forall|s: int| 0 <= s < m.written.len() ==> !#[trigger] m.written[s],
    ensures
        m.run(ops).grid_shaped(),
        (m.run(ops).uv(slot) is Some) == latest_write_shows(ops, slot),
    decreases ops.len(),
{
    if ops.len() > 0 {
        law_uv_follows_latest_write(m, ops.drop_last(), slot);
        lemma_apply_uv(m.run(ops.drop_last()), ops.last(), slot);
    }
}

/// Sizes of a `cols × rows` grid, as the constructor computes them.
proof fn lemma_grid_sizes(cols: int, rows: int)
    requires
        1 <= cols <= MAX_COLS,
        rows >= 1,
    ensures
        (cols * CELL) * (rows * CELL) * 4 == byte_len(cols, rows),
        cols * rows <= byte_len(cols, rows),
        cols * rows >= 1,
        rows * CELL <= byte_len(cols, rows),
        cols * CELL <= byte_len(cols, rows),
{
    assert(rows * CELL <= byte_len(cols, rows)) by (nonlinear_arith)
        requires
            cols >= 1,
            rows >= 1,
    ;
    assert(cols * CELL <= byte_len(cols, rows)) by (nonlinear_arith)
        requires
            cols >= 1,
            rows >= 1,
    ;
    assert((cols * CELL) * (rows * CELL) * 4 == byte_len(cols, rows)) by (nonlinear_arith);
    assert(cols * rows <= byte_len(cols, rows)) by (nonlinear_arith)
        requires
            cols >= 1,
            rows >= 1,
    ;
    assert(cols * rows >= 1) by (nonlinear_arith)
        requires
            cols >= 1,
            rows >= 1,
    ;
}

/// Zero out a full CELL×CELL region (icon + padding) at the cell origin.
fn clear_cell(atlas: &mut Vec<u8>, atlas_w: u32, cell_x: u32, cell_y: u32)
    requires
        atlas_w > 0,
        cell_x + CELL <= atlas_w,
        (cell_y + CELL) * (atlas_w * 4) <= old(atlas).len(),
    ensures
        final(atlas).len() == old(atlas).len(),
        forall|i: int|
            0 <= i < old(atlas).len() ==> #[trigger] final(atlas)@[i] == if in_block(
                i,
                atlas_w * 4,
                cell_x * 4,
                cell_y as int,
                CELL_ROW_BYTES as int,
                CELL as int,
            ) {
                0u8
            } else {
                old(atlas)@[i]
            },
{
    let ghost stride: int = atlas_w * 4;
    proof {
        lemma_mul_inequality(1, cell_y + CELL, stride);
        lemma_mul_inequality(1, stride, cell_y + CELL);
        lemma_mul_is_commutative(stride, cell_y + CELL);
    }
    let stride_u: usize = atlas_w as usize * 4;
    let row_len: usize = CELL as usize * 4;
    let mut y: u32 = 0;
    while y < CELL
        invariant
            stride == atlas_w * 4,
            stride_u == stride,
            row_len == CELL_ROW_BYTES,
            atlas_w > 0,
            cell_x + CELL <= atlas_w,
            (cell_y + CELL) * (atlas_w * 4) <= old(atlas).len(),
            y <= CELL,
            stride <= old(atlas).len(),
            cell_y + CELL <= old(atlas).len(),
            atlas.len() == old(atlas).len(),
            forall|i: int|
                0 <= i < old(atlas).len() ==> #[trigger] atlas@[i] == if in_block(
                    i,
                    stride,
                    cell_x * 4,
                    cell_y as int,
                    CELL_ROW_BYTES as int,
                    y as int,
                ) {
                    0u8
                } else {
                    old(atlas)@[i]
                },
        ensures
            y == CELL,
            atlas.len() == old(atlas).len(),
            forall|i: int|
                0 <= i < old(atlas).len() ==> #[trigger] atlas@[i] == if in_block(
                    i,
                    stride,
                    cell_x * 4,
                    cell_y as int,
                    CELL_ROW_BYTES as int,
                    CELL as int,
                ) {
                    0u8
                } else {
                    old(atlas)@[i]
                },
        decreases CELL - y,
    {
        let ay: usize = cell_y as usize + y as usize;
        assert(ay * stride + cell_x * 4 + row_len <= old(atlas).len()) by {
            lemma_mul_inequality(ay + 1, cell_y + CELL, stride);
            lemma_mul_is_distributive_add_other_way(stride, ay as int, 1);
        }
        let dst: usize = ay * stride_u + cell_x as usize * 4;
        if dst + row_len > atlas.len() {
            break;
        }
        let mut b: usize = dst;
        while b < dst + row_len
            invariant
                dst <= b <= dst + row_len,
                dst + row_len <= old(atlas).len(),
                atlas.len() == old(atlas).len(),
                forall|i: int|
                    0 <= i < old(atlas).len() ==> #[trigger] atlas@[i] == if in_block(
                        i,
                        stride,
                        cell_x * 4,
                        cell_y as int,
                        CELL_ROW_BYTES as int,
                        y as int,
                    ) || (dst <= i < b) {
                        0u8
                    } else {
                        old(atlas)@[i]
                    },
            decreases dst + row_len - b,
        {
            atlas.set(b, 0);
            b = b + 1;
        }
        assert forall|i: int| 0 <= i < old(atlas).len() implies #[trigger] atlas@[i] == if in_block(
            i,
            stride,
            cell_x * 4,
            cell_y as int,
            CELL_ROW_BYTES as int,
            y + 1,
        ) {
            0u8
        } else {
            old(atlas)@[i]
        } by {
            lemma_block_row_step(
                i,
                stride,
                cell_x * 4,
                cell_y as int,
                CELL_ROW_BYTES as int,
                y as int,
            );
        }
        y = y + 1;
    }
}

/// Where byte `i` of a destination block at (`dst_x`, `dst_y`) takes its
/// value from, in a source texture whose block sits at (`src_x`, `src_y`).
pub open spec fn copy_source_index(
    i: int,
    dst_stride: int,
    dst_x: int,
    dst_y: int,
    src_stride: int,
    src_x: int,
    src_y: int,
) -> int {
    (i / dst_stride - dst_y + src_y) * src_stride + src_x * 4 + (i % dst_stride - dst_x * 4)
}

/// Copy one full CELL×CELL region between buffers (used on grow).
#[allow(clippy::too_many_arguments)]
fn copy_cell(
    src: &Vec<u8>,
    src_w: u32,
    src_x: u32,
    src_y: u32,
    dst: &mut Vec<u8>,
    dst_w: u32,
    dst_x: u32,
    dst_y: u32,
)
    requires
        src_w > 0,
        dst_w > 0,
        src_x + CELL <= src_w,
        (src_y + CELL) * (src_w * 4) <= src.len(),
        dst_x + CELL <= dst_w,
        (dst_y + CELL) * (dst_w * 4) <= old(dst).len(),
    ensures
        final(dst).len() == old(dst).len(),
        forall|i: int|
            0 <= i < old(dst).len() ==> #[trigger] final(dst)@[i] == if in_block(
                i,
                dst_w * 4,
                dst_x * 4,
                dst_y as int,
                CELL_ROW_BYTES as int,
                CELL as int,
            ) {
                src@[copy_source_index(i, dst_w * 4, dst_x as int, dst_y as int, src_w * 4, src_x as int, src_y as int)]
            } else {
                old(dst)@[i]
            },
{
    let ghost ss: int = src_w * 4;
    let ghost ds: int = dst_w * 4;
    proof {
        lemma_mul_inequality(1, src_y + CELL, ss);
        lemma_mul_inequality(1, ss, src_y + CELL);
        lemma_mul_is_commutative(ss, src_y + CELL);
        lemma_mul_inequality(1, dst_y + CELL, ds);
        lemma_mul_inequality(1, ds, dst_y + CELL);
        lemma_mul_is_commutative(ds, dst_y + CELL);
    }
    let s_stride: usize = src_w as usize * 4;
    let d_stride: usize = dst_w as usize * 4;
    let row_len: usize = CELL as usize * 4;
    let mut y: u32 = 0;
    while y < CELL
        invariant
            ss == src_w * 4,
            ds == dst_w * 4,
            s_stride == ss,
            d_stride == ds,
            row_len == CELL_ROW_BYTES,
            src_w > 0,
            dst_w > 0,
            src_x + CELL <= src_w,
            (src_y + CELL) * ss <= src.len(),
            dst_x + CELL <= dst_w,
            (dst_y + CELL) * ds <= old(dst).len(),
            ss <= src.len(),
            ds <= old(dst).len(),
            src_y + CELL <= src.len(),
            dst_y + CELL <= old(dst).len(),
            y <= CELL,
            dst.len() == old(dst).len(),
            forall|i: int|
                0 <= i < old(dst).len() ==> #[trigger] dst@[i] == if in_block(
                    i,
                    ds,
                    dst_x * 4,
                    dst_y as int,
                    CELL_ROW_BYTES as int,
                    y as int,
                ) {
                    src@[copy_source_index(i, ds, dst_x as int, dst_y as int, ss, src_x as int, src_y as int)]
                } else {
                    old(dst)@[i]
                },
        ensures
            y == CELL,
            dst.len() == old(dst).len(),
            forall|i: int|
                0 <= i < old(dst).len() ==> #[trigger] dst@[i] == if in_block(
                    i,
                    ds,
                    dst_x * 4,
                    dst_y as int,
                    CELL_ROW_BYTES as int,
                    CELL as int,
                ) {
                    src@[copy_source_index(i, ds, dst_x as int, dst_y as int, ss, src_x as int, src_y as int)]
                } else {
                    old(dst)@[i]
                },
        decreases CELL - y,
    {
        let sy: usize = src_y as usize + y as usize;
        let dy: usize = dst_y as usize + y as usize;
        assert(sy * ss + src_x * 4 + row_len <= src.len()) by {
            lemma_mul_inequality(sy + 1, src_y + CELL, ss);
            lemma_mul_is_distributive_add_other_way(ss, sy as int, 1);
        }
        assert(dy * ds + dst_x * 4 + row_len <= old(dst).len()) by {
            lemma_mul_inequality(dy + 1, dst_y + CELL, ds);
            lemma_mul_is_distributive_add_other_way(ds, dy as int, 1);
        }
        let s: usize = sy * s_stride + src_x as usize * 4;
        let d: usize = dy * d_stride + dst_x as usize * 4;
        if s + row_len > src.len() || d + row_len > dst.len() {
            break;
        }
        assert forall|i: int| d <= i < d + row_len implies !#[trigger] in_block(
            i,
            ds,
            dst_x * 4,
            dst_y as int,
            CELL_ROW_BYTES as int,
            y as int,
        ) by {
            lemma_row_split(dy as int, dst_x * 4 + (i - d), ds);
        }
        let mut j: usize = 0;
        while j < row_len
            invariant
                j <= row_len,
                row_len == CELL_ROW_BYTES,
                forall|i: int|
                    d <= i < d + row_len ==> !#[trigger] in_block(
                        i,
                        ds,
                        dst_x * 4,
                        dst_y as int,
                        CELL_ROW_BYTES as int,
                        y as int,
                    ),
                s + row_len <= src.len(),
                d + row_len <= old(dst).len(),
                dst.len() == old(dst).len(),
                forall|i: int|
                    0 <= i < old(dst).len() ==> #[trigger] dst@[i] == if in_block(
                        i,
                        ds,
                        dst_x * 4,
                        dst_y as int,
                        CELL_ROW_BYTES as int,
                        y as int,
                    ) {
                        src@[copy_source_index(i, ds, dst_x as int, dst_y as int, ss, src_x as int, src_y as int)]
                    } else if d <= i < d + j {
                        src@[s + (i - d)]
                    } else {
                        old(dst)@[i]
                    },
            decreases row_len - j,
        {
            let v = src[s + j];
            dst.set(d + j, v);
            j = j + 1;
        }
        assert forall|i: int| 0 <= i < old(dst).len() implies #[trigger] dst@[i] == if in_block(
            i,
            ds,
            dst_x * 4,
            dst_y as int,
            CELL_ROW_BYTES as int,
            y + 1,
        ) {
            src@[copy_source_index(i, ds, dst_x as int, dst_y as int, ss, src_x as int, src_y as int)]
        } else {
            old(dst)@[i]
        } by {
            lemma_block_row_step(i, ds, dst_x * 4, dst_y as int, CELL_ROW_BYTES as int, y as int);
            if d <= i < d + row_len {
                lemma_row_split(dy as int, dst_x * 4 + (i - d), ds);
                assert(in_block(i, ds, dst_x * 4, dst_y as int, CELL_ROW_BYTES as int, y + 1));
                assert(!in_block(i, ds, dst_x * 4, dst_y as int, CELL_ROW_BYTES as int, y as int));
            }
        }
        y = y + 1;
    }
}

/// Blit an icon into the atlas buffer at the icon origin (inside the cell
/// padding), clipped to the `TARGET × TARGET` icon area so a bad icon cannot
/// reach the padding or a neighbouring cell.
fn blit_icon(atlas: &mut Vec<u8>, atlas_w: u32, icon: &DecodedIcon, dst_x: u32, dst_y: u32)
    requires
        atlas_w > 0,
        atlas_w * 4 <= old(atlas).len(),
        icon.h > 0,
        dst_x + icon.clip_w() <= atlas_w,
        (dst_y + icon.clip_h()) * (atlas_w * 4) <= old(atlas).len(),
        icon.rgba.len() >= icon.w * icon.h * 4,
    ensures
        final(atlas).len() == old(atlas).len(),
        forall|i: int|
            0 <= i < old(atlas).len() ==> #[trigger] final(atlas)@[i] == if in_block(
                i,
                atlas_w * 4,
                dst_x * 4,
                dst_y as int,
                icon.clip_w() * 4,
                icon.clip_h(),
            ) {
                icon.rgba@[copy_source_index(i, atlas_w * 4, dst_x as int, dst_y as int, icon.w * 4, 0, 0)]
            } else {
                old(atlas)@[i]
            },
{
    let cw: u32 = if icon.w < TARGET {
        icon.w
    } else {
        TARGET
    };
    let ch: u32 = if icon.h < TARGET {
        icon.h
    } else {
        TARGET
    };
    let ghost stride: int = atlas_w * 4;
    let ghost iw: int = icon.w * 4;
    let ghost bw: int = cw * 4;
    let n = icon.rgba.len();
    proof {
        lemma_mul_inequality(1, atlas_w as int, dst_y + ch);
        lemma_mul_is_commutative(atlas_w as int, dst_y + ch);
        lemma_mul_inequality(dst_y + ch, (dst_y + ch) * atlas_w, 4);
        lemma_mul_is_associative(dst_y + ch, atlas_w as int, 4);
        lemma_mul_is_commutative(icon.w as int, icon.h as int);
        lemma_mul_is_associative(icon.h as int, icon.w as int, 4);
        lemma_mul_inequality(1, stride, dst_y + ch);
        lemma_mul_is_commutative(stride, dst_y + ch);
        lemma_mul_inequality(1, icon.h as int, iw);
    }
    let stride_u: usize = atlas_w as usize * 4;
    let src_stride: usize = (icon.w as usize) * 4;
    let row_len: usize = (cw as usize) * 4;
    let mut y: u32 = 0;
    while y < ch
        invariant
            stride == atlas_w * 4,
            iw == icon.w * 4,
            bw == cw * 4,
            cw <= icon.w,
            ch <= icon.h,
            cw == icon.clip_w(),
            ch == icon.clip_h(),
            stride_u == stride,
            src_stride == iw,
            row_len == bw,
            atlas_w > 0,
            dst_x + cw <= atlas_w,
            (dst_y + ch) * stride <= old(atlas).len(),
            icon.rgba.len() >= icon.h * iw,
            stride <= old(atlas).len(),
            dst_y + ch <= old(atlas).len() || ch == 0,
            y <= ch,
            atlas.len() == old(atlas).len(),
            forall|i: int|
                0 <= i < old(atlas).len() ==> #[trigger] atlas@[i] == if in_block(
                    i,
                    stride,
                    dst_x * 4,
                    dst_y as int,
                    bw,
                    y as int,
                ) {
                    icon.rgba@[copy_source_index(i, stride, dst_x as int, dst_y as int, iw, 0, 0)]
                } else {
                    old(atlas)@[i]
                },
        ensures
            y == ch,
            atlas.len() == old(atlas).len(),
            forall|i: int|
                0 <= i < old(atlas).len() ==> #[trigger] atlas@[i] == if in_block(
                    i,
                    stride,
                    dst_x * 4,
                    dst_y as int,
                    bw,
                    ch as int,
                ) {
                    icon.rgba@[copy_source_index(i, stride, dst_x as int, dst_y as int, iw, 0, 0)]
                } else {
                    old(atlas)@[i]
                },
        decreases ch - y,
    {
        let ay: usize = dst_y as usize + y as usize;
        assert(ay * stride + dst_x * 4 + row_len <= old(atlas).len()) by {
            lemma_mul_inequality(ay + 1, dst_y + ch, stride);
            lemma_mul_is_distributive_add_other_way(stride, ay as int, 1);
        }
        assert(y * iw + row_len <= icon.rgba.len()) by {
            lemma_mul_inequality(y + 1, icon.h as int, iw);
            lemma_mul_is_distributive_add_other_way(iw, y as int, 1);
        }
        let src: usize = y as usize * src_stride;
        let dst: usize = ay * stride_u + dst_x as usize * 4;
        if dst + row_len > atlas.len() {
            break;
        }
        assert forall|i: int| dst <= i < dst + row_len implies !#[trigger] in_block(
            i,
            stride,
            dst_x * 4,
            dst_y as int,
            bw,
            y as int,
        ) by {
            lemma_row_split(ay as int, dst_x * 4 + (i - dst), stride);
        }
        let mut j: usize = 0;
        while j < row_len
            invariant
                j <= row_len,
                row_len == bw,
                forall|i: int|
                    dst <= i < dst + row_len ==> !#[trigger] in_block(
                        i,
                        stride,
                        dst_x * 4,
                        dst_y as int,
                        bw,
                        y as int,
                    ),
                src + row_len <= icon.rgba.len(),
                dst + row_len <= old(atlas).len(),
                atlas.len() == old(atlas).len(),
                forall|i: int|
                    0 <= i < old(atlas).len() ==> #[trigger] atlas@[i] == if in_block(
                        i,
                        stride,
                        dst_x * 4,
                        dst_y as int,
                        bw,
                        y as int,
                    ) {
                        icon.rgba@[copy_source_index(i, stride, dst_x as int, dst_y as int, iw, 0, 0)]
                    } else if dst <= i < dst + j {
                        icon.rgba@[src + (i - dst)]
                    } else {
                        old(atlas)@[i]
                    },
            decreases row_len - j,
        {
            let v = icon.rgba[src + j];
            atlas.set(dst + j, v);
            j = j + 1;
        }
        assert forall|i: int| 0 <= i < old(atlas).len() implies #[trigger] atlas@[i] == if in_block(
            i,
            stride,
            dst_x * 4,
            dst_y as int,
            bw,
            y + 1,
        ) {
            icon.rgba@[copy_source_index(i, stride, dst_x as int, dst_y as int, iw, 0, 0)]
        } else {
            old(atlas)@[i]
        } by {
            lemma_block_row_step(i, stride, dst_x * 4, dst_y as int, bw, y as int);
            if dst <= i < dst + row_len {
                lemma_row_split(ay as int, dst_x * 4 + (i - dst), stride);
                assert(in_block(i, stride, dst_x * 4, dst_y as int, bw, y + 1));
                assert(!in_block(i, stride, dst_x * 4, dst_y as int, bw, y as int));
            }
        }
        y = y + 1;
    }
}

} // verus!

//! Byte addressing of a row-major RGBA texture split into a grid of square
//! cells, and the arithmetic facts the icon atlas relies on.
//!
//! A texture of `cols × rows` cells has `row_stride(cols)` bytes per pixel
//! row. Byte `i` lies in pixel row `i / stride` at byte column `i % stride`;
//! the cell that owns it, and its offset inside that cell, follow from those
//! two numbers.

use vstd::arithmetic::div_mod::*;
use vstd::arithmetic::mul::*;
use vstd::prelude::*;

verus! {

/// Edge length, in pixels, of a normalized icon bitmap.
pub const TARGET: u32 = 64;

/// Padding around each cell so linear sampling can't bleed across icon borders.
pub const CELL_PAD: u32 = 1;

/// Per-cell edge length (icon + padding both sides).
pub const CELL: u32 = 66;

/// Bytes in one pixel row of one cell.
pub const CELL_ROW_BYTES: u32 = 264;

/// Largest texture edge the atlas aims to stay within.
pub const MAX_DIM: u32 = 8192;

/// Most grid columns that fit in `MAX_DIM` pixels.
pub const MAX_COLS: u32 = 124;

/// Bytes per pixel row of a texture `cols` cells wide.
pub open spec fn row_stride(cols: int) -> int {
    cols * (CELL_ROW_BYTES as int)
}

/// Size in bytes of a `cols × rows` cell texture.
pub open spec fn byte_len(cols: int, rows: int) -> int {
    rows * (CELL as int) * row_stride(cols)
}

/// Byte index of byte `k` of pixel row `dy` inside cell `slot`.
pub open spec fn cell_index(cols: int, slot: int, dy: int, k: int) -> int {
    ((slot / cols) * (CELL as int) + dy) * row_stride(cols) + (slot % cols) * (CELL_ROW_BYTES as int)
        + k
}

/// Cell that owns byte `i`.
pub open spec fn slot_of(cols: int, i: int) -> int {
    ((i / row_stride(cols)) / (CELL as int)) * cols + (i % row_stride(cols)) / (
    CELL_ROW_BYTES as int)
}

/// Pixel row of byte `i` inside its cell.
pub open spec fn dy_of(cols: int, i: int) -> int {
    (i / row_stride(cols)) % (CELL as int)
}

/// Byte offset of byte `i` inside its cell's pixel row.
pub open spec fn k_of(cols: int, i: int) -> int {
    (i % row_stride(cols)) % (CELL_ROW_BYTES as int)
}

/// Byte `i` of a texture with `stride` bytes per row lies in the block whose
/// rows are `[py0, py0 + bh)` and whose row bytes are `[bx0, bx0 + bw)`.
pub open spec fn in_block(i: int, stride: int, bx0: int, py0: int, bw: int, bh: int) -> bool {
    &&& py0 <= i / stride < py0 + bh
    &&& bx0 <= i % stride < bx0 + bw
}

/// Splitting `py * stride + bx` back into its row and column.
pub proof fn lemma_row_split(py: int, bx: int, stride: int)
    requires
        stride > 0,
        0 <= bx < stride,
    ensures
        (py * stride + bx) / stride == py,
        (py * stride + bx) % stride == bx,
{
    lemma_fundamental_div_mod_converse(py * stride + bx, stride, py, bx);
}

/// Growing a block by one pixel row adds exactly that row's byte range.
pub proof fn lemma_block_row_step(i: int, stride: int, bx0: int, py0: int, bw: int, h: int)
    requires
        stride > 0,
        0 <= bx0,
        0 <= bw,
        bx0 + bw <= stride,
        0 <= py0,
        0 <= h,
        0 <= i,
    ensures
        in_block(i, stride, bx0, py0, bw, h + 1) <==> (in_block(i, stride, bx0, py0, bw, h) || ((
        py0 + h) * stride + bx0 <= i < (py0 + h) * stride + bx0 + bw)),
{
    let row_start = (py0 + h) * stride;
    lemma_fundamental_div_mod(i, stride);
    lemma_mod_bound(i, stride);
    lemma_mul_is_commutative(stride, i / stride);
    if row_start + bx0 <= i < row_start + bx0 + bw {
        lemma_row_split(py0 + h, i - row_start, stride);
    }
    if i / stride == py0 + h {
        assert(i == row_start + i % stride);
    }
}

/// Byte `i` sits at pixel row `i / stride` and byte column `i % stride`;
/// both follow from its cell position.
pub proof fn lemma_index_coords(cols: int, rows: int, i: int)
    requires
        cols >= 1,
        rows >= 1,
        0 <= i < byte_len(cols, rows),
    ensures
        i / row_stride(cols) == (slot_of(cols, i) / cols) * (CELL as int) + dy_of(cols, i),
        i % row_stride(cols) == (slot_of(cols, i) % cols) * (CELL_ROW_BYTES as int) + k_of(cols, i),
{
    let stride = row_stride(cols);
    lemma_index_decompose(cols, rows, i);
    let s = slot_of(cols, i);
    lemma_fundamental_div_mod(s, cols);
    lemma_mod_bound(s, cols);
    let py = (s / cols) * (CELL as int) + dy_of(cols, i);
    let bx = (s % cols) * (CELL_ROW_BYTES as int) + k_of(cols, i);
    assert(0 <= bx < stride) by {
        lemma_mul_inequality(s % cols + 1, cols, CELL_ROW_BYTES as int);
        lemma_mul_nonnegative(s % cols, CELL_ROW_BYTES as int);
    }
    lemma_row_split(py, bx, stride);
}

/// A cell of the grid lies inside the texture.
pub proof fn lemma_cell_fits(cols: int, rows: int, slot: int)
    requires
        cols >= 1,
        rows >= 1,
        0 <= slot < cols * rows,
    ensures
        0 <= slot / cols < rows,
        0 <= slot % cols < cols,
        (slot % cols) * (CELL as int) + (CELL as int) <= cols * (CELL as int),
        (slot / cols) * (CELL as int) + (CELL as int) <= rows * (CELL as int),
        ((slot / cols) * (CELL as int) + (CELL as int)) * row_stride(cols) <= byte_len(cols, rows),
        0 <= row_stride(cols) <= byte_len(cols, rows),
{
    lemma_fundamental_div_mod(slot, cols);
    lemma_div_pos_is_pos(slot, cols);
    lemma_mod_bound(slot, cols);
    let row = slot / cols;
    assert(row < rows) by {
        if row >= rows {
            lemma_mul_inequality(rows, row, cols);
            lemma_mul_is_commutative(cols, row);
            lemma_mul_is_commutative(cols, rows);
        }
    }
    lemma_mul_inequality(slot % cols + 1, cols, CELL as int);
    lemma_mul_inequality(row + 1, rows, CELL as int);
    lemma_mul_inequality(row * (CELL as int) + (CELL as int), rows * (CELL as int), row_stride(cols));
    lemma_mul_inequality(1, rows * (CELL as int), row_stride(cols));
}

/// Every cell byte address lies inside the texture and maps back to the
/// cell, row and byte it was built from.
pub proof fn lemma_cell_index_inverse(cols: int, rows: int, slot: int, dy: int, k: int)
    requires
        cols >= 1,
        rows >= 1,
        0 <= slot < cols * rows,
        0 <= dy < CELL,
        0 <= k < CELL_ROW_BYTES,
    ensures
        0 <= cell_index(cols, slot, dy, k) < byte_len(cols, rows),
        slot_of(cols, cell_index(cols, slot, dy, k)) == slot,
        dy_of(cols, cell_index(cols, slot, dy, k)) == dy,
        k_of(cols, cell_index(cols, slot, dy, k)) == k,
{
    let stride = row_stride(cols);
    let row = slot / cols;
    let col = slot % cols;
    lemma_fundamental_div_mod(slot, cols);
    lemma_div_pos_is_pos(slot, cols);
    lemma_mod_bound(slot, cols);
    assert(row < rows) by {
        if row >= rows {
            lemma_mul_inequality(rows, row, cols);
            lemma_mul_is_commutative(cols, row);
            lemma_mul_is_commutative(cols, rows);
        }
    }
    let bx = col * (CELL_ROW_BYTES as int) + k;
    let py = row * (CELL as int) + dy;
    assert(bx < stride) by {
        lemma_mul_inequality(col + 1, cols, CELL_ROW_BYTES as int);
    }
    assert(0 <= bx);
    assert(0 <= py);
    lemma_row_split(py, bx, stride);
    assert(cell_index(cols, slot, dy, k) == py * stride + bx);
    lemma_fundamental_div_mod_converse(py, CELL as int, row, dy);
    lemma_fundamental_div_mod_converse(bx, CELL_ROW_BYTES as int, col, k);
    assert(slot_of(cols, cell_index(cols, slot, dy, k)) == row * cols + col);
    lemma_mul_is_commutative(row, cols);
    assert(py + 1 <= rows * (CELL as int)) by {
        lemma_mul_inequality(row + 1, rows, CELL as int);
    }
    assert(py * stride + bx < (py + 1) * stride) by {
        lemma_mul_is_distributive_add_other_way(stride, py, 1);
    }
    assert((py + 1) * stride <= rows * (CELL as int) * stride) by {
        lemma_mul_inequality(py + 1, rows * (CELL as int), stride);
    }
    assert(0 <= py * stride) by {
        lemma_mul_nonnegative(py, stride);
    }
}

/// Every byte of the texture belongs to exactly one cell position.
pub proof fn lemma_index_decompose(cols: int, rows: int, i: int)
    requires
        cols >= 1,
        rows >= 1,
        0 <= i < byte_len(cols, rows),
    ensures
        0 <= slot_of(cols, i) < cols * rows,
        0 <= dy_of(cols, i) < CELL,
        0 <= k_of(cols, i) < CELL_ROW_BYTES,
        cell_index(cols, slot_of(cols, i), dy_of(cols, i), k_of(cols, i)) == i,
{
    let stride = row_stride(cols);
    let py = i / stride;
    let bx = i % stride;
    lemma_fundamental_div_mod(i, stride);
    lemma_mod_bound(i, stride);
    lemma_div_pos_is_pos(i, stride);
    assert(py < rows * (CELL as int)) by {
        if py >= rows * (CELL as int) {
            lemma_mul_inequality(rows * (CELL as int), py, stride);
            lemma_mul_is_commutative(stride, py);
        }
    }
    let row = py / (CELL as int);
    let dy = py % (CELL as int);
    let col = bx / (CELL_ROW_BYTES as int);
    let k = bx % (CELL_ROW_BYTES as int);
    lemma_fundamental_div_mod(py, CELL as int);
    lemma_fundamental_div_mod(bx, CELL_ROW_BYTES as int);
    lemma_div_pos_is_pos(py, CELL as int);
    lemma_div_pos_is_pos(bx, CELL_ROW_BYTES as int);
    assert(row < rows) by {
        lemma_div_is_ordered(py, rows * (CELL as int) - 1, CELL as int);
        lemma_fundamental_div_mod_converse(
            rows * (CELL as int) - 1,
            CELL as int,
            rows - 1,
            (CELL as int) - 1,
        );
    }
    assert(col < cols) by {
        lemma_div_is_ordered(bx, stride - 1, CELL_ROW_BYTES as int);
        lemma_fundamental_div_mod_converse(
            stride - 1,
            CELL_ROW_BYTES as int,
            cols - 1,
            (CELL_ROW_BYTES as int) - 1,
        );
    }
    let slot = row * cols + col;
    assert(slot_of(cols, i) == slot);
    assert(0 <= slot < cols * rows) by {
        lemma_mul_nonnegative(row, cols);
        lemma_mul_inequality(row + 1, rows, cols);
        lemma_mul_is_distributive_add_other_way(cols, row, 1);
    }
    lemma_fundamental_div_mod_converse(slot, cols, row, col);
    lemma_mul_is_commutative(stride, py);
    assert(py == row * (CELL as int) + dy);
    assert(bx == col * (CELL_ROW_BYTES as int) + k);
    assert(cell_index(cols, slot, dy, k) == py * stride + bx);
}

/// A block that sits inside a cell — rows `[b, b + bh)` and row bytes
/// `[a, a + bw)` of that cell — holds exactly the bytes whose cell, row and
/// byte offsets fall in those ranges.
pub proof fn lemma_block_in_cell(
    cols: int,
    rows: int,
    slot: int,
    a: int,
    b: int,
    bw: int,
    bh: int,
    i: int,
)
    requires
        cols >= 1,
        rows >= 1,
        0 <= slot < cols * rows,
        0 <= a,
        0 <= bw,
        a + bw <= CELL_ROW_BYTES,
        0 <= b,
        0 <= bh,
        b + bh <= CELL,
        0 <= i < byte_len(cols, rows),
    ensures
        in_block(
            i,
            row_stride(cols),
            (slot % cols) * (CELL_ROW_BYTES as int) + a,
            (slot / cols) * (CELL as int) + b,
            bw,
            bh,
        ) <==> (slot_of(cols, i) == slot && b <= dy_of(cols, i) < b + bh && a <= k_of(cols, i) < a
            + bw),
{
    let stride = row_stride(cols);
    lemma_index_decompose(cols, rows, i);
    let s = slot_of(cols, i);
    let dy = dy_of(cols, i);
    let k = k_of(cols, i);
    lemma_cell_index_inverse(cols, rows, s, dy, k);
    let rs = s / cols;
    let cs = s % cols;
    let rt = slot / cols;
    let ct = slot % cols;
    lemma_fundamental_div_mod(s, cols);
    lemma_fundamental_div_mod(slot, cols);
    lemma_mod_bound(s, cols);
    lemma_mod_bound(slot, cols);
    let py = rs * (CELL as int) + dy;
    let bx = cs * (CELL_ROW_BYTES as int) + k;
    assert(0 <= bx < stride) by {
        lemma_mul_inequality(cs + 1, cols, CELL_ROW_BYTES as int);
        lemma_mul_nonnegative(cs, CELL_ROW_BYTES as int);
    }
    lemma_row_split(py, bx, stride);
    assert(i / stride == py && i % stride == bx);
    if rs == rt && cs == ct {
        assert(s == slot);
    }
    if s == slot {
        assert(rs == rt && cs == ct);
    }
    // Different cell rows are separated by a full cell height.
    if rs < rt {
        assert(py < rt * (CELL as int)) by {
            lemma_mul_inequality(rs + 1, rt, CELL as int);
        }
    }
    if rs > rt {
        assert(py >= rt * (CELL as int) + (CELL as int)) by {
            lemma_mul_inequality(rt + 1, rs, CELL as int);
        }
    }
    if cs < ct {
        assert(bx < ct * (CELL_ROW_BYTES as int)) by {
            lemma_mul_inequality(cs + 1, ct, CELL_ROW_BYTES as int);
        }
    }
    if cs > ct {
        assert(bx >= ct * (CELL_ROW_BYTES as int) + (CELL_ROW_BYTES as int)) by {
            lemma_mul_inequality(ct + 1, cs, CELL_ROW_BYTES as int);
        }
    }
}

} // verus!

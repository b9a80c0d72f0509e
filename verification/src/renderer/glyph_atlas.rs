//! CPU-side glyph atlas for text rendering.
//!
//! Rasterized glyphs are packed row by row ("shelf" packing) into an RGBA
//! texture. When the atlas fills up it **grows** (doubling, up to
//! [`ATLAS_MAX_SIZE`]): existing glyphs keep their exact pixel positions, so
//! nothing is evicted or re-rasterized. Growth only changes the UV
//! denominators, which the caller learns through
//! [`GlyphAtlas::take_atlas_grew`].

use super::atlas_grid::{in_block, lemma_block_row_step, lemma_row_split};
use super::icon_atlas::copy_source_index;
use vstd::arithmetic::div_mod::*;
use vstd::arithmetic::mul::*;
use vstd::prelude::*;

verus! {

/// Initial (square) atlas size in pixels.
pub const ATLAS_INITIAL_SIZE: u32 = 1024;

/// Maximum (square) atlas size in pixels.
pub const ATLAS_MAX_SIZE: u32 = 4096;

/// Padding between glyphs to avoid bleeding at UV edges.
pub const PAD: u32 = 1;

/// How a rasterized glyph encodes its pixels.
#[derive(Debug, Clone, Copy, PartialEq, Eq, Structural)]
pub enum GlyphContent {
    /// One coverage byte per pixel.
    Mask,
    /// Four bytes per pixel, per-channel coverage in the first three.
    SubpixelMask,
    /// Four bytes per pixel, BGRA color (emoji).
    Color,
}

/// Bytes a rasterized `w × h` glyph of `content` needs.
pub open spec fn glyph_data_len(content: GlyphContent, w: int, h: int) -> int {
    match content {
        GlyphContent::Mask => w * h,
        _ => w * h * 4,
    }
}

/// How each kind of glyph reads in the atlas, for every pixel: a coverage
/// mask is white with its coverage byte as alpha; a subpixel mask is white
/// with the mean of its three coverage bytes as alpha (rounded down, so it
/// lies between the smallest and largest of them and does not depend on
/// their order); a color glyph's BGRA bytes come out as RGBA.
pub proof fn law_glyph_channels(data: Seq<u8>, p: int)
    ensures
        forall|c: int|
            0 <= c < 3 ==> glyph_channel(GlyphContent::Mask, data, p, c) == 255 && glyph_channel(
                GlyphContent::SubpixelMask,
                data,
                p,
                c,
            ) == 255,
        glyph_channel(GlyphContent::Mask, data, p, 3) == data[p],
        ({
            let a = glyph_channel(GlyphContent::SubpixelMask, data, p, 3) as int;
            let (r, g, b) = (data[p * 4] as int, data[p * 4 + 1] as int, data[p * 4 + 2] as int);
            &&& 3 * a <= r + g + b < 3 * a + 3
            &&& (r <= a || g <= a || b <= a)
            &&& (a <= r || a <= g || a <= b)
        }),
        glyph_channel(GlyphContent::Color, data, p, 0) == data[p * 4 + 2],
        glyph_channel(GlyphContent::Color, data, p, 1) == data[p * 4 + 1],
        glyph_channel(GlyphContent::Color, data, p, 2) == data[p * 4],
        glyph_channel(GlyphContent::Color, data, p, 3) == data[p * 4 + 3],
{
}

/// Bytes a rasterized `w × h` glyph of `content` needs, for checking a
/// rasterizer's output before [`GlyphAtlas::insert_glyph`].
pub fn glyph_byte_len(content: GlyphContent, w: u32, h: u32) -> (r: u128)
    ensures
        r == glyph_data_len(content, w as int, h as int),
{
    proof {
        assert((w as int) * (h as int) <= 0xffff_ffff * 0xffff_ffff) by (nonlinear_arith)
            requires
                w <= 0xffff_ffff,
                h <= 0xffff_ffff,
        ;
    }
    let area = (w as u128) * (h as u128);
    match content {
        GlyphContent::Mask => area,
        _ => area * 4,
    }
}

/// Channel `c` of pixel `p` (row-major, `p = dy * w + dx`) of a glyph, as
/// stored in the atlas: coverage masks become white with that coverage as
/// alpha; color glyphs are reordered from BGRA to RGBA.
pub open spec fn glyph_channel(content: GlyphContent, data: Seq<u8>, p: int, c: int) -> u8 {
    match content {
        GlyphContent::Mask => if c < 3 {
            255u8
        } else {
            data[p]
        },
        GlyphContent::SubpixelMask => if c < 3 {
            255u8
        } else {
            ((data[p * 4] + data[p * 4 + 1] + data[p * 4 + 2]) / 3) as u8
        },
        GlyphContent::Color => if c == 0 {
            data[p * 4 + 2]
        } else if c == 2 {
            data[p * 4]
        } else {
            data[p * 4 + c]
        },
    }
}

/// Atlas bytes after writing a `w × h` glyph at pixel (`x`, `y`) into an
/// atlas `aw` pixels wide.
pub open spec fn spec_blit(
    rgba: Seq<u8>,
    aw: int,
    content: GlyphContent,
    data: Seq<u8>,
    w: int,
    h: int,
    x: int,
    y: int,
) -> Seq<u8> {
    Seq::new(
        rgba.len(),
        |i: int|
            if in_block(i, aw * 4, x * 4, y, w * 4, h) {
                glyph_channel(
                    content,
                    data,
                    (i / (aw * 4) - y) * w + ((i % (aw * 4)) / 4 - x),
                    i % 4,
                )
            } else {
                rgba[i]
            },
    )
}

/// Atlas bytes after growing from `w × h` to `nw × nh`: every old row keeps
/// its pixels at the same position, the new area is transparent.
pub open spec fn spec_regrid(rgba: Seq<u8>, w: int, nw: int, h: int, nh: int) -> Seq<u8> {
    Seq::new(
        (nw * nh * 4) as nat,
        |i: int|
            if in_block(i, nw * 4, 0, 0, w * 4, h) {
                rgba[copy_source_index(i, nw * 4, 0, 0, w * 4, 0, 0)]
            } else {
                0u8
            },
    )
}

/// Index of byte `c` of pixel (`x`, `y`) in an RGBA atlas `width` pixels wide.
pub open spec fn texel(width: int, x: int, y: int, c: int) -> int {
    (y * width + x) * 4 + c
}

/// Where a texel's byte sits in the row-major byte layout.
pub proof fn lemma_texel(width: int, x: int, y: int, c: int)
    requires
        0 <= x < width,
        0 <= y,
        0 <= c < 4,
    ensures
        texel(width, x, y, c) == y * (width * 4) + x * 4 + c,
        texel(width, x, y, c) / (width * 4) == y,
        texel(width, x, y, c) % (width * 4) == x * 4 + c,
        (texel(width, x, y, c) % (width * 4)) / 4 == x,
        texel(width, x, y, c) % 4 == c,
{
    lemma_mul_is_distributive_add_other_way(4, y * width, x);
    lemma_mul_is_associative(y, width, 4);
    lemma_row_split(y, x * 4 + c, width * 4);
    lemma_fundamental_div_mod_converse(x * 4 + c, 4, x, c);
    lemma_fundamental_div_mod_converse(texel(width, x, y, c), 4, y * width + x, c);
}

/// Every byte of every pixel of a `width × height` atlas is in its buffer.
pub proof fn lemma_texel_bounds(width: int, height: int, x: int, y: int, c: int)
    requires
        0 <= x < width,
        0 <= y < height,
        0 <= c < 4,
    ensures
        0 <= texel(width, x, y, c),
        texel(width, x, y, c) + 4 - c <= width * height * 4,
{
    assert(0 <= y * width + x < height * width) by (nonlinear_arith)
        requires
            0 <= x < width,
            0 <= y < height,
    ;
    lemma_mul_is_commutative(height, width);
}

/// Next size of one atlas edge: doubled, capped at `ATLAS_MAX_SIZE`.
pub open spec fn grown_edge(e: int) -> int {
    if 2 * e < ATLAS_MAX_SIZE {
        2 * e
    } else {
        ATLAS_MAX_SIZE as int
    }
}

/// A glyph's rectangle in the atlas, in pixels.
pub ghost struct GlyphRect {
    pub x: int,
    pub y: int,
    pub w: int,
    pub h: int,
}

/// Pixel (`x`, `y`) lies inside `r`.
pub open spec fn rect_contains(r: GlyphRect, x: int, y: int) -> bool {
    r.x <= x < r.x + r.w && r.y <= y < r.y + r.h
}

/// Two placed glyphs keep at least `PAD` pixels apart.
pub open spec fn rects_apart(a: GlyphRect, b: GlyphRect) -> bool {
    ||| a.x + a.w + PAD <= b.x
    ||| b.x + b.w + PAD <= a.x
    ||| a.y + a.h + PAD <= b.y
    ||| b.y + b.h + PAD <= a.y
}

/// Abstract state of a [`GlyphAtlas`].
pub ghost struct GlyphAtlasModel {
    pub width: int,
    pub height: int,
    pub rgba: Seq<u8>,
    /// Next free position of the row packer.
    pub cursor_x: int,
    pub cursor_y: int,
    /// Height of the tallest glyph in the current row.
    pub row_height: int,
    /// The atlas changed since the caller last uploaded it.
    pub dirty: bool,
    /// The atlas grew since the caller last asked.
    pub grew: bool,
    /// Every glyph placed so far, in placement order.
    pub placed: Seq<GlyphRect>,
}

impl GlyphAtlasModel {
    /// The packer invariant: glyphs of finished rows end above the cursor
    /// row, glyphs of the current row end left of the cursor, and every
    /// glyph lies inside the atlas, away from its edge.
    pub open spec fn packed(self) -> bool {
        &&& 1 <= self.width <= ATLAS_MAX_SIZE
        &&& 1 <= self.height <= ATLAS_MAX_SIZE
        &&& self.rgba.len() == self.width * self.height * 4
        &&& PAD <= self.cursor_x <= self.width
        &&& PAD <= self.cursor_y <= self.height
        &&& 0 <= self.row_height
        &&& self.row_height > 0 ==> self.cursor_y + self.row_height + PAD <= self.height
        &&& self.row_height == 0 ==> self.cursor_x == PAD
        &&& forall|k: int|
            0 <= k < self.placed.len() ==> {
                let r = #[trigger] self.placed[k];
                &&& PAD <= r.x
                &&& PAD <= r.y
                &&& r.w > 0
                &&& r.h > 0
                &&& r.x + r.w + PAD <= self.width
                &&& r.y + r.h + PAD <= self.height
                &&& (r.y + r.h + PAD <= self.cursor_y || (r.y == self.cursor_y && r.x + r.w + PAD
                    <= self.cursor_x && r.h <= self.row_height))
            }
        &&& forall|j: int, k: int|
            0 <= j < k < self.placed.len() ==> rects_apart(
                #[trigger] self.placed[j],
                #[trigger] self.placed[k],
            )
    }

    /// Grow until the atlas is at least `need_w × need_h`, or cannot grow.
    pub open spec fn grown_to(self, need_w: int, need_h: int) -> GlyphAtlasModel
        decreases 2 * ATLAS_MAX_SIZE - self.width - self.height,
    {
        if (self.width >= need_w && self.height >= need_h) || (self.width >= ATLAS_MAX_SIZE
            && self.height >= ATLAS_MAX_SIZE) || !(1 <= self.width <= ATLAS_MAX_SIZE && 1
            <= self.height <= ATLAS_MAX_SIZE) {
            self
        } else {
            self.grown().grown_to(need_w, need_h)
        }
    }

    /// The packer moves to a fresh row when a `w`-wide glyph does not fit
    /// in the current one.
    pub open spec fn wrapped(self, w: int) -> GlyphAtlasModel {
        if self.cursor_x + w + PAD > self.width {
            GlyphAtlasModel {
                cursor_x: PAD as int,
                cursor_y: self.cursor_y + self.row_height + PAD,
                row_height: 0,
                ..self
            }
        } else {
            self
        }
    }

    /// The atlas after writing a `w × h` glyph at the cursor.
    pub open spec fn with_glyph(self, content: GlyphContent, data: Seq<u8>, w: int, h: int) -> GlyphAtlasModel {
        GlyphAtlasModel {
            rgba: spec_blit(self.rgba, self.width, content, data, w, h, self.cursor_x, self.cursor_y),
            cursor_x: self.cursor_x + w + PAD,
            row_height: if self.row_height < h {
                h
            } else {
                self.row_height
            },
            dirty: true,
            placed: self.placed.push(GlyphRect { x: self.cursor_x, y: self.cursor_y, w, h }),
            ..self
        }
    }

    /// Where a `w × h` glyph lands (`None` if it is empty, larger than the
    /// largest atlas, or finds no room at the largest size) and the atlas
    /// afterwards. Growth done while looking for room stays.
    pub open spec fn inserted(self, content: GlyphContent, data: Seq<u8>, w: int, h: int) -> (
        Option<(int, int)>,
        GlyphAtlasModel,
    ) {
        if w <= 0 || h <= 0 || w + 2 * PAD > ATLAS_MAX_SIZE || h + 2 * PAD > ATLAS_MAX_SIZE {
            (None, self)
        } else {
            let wide = self.grown_to(w + 2 * PAD, 0).wrapped(w);
            let tall = wide.grown_to(0, wide.cursor_y + h + PAD);
            if tall.cursor_y + h + PAD > tall.height {
                (None, tall)
            } else {
                (Some((tall.cursor_x, tall.cursor_y)), tall.with_glyph(content, data, w, h))
            }
        }
    }

    /// Every glyph placed in `self` is still placed in `later`, and its
    /// pixels are unchanged there.
    pub open spec fn keeps_glyphs(self, later: GlyphAtlasModel) -> bool {
        &&& self.placed.len() <= later.placed.len()
        &&& forall|k: int| 0 <= k < self.placed.len() ==> #[trigger] later.placed[k] == self.placed[k]
        &&& forall|k: int, x: int, y: int, c: int|
            #![trigger rect_contains(self.placed[k], x, y), texel(later.width, x, y, c)]
            0 <= k < self.placed.len() && rect_contains(self.placed[k], x, y) && 0 <= c < 4
                ==> later.rgba[texel(later.width, x, y, c)] == self.rgba[texel(
                self.width,
                x,
                y,
                c,
            )]
    }

    /// The atlas after one growth step.
    pub open spec fn grown(self) -> GlyphAtlasModel {
        let nw = grown_edge(self.width);
        let nh = grown_edge(self.height);
        GlyphAtlasModel {
            width: nw,
            height: nh,
            rgba: spec_regrid(self.rgba, self.width, nw, self.height, nh),
            dirty: true,
            grew: true,
            ..self
        }
    }
}

proof fn lemma_keeps_refl(m: GlyphAtlasModel)
    ensures
        m.keeps_glyphs(m),
{
}

proof fn lemma_keeps_trans(a: GlyphAtlasModel, b: GlyphAtlasModel, c: GlyphAtlasModel)
    requires
        a.keeps_glyphs(b),
        b.keeps_glyphs(c),
    ensures
        a.keeps_glyphs(c),
{
    assert forall|k: int| 0 <= k < a.placed.len() implies #[trigger] c.placed[k] == a.placed[k] by {
        assert(b.placed[k] == a.placed[k]);
    }
    assert forall|k: int, x: int, y: int, ch: int|
        0 <= k < a.placed.len() && #[trigger] rect_contains(a.placed[k], x, y) && 0 <= ch
            < 4 implies c.rgba[#[trigger] texel(c.width, x, y, ch)] == a.rgba[texel(
        a.width,
        x,
        y,
        ch,
    )] by {
        assert(b.placed[k] == a.placed[k]);
        assert(rect_contains(b.placed[k], x, y));
        assert(b.rgba[texel(b.width, x, y, ch)] == a.rgba[texel(a.width, x, y, ch)]);
        assert(c.rgba[texel(c.width, x, y, ch)] == b.rgba[texel(b.width, x, y, ch)]);
    }
}

/// One growth step keeps the packer invariant and every pixel of the old
/// atlas at its position.
proof fn lemma_grown(m: GlyphAtlasModel)
    requires
        m.packed(),
    ensures
        m.grown().packed(),
        m.grown().width >= m.width,
        m.grown().height >= m.height,
        forall|x: int, y: int, c: int|
            0 <= x < m.width && 0 <= y < m.height && 0 <= c < 4 ==> m.grown().rgba[#[trigger] texel(
                m.grown().width,
                x,
                y,
                c,
            )] == m.rgba[texel(m.width, x, y, c)],
        m.keeps_glyphs(m.grown()),
{
    let g = m.grown();
    let w = m.width;
    let h = m.height;
    let nw = g.width;
    let nh = g.height;
    assert(nw * nh * 4 >= 0) by (nonlinear_arith)
        requires
            nw >= 1,
            nh >= 1,
    ;
    assert forall|x: int, y: int, c: int|
        0 <= x < w && 0 <= y < h && 0 <= c < 4 implies g.rgba[#[trigger] texel(nw, x, y, c)]
        == m.rgba[texel(w, x, y, c)] by {
        lemma_texel(nw, x, y, c);
        lemma_texel(w, x, y, c);
        lemma_texel_bounds(nw, nh, x, y, c);
        let i = texel(nw, x, y, c);
        assert(in_block(i, nw * 4, 0, 0, w * 4, h));
        assert(copy_source_index(i, nw * 4, 0, 0, w * 4, 0, 0) == texel(w, x, y, c));
    }
    assert forall|j: int, k: int|
        0 <= j < k < g.placed.len() implies rects_apart(
        #[trigger] g.placed[j],
        #[trigger] g.placed[k],
    ) by {
        assert(rects_apart(m.placed[j], m.placed[k]));
    }
    assert forall|k: int, x: int, y: int, c: int|
        0 <= k < m.placed.len() && #[trigger] rect_contains(m.placed[k], x, y) && 0 <= c
            < 4 implies g.rgba[#[trigger] texel(g.width, x, y, c)] == m.rgba[texel(
        m.width,
        x,
        y,
        c,
    )] by {
        let r = m.placed[k];
        assert(r.x + r.w + PAD <= w && r.y + r.h + PAD <= h);
    }
}

/// Growing until a size is reached keeps the packer invariant and every
/// placed glyph; it reaches any width up to the maximum.
proof fn lemma_grown_to(m: GlyphAtlasModel, need_w: int, need_h: int)
    requires
        m.packed(),
    ensures
        m.grown_to(need_w, need_h).packed(),
        m.keeps_glyphs(m.grown_to(need_w, need_h)),
        m.grown_to(need_w, need_h).cursor_x == m.cursor_x,
        m.grown_to(need_w, need_h).cursor_y == m.cursor_y,
        m.grown_to(need_w, need_h).row_height == m.row_height,
        m.grown_to(need_w, need_h).placed == m.placed,
        m.grown_to(need_w, need_h).width >= m.width,
        need_w <= ATLAS_MAX_SIZE ==> m.grown_to(need_w, need_h).width >= need_w,
    decreases 2 * ATLAS_MAX_SIZE - m.width - m.height,
{
    if (m.width >= need_w && m.height >= need_h) || (m.width >= ATLAS_MAX_SIZE && m.height
        >= ATLAS_MAX_SIZE) || !(1 <= m.width <= ATLAS_MAX_SIZE && 1 <= m.height
        <= ATLAS_MAX_SIZE) {
        lemma_keeps_refl(m);
    } else {
        lemma_grown(m);
        lemma_grown_to(m.grown(), need_w, need_h);
        lemma_keeps_trans(m, m.grown(), m.grown().grown_to(need_w, need_h));
    }
}

/// Moving to a fresh row keeps the packer invariant and leaves room for a
/// `w`-wide glyph in the row.
proof fn lemma_wrapped(m: GlyphAtlasModel, w: int)
    requires
        m.packed(),
        w > 0,
        w + 2 * PAD <= m.width,
    ensures
        m.wrapped(w).packed(),
        m.keeps_glyphs(m.wrapped(w)),
        m.wrapped(w).cursor_x + w + PAD <= m.wrapped(w).width,
        m.wrapped(w).width == m.width,
        m.wrapped(w).height == m.height,
        m.wrapped(w).rgba == m.rgba,
        m.wrapped(w).placed == m.placed,
        m.wrapped(w).row_height == 0 || m.wrapped(w).cursor_x == m.cursor_x,
{
    let n = m.wrapped(w);
    assert forall|j: int, k: int|
        0 <= j < k < n.placed.len() implies rects_apart(
        #[trigger] n.placed[j],
        #[trigger] n.placed[k],
    ) by {
        assert(rects_apart(m.placed[j], m.placed[k]));
    }
    assert forall|k: int| 0 <= k < n.placed.len() implies {
        let r = #[trigger] n.placed[k];
        r.y + r.h + PAD <= n.cursor_y || (r.y == n.cursor_y && r.x + r.w + PAD <= n.cursor_x
            && r.h <= n.row_height)
    } by {
        let r = m.placed[k];
        assert(r.y + r.h + PAD <= m.cursor_y || (r.y == m.cursor_y && r.x + r.w + PAD
            <= m.cursor_x && r.h <= m.row_height));
    }
    lemma_keeps_refl(m);
}

/// Writing a glyph at the cursor, where it fits, keeps the packer invariant
/// and the pixels of every glyph placed before.
proof fn lemma_with_glyph(m: GlyphAtlasModel, content: GlyphContent, data: Seq<u8>, w: int, h: int)
    requires
        m.packed(),
        w > 0,
        h > 0,
        m.cursor_x + w + PAD <= m.width,
        m.cursor_y + h + PAD <= m.height,
    ensures
        m.with_glyph(content, data, w, h).packed(),
        m.keeps_glyphs(m.with_glyph(content, data, w, h)),
{
    let n = m.with_glyph(content, data, w, h);
    let nr = GlyphRect { x: m.cursor_x, y: m.cursor_y, w, h };
    let len = m.placed.len();
    assert(n.placed[len as int] == nr);
    assert forall|k: int| 0 <= k < len implies {
        let r = #[trigger] m.placed[k];
        r.y + r.h + PAD <= m.cursor_y || r.x + r.w + PAD <= m.cursor_x
    } by {
        let r = m.placed[k];
        assert(r.y + r.h + PAD <= m.cursor_y || (r.y == m.cursor_y && r.x + r.w + PAD
            <= m.cursor_x && r.h <= m.row_height));
    }
    assert forall|j: int, k: int|
        0 <= j < k < n.placed.len() implies rects_apart(
        #[trigger] n.placed[j],
        #[trigger] n.placed[k],
    ) by {
        if k < len {
            assert(n.placed[j] == m.placed[j]);
            assert(n.placed[k] == m.placed[k]);
            assert(rects_apart(m.placed[j], m.placed[k]));
        } else {
            assert(n.placed[j] == m.placed[j]);
            let r = m.placed[j];
            assert(r.y + r.h + PAD <= m.cursor_y || r.x + r.w + PAD <= m.cursor_x);
        }
    }
    assert forall|k: int| 0 <= k < n.placed.len() implies {
        let r = #[trigger] n.placed[k];
        &&& PAD <= r.x
        &&& PAD <= r.y
        &&& r.w > 0
        &&& r.h > 0
        &&& r.x + r.w + PAD <= n.width
        &&& r.y + r.h + PAD <= n.height
        &&& (r.y + r.h + PAD <= n.cursor_y || (r.y == n.cursor_y && r.x + r.w + PAD
            <= n.cursor_x && r.h <= n.row_height))
    } by {
        if k < len {
            assert(n.placed[k] == m.placed[k]);
        }
    }
    let w4 = m.width * 4;
    assert forall|k: int, x: int, y: int, c: int|
        0 <= k < len && #[trigger] rect_contains(m.placed[k], x, y) && 0 <= c
            < 4 implies n.rgba[#[trigger] texel(n.width, x, y, c)] == m.rgba[texel(
        m.width,
        x,
        y,
        c,
    )] by {
        let r = m.placed[k];
        assert(r.y + r.h + PAD <= m.cursor_y || r.x + r.w + PAD <= m.cursor_x);
        lemma_texel(m.width, x, y, c);
        lemma_texel_bounds(m.width, m.height, x, y, c);
        let i = texel(m.width, x, y, c);
        assert(!in_block(i, w4, m.cursor_x * 4, m.cursor_y, w * 4, h));
    }
    assert forall|k: int| 0 <= k < len implies #[trigger] n.placed[k] == m.placed[k] by {}
}

/// Placed glyphs never overlap: any two keep `PAD` pixels apart, and each
/// lies inside the atlas, `PAD` pixels away from its edge.
pub proof fn law_placed_glyphs_never_overlap(m: GlyphAtlasModel)
    requires
        m.packed(),
    ensures
        forall|j: int, k: int|
            0 <= j < m.placed.len() && 0 <= k < m.placed.len() && j != k ==> rects_apart(
                #[trigger] m.placed[j],
                #[trigger] m.placed[k],
            ),
        forall|k: int|
            0 <= k < m.placed.len() ==> {
                let r = #[trigger] m.placed[k];
                PAD <= r.x && PAD <= r.y && r.x + r.w + PAD <= m.width && r.y + r.h + PAD
                    <= m.height
            },
{
    assert forall|j: int, k: int|
        0 <= j < m.placed.len() && 0 <= k < m.placed.len() && j != k implies rects_apart(
        #[trigger] m.placed[j],
        #[trigger] m.placed[k],
    ) by {
        if j < k {
            assert(rects_apart(m.placed[j], m.placed[k]));
        } else {
            assert(rects_apart(m.placed[k], m.placed[j]));
        }
    }
}

/// Growing the atlas keeps every existing pixel at its position and leaves
/// the new area transparent; each edge doubles, capped at the maximum.
pub proof fn law_growth_keeps_pixels(m: GlyphAtlasModel)
    requires
        m.packed(),
    ensures
        m.grown().width == grown_edge(m.width),
        m.grown().height == grown_edge(m.height),
        m.grown().placed == m.placed,
        forall|x: int, y: int, c: int|
            0 <= x < m.width && 0 <= y < m.height && 0 <= c < 4 ==> m.grown().rgba[#[trigger] texel(
                m.grown().width,
                x,
                y,
                c,
            )] == m.rgba[texel(m.width, x, y, c)],
        forall|x: int, y: int, c: int|
            0 <= x < m.grown().width && 0 <= y < m.grown().height && 0 <= c < 4 && (m.width <= x
                || m.height <= y) ==> m.grown().rgba[#[trigger] texel(m.grown().width, x, y, c)]
                == 0,
{
    lemma_grown(m);
    let g = m.grown();
    assert forall|x: int, y: int, c: int|
        0 <= x < g.width && 0 <= y < g.height && 0 <= c < 4 && (m.width <= x || m.height
            <= y) implies g.rgba[#[trigger] texel(g.width, x, y, c)] == 0 by {
        lemma_texel(g.width, x, y, c);
        lemma_texel_bounds(g.width, g.height, x, y, c);
    }
}

/// Inserting a glyph, whatever the outcome, keeps the packer invariant and
/// leaves every glyph placed before where it was, with its pixels.
pub proof fn law_insert_keeps_placed_glyphs(
    m: GlyphAtlasModel,
    content: GlyphContent,
    data: Seq<u8>,
    w: int,
    h: int,
)
    requires
        m.packed(),
    ensures
        m.inserted(content, data, w, h).1.packed(),
        m.keeps_glyphs(m.inserted(content, data, w, h).1),
{
    if w <= 0 || h <= 0 || w + 2 * PAD > ATLAS_MAX_SIZE || h + 2 * PAD > ATLAS_MAX_SIZE {
        lemma_keeps_refl(m);
    } else {
        let g = m.grown_to(w + 2 * PAD, 0);
        lemma_grown_to(m, w + 2 * PAD, 0);
        let wide = g.wrapped(w);
        lemma_wrapped(g, w);
        lemma_keeps_trans(m, g, wide);
        let tall = wide.grown_to(0, wide.cursor_y + h + PAD);
        lemma_grown_to(wide, 0, wide.cursor_y + h + PAD);
        lemma_keeps_trans(m, wide, tall);
        if tall.cursor_y + h + PAD <= tall.height {
            lemma_with_glyph(tall, content, data, w, h);
            lemma_keeps_trans(m, tall, tall.with_glyph(content, data, w, h));
        }
    }
}

/// A glyph that was placed reads back from the atlas: it is recorded at the
/// returned position, and each of its pixels holds the glyph's RGBA value.
pub proof fn law_insert_then_read(
    m: GlyphAtlasModel,
    content: GlyphContent,
    data: Seq<u8>,
    w: int,
    h: int,
)
    requires
        m.packed(),
        m.inserted(content, data, w, h).0 is Some,
    ensures
        ({
            let (x, y) = m.inserted(content, data, w, h).0->0;
            let n = m.inserted(content, data, w, h).1;
            &&& n.placed.last() == (GlyphRect { x, y, w, h })
            &&& forall|px: int, py: int, c: int|
                x <= px < x + w && y <= py < y + h && 0 <= c < 4 ==> n.rgba[#[trigger] texel(
                    n.width,
                    px,
                    py,
                    c,
                )] == glyph_channel(content, data, (py - y) * w + (px - x), c)
        }),
{
    let g = m.grown_to(w + 2 * PAD, 0);
    lemma_grown_to(m, w + 2 * PAD, 0);
    let wide = g.wrapped(w);
    lemma_wrapped(g, w);
    let tall = wide.grown_to(0, wide.cursor_y + h + PAD);
    lemma_grown_to(wide, 0, wide.cursor_y + h + PAD);
    let (x, y) = (tall.cursor_x, tall.cursor_y);
    let n = tall.with_glyph(content, data, w, h);
    assert forall|px: int, py: int, c: int|
        x <= px < x + w && y <= py < y + h && 0 <= c < 4 implies n.rgba[#[trigger] texel(
        n.width,
        px,
        py,
        c,
    )] == glyph_channel(content, data, (py - y) * w + (px - x), c) by {
        lemma_texel(tall.width, px, py, c);
        lemma_texel_bounds(tall.width, tall.height, px, py, c);
        let i = texel(tall.width, px, py, c);
        assert(in_block(i, tall.width * 4, x * 4, y, w * 4, h));
    }
}

/// A growable glyph atlas with a row packer.
pub struct GlyphAtlas {
    /// Atlas RGBA buffer, row-major, `atlas_w * atlas_h * 4` bytes.
    atlas: Vec<u8>,
    atlas_w: u32,
    atlas_h: u32,
    /// Next free cell cursor for the row packer.
    cursor_x: u32,
    cursor_y: u32,
    row_height: u32,
    /// True if the atlas changed since the last GPU upload.
    atlas_dirty: bool,
    /// True if the atlas grew since the last [`Self::take_atlas_grew`] call.
    atlas_grew: bool,
    /// Every glyph placed so far.
    placed: Ghost<Seq<GlyphRect>>,
}

impl View for GlyphAtlas {
    type V = GlyphAtlasModel;

    closed spec fn view(&self) -> GlyphAtlasModel {
        GlyphAtlasModel {
            width: self.atlas_w as int,
            height: self.atlas_h as int,
            rgba: self.atlas@,
            cursor_x: self.cursor_x as int,
            cursor_y: self.cursor_y as int,
            row_height: self.row_height as int,
            dirty: self.atlas_dirty,
            grew: self.atlas_grew,
            placed: self.placed@,
        }
    }
}

impl GlyphAtlas {
    pub open spec fn wf(&self) -> bool {
        self@.packed()
    }

    /// An empty `ATLAS_INITIAL_SIZE` square atlas.
    pub fn new() -> (r: Self)
        ensures
            r.wf(),
            r@.width == ATLAS_INITIAL_SIZE,
            r@.height == ATLAS_INITIAL_SIZE,
            r@.rgba == Seq::new(
                (ATLAS_INITIAL_SIZE * ATLAS_INITIAL_SIZE * 4) as nat,
                |i: int| 0u8,
            ),
            r@.cursor_x == PAD,
            r@.cursor_y == PAD,
            r@.row_height == 0,
            r@.dirty,
            !r@.grew,
            r@.placed.len() == 0,
    {
        Self::with_atlas_size(ATLAS_INITIAL_SIZE, ATLAS_INITIAL_SIZE)
    }

    /// An empty atlas of an explicit size.
    pub fn with_atlas_size(atlas_w: u32, atlas_h: u32) -> (r: Self)
        requires
            1 <= atlas_w <= ATLAS_MAX_SIZE,
            1 <= atlas_h <= ATLAS_MAX_SIZE,
        ensures
            r.wf(),
            r@.width == atlas_w,
            r@.height == atlas_h,
            r@.rgba == Seq::new((atlas_w * atlas_h * 4) as nat, |i: int| 0u8),
            r@.cursor_x == PAD,
            r@.cursor_y == PAD,
            r@.row_height == 0,
            r@.dirty,
            !r@.grew,
            r@.placed.len() == 0,
    {
        proof {
            lemma_mul_upper_bound(atlas_w as int, 4096, atlas_h as int, 4096);
        }
        let atlas = vec![0u8; (atlas_w * atlas_h * 4) as usize];
        let r = Self {
            atlas,
            atlas_w,
            atlas_h,
            cursor_x: PAD,
            cursor_y: PAD,
            row_height: 0,
            atlas_dirty: true,
            atlas_grew: false,
            placed: Ghost(Seq::empty()),
        };
        proof {
            assert(r@.rgba =~= Seq::new((atlas_w * atlas_h * 4) as nat, |i: int| 0u8));
        }
        r
    }

    pub fn atlas_rgba(&self) -> (r: &[u8])
        ensures
            r@ == self@.rgba,
    {
        self.atlas.as_slice()
    }

    pub fn atlas_dimensions(&self) -> (r: (u32, u32))
        ensures
            r.0 == self@.width,
            r.1 == self@.height,
    {
        (self.atlas_w, self.atlas_h)
    }

    /// Whether the atlas changed since the last upload.
    pub fn is_dirty(&self) -> (r: bool)
        ensures
            r == self@.dirty,
    {
        self.atlas_dirty
    }

    /// Note that the caller uploaded the atlas.
    pub fn mark_uploaded(&mut self)
        ensures
            final(self)@ == (GlyphAtlasModel { dirty: false, ..old(self)@ }),
    {
        self.atlas_dirty = false;
    }

    /// Returns true (and clears the flag) if the atlas grew since the last
    /// call. On growth every previously built glyph quad's normalized UVs
    /// are stale (the denominators changed), so the caller must rebuild them.
    pub fn take_atlas_grew(&mut self) -> (r: bool)
        ensures
            r == old(self)@.grew,
            final(self)@ == (GlyphAtlasModel { grew: false, ..old(self)@ }),
    {
        let g = self.atlas_grew;
        self.atlas_grew = false;
        g
    }

    /// Double the atlas (capped at `ATLAS_MAX_SIZE`), copying every
    /// existing row to the same pixel position in the new buffer. Placed
    /// glyphs and the packer cursor stay valid as they are. Returns false
    /// if the atlas is already at its maximum size.
    fn grow_atlas(&mut self) -> (r: bool)
        requires
            old(self).wf(),
        ensures
            final(self).wf(),
            r == !(old(self)@.width >= ATLAS_MAX_SIZE && old(self)@.height >= ATLAS_MAX_SIZE),
            final(self)@ == if r {
                old(self)@.grown()
            } else {
                old(self)@
            },
    {
        if self.atlas_w >= ATLAS_MAX_SIZE && self.atlas_h >= ATLAS_MAX_SIZE {
            return false;
        }
        let w = self.atlas_w;
        let h = self.atlas_h;
        let new_w = if w * 2 < ATLAS_MAX_SIZE {
            w * 2
        } else {
            ATLAS_MAX_SIZE
        };
        let new_h = if h * 2 < ATLAS_MAX_SIZE {
            h * 2
        } else {
            ATLAS_MAX_SIZE
        };
        proof {
            lemma_mul_upper_bound(new_w as int, 4096, new_h as int, 4096);
            lemma_mul_upper_bound(w as int, 4096, h as int, 4096);
        }
        let mut new_atlas = vec![0u8; (new_w * new_h * 4) as usize];
        let ghost ns: int = new_w * 4;
        let ghost os: int = w * 4;
        let old_row_bytes = (w * 4) as usize;
        let mut y: u32 = 0;
        while y < h
            invariant
                self.wf(),
                *self == *old(self),
                w == self.atlas_w,
                h == self.atlas_h,
                w <= new_w <= ATLAS_MAX_SIZE,
                h <= new_h <= ATLAS_MAX_SIZE,
                ns == new_w * 4,
                os == w * 4,
                old_row_bytes == os,
                y <= h,
                new_atlas@.len() == new_w * new_h * 4,
                forall|i: int|
                    0 <= i < new_atlas@.len() ==> #[trigger] new_atlas@[i] == if in_block(
                        i,
                        ns,
                        0,
                        0,
                        os,
                        y as int,
                    ) {
                        self.atlas@[copy_source_index(i, ns, 0, 0, os, 0, 0)]
                    } else {
                        0u8
                    },
            decreases h - y,
        {
            proof {
                lemma_mul_upper_bound(h as int, 4096, w as int, 4096);
                lemma_mul_upper_bound(new_h as int, 4096, new_w as int, 4096);
                lemma_mul_inequality(y as int, h as int, os);
                lemma_mul_inequality(y as int, new_h as int, ns);
                lemma_mul_inequality(y as int + 1, h as int, os);
                lemma_mul_inequality(y as int + 1, new_h as int, ns);
                lemma_mul_is_distributive_add_other_way(os, y as int, 1);
                lemma_mul_is_distributive_add_other_way(ns, y as int, 1);
                lemma_mul_is_associative(y as int, w as int, 4);
                lemma_mul_is_associative(y as int, new_w as int, 4);
                lemma_mul_is_associative(h as int, w as int, 4);
                lemma_mul_is_associative(new_h as int, new_w as int, 4);
                lemma_mul_is_commutative(h as int, w as int);
                lemma_mul_is_commutative(new_h as int, new_w as int);
            }
            let src = (y as usize) * old_row_bytes;
            let dst = (y as usize) * ((new_w * 4) as usize);
            assert forall|i: int| dst <= i < dst + old_row_bytes implies !#[trigger] in_block(
                i,
                ns,
                0,
                0,
                os,
                y as int,
            ) by {
                lemma_row_split(y as int, i - dst, ns);
            }
            let mut j: usize = 0;
            while j < old_row_bytes
                invariant
                    j <= old_row_bytes,
                    old_row_bytes == os,
                    src + os <= self.atlas@.len(),
                    dst + os <= new_atlas@.len(),
                    src + os <= 0x400_0000,
                    dst + os <= 0x400_0000,
                    new_atlas@.len() == new_w * new_h * 4,
                    forall|i: int|
                        dst <= i < dst + old_row_bytes ==> !#[trigger] in_block(
                            i,
                            ns,
                            0,
                            0,
                            os,
                            y as int,
                        ),
                    forall|i: int|
                        0 <= i < new_atlas@.len() ==> #[trigger] new_atlas@[i] == if in_block(
                            i,
                            ns,
                            0,
                            0,
                            os,
                            y as int,
                        ) {
                            self.atlas@[copy_source_index(i, ns, 0, 0, os, 0, 0)]
                        } else if dst <= i < dst + j {
                            self.atlas@[src + (i - dst)]
                        } else {
                            0u8
                        },
                decreases old_row_bytes - j,
            {
                let v = self.atlas[src + j];
                new_atlas.set(dst + j, v);
                j = j + 1;
            }
            assert forall|i: int| 0 <= i < new_atlas@.len() implies #[trigger] new_atlas@[i] == if in_block(
                i,
                ns,
                0,
                0,
                os,
                y + 1,
            ) {
                self.atlas@[copy_source_index(i, ns, 0, 0, os, 0, 0)]
            } else {
                0u8
            } by {
                lemma_block_row_step(i, ns, 0, 0, os, y as int);
                if dst <= i < dst + old_row_bytes {
                    lemma_row_split(y as int, i - dst, ns);
                }
            }
            y = y + 1;
        }
        self.atlas = new_atlas;
        self.atlas_w = new_w;
        self.atlas_h = new_h;
        self.atlas_dirty = true;
        self.atlas_grew = true;
        proof {
            let m = self@;
            assert(m.placed == old(self)@.placed);
            assert forall|j: int, k: int|
                0 <= j < k < m.placed.len() implies rects_apart(
                #[trigger] m.placed[j],
                #[trigger] m.placed[k],
            ) by {
                assert(rects_apart(old(self)@.placed[j], old(self)@.placed[k]));
            }
            assert(1 <= m.width <= ATLAS_MAX_SIZE);
            assert(1 <= m.height <= ATLAS_MAX_SIZE);
            assert(m.rgba.len() == m.width * m.height * 4);
            assert(PAD <= m.cursor_x <= m.width);
            assert(PAD <= m.cursor_y <= m.height);
            assert(self@.rgba =~= spec_regrid(old(self)@.rgba, w as int, new_w as int, h as int, new_h as int));
        }
        true
    }

    /// Place a rasterized `w × h` glyph with the row packer and copy its
    /// pixels in. When the current row is full the packer moves to a new
    /// row; when the atlas is out of rows it grows instead of evicting, so
    /// glyphs placed earlier keep their pixel positions. Returns the glyph's
    /// top-left pixel, or `None` if the glyph is empty, cannot fit even the
    /// largest atlas, or finds no room at the largest size.
    pub fn insert_glyph(&mut self, content: GlyphContent, data: &[u8], w: u32, h: u32) -> (r:
        Option<(u32, u32)>)
        requires
            old(self).wf(),
            glyph_data_len(content, w as int, h as int) <= data@.len(),
        ensures
            final(self).wf(),
            final(self)@ == old(self)@.inserted(content, data@, w as int, h as int).1,
            match r {
                Some(p) => old(self)@.inserted(content, data@, w as int, h as int).0 == Some(
                    (p.0 as int, p.1 as int),
                ),
                None => old(self)@.inserted(content, data@, w as int, h as int).0 is None,
            },
    {
        if w == 0 || h == 0 {
            return None;
        }
        // A glyph that cannot fit even at the maximum atlas size is dropped.
        if w > ATLAS_MAX_SIZE - 2 * PAD || h > ATLAS_MAX_SIZE - 2 * PAD {
            return None;
        }
        let ghost need_w: int = w + 2 * PAD;
        let ghost m0 = self@;
        proof {
            lemma_grown_to(m0, need_w, 0);
        }
        // Grow until the glyph fits within the atlas width.
        while w + 2 * PAD > self.atlas_w
            invariant
                self.wf(),
                need_w == w + 2 * PAD,
                need_w <= ATLAS_MAX_SIZE,
                self@.grown_to(need_w, 0) == m0.grown_to(need_w, 0),
            decreases 2 * ATLAS_MAX_SIZE - self.atlas_w - self.atlas_h,
        {
            if !self.grow_atlas() {
                return None;
            }
        }
        let ghost m1 = self@;
        proof {
            lemma_wrapped(m1, w as int);
        }
        // Find a slot in the current row, wrapping to a new row if needed.
        if self.cursor_x + w + PAD > self.atlas_w {
            self.cursor_y = self.cursor_y + self.row_height + PAD;
            self.cursor_x = PAD;
            self.row_height = 0;
        }
        let ghost m2 = self@;
        assert(m2 == m1.wrapped(w as int));
        assert(m1 == m0.grown_to(need_w, 0));
        let ghost need_h: int = self.cursor_y + h + PAD;
        proof {
            lemma_grown_to(m2, 0, need_h);
        }
        // Out of rows: grow the atlas instead of evicting.
        while self.cursor_y + h + PAD > self.atlas_h
            invariant
                self.wf(),
                0 < w,
                0 < h,
                w + 2 * PAD <= ATLAS_MAX_SIZE,
                h + 2 * PAD <= ATLAS_MAX_SIZE,
                need_h == self.cursor_y + h + PAD,
                need_h == m2.cursor_y + h + PAD,
                m2 == old(self)@.grown_to(w + 2 * PAD, 0).wrapped(w as int),
                self@.grown_to(0, need_h) == m2.grown_to(0, need_h),
            decreases 2 * ATLAS_MAX_SIZE - self.atlas_w - self.atlas_h,
        {
            if !self.grow_atlas() {
                // Already at the maximum size; drop the glyph.
                return None;
            }
        }
        let dst_x = self.cursor_x;
        let dst_y = self.cursor_y;
        let ghost m3 = self@;
        proof {
            lemma_with_glyph(m3, content, data@, w as int, h as int);
        }
        if self.row_height < h {
            self.row_height = h;
        }
        self.cursor_x = self.cursor_x + w + PAD;
        self.blit(content, data, w, h, dst_x, dst_y);
        self.atlas_dirty = true;
        self.placed = Ghost(
            self.placed@.push(GlyphRect { x: dst_x as int, y: dst_y as int, w: w as int, h: h as int }),
        );
        assert(self@ == m3.with_glyph(content, data@, w as int, h as int));
        Some((dst_x, dst_y))
    }

    /// Everything but the pixel bytes is the same in `a` and `b`.
    spec fn same_but_pixels(a: GlyphAtlas, b: GlyphAtlas) -> bool {
        &&& a.atlas_w == b.atlas_w
        &&& a.atlas_h == b.atlas_h
        &&& a.cursor_x == b.cursor_x
        &&& a.cursor_y == b.cursor_y
        &&& a.row_height == b.row_height
        &&& a.atlas_dirty == b.atlas_dirty
        &&& a.atlas_grew == b.atlas_grew
        &&& a.placed == b.placed
        &&& a.atlas@.len() == b.atlas@.len()
    }

    /// The pixel buffer holds exactly `atlas_w * atlas_h` RGBA pixels.
    spec fn sized(&self) -> bool {
        &&& 1 <= self.atlas_w <= ATLAS_MAX_SIZE
        &&& 1 <= self.atlas_h <= ATLAS_MAX_SIZE
        &&& self.atlas@.len() == self.atlas_w * self.atlas_h * 4
    }

    fn write_pixel(&mut self, x: u32, y: u32, r: u8, g: u8, b: u8, a: u8)
        requires
            old(self).sized(),
            x < old(self).atlas_w,
            y < old(self).atlas_h,
        ensures
            Self::same_but_pixels(*old(self), *final(self)),
            texel(old(self).atlas_w as int, x as int, y as int, 0) + 4 <= old(self).atlas@.len(),
            ({
                let t = texel(old(self).atlas_w as int, x as int, y as int, 0);
                final(self).atlas@ == old(self).atlas@.update(t, r).update(t + 1, g).update(
                    t + 2,
                    b,
                ).update(t + 3, a)
            }),
    {
        let ghost w: int = self.atlas_w as int;
        let ghost hh: int = self.atlas_h as int;
        proof {
            lemma_mul_upper_bound(y as int, 4096, w, 4096);
            lemma_mul_inequality(y as int + 1, hh, w);
            lemma_mul_is_distributive_add_other_way(w, y as int, 1);
            lemma_mul_is_commutative(hh, w);
        }
        let idx = ((y as usize) * (self.atlas_w as usize) + (x as usize)) * 4;
        self.atlas.set(idx, r);
        self.atlas.set(idx + 1, g);
        self.atlas.set(idx + 2, b);
        self.atlas.set(idx + 3, a);
    }

    /// Copy a rasterized glyph into the atlas at pixel (`dst_x`, `dst_y`),
    /// normalizing coverage masks and color images to RGBA.
    fn blit(&mut self, content: GlyphContent, data: &[u8], w: u32, h: u32, dst_x: u32, dst_y: u32)
        requires
            old(self).sized(),
            dst_x + w <= old(self).atlas_w,
            dst_y + h <= old(self).atlas_h,
            glyph_data_len(content, w as int, h as int) <= data@.len(),
        ensures
            Self::same_but_pixels(*old(self), *final(self)),
            final(self).atlas@ == spec_blit(
                old(self).atlas@,
                old(self).atlas_w as int,
                content,
                data@,
                w as int,
                h as int,
                dst_x as int,
                dst_y as int,
            ),
    {
        let ghost s: int = self.atlas_w * 4;
        let ghost old_rgba = self.atlas@;
        let ghost start = *self;
        let mut yy: u32 = 0;
        while yy < h
            invariant
                start.sized(),
                Self::same_but_pixels(start, *self),
                self.atlas@.len() == old_rgba.len(),
                old_rgba == start.atlas@,
                s == start.atlas_w * 4,
                dst_x + w <= start.atlas_w,
                dst_y + h <= start.atlas_h,
                glyph_data_len(content, w as int, h as int) <= data@.len(),
                yy <= h,
                forall|i: int|
                    0 <= i < old_rgba.len() ==> #[trigger] self.atlas@[i] == if in_block(
                        i,
                        s,
                        dst_x * 4,
                        dst_y as int,
                        w * 4,
                        yy as int,
                    ) {
                        glyph_channel(
                            content,
                            data@,
                            (i / s - dst_y) * w + ((i % s) / 4 - dst_x),
                            i % 4,
                        )
                    } else {
                        old_rgba[i]
                    },
            decreases h - yy,
        {
            let ghost row0: int = (dst_y + yy) * s + dst_x * 4;
            let mut xx: u32 = 0;
            while xx < w
                invariant
                    start.sized(),
                    Self::same_but_pixels(start, *self),
                    self.atlas@.len() == old_rgba.len(),
                    old_rgba == start.atlas@,
                    s == start.atlas_w * 4,
                    dst_x + w <= start.atlas_w,
                    dst_y + h <= start.atlas_h,
                    glyph_data_len(content, w as int, h as int) <= data@.len(),
                    yy < h,
                    xx <= w,
                    row0 == (dst_y + yy) * s + dst_x * 4,
                    forall|i: int|
                        0 <= i < old_rgba.len() ==> #[trigger] self.atlas@[i] == if in_block(
                            i,
                            s,
                            dst_x * 4,
                            dst_y as int,
                            w * 4,
                            yy as int,
                        ) || (row0 <= i < row0 + xx * 4) {
                            glyph_channel(
                                content,
                                data@,
                                (i / s - dst_y) * w + ((i % s) / 4 - dst_x),
                                i % 4,
                            )
                        } else {
                            old_rgba[i]
                        },
                decreases w - xx,
            {
                proof {
                    lemma_mul_upper_bound(yy as int, 4096, w as int, 4096);
                    lemma_mul_inequality(yy as int + 1, h as int, w as int);
                    lemma_mul_is_distributive_add_other_way(w as int, yy as int, 1);
                    lemma_mul_is_commutative(h as int, w as int);
                }
                let p = (yy as usize) * (w as usize) + (xx as usize);
                let (r, g, b, a) = glyph_pixel(content, data, p);
                let ghost before = self.atlas@;
                let ghost t = texel(start.atlas_w as int, dst_x + xx, dst_y + yy, 0);
                self.write_pixel(dst_x + xx, dst_y + yy, r, g, b, a);
                proof {
                    lemma_texel(start.atlas_w as int, dst_x + xx, dst_y + yy, 0);
                    assert(t == row0 + xx * 4);
                    assert forall|i: int|
                        0 <= i < old_rgba.len() implies #[trigger] self.atlas@[i] == if in_block(
                            i,
                            s,
                            dst_x * 4,
                            dst_y as int,
                            w * 4,
                            yy as int,
                        ) || (row0 <= i < row0 + (xx + 1) * 4) {
                            glyph_channel(
                                content,
                                data@,
                                (i / s - dst_y) * w + ((i % s) / 4 - dst_x),
                                i % 4,
                            )
                        } else {
                            old_rgba[i]
                        } by {
                        if t <= i < t + 4 {
                            let k = i - t;
                            lemma_texel(start.atlas_w as int, dst_x + xx, dst_y + yy, k);
                            assert(i == texel(start.atlas_w as int, dst_x + xx, dst_y + yy, k));
                            assert(i / s == dst_y + yy);
                            assert((i % s) / 4 == dst_x + xx);
                            assert(i % 4 == k);
                            assert((i / s - dst_y) * w + ((i % s) / 4 - dst_x) == p as int);
                            assert(!in_block(i, s, dst_x * 4, dst_y as int, w * 4, yy as int));
                            assert(row0 <= i < row0 + (xx + 1) * 4);
                            if k == 0 {
                                assert(self.atlas@[i] == r);
                            } else if k == 1 {
                                assert(self.atlas@[i] == g);
                            } else if k == 2 {
                                assert(self.atlas@[i] == b);
                            } else {
                                assert(self.atlas@[i] == a);
                            }
                        } else {
                            assert(self.atlas@[i] == before[i]);
                        }
                    }
                }
                xx = xx + 1;
            }
            proof {
                assert forall|i: int|
                    0 <= i < old_rgba.len() implies #[trigger] self.atlas@[i] == if in_block(
                        i,
                        s,
                        dst_x * 4,
                        dst_y as int,
                        w * 4,
                        yy + 1,
                    ) {
                        glyph_channel(
                            content,
                            data@,
                            (i / s - dst_y) * w + ((i % s) / 4 - dst_x),
                            i % 4,
                        )
                    } else {
                        old_rgba[i]
                    } by {
                    lemma_block_row_step(i, s, dst_x * 4, dst_y as int, w * 4, yy as int);
                    lemma_mul_is_distributive_add_other_way(s, dst_y as int, yy as int);
                }
            }
            yy = yy + 1;
        }
        proof {
            assert(self.atlas@ =~= spec_blit(
                old_rgba,
                start.atlas_w as int,
                content,
                data@,
                w as int,
                h as int,
                dst_x as int,
                dst_y as int,
            ));
        }
    }
}

/// The RGBA value that pixel `p` of a glyph takes in the atlas.
fn glyph_pixel(content: GlyphContent, data: &[u8], p: usize) -> (px: (u8, u8, u8, u8))
    requires
        match content {
            GlyphContent::Mask => p < data@.len(),
            _ => p * 4 + 4 <= data@.len(),
        },
    ensures
        px.0 == glyph_channel(content, data@, p as int, 0),
        px.1 == glyph_channel(content, data@, p as int, 1),
        px.2 == glyph_channel(content, data@, p as int, 2),
        px.3 == glyph_channel(content, data@, p as int, 3),
{
    let n = data.len();
    match content {
        GlyphContent::Mask => (255, 255, 255, data[p]),
        GlyphContent::SubpixelMask => {
            let i = p * 4;
            let r = data[i] as u16;
            let g = data[i + 1] as u16;
            let b = data[i + 2] as u16;
            let a = ((r + g + b) / 3) as u8;
            (255, 255, 255, a)
        },
        GlyphContent::Color => {
            let i = p * 4;
            (data[i + 2], data[i + 1], data[i], data[i + 3])
        },
    }
}

} // verus!

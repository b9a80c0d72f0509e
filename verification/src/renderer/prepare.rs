//! Decisions `prepare` makes while reflecting a render model into GPU
//! resources: which surface the modal Liquid Glass pass draws, and the
//! bookkeeping of a whole `prepare` call — one `prepare` count per call, one
//! full-scene rebuild per base glass batch, and for each instance batch a
//! write into its lane's buffer that counts a growth when it reallocates.
//! The caller performs the GPU writes the returned outcomes ask for.

use super::counters::{BufferCounters, Category, CountersModel, CATEGORY_COUNT};
use super::resources::{spec_next_capacity, spec_outcome, InstanceBuffer, SetOutcome};
use vstd::prelude::*;

verus! {

/// `i` is the position of a highest `z`, and no later position has the same
/// `z`.
pub open spec fn is_top_modal(z: Seq<i16>, i: int) -> bool {
    &&& 0 <= i < z.len()
    &&& forall|j: int| 0 <= j < z.len() ==> z[j] <= z[i]
    &&& forall|j: int| i < j < z.len() ==> z[j] < z[i]
}

/// The modal glass pass accepts one surface: the one with the highest `z`,
/// using later model order as the tie-breaker. `z_values` holds the `z` of
/// each modal surface in model order; `None` means there is none.
pub fn highest_shape_index(z_values: &[i16]) -> (r: Option<usize>)
    ensures
        r is None <==> z_values@.len() == 0,
        r matches Some(i) ==> is_top_modal(z_values@, i as int),
{
    let n = z_values.len();
    if n == 0 {
        return None;
    }
    let mut best: usize = 0;
    let mut i: usize = 1;
    while i < n
        invariant
            n == z_values@.len(),
            1 <= i <= n,
            best < i,
            forall|j: int| 0 <= j < i ==> z_values@[j] <= z_values@[best as int],
            forall|j: int| best < j < i ==> z_values@[j] < z_values@[best as int],
        decreases n - i,
    {
        if z_values[i] >= z_values[best] {
            best = i;
        }
        i = i + 1;
    }
    Some(best)
}

/// Record a write of `count` instances into `buffer`, counting a growth for
/// `category` when the write forces a new allocation. The caller allocates
/// and uploads as the returned outcome says.
pub fn set_instances(
    buffer: &mut InstanceBuffer,
    count: usize,
    counters: &mut BufferCounters,
    category: Category,
) -> (r: SetOutcome)
    requires
        old(counters).wf(),
        old(counters)@.grows[category.spec_index()] < u64::MAX,
    ensures
        r == spec_outcome(old(buffer).spec_capacity(), count as int),
        final(buffer).spec_len() == count as u32,
        final(buffer).spec_capacity() == if r.allocated {
            spec_next_capacity(old(buffer).spec_capacity(), count as u32)
        } else {
            old(buffer).spec_capacity()
        },
        final(counters).wf(),
        final(counters)@ == if r.allocated {
            (CountersModel {
                grows: old(counters)@.grows.update(
                    category.spec_index(),
                    (old(counters)@.grows[category.spec_index()] + 1) as u64,
                ),
                ..old(counters)@
            })
        } else {
            old(counters)@
        },
{
    let outcome = buffer.set(count);
    if outcome.allocated {
        counters.record_growth(category);
    }
    outcome
}

/// The top modal surface is unique: any two positions that both qualify are
/// the same.
pub proof fn law_top_modal_is_unique(z: Seq<i16>, i: int, k: int)
    requires
        is_top_modal(z, i),
        is_top_modal(z, k),
    ensures
        i == k,
{
    if i < k {
        assert(z[k] < z[i]);
        assert(z[i] <= z[k]);
    } else if k < i {
        assert(z[i] < z[k]);
        assert(z[k] <= z[i]);
    }
}

/// Liquid Glass layers of a render model.
#[derive(Debug, Clone, Copy, PartialEq, Eq, Structural)]
pub enum GlassLayer {
    Overlay,
    Modal,
    Base,
}

/// Ink (control foreground) lanes of a render model.
#[derive(Debug, Clone, Copy, PartialEq, Eq, Structural)]
pub enum InkLane {
    BottomControl,
    Gear,
    Settings,
    EditBadge,
    Backdrop,
}

/// Glyph lanes of a render model.
#[derive(Debug, Clone, Copy, PartialEq, Eq, Structural)]
pub enum GlyphLane {
    Grid,
    BottomControl,
    Settings,
}

/// One batch of a render model, in the order `prepare` walks them: glass
/// batches, tiles, icons, ink batches, glyph batches.
#[derive(Debug, Clone, Copy, PartialEq, Eq, Structural)]
pub enum PrepareBatch {
    Glass(GlassLayer),
    Tiles,
    Icons,
    Ink(InkLane),
    Glyphs(GlyphLane),
}

/// The counter category (and instance buffer) a batch is written to, if
/// any. Glass batches go to the Liquid Glass renderer; edit-badge and
/// backdrop ink are drawn from elsewhere.
pub open spec fn batch_category(b: PrepareBatch) -> Option<Category> {
    match b {
        PrepareBatch::Tiles => Some(Category::Tile),
        PrepareBatch::Icons => Some(Category::Icon),
        PrepareBatch::Ink(InkLane::BottomControl) => Some(Category::Control),
        PrepareBatch::Ink(InkLane::Gear) => Some(Category::Gear),
        PrepareBatch::Ink(InkLane::Settings) => Some(Category::Settings),
        PrepareBatch::Glyphs(GlyphLane::Grid) => Some(Category::TextLabel),
        PrepareBatch::Glyphs(GlyphLane::BottomControl) => Some(Category::ControlText),
        PrepareBatch::Glyphs(GlyphLane::Settings) => Some(Category::SettingsText),
        _ => None,
    }
}

fn category_of(b: PrepareBatch) -> (r: Option<Category>)
    ensures
        r == batch_category(b),
{
    match b {
        PrepareBatch::Tiles => Some(Category::Tile),
        PrepareBatch::Icons => Some(Category::Icon),
        PrepareBatch::Ink(InkLane::BottomControl) => Some(Category::Control),
        PrepareBatch::Ink(InkLane::Gear) => Some(Category::Gear),
        PrepareBatch::Ink(InkLane::Settings) => Some(Category::Settings),
        PrepareBatch::Glyphs(GlyphLane::Grid) => Some(Category::TextLabel),
        PrepareBatch::Glyphs(GlyphLane::BottomControl) => Some(Category::ControlText),
        PrepareBatch::Glyphs(GlyphLane::Settings) => Some(Category::SettingsText),
        _ => None,
    }
}

/// The persistent instance buffers, one per counter category.
pub struct PrepareBuffers {
    buffers: Vec<InstanceBuffer>,
}

impl View for PrepareBuffers {
    /// `(length, capacity)` of each category's buffer.
    type V = Seq<(u32, u32)>;

    closed spec fn view(&self) -> Seq<(u32, u32)> {
        Seq::new(
            self.buffers@.len(),
            |i: int| (self.buffers@[i].spec_len(), self.buffers@[i].spec_capacity()),
        )
    }
}

impl PrepareBuffers {
    /// One buffer per category.
    pub open spec fn wf(&self) -> bool {
        self@.len() == CATEGORY_COUNT
    }

    /// Empty buffers with no allocation.
    pub fn new() -> (r: Self)
        ensures
            r.wf(),
            r@ == Seq::new(CATEGORY_COUNT as nat, |i: int| (0u32, 0u32)),
    {
        let mut buffers: Vec<InstanceBuffer> = Vec::new();
        let mut i: usize = 0;
        while i < CATEGORY_COUNT
            invariant
                i <= CATEGORY_COUNT,
                buffers@.len() == i,
                forall|j: int|
                    0 <= j < i ==> (#[trigger] buffers@[j]).spec_len() == 0
                        && buffers@[j].spec_capacity() == 0,
            decreases CATEGORY_COUNT - i,
        {
            buffers.push(InstanceBuffer::new());
            i = i + 1;
        }
        let r = PrepareBuffers { buffers };
        proof {
            assert(r@ =~= Seq::new(CATEGORY_COUNT as nat, |i: int| (0u32, 0u32)));
        }
        r
    }

    /// The buffer of `cat`.
    pub fn buffer(&self, cat: Category) -> (r: InstanceBuffer)
        requires
            self.wf(),
        ensures
            (r.spec_len(), r.spec_capacity()) == self@[cat.spec_index()],
    {
        self.buffers[cat.index()]
    }
}

/// Abstract state `prepare` works on: the counters and the buffers.
pub ghost struct PrepareModel {
    pub counters: CountersModel,
    pub buffers: Seq<(u32, u32)>,
}

/// One batch of `prepare`: the state afterwards and the write outcome (none
/// for a batch without an instance buffer). A base glass batch counts a
/// full-scene rebuild; an instance batch writes `count` instances into its
/// category's buffer and counts a growth when that reallocates.
pub open spec fn prepare_step(m: PrepareModel, batch: PrepareBatch, count: usize) -> (
    PrepareModel,
    Option<SetOutcome>,
) {
    match batch {
        PrepareBatch::Glass(GlassLayer::Base) => (
            PrepareModel {
                counters: CountersModel {
                    full_scene_rebuilds: (m.counters.full_scene_rebuilds + 1) as u64,
                    ..m.counters
                },
                ..m
            },
            None,
        ),
        _ => match batch_category(batch) {
            None => (m, None),
            Some(c) => {
                let i = c.spec_index();
                let (_, cap) = m.buffers[i];
                let o = spec_outcome(cap, count as int);
                let new_cap = if o.allocated {
                    spec_next_capacity(cap, count as u32)
                } else {
                    cap
                };
                (
                    PrepareModel {
                        counters: if o.allocated {
                            CountersModel {
                                grows: m.counters.grows.update(i, (m.counters.grows[i] + 1) as u64),
                                ..m.counters
                            }
                        } else {
                            m.counters
                        },
                        buffers: m.buffers.update(i, (count as u32, new_cap)),
                    },
                    Some(o),
                )
            },
        },
    }
}

/// The state after the batches of `batches`, in order.
pub open spec fn prepare_run(m: PrepareModel, batches: Seq<(PrepareBatch, usize)>) -> PrepareModel
    decreases batches.len(),
{
    if batches.len() == 0 {
        m
    } else {
        prepare_step(
            prepare_run(m, batches.drop_last()),
            batches.last().0,
            batches.last().1,
        ).0
    }
}

/// The write outcome of each batch of `batches`.
pub open spec fn prepare_outcomes(m: PrepareModel, batches: Seq<(PrepareBatch, usize)>) -> Seq<
    Option<SetOutcome>,
>
    decreases batches.len(),
{
    if batches.len() == 0 {
        Seq::empty()
    } else {
        prepare_outcomes(m, batches.drop_last()).push(
            prepare_step(
                prepare_run(m, batches.drop_last()),
                batches.last().0,
                batches.last().1,
            ).1,
        )
    }
}

/// Number of base glass batches in `batches`.
pub open spec fn base_batches(batches: Seq<(PrepareBatch, usize)>) -> int
    decreases batches.len(),
{
    if batches.len() == 0 {
        0
    } else {
        base_batches(batches.drop_last()) + if batches.last().0 == PrepareBatch::Glass(
            GlassLayer::Base,
        ) {
            1int
        } else {
            0int
        }
    }
}

/// The bookkeeping of one `prepare` call over the batches of a render model
/// (`batches` gives each batch and its instance count): counts the call,
/// then walks the batches as [`prepare_run`] says. Returns each batch's
/// write outcome, for the caller to allocate and upload as it asks.
pub fn prepare_bookkeeping(
    counters: &mut BufferCounters,
    buffers: &mut PrepareBuffers,
    batches: &[(PrepareBatch, usize)],
) -> (r: Vec<Option<SetOutcome>>)
    requires
        old(counters).wf(),
        old(buffers).wf(),
        old(counters)@.prepare_calls < u64::MAX,
        old(counters)@.full_scene_rebuilds + batches@.len() <= u64::MAX,
        forall|c: int|
            0 <= c < CATEGORY_COUNT ==> #[trigger] old(counters)@.grows[c] + batches@.len()
                <= u64::MAX,
    ensures
        final(counters).wf(),
        final(buffers).wf(),
        ({
            let start = PrepareModel {
                counters: CountersModel {
                    prepare_calls: (old(counters)@.prepare_calls + 1) as u64,
                    ..old(counters)@
                },
                buffers: old(buffers)@,
            };
            &&& final(counters)@ == prepare_run(start, batches@).counters
            &&& final(buffers)@ == prepare_run(start, batches@).buffers
            &&& r@ == prepare_outcomes(start, batches@)
        }),
{
    counters.record_prepare();
    let ghost start = PrepareModel { counters: counters@, buffers: buffers@ };
    proof {
        counters.lemma_model_lengths();
    }
    let mut out: Vec<Option<SetOutcome>> = Vec::new();
    let n = batches.len();
    let mut k: usize = 0;
    while k < n
        invariant
            n == batches@.len(),
            k <= n,
            counters.wf(),
            buffers.wf(),
            counters@.grows.len() == CATEGORY_COUNT,
            start.counters.grows.len() == CATEGORY_COUNT,
            start.counters.full_scene_rebuilds + n <= u64::MAX,
            forall|c: int|
                0 <= c < CATEGORY_COUNT ==> #[trigger] start.counters.grows[c] + n <= u64::MAX,
            counters@.full_scene_rebuilds <= start.counters.full_scene_rebuilds + k,
            forall|c: int|
                0 <= c < CATEGORY_COUNT ==> #[trigger] counters@.grows[c] <= start.counters.grows[c]
                    + k,
            counters@ == prepare_run(start, batches@.take(k as int)).counters,
            buffers@ == prepare_run(start, batches@.take(k as int)).buffers,
            out@ == prepare_outcomes(start, batches@.take(k as int)),
        decreases n - k,
    {
        let (batch, count) = batches[k];
        let ghost before = PrepareModel { counters: counters@, buffers: buffers@ };
        proof {
            assert(batches@.take(k + 1).drop_last() =~= batches@.take(k as int));
            assert(batches@.take(k + 1).last() == batches@[k as int]);
        }
        let outcome = if batch == PrepareBatch::Glass(GlassLayer::Base) {
            counters.record_full_scene_rebuild();
            None
        } else {
            match category_of(batch) {
                None => None,
                Some(cat) => {
                    let i = cat.index();
                    let mut b = buffers.buffers[i];
                    let o = set_instances(&mut b, count, counters, cat);
                    buffers.buffers.set(i, b);
                    proof {
                        assert(buffers@ =~= before.buffers.update(
                            i as int,
                            (b.spec_len(), b.spec_capacity()),
                        ));
                    }
                    Some(o)
                },
            }
        };
        out.push(outcome);
        proof {
            let after = prepare_step(before, batch, count);
            assert(counters@ == after.0.counters);
            assert(buffers@ == after.0.buffers);
            assert(out@ =~= prepare_outcomes(start, batches@.take(k as int)).push(after.1));
        }
        k = k + 1;
    }
    proof {
        assert(batches@.take(n as int) =~= batches@);
    }
    out
}

/// Each instance lane has its own buffer: two different batches never
/// write the same category, tiles and icons go to their own categories,
/// glyph lanes go to the text categories and ink lanes to the control
/// categories (the settings glyph lane to the settings text buffer, never
/// to the settings ink buffer), and no batch writes the badge category.
pub proof fn law_lanes_have_own_buffers(a: PrepareBatch, b: PrepareBatch)
    ensures
        (batch_category(a) is Some && batch_category(a) == batch_category(b)) ==> a == b,
        batch_category(PrepareBatch::Tiles) == Some(Category::Tile),
        batch_category(PrepareBatch::Icons) == Some(Category::Icon),
        a matches PrepareBatch::Glyphs(_) ==> (batch_category(a) == Some(Category::TextLabel)
            || batch_category(a) == Some(Category::ControlText) || batch_category(a) == Some(
            Category::SettingsText,
        )),
        a matches PrepareBatch::Ink(_) ==> (batch_category(a) is None || batch_category(a) == Some(
            Category::Control,
        ) || batch_category(a) == Some(Category::Gear) || batch_category(a) == Some(
            Category::Settings,
        )),
        a matches PrepareBatch::Glass(_) ==> batch_category(a) is None,
        batch_category(a) != Some(Category::BadgeForeground),
{
}

/// A batch's write lands in its own lane's buffer and nowhere else: that
/// buffer takes the batch's count as its length, every other buffer keeps
/// its length and capacity, and only that lane's growth count can rise.
pub proof fn law_write_stays_in_its_lane(
    m: PrepareModel,
    batch: PrepareBatch,
    count: usize,
    other: int,
)
    requires
        m.buffers.len() == CATEGORY_COUNT,
        m.counters.grows.len() == CATEGORY_COUNT,
        0 <= other < CATEGORY_COUNT,
        batch_category(batch) is Some,
        other != batch_category(batch)->0.spec_index(),
    ensures
        prepare_step(m, batch, count).0.buffers[batch_category(batch)->0.spec_index()].0
            == count as u32,
        prepare_step(m, batch, count).0.buffers[other] == m.buffers[other],
        prepare_step(m, batch, count).0.counters.grows[other] == m.counters.grows[other],
        prepare_step(m, batch, count).0.counters.full_scene_rebuilds
            == m.counters.full_scene_rebuilds,
{
}

/// What a `prepare` call does to the counters: the full-scene rebuild
/// count rises by the number of base glass batches and nothing else but
/// growths changes; when no write reallocates, the growth counts stay too.
/// So a frame that only scrolls (no base glass batch, every write within
/// capacity) rebuilds nothing and grows nothing.
pub proof fn law_prepare_counters(m: PrepareModel, batches: Seq<(PrepareBatch, usize)>)
    requires
        m.counters.full_scene_rebuilds + batches.len() <= u64::MAX,
    ensures
        prepare_run(m, batches).counters.full_scene_rebuilds == m.counters.full_scene_rebuilds
            + base_batches(batches),
        prepare_run(m, batches).counters.prepare_calls == m.counters.prepare_calls,
        prepare_run(m, batches).counters.creations == m.counters.creations,
        prepare_run(m, batches).counters.atlas_rebinds == m.counters.atlas_rebinds,
        prepare_run(m, batches).counters.non_qa_readbacks == m.counters.non_qa_readbacks,
        (forall|k: int|
            0 <= k < batches.len() ==> !(#[trigger] prepare_outcomes(m, batches)[k] matches Some(
                o,
            ) && o.allocated)) ==> prepare_run(m, batches).counters.grows == m.counters.grows,
    decreases batches.len(),
{
    if batches.len() > 0 {
        let p = batches.drop_last();
        lemma_outcomes_len(m, p);
        law_prepare_counters(m, p);
        assert(base_batches(p) <= p.len()) by {
            lemma_base_batches_bound(p);
        }
        if forall|k: int|
            0 <= k < batches.len() ==> !(#[trigger] prepare_outcomes(m, batches)[k] matches Some(
                o,
            ) && o.allocated) {
            assert forall|k: int|
                0 <= k < p.len() implies !(#[trigger] prepare_outcomes(m, p)[k] matches Some(o)
                && o.allocated) by {
                assert(prepare_outcomes(m, batches)[k] == prepare_outcomes(m, p)[k]);
            }
            assert(prepare_outcomes(m, batches)[p.len() as int] == prepare_step(
                prepare_run(m, p),
                batches.last().0,
                batches.last().1,
            ).1);
        }
    }
}

proof fn lemma_outcomes_len(m: PrepareModel, batches: Seq<(PrepareBatch, usize)>)
    ensures
        prepare_outcomes(m, batches).len() == batches.len(),
    decreases batches.len(),
{
    if batches.len() > 0 {
        lemma_outcomes_len(m, batches.drop_last());
    }
}

proof fn lemma_base_batches_bound(batches: Seq<(PrepareBatch, usize)>)
    ensures
        0 <= base_batches(batches) <= batches.len(),
    decreases batches.len(),
{
    if batches.len() > 0 {
        lemma_base_batches_bound(batches.drop_last());
    }
}

} // verus!

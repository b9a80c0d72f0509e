//! Performance counters for the renderer.
//!
//! These exist so tests (and a debug overlay) can assert allocation
//! behavior:
//!
//! - idle frames perform zero static-buffer creations,
//! - scroll-only frames do not rebuild the tile/icon/text scene,
//! - settings-close frames clear only the settings batch,
//! - capacity-internal updates reuse the buffer (no grow),
//! - only QA captures read GPU memory back.

use vstd::prelude::*;

verus! {

/// Number of [`Category`] values.
pub const CATEGORY_COUNT: usize = 9;

/// A category of GPU resource whose creation/growth/upload is tracked.
#[derive(Debug, Clone, Copy, PartialEq, Eq, Hash, Structural)]
pub enum Category {
    Tile,
    Icon,
    TextLabel,
    Control,
    Gear,
    Settings,
    SettingsText,
    ControlText,
    BadgeForeground,
}

impl Category {
    /// Position of the category in [`Category::all`].
    pub open spec fn spec_index(self) -> int {
        match self {
            Category::Tile => 0,
            Category::Icon => 1,
            Category::TextLabel => 2,
            Category::Control => 3,
            Category::Gear => 4,
            Category::Settings => 5,
            Category::SettingsText => 6,
            Category::ControlText => 7,
            Category::BadgeForeground => 8,
        }
    }

    pub fn index(self) -> (r: usize)
        ensures
            r == self.spec_index(),
    {
        match self {
            Category::Tile => 0,
            Category::Icon => 1,
            Category::TextLabel => 2,
            Category::Control => 3,
            Category::Gear => 4,
            Category::Settings => 5,
            Category::SettingsText => 6,
            Category::ControlText => 7,
            Category::BadgeForeground => 8,
        }
    }

    /// Every category, in index order.
    pub fn all() -> (r: [Category; 9])
        ensures
            forall|i: int| 0 <= i < 9 ==> (#[trigger] r@[i]).spec_index() == i,
    {
        [
            Category::Tile,
            Category::Icon,
            Category::TextLabel,
            Category::Control,
            Category::Gear,
            Category::Settings,
            Category::SettingsText,
            Category::ControlText,
            Category::BadgeForeground,
        ]
    }

    pub open spec fn spec_label(self) -> Seq<char> {
        match self {
            Category::Tile => "tile"@,
            Category::Icon => "icon"@,
            Category::TextLabel => "text_label"@,
            Category::Control => "control"@,
            Category::Gear => "gear"@,
            Category::Settings => "settings"@,
            Category::SettingsText => "settings_text"@,
            Category::ControlText => "control_text"@,
            Category::BadgeForeground => "badge_foreground"@,
        }
    }

    /// Short name used in counter reports.
    pub fn label(self) -> (r: &'static str)
        ensures
            r@ == self.spec_label(),
    {
        match self {
            Category::Tile => "tile",
            Category::Icon => "icon",
            Category::TextLabel => "text_label",
            Category::Control => "control",
            Category::Gear => "gear",
            Category::Settings => "settings",
            Category::SettingsText => "settings_text",
            Category::ControlText => "control_text",
            Category::BadgeForeground => "badge_foreground",
        }
    }
}

/// Abstract counter values.
pub ghost struct CountersModel {
    /// Creations per category, indexed by [`Category::spec_index`].
    pub creations: Seq<u64>,
    /// Capacity-growth reallocations per category.
    pub grows: Seq<u64>,
    pub prepare_calls: u64,
    pub full_scene_rebuilds: u64,
    pub atlas_rebinds: u64,
    pub non_qa_readbacks: u64,
}

/// Renderer counters.
#[derive(Debug, Clone)]
pub struct BufferCounters {
    creations: Vec<u64>,
    grows: Vec<u64>,
    prepare_calls: u64,
    full_scene_rebuilds: u64,
    atlas_rebinds: u64,
    /// GPU readbacks excluding QA captures. Should always be 0.
    non_qa_readbacks: u64,
}

impl View for BufferCounters {
    type V = CountersModel;

    closed spec fn view(&self) -> CountersModel {
        CountersModel {
            creations: self.creations@,
            grows: self.grows@,
            prepare_calls: self.prepare_calls,
            full_scene_rebuilds: self.full_scene_rebuilds,
            atlas_rebinds: self.atlas_rebinds,
            non_qa_readbacks: self.non_qa_readbacks,
        }
    }
}

/// A vector of `CATEGORY_COUNT` zeros.
fn zero_per_category() -> (r: Vec<u64>)
    ensures
        r@ == Seq::new(CATEGORY_COUNT as nat, |i: int| 0u64),
{
    let mut v: Vec<u64> = Vec::new();
    let mut i: usize = 0;
    while i < CATEGORY_COUNT
        invariant
            i <= CATEGORY_COUNT,
            v@ == Seq::new(i as nat, |j: int| 0u64),
        decreases CATEGORY_COUNT - i,
    {
        v.push(0);
        i = i + 1;
        proof {
            assert(v@ =~= Seq::new(i as nat, |j: int| 0u64));
        }
    }
    v
}

impl Default for BufferCounters {
    fn default() -> (r: Self)
        ensures
            r.wf(),
            r@ == BufferCounters::zero_model(),
    {
        BufferCounters {
            creations: zero_per_category(),
            grows: zero_per_category(),
            prepare_calls: 0,
            full_scene_rebuilds: 0,
            atlas_rebinds: 0,
            non_qa_readbacks: 0,
        }
    }
}

impl BufferCounters {
    /// All counters at zero.
    pub open spec fn zero_model() -> CountersModel {
        CountersModel {
            creations: Seq::new(CATEGORY_COUNT as nat, |i: int| 0u64),
            grows: Seq::new(CATEGORY_COUNT as nat, |i: int| 0u64),
            prepare_calls: 0,
            full_scene_rebuilds: 0,
            atlas_rebinds: 0,
            non_qa_readbacks: 0,
        }
    }

    /// A well-formed counter set has one creation and one growth count per
    /// category.
    pub proof fn lemma_model_lengths(&self)
        requires
            self.wf(),
        ensures
            self@.creations.len() == CATEGORY_COUNT,
            self@.grows.len() == CATEGORY_COUNT,
    {
    }

    pub closed spec fn wf(&self) -> bool {
        &&& self.creations@.len() == CATEGORY_COUNT
        &&& self.grows@.len() == CATEGORY_COUNT
    }

    /// Record a buffer creation (first allocation) for `cat`.
    pub fn record_creation(&mut self, cat: Category)
        requires
            old(self).wf(),
            old(self)@.creations[cat.spec_index()] < u64::MAX,
        ensures
            final(self).wf(),
            final(self)@ == (CountersModel {
                creations: old(self)@.creations.update(
                    cat.spec_index(),
                    (old(self)@.creations[cat.spec_index()] + 1) as u64,
                ),
                ..old(self)@
            }),
    {
        let i = cat.index();
        let v = self.creations[i];
        self.creations.set(i, v + 1);
    }

    /// Record a buffer growth (capacity overflow reallocation) for `cat`.
    pub fn record_growth(&mut self, cat: Category)
        requires
            old(self).wf(),
            old(self)@.grows[cat.spec_index()] < u64::MAX,
        ensures
            final(self).wf(),
            final(self)@ == (CountersModel {
                grows: old(self)@.grows.update(
                    cat.spec_index(),
                    (old(self)@.grows[cat.spec_index()] + 1) as u64,
                ),
                ..old(self)@
            }),
    {
        let i = cat.index();
        let v = self.grows[i];
        self.grows.set(i, v + 1);
    }

    /// Record a `prepare` call.
    pub fn record_prepare(&mut self)
        requires
            old(self).wf(),
            old(self)@.prepare_calls < u64::MAX,
        ensures
            final(self).wf(),
            final(self)@ == (CountersModel {
                prepare_calls: (old(self)@.prepare_calls + 1) as u64,
                ..old(self)@
            }),
    {
        self.prepare_calls += 1;
    }

    /// Record a full static-scene rebuild (tile+icon+text relayout).
    pub fn record_full_scene_rebuild(&mut self)
        requires
            old(self).wf(),
            old(self)@.full_scene_rebuilds < u64::MAX,
        ensures
            final(self).wf(),
            final(self)@ == (CountersModel {
                full_scene_rebuilds: (old(self)@.full_scene_rebuilds + 1) as u64,
                ..old(self)@
            }),
    {
        self.full_scene_rebuilds += 1;
    }

    /// Record an icon-atlas rebind (texture reallocation).
    pub fn record_atlas_rebind(&mut self)
        requires
            old(self).wf(),
            old(self)@.atlas_rebinds < u64::MAX,
        ensures
            final(self).wf(),
            final(self)@ == (CountersModel {
                atlas_rebinds: (old(self)@.atlas_rebinds + 1) as u64,
                ..old(self)@
            }),
    {
        self.atlas_rebinds += 1;
    }

    /// Record a GPU→CPU readback that is NOT a QA capture. Always a bug if >0.
    pub fn record_non_qa_readback(&mut self)
        requires
            old(self).wf(),
            old(self)@.non_qa_readbacks < u64::MAX,
        ensures
            final(self).wf(),
            final(self)@ == (CountersModel {
                non_qa_readbacks: (old(self)@.non_qa_readbacks + 1) as u64,
                ..old(self)@
            }),
    {
        self.non_qa_readbacks += 1;
    }

    /// Number of creations recorded for `cat`.
    pub fn creations(&self, cat: Category) -> (r: u64)
        requires
            self.wf(),
        ensures
            r == self@.creations[cat.spec_index()],
    {
        self.creations[cat.index()]
    }

    /// Number of capacity-growth reallocations recorded for `cat`.
    pub fn grows(&self, cat: Category) -> (r: u64)
        requires
            self.wf(),
        ensures
            r == self@.grows[cat.spec_index()],
    {
        self.grows[cat.index()]
    }

    /// Total `prepare` calls.
    pub fn prepare_calls(&self) -> (r: u64)
        ensures
            r == self@.prepare_calls,
    {
        self.prepare_calls
    }

    /// Total full-scene rebuilds.
    pub fn full_scene_rebuilds(&self) -> (r: u64)
        ensures
            r == self@.full_scene_rebuilds,
    {
        self.full_scene_rebuilds
    }

    /// Total icon-atlas rebinds.
    pub fn atlas_rebinds(&self) -> (r: u64)
        ensures
            r == self@.atlas_rebinds,
    {
        self.atlas_rebinds
    }

    /// Total non-QA GPU readbacks. Must stay 0.
    pub fn non_qa_readbacks(&self) -> (r: u64)
        ensures
            r == self@.non_qa_readbacks,
    {
        self.non_qa_readbacks
    }
}

} // verus!

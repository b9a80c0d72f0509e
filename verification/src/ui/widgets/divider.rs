//! `Divider` widget — a thin horizontal separator line.

use crate::ui_model::ids::UiId;
use vstd::prelude::*;

verus! {

/// A thin horizontal divider line.
///
/// It spans the full available width with a height of `1px * scale_factor`.
#[derive(Clone, Debug)]
pub struct Divider {
    pub id: UiId,
}

impl Default for Divider {
    fn default() -> (r: Self)
        ensures
            r.id@ == Seq::<char>::empty(),
    {
        Self::new()
    }
}

impl Divider {
    /// Create a default divider (its id is assigned when placed).
    pub fn new() -> (r: Self)
        ensures
            r.id@ == Seq::<char>::empty(),
    {
        proof {
            reveal_strlit("");
        }
        Self { id: UiId::named("") }
    }

    /// Assign a stable `UiId`.
    pub fn id(self, id: UiId) -> (r: Self)
        ensures
            r.id@ == id@,
    {
        let mut d = self;
        d.id = id;
        d
    }
}

} // verus!

//! Theme values for UI components.

use vstd::prelude::*;

verus! {

/// Size class of a control.
#[derive(Clone, Copy, Debug, PartialEq, Eq, Structural)]
pub enum ControlSize {
    Mini,
    Small,
    Regular,
}

impl Default for ControlSize {
    fn default() -> (r: Self)
        ensures
            r == ControlSize::Regular,
    {
        ControlSize::Regular
    }
}

} // verus!

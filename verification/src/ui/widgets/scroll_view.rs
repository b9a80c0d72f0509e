//! Scroll view types.

use vstd::prelude::*;

verus! {

/// Alignment hint for `ensure_visible`.
#[derive(Debug, Clone, Copy, PartialEq, Eq, Structural)]
pub enum ScrollAlignment {
    Start,
    Center,
    End,
    Nearest,
}

} // verus!

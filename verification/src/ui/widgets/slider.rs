//! Slider ids.

use crate::ui_model::ids::UiId;
use vstd::prelude::*;
use vstd::string::StringExecFns;

verus! {

/// Create a sub-id for slider hit regions (track and reset): the parent's
/// name, a hyphen, and `suffix`.
pub fn format_slider_id(parent: &UiId, suffix: &str) -> (r: UiId)
    ensures
        r@ == parent@ + seq!['-'] + suffix@,
{
    let mut name = String::from_str(parent.as_str());
    name.append("-");
    name.append(suffix);
    proof {
        reveal_strlit("-");
    }
    UiId::from_string(name)
}

} // verus!

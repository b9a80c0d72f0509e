//! Stable identifiers for UI elements.

use vstd::prelude::*;
use vstd::std_specs::cmp::PartialEqSpecImpl;
use vstd::string::StringExecFns;

verus! {

/// Name of a UI element, stable across frames.
#[derive(Debug)]
pub struct UiId {
    name: String,
}

impl View for UiId {
    type V = Seq<char>;

    closed spec fn view(&self) -> Seq<char> {
        self.name@
    }
}

impl UiId {
    /// An id with the given name.
    pub fn named(name: &str) -> (r: UiId)
        ensures
            r@ == name@,
    {
        UiId { name: String::from_str(name) }
    }

    /// An id that takes ownership of `name`.
    pub fn from_string(name: String) -> (r: UiId)
        ensures
            r@ == name@,
    {
        UiId { name }
    }

    /// The name as a string slice.
    pub fn as_str(&self) -> (r: &str)
        ensures
            r@ == self@,
    {
        self.name.as_str()
    }
}

impl Clone for UiId {
    fn clone(&self) -> (r: Self)
        ensures
            r@ == self@,
    {
        UiId { name: self.name.clone() }
    }
}

impl PartialEq for UiId {
    fn eq(&self, other: &Self) -> (r: bool) {
        self.name == other.name
    }
}

impl PartialEqSpecImpl for UiId {
    open spec fn obeys_eq_spec() -> bool {
        true
    }

    open spec fn eq_spec(&self, other: &UiId) -> bool {
        self@ == other@
    }
}

impl Eq for UiId {

}

} // verus!

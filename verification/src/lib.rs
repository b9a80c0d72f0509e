use vstd::prelude::*;

pub mod renderer;
pub mod scroll;
pub mod settings;
pub mod startup_timer;
pub mod strings;
pub mod ui;
pub mod ui_model;

verus! {

} // verus!

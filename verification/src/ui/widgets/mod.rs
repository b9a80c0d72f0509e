pub mod button;
pub mod divider;
pub mod scroll_view;
pub mod slider;
pub mod toggle;

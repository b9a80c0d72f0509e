pub mod context;
pub mod interaction;
pub mod registry;
pub mod response;
pub mod theme;
pub mod widgets;

pub mod geometry;
pub mod ids;

pub mod atlas_grid;
pub mod icon_atlas;
pub mod fps;
pub mod counters;
pub mod resources;
pub mod init;
pub mod frame;
pub mod text_engine;
pub mod prepare;
pub mod glyph_atlas;
pub mod gpu_profile;

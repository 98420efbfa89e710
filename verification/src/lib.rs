//! Width-aware text primitives for character terminals.

pub mod cell_cache;
pub mod cell_widths;
pub mod cells;
pub mod color;
pub mod control;
pub mod measure;
pub mod options;
pub mod render_box;
pub mod segment;
pub mod strings;
pub mod style;
pub mod text;
pub mod utils;

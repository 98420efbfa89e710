//! Terminal colours.

pub mod color;
pub mod palette;
pub mod terminal_theme;
pub mod triplet;

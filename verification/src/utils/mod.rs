//! Small helpers, and line wrapping.

pub mod iter;
pub mod pick;
pub mod ratio;
pub mod wrap;

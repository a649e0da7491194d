//! The character grid that widgets draw on, and the windows into it.

pub mod grapheme_cluster;
pub mod style;
pub mod surface;
pub mod window;

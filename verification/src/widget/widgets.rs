//! Widgets that show a line of text.

pub mod lineedit;
pub mod linelabel;

//! Widgets for text terminals.
//!
//! A widget says how much room it asks for and draws itself into the window
//! it is given. A layout sums up what its children ask for, shares the
//! extent of its own window among them, and hands each child a part of the
//! window that no other child can write to.

pub mod base;
pub mod input;
pub mod widget;

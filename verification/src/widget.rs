//! Widgets, the demands they state and the layouts that arrange them.

pub mod aggregation;
pub mod allocation;
pub mod composition;
pub mod demand;
pub mod layouts;
mod leveling;
pub mod linestorage;
pub mod widgets;

use vstd::prelude::*;
use crate::base::surface::{Grid, Surface};
use crate::base::window::{Window, same_outside};
use crate::widget::demand::Demand2D;

verus! {

/// What a widget is told about the circumstances in which it is drawn.
#[derive(Clone, Copy, PartialEq, Eq, Debug)]
pub struct RenderingHints {
    /// Whether the widget has the user's attention.
    pub active: bool,
}

impl Default for RenderingHints {
    fn default() -> (hints: RenderingHints)
        ensures
            hints == (RenderingHints { active: true }),
    {
        RenderingHints { active: true }
    }
}

impl RenderingHints {
    /// The same hints, but for a widget that has the user's attention or has
    /// it not.
    pub fn active(self, active: bool) -> (hints: RenderingHints)
        ensures
            hints == (RenderingHints { active: active }),
    {
        RenderingHints { active: active }
    }
}

/// Something that can be shown in a window: it says how much room it asks
/// for, and it draws itself into the window it is given.
pub trait Widget {
    /// The room that the widget asks for. A widget that does not say what
    /// it asks for may ask for anything.
    open spec fn demand(&self) -> Demand2D {
        arbitrary()
    }

    /// The grid after the widget has drawn itself into `window`. A widget
    /// that does not say what it draws may draw anything.
    open spec fn rendered(&self, grid: Grid, window: Window, hints: RenderingHints) -> Grid {
        arbitrary()
    }

    /// States the room that the widget asks for. Changes nothing, and may
    /// be called any number of times.
    fn space_demand(&self) -> (demand: Demand2D)
        ensures
            demand == self.demand(),
            demand.wf(),
    ;

    /// Draws the widget into `window`, and nowhere else.
    fn draw(&self, surface: &mut Surface, window: Window, hints: RenderingHints)
        requires
            old(surface).wf(),
            window.fits(old(surface).width as int, old(surface).height as int),
        ensures
            final(surface).wf(),
            final(surface).width == old(surface).width,
            final(surface).height == old(surface).height,
            final(surface)@ == self.rendered(old(surface)@, window, hints),
            same_outside(old(surface)@, final(surface)@, window),
    ;
}

} // verus!

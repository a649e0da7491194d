//! A label: one line of text that is shown as it is.

use vstd::prelude::*;
use crate::base::grapheme_cluster::{grapheme_clusters, graphemes, texts};
use crate::base::surface::{Grid, Surface};
use crate::base::window::{Window, with_clusters};
use crate::widget::demand::{Demand, Demand2D};
use crate::widget::{RenderingHints, Widget};

verus! {

/// A widget that shows one line of text.
pub struct LineLabel {
    pub text: String,
}

impl LineLabel {
    /// A label that shows `text`.
    pub fn new(text: &str) -> (label: LineLabel)
        ensures
            label.text@ == text@,
    {
        LineLabel { text: text.to_owned() }
    }

    /// Lets the label show `text` from now on.
    pub fn set(&mut self, text: &str)
        ensures
            final(self).text@ == text@,
    {
        self.text = text.to_owned();
    }
}

impl Widget for LineLabel {
    /// One row that is as wide as the text has grapheme clusters.
    open spec fn demand(&self) -> Demand2D {
        let count = grapheme_clusters(self.text@).len() as usize;
        Demand2D {
            width: Demand { min: count, max: Some(count) },
            height: Demand { min: 1, max: Some(1) },
        }
    }

    /// The grapheme clusters of the text in the first row of the window, in
    /// the window's style, as far as the row has room.
    open spec fn rendered(&self, grid: Grid, window: Window, hints: RenderingHints) -> Grid {
        if window.height > 0 {
            with_clusters(
                grid,
                window,
                0,
                0,
                grapheme_clusters(self.text@),
                window.default_style,
                grapheme_clusters(self.text@).len() as int,
            )
        } else {
            grid
        }
    }

    fn space_demand(&self) -> (demand: Demand2D) {
        let clusters = graphemes(self.text.as_str());
        proof {
            assert(texts(clusters@).len() == clusters@.len());
        }
        Demand2D { width: Demand::exact(clusters.len()), height: Demand::exact(1) }
    }

    fn draw(&self, surface: &mut Surface, window: Window, hints: RenderingHints) {
        if window.get_height() > 0 {
            let clusters = graphemes(self.text.as_str());
            proof {
                assert(texts(clusters@).len() == clusters@.len());
            }
            window.write(surface, 0, 0, &clusters, window.default_style);
        } else {
            proof {
                old(surface).lemma_view_has_size();
            }
        }
    }
}

} // verus!

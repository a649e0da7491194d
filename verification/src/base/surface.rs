//! The character grid: rows of cells, each of which shows one grapheme
//! cluster in one style.

use vstd::prelude::*;
use crate::base::grapheme_cluster::GraphemeCluster;
use crate::base::style::Style;

verus! {

/// One cell of the grid.
#[derive(PartialEq, Eq, Debug)]
pub struct Cell {
    pub cluster: GraphemeCluster,
    pub style: Style,
}

impl Clone for Cell {
    fn clone(&self) -> (copy: Cell)
        ensures
            copy@ == self@,
    {
        Cell { cluster: self.cluster.clone(), style: self.style }
    }
}

/// What a cell shows.
pub struct CellView {
    pub symbol: Seq<char>,
    pub style: Style,
}

impl View for Cell {
    type V = CellView;

    open spec fn view(&self) -> CellView {
        CellView { symbol: self.cluster@, style: self.style }
    }
}

/// What a grid shows: its rows from top to bottom, each from left to right.
pub type Grid = Seq<Seq<CellView>>;

/// The cell that shows a blank in the given style.
pub open spec fn blank(style: Style) -> CellView {
    CellView { symbol: seq![' '], style: style }
}

/// The grid has `height` rows of `width` cells each.
pub open spec fn has_size(grid: Grid, width: int, height: int) -> bool {
    &&& grid.len() == height
    &&& forall|y: int| 0 <= y < height ==> (#[trigger] grid[y]).len() == width
}

/// What a row of cells shows.
pub open spec fn row_view(row: Seq<Cell>) -> Seq<CellView> {
    Seq::new(row.len(), |x: int| row[x]@)
}

/// The symbols of the first `count` cells of a row, one after another.
pub open spec fn row_text(row: Seq<CellView>, count: int) -> Seq<char>
    decreases count,
{
    if count <= 0 {
        Seq::empty()
    } else {
        row_text(row, count - 1) + row[count - 1].symbol
    }
}

/// A grid of cells that widgets draw on.
#[derive(PartialEq, Eq, Debug)]
pub struct Surface {
    pub width: usize,
    pub height: usize,
    pub rows: Vec<Vec<Cell>>,
}

impl View for Surface {
    type V = Grid;

    open spec fn view(&self) -> Grid {
        Seq::new(self.rows@.len(), |y: int| row_view(self.rows@[y]@))
    }
}

impl Surface {
    /// The surface holds as many rows and columns as it says.
    pub open spec fn wf(self) -> bool {
        &&& self.rows@.len() == self.height
        &&& forall|y: int| 0 <= y < self.height ==> (#[trigger] self.rows@[y])@.len() == self.width
    }

    /// A well-formed surface shows a grid of its size.
    pub proof fn lemma_view_has_size(self)
        requires
            self.wf(),
        ensures
            has_size(self@, self.width as int, self.height as int),
    {
        assert forall|y: int| 0 <= y < self.height implies (#[trigger] self@[y]).len()
            == self.width by {
            assert(self.rows@[y]@.len() == self.width);
        }
    }

    /// A surface of blanks in the plain style.
    pub fn with_size(width: usize, height: usize) -> (surface: Surface)
        ensures
            surface.wf(),
            surface.width == width,
            surface.height == height,
            forall|x: int, y: int|
                0 <= x < width && 0 <= y < height ==> (#[trigger] surface@[y][x]) == blank(
                    Style::plain(),
                ),
    {
        let mut rows: Vec<Vec<Cell>> = Vec::new();
        while rows.len() < height
            invariant
                rows@.len() <= height,
                forall|y: int| 0 <= y < rows@.len() ==> (#[trigger] rows@[y])@.len() == width,
                forall|x: int, y: int|
                    0 <= x < width && 0 <= y < rows@.len() ==> (#[trigger] rows@[y]@[x])@ == blank(
                        Style::plain(),
                    ),
            decreases height - rows.len(),
        {
            let mut row: Vec<Cell> = Vec::new();
            while row.len() < width
                invariant
                    row@.len() <= width,
                    forall|x: int| 0 <= x < row@.len() ==> (#[trigger] row@[x])@ == blank(
                        Style::plain(),
                    ),
                decreases width - row.len(),
            {
                row.push(Cell { cluster: GraphemeCluster::space(), style: Style::default() });
            }
            rows.push(row);
        }
        Surface { width: width, height: height, rows: rows }
    }

    /// The number of columns.
    pub fn width(&self) -> (width: usize)
        ensures
            width == self.width,
    {
        self.width
    }

    /// The number of rows.
    pub fn height(&self) -> (height: usize)
        ensures
            height == self.height,
    {
        self.height
    }

    /// Replaces the cell in column `x` of row `y`.
    pub fn put(&mut self, x: usize, y: usize, cell: Cell)
        requires
            old(self).wf(),
            x < old(self).width,
            y < old(self).height,
        ensures
            final(self).wf(),
            final(self).width == old(self).width,
            final(self).height == old(self).height,
            final(self)@ == old(self)@.update(y as int, old(self)@[y as int].update(x as int, cell@)),
    {
        self.rows[y][x] = cell;
        proof {
            let before = old(self)@;
            let expected = before.update(y as int, before[y as int].update(x as int, cell@));
            assert(self@.len() == expected.len());
            assert forall|j: int| 0 <= j < self@.len() implies self@[j] == expected[j] by {
                if j == y {
                    assert(self@[j] =~= expected[j]);
                } else {
                    assert(self.rows@[j] == old(self).rows@[j]);
                }
            }
            assert(self@ =~= expected);
        }
    }

    /// The text that row `y` shows: the symbols of its cells from left to
    /// right. There is no text where there is no such row.
    pub fn row_text(&self, y: usize) -> (text: Option<String>)
        requires
            self.wf(),
        ensures
            y >= self.height ==> text is None,
            y < self.height ==> text is Some && text->Some_0@ == row_text(
                self@[y as int],
                self.width as int,
            ),
    {
        if y >= self.height {
            return None;
        }
        let mut text = String::new();
        let mut x: usize = 0;
        while x < self.width
            invariant
                self.wf(),
                y < self.height,
                x <= self.width,
                text@ == row_text(self@[y as int], x as int),
            decreases self.width - x,
        {
            text.append(self.rows[y][x].cluster.as_str());
            x += 1;
        }
        Some(text)
    }
}

} // verus!

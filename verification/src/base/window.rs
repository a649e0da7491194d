//! Windows: rectangular parts of a surface that are handed to widgets to
//! draw in. A window is split into two that do not overlap, and it cannot be
//! copied, so that no two widgets ever hold the same cells.

use vstd::prelude::*;
use crate::base::grapheme_cluster::{GraphemeCluster, texts};
use crate::base::style::{Style, StyleModifier};
use crate::base::surface::{Cell, CellView, Grid, Surface, blank, has_size};

verus! {

/// A rectangular part of a surface, with the style that `clear` and `fill`
/// give to its cells.
#[derive(PartialEq, Eq, Debug)]
pub struct Window {
    pub x: usize,
    pub y: usize,
    pub width: usize,
    pub height: usize,
    pub default_style: Style,
}

/// The grid in which every cell of `window` shows `cell`.
pub open spec fn filled(grid: Grid, window: Window, cell: CellView) -> Grid {
    Seq::new(
        grid.len(),
        |y: int|
            Seq::new(
                grid[y].len(),
                |x: int|
                    if window.covers(x, y) {
                        cell
                    } else {
                        grid[y][x]
                    },
            ),
    )
}

/// The grid in which one cell shows `cell`.
pub open spec fn with_cell(grid: Grid, x: int, y: int, cell: CellView) -> Grid {
    grid.update(y, grid[y].update(x, cell))
}

/// Two grids of the same size that differ at most within `window`.
pub open spec fn same_outside(before: Grid, after: Grid, window: Window) -> bool {
    &&& after.len() == before.len()
    &&& forall|y: int| 0 <= y < before.len() ==> (#[trigger] after[y]).len() == before[y].len()
    &&& forall|x: int, y: int|
        0 <= y < before.len() && 0 <= x < before[y].len() && !window.covers(x, y)
            ==> #[trigger] after[y][x] == before[y][x]
}

impl Window {
    /// Whether the cell in column `x` of row `y` belongs to the window.
    pub open spec fn covers(self, x: int, y: int) -> bool {
        self.x <= x < self.x + self.width && self.y <= y < self.y + self.height
    }

    /// Whether the window lies within a surface of the given size.
    pub open spec fn fits(self, width: int, height: int) -> bool {
        self.x + self.width <= width && self.y + self.height <= height
    }

    /// Whether the window lies within another.
    pub open spec fn within(self, outer: Window) -> bool {
        &&& outer.x <= self.x
        &&& self.x + self.width <= outer.x + outer.width
        &&& outer.y <= self.y
        &&& self.y + self.height <= outer.y + outer.height
    }

    /// The first `columns` columns of the window.
    pub open spec fn left_part(self, columns: int) -> Window {
        Window { width: columns as usize, ..self }
    }

    /// The window without its first `columns` columns.
    pub open spec fn right_part(self, columns: int) -> Window {
        Window { x: (self.x + columns) as usize, width: (self.width - columns) as usize, ..self }
    }

    /// The first `rows` rows of the window.
    pub open spec fn upper_part(self, rows: int) -> Window {
        Window { height: rows as usize, ..self }
    }

    /// The window without its first `rows` rows.
    pub open spec fn lower_part(self, rows: int) -> Window {
        Window { y: (self.y + rows) as usize, height: (self.height - rows) as usize, ..self }
    }

    /// The same window with another default style.
    pub open spec fn styled(self, style: Style) -> Window {
        Window { default_style: style, ..self }
    }

    /// The number of columns.
    pub fn get_width(&self) -> (width: usize)
        ensures
            width == self.width,
    {
        self.width
    }

    /// The number of rows.
    pub fn get_height(&self) -> (height: usize)
        ensures
            height == self.height,
    {
        self.height
    }

    /// Splits the window into its first `split_pos` columns and the rest.
    /// Hands the window back where it has fewer columns than that.
    pub fn split_h(self, split_pos: usize) -> (parts: Result<(Window, Window), Window>)
        requires
            self.x + self.width <= usize::MAX,
        ensures
            split_pos <= self.width ==> parts == Ok::<(Window, Window), Window>(
                (self.left_part(split_pos as int), self.right_part(split_pos as int)),
            ),
            split_pos > self.width ==> parts == Err::<(Window, Window), Window>(self),
    {
        if split_pos > self.width {
            return Err(self);
        }
        let left = Window {
            x: self.x,
            y: self.y,
            width: split_pos,
            height: self.height,
            default_style: self.default_style,
        };
        let right = Window {
            x: self.x + split_pos,
            y: self.y,
            width: self.width - split_pos,
            height: self.height,
            default_style: self.default_style,
        };
        Ok((left, right))
    }

    /// Splits the window into its first `split_pos` rows and the rest. Hands
    /// the window back where it has fewer rows than that.
    pub fn split_v(self, split_pos: usize) -> (parts: Result<(Window, Window), Window>)
        requires
            self.y + self.height <= usize::MAX,
        ensures
            split_pos <= self.height ==> parts == Ok::<(Window, Window), Window>(
                (self.upper_part(split_pos as int), self.lower_part(split_pos as int)),
            ),
            split_pos > self.height ==> parts == Err::<(Window, Window), Window>(self),
    {
        if split_pos > self.height {
            return Err(self);
        }
        let upper = Window {
            x: self.x,
            y: self.y,
            width: self.width,
            height: split_pos,
            default_style: self.default_style,
        };
        let lower = Window {
            x: self.x,
            y: self.y + split_pos,
            width: self.width,
            height: self.height - split_pos,
            default_style: self.default_style,
        };
        Ok((upper, lower))
    }

    /// Changes the style that `clear` and `fill` give to the cells.
    pub fn modify_default_style(&mut self, modifier: &StyleModifier)
        ensures
            *final(self) == old(self).styled(modifier.applied(old(self).default_style)),
    {
        self.default_style = modifier.apply(self.default_style);
    }

    /// Shows `cluster` in the style `style` in column `column` of row `row`
    /// of the window.
    pub fn put(
        &self,
        surface: &mut Surface,
        column: usize,
        row: usize,
        cluster: GraphemeCluster,
        style: Style,
    )
        requires
            old(surface).wf(),
            self.fits(old(surface).width as int, old(surface).height as int),
            column < self.width,
            row < self.height,
        ensures
            final(surface).wf(),
            final(surface).width == old(surface).width,
            final(surface).height == old(surface).height,
            final(surface)@ == with_cell(
                old(surface)@,
                self.x + column,
                self.y + row,
                CellView { symbol: cluster@, style: style },
            ),
    {
        surface.put(self.x + column, self.y + row, Cell { cluster: cluster, style: style });
    }

    /// Shows `cluster` in the default style in every cell of the window.
    pub fn fill(&self, surface: &mut Surface, cluster: GraphemeCluster)
        requires
            old(surface).wf(),
            self.fits(old(surface).width as int, old(surface).height as int),
        ensures
            final(surface).wf(),
            final(surface).width == old(surface).width,
            final(surface).height == old(surface).height,
            final(surface)@ == filled(
                old(surface)@,
                *self,
                CellView { symbol: cluster@, style: self.default_style },
            ),
    {
        let ghost before = surface@;
        let ghost cell = CellView { symbol: cluster@, style: self.default_style };
        proof {
            old(surface).lemma_view_has_size();
        }
        let mut row: usize = 0;
        while row < self.height
            invariant
                row <= self.height,
                surface.wf(),
                surface.width == old(surface).width,
                surface.height == old(surface).height,
                self.fits(surface.width as int, surface.height as int),
                before == old(surface)@,
                has_size(before, surface.width as int, surface.height as int),
                cell == (CellView { symbol: cluster@, style: self.default_style }),
                forall|x: int, y: int|
                    0 <= x < surface.width && 0 <= y < surface.height ==> #[trigger] surface@[y][x]
                        == if self.covers(x, y) && y < self.y + row {
                        cell
                    } else {
                        before[y][x]
                    },
            decreases self.height - row,
        {
            let mut column: usize = 0;
            while column < self.width
                invariant
                    row < self.height,
                    column <= self.width,
                    surface.wf(),
                    surface.width == old(surface).width,
                    surface.height == old(surface).height,
                    self.fits(surface.width as int, surface.height as int),
                    has_size(before, surface.width as int, surface.height as int),
                    cell == (CellView { symbol: cluster@, style: self.default_style }),
                    forall|x: int, y: int|
                        0 <= x < surface.width && 0 <= y < surface.height
                            ==> #[trigger] surface@[y][x] == if self.covers(x, y) && (y < self.y
                            + row || (y == self.y + row && x < self.x + column)) {
                            cell
                        } else {
                            before[y][x]
                        },
                decreases self.width - column,
            {
                let ghost shown = surface@;
                proof {
                    surface.lemma_view_has_size();
                }
                self.put(surface, column, row, cluster.clone(), self.default_style);
                proof {
                    assert forall|x: int, y: int|
                        0 <= x < surface.width && 0 <= y < surface.height implies (
                    #[trigger] surface@[y][x]) == if self.covers(x, y) && (y < self.y + row || (y
                        == self.y + row && x < self.x + column + 1)) {
                        cell
                    } else {
                        before[y][x]
                    } by {
                        assert(shown[y].len() == surface.width);
                        if y == self.y + row && x == self.x + column {
                        } else {
                            assert(surface@[y][x] == shown[y][x]);
                        }
                    }
                }
                column += 1;
            }
            row += 1;
        }
        proof {
            surface.lemma_view_has_size();
            let expected = filled(before, *self, cell);
            assert(surface@.len() == expected.len());
            assert forall|y: int| 0 <= y < surface@.len() implies surface@[y] == expected[y] by {
                assert(surface@[y].len() == expected[y].len());
                assert forall|x: int| 0 <= x < surface@[y].len() implies surface@[y][x]
                    == expected[y][x] by {}
                assert(surface@[y] =~= expected[y]);
            }
            assert(surface@ =~= expected);
        }
    }

    /// Shows a blank in the default style in every cell of the window.
    pub fn clear(&self, surface: &mut Surface)
        requires
            old(surface).wf(),
            self.fits(old(surface).width as int, old(surface).height as int),
        ensures
            final(surface).wf(),
            final(surface).width == old(surface).width,
            final(surface).height == old(surface).height,
            final(surface)@ == filled(old(surface)@, *self, blank(self.default_style)),
    {
        self.fill(surface, GraphemeCluster::space());
    }
}

impl Surface {
    /// The window that covers the whole surface, in the plain style.
    pub fn create_root_window(&self) -> (window: Window)
        ensures
            window == (Window {
                x: 0,
                y: 0,
                width: self.width,
                height: self.height,
                default_style: Style::plain(),
            }),
            window.fits(self.width as int, self.height as int),
    {
        Window {
            x: 0,
            y: 0,
            width: self.width,
            height: self.height,
            default_style: Style::default(),
        }
    }
}

/// The two parts into which a window is split from left to right do not
/// overlap, and together they are the window.
pub proof fn lemma_split_h_parts(window: Window, columns: int)
    requires
        0 <= columns <= window.width,
        window.x + window.width <= usize::MAX,
    ensures
        window.left_part(columns).within(window),
        window.right_part(columns).within(window),
        forall|x: int, y: int|
            !(#[trigger] window.left_part(columns).covers(x, y) && #[trigger] window.right_part(
                columns,
            ).covers(x, y)),
        forall|x: int, y: int| #[trigger]
            window.covers(x, y) <==> window.left_part(columns).covers(x, y) || window.right_part(
                columns,
            ).covers(x, y),
{
}

/// The two parts into which a window is split from top to bottom do not
/// overlap, and together they are the window.
pub proof fn lemma_split_v_parts(window: Window, rows: int)
    requires
        0 <= rows <= window.height,
        window.y + window.height <= usize::MAX,
    ensures
        window.upper_part(rows).within(window),
        window.lower_part(rows).within(window),
        forall|x: int, y: int|
            !(#[trigger] window.upper_part(rows).covers(x, y) && #[trigger] window.lower_part(
                rows,
            ).covers(x, y)),
        forall|x: int, y: int| #[trigger]
            window.covers(x, y) <==> window.upper_part(rows).covers(x, y) || window.lower_part(
                rows,
            ).covers(x, y),
{
}

/// Filling a window changes nothing outside it.
pub proof fn lemma_filled_same_outside(grid: Grid, window: Window, cell: CellView)
    ensures
        same_outside(grid, filled(grid, window, cell), window),
{
}

/// Writing a cell of a window changes nothing outside it.
pub proof fn lemma_with_cell_same_outside(grid: Grid, window: Window, x: int, y: int, cell: CellView)
    requires
        window.covers(x, y),
        0 <= y < grid.len(),
        0 <= x < grid[y].len(),
    ensures
        same_outside(grid, with_cell(grid, x, y, cell), window),
{
}

/// What stays the same outside a window stays the same outside every window
/// around it, also over several steps.
pub proof fn lemma_same_outside_chain(
    first: Grid,
    second: Grid,
    third: Grid,
    inner: Window,
    outer: Window,
)
    requires
        same_outside(first, second, outer),
        same_outside(second, third, inner),
        inner.within(outer),
    ensures
        same_outside(first, third, outer),
{
    assert forall|x: int, y: int|
        0 <= y < first.len() && 0 <= x < first[y].len() && !outer.covers(x, y)
            implies #[trigger] third[y][x] == first[y][x] by {
        assert(second[y].len() == first[y].len());
        assert(!inner.covers(x, y));
        assert(third[y][x] == second[y][x]);
        assert(second[y][x] == first[y][x]);
    }
    assert forall|y: int| 0 <= y < first.len() implies (#[trigger] third[y]).len()
        == first[y].len() by {
        assert(second[y].len() == first[y].len());
    }
}

/// The grid after the first `count` of the given clusters are shown in row
/// `row` of the window, one cell each, the first of them in column `column`.
/// Clusters for which the row has no room are left out.
pub open spec fn with_clusters(
    grid: Grid,
    window: Window,
    column: int,
    row: int,
    clusters: Seq<Seq<char>>,
    style: Style,
    count: int,
) -> Grid
    decreases count,
{
    if count <= 0 {
        grid
    } else {
        let before = with_clusters(grid, window, column, row, clusters, style, count - 1);
        if column + count - 1 < window.width {
            with_cell(
                before,
                window.x + column + count - 1,
                window.y + row,
                CellView { symbol: clusters[count - 1], style: style },
            )
        } else {
            before
        }
    }
}

/// Clusters behind the end of the row change nothing.
pub proof fn lemma_with_clusters_beyond(
    grid: Grid,
    window: Window,
    column: int,
    row: int,
    clusters: Seq<Seq<char>>,
    style: Style,
    fewer: int,
    count: int,
)
    requires
        0 <= fewer <= count,
        column + fewer >= window.width,
    ensures
        with_clusters(grid, window, column, row, clusters, style, count) == with_clusters(
            grid,
            window,
            column,
            row,
            clusters,
            style,
            fewer,
        ),
    decreases count,
{
    if fewer < count {
        lemma_with_clusters_beyond(grid, window, column, row, clusters, style, fewer, count - 1);
    }
}

impl Window {
    /// Shows the given clusters in row `row` of the window, one cell each,
    /// the first of them in column `column`, as far as the row has room.
    pub fn write(
        &self,
        surface: &mut Surface,
        column: usize,
        row: usize,
        clusters: &Vec<String>,
        style: Style,
    )
        requires
            old(surface).wf(),
            self.fits(old(surface).width as int, old(surface).height as int),
            row < self.height,
        ensures
            final(surface).wf(),
            final(surface).width == old(surface).width,
            final(surface).height == old(surface).height,
            final(surface)@ == with_clusters(
                old(surface)@,
                *self,
                column as int,
                row as int,
                texts(clusters@),
                style,
                clusters@.len() as int,
            ),
            same_outside(old(surface)@, final(surface)@, *self),
    {
        let ghost before = surface@;
        let room = if column < self.width {
            self.width - column
        } else {
            0
        };
        let mut i: usize = 0;
        proof {
            old(surface).lemma_view_has_size();
        }
        while i < clusters.len() && i < room
            invariant
                i <= clusters.len(),
                i <= room,
                room == if column < self.width {
                    self.width - column
                } else {
                    0
                },
                row < self.height,
                surface.wf(),
                surface.width == old(surface).width,
                surface.height == old(surface).height,
                self.fits(surface.width as int, surface.height as int),
                before == old(surface)@,
                surface@ == with_clusters(
                    before,
                    *self,
                    column as int,
                    row as int,
                    texts(clusters@),
                    style,
                    i as int,
                ),
                same_outside(before, surface@, *self),
            decreases clusters.len() - i,
        {
            let ghost shown = surface@;
            proof {
                surface.lemma_view_has_size();
            }
            self.put(surface, column + i, row, GraphemeCluster { text: clusters[i].clone() }, style);
            proof {
                assert(texts(clusters@)[i as int] == clusters@[i as int]@);
                lemma_with_cell_same_outside(
                    shown,
                    *self,
                    self.x + column + i,
                    self.y + row,
                    CellView { symbol: clusters@[i as int]@, style: style },
                );
                lemma_same_outside_chain(before, shown, surface@, *self, *self);
            }
            i += 1;
        }
        proof {
            if i < clusters@.len() {
                lemma_with_clusters_beyond(
                    before,
                    *self,
                    column as int,
                    row as int,
                    texts(clusters@),
                    style,
                    i as int,
                    clusters@.len() as int,
                );
            }
        }
    }
}

} // verus!

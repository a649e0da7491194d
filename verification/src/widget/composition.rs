//! What it means to draw children one after another into a window: which
//! part of the window each child gets, where the separators go, and what the
//! grid shows in the end.

use vstd::prelude::*;
use crate::base::surface::{CellView, Grid, blank};
use crate::base::window::{Window, filled};
use crate::widget::{RenderingHints, Widget};
use crate::widget::allocation::{
    is_linear_layout, lemma_layout_offsets_fit, lemma_total_prefix, total,
};
use crate::widget::demand::{Demand, Demand2D};
use crate::widget::layouts::{Axis, SeparatingStyle};

verus! {

/// The extent of a window along an axis.
pub open spec fn length_along(window: Window, axis: Axis) -> int {
    match axis {
        Axis::Horizontal => window.width as int,
        Axis::Vertical => window.height as int,
    }
}

/// The first `extent` columns or rows of a window.
pub open spec fn head_along(window: Window, axis: Axis, extent: int) -> Window {
    match axis {
        Axis::Horizontal => window.left_part(extent),
        Axis::Vertical => window.upper_part(extent),
    }
}

/// A window without its first `extent` columns or rows.
pub open spec fn tail_along(window: Window, axis: Axis, extent: int) -> Window {
    match axis {
        Axis::Horizontal => window.right_part(extent),
        Axis::Vertical => window.lower_part(extent),
    }
}

/// The part of a demand that concerns an axis.
pub open spec fn demand_along(demand: Demand2D, axis: Axis) -> Demand {
    match axis {
        Axis::Horizontal => demand.width,
        Axis::Vertical => demand.height,
    }
}

/// What the children of a layout ask for along its axis.
pub open spec fn demands_along(widgets: Seq<(&dyn Widget, RenderingHints)>, axis: Axis) -> Seq<
    Demand,
> {
    Seq::new(widgets.len(), |i: int| demand_along(widgets[i].0.demand(), axis))
}

/// The window of child `i`: the head of what is left, in the modified style
/// where the style alternates and the child is an odd one.
pub open spec fn child_window(
    rest: Window,
    axis: Axis,
    extent: int,
    style: SeparatingStyle,
    i: int,
) -> Window {
    let head = head_along(rest, axis, extent);
    match style {
        SeparatingStyle::AlternatingStyle(modifier) => if i % 2 == 1 {
            head.styled(modifier.applied(head.default_style))
        } else {
            head
        },
        _ => head,
    }
}

/// Whether a separator is drawn behind child `i`: only between two children,
/// and only while room is left.
pub open spec fn draws_separator(
    style: SeparatingStyle,
    count: int,
    i: int,
    rest: Window,
    axis: Axis,
) -> bool {
    style is Draw && i + 1 < count && length_along(rest, axis) > 0
}

/// What is left of `window` when child `i` is about to be drawn: the window
/// without the children before it and the separators between them.
pub open spec fn rest_before(
    window: Window,
    extents: Seq<usize>,
    style: SeparatingStyle,
    axis: Axis,
    i: int,
) -> Window
    decreases i,
{
    if i <= 0 {
        window
    } else {
        let behind = tail_along(
            rest_before(window, extents, style, axis, i - 1),
            axis,
            extents[i - 1] as int,
        );
        if draws_separator(style, extents.len() as int, i - 1, behind, axis) {
            tail_along(behind, axis, 1)
        } else {
            behind
        }
    }
}

/// The window into which child `i` is drawn.
pub open spec fn region_of(
    window: Window,
    extents: Seq<usize>,
    style: SeparatingStyle,
    axis: Axis,
    i: int,
) -> Window {
    child_window(rest_before(window, extents, style, axis, i), axis, extents[i] as int, style, i)
}

/// The line between child `i` and the next, where a separator is drawn
/// there.
pub open spec fn line_behind(
    window: Window,
    extents: Seq<usize>,
    style: SeparatingStyle,
    axis: Axis,
    i: int,
) -> Option<Window> {
    let behind = tail_along(rest_before(window, extents, style, axis, i), axis, extents[i] as int);
    if draws_separator(style, extents.len() as int, i, behind, axis) {
        Some(head_along(behind, axis, 1))
    } else {
        None
    }
}

/// The grid after the children from `from` on are drawn into `window`:
/// the region of each child is cleared, the child draws itself, and the line
/// behind it is filled with the separator where one is due.
pub open spec fn composed(
    grid: Grid,
    window: Window,
    widgets: Seq<(&dyn Widget, RenderingHints)>,
    extents: Seq<usize>,
    style: SeparatingStyle,
    axis: Axis,
    from: int,
) -> Grid
    decreases widgets.len() - from,
{
    if from < 0 || from >= widgets.len() {
        grid
    } else {
        let region = region_of(window, extents, style, axis, from);
        let cleared = filled(grid, region, blank(region.default_style));
        let drawn = widgets[from].0.rendered(cleared, region, widgets[from].1);
        let separated = match (line_behind(window, extents, style, axis, from), style) {
            (Some(line), SeparatingStyle::Draw(cluster)) => filled(
                drawn,
                line,
                CellView { symbol: cluster@, style: line.default_style },
            ),
            _ => drawn,
        };
        composed(separated, window, widgets, extents, style, axis, from + 1)
    }
}

// ----------------------------------------------------------------------------
// Where the children are drawn
// ----------------------------------------------------------------------------

/// Whether the extents can be split off a window one after another: each is
/// found within what the children before it and the separators leave.
pub open spec fn can_place(
    window: Window,
    extents: Seq<usize>,
    style: SeparatingStyle,
    axis: Axis,
) -> bool {
    forall|i: int|
        0 <= i < extents.len() ==> (#[trigger] extents[i]) <= length_along(
            rest_before(window, extents, style, axis, i),
            axis,
        )
}

/// Whether two windows share a cell.
pub open spec fn overlap(a: Window, b: Window) -> bool {
    exists|x: int, y: int| a.covers(x, y) && b.covers(x, y)
}

/// The two parts into which a window is split along an axis lie within the
/// window, and the second is shorter by the extent of the first.
proof fn lemma_parts_are_within(window: Window, axis: Axis, extent: int)
    requires
        0 <= extent <= length_along(window, axis),
        window.x + window.width <= usize::MAX,
        window.y + window.height <= usize::MAX,
    ensures
        head_along(window, axis, extent).within(window),
        tail_along(window, axis, extent).within(window),
        length_along(tail_along(window, axis, extent), axis) == length_along(window, axis)
            - extent,
{
}

/// The two parts into which a window is split along an axis share no cell.
proof fn lemma_parts_are_apart(window: Window, axis: Axis, extent: int)
    requires
        0 <= extent <= length_along(window, axis),
        window.x + window.width <= usize::MAX,
        window.y + window.height <= usize::MAX,
    ensures
        !overlap(head_along(window, axis, extent), tail_along(window, axis, extent)),
{
}

/// A window within another shares no cell with what the other shares no cell
/// with.
proof fn lemma_within_is_apart(inner: Window, outer: Window, other: Window)
    requires
        inner.within(outer),
        !overlap(outer, other),
    ensures
        !overlap(inner, other),
        !overlap(other, inner),
{
    assert forall|x: int, y: int| !(inner.covers(x, y) && other.covers(x, y)) by {
        if inner.covers(x, y) && other.covers(x, y) {
            assert(outer.covers(x, y) && other.covers(x, y));
        }
    }
}

/// Being within a window carries over to the windows around it.
proof fn lemma_within_chain(inner: Window, middle: Window, outer: Window)
    requires
        inner.within(middle),
        middle.within(outer),
    ensures
        inner.within(outer),
{
}

/// What is left of the window behind a child lies within what was left
/// before it, behind the child.
proof fn lemma_rest_step(
    window: Window,
    extents: Seq<usize>,
    style: SeparatingStyle,
    axis: Axis,
    j: int,
)
    requires
        0 <= j < extents.len(),
        extents[j] <= length_along(rest_before(window, extents, style, axis, j), axis),
        rest_before(window, extents, style, axis, j).within(window),
        window.x + window.width <= usize::MAX,
        window.y + window.height <= usize::MAX,
    ensures
        rest_before(window, extents, style, axis, j + 1).within(
            tail_along(rest_before(window, extents, style, axis, j), axis, extents[j] as int),
        ),
        rest_before(window, extents, style, axis, j + 1).within(
            rest_before(window, extents, style, axis, j),
        ),
        rest_before(window, extents, style, axis, j + 1).within(window),
{
    let before = rest_before(window, extents, style, axis, j);
    lemma_parts_are_within(before, axis, extents[j] as int);
    let behind = tail_along(before, axis, extents[j] as int);
    if draws_separator(style, extents.len() as int, j, behind, axis) {
        lemma_parts_are_within(behind, axis, 1);
    }
}

/// What is left of the window shrinks with every child: while the extents can
/// be placed, it lies within what was left behind every earlier child.
proof fn lemma_rest_shrinks(
    window: Window,
    extents: Seq<usize>,
    style: SeparatingStyle,
    axis: Axis,
    i: int,
    j: int,
)
    requires
        can_place(window, extents, style, axis),
        window.x + window.width <= usize::MAX,
        window.y + window.height <= usize::MAX,
        0 <= i <= j <= extents.len(),
    ensures
        rest_before(window, extents, style, axis, i).within(window),
        rest_before(window, extents, style, axis, j).within(window),
        rest_before(window, extents, style, axis, j).within(
            rest_before(window, extents, style, axis, i),
        ),
        i < j ==> rest_before(window, extents, style, axis, j).within(
            tail_along(rest_before(window, extents, style, axis, i), axis, extents[i] as int),
        ),
    decreases j,
{
    if j > 0 {
        if i < j {
            lemma_rest_shrinks(window, extents, style, axis, i, j - 1);
            assert(extents[j - 1] <= length_along(
                rest_before(window, extents, style, axis, j - 1),
                axis,
            ));
            lemma_rest_step(window, extents, style, axis, j - 1);
            if i < j - 1 {
                lemma_within_chain(
                    rest_before(window, extents, style, axis, j),
                    rest_before(window, extents, style, axis, j - 1),
                    tail_along(
                        rest_before(window, extents, style, axis, i),
                        axis,
                        extents[i] as int,
                    ),
                );
            }
            lemma_within_chain(
                rest_before(window, extents, style, axis, j),
                rest_before(window, extents, style, axis, j - 1),
                rest_before(window, extents, style, axis, i),
            );
        } else {
            lemma_rest_shrinks(window, extents, style, axis, 0, j - 1);
            assert(extents[j - 1] <= length_along(
                rest_before(window, extents, style, axis, j - 1),
                axis,
            ));
            lemma_rest_step(window, extents, style, axis, j - 1);
        }
    }
}

/// The extents of a linear layout can be placed in the window whose extent
/// they share: no split is asked for that the window does not allow.
pub proof fn lemma_layout_can_be_placed(
    window: Window,
    demands: Seq<Demand>,
    extents: Seq<usize>,
    style: SeparatingStyle,
    axis: Axis,
)
    requires
        is_linear_layout(length_along(window, axis), style.extent(), demands, extents),
        window.x + window.width <= usize::MAX,
        window.y + window.height <= usize::MAX,
    ensures
        can_place(window, extents, style, axis),
{
    assert forall|i: int| 0 <= i < extents.len() implies (#[trigger] extents[i]) <= length_along(
        rest_before(window, extents, style, axis, i),
        axis,
    ) by {
        lemma_rest_is_long(window, demands, extents, style, axis, i);
    }
}

/// What is left of the window when child `i` is about to be drawn is at least
/// what the children and the separators before it leave of the extent, and
/// enough for the child.
proof fn lemma_rest_is_long(
    window: Window,
    demands: Seq<Demand>,
    extents: Seq<usize>,
    style: SeparatingStyle,
    axis: Axis,
    i: int,
)
    requires
        is_linear_layout(length_along(window, axis), style.extent(), demands, extents),
        window.x + window.width <= usize::MAX,
        window.y + window.height <= usize::MAX,
        0 <= i <= extents.len(),
    ensures
        rest_before(window, extents, style, axis, i).within(window),
        length_along(rest_before(window, extents, style, axis, i), axis) >= length_along(
            window,
            axis,
        ) - total(extents.take(i)) - style.extent() * i,
        i < extents.len() ==> extents[i] <= length_along(
            rest_before(window, extents, style, axis, i),
            axis,
        ),
    decreases i,
{
    let available = length_along(window, axis);
    let separator = style.extent();
    let rest = rest_before(window, extents, style, axis, i);
    if i == 0 {
        assert(extents.take(0) =~= Seq::<usize>::empty());
    } else {
        lemma_rest_is_long(window, demands, extents, style, axis, i - 1);
        let before = rest_before(window, extents, style, axis, i - 1);
        lemma_total_prefix(extents, i - 1);
        lemma_parts_are_within(before, axis, extents[i - 1] as int);
        let behind = tail_along(before, axis, extents[i - 1] as int);
        if draws_separator(style, extents.len() as int, i - 1, behind, axis) {
            lemma_parts_are_within(behind, axis, 1);
        }
        assert(separator * i == separator * (i - 1) + separator) by (nonlinear_arith);
    }
    if i < extents.len() {
        lemma_total_prefix(extents, i);
        if extents[i] > 0 {
            lemma_layout_offsets_fit(available, separator, demands, extents, i);
        }
    }
}

/// A child of a layout is drawn within the window of the layout, and so is
/// the separator behind it.
pub proof fn lemma_regions_are_within(
    window: Window,
    extents: Seq<usize>,
    style: SeparatingStyle,
    axis: Axis,
    i: int,
)
    requires
        can_place(window, extents, style, axis),
        window.x + window.width <= usize::MAX,
        window.y + window.height <= usize::MAX,
        0 <= i < extents.len(),
    ensures
        region_of(window, extents, style, axis, i).within(window),
        line_behind(window, extents, style, axis, i) matches Some(line) ==> line.within(window),
{
    let rest = rest_before(window, extents, style, axis, i);
    lemma_rest_shrinks(window, extents, style, axis, 0, i);
    assert(extents[i] <= length_along(rest, axis));
    lemma_parts_are_within(rest, axis, extents[i] as int);
    let behind = tail_along(rest, axis, extents[i] as int);
    if draws_separator(style, extents.len() as int, i, behind, axis) {
        lemma_parts_are_within(behind, axis, 1);
    }
}

/// No two children of a layout are drawn into the same cell.
pub proof fn lemma_regions_are_apart(
    window: Window,
    extents: Seq<usize>,
    style: SeparatingStyle,
    axis: Axis,
    i: int,
    j: int,
)
    requires
        can_place(window, extents, style, axis),
        window.x + window.width <= usize::MAX,
        window.y + window.height <= usize::MAX,
        0 <= i < j < extents.len(),
    ensures
        !overlap(
            region_of(window, extents, style, axis, i),
            region_of(window, extents, style, axis, j),
        ),
{
    let rest_i = rest_before(window, extents, style, axis, i);
    let rest_j = rest_before(window, extents, style, axis, j);
    let head_i = head_along(rest_i, axis, extents[i] as int);
    let head_j = head_along(rest_j, axis, extents[j] as int);
    let behind_i = tail_along(rest_i, axis, extents[i] as int);
    lemma_rest_shrinks(window, extents, style, axis, i, j);
    assert(extents[i] <= length_along(rest_i, axis));
    assert(extents[j] <= length_along(rest_j, axis));
    lemma_parts_are_within(rest_j, axis, extents[j] as int);
    lemma_within_chain(head_j, rest_j, behind_i);
    lemma_parts_are_apart(rest_i, axis, extents[i] as int);
    lemma_within_is_apart(head_j, behind_i, head_i);
    let region_i = region_of(window, extents, style, axis, i);
    let region_j = region_of(window, extents, style, axis, j);
    assert forall|x: int, y: int| !(region_i.covers(x, y) && region_j.covers(x, y)) by {
        if region_i.covers(x, y) && region_j.covers(x, y) {
            assert(head_i.covers(x, y) && head_j.covers(x, y));
        }
    }
}

/// No separator of a layout is drawn into the cell of a child.
pub proof fn lemma_lines_are_apart(
    window: Window,
    extents: Seq<usize>,
    style: SeparatingStyle,
    axis: Axis,
    i: int,
    j: int,
)
    requires
        can_place(window, extents, style, axis),
        window.x + window.width <= usize::MAX,
        window.y + window.height <= usize::MAX,
        0 <= i < extents.len(),
        0 <= j < extents.len(),
    ensures
        line_behind(window, extents, style, axis, i) matches Some(line) ==> !overlap(
            region_of(window, extents, style, axis, j),
            line,
        ),
{
    if let Some(line) = line_behind(window, extents, style, axis, i) {
        let rest_i = rest_before(window, extents, style, axis, i);
        let rest_j = rest_before(window, extents, style, axis, j);
        let head_j = head_along(rest_j, axis, extents[j] as int);
        let behind_i = tail_along(rest_i, axis, extents[i] as int);
        let behind_j = tail_along(rest_j, axis, extents[j] as int);
        let region_j = region_of(window, extents, style, axis, j);
        assert(extents[i] <= length_along(rest_i, axis));
        assert(extents[j] <= length_along(rest_j, axis));
        lemma_rest_shrinks(window, extents, style, axis, 0, i);
        lemma_rest_shrinks(window, extents, style, axis, 0, j);
        lemma_parts_are_within(rest_i, axis, extents[i] as int);
        lemma_parts_are_within(rest_j, axis, extents[j] as int);
        lemma_parts_are_within(behind_i, axis, 1);
        if j <= i {
            // The line lies behind child `j`.
            if j < i {
                lemma_rest_shrinks(window, extents, style, axis, j, i);
                lemma_within_chain(behind_i, rest_i, behind_j);
            }
            lemma_within_chain(line, behind_i, behind_j);
            lemma_parts_are_apart(rest_j, axis, extents[j] as int);
            lemma_within_is_apart(line, behind_j, head_j);
        } else {
            // Child `j` lies behind the line.
            let rest_next = rest_before(window, extents, style, axis, i + 1);
            assert(rest_next == tail_along(behind_i, axis, 1));
            lemma_rest_shrinks(window, extents, style, axis, i + 1, j);
            lemma_within_chain(head_j, rest_j, rest_next);
            lemma_parts_are_apart(behind_i, axis, 1);
            lemma_within_is_apart(head_j, rest_next, line);
        }
        assert forall|x: int, y: int| !(region_j.covers(x, y) && line.covers(x, y)) by {
            if region_j.covers(x, y) && line.covers(x, y) {
                assert(head_j.covers(x, y) && line.covers(x, y));
            }
        }
    }
}

} // verus!

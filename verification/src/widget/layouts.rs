//! Layouts that arrange widgets one after another along an axis.

use vstd::prelude::*;
use vstd::pervasive::unreached;
use crate::base::grapheme_cluster::GraphemeCluster;
use crate::base::style::StyleModifier;
use crate::base::surface::{CellView, Surface, blank};
use crate::base::window::{
    Window, lemma_filled_same_outside, lemma_same_outside_chain, same_outside,
};
use crate::widget::{RenderingHints, Widget};
use crate::widget::aggregation::{
    across, demand_abreast, demand_in_line, lemma_min_sum_monotone, max_peak, max_sum,
    min_peak, min_sum, separator_cells, sums_fit, widget_demands,
};
use crate::widget::composition::{
    composed, demand_along, demands_along, head_along, length_along, line_behind, region_of,
    rest_before, tail_along,
};
use crate::widget::allocation::{
    all_wf, is_linear_layout, is_reached, is_starved, is_starved_share, lemma_layout_is_named,
    lemma_layout_offsets_fit, lemma_prefix_cost_monotone, lemma_total_prefix,
    lemma_total_update, linear_layout, prefix_cost, spacing, starved_extent, total,
};
use crate::widget::demand::{Demand, Demand2D};
use crate::widget::leveling::{
    comes_before, filled_to, hand_out_cells, holds, is_open, lemma_all_capped_is_fair,
    lemma_leftover_is_fair, lemma_raise_cost_level, lemma_raise_cost_shift, lemma_relevel,
    level_extent, lists_open, plan_level, raise_to_level, sort_by_extent,
};

verus! {

/// The sum of a sequence of zeros is zero.
proof fn lemma_total_of_zeros(extents: Seq<usize>)
    requires
        forall|i: int| 0 <= i < extents.len() ==> extents[i] == 0,
    ensures
        total(extents) == 0,
    decreases extents.len(),
{
    if extents.len() > 0 {
        lemma_total_of_zeros(extents.drop_last());
    }
}

/// Where the extent runs out while the minima are served, what has been handed
/// out is the starved share.
proof fn lemma_stop_is_starved(
    available: int,
    separator: int,
    demands: Seq<Demand>,
    extents: Seq<usize>,
    i: int,
)
    requires
        0 <= separator,
        0 <= i < demands.len(),
        extents.len() == demands.len(),
        is_reached(available, separator, demands, i),
        forall|j: int| 0 <= j < i ==> (#[trigger] extents[j]) == demands[j].min,
        forall|j: int| i < j < demands.len() ==> (#[trigger] extents[j]) == 0,
        extents[i] == starved_extent(available, separator, demands, i),
        available - prefix_cost(demands, separator, i) - extents[i] <= if i == demands.len() - 1 {
            0
        } else {
            separator
        },
    ensures
        is_starved(available, separator, demands),
        is_starved_share(available, separator, demands, extents),
{
    let n = demands.len() as int;
    assert(prefix_cost(demands, separator, i + 1) == prefix_cost(demands, separator, i)
        + demands[i].min + separator);
    assert(prefix_cost(demands, separator, n) == prefix_cost(demands, separator, n - 1)
        + demands[n - 1].min + separator);
    if i < n - 1 {
        lemma_prefix_cost_monotone(demands, separator, i + 1, n - 1);
    }
    assert forall|j: int| 0 <= j < demands.len() implies (#[trigger] extents[j]) == starved_extent(
        available,
        separator,
        demands,
        j,
    ) by {
        if j < i {
            assert(prefix_cost(demands, separator, j + 1) == prefix_cost(demands, separator, j)
                + demands[j].min + separator);
            lemma_prefix_cost_monotone(demands, separator, j + 1, i);
            lemma_prefix_cost_monotone(demands, separator, j, j + 1);
        } else if j > i {
            lemma_prefix_cost_monotone(demands, separator, i + 1, j);
        }
    }
}

/// Shares `available_space` cells among children that lie one after another
/// and are `separator_width` cells apart.
///
/// Where the space does not exceed what the minima and the separators need,
/// the children are served in order: each gets its minimum or what is left,
/// and nothing once the space is used up. Otherwise every child gets its
/// minimum, and the surplus goes to the children that admit more: the lowest
/// are raised first, until all that can still grow are level or the surplus
/// is spent; cells that cannot be shared evenly go, one each, to the earliest
/// of them.
pub fn layout_linearly(available_space: usize, separator_width: usize, demands: &[Demand]) -> (
    assigned_spaces: Vec<usize>
)
    requires
        all_wf(demands@),
    ensures
        is_linear_layout(
            available_space as int,
            separator_width as int,
            demands@,
            assigned_spaces@,
        ),
        assigned_spaces@ == linear_layout(
            available_space as int,
            separator_width as int,
            demands@,
        ),
{
    let ghost available = available_space as int;
    let ghost separator = separator_width as int;
    let n = demands.len();
    let mut assigned_spaces: Vec<usize> = Vec::new();
    while assigned_spaces.len() < n
        invariant
            assigned_spaces.len() <= n,
            forall|j: int| 0 <= j < assigned_spaces.len() ==> assigned_spaces@[j] == 0,
        decreases n - assigned_spaces.len(),
    {
        assigned_spaces.push(0);
    }
    let mut unfinished: Vec<usize> = Vec::new();
    let mut left = available_space;
    if n == 0 {
        proof {
            lemma_total_of_zeros(assigned_spaces@);
            lemma_layout_is_named(available, separator, demands@, assigned_spaces@);
        }
        return assigned_spaces;
    }
    proof {
        lemma_total_of_zeros(assigned_spaces@);
    }
    // Serve the minima in order.
    let mut i: usize = 0;
    loop
        invariant_except_break
            i < n,
            is_reached(available, separator, demands@, i as int),
            left == available - prefix_cost(demands@, separator, i as int),
            total(assigned_spaces@) + separator * i == prefix_cost(demands@, separator, i as int),
            forall|j: int| 0 <= j < i ==> (#[trigger] assigned_spaces@[j]) == demands@[j].min,
            forall|j: int| i <= j < n ==> (#[trigger] assigned_spaces@[j]) == 0,
            lists_open(unfinished@, demands@.take(i as int), 0),
        invariant
            n == demands.len(),
            assigned_spaces.len() == n,
            all_wf(demands@),
            available == available_space,
            separator == separator_width,
        ensures
            !is_starved(available, separator, demands@),
            assigned_spaces.len() == n,
            forall|j: int| 0 <= j < n ==> (#[trigger] assigned_spaces@[j]) == demands@[j].min,
            total(assigned_spaces@) + spacing(separator, n as int) + left == available,
            lists_open(unfinished@, demands@, 0),
        decreases n - i,
    {
        let demand = demands[i];
        let assigned_space = if left < demand.min {
            left
        } else {
            demand.min
        };
        let ghost unassigned = assigned_spaces@;
        let ghost listed = unfinished@;
        assigned_spaces[i] = assigned_space;
        left = left - assigned_space;
        let is_unfinished = match demand.max {
            Some(max_demand) => max_demand != demand.min,
            None => true,
        };
        if is_unfinished {
            unfinished.push(i);
        }
        proof {
            lemma_total_update(unassigned, i as int, assigned_space);
            assert(demand.wf());
            assert(prefix_cost(demands@, separator, i + 1) == prefix_cost(
                demands@,
                separator,
                i as int,
            ) + demand.min + separator);
            assert(separator * (i + 1) == separator * i + separator) by (nonlinear_arith);
            // The list of flexible children now covers child `i` too.
            let shorter = demands@.take(i as int);
            let longer = demands@.take(i + 1);
            assert forall|p: int| 0 <= p < unfinished@.len() implies (#[trigger] unfinished@[p])
                < longer.len() && is_open(longer[unfinished@[p] as int], 0) by {
                if p < listed.len() {
                    assert(listed[p] < shorter.len());
                    assert(is_open(shorter[listed[p] as int], 0));
                }
            }
            assert forall|p: int, q: int|
                0 <= p < unfinished@.len() && 0 <= q < unfinished@.len() && p
                    != q implies unfinished@[p] != unfinished@[q] by {
                if p < listed.len() {
                    assert(listed[p] < shorter.len());
                }
                if q < listed.len() {
                    assert(listed[q] < shorter.len());
                }
            }
            assert forall|j: int| 0 <= j < longer.len() && is_open(
                #[trigger] longer[j],
                0,
            ) implies holds(unfinished@, j) by {
                if j < i {
                    assert(is_open(shorter[j], 0));
                    assert(holds(listed, j));
                    let p = choose|p: int| 0 <= p < listed.len() && listed[p] == j;
                    assert(unfinished@[p] == j);
                } else {
                    assert(unfinished@[listed.len() as int] == j);
                }
            }
        }
        if i == n - 1 {
            if left == 0 {
                proof {
                    lemma_stop_is_starved(
                        available,
                        separator,
                        demands@,
                        assigned_spaces@,
                        i as int,
                    );
                    lemma_layout_is_named(available, separator, demands@, assigned_spaces@);
                }
                return assigned_spaces;
            }
            proof {
                assert(demands@.take(i + 1) =~= demands@);
                if n > 1 {
                    assert(separator * (n - 1) == separator * i);
                } else {
                    assert(separator * i == 0) by (nonlinear_arith)
                        requires
                            i == 0,
                    ;
                }
            }
            break ;
        }
        // Every child but the last is followed by a separator.
        if left <= separator_width {
            proof {
                lemma_stop_is_starved(available, separator, demands@, assigned_spaces@, i as int);
                lemma_layout_is_named(available, separator, demands@, assigned_spaces@);
            }
            return assigned_spaces;
        }
        left = left - separator_width;
        i += 1;
    }
    // Share the surplus: raise the lowest children that admit more, again and
    // again, until all of them are level or the surplus is spent.
    let ghost mut level: int = 0;
    proof {
        assert forall|j: int| 0 <= j < n implies (#[trigger] assigned_spaces@[j]) == level_extent(
            demands@[j],
            0,
        ) by {
            assert(demands@[j].wf());
        }
    }
    loop
        invariant
            n == demands.len(),
            n > 0,
            all_wf(demands@),
            available == available_space,
            separator == separator_width,
            !is_starved(available, separator, demands@),
            filled_to(demands@, assigned_spaces@, level),
            lists_open(unfinished@, demands@, level),
            total(assigned_spaces@) + spacing(separator, n as int) + left == available,
        decreases left,
    {
        if unfinished.len() == 0 {
            proof {
                lemma_all_capped_is_fair(demands@, assigned_spaces@, unfinished@, level);
                lemma_layout_is_named(available, separator, demands@, assigned_spaces@);
            }
            return assigned_spaces;
        }
        let sorted = sort_by_extent(&unfinished, &assigned_spaces);
        proof {
            assert forall|p: int| 0 <= p < sorted@.len() implies is_open(
                demands@[(#[trigger] sorted@[p]) as int],
                level,
            ) by {
                assert(holds(sorted@, sorted@[p] as int));
                let q = choose|q: int|
                    0 <= q < unfinished@.len() && unfinished@[q] == sorted@[p] as int;
                assert(is_open(demands@[unfinished@[q] as int], level));
            }
            lemma_relevel(demands@, assigned_spaces@, sorted@, level);
        }
        let min_space = assigned_spaces[sorted[0]];
        let (planned_space, num_equalized) = plan_level(&sorted, &assigned_spaces, left);
        if min_space == planned_space {
            // The lowest children are level and too many for what is left:
            // the first of them get one cell each.
            let ghost before = assigned_spaces@;
            proof {
                assert forall|p: int| 0 <= p < num_equalized implies before[(
                #[trigger] sorted@[p]) as int] == before[sorted@[0] as int] by {
                    if p > 0 {
                        assert(comes_before(before, sorted@[0], sorted@[p]));
                    }
                }
                lemma_raise_cost_level(
                    sorted@,
                    before,
                    num_equalized as int,
                    planned_space as int,
                );
                lemma_raise_cost_shift(
                    sorted@,
                    before,
                    num_equalized as int,
                    planned_space as int,
                    1,
                );
            }
            hand_out_cells(&sorted, &mut assigned_spaces, left);
            proof {
                lemma_leftover_is_fair(
                    demands@,
                    before,
                    assigned_spaces@,
                    sorted@,
                    left as int,
                    num_equalized as int,
                );
                lemma_layout_is_named(available, separator, demands@, assigned_spaces@);
            }
            return assigned_spaces;
        }
        let (still_unfinished, rest) = raise_to_level(
            &sorted,
            demands,
            &mut assigned_spaces,
            planned_space,
            left,
            Ghost(num_equalized as int),
        );
        unfinished = still_unfinished;
        left = rest;
        proof {
            level = planned_space as int;
        }
    }
}

// ----------------------------------------------------------------------------
// Drawing children one after another
// ----------------------------------------------------------------------------

/// The axis along which a layout arranges its children.
#[derive(Clone, Copy, PartialEq, Eq, Debug)]
pub enum Axis {
    Horizontal,
    Vertical,
}

/// What a layout puts between its children.
#[derive(PartialEq, Eq, Debug)]
pub enum SeparatingStyle {
    /// Nothing.
    NoSeparator,
    /// Nothing, but every other child is drawn in a modified style.
    AlternatingStyle(StyleModifier),
    /// One line of cells that show the given grapheme cluster.
    Draw(GraphemeCluster),
}

impl Clone for SeparatingStyle {
    fn clone(&self) -> (copy: SeparatingStyle)
        ensures
            match (*self, copy) {
                (SeparatingStyle::NoSeparator, SeparatingStyle::NoSeparator) => true,
                (
                    SeparatingStyle::AlternatingStyle(modifier),
                    SeparatingStyle::AlternatingStyle(copied),
                ) => copied == modifier,
                (SeparatingStyle::Draw(cluster), SeparatingStyle::Draw(copied)) => copied@
                    == cluster@,
                _ => false,
            },
    {
        match self {
            SeparatingStyle::NoSeparator => SeparatingStyle::NoSeparator,
            SeparatingStyle::AlternatingStyle(modifier) => SeparatingStyle::AlternatingStyle(
                *modifier,
            ),
            SeparatingStyle::Draw(cluster) => SeparatingStyle::Draw(cluster.clone()),
        }
    }
}

impl SeparatingStyle {
    /// The room that one separator takes along the axis of the layout.
    pub open spec fn extent(self) -> int {
        match self {
            SeparatingStyle::Draw(_) => 1,
            _ => 0,
        }
    }

    /// The columns that one separator takes in a horizontal layout.
    pub fn width(&self) -> (width: usize)
        ensures
            width == self.extent(),
    {
        match self {
            SeparatingStyle::NoSeparator => 0,
            SeparatingStyle::AlternatingStyle(_) => 0,
            SeparatingStyle::Draw(_) => 1,
        }
    }

    /// The rows that one separator takes in a vertical layout.
    pub fn height(&self) -> (height: usize)
        ensures
            height == self.extent(),
    {
        match self {
            SeparatingStyle::NoSeparator => 0,
            SeparatingStyle::AlternatingStyle(_) => 0,
            SeparatingStyle::Draw(_) => 1,
        }
    }
}

/// Splits a window at `extent` along an axis.
fn split_along(window: Window, axis: Axis, extent: usize) -> (parts: (Window, Window))
    requires
        extent <= length_along(window, axis),
        window.x + window.width <= usize::MAX,
        window.y + window.height <= usize::MAX,
    ensures
        parts.0 == head_along(window, axis, extent as int),
        parts.1 == tail_along(window, axis, extent as int),
{
    let split = match axis {
        Axis::Horizontal => window.split_h(extent),
        Axis::Vertical => window.split_v(extent),
    };
    match split {
        Ok(parts) => parts,
        Err(_) => unreached(),
    }
}

/// The extent of a window along an axis.
fn window_length(window: &Window, axis: Axis) -> (length: usize)
    ensures
        length == length_along(*window, axis),
{
    match axis {
        Axis::Horizontal => window.get_width(),
        Axis::Vertical => window.get_height(),
    }
}

/// Asks every child what it demands along the axis.
fn collect_demands(widgets: &[(&dyn Widget, RenderingHints)], axis: Axis) -> (demands: Vec<Demand>)
    ensures
        demands@ == demands_along(widgets@, axis),
        all_wf(demands@),
{
    let mut demands: Vec<Demand> = Vec::new();
    let mut i: usize = 0;
    while i < widgets.len()
        invariant
            i <= widgets.len(),
            demands@.len() == i,
            forall|j: int|
                0 <= j < i ==> (#[trigger] demands@[j]) == demand_along(
                    widgets@[j].0.demand(),
                    axis,
                ) && demands@[j].wf(),
        decreases widgets.len() - i,
    {
        let demand = widgets[i].0.space_demand();
        demands.push(
            match axis {
                Axis::Horizontal => demand.width,
                Axis::Vertical => demand.height,
            },
        );
        i += 1;
    }
    proof {
        assert(demands@ =~= demands_along(widgets@, axis));
    }
    demands
}

/// Draws children one after another into a window.
///
/// The extent of the window along the axis is shared among the children as
/// `layout_linearly` says. Then, child by child, the window of the child is
/// split off from what is left, given the modified style if the style
/// alternates and the child is an odd one, and cleared; the child draws
/// itself; and where a separator is to be drawn, another child follows and
/// room is left, one line is split off and filled with the separator.
pub fn draw_linearly(
    surface: &mut Surface,
    window: Window,
    widgets: &[(&dyn Widget, RenderingHints)],
    separating_style: &SeparatingStyle,
    axis: Axis,
)
    requires
        old(surface).wf(),
        window.fits(old(surface).width as int, old(surface).height as int),
    ensures
        final(surface).wf(),
        final(surface).width == old(surface).width,
        final(surface).height == old(surface).height,
        final(surface)@ == composed(
            old(surface)@,
            window,
            widgets@,
            linear_layout(
                length_along(window, axis),
                separating_style.extent(),
                demands_along(widgets@, axis),
            ),
            *separating_style,
            axis,
            0,
        ),
        same_outside(old(surface)@, final(surface)@, window),
{
    let separator_length = match axis {
        Axis::Horizontal => separating_style.width(),
        Axis::Vertical => separating_style.height(),
    };
    let demands = collect_demands(widgets, axis);
    let available = window_length(&window, axis);
    let assigned_spaces = layout_linearly(available, separator_length, demands.as_slice());
    let ghost start = surface@;
    let ghost extents = assigned_spaces@;
    let ghost whole = window;
    let mut rest_window = window;
    let mut i: usize = 0;
    proof {
        old(surface).lemma_view_has_size();
        assert(extents.take(0) =~= Seq::<usize>::empty());
    }
    while i < widgets.len()
        invariant
            i <= widgets.len(),
            surface.wf(),
            surface.width == old(surface).width,
            surface.height == old(surface).height,
            start == old(surface)@,
            extents == assigned_spaces@,
            extents.len() == widgets@.len(),
            whole.fits(surface.width as int, surface.height as int),
            separator_length == separating_style.extent(),
            available == length_along(whole, axis),
            is_linear_layout(
                available as int,
                separator_length as int,
                demands_along(widgets@, axis),
                extents,
            ),
            rest_window == rest_before(whole, extents, *separating_style, axis, i as int),
            rest_window.within(whole),
            length_along(rest_window, axis) >= available - total(extents.take(i as int))
                - separator_length * i,
            same_outside(start, surface@, whole),
            composed(surface@, whole, widgets@, extents, *separating_style, axis, i as int)
                == composed(start, whole, widgets@, extents, *separating_style, axis, 0),
        decreases widgets.len() - i,
    {
        let pos = assigned_spaces[i];
        proof {
            lemma_total_prefix(extents, i as int);
            if pos > 0 {
                lemma_layout_offsets_fit(
                    available as int,
                    separator_length as int,
                    demands_along(widgets@, axis),
                    extents,
                    i as int,
                );
            }
            assert(separator_length * (i + 1) == separator_length * i + separator_length)
                by (nonlinear_arith);
        }
        let ghost shown = surface@;
        let (mut child, behind) = split_along(rest_window, axis, pos);
        rest_window = behind;
        match separating_style {
            SeparatingStyle::AlternatingStyle(modifier) => {
                if i % 2 == 1 {
                    child.modify_default_style(modifier);
                }
            },
            _ => {},
        }
        let ghost child_region = child;
        assert(child_region == region_of(whole, extents, *separating_style, axis, i as int));
        child.clear(surface);
        proof {
            lemma_filled_same_outside(shown, child_region, blank(child_region.default_style));
            lemma_same_outside_chain(start, shown, surface@, child_region, whole);
        }
        let ghost cleared = surface@;
        widgets[i].0.draw(surface, child, widgets[i].1);
        proof {
            lemma_same_outside_chain(start, cleared, surface@, child_region, whole);
        }
        let ghost drawn = surface@;
        match separating_style {
            SeparatingStyle::Draw(cluster) => {
                if i + 1 < widgets.len() && window_length(&rest_window, axis) > 0 {
                    let (line, behind_line) = split_along(rest_window, axis, separator_length);
                    rest_window = behind_line;
                    line.fill(surface, cluster.clone());
                    proof {
                        lemma_filled_same_outside(
                            drawn,
                            line,
                            CellView { symbol: cluster@, style: line.default_style },
                        );
                        lemma_same_outside_chain(start, drawn, surface@, line, whole);
                        assert(line_behind(whole, extents, *separating_style, axis, i as int)
                            == Some(line));
                    }
                }
            },
            _ => {},
        }
        i += 1;
    }
    proof {
        lemma_layout_is_named(
            available as int,
            separator_length as int,
            demands_along(widgets@, axis),
            extents,
        );
    }
}

// ----------------------------------------------------------------------------
// What a layout demands
// ----------------------------------------------------------------------------

/// What a layout asks for: along its axis the sum of what its children ask
/// for, with one cell more between each two of them where separators are
/// drawn; across its axis the most that any child asks for. There is no
/// answer where the sums do not fit the machine's integers.
pub fn try_demand_linearly(
    widgets: &[&dyn Widget],
    separating_style: &SeparatingStyle,
    axis: Axis,
) -> (demands: Option<(Demand, Demand)>)
    ensures
        demands is Some <==> sums_fit(
            widget_demands(widgets@, axis),
            separator_cells(*separating_style, widgets@.len() as int),
        ),
        demands matches Some(found) ==> {
            &&& found.0 == demand_in_line(
                widget_demands(widgets@, axis),
                separator_cells(*separating_style, widgets@.len() as int),
            )
            &&& found.1 == demand_abreast(widget_demands(widgets@, across(axis)))
            &&& found.0.wf()
            &&& found.1.wf()
        },
{
    let ghost along = widget_demands(widgets@, axis);
    let ghost abreast = widget_demands(widgets@, across(axis));
    let ghost extra = separator_cells(*separating_style, widgets@.len() as int);
    let mut total_along = Demand::exact(0);
    let mut total_across = Demand::exact(0);
    let mut n_elements: usize = 0;
    while n_elements < widgets.len()
        invariant
            n_elements <= widgets.len(),
            along == widget_demands(widgets@, axis),
            abreast == widget_demands(widgets@, across(axis)),
            extra == separator_cells(*separating_style, widgets@.len() as int),
            forall|count: int|
                0 <= count <= n_elements ==> ((#[trigger] max_sum(along, count)) matches Some(sum)
                    ==> sum <= usize::MAX),
            total_along.wf(),
            total_across.wf(),
            total_along.min == min_sum(along, n_elements as int),
            match (total_along.max, max_sum(along, n_elements as int)) {
                (Some(max), Some(sum)) => max == sum,
                (None, None) => true,
                _ => false,
            },
            total_across.min == min_peak(abreast, n_elements as int),
            match (total_across.max, max_peak(abreast, n_elements as int)) {
                (Some(max), Some(peak)) => max == peak,
                (None, None) => true,
                _ => false,
            },
        decreases widgets.len() - n_elements,
    {
        let demand2d = widgets[n_elements].space_demand();
        let (in_line, side) = match axis {
            Axis::Horizontal => (demand2d.width, demand2d.height),
            Axis::Vertical => (demand2d.height, demand2d.width),
        };
        proof {
            assert(in_line == along[n_elements as int]);
            assert(side == abreast[n_elements as int]);
            lemma_min_sum_monotone(along, n_elements + 1, along.len() as int);
        }
        match total_along.checked_add(in_line) {
            Some(sum) => {
                total_along = sum;
            },
            None => {
                proof {
                    if min_sum(along, n_elements + 1) <= usize::MAX {
                        assert(max_sum(along, n_elements + 1) matches Some(sum) && sum
                            > usize::MAX);
                    }
                }
                return None;
            },
        }
        total_across = total_across.max(side);
        n_elements += 1;
    }
    match separating_style {
        SeparatingStyle::Draw(_) => {
            if n_elements > 0 {
                match total_along.checked_add(Demand::exact(n_elements - 1)) {
                    Some(sum) => {
                        total_along = sum;
                    },
                    None => {
                        return None;
                    },
                }
            }
        },
        _ => {},
    }
    Some((total_along, total_across))
}

/// What a layout asks for: along its axis the sum of what its children ask
/// for, with one cell more between each two of them where separators are
/// drawn; across its axis the most that any child asks for.
pub fn demand_linearly(widgets: &[&dyn Widget], separating_style: &SeparatingStyle, axis: Axis) -> (
    demands: (Demand, Demand)
)
    requires
        sums_fit(
            widget_demands(widgets@, axis),
            separator_cells(*separating_style, widgets@.len() as int),
        ),
    ensures
        demands.0 == demand_in_line(
            widget_demands(widgets@, axis),
            separator_cells(*separating_style, widgets@.len() as int),
        ),
        demands.1 == demand_abreast(widget_demands(widgets@, across(axis))),
        demands.0.wf(),
        demands.1.wf(),
{
    match try_demand_linearly(widgets, separating_style, axis) {
        Some(demands) => demands,
        None => unreached(),
    }
}

/// A layout that arranges widgets from left to right.
pub struct HorizontalLayout {
    pub separating_style: SeparatingStyle,
}

impl HorizontalLayout {
    /// A horizontal layout with the given separators.
    pub fn new(separating_style: SeparatingStyle) -> (layout: HorizontalLayout)
        ensures
            layout.separating_style == separating_style,
    {
        HorizontalLayout { separating_style: separating_style }
    }

    /// What the layout asks for when it holds the given widgets: the sum of
    /// their widths, with the separators between them, and the largest of
    /// their heights.
    pub fn space_demand(&self, widgets: &[&dyn Widget]) -> (demand: Demand2D)
        requires
            sums_fit(
                widget_demands(widgets@, Axis::Horizontal),
                separator_cells(self.separating_style, widgets@.len() as int),
            ),
        ensures
            demand.width == demand_in_line(
                widget_demands(widgets@, Axis::Horizontal),
                separator_cells(self.separating_style, widgets@.len() as int),
            ),
            demand.height == demand_abreast(widget_demands(widgets@, Axis::Vertical)),
            demand.wf(),
    {
        let (total_x, total_y) = demand_linearly(widgets, &self.separating_style, Axis::Horizontal);
        Demand2D { width: total_x, height: total_y }
    }

    /// What the layout asks for when it holds the given widgets, unless the
    /// sums do not fit the machine's integers.
    pub fn try_space_demand(&self, widgets: &[&dyn Widget]) -> (demand: Option<Demand2D>)
        ensures
            demand is Some <==> sums_fit(
                widget_demands(widgets@, Axis::Horizontal),
                separator_cells(self.separating_style, widgets@.len() as int),
            ),
            demand matches Some(found) ==> {
                &&& found.width == demand_in_line(
                    widget_demands(widgets@, Axis::Horizontal),
                    separator_cells(self.separating_style, widgets@.len() as int),
                )
                &&& found.height == demand_abreast(widget_demands(widgets@, Axis::Vertical))
                &&& found.wf()
            },
    {
        match try_demand_linearly(widgets, &self.separating_style, Axis::Horizontal) {
            Some((total_x, total_y)) => Some(Demand2D { width: total_x, height: total_y }),
            None => None,
        }
    }

    /// Draws the given widgets from left to right into `window`, each as wide
    /// as `layout_linearly` says.
    pub fn draw(
        &self,
        surface: &mut Surface,
        window: Window,
        widgets: &[(&dyn Widget, RenderingHints)],
    )
        requires
            old(surface).wf(),
            window.fits(old(surface).width as int, old(surface).height as int),
        ensures
            final(surface).wf(),
            final(surface).width == old(surface).width,
            final(surface).height == old(surface).height,
            final(surface)@ == composed(
                old(surface)@,
                window,
                widgets@,
                linear_layout(
                    window.width as int,
                    self.separating_style.extent(),
                    demands_along(widgets@, Axis::Horizontal),
                ),
                self.separating_style,
                Axis::Horizontal,
                0,
            ),
            same_outside(old(surface)@, final(surface)@, window),
    {
        draw_linearly(surface, window, widgets, &self.separating_style, Axis::Horizontal);
    }
}

/// A layout that arranges widgets from top to bottom.
pub struct VerticalLayout {
    pub separating_style: SeparatingStyle,
}

impl VerticalLayout {
    /// A vertical layout with the given separators.
    pub fn new(separating_style: SeparatingStyle) -> (layout: VerticalLayout)
        ensures
            layout.separating_style == separating_style,
    {
        VerticalLayout { separating_style: separating_style }
    }

    /// What the layout asks for when it holds the given widgets: the largest
    /// of their widths, and the sum of their heights with the separators
    /// between them.
    pub fn space_demand(&self, widgets: &[&dyn Widget]) -> (demand: Demand2D)
        requires
            sums_fit(
                widget_demands(widgets@, Axis::Vertical),
                separator_cells(self.separating_style, widgets@.len() as int),
            ),
        ensures
            demand.width == demand_abreast(widget_demands(widgets@, Axis::Horizontal)),
            demand.height == demand_in_line(
                widget_demands(widgets@, Axis::Vertical),
                separator_cells(self.separating_style, widgets@.len() as int),
            ),
            demand.wf(),
    {
        let (total_y, total_x) = demand_linearly(widgets, &self.separating_style, Axis::Vertical);
        Demand2D { width: total_x, height: total_y }
    }

    /// What the layout asks for when it holds the given widgets, unless the
    /// sums do not fit the machine's integers.
    pub fn try_space_demand(&self, widgets: &[&dyn Widget]) -> (demand: Option<Demand2D>)
        ensures
            demand is Some <==> sums_fit(
                widget_demands(widgets@, Axis::Vertical),
                separator_cells(self.separating_style, widgets@.len() as int),
            ),
            demand matches Some(found) ==> {
                &&& found.width == demand_abreast(widget_demands(widgets@, Axis::Horizontal))
                &&& found.height == demand_in_line(
                    widget_demands(widgets@, Axis::Vertical),
                    separator_cells(self.separating_style, widgets@.len() as int),
                )
                &&& found.wf()
            },
    {
        match try_demand_linearly(widgets, &self.separating_style, Axis::Vertical) {
            Some((total_y, total_x)) => Some(Demand2D { width: total_x, height: total_y }),
            None => None,
        }
    }

    /// Draws the given widgets from top to bottom into `window`, each as high
    /// as `layout_linearly` says.
    pub fn draw(
        &self,
        surface: &mut Surface,
        window: Window,
        widgets: &[(&dyn Widget, RenderingHints)],
    )
        requires
            old(surface).wf(),
            window.fits(old(surface).width as int, old(surface).height as int),
        ensures
            final(surface).wf(),
            final(surface).width == old(surface).width,
            final(surface).height == old(surface).height,
            final(surface)@ == composed(
                old(surface)@,
                window,
                widgets@,
                linear_layout(
                    window.height as int,
                    self.separating_style.extent(),
                    demands_along(widgets@, Axis::Vertical),
                ),
                self.separating_style,
                Axis::Vertical,
                0,
            ),
            same_outside(old(surface)@, final(surface)@, window),
    {
        draw_linearly(surface, window, widgets, &self.separating_style, Axis::Vertical);
    }
}

} // verus!

//! What a layout asks for when it holds given children: sums along its
//! axis, maxima across it.

use vstd::prelude::*;
use crate::widget::Widget;
use crate::widget::composition::demand_along;
use crate::widget::demand::Demand;
use crate::widget::layouts::{Axis, SeparatingStyle};

verus! {

/// The other axis.
pub open spec fn across(axis: Axis) -> Axis {
    match axis {
        Axis::Horizontal => Axis::Vertical,
        Axis::Vertical => Axis::Horizontal,
    }
}

/// What widgets ask for along an axis.
pub open spec fn widget_demands(widgets: Seq<&dyn Widget>, axis: Axis) -> Seq<Demand> {
    Seq::new(widgets.len(), |i: int| demand_along(widgets[i].demand(), axis))
}

/// The sum of the minima of the first `count` demands.
pub open spec fn min_sum(demands: Seq<Demand>, count: int) -> int
    decreases count,
{
    if count <= 0 {
        0
    } else {
        min_sum(demands, count - 1) + demands[count - 1].min
    }
}

/// The sum of the maxima of the first `count` demands: unbounded as soon as
/// one of them is.
pub open spec fn max_sum(demands: Seq<Demand>, count: int) -> Option<int>
    decreases count,
{
    if count <= 0 {
        Some(0)
    } else {
        match (max_sum(demands, count - 1), demands[count - 1].max) {
            (Some(sum), Some(max)) => Some(sum + max),
            _ => None,
        }
    }
}

/// The largest of the minima of the first `count` demands.
pub open spec fn min_peak(demands: Seq<Demand>, count: int) -> int
    decreases count,
{
    if count <= 0 {
        0
    } else {
        let before = min_peak(demands, count - 1);
        if before >= demands[count - 1].min {
            before
        } else {
            demands[count - 1].min as int
        }
    }
}

/// The largest of the maxima of the first `count` demands: unbounded as soon
/// as one of them is.
pub open spec fn max_peak(demands: Seq<Demand>, count: int) -> Option<int>
    decreases count,
{
    if count <= 0 {
        Some(0)
    } else {
        match (max_peak(demands, count - 1), demands[count - 1].max) {
            (Some(before), Some(max)) => Some(
                if before >= max {
                    before
                } else {
                    max as int
                },
            ),
            _ => None,
        }
    }
}

/// The cells that `count` children lose to the lines drawn between them.
pub open spec fn separator_cells(style: SeparatingStyle, count: int) -> int {
    if style is Draw && count > 0 {
        count - 1
    } else {
        0
    }
}

/// Whether the sums that a layout forms of the demands of its children stay
/// within the machine's integers.
pub open spec fn sums_fit(demands: Seq<Demand>, extra: int) -> bool {
    &&& min_sum(demands, demands.len() as int) + extra <= usize::MAX
    &&& forall|count: int|
        0 <= count <= demands.len() ==> ((#[trigger] max_sum(demands, count)) matches Some(sum)
            ==> sum <= usize::MAX)
    &&& max_sum(demands, demands.len() as int) matches Some(sum) ==> sum + extra <= usize::MAX
}

/// What children that follow one another ask for together along their axis:
/// the sum of what each asks for, and the separators between them.
pub open spec fn demand_in_line(demands: Seq<Demand>, extra: int) -> Demand {
    Demand {
        min: (min_sum(demands, demands.len() as int) + extra) as usize,
        max: match max_sum(demands, demands.len() as int) {
            Some(sum) => Some((sum + extra) as usize),
            None => None,
        },
    }
}

/// What children that lie side by side ask for together across their axis:
/// the most that any of them asks for.
pub open spec fn demand_abreast(demands: Seq<Demand>) -> Demand {
    Demand {
        min: min_peak(demands, demands.len() as int) as usize,
        max: match max_peak(demands, demands.len() as int) {
            Some(peak) => Some(peak as usize),
            None => None,
        },
    }
}

/// The sum of minima grows with the number of demands.
pub proof fn lemma_min_sum_monotone(demands: Seq<Demand>, fewer: int, count: int)
    requires
        0 <= fewer <= count,
    ensures
        0 <= min_sum(demands, fewer) <= min_sum(demands, count),
    decreases count,
{
    if count > 0 {
        if fewer < count {
            lemma_min_sum_monotone(demands, fewer, count - 1);
        } else {
            lemma_min_sum_monotone(demands, fewer - 1, count - 1);
        }
    }
}

} // verus!

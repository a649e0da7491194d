//! What it means to share an extent among demands that lie one after another.
//!
//! Two situations are told apart. Where the extent does not exceed what the
//! minima and the separators between them need, the children are served in
//! order until the extent runs out. Otherwise every child gets its minimum and
//! the surplus is shared fairly among the children that admit more.

use vstd::prelude::*;
use crate::widget::demand::Demand;

verus! {

/// The sum of a sequence of extents.
pub open spec fn total(extents: Seq<usize>) -> int
    decreases extents.len(),
{
    if extents.len() == 0 {
        0
    } else {
        total(extents.drop_last()) + extents.last()
    }
}

/// What the first `count` children and the separator after each of them need
/// at the least.
pub open spec fn prefix_cost(demands: Seq<Demand>, separator: int, count: int) -> int
    decreases count,
{
    if count <= 0 {
        0
    } else {
        prefix_cost(demands, separator, count - 1) + demands[count - 1].min + separator
    }
}

/// What all children need at the least, with a separator between each two.
pub open spec fn min_total(demands: Seq<Demand>, separator: int) -> int {
    if demands.len() == 0 {
        0
    } else {
        prefix_cost(demands, separator, demands.len() as int) - separator
    }
}

/// The room that `count` children lose to the separators between them.
pub open spec fn spacing(separator: int, count: int) -> int {
    if count <= 1 {
        0
    } else {
        separator * (count - 1)
    }
}

/// Whether the available extent leaves nothing to share once the minima are
/// served.
pub open spec fn is_starved(available: int, separator: int, demands: Seq<Demand>) -> bool {
    demands.len() > 0 && available <= min_total(demands, separator)
}

/// Whether child `i` is still served when the extent is handed out in order:
/// the first child always is, a later one only if its predecessors and their
/// separators leave something.
pub open spec fn is_reached(available: int, separator: int, demands: Seq<Demand>, i: int) -> bool {
    i == 0 || prefix_cost(demands, separator, i) < available
}

/// What child `i` gets from a starved extent: its minimum or what is left,
/// whichever is less, and nothing once the extent is used up.
pub open spec fn starved_extent(
    available: int,
    separator: int,
    demands: Seq<Demand>,
    i: int,
) -> int {
    if is_reached(available, separator, demands, i) {
        let left = available - prefix_cost(demands, separator, i);
        if left < demands[i].min {
            left
        } else {
            demands[i].min as int
        }
    } else {
        0
    }
}

/// How many children are served when the extent is handed out in order.
pub open spec fn placed(available: int, separator: int, demands: Seq<Demand>, upto: int) -> int
    decreases upto,
{
    if upto <= 0 {
        0
    } else {
        placed(available, separator, demands, upto - 1) + if is_reached(
            available,
            separator,
            demands,
            upto - 1,
        ) {
            1int
        } else {
            0int
        }
    }
}

/// Every child is within its demand.
pub open spec fn respects_bounds(demands: Seq<Demand>, extents: Seq<usize>) -> bool {
    forall|i: int| 0 <= i < demands.len() ==> (#[trigger] demands[i]).admits(extents[i] as int)
}

/// Some child could still take more than it has.
pub open spec fn has_room(demands: Seq<Demand>, extents: Seq<usize>) -> bool {
    exists|i: int| 0 <= i < demands.len() && (#[trigger] demands[i]).admits_more_than(extents[i] as int)
}

/// No child that got more than its minimum is more than one cell ahead of a
/// child that could still take more.
pub open spec fn is_even(demands: Seq<Demand>, extents: Seq<usize>) -> bool {
    forall|i: int, j: int|
        0 <= i < demands.len() && 0 <= j < demands.len() && (#[trigger] extents[j])
            > demands[j].min && demands[i].admits_more_than((#[trigger] extents[i]) as int)
            ==> extents[j] <= extents[i] + 1
}

/// A child that got more than its minimum is not ahead of any earlier child
/// that could still take more: cells that cannot be shared evenly go to the
/// earliest children.
pub open spec fn favors_earlier(demands: Seq<Demand>, extents: Seq<usize>) -> bool {
    forall|i: int, j: int|
        0 <= i < j < demands.len() && (#[trigger] extents[j]) > demands[j].min
            && demands[i].admits_more_than((#[trigger] extents[i]) as int) ==> extents[j]
            <= extents[i]
}

/// The fair share of an extent that exceeds the minima: every child is within
/// its demand, nothing is left over while a child could take more, and the
/// surplus is spread as evenly as whole cells allow, earlier children first.
pub open spec fn is_fair_share(
    available: int,
    separator: int,
    demands: Seq<Demand>,
    extents: Seq<usize>,
) -> bool {
    &&& extents.len() == demands.len()
    &&& respects_bounds(demands, extents)
    &&& total(extents) + spacing(separator, demands.len() as int) <= available
    &&& has_room(demands, extents) ==> total(extents) + spacing(separator, demands.len() as int)
        == available
    &&& is_even(demands, extents)
    &&& favors_earlier(demands, extents)
}

/// The extents handed out in order from a starved extent.
pub open spec fn is_starved_share(
    available: int,
    separator: int,
    demands: Seq<Demand>,
    extents: Seq<usize>,
) -> bool {
    &&& extents.len() == demands.len()
    &&& forall|i: int|
        0 <= i < demands.len() ==> (#[trigger] extents[i]) == starved_extent(
            available,
            separator,
            demands,
            i,
        )
}

/// The extents that a linear layout assigns to its children.
pub open spec fn is_linear_layout(
    available: int,
    separator: int,
    demands: Seq<Demand>,
    extents: Seq<usize>,
) -> bool {
    if is_starved(available, separator, demands) {
        is_starved_share(available, separator, demands, extents)
    } else {
        is_fair_share(available, separator, demands, extents)
    }
}

/// All demands of a sequence are well formed.
pub open spec fn all_wf(demands: Seq<Demand>) -> bool {
    forall|i: int| 0 <= i < demands.len() ==> (#[trigger] demands[i]).wf()
}

/// The layout of `demands` within `available` cells: the one sequence of
/// extents that `is_linear_layout` admits.
pub open spec fn linear_layout(available: int, separator: int, demands: Seq<Demand>) -> Seq<usize> {
    choose|extents: Seq<usize>| is_linear_layout(available, separator, demands, extents)
}

// ----------------------------------------------------------------------------
// Sums
// ----------------------------------------------------------------------------

/// Replacing one extent changes the sum by the difference.
pub proof fn lemma_total_update(extents: Seq<usize>, i: int, value: usize)
    requires
        0 <= i < extents.len(),
    ensures
        total(extents.update(i, value)) == total(extents) - extents[i] + value,
    decreases extents.len(),
{
    let updated = extents.update(i, value);
    if i == extents.len() - 1 {
        assert(updated.drop_last() =~= extents.drop_last());
    } else {
        lemma_total_update(extents.drop_last(), i, value);
        assert(updated.drop_last() =~= extents.drop_last().update(i, value));
    }
}

/// No extent exceeds the sum, and the sum is not negative.
pub proof fn lemma_total_bounds(extents: Seq<usize>, i: int)
    requires
        0 <= i < extents.len(),
    ensures
        0 <= extents[i] <= total(extents),
    decreases extents.len(),
{
    lemma_total_nonneg(extents.drop_last());
    if i < extents.len() - 1 {
        lemma_total_bounds(extents.drop_last(), i);
    }
}

/// A sum of extents is not negative.
pub proof fn lemma_total_nonneg(extents: Seq<usize>)
    ensures
        0 <= total(extents),
    decreases extents.len(),
{
    if extents.len() > 0 {
        lemma_total_nonneg(extents.drop_last());
    }
}

/// Of two sequences of which one is nowhere below the other, the sums are
/// ordered alike, and they agree only where the sequences do.
pub proof fn lemma_total_monotone(low: Seq<usize>, high: Seq<usize>)
    requires
        low.len() == high.len(),
        forall|i: int| 0 <= i < low.len() ==> low[i] <= high[i],
    ensures
        total(low) <= total(high),
        total(low) == total(high) ==> low =~= high,
    decreases low.len(),
{
    if low.len() > 0 {
        lemma_total_monotone(low.drop_last(), high.drop_last());
        if total(low) == total(high) {
            assert(low.drop_last() =~= high.drop_last());
            assert forall|i: int| 0 <= i < low.len() implies low[i] == high[i] by {
                if i < low.len() - 1 {
                    assert(low.drop_last()[i] == high.drop_last()[i]);
                }
            }
        }
    }
}

/// The least cost of a prefix grows with the prefix.
pub proof fn lemma_prefix_cost_monotone(demands: Seq<Demand>, separator: int, i: int, j: int)
    requires
        0 <= separator,
        0 <= i <= j,
    ensures
        0 <= prefix_cost(demands, separator, i) <= prefix_cost(demands, separator, j),
    decreases j,
{
    if j > 0 {
        if i < j {
            lemma_prefix_cost_monotone(demands, separator, i, j - 1);
        } else {
            lemma_prefix_cost_monotone(demands, separator, i - 1, j - 1);
        }
    }
}

// ----------------------------------------------------------------------------
// One layout only
// ----------------------------------------------------------------------------

/// Of two fair shares of one extent, the one that is ahead somewhere is behind
/// nowhere.
proof fn lemma_fair_shares_do_not_cross(
    available: int,
    separator: int,
    demands: Seq<Demand>,
    a: Seq<usize>,
    b: Seq<usize>,
    i: int,
    j: int,
)
    requires
        is_fair_share(available, separator, demands, a),
        is_fair_share(available, separator, demands, b),
        0 <= i < demands.len(),
        0 <= j < demands.len(),
        a[j] > b[j],
    ensures
        b[i] <= a[i],
{
    if a[i] < b[i] {
        assert(demands[i].admits(a[i] as int) && demands[i].admits(b[i] as int));
        assert(demands[j].admits(a[j] as int) && demands[j].admits(b[j] as int));
        // In `a`, child `j` has surplus and child `i` has room; in `b` it is
        // the other way round.
        assert(a[j] > demands[j].min && demands[i].admits_more_than(a[i] as int));
        assert(b[i] > demands[i].min && demands[j].admits_more_than(b[j] as int));
        assert(a[j] <= a[i] + 1);
        assert(b[i] <= b[j] + 1);
        if i < j {
            assert(a[j] <= a[i]);
        } else {
            assert(b[i] <= b[j]);
        }
    }
}

/// Of two fair shares of one extent, the first is nowhere below the second
/// only if they are the same.
proof fn lemma_fair_share_above_is_equal(
    available: int,
    separator: int,
    demands: Seq<Demand>,
    low: Seq<usize>,
    high: Seq<usize>,
)
    requires
        is_fair_share(available, separator, demands, low),
        is_fair_share(available, separator, demands, high),
        forall|i: int| 0 <= i < demands.len() ==> low[i] <= high[i],
    ensures
        low =~= high,
{
    lemma_total_monotone(low, high);
    if has_room(demands, low) {
        assert(total(low) == total(high));
    } else {
        assert forall|i: int| 0 <= i < demands.len() implies low[i] == high[i] by {
            assert(!demands[i].admits_more_than(low[i] as int));
            assert(demands[i].admits(low[i] as int));
            assert(demands[i].admits(high[i] as int));
        }
    }
}

/// The layout is a function of the available extent, the separator and the
/// demands: two sequences of extents that both are a linear layout of the same
/// input are the same sequence.
pub proof fn lemma_layout_unique(
    available: int,
    separator: int,
    demands: Seq<Demand>,
    a: Seq<usize>,
    b: Seq<usize>,
)
    requires
        is_linear_layout(available, separator, demands, a),
        is_linear_layout(available, separator, demands, b),
    ensures
        a == b,
{
    if is_starved(available, separator, demands) {
        assert(a =~= b);
    } else {
        if exists|j: int| 0 <= j < demands.len() && a[j] > b[j] {
            let j = choose|j: int| 0 <= j < demands.len() && a[j] > b[j];
            assert forall|i: int| 0 <= i < demands.len() implies b[i] <= a[i] by {
                lemma_fair_shares_do_not_cross(available, separator, demands, a, b, i, j);
            }
            lemma_fair_share_above_is_equal(available, separator, demands, b, a);
        } else {
            lemma_fair_share_above_is_equal(available, separator, demands, a, b);
        }
        assert(a =~= b);
    }
}

/// Whatever is a linear layout of an input is the layout that `linear_layout`
/// names.
pub proof fn lemma_layout_is_named(
    available: int,
    separator: int,
    demands: Seq<Demand>,
    extents: Seq<usize>,
)
    requires
        is_linear_layout(available, separator, demands, extents),
    ensures
        extents == linear_layout(available, separator, demands),
{
    lemma_layout_unique(
        available,
        separator,
        demands,
        extents,
        linear_layout(available, separator, demands),
    );
}

// ----------------------------------------------------------------------------
// What holds of every layout
// ----------------------------------------------------------------------------

/// What a starved share leaves unused once the first `count` children and the
/// separators between those that are served are accounted for.
pub open spec fn unused_after(
    available: int,
    separator: int,
    demands: Seq<Demand>,
    extents: Seq<usize>,
    count: int,
) -> int {
    available - total(extents.take(count)) - spacing(
        separator,
        placed(available, separator, demands, count),
    )
}

/// In a starved share, the children up to the last one that is served take
/// their minimum, that last one takes what is left for it, and what then
/// remains is less than the next separator and its child would need.
proof fn lemma_starved_prefix(
    available: int,
    separator: int,
    demands: Seq<Demand>,
    extents: Seq<usize>,
    count: int,
)
    requires
        0 <= available,
        0 <= separator,
        is_starved_share(available, separator, demands, extents),
        1 <= count <= demands.len(),
    ensures
        is_reached(available, separator, demands, count - 1) ==> {
            &&& placed(available, separator, demands, count) == count
            &&& unused_after(available, separator, demands, extents, count) == available
                - prefix_cost(demands, separator, count - 1) - extents[count - 1]
        },
        0 <= unused_after(available, separator, demands, extents, count),
        !is_reached(available, separator, demands, count - 1) ==> unused_after(
            available,
            separator,
            demands,
            extents,
            count,
        ) <= separator,
    decreases count,
{
    let whole = extents.take(count);
    let front = extents.take(count - 1);
    assert(whole.drop_last() =~= front);
    assert(whole.last() == extents[count - 1]);
    assert(total(whole) == total(front) + extents[count - 1]);
    assert(extents[count - 1] == starved_extent(available, separator, demands, count - 1));
    if count == 1 {
        assert(front =~= Seq::<usize>::empty());
        assert(placed(available, separator, demands, 0) == 0);
    } else {
        lemma_starved_prefix(available, separator, demands, extents, count - 1);
        assert(extents[count - 2] == starved_extent(available, separator, demands, count - 2));
        assert(prefix_cost(demands, separator, count - 1) == prefix_cost(
            demands,
            separator,
            count - 2,
        ) + demands[count - 2].min + separator);
        lemma_prefix_cost_monotone(demands, separator, count - 2, count - 1);
        assert(separator * (count - 1) == separator * (count - 2) + separator)
            by (nonlinear_arith);
        if count == 2 {
            assert(separator * (count - 2) == 0) by (nonlinear_arith)
                requires
                    count == 2,
            ;
        }
    }
}

/// A layout never hands out more than is available: the extents, together
/// with the separators between the children that are served, fit into the
/// available space. While the space exceeds what the minima need and a child
/// could still take more, nothing is left over. Where the space does not
/// exceed the minima, what is left over is no more than one separator.
pub proof fn lemma_layout_conserves_space(
    available: int,
    separator: int,
    demands: Seq<Demand>,
    extents: Seq<usize>,
)
    requires
        0 <= available,
        0 <= separator,
        is_linear_layout(available, separator, demands, extents),
    ensures
        total(extents) + spacing(
            separator,
            placed(available, separator, demands, demands.len() as int),
        ) <= available,
        !is_starved(available, separator, demands) ==> placed(
            available,
            separator,
            demands,
            demands.len() as int,
        ) == demands.len(),
        !is_starved(available, separator, demands) && has_room(demands, extents) ==> total(
            extents,
        ) + spacing(separator, demands.len() as int) == available,
        is_starved(available, separator, demands) ==> available - total(extents) - spacing(
            separator,
            placed(available, separator, demands, demands.len() as int),
        ) <= separator,
{
    let n = demands.len() as int;
    assert(extents.take(n) =~= extents);
    if is_starved(available, separator, demands) {
        lemma_starved_prefix(available, separator, demands, extents, n);
        assert(prefix_cost(demands, separator, n) == prefix_cost(demands, separator, n - 1)
            + demands[n - 1].min + separator);
        assert(extents[n - 1] == starved_extent(available, separator, demands, n - 1));
    } else {
        lemma_all_placed(available, separator, demands, n);
    }
}

/// Where the space exceeds what the minima need, every child is served.
proof fn lemma_all_placed(available: int, separator: int, demands: Seq<Demand>, count: int)
    requires
        0 <= separator,
        !is_starved(available, separator, demands),
        0 <= count <= demands.len(),
    ensures
        placed(available, separator, demands, count) == count,
    decreases count,
{
    if count > 0 {
        lemma_all_placed(available, separator, demands, count - 1);
        let n = demands.len() as int;
        assert(prefix_cost(demands, separator, n) == prefix_cost(demands, separator, n - 1)
            + demands[n - 1].min + separator);
        lemma_prefix_cost_monotone(demands, separator, count - 1, n - 1);
    }
}

/// A layout respects the demands: no child gets more than its maximum, and a
/// child gets its minimum whenever the space suffices for it after the
/// children before it and their separators.
pub proof fn lemma_layout_respects_bounds(
    available: int,
    separator: int,
    demands: Seq<Demand>,
    extents: Seq<usize>,
    i: int,
)
    requires
        0 <= separator,
        all_wf(demands),
        is_linear_layout(available, separator, demands, extents),
        0 <= i < demands.len(),
    ensures
        demands[i].max matches Some(m) ==> extents[i] <= m,
        prefix_cost(demands, separator, i) + demands[i].min <= available ==> demands[i].min
            <= extents[i],
{
    assert(demands[i].wf());
    if is_starved(available, separator, demands) {
        assert(extents[i] == starved_extent(available, separator, demands, i));
        lemma_prefix_cost_monotone(demands, separator, 0, i);
    } else {
        assert(demands[i].admits(extents[i] as int));
    }
}

/// A layout is fair: a child that got more than its minimum is at most one
/// cell ahead of any child that could still take more. So the children that
/// got a part of the surplus and are not held back by their maximum differ by
/// at most one cell.
pub proof fn lemma_layout_is_fair(
    available: int,
    separator: int,
    demands: Seq<Demand>,
    extents: Seq<usize>,
    i: int,
    j: int,
)
    requires
        is_linear_layout(available, separator, demands, extents),
        0 <= i < demands.len(),
        0 <= j < demands.len(),
        demands[i].admits_more_than(extents[i] as int),
        extents[j] > demands[j].min,
    ensures
        extents[j] <= extents[i] + 1,
        extents[i] > demands[i].min && demands[j].admits_more_than(extents[j] as int)
            ==> extents[i] - 1 <= extents[j] <= extents[i] + 1,
{
    if is_starved(available, separator, demands) {
        assert(extents[j] == starved_extent(available, separator, demands, j));
    }
}

/// The sum of the first extents is part of the sum of all.
pub proof fn lemma_total_prefix(extents: Seq<usize>, count: int)
    requires
        0 <= count <= extents.len(),
    ensures
        0 <= total(extents.take(count)) <= total(extents),
        count < extents.len() ==> total(extents.take(count + 1)) == total(extents.take(count))
            + extents[count],
    decreases extents.len() - count,
{
    lemma_total_nonneg(extents.take(count));
    if count < extents.len() {
        let longer = extents.take(count + 1);
        assert(longer.drop_last() =~= extents.take(count));
        assert(longer.last() == extents[count]);
        lemma_total_prefix(extents, count + 1);
    } else {
        assert(extents.take(count) =~= extents);
    }
}

/// The children of a layout can be placed one after another: a child that
/// gets any room at all ends, together with the children and the separators
/// before it, within the available space.
pub proof fn lemma_layout_offsets_fit(
    available: int,
    separator: int,
    demands: Seq<Demand>,
    extents: Seq<usize>,
    i: int,
)
    requires
        0 <= available,
        0 <= separator,
        is_linear_layout(available, separator, demands, extents),
        0 <= i < demands.len(),
        extents[i] > 0,
    ensures
        total(extents.take(i + 1)) + separator * i <= available,
{
    if is_starved(available, separator, demands) {
        assert(extents[i] == starved_extent(available, separator, demands, i));
        lemma_starved_prefix(available, separator, demands, extents, i + 1);
        assert(is_reached(available, separator, demands, i));
        assert(spacing(separator, i + 1) == separator * i) by (nonlinear_arith)
            requires
                0 <= i,
                spacing(separator, i + 1) == if i + 1 <= 1 {
                    0
                } else {
                    separator * (i + 1 - 1)
                },
        ;
    } else {
        let n = demands.len() as int;
        lemma_total_prefix(extents, i + 1);
        assert(separator * i <= spacing(separator, n)) by (nonlinear_arith)
            requires
                0 <= separator,
                0 <= i <= n - 1,
                spacing(separator, n) == if n <= 1 {
                    0
                } else {
                    separator * (n - 1)
                },
        ;
    }
}

} // verus!

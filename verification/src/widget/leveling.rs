//! Raising the children that admit more to a common level.
//!
//! The surplus of a layout is spread by raising the lowest children first,
//! step by step, until all that still admit more stand on one level or the
//! surplus is spent. This module holds the steps and what each of them keeps.

use vstd::prelude::*;
use crate::widget::allocation::{
    all_wf, favors_earlier, has_room, is_even, lemma_total_bounds, lemma_total_update,
    respects_bounds, total,
};
use crate::widget::demand::Demand;

verus! {

// ----------------------------------------------------------------------------
// Lists of children
// ----------------------------------------------------------------------------

/// Every entry of `list` is an index below `count`.
pub open spec fn indexes(list: Seq<usize>, count: int) -> bool {
    forall|p: int| 0 <= p < list.len() ==> (#[trigger] list[p]) < count
}

/// Whether child `i` is in the list.
pub open spec fn holds(list: Seq<usize>, i: int) -> bool {
    exists|p: int| 0 <= p < list.len() && (#[trigger] list[p]) == i
}

/// Child `x` stands lower than child `y`, or as high and earlier.
pub open spec fn comes_before(extents: Seq<usize>, x: usize, y: usize) -> bool {
    extents[x as int] < extents[y as int] || (extents[x as int] == extents[y as int] && x < y)
}

/// The list is in ascending order of extent, children of equal extent in
/// the order of their indices.
pub open spec fn is_ordered(list: Seq<usize>, extents: Seq<usize>) -> bool {
    forall|p: int, q: int|
        0 <= p < q < list.len() ==> comes_before(extents, #[trigger] list[p], #[trigger] list[q])
}

/// Whether child `x` stands lower than child `y`, or as high and earlier.
fn stands_before(extents: &Vec<usize>, x: usize, y: usize) -> (r: bool)
    requires
        x < extents.len(),
        y < extents.len(),
    ensures
        r == comes_before(extents@, x, y),
{
    extents[x] < extents[y] || (extents[x] == extents[y] && x < y)
}

/// Sorts a list of children by their current extent, ascending; of children
/// of equal extent the one with the lower index comes first.
pub fn sort_by_extent(list: &Vec<usize>, extents: &Vec<usize>) -> (sorted: Vec<usize>)
    requires
        list@.no_duplicates(),
        indexes(list@, extents.len() as int),
    ensures
        sorted.len() == list.len(),
        is_ordered(sorted@, extents@),
        indexes(sorted@, extents.len() as int),
        sorted@.no_duplicates(),
        forall|i: int| holds(sorted@, i) <==> holds(list@, i),
{
    let mut sorted: Vec<usize> = Vec::new();
    let mut i: usize = 0;
    while i < list.len()
        invariant
            i <= list.len(),
            sorted.len() == i,
            list@.no_duplicates(),
            indexes(list@, extents.len() as int),
            indexes(sorted@, extents.len() as int),
            is_ordered(sorted@, extents@),
            forall|p: int| 0 <= p < i ==> holds(sorted@, (#[trigger] list@[p]) as int),
            forall|q: int|
                0 <= q < sorted.len() ==> exists|p: int|
                    0 <= p < i && list@[p] == #[trigger] sorted@[q],
        decreases list.len() - i,
    {
        let x = list[i];
        let mut pos: usize = 0;
        while pos < sorted.len() && stands_before(extents, sorted[pos], x)
            invariant
                pos <= sorted.len(),
                x < extents.len(),
                indexes(sorted@, extents.len() as int),
                forall|p: int| 0 <= p < pos ==> comes_before(extents@, #[trigger] sorted@[p], x),
            decreases sorted.len() - pos,
        {
            pos += 1;
        }
        let ghost before = sorted@;
        sorted.insert(pos, x);
        proof {
            before.insert_ensures(pos as int, x);
            let after = sorted@;
            // The new child is not yet in the list.
            assert forall|q: int| 0 <= q < before.len() implies before[q] != x by {
                let p = choose|p: int| 0 <= p < i && list@[p] == before[q];
                assert(list@[p] != list@[i as int]);
            }
            assert forall|p: int, q: int| 0 <= p < q < after.len() implies comes_before(
                extents@,
                #[trigger] after[p],
                #[trigger] after[q],
            ) by {
                if q < pos {
                    assert(after[p] == before[p] && after[q] == before[q]);
                } else if q == pos {
                    assert(after[p] == before[p]);
                } else if p < pos {
                    assert(after[p] == before[p] && after[q] == before[q - 1]);
                } else if p == pos {
                    assert(after[q] == before[q - 1]);
                    assert(before[pos as int] != x);
                    assert(!comes_before(extents@, before[pos as int], x));
                    if q - 1 > pos {
                        assert(comes_before(extents@, before[pos as int], before[q - 1]));
                    }
                } else {
                    assert(after[p] == before[p - 1] && after[q] == before[q - 1]);
                }
            }
            assert forall|p: int| 0 <= p < after.len() implies (#[trigger] after[p])
                < extents.len() by {
                if p < pos {
                    assert(after[p] == before[p]);
                } else if p > pos {
                    assert(after[p] == before[p - 1]);
                }
            }
            assert forall|p: int| 0 <= p < i + 1 implies holds(
                after,
                (#[trigger] list@[p]) as int,
            ) by {
                if p < i {
                    let q = choose|q: int| 0 <= q < before.len() && before[q] == list@[p] as int;
                    if q < pos {
                        assert(after[q] == before[q]);
                    } else {
                        assert(after[q + 1] == before[q]);
                    }
                } else {
                    assert(after[pos as int] == x);
                }
            }
            assert forall|q: int| 0 <= q < after.len() implies exists|p: int|
                0 <= p < i + 1 && list@[p] == #[trigger] after[q] by {
                if q < pos {
                    assert(after[q] == before[q]);
                    let p = choose|p: int| 0 <= p < i && list@[p] == before[q];
                    assert(0 <= p < i + 1 && list@[p] == after[q]);
                } else if q == pos {
                    assert(list@[i as int] == after[q]);
                } else {
                    assert(after[q] == before[q - 1]);
                    let p = choose|p: int| 0 <= p < i && list@[p] == before[q - 1];
                    assert(0 <= p < i + 1 && list@[p] == after[q]);
                }
            }
        }
        i += 1;
    }
    proof {
        assert forall|p: int, q: int|
            0 <= p < sorted@.len() && 0 <= q < sorted@.len() && p != q implies sorted@[p]
            != sorted@[q] by {
            if p < q {
                assert(comes_before(extents@, sorted@[p], sorted@[q]));
            } else {
                assert(comes_before(extents@, sorted@[q], sorted@[p]));
            }
        }
        assert forall|x: int| holds(sorted@, x) <==> holds(list@, x) by {
            if holds(sorted@, x) {
                let q = choose|q: int| 0 <= q < sorted@.len() && sorted@[q] == x;
                let p = choose|p: int| 0 <= p < i && list@[p] == sorted@[q];
                assert(list@[p] == x);
            }
            if holds(list@, x) {
                let p = choose|p: int| 0 <= p < list@.len() && list@[p] == x;
                assert(holds(sorted@, list@[p] as int));
            }
        }
    }
    sorted
}

// ----------------------------------------------------------------------------
// Levels
// ----------------------------------------------------------------------------

/// The extent of a child with demand `d` once the children that admit more
/// are raised to `level`: the level itself, kept within the demand.
pub open spec fn level_extent(d: Demand, level: int) -> int {
    let capped = match d.max {
        Some(m) => if level < m {
            level
        } else {
            m as int
        },
        None => level,
    };
    if capped < d.min {
        d.min as int
    } else {
        capped
    }
}

/// Every child has the extent that `level` gives it.
pub open spec fn filled_to(demands: Seq<Demand>, extents: Seq<usize>, level: int) -> bool {
    &&& extents.len() == demands.len()
    &&& forall|i: int|
        0 <= i < demands.len() ==> (#[trigger] extents[i]) == level_extent(demands[i], level)
}

/// A child is open at `level` when it admits more than its minimum and its
/// maximum, if any, lies above the level.
pub open spec fn is_open(d: Demand, level: int) -> bool {
    d.is_flexible() && (d.max matches Some(m) ==> level < m)
}

/// The list holds, once each, the children that are open at `level`.
pub open spec fn lists_open(list: Seq<usize>, demands: Seq<Demand>, level: int) -> bool {
    &&& list.no_duplicates()
    &&& indexes(list, demands.len() as int)
    &&& forall|p: int| 0 <= p < list.len() ==> is_open(demands[(#[trigger] list[p]) as int], level)
    &&& forall|i: int|
        0 <= i < demands.len() && is_open(#[trigger] demands[i], level) ==> holds(list, i)
}

/// What it costs to raise the first `count` children of `list` to `level`.
pub open spec fn raise_cost(list: Seq<usize>, extents: Seq<usize>, count: int, level: int) -> int
    decreases count,
{
    if count <= 0 {
        0
    } else {
        raise_cost(list, extents, count - 1, level) + (level - extents[list[count - 1] as int])
    }
}

/// Raising `count` children by `step` more costs `count * step` more.
pub proof fn lemma_raise_cost_shift(
    list: Seq<usize>,
    extents: Seq<usize>,
    count: int,
    level: int,
    step: int,
)
    requires
        0 <= count,
    ensures
        raise_cost(list, extents, count, level + step) == raise_cost(list, extents, count, level)
            + count * step,
    decreases count,
{
    if count > 0 {
        lemma_raise_cost_shift(list, extents, count - 1, level, step);
        assert(count * step == (count - 1) * step + step) by (nonlinear_arith);
    } else {
        assert(count * step == 0) by (nonlinear_arith)
            requires
                count == 0,
        ;
    }
}

/// Raising fewer children, none of which stands above the level, costs less.
pub proof fn lemma_raise_cost_monotone(
    list: Seq<usize>,
    extents: Seq<usize>,
    fewer: int,
    count: int,
    level: int,
)
    requires
        0 <= fewer <= count,
        forall|p: int| 0 <= p < count ==> extents[(#[trigger] list[p]) as int] <= level,
    ensures
        0 <= raise_cost(list, extents, fewer, level) <= raise_cost(list, extents, count, level),
    decreases count,
{
    if count > 0 {
        if fewer < count {
            lemma_raise_cost_monotone(list, extents, fewer, count - 1, level);
            assert(extents[list[count - 1] as int] <= level);
        } else {
            lemma_raise_cost_monotone(list, extents, fewer - 1, count - 1, level);
            assert(extents[list[count - 1] as int] <= level);
        }
    }
}

/// Raising children that stand on the level already costs nothing.
pub proof fn lemma_raise_cost_level(list: Seq<usize>, extents: Seq<usize>, count: int, level: int)
    requires
        0 <= count,
        forall|p: int| 0 <= p < count ==> extents[(#[trigger] list[p]) as int] == level,
    ensures
        raise_cost(list, extents, count, level) == 0,
    decreases count,
{
    if count > 0 {
        lemma_raise_cost_level(list, extents, count - 1, level);
        assert(extents[list[count - 1] as int] == level);
    }
}

/// Plans how far the lowest children can be raised together.
///
/// Walks the ladder of extents from the lowest child up for as long as the
/// cells at hand suffice to lift all children passed so far onto the next
/// step, and then shares what is left evenly among them. Returns the level
/// reached and the number of children that reach it.
pub fn plan_level(sorted: &Vec<usize>, extents: &Vec<usize>, available: usize) -> (plan: (
    usize,
    usize,
))
    requires
        sorted.len() > 0,
        indexes(sorted@, extents.len() as int),
        is_ordered(sorted@, extents@),
        total(extents@) + available <= usize::MAX,
    ensures
        1 <= plan.1 <= sorted.len(),
        forall|p: int| 0 <= p < plan.1 ==> extents@[(#[trigger] sorted@[p]) as int] <= plan.0,
        plan.1 < sorted.len() ==> plan.0 < extents@[sorted@[plan.1 as int] as int],
        raise_cost(sorted@, extents@, plan.1 as int, plan.0 as int) <= available,
        available < raise_cost(sorted@, extents@, plan.1 as int, plan.0 + 1),
{
    let mut height: usize = extents[sorted[0]];
    let mut spend: usize = 0;
    let mut count: usize = 1;
    proof {
        lemma_raise_cost_level(sorted@, extents@, 1, height as int);
    }
    while count < sorted.len()
        invariant
            1 <= count <= sorted.len(),
            indexes(sorted@, extents.len() as int),
            is_ordered(sorted@, extents@),
            total(extents@) + available <= usize::MAX,
            height == extents@[sorted@[count - 1] as int],
            spend == raise_cost(sorted@, extents@, count as int, height as int),
            spend <= available,
        ensures
            count < sorted.len() ==> (extents@[sorted@[count as int] as int] - height) * count
                > available - spend,
        decreases sorted.len() - count,
    {
        let next = extents[sorted[count]];
        proof {
            assert(comes_before(extents@, sorted@[count - 1], sorted@[count as int]));
        }
        let step = next - height;
        let budget = available - spend;
        if step > budget / count {
            proof {
                let quotient = (budget / count) as int;
                assert(budget < (quotient + 1) * count) by (nonlinear_arith)
                    requires
                        quotient == budget as int / count as int,
                        count > 0,
                ;
                assert((quotient + 1) * count <= step * count) by (nonlinear_arith)
                    requires
                        quotient + 1 <= step,
                        count > 0,
                ;
            }
            break ;
        }
        proof {
            let quotient = (budget / count) as int;
            assert(quotient * count <= budget) by (nonlinear_arith)
                requires
                    quotient == budget as int / count as int,
                    count > 0,
                    budget >= 0,
            ;
            assert(step * count <= quotient * count) by (nonlinear_arith)
                requires
                    step <= quotient,
                    count > 0,
            ;
            lemma_raise_cost_shift(sorted@, extents@, count as int, height as int, step as int);
            assert(count * step == step * count) by (nonlinear_arith);
        }
        spend = spend + step * count;
        height = next;
        count = count + 1;
    }
    let left = available - spend;
    let share = left / count;
    proof {
        lemma_total_bounds(extents@, sorted@[count - 1] as int);
        let quotient = share as int;
        assert(quotient * count <= left < (quotient + 1) * count) by (nonlinear_arith)
            requires
                quotient == left as int / count as int,
                count > 0,
                left >= 0,
        ;
        assert(quotient <= left) by (nonlinear_arith)
            requires
                quotient * count <= left,
                count > 0,
                quotient >= 0,
        ;
        lemma_raise_cost_shift(sorted@, extents@, count as int, height as int, quotient);
        lemma_raise_cost_shift(sorted@, extents@, count as int, height as int, quotient + 1);
        assert(count * quotient == quotient * count) by (nonlinear_arith);
        assert(count * (quotient + 1) == (quotient + 1) * count) by (nonlinear_arith);
        assert forall|p: int| 0 <= p < count implies extents@[(#[trigger] sorted@[p]) as int]
            <= height + share by {
            if p < count - 1 {
                assert(comes_before(extents@, sorted@[p], sorted@[count - 1]));
            }
        }
        if count < sorted.len() {
            // The walk stopped because the next step was out of reach.
            let step = extents@[sorted@[count as int] as int] - height;
            assert(step * count > left);
            assert(step > quotient) by (nonlinear_arith)
                requires
                    step * count > left,
                    quotient * count <= left,
                    count > 0,
            ;
        }
    }
    (height + share, count)
}

/// Children that are filled to a level are also filled to the extent of the
/// lowest child that is still open, and the same children are open there.
pub proof fn lemma_relevel(
    demands: Seq<Demand>,
    extents: Seq<usize>,
    sorted: Seq<usize>,
    floor: int,
)
    requires
        all_wf(demands),
        filled_to(demands, extents, floor),
        lists_open(sorted, demands, floor),
        is_ordered(sorted, extents),
        sorted.len() > 0,
    ensures
        floor <= extents[sorted[0] as int],
        filled_to(demands, extents, extents[sorted[0] as int] as int),
        lists_open(sorted, demands, extents[sorted[0] as int] as int),
{
    let lowest = extents[sorted[0] as int] as int;
    assert(is_open(demands[sorted[0] as int], floor));
    assert forall|p: int| 0 <= p < sorted.len() implies lowest <= extents[(
    #[trigger] sorted[p]) as int] && is_open(demands[sorted[p] as int], lowest) by {
        if p > 0 {
            assert(comes_before(extents, sorted[0], sorted[p]));
        }
        assert(is_open(demands[sorted[p] as int], floor));
        assert(demands[sorted[p] as int].wf());
    }
    assert forall|i: int| 0 <= i < demands.len() implies (#[trigger] extents[i]) == level_extent(
        demands[i],
        lowest,
    ) by {
        assert(demands[i].wf());
        if is_open(demands[i], floor) {
            assert(holds(sorted, i));
            let p = choose|p: int| 0 <= p < sorted.len() && sorted[p] == i;
            assert(lowest <= extents[sorted[p] as int]);
        }
    }
    assert forall|i: int| 0 <= i < demands.len() && is_open(
        #[trigger] demands[i],
        lowest,
    ) implies holds(sorted, i) by {
        assert(is_open(demands[i], floor));
    }
}

/// Raises every listed child to `level`, or to its maximum where that is
/// lower. Returns the children that are still open and the cells that are
/// left.
pub fn raise_to_level(
    sorted: &Vec<usize>,
    demands: &[Demand],
    extents: &mut Vec<usize>,
    level: usize,
    available: usize,
    Ghost(count): Ghost<int>,
) -> (raised: (Vec<usize>, usize))
    requires
        sorted.len() > 0,
        all_wf(demands@),
        is_ordered(sorted@, old(extents)@),
        filled_to(demands@, old(extents)@, old(extents)@[sorted@[0] as int] as int),
        lists_open(sorted@, demands@, old(extents)@[sorted@[0] as int] as int),
        1 <= count <= sorted.len(),
        forall|p: int| 0 <= p < count ==> old(extents)@[(#[trigger] sorted@[p]) as int] <= level,
        count < sorted.len() ==> level < old(extents)@[sorted@[count] as int],
        raise_cost(sorted@, old(extents)@, count, level as int) <= available,
    ensures
        filled_to(demands@, final(extents)@, level as int),
        lists_open(raised.0@, demands@, level as int),
        total(final(extents)@) + raised.1 == total(old(extents)@) + available,
        raised.1 <= available,
        old(extents)@[sorted@[0] as int] < level ==> raised.1 < available,
{
    let ghost before = extents@;
    let ghost floor = before[sorted@[0] as int] as int;
    let mut still_open: Vec<usize> = Vec::new();
    let mut left = available;
    let mut j: usize = 0;
    while j < sorted.len()
        invariant
            j <= sorted.len(),
            before.len() == demands@.len(),
            extents@.len() == before.len(),
            all_wf(demands@),
            is_ordered(sorted@, before),
            filled_to(demands@, before, floor),
            lists_open(sorted@, demands@, floor),
            floor == before[sorted@[0] as int],
            floor <= level,
            1 <= count <= sorted.len(),
            forall|p: int| 0 <= p < count ==> before[(#[trigger] sorted@[p]) as int] <= level,
            count < sorted.len() ==> level < before[sorted@[count] as int],
            raise_cost(sorted@, before, count, level as int) <= available,
            forall|p: int|
                j <= p < sorted.len() ==> extents@[(#[trigger] sorted@[p]) as int]
                    == before[sorted@[p] as int],
            forall|p: int|
                0 <= p < j ==> extents@[(#[trigger] sorted@[p]) as int] == level_extent(
                    demands@[sorted@[p] as int],
                    level as int,
                ),
            forall|i: int|
                0 <= i < before.len() && !holds(sorted@, i) ==> (#[trigger] extents@[i])
                    == before[i],
            left <= available,
            total(extents@) + left == total(before) + available,
            available - left <= raise_cost(
                sorted@,
                before,
                if j <= count {
                    j as int
                } else {
                    count
                },
                level as int,
            ),
            j > 0 && floor < level ==> left < available,
            still_open@.no_duplicates(),
            forall|q: int|
                0 <= q < still_open@.len() ==> exists|p: int|
                    0 <= p < j && sorted@[p] == #[trigger] still_open@[q],
            forall|q: int|
                0 <= q < still_open@.len() ==> is_open(
                    demands@[(#[trigger] still_open@[q]) as int],
                    level as int,
                ),
            forall|p: int|
                0 <= p < j && is_open(demands@[(#[trigger] sorted@[p]) as int], level as int)
                    ==> holds(still_open@, sorted@[p] as int),
        decreases sorted.len() - j,
    {
        let x = sorted[j];
        let current = extents[x];
        let demand = demands[x];
        let ghost listed = still_open@;
        proof {
            assert(is_open(demands@[sorted@[j as int] as int], floor));
            assert(demand.wf());
            assert(current == level_extent(demand, floor));
            if j < count {
                assert(before[sorted@[j as int] as int] <= level);
                lemma_raise_cost_monotone(sorted@, before, j as int + 1, count, level as int);
            } else {
                if j > count {
                    assert(comes_before(before, sorted@[count], sorted@[j as int]));
                }
                assert(level < current);
            }
        }
        let keeps_open = match demand.max {
            Some(max) => max > level,
            None => true,
        };
        let goal = match demand.max {
            Some(max) => if max > level {
                if level > current {
                    level
                } else {
                    current
                }
            } else {
                max
            },
            None => if level > current {
                level
            } else {
                current
            },
        };
        let increase = goal - current;
        if keeps_open {
            still_open.push(x);
        }
        let ghost unraised = extents@;
        extents[x] = goal;
        left = left - increase;
        proof {
            lemma_total_update(unraised, x as int, goal);
            assert forall|p: int| j + 1 <= p < sorted.len() implies extents@[(
            #[trigger] sorted@[p]) as int] == before[sorted@[p] as int] by {
                assert(sorted@[p] != sorted@[j as int]);
            }
            assert forall|p: int| 0 <= p < j + 1 implies extents@[(#[trigger] sorted@[p]) as int]
                == level_extent(demands@[sorted@[p] as int], level as int) by {
                if p < j {
                    assert(sorted@[p] != sorted@[j as int]);
                }
            }
            assert forall|i: int| 0 <= i < before.len() && !holds(sorted@, i) implies (
            #[trigger] extents@[i]) == before[i] by {
                assert(i != x);
            }
            if keeps_open {
                assert forall|q: int| 0 <= q < listed.len() implies listed[q] != x by {
                    let p = choose|p: int| 0 <= p < j && sorted@[p] == listed[q];
                    assert(sorted@[p] != sorted@[j as int]);
                }
                assert forall|q: int| 0 <= q < still_open@.len() implies exists|p: int|
                    0 <= p < j + 1 && sorted@[p] == #[trigger] still_open@[q] by {
                    if q < listed.len() {
                        let p = choose|p: int| 0 <= p < j && sorted@[p] == listed[q];
                        assert(0 <= p < j + 1 && sorted@[p] == still_open@[q]);
                    } else {
                        assert(sorted@[j as int] == still_open@[q]);
                    }
                }
                assert forall|p: int|
                    0 <= p < j + 1 && is_open(
                        demands@[(#[trigger] sorted@[p]) as int],
                        level as int,
                    ) implies holds(still_open@, sorted@[p] as int) by {
                    if p < j {
                        let q = choose|q: int|
                            0 <= q < listed.len() && listed[q] == sorted@[p] as int;
                        assert(still_open@[q] == sorted@[p]);
                    } else {
                        assert(still_open@[listed.len() as int] == sorted@[p]);
                    }
                }
            } else {
                assert forall|q: int| 0 <= q < still_open@.len() implies exists|p: int|
                    0 <= p < j + 1 && sorted@[p] == #[trigger] still_open@[q] by {
                    let p = choose|p: int| 0 <= p < j && sorted@[p] == listed[q];
                    assert(0 <= p < j + 1 && sorted@[p] == still_open@[q]);
                }
            }
        }
        j += 1;
    }
    proof {
        assert forall|i: int| 0 <= i < demands@.len() implies (#[trigger] extents@[i])
            == level_extent(demands@[i], level as int) by {
            assert(demands@[i].wf());
            if holds(sorted@, i) {
                let p = choose|p: int| 0 <= p < sorted@.len() && sorted@[p] == i;
                assert(extents@[sorted@[p] as int] == level_extent(
                    demands@[sorted@[p] as int],
                    level as int,
                ));
            } else {
                assert(!is_open(demands@[i], floor));
                assert(before[i] == level_extent(demands@[i], floor));
            }
        }
        assert forall|q: int| 0 <= q < still_open@.len() implies (#[trigger] still_open@[q])
            < demands@.len() by {
            let p = choose|p: int| 0 <= p < j && sorted@[p] == still_open@[q];
            assert(sorted@[p] < demands@.len());
        }
        assert forall|i: int|
            0 <= i < demands@.len() && is_open(
                #[trigger] demands@[i],
                level as int,
            ) implies holds(still_open@, i) by {
            assert(is_open(demands@[i], floor));
            assert(holds(sorted@, i));
            let p = choose|p: int| 0 <= p < sorted@.len() && sorted@[p] == i;
            assert(is_open(demands@[sorted@[p] as int], level as int));
        }
    }
    (still_open, left)
}

// ----------------------------------------------------------------------------
// Cells that cannot be shared evenly
// ----------------------------------------------------------------------------

/// Whether child `i` is among the first `count` entries of the list.
pub open spec fn holds_early(list: Seq<usize>, count: int, i: int) -> bool {
    exists|p: int| 0 <= p < count && p < list.len() && (#[trigger] list[p]) == i
}

/// Gives one cell more to each of the first `cells` children of the list.
pub fn hand_out_cells(sorted: &Vec<usize>, extents: &mut Vec<usize>, cells: usize)
    requires
        cells <= sorted.len(),
        sorted@.no_duplicates(),
        indexes(sorted@, old(extents).len() as int),
        total(old(extents)@) + cells <= usize::MAX,
    ensures
        final(extents).len() == old(extents).len(),
        forall|p: int|
            0 <= p < cells ==> final(extents)@[(#[trigger] sorted@[p]) as int] == old(extents)@[sorted@[p] as int] + 1,
        forall|i: int|
            0 <= i < old(extents).len() && !holds_early(sorted@, cells as int, i) ==> (
            #[trigger] final(extents)@[i]) == old(extents)@[i],
        total(final(extents)@) == total(old(extents)@) + cells,
{
    let ghost before = extents@;
    let mut p: usize = 0;
    while p < cells
        invariant
            p <= cells <= sorted.len(),
            sorted@.no_duplicates(),
            extents.len() == before.len(),
            indexes(sorted@, before.len() as int),
            total(before) + cells <= usize::MAX,
            total(extents@) == total(before) + p,
            forall|q: int|
                0 <= q < p ==> extents@[(#[trigger] sorted@[q]) as int] == before[sorted@[q] as int]
                    + 1,
            forall|q: int|
                p <= q < sorted.len() ==> extents@[(#[trigger] sorted@[q]) as int]
                    == before[sorted@[q] as int],
            forall|i: int|
                0 <= i < before.len() && !holds_early(sorted@, p as int, i) ==> (
                #[trigger] extents@[i]) == before[i],
        decreases cells - p,
    {
        let x = sorted[p];
        let ghost unraised = extents@;
        proof {
            lemma_total_bounds(unraised, x as int);
        }
        let current = extents[x];
        extents[x] = current + 1;
        proof {
            lemma_total_update(unraised, x as int, (current + 1) as usize);
            assert forall|q: int| 0 <= q < p + 1 implies extents@[(#[trigger] sorted@[q]) as int]
                == before[sorted@[q] as int] + 1 by {
                if q < p {
                    assert(sorted@[q] != sorted@[p as int]);
                }
            }
            assert forall|q: int| p + 1 <= q < sorted.len() implies extents@[(
            #[trigger] sorted@[q]) as int] == before[sorted@[q] as int] by {
                assert(sorted@[q] != sorted@[p as int]);
            }
            assert forall|i: int|
                0 <= i < before.len() && !holds_early(sorted@, p + 1, i) implies (
            #[trigger] extents@[i]) == before[i] by {
                assert(sorted@[p as int] != i);
                if holds_early(sorted@, p as int, i) {
                    let q = choose|q: int| 0 <= q < p && q < sorted@.len() && sorted@[q] == i;
                    assert(0 <= q < p + 1 && sorted@[q] == i);
                }
            }
        }
        p += 1;
    }
}

/// Once the open children that stand lowest are too many for the cells that
/// are left, giving one cell to each of the first of them completes a fair
/// share.
pub proof fn lemma_leftover_is_fair(
    demands: Seq<Demand>,
    before: Seq<usize>,
    after: Seq<usize>,
    sorted: Seq<usize>,
    cells: int,
    count: int,
)
    requires
        all_wf(demands),
        sorted.len() > 0,
        is_ordered(sorted, before),
        filled_to(demands, before, before[sorted[0] as int] as int),
        lists_open(sorted, demands, before[sorted[0] as int] as int),
        0 <= cells < count <= sorted.len(),
        forall|p: int|
            0 <= p < count ==> before[(#[trigger] sorted[p]) as int] == before[sorted[0] as int],
        after.len() == before.len(),
        forall|p: int|
            0 <= p < cells ==> after[(#[trigger] sorted[p]) as int] == before[sorted[p] as int] + 1,
        forall|i: int|
            0 <= i < before.len() && !holds_early(sorted, cells, i) ==> (#[trigger] after[i])
                == before[i],
    ensures
        respects_bounds(demands, after),
        is_even(demands, after),
        favors_earlier(demands, after),
{
    let level = before[sorted[0] as int] as int;
    // What every child has in the end, by whether it got one of the cells.
    assert forall|i: int| 0 <= i < demands.len() implies {
        &&& demands[i].wf()
        &&& before[i] == level_extent(demands[i], level)
        &&& holds_early(sorted, cells, i) ==> before[i] == level && after[i] == level + 1
            && is_open(demands[i], level)
        &&& !holds_early(sorted, cells, i) ==> #[trigger] after[i] == before[i]
    } by {
        if holds_early(sorted, cells, i) {
            let p = choose|p: int| 0 <= p < cells && p < sorted.len() && sorted[p] == i;
            assert(before[sorted[p] as int] == level);
            assert(is_open(demands[sorted[p] as int], level));
        }
    }
    // An open child on the level that got no cell comes after all that did.
    assert forall|i: int, j: int|
        0 <= i < demands.len() && 0 <= j < demands.len() && holds_early(sorted, cells, j)
            && !holds_early(sorted, cells, i) && is_open(demands[i], level) && before[i]
            == level implies j < i by {
        let q = choose|q: int| 0 <= q < cells && q < sorted.len() && sorted[q] == j;
        assert(holds(sorted, i));
        let p = choose|p: int| 0 <= p < sorted.len() && sorted[p] == i;
        assert(before[sorted[q] as int] == level);
        if p < q {
            assert(0 <= p < cells && p < sorted.len() && sorted[p] == i);
        } else {
            assert(p != q);
            assert(comes_before(before, sorted[q], sorted[p]));
        }
    }
    assert forall|i: int| 0 <= i < demands.len() implies (#[trigger] demands[i]).admits(
        after[i] as int,
    ) by {
        assert(after[i] == before[i] || holds_early(sorted, cells, i));
    }
    assert forall|i: int, j: int|
        0 <= i < demands.len() && 0 <= j < demands.len() && (#[trigger] after[j]) > demands[j].min
            && demands[i].admits_more_than((#[trigger] after[i]) as int) implies after[j]
        <= after[i] + 1 by {
        assert(after[j] == before[j] || holds_early(sorted, cells, j));
        assert(after[i] == before[i] || holds_early(sorted, cells, i));
    }
    assert forall|i: int, j: int|
        0 <= i < j < demands.len() && (#[trigger] after[j]) > demands[j].min
            && demands[i].admits_more_than((#[trigger] after[i]) as int) implies after[j]
        <= after[i] by {
        assert(after[j] == before[j] || holds_early(sorted, cells, j));
        assert(after[i] == before[i] || holds_early(sorted, cells, i));
        if holds_early(sorted, cells, j) && !holds_early(sorted, cells, i) {
            if before[i] == level {
                assert(is_open(demands[i], level));
            }
        }
    }
}

/// Once no child is open any more, the children that admit more than their
/// minimum all have their maximum, which is a fair share.
pub proof fn lemma_all_capped_is_fair(
    demands: Seq<Demand>,
    extents: Seq<usize>,
    open: Seq<usize>,
    level: int,
)
    requires
        all_wf(demands),
        filled_to(demands, extents, level),
        lists_open(open, demands, level),
        open.len() == 0,
    ensures
        respects_bounds(demands, extents),
        !has_room(demands, extents),
        is_even(demands, extents),
        favors_earlier(demands, extents),
{
    assert forall|i: int| 0 <= i < demands.len() implies (#[trigger] demands[i]).admits(
        extents[i] as int,
    ) && !demands[i].admits_more_than(extents[i] as int) by {
        assert(demands[i].wf());
        assert(extents[i] == level_extent(demands[i], level));
        if is_open(demands[i], level) {
            assert(holds(open, i));
        }
    }
    assert forall|i: int, j: int|
        0 <= i < demands.len() && 0 <= j < demands.len() && (#[trigger] extents[j])
            > demands[j].min && demands[i].admits_more_than(
            (#[trigger] extents[i]) as int,
        ) implies extents[j] <= extents[i] by {
        assert(demands[i].admits(extents[i] as int));
    }
}

} // verus!

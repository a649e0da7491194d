//! Space demands: how much room a widget asks for along one axis or both.

use vstd::prelude::*;
use vstd::std_specs::ops::AddSpecImpl;

verus! {

/// The room a widget asks for along one axis: at least `min` cells and, where
/// `max` is present, no more than `max` cells.
#[derive(Clone, Copy, PartialEq, Eq, Debug, Hash)]
pub struct Demand {
    pub min: usize,
    pub max: Option<usize>,
}

/// A demand along the horizontal axis.
pub type ColDemand = Demand;

/// A demand along the vertical axis.
pub type RowDemand = Demand;

/// The room a widget asks for along both axes.
#[derive(Clone, Copy, PartialEq, Eq, Debug, Hash)]
pub struct Demand2D {
    pub width: ColDemand,
    pub height: RowDemand,
}

/// The sum of two optional upper bounds: unbounded as soon as one of them is.
pub open spec fn sum_of_bounds(a: Option<usize>, b: Option<usize>) -> Option<int> {
    match (a, b) {
        (Some(x), Some(y)) => Some(x + y),
        _ => None,
    }
}

impl Demand2D {
    /// Both demands are well formed.
    pub open spec fn wf(self) -> bool {
        self.width.wf() && self.height.wf()
    }
}

impl Demand {
    /// A demand is well formed when its upper bound, if any, is not below its
    /// lower bound.
    pub open spec fn wf(self) -> bool {
        self.max matches Some(m) ==> self.min <= m
    }

    /// A demand is flexible when it admits more than its minimum.
    pub open spec fn is_flexible(self) -> bool {
        self.max matches Some(m) ==> m != self.min
    }

    /// Whether `extent` stays below the upper bound, so that more could be
    /// given.
    pub open spec fn admits_more_than(self, extent: int) -> bool {
        self.max matches Some(m) ==> extent < m
    }

    /// Whether `extent` lies within the demand.
    pub open spec fn admits(self, extent: int) -> bool {
        self.min <= extent && (self.max matches Some(m) ==> extent <= m)
    }

    /// What `+` yields where nothing overflows: the minima add up, and so do
    /// the maxima unless one of them is absent.
    pub open spec fn plus(self, other: Demand) -> Demand {
        Demand {
            min: (self.min + other.min) as usize,
            max: match (self.max, other.max) {
                (Some(x), Some(y)) => Some((x + y) as usize),
                _ => None,
            },
        }
    }

    /// Whether the sum of two demands fits the machine's integers.
    pub open spec fn can_add(self, other: Demand) -> bool {
        self.min + other.min <= usize::MAX && (sum_of_bounds(self.max, other.max) matches Some(s)
            ==> s <= usize::MAX)
    }

    /// What `max` yields: the larger minimum, and the larger maximum unless
    /// one of them is absent.
    pub open spec fn spec_max(self, other: Demand) -> Demand {
        Demand {
            min: if self.min >= other.min { self.min } else { other.min },
            max: match (self.max, other.max) {
                (Some(x), Some(y)) => Some(if x >= y { x } else { y }),
                _ => None,
            },
        }
    }

    /// Exactly `size` cells.
    pub fn exact(size: usize) -> (d: Demand)
        ensures
            d == (Demand { min: size, max: Some(size) }),
            d.wf(),
            !d.is_flexible(),
    {
        Demand { min: size, max: Some(size) }
    }

    /// At least `size` cells, with no upper bound.
    pub fn at_least(size: usize) -> (d: Demand)
        ensures
            d == (Demand { min: size, max: None }),
            d.wf(),
            d.is_flexible(),
    {
        Demand { min: size, max: None }
    }

    /// Between `min` and `max` cells, both included.
    pub fn from_to(min: usize, max: usize) -> (d: Demand)
        requires
            min <= max,
        ensures
            d == (Demand { min: min, max: Some(max) }),
            d.wf(),
    {
        Demand { min: min, max: Some(max) }
    }

    /// No room at all.
    pub fn zero() -> (d: Demand)
        ensures
            d == (Demand { min: 0, max: Some(0) }),
            d.wf(),
    {
        Demand::exact(0)
    }

    /// The sum of two demands, unless it does not fit the machine's integers.
    pub fn checked_add(&self, other: Demand) -> (sum: Option<Demand>)
        ensures
            sum == if self.can_add(other) {
                Some(self.plus(other))
            } else {
                None
            },
    {
        if self.min > usize::MAX - other.min {
            return None;
        }
        let max = match (self.max, other.max) {
            (Some(x), Some(y)) => {
                if x > usize::MAX - y {
                    return None;
                }
                Some(x + y)
            },
            _ => None,
        };
        Some(Demand { min: self.min + other.min, max: max })
    }

    /// The pairwise maximum of two demands, used across the axis along which
    /// children lie side by side.
    pub fn max(&self, other: Demand) -> (d: Demand)
        ensures
            d == self.spec_max(other),
            self.wf() && other.wf() ==> d.wf(),
    {
        let min = if self.min >= other.min { self.min } else { other.min };
        let max = match (self.max, other.max) {
            (Some(x), Some(y)) => Some(if x >= y { x } else { y }),
            _ => None,
        };
        Demand { min: min, max: max }
    }
}

impl AddSpecImpl for Demand {
    open spec fn obeys_add_spec() -> bool {
        true
    }

    open spec fn add_req(self, rhs: Demand) -> bool {
        self.can_add(rhs)
    }

    open spec fn add_spec(self, rhs: Demand) -> Demand {
        self.plus(rhs)
    }
}

impl core::ops::Add for Demand {
    type Output = Demand;

    /// The sum of two demands, used along the axis on which children follow
    /// one another.
    fn add(self, rhs: Demand) -> (d: Demand)
        ensures
            self.wf() && rhs.wf() ==> d.wf(),
    {
        let max = match (self.max, rhs.max) {
            (Some(x), Some(y)) => Some(x + y),
            _ => None,
        };
        Demand { min: self.min + rhs.min, max: max }
    }
}

} // verus!

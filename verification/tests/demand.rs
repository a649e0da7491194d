use unsegen::widget::demand::{Demand, Demand2D};

#[test]
fn demand_constructors() {
    assert_eq!(Demand::exact(3), Demand { min: 3, max: Some(3) });
    assert_eq!(Demand::at_least(3), Demand { min: 3, max: None });
    assert_eq!(Demand::from_to(2, 7), Demand { min: 2, max: Some(7) });
    assert_eq!(Demand::from_to(2, 2), Demand::exact(2));
    assert_eq!(Demand::zero(), Demand::exact(0));
}

#[test]
fn demand_sum_adds_both_bounds() {
    assert_eq!(Demand::exact(1) + Demand::exact(2), Demand::exact(3));
    assert_eq!(Demand::from_to(1, 2) + Demand::from_to(3, 5), Demand::from_to(4, 7));
    assert_eq!(Demand::zero() + Demand::from_to(3, 5), Demand::from_to(3, 5));
}

#[test]
fn demand_sum_is_unbounded_where_a_part_is() {
    assert_eq!(Demand::at_least(1) + Demand::exact(2), Demand::at_least(3));
    assert_eq!(Demand::from_to(1, 4) + Demand::at_least(2), Demand::at_least(3));
    assert_eq!(Demand::at_least(1) + Demand::at_least(2), Demand::at_least(3));
}

#[test]
fn demand_max_takes_the_larger_bounds() {
    assert_eq!(Demand::exact(1).max(Demand::exact(2)), Demand::exact(2));
    assert_eq!(Demand::from_to(1, 3).max(Demand::exact(2)), Demand::from_to(2, 3));
    assert_eq!(Demand::from_to(2, 3).max(Demand::from_to(1, 5)), Demand::from_to(2, 5));
    assert_eq!(Demand::exact(0).max(Demand::from_to(1, 5)), Demand::from_to(1, 5));
}

#[test]
fn demand_max_is_unbounded_where_a_part_is() {
    assert_eq!(Demand::at_least(3).max(Demand::exact(5)), Demand::at_least(5));
    assert_eq!(Demand::exact(5).max(Demand::at_least(3)), Demand::at_least(5));
    assert_eq!(Demand::at_least(3).max(Demand::at_least(1)), Demand::at_least(3));
}

#[test]
fn demand2d_holds_one_demand_for_each_axis() {
    let demand = Demand2D {
        width: Demand::exact(4),
        height: Demand::at_least(1),
    };
    assert_eq!(demand.width, Demand::exact(4));
    assert_eq!(demand.height, Demand::at_least(1));
    assert_ne!(
        demand,
        Demand2D {
            width: Demand::at_least(1),
            height: Demand::exact(4),
        }
    );
}

#[test]
fn demand_checked_add_fails_where_a_sum_does_not_fit() {
    assert_eq!(
        Demand::from_to(1, 2).checked_add(Demand::from_to(3, 5)),
        Some(Demand::from_to(4, 7))
    );
    assert_eq!(
        Demand::at_least(1).checked_add(Demand::exact(usize::MAX - 1)),
        Some(Demand::at_least(usize::MAX))
    );
    assert_eq!(Demand::exact(1).checked_add(Demand::exact(usize::MAX)), None);
    assert_eq!(Demand::at_least(1).checked_add(Demand::at_least(usize::MAX)), None);
    assert_eq!(
        Demand::from_to(0, 1).checked_add(Demand::from_to(0, usize::MAX)),
        None
    );
}

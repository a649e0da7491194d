use rand::Rng;
use unsegen::base::grapheme_cluster::GraphemeCluster;
use unsegen::base::style::{ModifyMode, Style, StyleModifier};
use unsegen::base::surface::Surface;
use unsegen::base::window::Window;
use unsegen::widget::demand::{ColDemand, Demand, Demand2D, RowDemand};
use unsegen::widget::layouts::{
    draw_linearly, layout_linearly, Axis, HorizontalLayout, SeparatingStyle, VerticalLayout,
};
use unsegen::widget::{RenderingHints, Widget};

struct FakeWidget {
    space_demand: Demand2D,
    fill_char: char,
}

impl FakeWidget {
    fn new(space_demand: (ColDemand, RowDemand)) -> Self {
        Self::with_fill_char(space_demand, '_')
    }

    fn with_fill_char(space_demand: (ColDemand, RowDemand), fill_char: char) -> Self {
        FakeWidget {
            space_demand: Demand2D {
                width: space_demand.0,
                height: space_demand.1,
            },
            fill_char: fill_char,
        }
    }
}

impl Widget for FakeWidget {
    fn space_demand(&self) -> Demand2D {
        self.space_demand
    }

    fn draw(&self, surface: &mut Surface, window: Window, _: RenderingHints) {
        window.fill(surface, GraphemeCluster::try_from(self.fill_char).unwrap());
    }
}

fn assert_eq_boxed_slices(b1: Vec<usize>, b2: Vec<usize>, description: &str) {
    assert_eq!(b1, b2, "{}", description);
}

fn w(i: usize) -> usize {
    i
}

#[test]
fn test_layout_linearly_exact() {
    assert_eq_boxed_slices(
        layout_linearly(w(4), w(0), &[Demand::exact(1), Demand::exact(2)]),
        vec![1, 2],
        "some left",
    );
    assert_eq_boxed_slices(
        layout_linearly(w(4), w(0), &[Demand::exact(1), Demand::exact(3)]),
        vec![1, 3],
        "exact",
    );
    assert_eq_boxed_slices(
        layout_linearly(w(4), w(0), &[Demand::exact(2), Demand::exact(3)]),
        vec![2, 2],
        "less for 2nd",
    );
    assert_eq_boxed_slices(
        layout_linearly(w(4), w(0), &[Demand::exact(5), Demand::exact(3)]),
        vec![4, 0],
        "none for 2nd",
    );
}

#[test]
fn test_layout_linearly_from_to() {
    assert_eq_boxed_slices(
        layout_linearly(w(4), w(0), &[Demand::from_to(1, 2), Demand::from_to(1, 2)]),
        vec![2, 2],
        "both hit max",
    );
    assert_eq_boxed_slices(
        layout_linearly(w(4), w(0), &[Demand::from_to(1, 2), Demand::from_to(1, 3)]),
        vec![2, 2],
        "less for 2nd",
    );
    assert_eq_boxed_slices(
        layout_linearly(w(4), w(0), &[Demand::from_to(5, 6), Demand::from_to(1, 4)]),
        vec![4, 0],
        "nothing for 2nd",
    );
    assert_eq_boxed_slices(
        layout_linearly(w(4), w(0), &[Demand::from_to(1, 5), Demand::from_to(1, 4)]),
        vec![2, 2],
        "both not full",
    );
}

#[test]
fn test_layout_linearly_from_at_least() {
    assert_eq_boxed_slices(
        layout_linearly(w(4), w(0), &[Demand::at_least(1), Demand::at_least(1)]),
        vec![2, 2],
        "more for both",
    );
    assert_eq_boxed_slices(
        layout_linearly(w(4), w(0), &[Demand::at_least(1), Demand::at_least(2)]),
        vec![2, 2],
        "more for 1st, exact for 2nd",
    );
    assert_eq_boxed_slices(
        layout_linearly(w(4), w(0), &[Demand::at_least(2), Demand::at_least(2)]),
        vec![2, 2],
        "exact for both",
    );
    assert_eq_boxed_slices(
        layout_linearly(w(4), w(0), &[Demand::at_least(5), Demand::at_least(2)]),
        vec![4, 0],
        "none for 2nd",
    );
}

#[test]
fn test_layout_linearly_mixed() {
    assert_eq_boxed_slices(
        layout_linearly(w(10), w(0), &[Demand::exact(3), Demand::at_least(1)]),
        vec![3, 7],
        "exact, 2nd takes rest, no separator",
    );
    assert_eq_boxed_slices(
        layout_linearly(w(10), w(1), &[Demand::exact(3), Demand::at_least(1)]),
        vec![3, 6],
        "exact, 2nd takes rest, separator",
    );
    assert_eq_boxed_slices(
        layout_linearly(w(10), w(0), &[Demand::from_to(1, 2), Demand::at_least(1)]),
        vec![2, 8],
        "from_to, 2nd takes rest",
    );
    assert_eq_boxed_slices(
        layout_linearly(
            w(10),
            w(0),
            &[Demand::from_to(1, 2), Demand::exact(3), Demand::at_least(1)],
        ),
        vec![2, 3, 5],
        "misc 1",
    );
    assert_eq_boxed_slices(
        layout_linearly(
            w(10),
            w(0),
            &[Demand::from_to(5, 6), Demand::exact(5), Demand::at_least(5)],
        ),
        vec![5, 5, 0],
        "misc 2",
    );
    assert_eq_boxed_slices(
        layout_linearly(
            w(10),
            w(0),
            &[Demand::from_to(4, 6), Demand::exact(4), Demand::at_least(3)],
        ),
        vec![4, 4, 2],
        "misc 3",
    );
    assert_eq_boxed_slices(
        layout_linearly(
            w(10),
            w(0),
            &[Demand::from_to(3, 6), Demand::exact(4), Demand::at_least(3)],
        ),
        vec![3, 4, 3],
        "misc 4",
    );
    assert_eq_boxed_slices(
        layout_linearly(
            w(10),
            w(0),
            &[Demand::from_to(3, 6), Demand::exact(3), Demand::at_least(3)],
        ),
        vec![4, 3, 3],
        "misc 5",
    );
    assert_eq_boxed_slices(
        layout_linearly(
            w(10),
            w(0),
            &[Demand::from_to(2, 4), Demand::exact(2), Demand::at_least(3)],
        ),
        vec![4, 2, 4],
        "misc 6",
    );
    assert_eq_boxed_slices(
        layout_linearly(
            w(10),
            w(0),
            &[Demand::from_to(2, 4), Demand::exact(2), Demand::exact(3)],
        ),
        vec![4, 2, 3],
        "misc 7",
    );
    assert_eq_boxed_slices(
        layout_linearly(
            w(10),
            w(0),
            &[Demand::from_to(2, 4), Demand::exact(2), Demand::at_least(4)],
        ),
        vec![4, 2, 4],
        "misc 8",
    );
    assert_eq_boxed_slices(
        layout_linearly(
            w(10),
            w(0),
            &[
                Demand::from_to(2, 3),
                Demand::at_least(2),
                Demand::at_least(2),
            ],
        ),
        vec![3, 4, 3],
        "misc 9",
    );

    assert_eq_boxed_slices(
        layout_linearly(w(82), w(1), &[Demand::at_least(4), Demand::at_least(51)]),
        vec![30, 51],
        "misc 10",
    );
}

fn aeq_horizontal_layout_space_demand(widgets: Vec<&dyn Widget>, solution: (ColDemand, RowDemand)) {
    let demand2d = Demand2D {
        width: solution.0,
        height: solution.1,
    };
    assert_eq!(
        HorizontalLayout::new(SeparatingStyle::NoSeparator).space_demand(widgets.as_slice()),
        demand2d
    );
}

#[test]
fn test_horizontal_layout_space_demand() {
    aeq_horizontal_layout_space_demand(
        vec![
            &FakeWidget::new((Demand::exact(1), Demand::exact(2))),
            &FakeWidget::new((Demand::exact(1), Demand::exact(2))),
        ],
        (Demand::exact(2), Demand::exact(2)),
    );
    aeq_horizontal_layout_space_demand(
        vec![
            &FakeWidget::new((Demand::from_to(1, 2), Demand::from_to(1, 3))),
            &FakeWidget::new((Demand::exact(1), Demand::exact(2))),
        ],
        (Demand::from_to(2, 3), Demand::from_to(2, 3)),
    );
    aeq_horizontal_layout_space_demand(
        vec![
            &FakeWidget::new((Demand::at_least(3), Demand::at_least(3))),
            &FakeWidget::new((Demand::exact(1), Demand::exact(5))),
        ],
        (Demand::at_least(4), Demand::at_least(5)),
    );
}

fn rows_of(surface: &Surface) -> String {
    let mut rows = Vec::new();
    for y in 0..surface.height() {
        rows.push(surface.row_text(y).unwrap());
    }
    rows.join(" ")
}

fn aeq_horizontal_layout_draw(terminal_size: (usize, usize), widgets: Vec<&dyn Widget>, solution: &str) {
    let mut term = Surface::with_size(terminal_size.0, terminal_size.1);
    let widgets_with_hints: Vec<(&dyn Widget, RenderingHints)> = widgets
        .into_iter()
        .map(|w| (w, RenderingHints::default()))
        .collect();
    let root = term.create_root_window();
    HorizontalLayout::new(SeparatingStyle::NoSeparator).draw(
        &mut term,
        root,
        widgets_with_hints.as_slice(),
    );
    assert_eq!(rows_of(&term), solution);
}

#[test]
fn test_horizontal_layout_draw() {
    aeq_horizontal_layout_draw(
        (4, 1),
        vec![
            &FakeWidget::with_fill_char((Demand::exact(2), Demand::exact(1)), '1'),
            &FakeWidget::with_fill_char((Demand::exact(2), Demand::exact(1)), '2'),
        ],
        "1122",
    );
    aeq_horizontal_layout_draw(
        (4, 1),
        vec![
            &FakeWidget::with_fill_char((Demand::exact(1), Demand::exact(1)), '1'),
            &FakeWidget::with_fill_char((Demand::at_least(2), Demand::exact(1)), '2'),
        ],
        "1222",
    );
    aeq_horizontal_layout_draw(
        (4, 2),
        vec![
            &FakeWidget::with_fill_char((Demand::exact(1), Demand::exact(1)), '1'),
            &FakeWidget::with_fill_char((Demand::at_least(2), Demand::exact(2)), '2'),
        ],
        "1222 1222",
    );
    aeq_horizontal_layout_draw(
        (8, 1),
        vec![
            &FakeWidget::with_fill_char((Demand::at_least(1), Demand::at_least(1)), '1'),
            &FakeWidget::with_fill_char((Demand::at_least(3), Demand::exact(3)), '2'),
        ],
        "11112222",
    );
}

fn aeq_vertical_layout_space_demand(widgets: Vec<&dyn Widget>, solution: (ColDemand, RowDemand)) {
    let demand2d = Demand2D {
        width: solution.0,
        height: solution.1,
    };
    assert_eq!(
        VerticalLayout::new(SeparatingStyle::NoSeparator).space_demand(widgets.as_slice()),
        demand2d
    );
}

#[test]
fn test_vertical_layout_space_demand() {
    aeq_vertical_layout_space_demand(
        vec![
            &FakeWidget::new((Demand::exact(2), Demand::exact(1))),
            &FakeWidget::new((Demand::exact(2), Demand::exact(1))),
        ],
        (Demand::exact(2), Demand::exact(2)),
    );
    aeq_vertical_layout_space_demand(
        vec![
            &FakeWidget::new((Demand::from_to(1, 3), Demand::from_to(1, 2))),
            &FakeWidget::new((Demand::exact(2), Demand::exact(1))),
        ],
        (Demand::from_to(2, 3), Demand::from_to(2, 3)),
    );
    aeq_vertical_layout_space_demand(
        vec![
            &FakeWidget::new((Demand::at_least(3), Demand::at_least(3))),
            &FakeWidget::new((Demand::exact(5), Demand::exact(1))),
        ],
        (Demand::at_least(5), Demand::at_least(4)),
    );
}

fn aeq_vertical_layout_draw(terminal_size: (usize, usize), widgets: Vec<&dyn Widget>, solution: &str) {
    let mut term = Surface::with_size(terminal_size.0, terminal_size.1);
    let widgets_with_hints: Vec<(&dyn Widget, RenderingHints)> = widgets
        .into_iter()
        .map(|w| (w, RenderingHints::default()))
        .collect();
    let root = term.create_root_window();
    VerticalLayout::new(SeparatingStyle::NoSeparator).draw(
        &mut term,
        root,
        widgets_with_hints.as_slice(),
    );
    assert_eq!(rows_of(&term), solution);
}

#[test]
fn test_vertical_layout_draw() {
    aeq_vertical_layout_draw(
        (1, 4),
        vec![
            &FakeWidget::with_fill_char((Demand::exact(1), Demand::exact(2)), '1'),
            &FakeWidget::with_fill_char((Demand::exact(1), Demand::exact(2)), '2'),
        ],
        "1 1 2 2",
    );
    aeq_vertical_layout_draw(
        (1, 4),
        vec![
            &FakeWidget::with_fill_char((Demand::exact(1), Demand::exact(1)), '1'),
            &FakeWidget::with_fill_char((Demand::exact(1), Demand::at_least(2)), '2'),
        ],
        "1 2 2 2",
    );
    aeq_vertical_layout_draw(
        (2, 4),
        vec![
            &FakeWidget::with_fill_char((Demand::exact(1), Demand::exact(1)), '1'),
            &FakeWidget::with_fill_char((Demand::exact(2), Demand::at_least(2)), '2'),
        ],
        "11 22 22 22",
    );
    aeq_vertical_layout_draw(
        (1, 8),
        vec![
            &FakeWidget::with_fill_char((Demand::at_least(2), Demand::at_least(2)), '1'),
            &FakeWidget::with_fill_char((Demand::at_least(1), Demand::at_least(1)), '2'),
        ],
        "1 1 1 1 2 2 2 2",
    );
}

fn min_total(separator: usize, demands: &[Demand]) -> usize {
    let mins: usize = demands.iter().map(|d| d.min).sum();
    mins + separator * demands.len().saturating_sub(1)
}

fn has_room(demand: &Demand, extent: usize) -> bool {
    match demand.max {
        Some(max) => extent < max,
        None => true,
    }
}

fn check_layout(available: usize, separator: usize, demands: &[Demand], extents: &[usize]) {
    assert_eq!(extents.len(), demands.len());
    let total: usize = extents.iter().sum();
    assert!(total <= available);
    for (demand, &extent) in demands.iter().zip(extents.iter()) {
        if let Some(max) = demand.max {
            assert!(extent <= max);
        }
    }
    let mut before = 0;
    for (i, (demand, &extent)) in demands.iter().zip(extents.iter()).enumerate() {
        if before + demand.min <= available {
            assert!(demand.min <= extent, "child {} lacks its minimum", i);
        }
        before += demand.min + separator;
    }
    if demands.is_empty() || available > min_total(separator, demands) {
        let spacing = separator * demands.len().saturating_sub(1);
        assert!(total + spacing <= available);
        if demands.iter().zip(extents.iter()).any(|(d, &e)| has_room(d, e)) {
            assert_eq!(total + spacing, available);
        }
        for (i, (di, &ei)) in demands.iter().zip(extents.iter()).enumerate() {
            for (j, (dj, &ej)) in demands.iter().zip(extents.iter()).enumerate() {
                if ej > dj.min && has_room(di, ei) {
                    assert!(ej <= ei + 1);
                    if i < j {
                        assert!(ej <= ei);
                    }
                }
            }
        }
    } else {
        let placed = (0..demands.len())
            .filter(|&i| {
                let cost: usize = demands[..i].iter().map(|d| d.min + separator).sum();
                i == 0 || cost < available
            })
            .count();
        let spacing = separator * placed.saturating_sub(1);
        assert!(total + spacing <= available);
        assert!(available - total - spacing <= separator);
    }
}

#[test]
fn fuzz_layout_linearly() {
    let fuzz_iterations = 10000;
    let max_widgets = 10;
    let max_space = 1000;
    let max_separator_size = 5;

    let mut rng = rand::thread_rng();
    for _ in 0..fuzz_iterations {
        let mut demands = Vec::new();
        for _ in 0..max_widgets {
            let min = w(rng.gen_range(0..max_space));
            let demand = if rng.gen::<bool>() {
                Demand::from_to(min, w(rng.gen_range(min..max_space)))
            } else {
                Demand::at_least(min)
            };
            demands.push(demand);
        }

        let space = rng.gen_range(0..max_space);
        let separator_size = rng.gen_range(0..max_separator_size);
        let extents = layout_linearly(w(space), w(separator_size), demands.as_slice());
        check_layout(space, separator_size, demands.as_slice(), extents.as_slice());
    }
}

#[test]
fn fuzz_layout_linearly_small() {
    let mut rng = rand::thread_rng();
    for _ in 0..20000 {
        let count = rng.gen_range(0..6);
        let mut demands = Vec::new();
        for _ in 0..count {
            let min = rng.gen_range(0..7);
            let demand = match rng.gen_range(0..3) {
                0 => Demand::exact(min),
                1 => Demand::from_to(min, rng.gen_range(min..min + 6)),
                _ => Demand::at_least(min),
            };
            demands.push(demand);
        }
        let space = rng.gen_range(0..31);
        let separator_size = rng.gen_range(0..4);
        let extents = layout_linearly(space, separator_size, demands.as_slice());
        check_layout(space, separator_size, demands.as_slice(), extents.as_slice());
        let again = layout_linearly(space, separator_size, demands.as_slice());
        assert_eq!(extents, again);
    }
}

#[test]
fn layout_of_nothing_is_empty() {
    assert_eq!(layout_linearly(1000, 5, &[]), Vec::<usize>::new());
    assert_eq!(layout_linearly(0, 0, &[]), Vec::<usize>::new());
}

#[test]
fn layout_of_no_space() {
    assert_eq!(layout_linearly(0, 0, &[Demand::at_least(0), Demand::exact(0)]), vec![0, 0]);
    assert_eq!(layout_linearly(0, 1, &[Demand::at_least(1)]), vec![0]);
}

#[test]
fn layout_stops_where_the_separator_does_not_fit() {
    assert_eq!(layout_linearly(3, 2, &[Demand::at_least(1), Demand::at_least(1)]), vec![1, 0]);
    assert_eq!(layout_linearly(2, 2, &[Demand::exact(1), Demand::exact(1)]), vec![1, 0]);
    assert_eq!(layout_linearly(2, 1, &[Demand::at_least(1), Demand::at_least(1)]), vec![1, 0]);
    assert_eq!(
        layout_linearly(4, 1, &[Demand::exact(2), Demand::exact(2), Demand::exact(2)]),
        vec![2, 1, 0]
    );
    assert_eq!(
        layout_linearly(
            10,
            1,
            &[Demand::exact(2), Demand::exact(2), Demand::exact(2), Demand::exact(2)]
        ),
        vec![2, 2, 2, 1]
    );
    assert_eq!(
        layout_linearly(17, 3, &[Demand::at_least(2), Demand::from_to(1, 9), Demand::at_least(8)]),
        vec![2, 1, 8]
    );
}

#[test]
fn layout_gives_leftover_cells_to_the_earliest() {
    assert_eq!(layout_linearly(7, 0, &[Demand::at_least(3), Demand::at_least(1)]), vec![4, 3]);
    assert_eq!(
        layout_linearly(
            29,
            3,
            &[Demand::at_least(3), Demand::at_least(3), Demand::at_least(1), Demand::at_least(6)]
        ),
        vec![5, 5, 4, 6]
    );
    assert_eq!(
        layout_linearly(11, 0, &[Demand::at_least(0), Demand::at_least(0), Demand::at_least(0)]),
        vec![4, 4, 3]
    );
}

#[test]
fn layout_raises_the_lowest_first() {
    assert_eq!(
        layout_linearly(8, 0, &[Demand::at_least(5), Demand::at_least(1), Demand::at_least(1)]),
        vec![5, 2, 1]
    );
    assert_eq!(
        layout_linearly(
            100,
            2,
            &[
                Demand::from_to(0, 10),
                Demand::from_to(5, 30),
                Demand::at_least(7),
                Demand::exact(4),
                Demand::from_to(20, 25)
            ]
        ),
        vec![10, 27, 26, 4, 25]
    );
}

#[test]
fn layout_leaves_space_unused_once_all_have_their_maximum() {
    assert_eq!(
        layout_linearly(
            20,
            1,
            &[Demand::from_to(0, 3), Demand::from_to(0, 3), Demand::from_to(0, 3)]
        ),
        vec![3, 3, 3]
    );
    assert_eq!(layout_linearly(6, 0, &[Demand::from_to(1, 2)]), vec![2]);
    assert_eq!(layout_linearly(5, 1, &[Demand::exact(1), Demand::at_least(1)]), vec![1, 3]);
    assert_eq!(layout_linearly(3, 1, &[Demand::exact(1), Demand::exact(1)]), vec![1, 1]);
}

#[test]
fn separating_styles_take_one_cell_or_none() {
    let line = SeparatingStyle::Draw(GraphemeCluster::try_from('|').unwrap());
    assert_eq!(line.width(), 1);
    assert_eq!(line.height(), 1);
    assert_eq!(SeparatingStyle::NoSeparator.width(), 0);
    assert_eq!(SeparatingStyle::NoSeparator.height(), 0);
    let alternating = SeparatingStyle::AlternatingStyle(StyleModifier::new().bold(ModifyMode::Yes));
    assert_eq!(alternating.width(), 0);
    assert_eq!(alternating.height(), 0);
    assert_eq!(line.clone(), line);
}

#[test]
fn layouts_add_the_separators_to_their_demand() {
    let a = FakeWidget::new((Demand::from_to(1, 2), Demand::exact(3)));
    let b = FakeWidget::new((Demand::exact(4), Demand::from_to(1, 5)));
    let c = FakeWidget::new((Demand::exact(1), Demand::exact(1)));
    let widgets: Vec<&dyn Widget> = vec![&a, &b, &c];
    let line = SeparatingStyle::Draw(GraphemeCluster::try_from('|').unwrap());
    assert_eq!(
        HorizontalLayout::new(line.clone()).space_demand(widgets.as_slice()),
        Demand2D {
            width: Demand::from_to(8, 9),
            height: Demand::from_to(3, 5),
        }
    );
    assert_eq!(
        VerticalLayout::new(line.clone()).space_demand(widgets.as_slice()),
        Demand2D {
            width: Demand::from_to(4, 4),
            height: Demand::from_to(7, 11),
        }
    );
    assert_eq!(
        HorizontalLayout::new(line.clone()).space_demand(&[]),
        Demand2D {
            width: Demand::exact(0),
            height: Demand::exact(0),
        }
    );
    let single: Vec<&dyn Widget> = vec![&a];
    assert_eq!(
        VerticalLayout::new(line).space_demand(single.as_slice()),
        Demand2D {
            width: Demand::from_to(1, 2),
            height: Demand::exact(3),
        }
    );
}

fn draw_with(
    size: (usize, usize),
    widgets: Vec<&dyn Widget>,
    style: SeparatingStyle,
    axis: Axis,
) -> Surface {
    let mut term = Surface::with_size(size.0, size.1);
    let widgets_with_hints: Vec<(&dyn Widget, RenderingHints)> = widgets
        .into_iter()
        .map(|w| (w, RenderingHints::default()))
        .collect();
    let root = term.create_root_window();
    draw_linearly(&mut term, root, widgets_with_hints.as_slice(), &style, axis);
    term
}

#[test]
fn horizontal_layout_draws_separators_between_children() {
    let a = FakeWidget::with_fill_char((Demand::exact(1), Demand::exact(1)), '1');
    let b = FakeWidget::with_fill_char((Demand::at_least(1), Demand::exact(1)), '2');
    let line = SeparatingStyle::Draw(GraphemeCluster::try_from('|').unwrap());
    let term = draw_with((5, 1), vec![&a, &b], line.clone(), Axis::Horizontal);
    assert_eq!(rows_of(&term), "1|222");

    let c = FakeWidget::with_fill_char((Demand::exact(2), Demand::exact(1)), '1');
    let d = FakeWidget::with_fill_char((Demand::exact(2), Demand::exact(1)), '2');
    let e = FakeWidget::with_fill_char((Demand::exact(2), Demand::exact(1)), '3');
    let term = draw_with((4, 1), vec![&c, &d, &e], line.clone(), Axis::Horizontal);
    assert_eq!(rows_of(&term), "11|2");

    let term = draw_with((8, 2), vec![&c, &d, &e], line, Axis::Horizontal);
    assert_eq!(rows_of(&term), "11|22|33 11|22|33");
}

#[test]
fn vertical_layout_draws_separators_between_children() {
    let a = FakeWidget::with_fill_char((Demand::exact(1), Demand::exact(1)), '1');
    let b = FakeWidget::with_fill_char((Demand::exact(1), Demand::exact(1)), '2');
    let line = SeparatingStyle::Draw(GraphemeCluster::try_from('-').unwrap());
    let term = draw_with((2, 3), vec![&a, &b], line, Axis::Vertical);
    assert_eq!(rows_of(&term), "11 -- 22");
}

#[test]
fn alternating_style_marks_every_other_child() {
    let a = FakeWidget::with_fill_char((Demand::exact(1), Demand::exact(1)), '1');
    let b = FakeWidget::with_fill_char((Demand::exact(1), Demand::exact(1)), '2');
    let c = FakeWidget::with_fill_char((Demand::exact(1), Demand::exact(1)), '3');
    let style = SeparatingStyle::AlternatingStyle(StyleModifier::new().invert(ModifyMode::Toggle));
    let term = draw_with((3, 1), vec![&a, &b, &c], style, Axis::Horizontal);
    assert_eq!(rows_of(&term), "123");
    let inverted = Style {
        bold: false,
        italic: false,
        invert: true,
        underline: false,
    };
    assert_eq!(term.rows[0][0].style, Style::default());
    assert_eq!(term.rows[0][1].style, inverted);
    assert_eq!(term.rows[0][2].style, Style::default());
}

#[test]
fn layout_draws_only_into_its_window() {
    let a = FakeWidget::with_fill_char((Demand::at_least(1), Demand::exact(1)), '1');
    let b = FakeWidget::with_fill_char((Demand::at_least(1), Demand::exact(1)), '2');
    let mut term = Surface::with_size(6, 3);
    let root = term.create_root_window();
    let (_, lower) = root.split_v(1).unwrap();
    let (middle, _) = lower.split_v(1).unwrap();
    let (_, right) = middle.split_h(2).unwrap();
    let (window, _) = right.split_h(3).unwrap();
    let widgets: Vec<(&dyn Widget, RenderingHints)> = vec![
        (&a, RenderingHints::default()),
        (&b, RenderingHints::default()),
    ];
    HorizontalLayout::new(SeparatingStyle::NoSeparator).draw(&mut term, window, widgets.as_slice());
    assert_eq!(rows_of(&term), "         112        ");
}

struct Idle;

impl Widget for Idle {
    fn space_demand(&self) -> Demand2D {
        Demand2D {
            width: Demand::exact(2),
            height: Demand::exact(1),
        }
    }

    fn draw(&self, _: &mut Surface, _: Window, _: RenderingHints) {}
}

#[test]
fn layout_clears_what_a_child_leaves_blank() {
    let mut term = Surface::with_size(4, 1);
    let root = term.create_root_window();
    root.fill(&mut term, GraphemeCluster::try_from('x').unwrap());
    assert_eq!(rows_of(&term), "xxxx");
    let idle = Idle;
    let widgets: Vec<(&dyn Widget, RenderingHints)> = vec![(&idle, RenderingHints::default())];
    let root = term.create_root_window();
    HorizontalLayout::new(SeparatingStyle::NoSeparator).draw(&mut term, root, widgets.as_slice());
    assert_eq!(rows_of(&term), "  xx");
}

#[test]
fn layout_conserves_space() {
    let demands = [Demand::from_to(2, 9), Demand::exact(3), Demand::at_least(1)];
    let extents = layout_linearly(20, 2, &demands);
    assert_eq!(extents, vec![7, 3, 6]);
    assert_eq!(extents.iter().sum::<usize>() + 2 * 2, 20);
    let capped = [Demand::from_to(2, 4), Demand::exact(3)];
    let extents = layout_linearly(20, 2, &capped);
    assert_eq!(extents, vec![4, 3]);
    assert!(extents.iter().sum::<usize>() + 2 <= 20);
    let starved = layout_linearly(6, 2, &demands);
    assert_eq!(starved, vec![2, 2, 0]);
    assert_eq!(starved.iter().sum::<usize>() + 2, 6);
}

#[test]
fn layout_respects_bounds() {
    let demands = [
        Demand::from_to(1, 3),
        Demand::exact(2),
        Demand::at_least(4),
        Demand::from_to(0, 1),
    ];
    let extents = layout_linearly(30, 1, &demands);
    assert_eq!(extents, vec![3, 2, 21, 1]);
    check_layout(30, 1, &demands, &extents);
    let extents = layout_linearly(9, 1, &demands);
    assert_eq!(extents, vec![1, 2, 4, 0]);
    check_layout(9, 1, &demands, &extents);
    let extents = layout_linearly(7, 1, &demands);
    assert_eq!(extents, vec![1, 2, 2, 0]);
    check_layout(7, 1, &demands, &extents);
}

#[test]
fn layout_is_fair() {
    let demands = [
        Demand::at_least(0),
        Demand::at_least(2),
        Demand::from_to(1, 4),
        Demand::at_least(9),
        Demand::at_least(0),
    ];
    let extents = layout_linearly(30, 0, &demands);
    assert_eq!(extents, vec![6, 6, 4, 9, 5]);
    check_layout(30, 0, &demands, &extents);
}

#[test]
fn layout_is_the_same_every_time() {
    let demands = [Demand::at_least(3), Demand::from_to(1, 6), Demand::at_least(1)];
    let first = layout_linearly(17, 1, &demands);
    for _ in 0..10 {
        assert_eq!(layout_linearly(17, 1, &demands), first);
    }
    assert_eq!(first, vec![5, 5, 5]);
}

#[test]
fn layout_of_worked_examples() {
    let examples: Vec<(usize, usize, Vec<Demand>, Vec<usize>)> = vec![
        (9, 3, vec![Demand::at_least(7), Demand::at_least(0), Demand::from_to(8, 11), Demand::exact(2)], vec![7, 0, 0, 0]),
        (53, 2, vec![Demand::from_to(3, 8), Demand::at_least(0), Demand::from_to(3, 11), Demand::at_least(4), Demand::from_to(9, 12)], vec![8, 10, 9, 9, 9]),
        (5, 1, vec![Demand::exact(9), Demand::exact(2), Demand::exact(6), Demand::from_to(7, 8), Demand::from_to(4, 10)], vec![5, 0, 0, 0, 0]),
        (18, 0, vec![Demand::at_least(8)], vec![18]),
        (4, 1, vec![Demand::at_least(8), Demand::at_least(8), Demand::exact(6), Demand::at_least(2), Demand::from_to(1, 9)], vec![4, 0, 0, 0, 0]),
        (56, 2, vec![Demand::from_to(3, 9), Demand::at_least(6), Demand::from_to(9, 16), Demand::from_to(8, 12)], vec![9, 15, 14, 12]),
        (25, 3, vec![Demand::exact(6), Demand::exact(5), Demand::from_to(0, 4), Demand::exact(1), Demand::at_least(1)], vec![6, 5, 0, 1, 1]),
        (32, 3, vec![Demand::at_least(0)], vec![32]),
        (21, 2, vec![Demand::from_to(8, 15), Demand::exact(1), Demand::exact(9), Demand::at_least(9), Demand::from_to(9, 11)], vec![8, 1, 8, 0, 0]),
        (52, 0, vec![Demand::from_to(5, 8), Demand::from_to(0, 2)], vec![8, 2]),
        (31, 2, vec![Demand::at_least(4), Demand::from_to(3, 6)], vec![23, 6]),
        (26, 2, vec![Demand::from_to(6, 14)], vec![14]),
        (23, 0, vec![Demand::from_to(3, 10)], vec![10]),
        (21, 1, vec![Demand::from_to(8, 13), Demand::exact(8), Demand::from_to(1, 5), Demand::at_least(0), Demand::at_least(1)], vec![8, 8, 1, 0, 0]),
        (26, 3, vec![Demand::at_least(5)], vec![26]),
        (37, 1, vec![Demand::from_to(2, 5), Demand::from_to(3, 11)], vec![5, 11]),
        (28, 3, vec![Demand::from_to(4, 7)], vec![7]),
        (59, 1, vec![Demand::from_to(6, 14), Demand::at_least(9), Demand::from_to(1, 6)], vec![14, 37, 6]),
        (8, 2, vec![Demand::exact(2), Demand::from_to(0, 3), Demand::at_least(2)], vec![2, 0, 2]),
        (38, 1, vec![Demand::exact(8), Demand::from_to(7, 12), Demand::at_least(8), Demand::exact(8), Demand::at_least(1)], vec![8, 7, 8, 8, 3]),
        (17, 1, vec![Demand::from_to(3, 9), Demand::from_to(8, 14), Demand::at_least(4), Demand::from_to(5, 11)], vec![3, 8, 4, 0]),
        (22, 2, vec![Demand::from_to(5, 11), Demand::from_to(8, 14), Demand::at_least(2)], vec![5, 8, 5]),
        (0, 3, vec![Demand::at_least(1)], vec![0]),
        (14, 0, vec![Demand::at_least(2), Demand::from_to(9, 15), Demand::at_least(2)], vec![3, 9, 2]),
        (60, 1, vec![Demand::from_to(6, 13), Demand::at_least(0), Demand::exact(7)], vec![13, 38, 7]),
        (28, 0, vec![Demand::from_to(5, 11), Demand::from_to(2, 9), Demand::from_to(1, 5)], vec![11, 9, 5]),
        (47, 2, vec![Demand::from_to(8, 11), Demand::from_to(3, 8), Demand::from_to(9, 17)], vec![11, 8, 17]),
        (3, 3, vec![Demand::at_least(5)], vec![3]),
        (31, 0, vec![Demand::from_to(9, 16), Demand::from_to(3, 4), Demand::from_to(5, 7), Demand::exact(9)], vec![11, 4, 7, 9]),
        (20, 3, vec![Demand::from_to(4, 6)], vec![6]),
        (23, 3, vec![Demand::at_least(1), Demand::exact(2)], vec![18, 2]),
        (6, 2, vec![Demand::from_to(5, 8), Demand::at_least(2), Demand::at_least(4), Demand::exact(3), Demand::at_least(9)], vec![5, 0, 0, 0, 0]),
        (17, 0, vec![Demand::from_to(3, 4), Demand::exact(0), Demand::exact(1)], vec![4, 0, 1]),
        (5, 2, vec![Demand::at_least(4), Demand::exact(1), Demand::from_to(0, 6), Demand::at_least(8), Demand::at_least(3)], vec![4, 0, 0, 0, 0]),
        (49, 1, vec![Demand::from_to(7, 12), Demand::from_to(0, 7)], vec![12, 7]),
        (14, 2, vec![Demand::at_least(4), Demand::from_to(4, 9), Demand::from_to(1, 3), Demand::from_to(0, 3), Demand::at_least(3)], vec![4, 4, 1, 0, 0]),
        (35, 3, vec![Demand::exact(1), Demand::from_to(5, 12), Demand::from_to(2, 4)], vec![1, 12, 4]),
        (33, 0, vec![Demand::at_least(6), Demand::from_to(5, 11)], vec![22, 11]),
        (31, 0, vec![Demand::at_least(3), Demand::at_least(8), Demand::exact(0), Demand::from_to(8, 16)], vec![11, 10, 0, 10]),
        (10, 3, vec![Demand::at_least(3), Demand::at_least(6), Demand::exact(8)], vec![3, 4, 0]),
        (6, 0, vec![Demand::at_least(6), Demand::at_least(0), Demand::from_to(5, 10), Demand::at_least(6)], vec![6, 0, 0, 0]),
        (20, 2, vec![Demand::from_to(0, 7), Demand::from_to(7, 14)], vec![7, 11]),
        (51, 2, vec![Demand::at_least(2), Demand::exact(1), Demand::exact(2), Demand::from_to(2, 9)], vec![33, 1, 2, 9]),
        (30, 1, vec![Demand::from_to(8, 12), Demand::from_to(5, 12), Demand::exact(3)], vec![12, 12, 3]),
        (39, 0, vec![Demand::from_to(0, 4), Demand::exact(1)], vec![4, 1]),
        (3, 2, vec![Demand::from_to(2, 9), Demand::at_least(5), Demand::at_least(0), Demand::at_least(4), Demand::from_to(6, 9)], vec![2, 0, 0, 0, 0]),
        (47, 0, vec![Demand::at_least(8), Demand::at_least(7), Demand::exact(2)], vec![23, 22, 2]),
        (53, 1, vec![Demand::exact(6), Demand::exact(4), Demand::from_to(9, 12)], vec![6, 4, 12]),
    ];
    for (available, separator, demands, expected) in examples {
        let extents = layout_linearly(available, separator, demands.as_slice());
        assert_eq!(
            extents, expected,
            "{} cells, separators of {}, {:?}",
            available, separator, demands
        );
        check_layout(available, separator, demands.as_slice(), extents.as_slice());
    }
}

#[test]
fn layouts_state_no_demand_that_does_not_fit() {
    let huge = FakeWidget::new((Demand::exact(usize::MAX), Demand::from_to(1, usize::MAX)));
    let small = FakeWidget::new((Demand::exact(1), Demand::from_to(1, 2)));
    let endless = FakeWidget::new((Demand::at_least(0), Demand::at_least(0)));
    let line = SeparatingStyle::Draw(GraphemeCluster::try_from('|').unwrap());

    let widgets: Vec<&dyn Widget> = vec![&huge, &small];
    assert_eq!(
        HorizontalLayout::new(SeparatingStyle::NoSeparator).try_space_demand(widgets.as_slice()),
        None
    );
    assert_eq!(
        VerticalLayout::new(SeparatingStyle::NoSeparator).try_space_demand(widgets.as_slice()),
        None
    );
    let widgets: Vec<&dyn Widget> = vec![&huge, &endless];
    assert_eq!(
        HorizontalLayout::new(SeparatingStyle::NoSeparator).try_space_demand(widgets.as_slice()),
        Some(Demand2D {
            width: Demand::at_least(usize::MAX),
            height: Demand::at_least(1),
        })
    );
    assert_eq!(
        HorizontalLayout::new(line.clone()).try_space_demand(widgets.as_slice()),
        None
    );
    assert_eq!(
        VerticalLayout::new(line.clone()).try_space_demand(widgets.as_slice()),
        Some(Demand2D {
            width: Demand::at_least(usize::MAX),
            height: Demand::at_least(2),
        })
    );
    let widgets: Vec<&dyn Widget> = vec![&small, &small, &small];
    assert_eq!(
        HorizontalLayout::new(line.clone()).try_space_demand(widgets.as_slice()),
        Some(Demand2D {
            width: Demand::exact(5),
            height: Demand::from_to(1, 2),
        })
    );
    assert_eq!(
        VerticalLayout::new(line).try_space_demand(widgets.as_slice()),
        Some(Demand2D {
            width: Demand::exact(1),
            height: Demand::from_to(5, 8),
        })
    );
}

use tui_tiling::component::simple::ComponentWidgetSimple;
use tui_tiling::component::{Component, ComponentBase};
use tui_tiling::container::list::{find_next_pos, ContainerList, Resize, SizingConstraint};
use tui_tiling::container::{Container, ContainerChild};
use tui_tiling::layout::Direction;
use tui_tiling::pos::ComponentPos;
use tui_tiling::{Border, Focus, ResizeError};

type Leaf = Component<ComponentWidgetSimple>;
type List = ContainerList<ComponentWidgetSimple>;

fn leaf(name: &str, border: u16) -> Leaf {
    Component::new(String::from(name), border, Box::new(ComponentWidgetSimple::new()))
}

fn list(name: &str, axis: Direction) -> List {
    ContainerList::new(String::from(name), axis, true, 0, 0)
}

fn sizes(list: &List) -> Vec<(u16, u16)> {
    list.get_children().iter().map(|c| (c.get_width(), c.get_height())).collect()
}

/// A row of a column ("left" over "right") and a leaf.
fn sample() -> List {
    let mut column = list("column", Direction::Vertical);
    let _ = column.add_component(leaf("top", 1).fixed_height(Some(4)));
    let _ = column.add_component(leaf("bottom", 1));
    let mut row = list("row", Direction::Horizontal);
    let _ = row.add_container(Box::new(column));
    let _ = row.add_component(leaf("side", 1));
    row
}

fn column_sizes(row: &List) -> Vec<(u16, u16)> {
    match &row.get_children()[0] {
        ContainerChild::Container(column) => sizes(column),
        ContainerChild::Component(_) => panic!("the first child is the column"),
    }
}

#[test]
fn sizes_fixed_first_then_shares_then_remainder() {
    let constraints = vec![
        SizingConstraint::Fixed(4),
        SizingConstraint::Ratio { part: 1, whole: 3 },
        SizingConstraint::Ratio { part: 2, whole: 3 },
    ];
    assert_eq!(List::calculate_sizes(constraints, 10), Some(vec![4, 2, 4]));
}

#[test]
fn sizes_last_share_takes_the_remainder() {
    let third = SizingConstraint::Ratio { part: 1, whole: 3 };
    assert_eq!(List::calculate_sizes(vec![third, third, third], 10), Some(vec![3, 3, 4]));
}

#[test]
fn sizes_remainder_goes_to_last_ratio_before_fixed() {
    let half = SizingConstraint::Ratio { part: 1, whole: 2 };
    let constraints = vec![half, half, SizingConstraint::Fixed(3)];
    assert_eq!(List::calculate_sizes(constraints, 10), Some(vec![3, 4, 3]));
}

#[test]
fn sizes_of_fixed_children_alone() {
    let constraints = vec![SizingConstraint::Fixed(3), SizingConstraint::Fixed(4)];
    assert_eq!(List::calculate_sizes(constraints, 10), Some(vec![3, 4]));
    assert_eq!(List::calculate_sizes(Vec::new(), 10), Some(Vec::new()));
}

#[test]
fn sizes_fail_when_fixed_extents_do_not_fit() {
    let constraints = vec![SizingConstraint::Fixed(8), SizingConstraint::Fixed(8)];
    assert_eq!(List::calculate_sizes(constraints, 10), None);
}

#[test]
fn sizes_fail_when_a_share_is_zero() {
    let half = SizingConstraint::Ratio { part: 1, whole: 2 };
    assert_eq!(List::calculate_sizes(vec![half, half], 1), None);
    let all = SizingConstraint::Ratio { part: 1, whole: 1 };
    assert_eq!(List::calculate_sizes(vec![SizingConstraint::Fixed(5), all], 5), None);
}

#[test]
fn sizes_are_exact_where_rounding_would_lose_a_cell() {
    let part = SizingConstraint::Ratio { part: 1, whole: 49 };
    let constraints: Vec<SizingConstraint> = (0..49).map(|_| part).collect();
    assert_eq!(List::calculate_sizes(constraints, 49), Some(vec![1; 49]));
}

#[test]
fn constraints_split_equally_while_a_child_has_no_extent() {
    let mut row = list("row", Direction::Horizontal);
    let _ = row.add_component(leaf("a", 0).fixed_width(Some(5)));
    let _ = row.add_component(leaf("b", 0));
    let _ = row.add_component(leaf("c", 0));
    let equal = SizingConstraint::Ratio { part: 1, whole: 2 };
    assert_eq!(
        row.get_sizing_constraints(),
        Some(vec![SizingConstraint::Fixed(5), equal, equal])
    );
}

#[test]
fn constraints_weigh_by_present_extents() {
    let mut row = list("row", Direction::Horizontal);
    let _ = row.add_component(leaf("a", 0));
    let _ = row.add_component(leaf("b", 0));
    assert_eq!(row.resize(10, 2), Ok(()));
    assert_eq!(sizes(&row), vec![(5, 2), (5, 2)]);
    match &mut row.get_children_mut()[0] {
        ContainerChild::Component(a) => assert_eq!(a.resize(2, 2), Ok(())),
        ContainerChild::Container(_) => panic!("the first child is a leaf"),
    }
    assert_eq!(
        row.get_sizing_constraints(),
        Some(vec![
            SizingConstraint::Ratio { part: 2, whole: 7 },
            SizingConstraint::Ratio { part: 5, whole: 7 }
        ])
    );
    assert_eq!(row.resize(21, 2), Ok(()));
    assert_eq!(sizes(&row), vec![(6, 2), (15, 2)]);
}

#[test]
fn leaf_refuses_a_size_without_room_for_its_border() {
    let mut c = leaf("pane", 2);
    assert_eq!(
        c.resize(3, 10),
        Err(ResizeError { name: String::from("pane"), width: 3, height: 10, border_width: 2 })
    );
    assert_eq!(
        c.resize(10, 3),
        Err(ResizeError { name: String::from("pane"), width: 10, height: 3, border_width: 2 })
    );
    assert_eq!((c.get_width(), c.get_height()), (0, 0));
    assert_eq!(c.resize(4, 4), Ok(()));
    assert_eq!((c.get_width(), c.get_height()), (4, 4));
    let mut bare = leaf("bare", 0);
    assert_eq!(
        bare.resize(0, 1),
        Err(ResizeError { name: String::from("bare"), width: 0, height: 1, border_width: 0 })
    );
    assert_eq!(bare.resize(1, 1), Ok(()));
}

#[test]
fn leaf_keeps_a_fixed_extent() {
    let mut c = leaf("pane", 1).fixed_width(Some(7));
    assert!(c.is_fixed_width());
    assert!(!c.is_fixed_height());
    assert_eq!(c.resize(20, 5), Ok(()));
    assert_eq!((c.get_width(), c.get_height()), (7, 5));
    c.set_fixed_width(None);
    assert_eq!(c.resize(20, 5), Ok(()));
    assert_eq!((c.get_width(), c.get_height()), (20, 5));
    c.set_fixed_height(Some(3));
    assert_eq!(c.resize(9, 9), Ok(()));
    assert_eq!((c.get_width(), c.get_height()), (9, 3));
}

#[test]
fn container_reports_its_own_name_when_the_extent_cannot_be_distributed() {
    let mut row = sample();
    assert_eq!(
        row.resize(1, 20),
        Err(ResizeError { name: String::from("row"), width: 1, height: 20, border_width: 0 })
    );
    assert_eq!(
        row.resize(20, 1),
        Err(ResizeError { name: String::from("column"), width: 10, height: 1, border_width: 0 })
    );
}

#[test]
fn container_reports_the_first_child_that_refuses() {
    let mut row = list("row", Direction::Horizontal);
    let _ = row.add_component(leaf("wide", 3));
    let _ = row.add_component(leaf("wider", 4));
    assert_eq!(
        row.resize(8, 20),
        Err(ResizeError { name: String::from("wide"), width: 4, height: 20, border_width: 3 })
    );
}

#[test]
fn minimum_size_rejection() {
    let mut row = list("row", Direction::Horizontal);
    let _ = row.add_component(leaf("a", 1));
    let _ = row.add_component(leaf("b", 1));
    assert!(row.resize(1, 20).is_err());
    assert!(row.resize(20, 1).is_err());
    assert_eq!(row.resize(20, 10), Ok(()));
    assert_eq!(sizes(&row), vec![(10, 10), (10, 10)]);
}

#[test]
fn failed_resize_changes_nothing() {
    let mut row = sample();
    assert_eq!(row.resize(32, 8), Ok(()));
    if let ContainerChild::Component(side) = &mut row.get_children_mut()[1] {
        side.set_focus(Focus::PartialFocus);
    }
    let before = (sizes(&row), column_sizes(&row), row.get_width(), row.get_height());
    assert!(row.resize(40, 3).is_err());
    assert!(row.resize(3, 8).is_err());
    assert!(row.resize(0, 0).is_err());
    let after = (sizes(&row), column_sizes(&row), row.get_width(), row.get_height());
    assert_eq!(before, after);
    assert_eq!(after.0, vec![(16, 8), (16, 8)]);
    assert_eq!(after.1, vec![(16, 4), (16, 4)]);
    assert_eq!(row.get_focus(), Focus::PartialFocus);
}

#[test]
fn failed_resize_leaves_earlier_siblings_alone() {
    let mut row = list("row", Direction::Horizontal);
    let _ = row.add_component(leaf("plain", 0));
    let mut column = list("column", Direction::Vertical);
    let _ = column.add_component(leaf("tall", 0).fixed_height(Some(4)));
    let _ = row.add_container(Box::new(column));
    assert!(row.resize(20, 1).is_err());
    assert_eq!(sizes(&row), vec![(0, 0), (0, 0)]);
}

#[test]
fn successful_resize_hands_out_the_whole_extent() {
    let mut row = sample();
    for (width, height) in [(20u16, 10u16), (32, 8), (31, 9), (7, 6), (200, 50)] {
        assert_eq!(row.resize(width, height), Ok(()));
        let children = sizes(&row);
        assert_eq!(children.iter().map(|s| s.0).sum::<u16>(), width);
        assert!(children.iter().all(|s| s.1 == height));
        let column = column_sizes(&row);
        assert_eq!(column.iter().map(|s| s.1).sum::<u16>(), height);
        assert!(column.iter().all(|s| s.0 == children[0].0));
    }
}

#[test]
fn fixed_leaf_keeps_its_extent_across_resizes() {
    let mut row = sample();
    for (width, height) in [(20u16, 10u16), (32, 8), (31, 9), (200, 50)] {
        assert_eq!(row.resize(width, height), Ok(()));
        assert_eq!(column_sizes(&row)[0].1, 4);
    }
}

#[test]
fn resize_to_the_same_size_is_accepted_as_it_is() {
    let mut row = sample();
    assert_eq!(row.resize(0, 0), Ok(()));
    assert_eq!(sizes(&row), vec![(0, 0), (0, 0)]);
}

#[test]
fn container_is_fixed_when_all_its_children_are() {
    let mut column = list("column", Direction::Vertical);
    assert!(column.is_fixed_width());
    let _ = column.add_component(leaf("a", 0).fixed_width(Some(3)));
    assert!(column.is_fixed_width());
    assert!(!column.is_fixed_height());
    let _ = column.add_component(leaf("b", 0));
    assert!(!column.is_fixed_width());
}

#[test]
fn adding_a_child_runs_a_sizing_pass() {
    let mut row = ContainerList::new(String::from("row"), Direction::Horizontal, false, 20, 10);
    assert!(!row.is_resizable());
    assert_eq!(row.get_orientation(), Direction::Horizontal);
    assert_eq!(row.add_component(leaf("a", 1)), Ok(()));
    assert_eq!(sizes(&row), vec![(20, 10)]);
    assert_eq!(row.add_component(leaf("b", 1)), Ok(()));
    assert_eq!(sizes(&row), vec![(10, 10), (10, 10)]);
    let mut inner = list("inner", Direction::Vertical);
    let _ = inner.add_component(leaf("c", 0));
    assert_eq!(row.add_container(Box::new(inner)), Ok(()));
    assert_eq!(sizes(&row), vec![(6, 10), (6, 10), (8, 10)]);
}

#[test]
fn failed_add_keeps_the_child_and_the_sizes() {
    let mut row = ContainerList::new(String::from("row"), Direction::Horizontal, true, 3, 10);
    assert_eq!(row.add_component(leaf("a", 1)), Ok(()));
    assert_eq!(
        row.add_component(leaf("b", 1)),
        Err(ResizeError { name: String::from("a"), width: 1, height: 10, border_width: 1 })
    );
    assert_eq!(sizes(&row), vec![(3, 10), (0, 0)]);
    assert_eq!(row.resize(4, 10), Ok(()));
    assert_eq!(sizes(&row), vec![(2, 10), (2, 10)]);
}

#[test]
fn next_position_lies_one_step_across_the_border() {
    let pos = ComponentPos { x: 4, y: 6 };
    assert_eq!(find_next_pos(pos, Border::Top, 3, 2, 20, 10), Some(ComponentPos { x: 4, y: 5 }));
    assert_eq!(find_next_pos(pos, Border::Left, 3, 2, 20, 10), Some(ComponentPos { x: 3, y: 6 }));
    assert_eq!(
        find_next_pos(pos, Border::Bottom, 3, 2, 20, 10),
        Some(ComponentPos { x: 4, y: 8 })
    );
    assert_eq!(find_next_pos(pos, Border::Right, 3, 2, 20, 10), Some(ComponentPos { x: 7, y: 6 }));
}

#[test]
fn next_position_stops_at_the_edge_of_the_container() {
    let origin = ComponentPos { x: 0, y: 0 };
    assert_eq!(find_next_pos(origin, Border::Top, 3, 2, 20, 10), None);
    assert_eq!(find_next_pos(origin, Border::Left, 3, 2, 20, 10), None);
    let corner = ComponentPos { x: 17, y: 8 };
    assert_eq!(find_next_pos(corner, Border::Bottom, 3, 2, 20, 10), None);
    assert_eq!(find_next_pos(corner, Border::Right, 3, 2, 20, 10), None);
    let far = ComponentPos { x: 65535, y: 65535 };
    assert_eq!(find_next_pos(far, Border::Bottom, 65535, 65535, 65535, 65535), None);
    assert_eq!(find_next_pos(far, Border::Right, 65535, 65535, 65535, 65535), None);
}

#[test]
fn drag_starts_on_inner_borders_only() {
    assert_eq!(Resize::new(7, Border::Left, 0, 3), Resize::Idle);
    assert_eq!(Resize::new(7, Border::Top, 0, 3), Resize::Idle);
    assert_eq!(
        Resize::new(7, Border::Left, 1, 3),
        Resize::LeftTop { mouse_offset: 7, child_index: 1 }
    );
    assert_eq!(
        Resize::new(7, Border::Top, 2, 3),
        Resize::LeftTop { mouse_offset: 7, child_index: 2 }
    );
    assert_eq!(Resize::new(7, Border::Right, 2, 3), Resize::Idle);
    assert_eq!(Resize::new(7, Border::Bottom, 2, 3), Resize::Idle);
    assert_eq!(
        Resize::new(7, Border::Right, 1, 3),
        Resize::RightBottom { mouse_offset: 7, child_index: 1 }
    );
    assert_eq!(
        Resize::new(7, Border::Bottom, 0, 3),
        Resize::RightBottom { mouse_offset: 7, child_index: 0 }
    );
}

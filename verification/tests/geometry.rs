use crossterm::event::{MouseButton, MouseEventKind};
use tui_tiling::component::simple::ComponentWidgetSimple;
use tui_tiling::component::{Component, ComponentBase};
use tui_tiling::container::list::ContainerList;
use tui_tiling::container::{Container, ContainerChild};
use tui_tiling::layout::{Direction, Rect};
use tui_tiling::pos::ComponentPos;
use tui_tiling::Border;

type List = ContainerList<ComponentWidgetSimple>;

fn leaf(name: &str, border: u16) -> Component<ComponentWidgetSimple> {
    Component::new(String::from(name), border, Box::new(ComponentWidgetSimple::new()))
}

fn list(name: &str, axis: Direction, resizable: bool) -> List {
    ContainerList::new(String::from(name), axis, resizable, 0, 0)
}

/// A row of a column ("a" over "b") and the leaf "c", 32 by 8 cells.
fn sample() -> List {
    let mut column = list("column", Direction::Vertical, true);
    let _ = column.add_component(leaf("a", 1).fixed_height(Some(4)));
    let _ = column.add_component(leaf("b", 1));
    let mut row = list("row", Direction::Horizontal, true);
    let _ = row.add_container(Box::new(column));
    let _ = row.add_component(leaf("c", 1));
    assert_eq!(row.resize(32, 8), Ok(()));
    row
}

fn widths(list: &List) -> Vec<u16> {
    list.get_children().iter().map(|c| c.get_width()).collect()
}

fn heights(list: &List) -> Vec<u16> {
    list.get_children().iter().map(|c| c.get_height()).collect()
}

const DOWN: Option<MouseEventKind> = Some(MouseEventKind::Down(MouseButton::Left));
const DRAG: Option<MouseEventKind> = Some(MouseEventKind::Drag(MouseButton::Left));

#[test]
fn positions_add_and_subtract() {
    let a = ComponentPos { x: 3, y: 4 };
    let b = ComponentPos { x: 10, y: 20 };
    assert_eq!(a + b, ComponentPos { x: 13, y: 24 });
    assert_eq!(a.offset(b), ComponentPos { x: 13, y: 24 });
    assert_eq!(b - a, Some(ComponentPos { x: 7, y: 16 }));
    assert_eq!(a - a, Some(ComponentPos { x: 0, y: 0 }));
    assert_eq!(a - b, None);
    assert_eq!(ComponentPos { x: 10, y: 3 } - ComponentPos { x: 3, y: 4 }, None);
    assert_eq!(ComponentPos::default(), ComponentPos { x: 0, y: 0 });
}

#[test]
fn position_lies_in_a_rectangle_that_holds_it() {
    let rect = Rect { x: 2, y: 3, width: 4, height: 5 };
    assert!(ComponentPos { x: 2, y: 3 }.intersects_rect(rect));
    assert!(ComponentPos { x: 5, y: 7 }.intersects_rect(rect));
    assert!(!ComponentPos { x: 6, y: 7 }.intersects_rect(rect));
    assert!(!ComponentPos { x: 5, y: 8 }.intersects_rect(rect));
    assert!(!ComponentPos { x: 1, y: 3 }.intersects_rect(rect));
    assert!(!ComponentPos { x: 2, y: 2 }.intersects_rect(rect));
    assert!(!ComponentPos { x: 2, y: 3 }.intersects_rect(Rect { x: 2, y: 3, width: 0, height: 5 }));
    let edge = Rect { x: 65535, y: 65535, width: 65535, height: 65535 };
    assert!(ComponentPos { x: 65535, y: 65535 }.intersects_rect(edge));
    assert_eq!(
        Rect::from(ComponentPos { x: 7, y: 9 }),
        Rect { x: 7, y: 9, width: 1, height: 1 }
    );
}

#[test]
fn children_follow_each_other_along_the_axis() {
    let row = sample();
    assert_eq!(
        row.get_children_rectangles(),
        vec![
            Rect { x: 0, y: 0, width: 16, height: 8 },
            Rect { x: 16, y: 0, width: 16, height: 8 }
        ]
    );
    match &row.get_children()[0] {
        ContainerChild::Container(column) => assert_eq!(
            column.get_children_rectangles(),
            vec![
                Rect { x: 0, y: 0, width: 16, height: 4 },
                Rect { x: 0, y: 4, width: 16, height: 4 }
            ]
        ),
        ContainerChild::Component(_) => panic!("the first child is the column"),
    }
    assert_eq!(list("empty", Direction::Vertical, true).get_children_rectangles(), vec![]);
}

#[test]
fn child_under_a_cell_is_found_with_its_start() {
    let row = sample();
    let at = |x, y| ComponentPos { x, y };
    assert_eq!(row.child_at(0, 0), Some((0, at(0, 0), at(0, 0))));
    assert_eq!(row.child_at(15, 7), Some((0, at(0, 0), at(15, 7))));
    assert_eq!(row.child_at(16, 7), Some((1, at(16, 0), at(0, 7))));
    assert_eq!(row.child_at(31, 3), Some((1, at(16, 0), at(15, 3))));
    assert_eq!(row.child_at(32, 3), None);
    assert_eq!(row.child_at(3, 8), None);
}

#[test]
fn corner_of_a_leaf_belongs_to_the_side_border() {
    let mut c = leaf("pane", 2);
    assert_eq!(c.resize(10, 8), Ok(()));
    assert_eq!(c.get_border(0, 0), Some(Border::Left));
    assert_eq!(c.get_border(1, 7), Some(Border::Left));
    assert_eq!(c.get_border(9, 0), Some(Border::Right));
    assert_eq!(c.get_border(8, 7), Some(Border::Right));
    assert_eq!(c.get_border(2, 1), Some(Border::Top));
    assert_eq!(c.get_border(7, 0), Some(Border::Top));
    assert_eq!(c.get_border(2, 6), Some(Border::Bottom));
    assert_eq!(c.get_border(7, 7), Some(Border::Bottom));
    assert_eq!(c.get_border(2, 2), None);
    assert_eq!(c.get_border(7, 5), None);
    assert_eq!(c.get_border(10, 3), None);
    assert_eq!(c.get_border(3, 8), None);
    let mut bare = leaf("bare", 0);
    assert_eq!(bare.resize(4, 4), Ok(()));
    assert_eq!(bare.get_border(0, 0), None);
}

#[test]
fn container_has_the_outer_borders_of_its_children() {
    let row = sample();
    assert_eq!(row.get_border(1, 0), Some(Border::Top));
    assert_eq!(row.get_border(0, 1), Some(Border::Left));
    assert_eq!(row.get_border(0, 6), Some(Border::Left));
    assert_eq!(row.get_border(15, 1), None);
    assert_eq!(row.get_border(16, 1), None);
    assert_eq!(row.get_border(1, 3), None);
    assert_eq!(row.get_border(1, 4), None);
    assert_eq!(row.get_border(1, 7), Some(Border::Bottom));
    assert_eq!(row.get_border(31, 1), Some(Border::Right));
    assert_eq!(row.get_border(20, 0), Some(Border::Top));
    assert_eq!(row.get_border(5, 2), None);
    assert_eq!(row.get_border(40, 2), None);
}

#[test]
fn border_drag() {
    let mut row = sample();
    row.handle_mouse(16, 4, DOWN);
    row.handle_mouse(18, 4, DRAG);
    assert_eq!(widths(&row), vec![18, 14]);
    assert_eq!(heights(&row), vec![8, 8]);
    assert_eq!(row.get_width(), 32);
    match &row.get_children()[0] {
        ContainerChild::Container(column) => {
            assert_eq!(widths(column), vec![18, 18]);
            assert_eq!(heights(column), vec![4, 4]);
        }
        ContainerChild::Component(_) => panic!("the first child is the column"),
    }
}

#[test]
fn drag_follows_the_pointer_step_by_step() {
    let mut row = sample();
    row.handle_mouse(15, 2, DOWN);
    row.handle_mouse(14, 2, DRAG);
    assert_eq!(widths(&row), vec![15, 17]);
    row.handle_mouse(14, 5, DRAG);
    assert_eq!(widths(&row), vec![15, 17]);
    row.handle_mouse(10, 5, DRAG);
    assert_eq!(widths(&row), vec![11, 21]);
    row.handle_mouse(20, 5, DRAG);
    assert_eq!(widths(&row), vec![21, 11]);
    row.handle_mouse(20, 5, Some(MouseEventKind::Up(MouseButton::Left)));
    row.handle_mouse(25, 5, DRAG);
    assert_eq!(widths(&row), vec![21, 11]);
}

#[test]
fn drag_between_rows_moves_heights() {
    let mut column = list("column", Direction::Vertical, true);
    let _ = column.add_component(leaf("a", 1));
    let _ = column.add_component(leaf("b", 1));
    let _ = column.add_component(leaf("c", 1));
    assert_eq!(column.resize(10, 30), Ok(()));
    assert_eq!(heights(&column), vec![10, 10, 10]);
    column.handle_mouse(4, 19, DOWN);
    column.handle_mouse(4, 22, DRAG);
    assert_eq!(heights(&column), vec![10, 13, 7]);
    assert_eq!(widths(&column), vec![10, 10, 10]);
    column.handle_mouse(4, 10, DOWN);
    column.handle_mouse(4, 6, DRAG);
    assert_eq!(heights(&column), vec![6, 17, 7]);
}

#[test]
fn drag_ends_when_a_child_cannot_follow() {
    let mut row = sample();
    row.handle_mouse(16, 4, DOWN);
    row.handle_mouse(31, 4, DRAG);
    assert_eq!(widths(&row), vec![16, 16]);
    row.handle_mouse(18, 4, DRAG);
    assert_eq!(widths(&row), vec![16, 16]);
    row.handle_mouse(16, 4, DOWN);
    row.handle_mouse(40, 4, DRAG);
    assert_eq!(widths(&row), vec![16, 16]);
    row.handle_mouse(16, 4, DOWN);
    row.handle_mouse(30, 4, DRAG);
    assert_eq!(widths(&row), vec![30, 2]);
}

#[test]
fn drag_leaves_fixed_children_alone() {
    let mut row = list("row", Direction::Horizontal, true);
    let _ = row.add_component(leaf("a", 1).fixed_width(Some(10)));
    let _ = row.add_component(leaf("b", 1));
    let _ = row.add_component(leaf("c", 1));
    assert_eq!(row.resize(30, 5), Ok(()));
    assert_eq!(widths(&row), vec![10, 10, 10]);
    row.handle_mouse(10, 2, DOWN);
    row.handle_mouse(12, 2, DRAG);
    assert_eq!(widths(&row), vec![10, 10, 10]);
    row.handle_mouse(20, 2, DOWN);
    row.handle_mouse(23, 2, DRAG);
    assert_eq!(widths(&row), vec![10, 13, 7]);
}

#[test]
fn drag_needs_a_resizable_container() {
    let mut row = list("row", Direction::Horizontal, false);
    let _ = row.add_component(leaf("a", 1));
    let _ = row.add_component(leaf("b", 1));
    assert_eq!(row.resize(20, 5), Ok(()));
    row.handle_mouse(10, 2, DOWN);
    row.handle_mouse(12, 2, DRAG);
    assert_eq!(widths(&row), vec![10, 10]);
}

#[test]
fn drag_starts_on_a_border_only() {
    let mut row = sample();
    row.handle_mouse(20, 4, DOWN);
    row.handle_mouse(22, 4, DRAG);
    assert_eq!(widths(&row), vec![16, 16]);
    row.handle_mouse(0, 4, DOWN);
    row.handle_mouse(2, 4, DRAG);
    assert_eq!(widths(&row), vec![16, 16]);
    row.handle_mouse(16, 4, Some(MouseEventKind::Down(MouseButton::Right)));
    row.handle_mouse(18, 4, DRAG);
    assert_eq!(widths(&row), vec![16, 16]);
    row.handle_mouse(16, 4, DOWN);
    row.handle_mouse(17, 4, Some(MouseEventKind::Moved));
    row.handle_mouse(18, 4, DRAG);
    assert_eq!(widths(&row), vec![18, 14]);
}

#[test]
fn tree_is_within_reach_while_every_node_starts_at_such_a_cell() {
    assert!(sample().starts_in_reach(0, 0));
    assert!(sample().starts_in_reach(65519, 65531));
    assert!(!sample().starts_in_reach(65520, 0));
    assert!(!sample().starts_in_reach(0, 65532));
    let mut row = list("row", Direction::Horizontal, true);
    let _ = row.add_component(leaf("a", 0).fixed_width(Some(40000)));
    let _ = row.add_component(leaf("b", 0).fixed_width(Some(40000)));
    assert!(row.starts_in_reach(0, 0));
    assert_eq!(
        row.get_children_rectangles(),
        vec![
            Rect { x: 0, y: 0, width: 40000, height: 0 },
            Rect { x: 40000, y: 0, width: 40000, height: 0 }
        ]
    );
    let _ = row.add_component(leaf("c", 0));
    assert!(!row.starts_in_reach(0, 0));
    assert!(leaf("lone", 1).starts_in_reach(65535, 65535));
}

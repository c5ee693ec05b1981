use tui_tiling::component::simple::ComponentWidgetSimple;
use tui_tiling::component::{Component, ComponentBase};
use tui_tiling::container::list::ContainerList;
use tui_tiling::container::search::ContainerSearch;
use tui_tiling::container::{Container, ContainerChild};
use tui_tiling::layout::Direction;
use tui_tiling::pos::ComponentPos;
use tui_tiling::{Focus, FocusResult};

type List = ContainerList<ComponentWidgetSimple>;

fn leaf(name: &str) -> Component<ComponentWidgetSimple> {
    Component::new(
        String::from(name),
        1,
        Box::new(ComponentWidgetSimple::new().text(String::from(name))),
    )
}

fn list(name: &str, axis: Direction) -> List {
    ContainerList::new(String::from(name), axis, true, 0, 0)
}

/// A row of the leaf "left", a column of "top", a row of "x" and "y", and
/// "bottom", and the leaf "right": 60 by 30 cells.
fn deep() -> List {
    let mut inner = list("inner", Direction::Horizontal);
    let _ = inner.add_component(leaf("x"));
    let _ = inner.add_component(leaf("y"));
    let mut column = list("column", Direction::Vertical);
    let _ = column.add_component(leaf("top"));
    let _ = column.add_container(Box::new(inner));
    let _ = column.add_component(leaf("bottom"));
    let mut row = list("row", Direction::Horizontal);
    let _ = row.add_component(leaf("left"));
    let _ = row.add_container(Box::new(column));
    let _ = row.add_component(leaf("right"));
    assert_eq!(row.resize(60, 30), Ok(()));
    row
}

fn at(x: u16, y: u16) -> ComponentPos {
    ComponentPos { x, y }
}

fn named(row: &List, path: &str) -> Option<(String, ComponentPos)> {
    row.search_name(path).map(|(child, pos)| (child.get_name(), pos))
}

fn covering(row: &List, x: u16, y: u16) -> Option<(String, ComponentPos, u16, u16)> {
    row.search_position(at(x, y))
        .map(|(c, pos)| (c.get_name(), pos, c.get_width(), c.get_height()))
}

#[test]
fn name_path_leads_down_to_a_leaf() {
    let row = deep();
    assert_eq!(named(&row, "left"), Some((String::from("left"), at(0, 0))));
    assert_eq!(named(&row, "right"), Some((String::from("right"), at(40, 0))));
    assert_eq!(named(&row, "column.top"), Some((String::from("top"), at(20, 0))));
    assert_eq!(named(&row, "column.bottom"), Some((String::from("bottom"), at(20, 20))));
    assert_eq!(named(&row, "column.inner.x"), Some((String::from("x"), at(20, 10))));
    assert_eq!(named(&row, "column.inner.y"), Some((String::from("y"), at(30, 10))));
}

#[test]
fn name_path_fails_where_it_does_not_end_at_a_leaf() {
    let row = deep();
    for path in [
        "",
        ".",
        "row",
        "row.left",
        "column",
        "column.",
        "column.inner",
        "column.missing",
        "column.inner.z",
        "left.x",
        "left.",
        ".left",
        "column.top.x",
        "column..top",
        "top",
        "x",
    ] {
        assert_eq!(named(&row, path), None, "{:?}", path);
    }
}

#[test]
fn name_path_takes_the_first_child_that_leads_to_a_leaf() {
    let mut first = list("twin", Direction::Vertical);
    let _ = first.add_component(leaf("a"));
    let mut second = list("twin", Direction::Vertical);
    let _ = second.add_component(leaf("b"));
    let mut row = list("row", Direction::Horizontal);
    let _ = row.add_container(Box::new(first));
    let _ = row.add_container(Box::new(second));
    let _ = row.add_component(leaf("twin"));
    let _ = row.add_component(leaf("twin"));
    assert_eq!(row.resize(40, 10), Ok(()));
    assert_eq!(named(&row, "twin.a"), Some((String::from("a"), at(0, 0))));
    assert_eq!(named(&row, "twin.b"), Some((String::from("b"), at(10, 0))));
    assert_eq!(named(&row, "twin"), Some((String::from("twin"), at(20, 0))));
    assert_eq!(named(&row, "twin.c"), None);
}

#[test]
fn found_name_spells_the_path() {
    let row = deep();
    for path in ["left", "column.top", "column.inner.x", "column.inner.y", "right"] {
        let (_, pos) = row.search_name(path).unwrap();
        let mut names: Vec<String> = Vec::new();
        let mut list = &row;
        let mut origin = at(0, 0);
        loop {
            let (index, start, _) = list.child_at(pos.x - origin.x, pos.y - origin.y).unwrap();
            let child = &list.get_children()[index];
            names.push(child.get_name());
            origin = origin + start;
            match child {
                ContainerChild::Container(inner) => list = inner,
                ContainerChild::Component(_) => break,
            }
        }
        assert_eq!(names.join("."), path);
        assert_eq!(origin, pos);
    }
}

#[test]
fn widget_is_found_by_name() {
    let mut row = deep();
    assert_eq!(
        row.search_name_widget("column.inner.y").map(|w| w.get_text()),
        Some(String::from("y"))
    );
    assert!(row.search_name_widget("column.inner").is_none());
    assert!(row.search_name_widget_mut("nowhere").is_none());
    row.search_name_widget_mut("column.inner.y").unwrap().set_text(String::from("changed"));
    assert_eq!(
        row.search_name_widget("column.inner.y").map(|w| w.get_text()),
        Some(String::from("changed"))
    );
    assert_eq!(row.search_name_widget("column.inner.x").map(|w| w.get_text()), Some(String::from("x")));
}

#[test]
fn leaf_found_by_name_can_be_changed() {
    let mut row = deep();
    let (child, pos) = row.search_name_mut("column.bottom").unwrap();
    assert_eq!(pos, at(20, 20));
    child.unwrap_component_mut().set_focus(Focus::Focus);
    match row.search_focused() {
        FocusResult::Focus((c, pos)) => {
            assert_eq!(c.get_name(), String::from("bottom"));
            assert_eq!(pos, at(20, 20));
        }
        _ => panic!("the leaf should be focused"),
    }
    assert!(row.search_name_mut("column").is_none());
    assert!(row.search_name_mut("bottom").is_none());
    let (child, _) = row.search_name("column.bottom").unwrap();
    assert_eq!(child.unwrap_component().get_focus(), Focus::Focus);
    assert_eq!(child.as_base().get_focus(), Focus::Focus);
}

#[test]
fn position_leads_to_the_leaf_that_covers_it() {
    let row = deep();
    assert_eq!(covering(&row, 0, 0), Some((String::from("left"), at(0, 0), 20, 30)));
    assert_eq!(covering(&row, 19, 29), Some((String::from("left"), at(0, 0), 20, 30)));
    assert_eq!(covering(&row, 20, 0), Some((String::from("top"), at(20, 0), 20, 10)));
    assert_eq!(covering(&row, 29, 10), Some((String::from("x"), at(20, 10), 10, 10)));
    assert_eq!(covering(&row, 30, 19), Some((String::from("y"), at(30, 10), 10, 10)));
    assert_eq!(covering(&row, 39, 20), Some((String::from("bottom"), at(20, 20), 20, 10)));
    assert_eq!(covering(&row, 59, 29), Some((String::from("right"), at(40, 0), 20, 30)));
    assert_eq!(covering(&row, 60, 0), None);
    assert_eq!(covering(&row, 0, 30), None);
    assert_eq!(covering(&row, 65535, 65535), None);
}

#[test]
fn found_leaf_covers_the_position() {
    let row = deep();
    for x in 0..60u16 {
        for y in 0..30u16 {
            let (_, pos, width, height) = covering(&row, x, y).unwrap();
            assert!(pos.x <= x && x < pos.x + width);
            assert!(pos.y <= y && y < pos.y + height);
        }
    }
}

#[test]
fn position_finds_nothing_in_a_gap() {
    let mut row = list("row", Direction::Horizontal);
    let _ = row.add_component(leaf("short").fixed_height(Some(3)));
    let _ = row.add_component(leaf("long"));
    assert_eq!(row.resize(20, 8), Ok(()));
    assert_eq!(covering(&row, 3, 2), Some((String::from("short"), at(0, 0), 10, 3)));
    assert_eq!(covering(&row, 3, 3), None);
    assert_eq!(covering(&row, 9, 7), None);
    assert_eq!(covering(&row, 10, 7), Some((String::from("long"), at(10, 0), 10, 8)));
}

#[test]
fn leaf_found_by_position_can_be_changed() {
    let mut row = deep();
    {
        let (c, pos) = row.search_position_mut(at(35, 15)).unwrap();
        assert_eq!(pos, at(30, 10));
        c.set_focus(Focus::PartialFocus);
    }
    assert!(row.search_position_mut(at(60, 0)).is_none());
    match row.search_focused_mut() {
        FocusResult::PartialFocus((c, pos)) => {
            assert_eq!(c.get_name(), String::from("y"));
            assert_eq!(pos, at(30, 10));
            c.set_focus(Focus::NoFocus);
        }
        _ => panic!("the leaf should be highlighted"),
    }
    assert!(matches!(row.search_focused(), FocusResult::NoFocus));
    assert!(matches!(row.search_focused_mut(), FocusResult::NoFocus));
    assert_eq!(row.get_focus(), Focus::NoFocus);
}

#[test]
fn first_focused_leaf_is_found() {
    let mut row = deep();
    for (path, focus) in [("right", Focus::Focus), ("column.inner.x", Focus::PartialFocus)] {
        let (child, _) = row.search_name_mut(path).unwrap();
        child.unwrap_component_mut().set_focus(focus);
    }
    match row.search_focused() {
        FocusResult::PartialFocus((c, pos)) => {
            assert_eq!(c.get_name(), String::from("x"));
            assert_eq!(pos, at(20, 10));
        }
        _ => panic!("the first focused leaf is highlighted"),
    }
    assert_eq!(row.get_focus(), Focus::PartialFocus);
}

#[test]
fn children_convert_from_leaves_and_containers() {
    let child: ContainerChild<ComponentWidgetSimple> = ContainerChild::from(leaf("a"));
    assert!(matches!(child, ContainerChild::Component(_)));
    assert_eq!(child.get_name(), String::from("a"));
    let child = ContainerChild::from(list("b", Direction::Vertical));
    assert!(matches!(child, ContainerChild::Container(_)));
    assert_eq!(child.get_name(), String::from("b"));
    let mut child = ContainerChild::from(Box::new(list("c", Direction::Vertical)));
    assert_eq!(child.as_base_mut().get_name(), String::from("c"));
    assert_eq!(child.resize(4, 4), Ok(()));
    assert_eq!((child.get_width(), child.get_height()), (4, 4));
}

use tui::buffer::Buffer;
use tui::layout::Alignment;
use tui::style::{Color, Style};
use tui_tiling::canvas::{focus_color, BorderColor};
use tui_tiling::component::simple::{is_plain, ComponentWidgetSimple};
use tui_tiling::component::{Component, ComponentBase};
use tui_tiling::container::list::ContainerList;
use tui_tiling::container::{Container, ContainerChild};
use tui_tiling::layout::{Direction, Rect};
use tui_tiling::Focus;

type List = ContainerList<ComponentWidgetSimple>;

fn leaf(name: &str, border: u16, text: &str) -> Component<ComponentWidgetSimple> {
    Component::new(
        String::from(name),
        border,
        Box::new(ComponentWidgetSimple::new().text(String::from(text))),
    )
}

fn buffer(width: u16, height: u16, fill: char) -> Buffer {
    let mut buffer = Buffer::empty(tui::layout::Rect::new(0, 0, width, height));
    for cell in buffer.content.iter_mut() {
        cell.set_char(fill);
    }
    buffer
}

fn rows(buffer: &Buffer) -> Vec<String> {
    (0..buffer.area.height)
        .map(|y| (0..buffer.area.width).map(|x| buffer.get(x, y).symbol.clone()).collect())
        .collect()
}

fn area(x: u16, y: u16, width: u16, height: u16) -> Rect {
    Rect { x, y, width, height }
}

#[test]
fn border_shows_the_focus_by_its_colour() {
    assert_eq!(focus_color(Focus::Focus), BorderColor::Green);
    assert_eq!(focus_color(Focus::PartialFocus), BorderColor::Yellow);
    assert_eq!(focus_color(Focus::NoFocus), BorderColor::White);
    for (focus, color) in [
        (Focus::Focus, Color::Green),
        (Focus::PartialFocus, Color::Yellow),
        (Focus::NoFocus, Color::White),
    ] {
        let mut c = leaf("p", 1, "");
        c.set_focus(focus);
        let mut buf = buffer(4, 3, 'z');
        c.render(area(0, 0, 4, 3), &mut buf);
        assert_eq!(buf.get(0, 0).fg, color);
        assert_eq!(buf.get(3, 2).fg, color);
    }
}

#[test]
fn leaf_draws_its_border_title_and_text() {
    let mut c = leaf("pane", 1, "hi");
    let mut buf = buffer(8, 4, 'z');
    c.render(area(0, 0, 8, 4), &mut buf);
    assert_eq!(rows(&buf), vec!["╭pane──╮", "│hi    │", "│      │", "╰──────╯"]);
}

#[test]
fn leaf_without_a_name_has_no_title() {
    let mut c = leaf("", 1, "hi");
    let mut buf = buffer(6, 3, 'z');
    c.render(area(0, 0, 6, 3), &mut buf);
    assert_eq!(rows(&buf), vec!["╭────╮", "│hi  │", "╰────╯"]);
}

#[test]
fn leaf_without_a_border_blanks_its_whole_area() {
    let mut c = leaf("pane", 0, "hi");
    let mut buf = buffer(4, 2, 'z');
    c.render(area(0, 0, 4, 2), &mut buf);
    assert_eq!(rows(&buf), vec!["hi  ", "    "]);
}

#[test]
fn leaf_draws_inside_its_area_only() {
    let mut c = leaf("p", 1, "");
    let mut buf = buffer(7, 5, 'z');
    c.render(area(2, 1, 4, 3), &mut buf);
    assert_eq!(rows(&buf), vec!["zzzzzzz", "zz╭p─╮z", "zz│  │z", "zz╰──╯z", "zzzzzzz"]);
}

#[test]
fn border_alone_is_drawn_where_it_takes_the_whole_area() {
    let mut c = leaf("p", 1, "text");
    let mut buf = buffer(4, 2, 'z');
    c.render(area(0, 0, 4, 2), &mut buf);
    assert_eq!(rows(&buf), vec!["╭p─╮", "╰──╯"]);
    let mut wide = leaf("p", 2, "text");
    let mut buf = buffer(5, 4, 'z');
    wide.render(area(0, 0, 5, 4), &mut buf);
    assert_eq!(rows(&buf), vec!["╭p──╮", "│zzz│", "│zzz│", "╰───╯"]);
}

#[test]
fn thick_border_leaves_the_interior_to_the_widget() {
    let mut c = leaf("p", 2, "ab");
    let mut buf = buffer(7, 6, 'z');
    c.render(area(0, 0, 7, 6), &mut buf);
    assert_eq!(
        rows(&buf),
        vec!["╭p────╮", "│zzzzz│", "│zab z│", "│z   z│", "│zzzzz│", "╰─────╯"]
    );
}

#[test]
fn leaf_drawn_once_is_not_drawn_again() {
    let mut c = leaf("p", 1, "x");
    let mut buf = buffer(4, 3, 'z');
    c.render(area(0, 0, 4, 3), &mut buf);
    let mut again = buffer(4, 3, 'z');
    c.render(area(0, 0, 4, 3), &mut again);
    assert_eq!(rows(&again), vec!["zzzz", "zzzz", "zzzz"]);
    c.invalidate();
    c.render(area(0, 0, 4, 3), &mut again);
    assert_eq!(rows(&again), vec!["╭p─╮", "│x │", "╰──╯"]);
}

#[test]
fn container_draws_every_child_into_its_rectangle() {
    let mut column = ContainerList::new(String::from("column"), Direction::Vertical, true, 0, 0);
    let _ = column.add_component(leaf("a", 1, "1").fixed_height(Some(3)));
    let _ = column.add_component(leaf("b", 1, "2"));
    let mut row: List = ContainerList::new(String::from("row"), Direction::Horizontal, true, 0, 0);
    let _ = row.add_container(Box::new(column));
    let _ = row.add_component(leaf("c", 0, "3"));
    assert_eq!(row.resize(8, 6), Ok(()));
    let mut buf = buffer(10, 7, 'z');
    row.render(area(1, 1, 8, 6), &mut buf);
    assert_eq!(
        rows(&buf),
        vec![
            "zzzzzzzzzz",
            "z╭a─╮3   z",
            "z│1 │    z",
            "z╰──╯    z",
            "z╭b─╮    z",
            "z│2 │    z",
            "z╰──╯    z",
        ]
    );
}

#[test]
fn drawing_is_refused_where_the_node_does_not_fit() {
    let mut row: List = ContainerList::new(String::from("row"), Direction::Horizontal, true, 0, 0);
    let _ = row.add_component(leaf("a", 1, ""));
    let _ = row.add_component(leaf("b", 1, ""));
    assert_eq!(row.resize(8, 3), Ok(()));
    assert!(row.fits(8, 3));
    assert!(!row.fits(8, 4));
    assert!(!row.fits(9, 3));
    let mut small = buffer(7, 3, 'z');
    assert!(!row.try_render(area(0, 0, 8, 3), &mut small));
    assert_eq!(rows(&small), vec!["zzzzzzz"; 3]);
    let mut buf = buffer(9, 4, 'z');
    assert!(!row.try_render(area(2, 0, 8, 3), &mut buf));
    assert!(!row.try_render(area(0, 2, 8, 3), &mut buf));
    assert!(!row.try_render(area(0, 0, 9, 3), &mut buf));
    assert_eq!(rows(&buf), vec!["zzzzzzzzz"; 4]);
    let mut broken = buffer(9, 4, 'z');
    broken.content.pop();
    assert!(!row.try_render(area(0, 0, 8, 3), &mut broken));
    assert!(row.try_render(area(1, 1, 8, 3), &mut buf));
    assert_eq!(rows(&buf), vec!["zzzzzzzzz", "z╭a─╮╭b─╮", "z│  ││  │", "z╰──╯╰──╯"]);
}

#[test]
fn child_that_sticks_out_does_not_fit() {
    let mut row: List = ContainerList::new(String::from("row"), Direction::Horizontal, true, 0, 0);
    let _ = row.add_component(leaf("a", 0, "").fixed_height(Some(5)));
    assert_eq!(row.resize(8, 3), Ok(()));
    assert!(!row.fits(8, 3));
    let mut buf = buffer(8, 3, 'z');
    assert!(!row.try_render(area(0, 0, 8, 3), &mut buf));
    if let ContainerChild::Component(a) = &mut row.get_children_mut()[0] {
        a.set_fixed_height(Some(3));
    }
    assert!(row.fits(8, 3));
    assert!(row.try_render(area(0, 0, 8, 3), &mut buf));
    let mut lone = leaf("lone", 1, "");
    assert!(lone.fits(0, 0));
    assert!(lone.fits(9, 9));
    assert!(lone.try_render(area(0, 0, 8, 3), &mut buf));
}

#[test]
fn simple_widget_keeps_what_it_is_given() {
    let mut w = ComponentWidgetSimple::new();
    assert_eq!(w.get_text(), String::new());
    assert_eq!(w.get_style(), Style::default());
    assert_eq!(w.get_alignment(), Alignment::Left);
    w.set_text(String::from("one"));
    w.set_style(Style::default().fg(Color::Red));
    w.set_alignment(Alignment::Right);
    assert_eq!(w.get_text(), String::from("one"));
    assert_eq!(w.get_style(), Style::default().fg(Color::Red));
    assert_eq!(w.get_alignment(), Alignment::Right);
    let w = w
        .text(String::from("two"))
        .style(Style::default().bg(Color::Blue))
        .alignment(Alignment::Center);
    assert_eq!(w.get_text(), String::from("two"));
    assert_eq!(w.get_style(), Style::default().bg(Color::Blue));
    assert_eq!(w.get_alignment(), Alignment::Center);
}

#[test]
fn simple_widget_draws_its_text_aligned_and_styled() {
    let widget = ComponentWidgetSimple::new()
        .text(String::from("ab\ncdefgh"))
        .style(Style::default().fg(Color::Red))
        .alignment(Alignment::Right);
    let mut c = Component::new(String::from("p"), 0, Box::new(widget));
    let mut buf = buffer(5, 3, 'z');
    c.render(area(0, 0, 5, 3), &mut buf);
    assert_eq!(rows(&buf), vec!["   ab", "cdefg", "     "]);
    assert_eq!(buf.get(4, 0).fg, Color::Red);
}

#[test]
fn plain_text_is_printable_ascii_and_newlines() {
    assert!(is_plain(""));
    assert!(is_plain("one two\nthree ~!"));
    assert!(!is_plain("tab\there"));
    assert!(!is_plain("return\r\n"));
    assert!(!is_plain("h\u{e9}llo"));
    assert!(!is_plain("a\u{200b}"));
    assert!(!is_plain("\u{7f}"));
}

#[test]
fn text_that_is_not_plain_keeps_the_last_column_free() {
    let mut c = leaf("p", 0, "h\u{e9}llo");
    let mut buf = buffer(5, 1, 'z');
    c.render(area(0, 0, 5, 1), &mut buf);
    assert_eq!(rows(&buf), vec!["h\u{e9}ll "]);
    let mut plain = leaf("p", 0, "hello");
    let mut buf = buffer(5, 1, 'z');
    plain.render(area(0, 0, 5, 1), &mut buf);
    assert_eq!(rows(&buf), vec!["hello"]);
}

#[test]
fn symbol_without_width_stays_inside_the_area() {
    let mut c = leaf("p", 0, "a\u{200b}");
    let mut buf = buffer(4, 1, 'z');
    c.render(area(2, 0, 2, 1), &mut buf);
    assert_eq!(buf.get(0, 0).symbol, "z");
    assert_eq!(buf.get(1, 0).symbol, "z");
    assert_eq!(buf.get(2, 0).symbol, "a");
    let mut narrow = leaf("p", 0, "a\u{200b}");
    let mut buf = buffer(1, 1, 'z');
    narrow.render(area(0, 0, 1, 1), &mut buf);
    assert_eq!(rows(&buf), vec![" "]);
}

#[test]
fn text_as_long_as_the_widest_area_is_cut_off_before_its_last_column() {
    let text: String = "a".repeat(65536);
    let mut c = leaf("p", 0, &text);
    assert_eq!(c.resize(65535, 1), Ok(()));
    let mut buf = buffer(65535, 1, 'z');
    assert!(c.try_render(area(0, 0, 65535, 1), &mut buf));
    assert_eq!(buf.get(0, 0).symbol, "a");
    assert_eq!(buf.get(65533, 0).symbol, "a");
    assert_eq!(buf.get(65534, 0).symbol, " ");
}

#[test]
fn wide_symbols_are_drawn_into_half_of_the_widest_area_at_most() {
    let text: String = "\u{4e2d}".repeat(40000);
    let mut c = leaf("p", 0, &text);
    let mut buf = buffer(65535, 1, 'z');
    assert!(c.try_render(area(0, 0, 65535, 1), &mut buf));
    assert_eq!(buf.get(0, 0).symbol, "\u{4e2d}");
    assert_eq!(buf.get(32764, 0).symbol, "\u{4e2d}");
    assert_eq!(buf.get(32767, 0).symbol, " ");
    assert_eq!(buf.get(65534, 0).symbol, " ");
}

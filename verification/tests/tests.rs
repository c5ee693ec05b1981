use crossterm::event::{
    Event, KeyCode, KeyEvent, KeyEventKind, KeyEventState, KeyModifiers, MouseButton, MouseEvent,
    MouseEventKind,
};
use tui::buffer::Buffer;
use tui_tiling::component::{Component, ComponentBase, ComponentWidget};
use tui_tiling::container::list::ContainerList;
use tui_tiling::container::search::ContainerSearch;
use tui_tiling::container::Container;
use tui_tiling::layout::{Direction, Rect};
use tui_tiling::pos::ComponentPos;
use tui_tiling::{Border, FocusResult, ResizeError};

pub struct TestComponentWidget {
    print_last: bool,
    mouse_last: Option<(u16, u16, MouseEventKind)>,
    key_last: Option<KeyEvent>,
}

impl TestComponentWidget {
    pub fn new(print_last: bool) -> Self {
        Self { print_last, mouse_last: None, key_last: None }
    }
}

impl ComponentWidget for TestComponentWidget {
    fn handle_mouse(&mut self, x: u16, y: u16, e: MouseEventKind) -> bool {
        self.mouse_last = Some((x, y, e));
        true
    }

    fn handle_key(&mut self, e: KeyEvent) -> bool {
        self.key_last = Some(e);
        true
    }

    fn handle_update(&mut self) -> bool {
        false
    }

    fn resize(&mut self, _: u16, _: u16) {}

    fn render(&mut self, area: Rect, buf: &mut Buffer) {
        for x in 0..area.width {
            buf.get_mut(area.x + x, area.y).symbol = format!("#");
            buf.get_mut(area.x + x, area.y + area.height - 1).symbol = format!("#");
        }
        for y in 0..area.height {
            buf.get_mut(area.x, area.y + y).symbol = format!("#");
            buf.get_mut(area.x + area.width - 1, area.y + y).symbol = format!("#");
        }

        if !self.print_last {
            return;
        }
        let mouse_msg = format!("{:?}", self.mouse_last);
        let key_msg = format!("{:?}", self.key_last);
        for (i, c) in mouse_msg.chars().into_iter().enumerate() {
            if area.height > 2 && area.width > i as u16 + 2 {
                buf.get_mut(area.x + i as u16 + 1, area.y + 1).symbol = format!("{}", c);
            }
        }
        for (i, c) in key_msg.chars().into_iter().enumerate() {
            if area.height > 3 && area.width > i as u16 + 2 {
                buf.get_mut(area.x + i as u16 + 1, area.y + 2).symbol = format!("{}", c);
            }
        }
    }
}

pub fn render_helper<T: ComponentBase>(component_base: &mut T) -> Buffer {
    let width = component_base.get_width();
    let height = component_base.get_height();
    let mut buffer = Buffer::empty(tui::layout::Rect::new(0, 0, width, height));
    component_base.render(Rect { x: 0, y: 0, width, height }, &mut buffer);
    buffer
}

fn key(code: KeyCode) -> KeyEvent {
    KeyEvent {
        code,
        modifiers: KeyModifiers::empty(),
        kind: KeyEventKind::Press,
        state: KeyEventState::empty(),
    }
}

#[test]
fn test_tui_tiling() -> Result<(), ResizeError> {
    let mut component_a =
        Component::new(String::from("a"), 1, Box::new(TestComponentWidget::new(false)));
    component_a.set_fixed_height(Some(4));
    let component_b =
        Component::new(String::from("b"), 1, Box::new(TestComponentWidget::new(false)));
    let component_c =
        Component::new(String::from("c"), 1, Box::new(TestComponentWidget::new(false)));

    assert!(!component_a.get_widget().print_last);
    assert!(component_a.get_widget_mut().mouse_last.is_none());

    let mut list_vertical =
        ContainerList::new(String::from("vertical"), Direction::Vertical, true, 0, 0);

    let _ = list_vertical.add_component(component_a);
    let _ = list_vertical.add_component(component_b);

    let mut tui = ContainerList::new(String::from("horizontal"), Direction::Horizontal, true, 0, 0);

    let _ = tui.add_container(Box::new(list_vertical));
    let _ = tui.add_component(component_c);

    assert!(tui.as_container().search_name_widget("vertical.a").is_some());
    assert!(tui.as_container_mut().search_name_widget_mut("vertical.a").is_some());

    assert_ne!(tui.resize(20, 0), Ok(()));
    // Size should still be zero since last change was un-done
    assert_eq!(tui.resize(0, 0), Ok(()));
    assert_ne!(tui.resize(20, 1), Ok(()));
    assert_ne!(tui.resize(1, 20), Ok(()));

    tui.resize(20, 10)?;
    tui.resize(32, 8)?;

    let expected = [
        "╭a─────────────╮╭c─────────────╮",
        "│##############││##############│",
        "│##############││#            #│",
        "╰──────────────╯│#            #│",
        "╭b─────────────╮│#            #│",
        "│##############││#            #│",
        "│##############││##############│",
        "╰──────────────╯╰──────────────╯",
    ];

    let buffer = render_helper(tui.as_base_mut());
    for y in 0..buffer.area.height {
        for x in 0..buffer.area.width {
            assert_eq!(
                buffer.get(x, y).symbol.chars().nth(0).unwrap(),
                expected[y as usize].chars().nth(x as usize).unwrap()
            );
        }
    }

    let (comp, pos) = tui.as_container().search_name("c").unwrap();
    assert_eq!(comp.as_base().get_name(), String::from("c"));
    assert_eq!(pos, ComponentPos { x: 16, y: 0 });

    let (comp, pos) = tui.as_container().search_name("vertical.a").unwrap();
    assert_eq!(comp.as_base().get_name(), String::from("a"));
    assert_eq!(pos, ComponentPos { x: 0, y: 0 });

    let (comp, pos) = tui.as_container().search_name("vertical.b").unwrap();
    assert_eq!(comp.as_base().get_name(), String::from("b"));
    assert_eq!(pos, ComponentPos { x: 0, y: 4 });

    if let Some(_) = tui.as_container().search_name("") {
        panic!("<empty> does not exist!");
    }

    if let Some(_) = tui.as_container().search_name("vertical.c") {
        panic!("vertical.c does not exist!");
    }

    if let Some(_) = tui.as_container().search_name("vertical.c") {
        panic!("vertical.b.c does not exist!");
    }

    let (comp, pos) = tui.as_container().search_position(ComponentPos { x: 16, y: 0 }).unwrap();
    assert_eq!(comp.get_name(), String::from("c"));
    assert_eq!(pos, ComponentPos { x: 16, y: 0 });

    let (comp, pos) = tui.as_container().search_position(ComponentPos { x: 0, y: 0 }).unwrap();
    assert_eq!(comp.get_name(), String::from("a"));
    assert_eq!(pos, ComponentPos { x: 0, y: 0 });

    let (comp, pos) = tui.as_container().search_position(ComponentPos { x: 0, y: 4 }).unwrap();
    assert_eq!(comp.get_name(), String::from("b"));
    assert_eq!(pos, ComponentPos { x: 0, y: 4 });

    match tui.as_container().search_focused() {
        FocusResult::Focus(_) => panic!("No component should be focused!"),
        FocusResult::PartialFocus(_) => panic!("No component should be partial focused!"),
        FocusResult::NoFocus => {}
    }

    // Hit enter to partial focus first component
    tui.handle_key(key(KeyCode::Enter));

    match tui.as_container().search_focused() {
        FocusResult::Focus(_) => panic!("No component should be focused!"),
        FocusResult::PartialFocus((comp, pos)) => {
            assert_eq!(comp.get_name(), String::from("a"));
            assert_eq!(pos, ComponentPos { x: 0, y: 0 });
        }
        FocusResult::NoFocus => panic!("A component should be partial focused!"),
    }

    // Hit enter to focus
    tui.handle_key(key(KeyCode::Enter));

    match tui.as_container().search_focused() {
        FocusResult::Focus((comp, pos)) => {
            assert_eq!(comp.get_name(), String::from("a"));
            assert_eq!(pos, ComponentPos { x: 0, y: 0 });
        }
        FocusResult::PartialFocus(_) => panic!("No component should be partial focused!"),
        FocusResult::NoFocus => panic!("A component should be focused!"),
    }

    // Hit esc to partial focus
    tui.handle_key(key(KeyCode::Esc));

    match tui.as_container().search_focused() {
        FocusResult::Focus(_) => panic!("No component should be focused!"),
        FocusResult::PartialFocus((comp, pos)) => {
            assert_eq!(comp.get_name(), String::from("a"));
            assert_eq!(pos, ComponentPos { x: 0, y: 0 });
        }
        FocusResult::NoFocus => panic!("A component should be partial focused!"),
    }

    // Hit down to partial focus component below
    tui.handle_key(key(KeyCode::Down));

    match tui.as_container().search_focused() {
        FocusResult::Focus(_) => panic!("No component should be focused!"),
        FocusResult::PartialFocus((comp, pos)) => {
            assert_eq!(comp.get_name(), String::from("b"));
            assert_eq!(pos, ComponentPos { x: 0, y: 4 });
        }
        FocusResult::NoFocus => panic!("A component should be partial focused!"),
    }

    // Hit right to partial focus component right
    tui.handle_key(key(KeyCode::Right));

    match tui.as_container().search_focused() {
        FocusResult::Focus(_) => panic!("No component should be focused!"),
        FocusResult::PartialFocus((comp, pos)) => {
            assert_eq!(comp.get_name(), String::from("c"));
            assert_eq!(pos, ComponentPos { x: 16, y: 0 });
        }
        FocusResult::NoFocus => panic!("A component should be partial focused!"),
    }

    // Hit right to partial focus component right (should not change)
    tui.handle_key(key(KeyCode::Right));

    match tui.as_container().search_focused() {
        FocusResult::Focus(_) => panic!("No component should be focused!"),
        FocusResult::PartialFocus((comp, pos)) => {
            assert_eq!(comp.get_name(), String::from("c"));
            assert_eq!(pos, ComponentPos { x: 16, y: 0 });
        }
        FocusResult::NoFocus => panic!("A component should be partial focused!"),
    }

    assert_eq!(tui.get_border(1, 0), Some(Border::Top));
    assert_eq!(tui.get_border(0, 1), Some(Border::Left));
    assert_eq!(tui.get_border(0, 6), Some(Border::Left));
    assert_eq!(tui.get_border(15, 1), None);
    assert_eq!(tui.get_border(1, 7), Some(Border::Bottom));
    assert_eq!(tui.get_border(31, 1), Some(Border::Right));

    let expected = [
        "╭a──────────────╮╭c────────────╮",
        "│###############││#############│",
        "│###############││#           #│",
        "╰───────────────╯│#           #│",
        "╭b──────────────╮│#           #│",
        "│###############││#           #│",
        "│###############││#############│",
        "╰───────────────╯╰─────────────╯",
    ];

    tui.handle_mouse(16, 4, Some(MouseEventKind::Down(MouseButton::Left)));
    tui.handle_mouse(17, 4, Some(MouseEventKind::Drag(MouseButton::Left)));
    tui.handle_mouse(17, 4, None);
    tui.handle_mouse(18, 4, Some(MouseEventKind::Drag(MouseButton::Left)));

    let buffer = render_helper(tui.as_base_mut());
    for y in 0..buffer.area.height {
        for x in 0..buffer.area.width {
            assert_eq!(
                buffer.get(x, y).symbol.chars().nth(0).unwrap(),
                expected[y as usize].chars().nth(x as usize).unwrap()
            );
        }
    }

    Ok(())
}

/// The tree of the interactive demonstration: a column of a leaf of fixed
/// height and two flexible leaves, beside one more leaf.
fn get_tui(print_last: bool) -> Result<ContainerList<TestComponentWidget>, ResizeError> {
    let mut column = ContainerList::new(String::from("vertical"), Direction::Vertical, true, 0, 0);
    let _ = column.add_component(
        Component::new(String::from("fixed"), 1, Box::new(TestComponentWidget::new(print_last)))
            .fixed_height(Some(6)),
    );
    let _ = column.add_component(Component::new(
        String::from("a"),
        1,
        Box::new(TestComponentWidget::new(print_last)),
    ));
    let _ = column.add_component(Component::new(
        String::from("b"),
        1,
        Box::new(TestComponentWidget::new(print_last)),
    ));
    let mut tui = ContainerList::new(String::from("horizontal"), Direction::Horizontal, true, 0, 0);
    let _ = tui.add_container(Box::new(column));
    let _ = tui.add_component(Component::new(
        String::from("c"),
        1,
        Box::new(TestComponentWidget::new(print_last)),
    ));
    tui.resize(80, 24)?;
    Ok(tui)
}

#[test]
fn test_tui_interactive() {
    let mut tui = get_tui(true).unwrap();
    let events = vec![
        Event::Resize(80, 24),
        Event::Key(key(KeyCode::Enter)),
        Event::Key(key(KeyCode::Down)),
        Event::Key(key(KeyCode::Enter)),
        Event::Key(key(KeyCode::Char('x'))),
        Event::FocusLost,
        Event::Mouse(MouseEvent {
            kind: MouseEventKind::Down(MouseButton::Left),
            column: 40,
            row: 3,
            modifiers: KeyModifiers::empty(),
        }),
        Event::Mouse(MouseEvent {
            kind: MouseEventKind::Drag(MouseButton::Left),
            column: 44,
            row: 3,
            modifiers: KeyModifiers::empty(),
        }),
        Event::Mouse(MouseEvent {
            kind: MouseEventKind::Up(MouseButton::Left),
            column: 44,
            row: 3,
            modifiers: KeyModifiers::empty(),
        }),
    ];
    for event in events {
        match event {
            Event::Resize(columns, rows) => {
                tui.resize(columns, rows).unwrap();
            }
            other => {
                tui.handle_input(other);
            }
        }
        let buffer = render_helper(&mut tui);
        assert_eq!(buffer.area.width, tui.get_width());
        assert_eq!(buffer.area.height, tui.get_height());
    }
    // The key walked from "fixed" down to "a" and entered it; the press on
    // the border between the column and "c" then took the focus to "c",
    // and the drag moved that border four cells to the right.
    match tui.search_focused() {
        FocusResult::Focus((comp, pos)) => {
            assert_eq!(comp.get_name(), String::from("c"));
            assert_eq!(pos, ComponentPos { x: 44, y: 0 });
        }
        _ => panic!("A component should be focused!"),
    }
    assert_eq!(tui.get_children()[0].get_width(), 44);
    assert_eq!(tui.get_children()[1].get_width(), 36);
}

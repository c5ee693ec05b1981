//! Leaf nodes: a widget with a border, a size and a focus.

use vstd::prelude::*;
use vstd::string::StrSliceExecFns;
use crossterm::event::{Event, KeyEvent, MouseEventKind};
use tui::buffer::Buffer;
use crate::canvas::{
    area_of, blanked, blanked_to, border_block, buffer_area, buffer_cells,
    buffer_sound, cell_count, cells_kept, drawn_within, focus_color, lemma_blank_column,
    lemma_blank_kept, lemma_blank_next, lemma_cells_kept, render_block, reset_cell, with_title,
};
use crate::model::drawing::{drawn, interior, leaf_framed};
use crate::layout::Rect;
use crate::event::{
    action_of, classify, input_of, key_of, mouse_action, pointer_action, pressed_key, Input, Key,
    MouseAction,
};
use crate::model::focus::{
    key_step, leaf_after_key, leaf_after_mouse, with_focus, with_redraw, KeyStep,
};
use crate::model::geometry::{border_at, renderable, within_reach};
use crate::model::pointer::{after_mouse, leaf_forwards, mouse_reaches};
use crate::model::search::{
    after_key, focus_in_reach, focused_path, key_exit, key_reaches, leaf_at,
};
use crate::model::sizing::{leaf_min, resize_outcome, size_told};
use crate::model::{LeafView, NodeView};
use crate::{Border, Focus, ResizeError};

pub mod simple;

verus! {

/// The content of a leaf. Each handler answers whether the widget has to
/// be drawn again.
///
/// What a handler does to the widget is a relation that the widget itself
/// gives: the contracts of a leaf say through it which call has reached
/// the widget, and with what arguments. A widget that gives none has the
/// relation that holds of everything.
pub trait ComponentWidget {
    /// Whether the widget can answer `redraw` when it handles a mouse
    /// event of `kind` at the cell `(x, y)`.
    open spec fn mouse_handled(
        &self,
        x: u16,
        y: u16,
        kind: MouseEventKind,
        redraw: bool,
    ) -> bool {
        true
    }

    /// Whether the widget can answer `redraw` when it handles the key
    /// event `e`.
    open spec fn key_handled(&self, e: KeyEvent, redraw: bool) -> bool {
        true
    }

    /// Whether the widget can answer `redraw` when time passes.
    open spec fn updated(&self, redraw: bool) -> bool {
        true
    }

    /// Whether the widget can be told the size `width` by `height`.
    open spec fn resized(&self, width: u16, height: u16) -> bool {
        true
    }

    /// Whether the widget can make the cells `cells` of the cells `before`
    /// when it draws into `area` of a buffer that covers `bounds`.
    open spec fn rendered(
        &self,
        area: Rect,
        bounds: Rect,
        before: Seq<Seq<char>>,
        cells: Seq<Seq<char>>,
    ) -> bool {
        true
    }

    /// Handles a mouse event at a cell relative to the widget.
    fn handle_mouse(&mut self, x: u16, y: u16, kind: MouseEventKind) -> (redraw: bool)
        ensures
            old(self).mouse_handled(x, y, kind, redraw),
    ;

    fn handle_key(&mut self, e: KeyEvent) -> (redraw: bool)
        ensures
            old(self).key_handled(e, redraw),
    ;

    /// Handles the passing of time.
    fn handle_update(&mut self) -> (redraw: bool)
        ensures
            old(self).updated(redraw),
    ;

    /// Takes note of the size of the leaf, border included.
    fn resize(&mut self, width: u16, height: u16)
        ensures
            old(self).resized(width, height),
    ;

    /// Draws the widget into `area`, which lies in the buffer, and into no
    /// cell outside it.
    fn render(&mut self, area: Rect, buf: &mut Buffer)
        requires
            buffer_sound(*old(buf)),
            area.within(buffer_area(*old(buf))),
        ensures
            drawn_within(*old(buf), *final(buf), area),
            old(self).rendered(
                area,
                buffer_area(*old(buf)),
                buffer_cells(*old(buf)),
                buffer_cells(*final(buf)),
            ),
    ;
}

/// Whether an input event can change the widget of the leaf at the end of
/// `path`: a key event where the key is handed on to that widget, a mouse
/// event where it reaches the widget, and no other event.
pub open spec fn input_reaches(n: NodeView, input: Input, path: Seq<int>) -> bool {
    match input {
        Input::Key(e) => key_reaches(n, key_of(e), path),
        Input::Mouse(column, row, kind) => mouse_reaches(
            n,
            column as int,
            row as int,
            Some(action_of(kind)),
            path,
        ),
        Input::Ignored => false,
    }
}

/// What leaves and containers have in common.
pub trait ComponentBase {
    /// The type of the widgets that the leaves hold.
    type Widget: ComponentWidget + ?Sized;

    /// The node as the layout rules see it.
    spec fn node(&self) -> NodeView;

    /// The widget of the leaf at the end of `path`. A leaf is reached by
    /// every path.
    spec fn widget_at(&self, path: Seq<int>) -> &Self::Widget;

    /// Whether `after` are the cells that drawing the node into `area` can
    /// make of the cells `before`, in a buffer that covers `bounds`. A
    /// leaf that is not marked for redrawing draws nothing. Otherwise its
    /// border block is drawn where it has a border; where the border
    /// leaves room, the cells inside it are then blanked, and the widget
    /// draws into them. A container draws its children one after the
    /// other, each into its rectangle.
    spec fn paints(
        &self,
        before: Seq<Seq<char>>,
        after: Seq<Seq<char>>,
        bounds: Rect,
        area: Rect,
    ) -> bool;

    /// Handles a mouse event at the cell `(x, y)`, relative to the node;
    /// without a kind, the pointer has left the node.
    fn handle_mouse(&mut self, x: u16, y: u16, kind: Option<MouseEventKind>)
        ensures
            exists|redraw: bool|
                final(self).node() == #[trigger] after_mouse(
                    old(self).node(),
                    x as int,
                    y as int,
                    pointer_action(kind),
                    redraw,
                ),
            forall|path: Seq<int>|
                !mouse_reaches(old(self).node(), x as int, y as int, pointer_action(kind), path)
                    ==> #[trigger] final(self).widget_at(path) == old(self).widget_at(path),
    ;

    /// Handles a key. A leaf answers with the border through which the
    /// focus leaves it; a container moves the focus itself. The key
    /// reaches the widget of the leaf that has the focus, where that
    /// leaf hands it on, and no other widget.
    fn handle_key(&mut self, e: KeyEvent) -> (exit: Option<Border>)
        requires
            focus_in_reach(old(self).node()),
        ensures
            exit == key_exit(old(self).node(), key_of(e)),
            exists|redraw: bool|
                final(self).node() == #[trigger] after_key(old(self).node(), key_of(e), redraw)
                    && (focused_path(old(self).node()) matches Some(p) ==> (key_step(
                    leaf_at(old(self).node(), p).focus,
                    key_of(e),
                ).forward ==> old(self).widget_at(p).key_handled(e, redraw))),
            forall|path: Seq<int>|
                !key_reaches(old(self).node(), key_of(e), path)
                    ==> #[trigger] final(self).widget_at(path) == old(self).widget_at(path),
    ;

    /// Lets time pass for every widget below the node. A widget that asks
    /// for it is marked for redrawing.
    fn handle_update(&mut self)
        ensures
            old(self).node().marked_in(final(self).node()),
    ;

    /// Handles a terminal event: a key event as `handle_key` does, a mouse
    /// event as `handle_mouse` does at its column and row. All other
    /// events are ignored.
    fn handle_input(&mut self, event: Event) -> (exit: Option<Border>)
        requires
            focus_in_reach(old(self).node()),
        ensures
            match input_of(event) {
                Input::Key(e) => exit == key_exit(old(self).node(), key_of(e)) && exists|
                    redraw: bool,
                |
                    final(self).node() == #[trigger] after_key(old(self).node(), key_of(e), redraw),
                Input::Mouse(column, row, kind) => exit is None && exists|redraw: bool|
                    final(self).node() == #[trigger] after_mouse(
                        old(self).node(),
                        column as int,
                        row as int,
                        Some(action_of(kind)),
                        redraw,
                    ),
                Input::Ignored => exit is None && final(self).node() == old(self).node(),
            },
            forall|path: Seq<int>|
                !input_reaches(old(self).node(), input_of(event), path)
                    ==> #[trigger] final(self).widget_at(path) == old(self).widget_at(path),
    {
        match classify(event) {
            Input::Key(e) => self.handle_key(e),
            Input::Mouse(column, row, kind) => {
                self.handle_mouse(column, row, Some(kind));
                None
            },
            Input::Ignored => None,
        }
    }

    /// Marks every leaf of the node for redrawing. No widget changes.
    fn invalidate(&mut self)
        ensures
            final(self).node() == old(self).node().invalidated(),
            forall|path: Seq<int>|
                #[trigger] final(self).widget_at(path) == old(self).widget_at(path),
    ;

    /// Whether the node would take the size `width` by `height`, and the
    /// error with which it would refuse it.
    fn check_resize(&self, width: u16, height: u16) -> (r: Result<(), ResizeError>)
        ensures
            r is Ok <==> resize_outcome(self.node(), width, height) is Ok,
            r is Err ==> resize_outcome(self.node(), width, height) == Err::<
                NodeView,
                _,
            >(r->Err_0@),
    ;

    /// Gives the node the size `width` by `height`, which it must accept,
    /// and tells the widgets below it their sizes.
    fn apply_resize(&mut self, width: u16, height: u16)
        requires
            resize_outcome(old(self).node(), width, height) is Ok,
        ensures
            Ok::<_, crate::model::ResizeErrorView>(final(self).node()) == resize_outcome(
                old(self).node(),
                width,
                height,
            ),
            forall|path: Seq<int>| #[trigger]
                size_told(old(self).node(), width, height, path) matches Some(size) ==> old(
                    self,
                ).widget_at(path).resized(size.0, size.1),
    ;

    /// Resizes the node and all nodes below it, and tells the widgets
    /// their sizes. On an error nothing has changed, and no widget was
    /// told of a size.
    fn resize(&mut self, width: u16, height: u16) -> (r: Result<(), ResizeError>)
        ensures
            match resize_outcome(old(self).node(), width, height) {
                Ok(n) => r is Ok && final(self).node() == n,
                Err(e) => r is Err && r->Err_0@ == e && final(self).node() == old(self).node(),
            },
            r is Err ==> forall|path: Seq<int>|
                #[trigger] final(self).widget_at(path) == old(self).widget_at(path),
            r is Ok ==> forall|path: Seq<int>| #[trigger]
                size_told(old(self).node(), width, height, path) matches Some(size) ==> old(
                    self,
                ).widget_at(path).resized(size.0, size.1),
    ;

    fn get_width(&self) -> (width: u16)
        ensures
            width == self.node().width(),
    ;

    fn get_height(&self) -> (height: u16)
        ensures
            height == self.node().height(),
    ;

    fn is_fixed_width(&self) -> (fixed: bool)
        ensures
            fixed == self.node().fixed_width(),
    ;

    fn is_fixed_height(&self) -> (fixed: bool)
        ensures
            fixed == self.node().fixed_height(),
    ;

    /// The focus of the node, or of the first node below it that has any.
    fn get_focus(&self) -> (focus: Focus)
        ensures
            focus == self.node().focus(),
    ;

    fn get_name(&self) -> (name: String)
        ensures
            name@ == self.node().name(),
    ;

    /// The border of the node on which the cell `(x, y)`, relative to the
    /// node, lies.
    fn get_border(&self, x: u16, y: u16) -> (border: Option<Border>)
        ensures
            border == border_at(self.node(), x as int, y as int),
    ;

    /// Whether every node of the tree starts at a column and row that fit
    /// `u16`, when the node itself starts at the cell `(x, y)`.
    fn starts_in_reach(&self, x: u16, y: u16) -> (ok: bool)
        ensures
            ok == within_reach(self.node(), x as int, y as int),
    ;

    /// Whether the node can be drawn into an area of `width` by `height`
    /// cells.
    fn fits(&self, width: u16, height: u16) -> (ok: bool)
        ensures
            ok == renderable(self.node(), width as int, height as int),
    ;

    /// Draws the node into `area` of the buffer and marks it as drawn. No
    /// cell outside `area` changes.
    fn render(&mut self, area: Rect, buf: &mut Buffer)
        requires
            buffer_sound(*old(buf)),
            area.within(buffer_area(*old(buf))),
            renderable(old(self).node(), area.width as int, area.height as int),
        ensures
            final(self).node() == old(self).node().rendered(),
            drawn_within(*old(buf), *final(buf), area),
            drawn(
                old(self).node(),
                buffer_cells(*old(buf)),
                buffer_cells(*final(buf)),
                buffer_area(*old(buf)),
                area,
            ),
            old(self).paints(
                buffer_cells(*old(buf)),
                buffer_cells(*final(buf)),
                buffer_area(*old(buf)),
                area,
            ),
    ;

    /// Draws the node into `area` of the buffer if it can be drawn there,
    /// and says whether it was.
    fn try_render(&mut self, area: Rect, buf: &mut Buffer) -> (done: bool)
        ensures
            done == (buffer_sound(*old(buf)) && area.within(buffer_area(*old(buf)))
                && renderable(old(self).node(), area.width as int, area.height as int)),
            done ==> final(self).node() == old(self).node().rendered() && drawn_within(
                *old(buf),
                *final(buf),
                area,
            ) && drawn(
                old(self).node(),
                buffer_cells(*old(buf)),
                buffer_cells(*final(buf)),
                buffer_area(*old(buf)),
                area,
            ) && old(self).paints(
                buffer_cells(*old(buf)),
                buffer_cells(*final(buf)),
                buffer_area(*old(buf)),
                area,
            ),
            !done ==> final(self).node() == old(self).node() && *final(buf) == *old(buf),
    {
        let bounds = area_of(buf);
        let count = cell_count(buf);
        assert(bounds.width * bounds.height <= 0xffff * 0xffff) by (nonlinear_arith)
            requires
                0 <= bounds.width <= 0xffff,
                0 <= bounds.height <= 0xffff,
        ;
        let cells: u64 = bounds.width as u64 * bounds.height as u64;
        let sound = bounds.x as u32 + bounds.width as u32 <= 0xffff && bounds.y as u32
            + bounds.height as u32 <= 0xffff && cells <= 0xffff && count as u64 == cells;
        let within = bounds.x <= area.x && bounds.y <= area.y && area.x as u32 + area.width as u32
            <= bounds.x as u32 + bounds.width as u32 && area.y as u32 + area.height as u32
            <= bounds.y as u32 + bounds.height as u32;
        if sound && within && self.fits(area.width, area.height) {
            self.render(area, buf);
            true
        } else {
            false
        }
    }
}

/// What a key does to a leaf in the focus state `focus`.
pub fn key_transition(focus: Focus, key: Key) -> (step: KeyStep)
    ensures
        step == key_step(focus, key),
{
    let stay = KeyStep { focus, exit: None, forward: false };
    let leave = KeyStep { focus: Focus::NoFocus, exit: None, forward: false };
    match focus {
        Focus::Focus => match key {
            Key::Escape => KeyStep { focus: Focus::PartialFocus, ..stay },
            _ => KeyStep { forward: true, ..stay },
        },
        Focus::PartialFocus => match key {
            Key::Up => KeyStep { exit: Some(Border::Top), ..leave },
            Key::Down => KeyStep { exit: Some(Border::Bottom), ..leave },
            Key::Left => KeyStep { exit: Some(Border::Left), ..leave },
            Key::Right => KeyStep { exit: Some(Border::Right), ..leave },
            Key::Enter => KeyStep { focus: Focus::Focus, ..stay },
            _ => stay,
        },
        Focus::NoFocus => match key {
            Key::Enter => KeyStep { focus: Focus::PartialFocus, ..stay },
            _ => stay,
        },
    }
}

/// A leaf of the layout tree: a widget inside an optional border.
pub struct Component<W: ComponentWidget + ?Sized> {
    name: String,
    width: u16,
    height: u16,
    fixed_width: bool,
    fixed_height: bool,
    border_width: u16,
    invalidated: bool,
    focus: Focus,
    widget: Box<W>,
}

/// The view of a leaf is what the layout and focus rules read of it. The
/// widget that it holds is not part of the view: `Component::widget` names
/// it.
impl<W: ComponentWidget + ?Sized> View for Component<W> {
    type V = LeafView;

    closed spec fn view(&self) -> LeafView {
        LeafView {
            name: self.name@,
            width: self.width,
            height: self.height,
            fixed_width: self.fixed_width,
            fixed_height: self.fixed_height,
            border_width: self.border_width,
            invalidated: self.invalidated,
            focus: self.focus,
        }
    }
}

impl<W: ComponentWidget + ?Sized> Component<W> {
    /// A leaf without size or focus, marked for drawing.
    pub fn new(name: String, border_width: u16, widget: Box<W>) -> (c: Self)
        ensures
            c@ == (LeafView {
                name: name@,
                width: 0,
                height: 0,
                fixed_width: false,
                fixed_height: false,
                border_width,
                invalidated: true,
                focus: Focus::NoFocus,
            }),
            c.widget() == &*widget,
    {
        Self {
            name,
            width: 0,
            height: 0,
            fixed_width: false,
            fixed_height: false,
            border_width,
            invalidated: true,
            focus: Focus::NoFocus,
            widget,
        }
    }

    pub fn get_border_width(&self) -> (border_width: u16)
        ensures
            border_width == self@.border_width,
    {
        self.border_width
    }

    /// Sets the focus; a change marks the leaf for redrawing.
    pub fn set_focus(&mut self, focus: Focus)
        ensures
            final(self)@ == with_focus(old(self)@, focus),
            final(self).widget() == old(self).widget(),
    {
        if self.focus != focus {
            self.focus = focus;
            self.invalidated = true;
        }
    }

    /// Marks the leaf for redrawing where `redraw` holds: it is what the
    /// widget answered to an event.
    pub fn redraw_if(&mut self, redraw: bool)
        ensures
            final(self)@ == with_redraw(old(self)@, redraw),
            final(self).widget() == old(self).widget(),
    {
        if redraw {
            self.invalidated = true;
        }
    }

    pub fn get_widget(&self) -> (widget: &W)
        ensures
            widget == self.widget(),
    {
        &*self.widget
    }

    /// The widget, to change it. The leaf itself stays as it is.
    pub fn get_widget_mut(&mut self) -> (widget: &mut W)
        ensures
            &*widget == old(self).widget(),
            &*final(widget) == final(self).widget(),
            final(self)@ == old(self)@,
    {
        &mut *self.widget
    }

    /// The widget that the leaf holds.
    pub closed spec fn widget(&self) -> &W {
        &*self.widget
    }

    /// Whether `after` are the cells that the widget can make of the cells
    /// `framed` when the cells of `inside` are blanked and the widget then
    /// draws into them.
    pub open spec fn fills(
        &self,
        framed: Seq<Seq<char>>,
        after: Seq<Seq<char>>,
        bounds: Rect,
        inside: Rect,
    ) -> bool {
        exists|blank: Seq<Seq<char>>|
            blanked(framed, blank, bounds, inside) && #[trigger] self.widget().rendered(
                inside,
                bounds,
                blank,
                after,
            )
    }

    /// Whether drawing the leaf into `area` has its widget draw.
    pub open spec fn shows_widget(&self, area: Rect) -> bool {
        self@.invalidated && interior(self@, area) is Some
    }

    /// Fixes the width at the given value, or makes it flexible again.
    pub fn set_fixed_width(&mut self, fixed_width: Option<u16>)
        ensures
            final(self)@ == (match fixed_width {
                Some(width) => LeafView { width, fixed_width: true, ..old(self)@ },
                None => LeafView { fixed_width: false, ..old(self)@ },
            }),
            final(self).widget() == old(self).widget(),
    {
        if let Some(width) = fixed_width {
            self.width = width;
            self.fixed_width = true;
        } else {
            self.fixed_width = false;
        }
    }

    /// The leaf with its width fixed or made flexible.
    pub fn fixed_width(self, fixed_width: Option<u16>) -> (c: Self)
        ensures
            c@ == (match fixed_width {
                Some(width) => LeafView { width, fixed_width: true, ..self@ },
                None => LeafView { fixed_width: false, ..self@ },
            }),
            c.widget() == self.widget(),
    {
        let mut c = self;
        c.set_fixed_width(fixed_width);
        c
    }

    /// Fixes the height at the given value, or makes it flexible again.
    pub fn set_fixed_height(&mut self, fixed_height: Option<u16>)
        ensures
            final(self)@ == (match fixed_height {
                Some(height) => LeafView { height, fixed_height: true, ..old(self)@ },
                None => LeafView { fixed_height: false, ..old(self)@ },
            }),
            final(self).widget() == old(self).widget(),
    {
        if let Some(height) = fixed_height {
            self.height = height;
            self.fixed_height = true;
        } else {
            self.fixed_height = false;
        }
    }

    /// The leaf with its height fixed or made flexible.
    pub fn fixed_height(self, fixed_height: Option<u16>) -> (c: Self)
        ensures
            c@ == (match fixed_height {
                Some(height) => LeafView { height, fixed_height: true, ..self@ },
                None => LeafView { fixed_height: false, ..self@ },
            }),
            c.widget() == self.widget(),
    {
        let mut c = self;
        c.set_fixed_height(fixed_height);
        c
    }

    /// Whether `width` and `height` leave room for the border.
    fn accepts(&self, width: u16, height: u16) -> (ok: bool)
        ensures
            ok == (width >= leaf_min(self@) && height >= leaf_min(self@)),
    {
        let doubled: u32 = 2 * (self.border_width as u32);
        let min: u32 = if doubled > 1 { doubled } else { 1 };
        width as u32 >= min && height as u32 >= min
    }
}

impl<W: ComponentWidget + ?Sized> ComponentBase for Component<W> {
    type Widget = W;

    open spec fn node(&self) -> NodeView {
        NodeView::Leaf(self@)
    }

    open spec fn widget_at(&self, path: Seq<int>) -> &W {
        self.widget()
    }

    open spec fn paints(
        &self,
        before: Seq<Seq<char>>,
        after: Seq<Seq<char>>,
        bounds: Rect,
        area: Rect,
    ) -> bool {
        if !self@.invalidated {
            after == before
        } else {
            match interior(self@, area) {
                Some(inside) => self.fills(
                    leaf_framed(self@, before, bounds, area),
                    after,
                    bounds,
                    inside,
                ),
                None => after == leaf_framed(self@, before, bounds, area),
            }
        }
    }

    fn handle_update(&mut self)
        ensures
            exists|redraw: bool|
                final(self)@ == #[trigger] with_redraw(old(self)@, redraw) && old(
                    self,
                ).widget().updated(redraw),
    {
        let redraw = self.widget.handle_update();
        self.redraw_if(redraw);
        assert(self@ == with_redraw(old(self)@, redraw));
    }

    /// Takes the step that the focus machine gives for the key, and hands
    /// the key on to the widget where the step says so.
    fn handle_key(&mut self, e: KeyEvent) -> (exit: Option<Border>)
        ensures
            !key_step(old(self)@.focus, key_of(e)).forward
                ==> final(self).widget() == old(self).widget(),
            exists|redraw: bool|
                final(self)@ == #[trigger] leaf_after_key(old(self)@, key_of(e), redraw) && (
                key_step(old(self)@.focus, key_of(e)).forward ==> old(self).widget().key_handled(
                    e,
                    redraw,
                )),
    {
        let key = pressed_key(&e);
        let step = key_transition(self.focus, key);
        self.set_focus(step.focus);
        let mut redraw = false;
        if step.forward {
            redraw = self.widget.handle_key(e);
            self.redraw_if(redraw);
        }
        assert(self.node() == after_key(old(self).node(), key_of(e), redraw));
        assert(self@ == leaf_after_key(old(self)@, key_of(e), redraw));
        step.exit
    }

    /// The pointer's leaving takes the focus away. A press or drag of the
    /// left button inside the leaf focuses it. A focused leaf hands an
    /// event inside its border on to the widget, in the widget's
    /// coordinates.
    fn handle_mouse(&mut self, x: u16, y: u16, kind: Option<MouseEventKind>)
        ensures
            !leaf_forwards(old(self)@, x as int, y as int, pointer_action(kind))
                ==> final(self).widget() == old(self).widget(),
            exists|redraw: bool|
                final(self)@ == #[trigger] leaf_after_mouse(
                    old(self)@,
                    x as int,
                    y as int,
                    pointer_action(kind),
                    redraw,
                ) && (leaf_forwards(old(self)@, x as int, y as int, pointer_action(kind)) ==> old(
                    self,
                ).widget().mouse_handled(
                    (x - old(self)@.border_width) as u16,
                    (y - old(self)@.border_width) as u16,
                    kind->Some_0,
                    redraw,
                )),
    {
        let kind = match kind {
            Some(kind) => kind,
            None => {
                self.set_focus(Focus::NoFocus);
                proof {
                    reveal(after_mouse);
                }
                assert(self.node() == after_mouse(
                    old(self).node(),
                    x as int,
                    y as int,
                    pointer_action(None),
                    false,
                ));
                return ;
            },
        };
        let action = mouse_action(&kind);
        let ghost before = self@;
        let mut redraw = false;
        match action {
            MouseAction::Moved => {},
            _ => {
                let border = self.border_width;
                let in_component = x < self.width && y < self.height;
                let in_widget = x >= border && y >= border && x as u32 + (border as u32)
                    < self.width as u32 && y as u32 + (border as u32) < self.height as u32;
                match action {
                    MouseAction::LeftDown | MouseAction::LeftDrag => {
                        if in_component {
                            self.set_focus(Focus::Focus);
                        }
                    },
                    _ => {},
                }
                if in_widget && self.focus == Focus::Focus {
                    redraw = self.widget.handle_mouse(x - border, y - border, kind);
                    self.redraw_if(redraw);
                }
            },
        }
        assert(self@ == leaf_after_mouse(before, x as int, y as int, Some(action), redraw) || (
        action == MouseAction::Moved && self@ == before));
        proof {
            reveal(after_mouse);
        }
        assert(self.node() == after_mouse(
            old(self).node(),
            x as int,
            y as int,
            pointer_action(Some(kind)),
            redraw,
        ));
    }

    fn invalidate(&mut self)
        ensures
            final(self).widget() == old(self).widget(),
    {
        self.invalidated = true;
    }

    fn check_resize(&self, width: u16, height: u16) -> (r: Result<(), ResizeError>) {
        if self.accepts(width, height) {
            Ok(())
        } else {
            Err(
                ResizeError {
                    name: self.name.clone(),
                    width,
                    height,
                    border_width: self.border_width,
                },
            )
        }
    }

    fn apply_resize(&mut self, width: u16, height: u16)
        ensures
            old(self).widget().resized(width, height),
    {
        if self.width != width || self.height != height {
            self.invalidated = true;
        }
        if !self.fixed_width {
            self.width = width;
        }
        if !self.fixed_height {
            self.height = height;
        }
        self.widget.resize(width, height);
    }

    /// Refuses a size that leaves no room for the border. Otherwise the
    /// axes that are not fixed take the new extents, and the widget is told
    /// the size that was asked for.
    fn resize(&mut self, width: u16, height: u16) -> (r: Result<(), ResizeError>)
        ensures
            r is Err ==> final(self).widget() == old(self).widget(),
            r is Ok ==> old(self).widget().resized(width, height),
    {
        match self.check_resize(width, height) {
            Ok(()) => {
                self.apply_resize(width, height);
                Ok(())
            },
            Err(e) => Err(e),
        }
    }

    fn get_width(&self) -> (width: u16) {
        self.width
    }

    fn get_height(&self) -> (height: u16) {
        self.height
    }

    fn is_fixed_width(&self) -> (fixed: bool) {
        self.fixed_width
    }

    fn is_fixed_height(&self) -> (fixed: bool) {
        self.fixed_height
    }

    fn get_focus(&self) -> (focus: Focus) {
        self.focus
    }

    fn get_name(&self) -> (name: String) {
        self.name.clone()
    }

    fn starts_in_reach(&self, x: u16, y: u16) -> (ok: bool) {
        true
    }

    fn fits(&self, width: u16, height: u16) -> (ok: bool) {
        true
    }

    /// Does nothing unless the leaf is marked for redrawing. Draws the
    /// border with the name as its title, in the colour of the focus;
    /// then, where the border leaves room, blanks the cells inside it and
    /// has the widget draw into them.
    fn render(&mut self, area: Rect, buf: &mut Buffer)
        ensures
            !old(self).shows_widget(area) ==> final(self).widget() == old(self).widget(),
    {
        let ghost leaf = self@;
        let ghost bounds = buffer_area(*old(buf));
        proof {
            reveal(drawn);
        }
        if !self.invalidated {
            return ;
        }
        self.invalidated = false;
        if self.border_width > 0 {
            let block = border_block(focus_color(self.focus));
            let name = self.get_name();
            let block = if name.as_str().unicode_len() > 0 {
                with_title(block, name)
            } else {
                block
            };
            render_block(block, area, buf);
        }
        let ghost framed = buffer_cells(*buf);
        assert(framed == leaf_framed(leaf, buffer_cells(*old(buf)), bounds, area));
        let border = self.border_width as u32;
        if area.width as u32 <= 2 * border || area.height as u32 <= 2 * border {
            return ;
        }
        let rect = Rect {
            x: area.x + self.border_width,
            y: area.y + self.border_width,
            width: area.width - 2 * self.border_width,
            height: area.height - 2 * self.border_width,
        };
        assert(interior(leaf, area) == Some(rect));
        let mut x = rect.x;
        while x < rect.x + rect.width
            invariant
                rect.x <= x <= rect.x + rect.width,
                rect.within(area),
                area.within(bounds),
                bounds == buffer_area(*old(buf)),
                buffer_sound(*old(buf)),
                drawn_within(*old(buf), *buf, area),
                cells_kept(framed, buffer_cells(*buf), bounds, rect),
                blanked_to(framed, buffer_cells(*buf), bounds, rect, x as int, rect.y as int),
            decreases rect.x + rect.width - x,
        {
            let mut y = rect.y;
            while y < rect.y + rect.height
                invariant
                    rect.x <= x < rect.x + rect.width,
                    rect.y <= y <= rect.y + rect.height,
                    rect.within(area),
                    area.within(bounds),
                    bounds == buffer_area(*old(buf)),
                    buffer_sound(*old(buf)),
                    drawn_within(*old(buf), *buf, area),
                    cells_kept(framed, buffer_cells(*buf), bounds, rect),
                    blanked_to(framed, buffer_cells(*buf), bounds, rect, x as int, y as int),
                decreases rect.y + rect.height - y,
            {
                let ghost before = buffer_cells(*buf);
                reset_cell(buf, x, y);
                proof {
                    lemma_blank_next(framed, before, bounds, rect, x as int, y as int);
                    lemma_blank_kept(before, bounds, rect, x as int, y as int);
                    lemma_cells_kept(framed, before, buffer_cells(*buf), bounds, rect, rect);
                    lemma_cells_kept(
                        buffer_cells(*old(buf)),
                        before,
                        buffer_cells(*buf),
                        bounds,
                        rect,
                        area,
                    );
                }
                y += 1;
            }
            proof {
                lemma_blank_column(framed, buffer_cells(*buf), bounds, rect, x as int);
            }
            x += 1;
        }
        let ghost blank = buffer_cells(*buf);
        let ghost widget = self.widget();
        self.widget.render(rect, buf);
        proof {
            assert(blanked(framed, blank, bounds, rect));
            assert(widget.rendered(rect, bounds, blank, buffer_cells(*buf)));
            assert(old(self).widget() == widget);
            assert(old(self).widget().rendered(rect, bounds, blank, buffer_cells(*buf)));
            assert(old(self).fills(framed, buffer_cells(*buf), bounds, rect));
            lemma_cells_kept(framed, blank, buffer_cells(*buf), bounds, rect, rect);
            lemma_cells_kept(
                buffer_cells(*old(buf)),
                blank,
                buffer_cells(*buf),
                bounds,
                rect,
                area,
            );
        }
    }

    /// A cell within the border's width of an edge lies on that border; a
    /// corner belongs to the left or right border.
    fn get_border(&self, x: u16, y: u16) -> (border: Option<Border>) {
        if x >= self.width || y >= self.height {
            return None;
        }
        if x < self.border_width {
            Some(Border::Left)
        } else if x as u32 + self.border_width as u32 >= self.width as u32 {
            Some(Border::Right)
        } else if y < self.border_width {
            Some(Border::Top)
        } else if y as u32 + self.border_width as u32 >= self.height as u32 {
            Some(Border::Bottom)
        } else {
            None
        }
    }
}

} // verus!

//! A widget that shows a text.

use vstd::prelude::*;
use vstd::string::StrSliceExecFns;
use crossterm::event::{KeyEvent, MouseEventKind};
use tui::buffer::Buffer;
use tui::layout::Alignment;
use tui::style::Style;
use crate::canvas::{
    alignment_of, paragraph_cells, paragraph_width, plain, plain_char, render_paragraph,
    tui_alignment, TextAlignment,
};
use crate::component::ComponentWidget;
use crate::layout::Rect;

verus! {

/// A widget that shows a text in a style, aligned to the left, the
/// centre or the right. It takes no input.
pub struct ComponentWidgetSimple {
    text: String,
    style: Style,
    alignment: Alignment,
}

/// What a [`ComponentWidgetSimple`] shows.
pub struct SimpleView {
    pub text: Seq<char>,
    pub style: Style,
    pub alignment: Alignment,
}

/// Whether a text consists of printable ASCII characters and newlines.
pub fn is_plain(text: &str) -> (r: bool)
    ensures
        r == plain(text@),
{
    if !text.is_ascii() {
        proof {
            let i = choose|i: int|
                0 <= i < text@.len() && !('\0' <= #[trigger] text@[i] <= '\u{7f}');
            assert(!plain_char(text@[i]));
        }
        return false;
    }
    let n = text.unicode_len();
    let mut i: usize = 0;
    while i < n
        invariant
            0 <= i <= n,
            n == text@.len(),
            text.is_ascii(),
            forall|j: int| 0 <= j < i ==> plain_char(#[trigger] text@[j]),
        decreases n - i,
    {
        let b = text.get_ascii(i);
        if !(b == 10 || (32 <= b && b <= 126)) {
            assert(!plain_char(text@[i as int]));
            return false;
        }
        assert(plain_char(text@[i as int]));
        i += 1;
    }
    true
}

/// The area that a paragraph of the text is given where the widget draws
/// into `area`: all of it for a plain text, and one column less for
/// another, which can need one more cell to the right; in both cases no
/// more columns than a paragraph of the text can take.
pub open spec fn text_area(text: Seq<char>, area: Rect) -> Option<Rect> {
    let width = if plain(text) {
        area.width as int
    } else {
        area.width - 1
    };
    if width < 0 {
        None
    } else if width <= paragraph_width(text) {
        Some(Rect { width: width as u16, ..area })
    } else {
        Some(Rect { width: paragraph_width(text) as u16, ..area })
    }
}

impl View for ComponentWidgetSimple {
    type V = SimpleView;

    closed spec fn view(&self) -> SimpleView {
        SimpleView { text: self.text@, style: self.style, alignment: self.alignment }
    }
}

impl ComponentWidgetSimple {
    /// A widget with no text, in the default style of `tui`, aligned to
    /// the left.
    pub fn new() -> (widget: Self)
        ensures
            widget@.text == Seq::<char>::empty(),
            call_ensures(<Style as core::default::Default>::default, (), widget@.style),
            widget@.alignment == alignment_of(TextAlignment::Left),
    {
        Self {
            text: String::new(),
            style: Style::default(),
            alignment: tui_alignment(TextAlignment::Left),
        }
    }

    pub fn get_text(&self) -> (text: String)
        ensures
            text@ == self@.text,
    {
        self.text.clone()
    }

    pub fn set_text(&mut self, text: String)
        ensures
            final(self)@ == (SimpleView { text: text@, ..old(self)@ }),
    {
        self.text = text;
    }

    /// The widget with another text.
    pub fn text(self, text: String) -> (widget: Self)
        ensures
            widget@ == (SimpleView { text: text@, ..self@ }),
    {
        let mut widget = self;
        widget.text = text;
        widget
    }

    pub fn get_style(&self) -> (style: Style)
        ensures
            style == self@.style,
    {
        self.style
    }

    pub fn set_style(&mut self, style: Style)
        ensures
            final(self)@ == (SimpleView { style, ..old(self)@ }),
    {
        self.style = style;
    }

    /// The widget with another style.
    pub fn style(self, style: Style) -> (widget: Self)
        ensures
            widget@ == (SimpleView { style, ..self@ }),
    {
        let mut widget = self;
        widget.style = style;
        widget
    }

    pub fn get_alignment(&self) -> (alignment: Alignment)
        ensures
            alignment == self@.alignment,
    {
        self.alignment
    }

    pub fn set_alignment(&mut self, alignment: Alignment)
        ensures
            final(self)@ == (SimpleView { alignment, ..old(self)@ }),
    {
        self.alignment = alignment;
    }

    /// The widget with another alignment.
    pub fn alignment(self, alignment: Alignment) -> (widget: Self)
        ensures
            widget@ == (SimpleView { alignment, ..self@ }),
    {
        let mut widget = self;
        widget.alignment = alignment;
        widget
    }
}

impl ComponentWidget for ComponentWidgetSimple {
    /// The widget takes no input and asks for no redrawing.
    open spec fn mouse_handled(
        &self,
        x: u16,
        y: u16,
        kind: MouseEventKind,
        redraw: bool,
    ) -> bool {
        !redraw
    }

    open spec fn key_handled(&self, e: KeyEvent, redraw: bool) -> bool {
        !redraw
    }

    open spec fn updated(&self, redraw: bool) -> bool {
        !redraw
    }

    open spec fn resized(&self, width: u16, height: u16) -> bool {
        true
    }

    /// The cells are those of a paragraph of the text, drawn into the area
    /// that `text_area` gives.
    open spec fn rendered(
        &self,
        area: Rect,
        bounds: Rect,
        before: Seq<Seq<char>>,
        cells: Seq<Seq<char>>,
    ) -> bool {
        match text_area(self@.text, area) {
            Some(inside) => cells == paragraph_cells(
                before,
                bounds,
                inside,
                self@.text,
                self@.style,
                self@.alignment,
            ),
            None => cells == before,
        }
    }

    fn handle_mouse(&mut self, x: u16, y: u16, kind: MouseEventKind) -> (redraw: bool)
        ensures
            final(self)@ == old(self)@,
    {
        false
    }

    fn handle_key(&mut self, e: KeyEvent) -> (redraw: bool)
        ensures
            final(self)@ == old(self)@,
    {
        false
    }

    fn handle_update(&mut self) -> (redraw: bool)
        ensures
            final(self)@ == old(self)@,
    {
        false
    }

    fn resize(&mut self, width: u16, height: u16)
        ensures
            final(self)@ == old(self)@,
    {
    }

    /// Draws the text as a paragraph into `area`; a text that is not
    /// plain into all but the last column of it.
    fn render(&mut self, area: Rect, buf: &mut Buffer)
        ensures
            final(self)@ == old(self)@,
            text_area(old(self)@.text, area) is None ==> *final(buf) == *old(buf),
    {
        let text = self.get_text();
        let (spare, widest): (u16, u16) = if is_plain(text.as_str()) {
            (0, 0xfffe)
        } else {
            (1, 0x7fff)
        };
        if area.width >= spare {
            let width = if area.width - spare <= widest {
                area.width - spare
            } else {
                widest
            };
            let inside = Rect { x: area.x, y: area.y, width, height: area.height };
            render_paragraph(text, self.style, self.alignment, inside, buf);
        }
    }
}

} // verus!

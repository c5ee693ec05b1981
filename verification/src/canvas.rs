//! The cell buffer that the tree is drawn into.
//!
//! The buffer, the border block and the paragraph are `tui`'s. What the
//! library knows of a buffer is its area and the symbols of its cells; of
//! each drawing call it knows that it stays inside the rectangle it is
//! given.

use vstd::prelude::*;
use tui::buffer::Buffer;
use tui::layout::Alignment;
use tui::style::{Color, Style};
use tui::widgets::{Block, BorderType, Borders, Paragraph, Widget};
use crate::layout::Rect;
use crate::Focus;

verus! {

/// `tui`'s `Buffer`: the cells that are drawn into.
#[verifier::external_type_specification]
#[verifier::external_body]
pub struct ExBuffer(Buffer);

/// `tui`'s `Block`: a border with a title.
#[verifier::external_type_specification]
#[verifier::external_body]
pub struct ExBlock<'a>(Block<'a>);

/// `tui`'s `Style`, handed on to the paragraph as it came.
#[verifier::external_type_specification]
#[verifier::external_body]
pub struct ExStyle(Style);

/// `tui`'s `Alignment`, handed on to the paragraph as it came.
#[verifier::external_type_specification]
#[verifier::external_body]
pub struct ExAlignment(Alignment);

/// The area that a buffer covers: its `area` field.
pub uninterp spec fn buffer_area(buf: Buffer) -> Rect;

/// The symbols of the cells of a buffer, in the order of its `content`
/// field: row by row.
pub uninterp spec fn buffer_cells(buf: Buffer) -> Seq<Seq<char>>;

/// Where the lines of a text stand in their area.
#[derive(Debug, Clone, Copy, PartialEq, Eq, Structural)]
pub enum TextAlignment {
    Left,
    Center,
    Right,
}

/// The alignment of `tui` that stands for a text alignment.
pub uninterp spec fn alignment_of(alignment: TextAlignment) -> Alignment;

/// The colour of a border.
#[derive(Debug, Clone, Copy, PartialEq, Eq, Structural)]
pub enum BorderColor {
    Green,
    Yellow,
    White,
}

/// The colour in which the border of a leaf shows its focus.
pub open spec fn color_of(focus: Focus) -> BorderColor {
    match focus {
        Focus::Focus => BorderColor::Green,
        Focus::PartialFocus => BorderColor::Yellow,
        Focus::NoFocus => BorderColor::White,
    }
}

/// The colour in which the border of a leaf shows its focus.
pub fn focus_color(focus: Focus) -> (color: BorderColor)
    ensures
        color == color_of(focus),
{
    match focus {
        Focus::Focus => BorderColor::Green,
        Focus::PartialFocus => BorderColor::Yellow,
        Focus::NoFocus => BorderColor::White,
    }
}

/// The place of the cell `(x, y)` among the cells of a buffer that covers
/// `area`.
pub open spec fn cell_index(area: Rect, x: int, y: int) -> int {
    (y - area.y) * area.width + (x - area.x)
}

/// The symbol of the cell `(x, y)` among the cells of a buffer that
/// covers `bounds`.
pub open spec fn cell_at(cells: Seq<Seq<char>>, bounds: Rect, x: int, y: int) -> Seq<char> {
    cells[cell_index(bounds, x, y)]
}

/// Whether `after` are the cells `before` with nothing changed outside
/// `area`, in a buffer that covers `bounds`.
pub open spec fn cells_kept(
    before: Seq<Seq<char>>,
    after: Seq<Seq<char>>,
    bounds: Rect,
    area: Rect,
) -> bool {
    &&& after.len() == before.len()
    &&& forall|x: int, y: int|
        bounds.contains(x, y) && !area.contains(x, y) ==> #[trigger] cell_at(after, bounds, x, y)
            == cell_at(before, bounds, x, y)
}

/// Whether a buffer holds one cell for each coordinate of its area, and
/// all coordinates and the number of cells fit `u16`.
pub open spec fn buffer_sound(buf: Buffer) -> bool {
    let area = buffer_area(buf);
    &&& area.x + area.width <= u16::MAX
    &&& area.y + area.height <= u16::MAX
    &&& area.cells() <= u16::MAX
    &&& buffer_cells(buf).len() == area.cells()
}

/// Whether `after` is `before` with nothing changed outside `area`.
pub open spec fn drawn_within(before: Buffer, after: Buffer, area: Rect) -> bool {
    &&& buffer_area(after) == buffer_area(before)
    &&& cells_kept(buffer_cells(before), buffer_cells(after), buffer_area(before), area)
}

/// The block that `tui` builds with all four borders, rounded corners and
/// the given foreground colour.
pub uninterp spec fn block_of(color: BorderColor) -> Block<'static>;

/// The block that `Block::title` makes of a block and a title.
pub uninterp spec fn titled(block: Block<'static>, title: Seq<char>) -> Block<'static>;

/// The symbols of the cells of a buffer that covers `bounds` after `tui`
/// has drawn a block into `area` of it.
pub uninterp spec fn block_cells(
    cells: Seq<Seq<char>>,
    bounds: Rect,
    area: Rect,
    block: Block<'static>,
) -> Seq<Seq<char>>;

/// The symbols of the cells of a buffer that covers `bounds` after `tui`
/// has drawn a paragraph of the text into `area` of it.
pub uninterp spec fn paragraph_cells(
    cells: Seq<Seq<char>>,
    bounds: Rect,
    area: Rect,
    text: Seq<char>,
    style: Style,
    alignment: Alignment,
) -> Seq<Seq<char>>;

/// Builds `tui`'s `Block` with all four borders, rounded corners and the
/// given foreground colour. The contract gives the block the name
/// `block_of`; it claims nothing else.
#[verifier::external_body]
pub(crate) fn border_block(color: BorderColor) -> (block: Block<'static>)
    ensures
        block == block_of(color),
{
    let color = match color {
        BorderColor::Green => Color::Green,
        BorderColor::Yellow => Color::Yellow,
        BorderColor::White => Color::White,
    };
    Block::default().borders(Borders::ALL).style(Style::default().fg(color)).border_type(
        BorderType::Rounded,
    )
}

/// Calls `Block::title`. The contract gives the block the name `titled`;
/// it claims nothing else.
#[verifier::external_body]
pub(crate) fn with_title(block: Block<'static>, title: String) -> (r: Block<'static>)
    ensures
        r == titled(block, title@),
{
    block.title(title)
}

/// Calls `Block`'s `Widget::render`, which styles the cells of `area`,
/// draws the border along its edges and the title into its first row. It
/// indexes the buffer at cells of `area` only, so `area` must lie in the
/// buffer; it writes no cell outside `area` and leaves the buffer's area
/// and number of cells alone. The contract gives the symbols that result
/// the name `block_cells`.
#[verifier::external_body]
pub(crate) fn render_block(block: Block<'static>, area: Rect, buf: &mut Buffer)
    requires
        buffer_sound(*old(buf)),
        area.within(buffer_area(*old(buf))),
    ensures
        drawn_within(*old(buf), *final(buf), area),
        buffer_cells(*final(buf)) == block_cells(
            buffer_cells(*old(buf)),
            buffer_area(*old(buf)),
            area,
            block,
        ),
{
    block.render(
        tui::layout::Rect { x: area.x, y: area.y, width: area.width, height: area.height },
        buf,
    )
}

/// Calls `Buffer::get_mut` and `Cell::reset` on the cell `(x, y)`, which
/// must lie in the buffer: the cell's symbol becomes a blank, and no other
/// cell changes.
#[verifier::external_body]
pub(crate) fn reset_cell(buf: &mut Buffer, x: u16, y: u16)
    requires
        buffer_sound(*old(buf)),
        buffer_area(*old(buf)).contains(x as int, y as int),
    ensures
        buffer_area(*final(buf)) == buffer_area(*old(buf)),
        buffer_cells(*final(buf)) == buffer_cells(*old(buf)).update(
            cell_index(buffer_area(*old(buf)), x as int, y as int),
            seq![' '],
        ),
{
    buf.get_mut(x, y).reset()
}

/// Calls `Buffer::area`, which hands out the `area` field.
#[verifier::external_body]
pub(crate) fn area_of(buf: &Buffer) -> (area: Rect)
    ensures
        area == buffer_area(*buf),
{
    let area = buf.area();
    Rect { x: area.x, y: area.y, width: area.width, height: area.height }
}

/// Calls `Buffer::content` and takes the length of the slice: the number
/// of cells that the buffer holds.
#[verifier::external_body]
pub(crate) fn cell_count(buf: &Buffer) -> (count: usize)
    ensures
        count == buffer_cells(*buf).len(),
{
    buf.content().len()
}

/// Whether a character takes one cell, or ends a line: a printable ASCII
/// character or a newline.
pub open spec fn plain_char(c: char) -> bool {
    c == '\n' || (' ' <= c && c <= '~')
}

/// Whether a text consists of printable ASCII characters and newlines.
pub open spec fn plain(text: Seq<char>) -> bool {
    forall|i: int| 0 <= i < text.len() ==> plain_char(#[trigger] text[i])
}

/// The rectangle with one more column to its right.
pub open spec fn widened(area: Rect) -> Rect {
    Rect { width: (area.width + 1) as u16, ..area }
}

/// The widest area into which a paragraph of a text can be drawn: `tui`
/// adds the width of the next symbol to the width of the line in `u16`.
/// Every symbol of a plain text is one cell wide; a symbol of another text
/// can be as wide as the area.
pub open spec fn paragraph_width(text: Seq<char>) -> int {
    if plain(text) {
        0xfffe
    } else {
        0x7fff
    }
}

/// Whether a paragraph of the text can be drawn into `area` of a buffer
/// that covers `bounds`: the area lies in the buffer and is no wider than
/// `paragraph_width`, and a text that is not plain has one more column of
/// the buffer to its right.
pub open spec fn paragraph_fits(text: Seq<char>, area: Rect, bounds: Rect) -> bool {
    &&& area.within(bounds)
    &&& area.width <= paragraph_width(text)
    &&& plain(text) || area.x + area.width < bounds.x + bounds.width
}

/// Builds `tui`'s `Paragraph` of the text with the style and alignment
/// and calls its `Widget::render`, which styles the cells of `area` and
/// writes the text into them line by line, cut off at the width of
/// `area`. Every character of a plain text takes one cell, and the cells
/// written are cells of `area`. In another text a symbol that takes no
/// cell can follow a line that fills the width: it is written to the
/// cell right of `area`, so that cell must lie in the buffer too. The
/// width of a line and of the next symbol are added in `u16`, so the area
/// must be narrow enough for that sum. The contract gives the symbols
/// that result the name `paragraph_cells`.
#[verifier::external_body]
pub(crate) fn render_paragraph(
    text: String,
    style: Style,
    alignment: Alignment,
    area: Rect,
    buf: &mut Buffer,
)
    requires
        buffer_sound(*old(buf)),
        paragraph_fits(text@, area, buffer_area(*old(buf))),
    ensures
        drawn_within(
            *old(buf),
            *final(buf),
            if plain(text@) {
                area
            } else {
                widened(area)
            },
        ),
        buffer_cells(*final(buf)) == paragraph_cells(
            buffer_cells(*old(buf)),
            buffer_area(*old(buf)),
            area,
            text@,
            style,
            alignment,
        ),
{
    Paragraph::new(text).style(style).alignment(alignment).render(
        tui::layout::Rect { x: area.x, y: area.y, width: area.width, height: area.height },
        buf,
    )
}

/// A cell of an area has its place among the cells of the area.
pub proof fn lemma_cell_index_bounds(area: Rect, x: int, y: int)
    requires
        area.contains(x, y),
    ensures
        0 <= cell_index(area, x, y) < area.cells(),
{
    let w = area.width as int;
    let a = y - area.y;
    assert(0 <= a * w && a * w + w <= area.height * w) by (nonlinear_arith)
        requires
            0 <= a < area.height,
            w >= 0,
    ;
    assert(area.width * area.height == area.height * w) by (nonlinear_arith)
        requires
            w == area.width,
    ;
}

/// `tui`'s `Style::default`. Nothing is claimed of what it returns: a style
/// is known as its result by `call_ensures` alone.
pub assume_specification[ <Style as core::default::Default>::default ]() -> (style: Style);

/// Hands out `tui`'s `Alignment::Left`, `Center` or `Right` for the text
/// alignment of the same name. The contract gives the result the name
/// `alignment_of`; it claims nothing else.
#[verifier::external_body]
pub(crate) fn tui_alignment(alignment: TextAlignment) -> (r: Alignment)
    ensures
        r == alignment_of(alignment),
{
    match alignment {
        TextAlignment::Left => Alignment::Left,
        TextAlignment::Center => Alignment::Center,
        TextAlignment::Right => Alignment::Right,
    }
}

/// Two cells of an area have different places among the cells.
pub proof fn lemma_cell_index_differs(area: Rect, x: int, y: int, u: int, v: int)
    requires
        area.contains(x, y),
        area.contains(u, v),
        x != u || y != v,
    ensures
        cell_index(area, x, y) != cell_index(area, u, v),
{
    let w = area.width as int;
    let a = y - area.y;
    let b = v - area.y;
    if a < b {
        assert(a * w + w <= b * w) by (nonlinear_arith)
            requires
                a + 1 <= b,
                w >= 0,
        ;
    } else if b < a {
        assert(b * w + w <= a * w) by (nonlinear_arith)
            requires
                b + 1 <= a,
                w >= 0,
        ;
    }
}

/// What is kept outside a part of an area is kept outside the area, and
/// what is kept twice is kept.
pub proof fn lemma_cells_kept(
    before: Seq<Seq<char>>,
    between: Seq<Seq<char>>,
    after: Seq<Seq<char>>,
    bounds: Rect,
    inner: Rect,
    area: Rect,
)
    requires
        cells_kept(before, between, bounds, area),
        cells_kept(between, after, bounds, inner),
        forall|x: int, y: int| inner.contains(x, y) ==> area.contains(x, y),
    ensures
        cells_kept(before, after, bounds, area),
{
    assert forall|x: int, y: int|
        bounds.contains(x, y) && !area.contains(x, y) implies #[trigger] cell_at(
        after,
        bounds,
        x,
        y,
    ) == cell_at(before, bounds, x, y) by {
        assert(cell_at(between, bounds, x, y) == cell_at(before, bounds, x, y));
    }
}

/// Whether `after` are the cells `before` with a blank in every cell of
/// `area` that lies in a column before `col`, or in that column in a row
/// before `row`, in a buffer that covers `bounds`.
pub open spec fn blanked_to(
    before: Seq<Seq<char>>,
    after: Seq<Seq<char>>,
    bounds: Rect,
    area: Rect,
    col: int,
    row: int,
) -> bool {
    &&& after.len() == before.len()
    &&& forall|x: int, y: int|
        bounds.contains(x, y) ==> #[trigger] cell_at(after, bounds, x, y) == if area.contains(x, y)
            && (x < col || (x == col && y < row)) {
            seq![' ']
        } else {
            cell_at(before, bounds, x, y)
        }
}

/// Whether `after` are the cells `before` with a blank in every cell of
/// `area`, in a buffer that covers `bounds`.
pub open spec fn blanked(
    before: Seq<Seq<char>>,
    after: Seq<Seq<char>>,
    bounds: Rect,
    area: Rect,
) -> bool {
    blanked_to(before, after, bounds, area, area.x + area.width, area.y as int)
}

/// Blanking the next cell of a column takes the blanks one row on.
pub proof fn lemma_blank_next(
    before: Seq<Seq<char>>,
    cells: Seq<Seq<char>>,
    bounds: Rect,
    area: Rect,
    x: int,
    y: int,
)
    requires
        cells.len() == bounds.cells(),
        area.within(bounds),
        area.contains(x, y),
        blanked_to(before, cells, bounds, area, x, y),
    ensures
        blanked_to(
            before,
            cells.update(cell_index(bounds, x, y), seq![' ']),
            bounds,
            area,
            x,
            y + 1,
        ),
{
    let after = cells.update(cell_index(bounds, x, y), seq![' ']);
    lemma_cell_index_bounds(bounds, x, y);
    assert forall|u: int, v: int| bounds.contains(u, v) implies #[trigger] cell_at(
        after,
        bounds,
        u,
        v,
    ) == if area.contains(u, v) && (u < x || (u == x && v < y + 1)) {
        seq![' ']
    } else {
        cell_at(before, bounds, u, v)
    } by {
        lemma_cell_index_bounds(bounds, u, v);
        if u != x || v != y {
            lemma_cell_index_differs(bounds, x, y, u, v);
            assert(cell_at(after, bounds, u, v) == cell_at(cells, bounds, u, v));
        }
    }
}

/// A column that is blank to its end is blank as far as the next column
/// begins.
pub proof fn lemma_blank_column(
    before: Seq<Seq<char>>,
    cells: Seq<Seq<char>>,
    bounds: Rect,
    area: Rect,
    x: int,
)
    requires
        blanked_to(before, cells, bounds, area, x, area.y + area.height),
    ensures
        blanked_to(before, cells, bounds, area, x + 1, area.y as int),
{
    assert forall|u: int, v: int| bounds.contains(u, v) implies #[trigger] cell_at(
        cells,
        bounds,
        u,
        v,
    ) == if area.contains(u, v) && (u < x + 1 || (u == x + 1 && v < area.y)) {
        seq![' ']
    } else {
        cell_at(before, bounds, u, v)
    } by {}
}

/// Blanking a cell of a rectangle keeps the cells outside the rectangle.
pub proof fn lemma_blank_kept(cells: Seq<Seq<char>>, bounds: Rect, rect: Rect, x: int, y: int)
    requires
        cells.len() == bounds.cells(),
        bounds.contains(x, y),
        rect.contains(x, y),
    ensures
        cells_kept(cells, cells.update(cell_index(bounds, x, y), seq![' ']), bounds, rect),
{
    let after = cells.update(cell_index(bounds, x, y), seq![' ']);
    lemma_cell_index_bounds(bounds, x, y);
    assert forall|u: int, v: int|
        bounds.contains(u, v) && !rect.contains(u, v) implies #[trigger] cell_at(
        after,
        bounds,
        u,
        v,
    ) == cell_at(cells, bounds, u, v) by {
        lemma_cell_index_differs(bounds, x, y, u, v);
        lemma_cell_index_bounds(bounds, u, v);
    }
}

} // verus!

//! What drawing a tree does to the cells of a buffer.

use vstd::prelude::*;
use tui::widgets::Block;
use crate::canvas::{block_cells, block_of, cells_kept, color_of, titled};
use crate::layout::Rect;
use crate::model::{BranchView, LeafView, NodeView};

verus! {

/// The border block of a leaf: in the colour of its focus, with its name
/// as the title where it has one.
pub open spec fn leaf_block(l: LeafView) -> Block<'static> {
    if l.name.len() > 0 {
        titled(block_of(color_of(l.focus)), l.name)
    } else {
        block_of(color_of(l.focus))
    }
}

/// The rectangle inside the border of a leaf that is drawn into `area`,
/// if the border leaves any room.
pub open spec fn interior(l: LeafView, area: Rect) -> Option<Rect> {
    if area.width > 2 * l.border_width && area.height > 2 * l.border_width {
        Some(
            Rect {
                x: (area.x + l.border_width) as u16,
                y: (area.y + l.border_width) as u16,
                width: (area.width - 2 * l.border_width) as u16,
                height: (area.height - 2 * l.border_width) as u16,
            },
        )
    } else {
        None
    }
}

/// The cells after the border block of a leaf was drawn into `area`, where
/// the leaf has a border.
pub open spec fn leaf_framed(
    l: LeafView,
    before: Seq<Seq<char>>,
    bounds: Rect,
    area: Rect,
) -> Seq<Seq<char>> {
    if l.border_width > 0 {
        block_cells(before, bounds, area, leaf_block(l))
    } else {
        before
    }
}

/// Whether `after` are the cells that drawing a leaf into `area` can make
/// of the cells `before`, in a buffer that covers `bounds`. A leaf that is
/// not marked for redrawing draws nothing. Otherwise its border block is
/// drawn where it has a border, and only the cells inside the border
/// change after that: they are the widget's.
pub open spec fn leaf_drawn(
    l: LeafView,
    before: Seq<Seq<char>>,
    after: Seq<Seq<char>>,
    bounds: Rect,
    area: Rect,
) -> bool {
    if !l.invalidated {
        after == before
    } else {
        let framed = leaf_framed(l, before, bounds, area);
        match interior(l, area) {
            Some(inside) => cells_kept(framed, after, bounds, inside),
            None => after == framed,
        }
    }
}

/// The rectangle of child `i` of a container that is drawn into `area`.
pub open spec fn child_area(b: BranchView, i: int, area: Rect) -> Rect {
    Rect {
        x: (area.x + b.child_x(i)) as u16,
        y: (area.y + b.child_y(i)) as u16,
        width: b.children[i].width(),
        height: b.children[i].height(),
    }
}

/// Whether `after` are the cells that drawing a node into `area` can make
/// of the cells `before`, in a buffer that covers `bounds`. A container
/// draws its children one after the other, each into its rectangle:
/// `steps` holds the cells before the first child and after each.
#[verifier::opaque]
pub open spec fn drawn(
    n: NodeView,
    before: Seq<Seq<char>>,
    after: Seq<Seq<char>>,
    bounds: Rect,
    area: Rect,
) -> bool
    decreases n,
{
    match n {
        NodeView::Leaf(l) => leaf_drawn(l, before, after, bounds, area),
        NodeView::Branch(b) => exists|steps: Seq<Seq<Seq<char>>>|
            #![trigger steps.len()]
            {
                &&& steps.len() == b.children.len() + 1
                &&& steps[0] == before
                &&& steps[b.children.len() as int] == after
                &&& forall|i: int|
                    0 <= i < b.children.len() ==> drawn(
                        b.children[i],
                        steps[i],
                        steps[i + 1],
                        bounds,
                        #[trigger] child_area(b, i, area),
                    )
            },
    }
}

} // verus!

//! How a container divides its extent among its children, and what a resize
//! does to a tree.

use vstd::prelude::*;
use crate::container::list::SizingConstraint;
use crate::layout::Direction;
use crate::model::{BranchView, LeafView, NodeView, ResizeErrorView};

verus! {

/// The sum of the extents of the children before `upto` that are not fixed
/// along `axis`.
pub open spec fn weight_sum(children: Seq<NodeView>, axis: Direction, upto: int) -> int
    decreases upto,
{
    if upto <= 0 {
        0
    } else if children[upto - 1].fixed(axis) {
        weight_sum(children, axis, upto - 1)
    } else {
        weight_sum(children, axis, upto - 1) + children[upto - 1].extent(axis)
    }
}

/// The number of children before `upto` that are not fixed along `axis`.
pub open spec fn ratio_count(children: Seq<NodeView>, axis: Direction, upto: int) -> int
    decreases upto,
{
    if upto <= 0 {
        0
    } else if children[upto - 1].fixed(axis) {
        ratio_count(children, axis, upto - 1)
    } else {
        ratio_count(children, axis, upto - 1) + 1
    }
}

/// Whether a child before `upto` that is not fixed along `axis` has no
/// extent yet.
pub open spec fn any_zero_weight(children: Seq<NodeView>, axis: Direction, upto: int) -> bool {
    exists|j: int|
        0 <= j < upto && j < children.len() && !(#[trigger] children[j]).fixed(axis)
            && children[j].extent(axis) == 0
}

/// The constraint of child `i`: its extent where it is fixed, otherwise its
/// share of what is left. The share is its extent over the sum of such
/// extents, or, where one of them is zero, one over their number.
pub open spec fn constraint_of(children: Seq<NodeView>, axis: Direction, i: int)
    -> SizingConstraint {
    let n = children.len() as int;
    if children[i].fixed(axis) {
        SizingConstraint::Fixed(children[i].extent(axis))
    } else if any_zero_weight(children, axis, n) {
        SizingConstraint::Ratio { part: 1, whole: ratio_count(children, axis, n) as u128 }
    } else {
        SizingConstraint::Ratio {
            part: children[i].extent(axis),
            whole: weight_sum(children, axis, n) as u128,
        }
    }
}

/// The constraints of all children, in order.
pub open spec fn constraints(children: Seq<NodeView>, axis: Direction) -> Seq<SizingConstraint> {
    Seq::new(children.len(), |i: int| constraint_of(children, axis, i))
}

/// The sum of the fixed extents among the constraints before `upto`.
pub open spec fn fixed_sum(cs: Seq<SizingConstraint>, upto: int) -> int
    decreases upto,
{
    if upto <= 0 {
        0
    } else {
        fixed_sum(cs, upto - 1) + match cs[upto - 1] {
            SizingConstraint::Fixed(f) => f as int,
            SizingConstraint::Ratio { .. } => 0,
        }
    }
}

/// The proportional share of `avail` that a constraint asks for, rounded
/// down.
pub open spec fn share(c: SizingConstraint, avail: int) -> int {
    match c {
        SizingConstraint::Fixed(f) => f as int,
        SizingConstraint::Ratio { part, whole } => if whole > 0 {
            (part * avail) / (whole as int)
        } else {
            0
        },
    }
}

/// The sum of the proportional shares among the constraints before `upto`.
pub open spec fn share_sum(cs: Seq<SizingConstraint>, avail: int, upto: int) -> int
    decreases upto,
{
    if upto <= 0 {
        0
    } else {
        share_sum(cs, avail, upto - 1) + match cs[upto - 1] {
            SizingConstraint::Fixed(_) => 0,
            SizingConstraint::Ratio { .. } => share(cs[upto - 1], avail),
        }
    }
}

/// Whether constraint `i` is the last proportional one.
pub open spec fn is_last_ratio(cs: Seq<SizingConstraint>, i: int) -> bool {
    &&& 0 <= i < cs.len()
    &&& cs[i] is Ratio
    &&& forall|j: int| i < j < cs.len() ==> (#[trigger] cs[j]) is Fixed
}

/// The extent given to child `i` when `size` is distributed: a fixed child
/// gets its own extent, a proportional child its share of what the fixed
/// ones leave, and the last proportional child all that is then left.
pub open spec fn size_at(cs: Seq<SizingConstraint>, size: int, i: int) -> int {
    let avail = size - fixed_sum(cs, cs.len() as int);
    match cs[i] {
        SizingConstraint::Fixed(f) => f as int,
        SizingConstraint::Ratio { .. } => if is_last_ratio(cs, i) {
            avail - share_sum(cs, avail, i)
        } else {
            share(cs[i], avail)
        },
    }
}

/// Whether `size` can be distributed: the fixed extents fit, and every
/// proportional child gets at least one cell.
pub open spec fn sizes_exist(cs: Seq<SizingConstraint>, size: int) -> bool {
    &&& fixed_sum(cs, cs.len() as int) <= size
    &&& forall|i: int| 0 <= i < cs.len() && (#[trigger] cs[i]) is Ratio ==> size_at(cs, size, i) > 0
}

/// The extents of the children when `size` is distributed, if it can be.
pub open spec fn sizes_of(cs: Seq<SizingConstraint>, size: u16) -> Option<Seq<u16>> {
    if sizes_exist(cs, size as int) {
        Some(Seq::new(cs.len(), |i: int| size_at(cs, size as int, i) as u16))
    } else {
        None
    }
}

/// The extents that a container of the given axis hands to its children
/// when its extent along the axis is `size`.
#[verifier::opaque]
pub open spec fn planned_sizes(children: Seq<NodeView>, axis: Direction, size: u16) -> Option<
    Seq<u16>,
> {
    sizes_of(constraints(children, axis), size)
}

/// The smallest width and height that a leaf accepts: room for its border
/// on both sides, and at least one cell.
pub open spec fn leaf_min(l: LeafView) -> int {
    if 2 * l.border_width > 1 {
        2 * l.border_width
    } else {
        1
    }
}

/// A leaf after it took the size `width` by `height`: an axis that is fixed
/// keeps its extent, and the leaf is marked for redrawing where the size
/// asked for differs from the one it had.
pub open spec fn leaf_resized(l: LeafView, width: u16, height: u16) -> LeafView {
    LeafView {
        width: if l.fixed_width { l.width } else { width },
        height: if l.fixed_height { l.height } else { height },
        invalidated: l.invalidated || l.width != width || l.height != height,
        ..l
    }
}

/// The size that a container of the given axis and size hands to the child
/// whose share along the axis is `extent`.
pub open spec fn child_target(axis: Direction, extent: u16, width: u16, height: u16) -> (u16, u16) {
    match axis {
        Direction::Horizontal => (extent, height),
        Direction::Vertical => (width, extent),
    }
}

/// What a resize to `width` by `height` makes of a node, or the error with
/// which it is refused. A container that has that size already is left as
/// it is.
pub open spec fn resize_outcome(n: NodeView, width: u16, height: u16) -> Result<
    NodeView,
    ResizeErrorView,
>
    decreases n, 1int, 0int,
{
    match n {
        NodeView::Leaf(l) => if width < leaf_min(l) || height < leaf_min(l) {
            Err(ResizeErrorView { name: l.name, width, height, border_width: l.border_width })
        } else {
            Ok(NodeView::Leaf(leaf_resized(l, width, height)))
        },
        NodeView::Branch(b) => if b.width == width && b.height == height {
            Ok(n)
        } else {
            relayout(b, width, height)
        },
    }
}

/// What a full sizing pass at `width` by `height` makes of a container:
/// the extent along its axis is distributed, every child is resized to its
/// part, and on success all leaves below are marked for redrawing. The
/// error is that of the distribution, or that of the first child that
/// refuses its size.
pub open spec fn relayout(b: BranchView, width: u16, height: u16) -> Result<
    NodeView,
    ResizeErrorView,
>
    decreases b.children, 2int, 0int,
{
    let size = match b.orientation {
        Direction::Horizontal => width,
        Direction::Vertical => height,
    };
    match planned_sizes(b.children, b.orientation, size) {
        None => Err(ResizeErrorView { name: b.name, width, height, border_width: 0 }),
        Some(sizes) => match first_refusal(b.children, b.orientation, sizes, width, height, 0) {
            Some(e) => Err(e),
            None => Ok(
                NodeView::Branch(
                    BranchView {
                        width,
                        height,
                        children: Seq::new(
                            b.children.len(),
                            |i: int|
                                if 0 <= i < b.children.len() {
                                    resized_child(
                                        b.children[i],
                                        b.orientation,
                                        sizes[i],
                                        width,
                                        height,
                                    )
                                } else {
                                    b.children[i]
                                },
                        ),
                        ..b
                    },
                ),
            ),
        },
    }
}

/// The size that a resize of the node to `width` by `height` tells the
/// widget of the leaf at the end of `path`, if it tells it any: a leaf
/// tells its widget the size that was asked for, a container that has the
/// size already tells no widget anything, and any other container hands
/// every child its part.
pub open spec fn size_told(n: NodeView, width: u16, height: u16, path: Seq<int>) -> Option<
    (u16, u16),
>
    decreases n,
{
    match n {
        NodeView::Leaf(_) => Some((width, height)),
        NodeView::Branch(b) => {
            let size = match b.orientation {
                Direction::Horizontal => width,
                Direction::Vertical => height,
            };
            if b.width == width && b.height == height {
                None
            } else if path.len() > 0 && 0 <= path[0] < b.children.len() {
                match planned_sizes(b.children, b.orientation, size) {
                    Some(sizes) => {
                        let target = child_target(b.orientation, sizes[path[0]], width, height);
                        size_told(b.children[path[0]], target.0, target.1, path.skip(1))
                    },
                    None => None,
                }
            } else {
                None
            }
        },
    }
}

/// A child after its container's successful sizing pass.
pub open spec fn resized_child(
    child: NodeView,
    axis: Direction,
    extent: u16,
    width: u16,
    height: u16,
) -> NodeView
    decreases child, 2int, 0int,
{
    let target = child_target(axis, extent, width, height);
    match resize_outcome(child, target.0, target.1) {
        Ok(n) => n.invalidated(),
        Err(_) => child,
    }
}

/// The error of the first child from index `from` on that refuses the size
/// it is handed.
pub open spec fn first_refusal(
    children: Seq<NodeView>,
    axis: Direction,
    sizes: Seq<u16>,
    width: u16,
    height: u16,
    from: int,
) -> Option<ResizeErrorView>
    decreases children, 1int, children.len() - from,
{
    if from < 0 || from >= children.len() {
        None
    } else {
        let target = child_target(axis, sizes[from], width, height);
        match resize_outcome(children[from], target.0, target.1) {
            Err(e) => Some(e),
            Ok(_) => first_refusal(children, axis, sizes, width, height, from + 1),
        }
    }
}

/// Where no child from `from` on refuses its size, child `i` accepts it.
pub proof fn lemma_accepts(
    children: Seq<NodeView>,
    axis: Direction,
    sizes: Seq<u16>,
    width: u16,
    height: u16,
    from: int,
    i: int,
)
    requires
        0 <= from <= i < children.len(),
        first_refusal(children, axis, sizes, width, height, from) is None,
    ensures
        resize_outcome(
            children[i],
            child_target(axis, sizes[i], width, height).0,
            child_target(axis, sizes[i], width, height).1,
        ) is Ok,
    decreases i - from,
{
    if from < i {
        lemma_accepts(children, axis, sizes, width, height, from + 1, i);
    }
}

/// `fixed_sum` grows with its bound.
pub proof fn lemma_fixed_sum_grows(cs: Seq<SizingConstraint>, a: int, b: int)
    requires
        a <= b,
    ensures
        fixed_sum(cs, a) <= fixed_sum(cs, b),
    decreases b - a,
{
    if a < b {
        lemma_fixed_sum_grows(cs, a, b - 1);
    }
}

/// A share of a nonnegative extent is not negative.
pub proof fn lemma_share_nonnegative(c: SizingConstraint, avail: int)
    requires
        avail >= 0,
    ensures
        share(c, avail) >= 0,
{
    match c {
        SizingConstraint::Fixed(_) => {},
        SizingConstraint::Ratio { part, whole } => {
            if whole > 0 {
                assert(part * avail >= 0) by (nonlinear_arith)
                    requires
                        part >= 0,
                        avail >= 0,
                ;
                assert((part * avail) / (whole as int) >= 0) by (nonlinear_arith)
                    requires
                        part * avail >= 0,
                        whole > 0,
                ;
            }
        },
    }
}

/// `share_sum` grows with its bound.
pub proof fn lemma_share_sum_grows(cs: Seq<SizingConstraint>, avail: int, a: int, b: int)
    requires
        avail >= 0,
        a <= b,
    ensures
        share_sum(cs, avail, a) <= share_sum(cs, avail, b),
    decreases b - a,
{
    if a < b {
        lemma_share_sum_grows(cs, avail, a, b - 1);
        if b - 1 >= 0 {
            lemma_share_nonnegative(cs[b - 1], avail);
        }
    }
}

/// Every extent that a distribution hands out fits the extent that is
/// distributed.
pub proof fn lemma_sizes_fit(cs: Seq<SizingConstraint>, size: int, i: int)
    requires
        sizes_exist(cs, size),
        0 <= i < cs.len(),
    ensures
        0 <= size_at(cs, size, i),
        cs[i] is Ratio ==> size_at(cs, size, i) <= size - fixed_sum(cs, cs.len() as int),
{
    let avail = size - fixed_sum(cs, cs.len() as int);
    if cs[i] is Ratio {
        if is_last_ratio(cs, i) {
            lemma_share_sum_grows(cs, avail, 0, i);
        } else {
            let last = choose|j: int| i < j < cs.len() && !((#[trigger] cs[j]) is Fixed);
            lemma_last_exists(cs, last, cs.len() as int);
            let l = choose|l: int| last <= l && is_last_ratio(cs, l);
            lemma_share_sum_grows(cs, avail, i + 1, l);
            lemma_share_sum_grows(cs, avail, 0, i);
            assert(cs[l] is Ratio);
            assert(size_at(cs, size, l) > 0);
        }
    }
}

/// Behind a proportional constraint there is a last one.
proof fn lemma_last_exists(cs: Seq<SizingConstraint>, i: int, upto: int)
    requires
        0 <= i < upto <= cs.len(),
        cs[i] is Ratio,
        forall|j: int| upto <= j < cs.len() ==> (#[trigger] cs[j]) is Fixed,
    ensures
        exists|l: int| i <= l && is_last_ratio(cs, l),
    decreases upto - i,
{
    if cs[upto - 1] is Ratio {
        assert(is_last_ratio(cs, upto - 1));
    } else {
        lemma_last_exists(cs, i, upto - 1);
    }
}

} // verus!

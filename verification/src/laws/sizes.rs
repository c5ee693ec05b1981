//! Laws of resizing: a successful sizing pass hands out the whole extent,
//! and a fixed leaf keeps its extent.

use vstd::prelude::*;
use crate::container::list::SizingConstraint;
use crate::layout::Direction;
use crate::model::geometry::child_offset;
use crate::model::search::{leads_to_leaf, leaf_at};
use crate::model::sizing::{
    child_target, constraint_of, constraints, fixed_sum, is_last_ratio,
    lemma_accepts, lemma_fixed_sum_grows, lemma_sizes_fit, planned_sizes, relayout, resize_outcome, share_sum,
    size_at, sizes_exist, sizes_of,
};
use crate::model::{BranchView, NodeView};

verus! {

/// The sum of the extents that the children before `upto` get when `size`
/// is distributed.
pub open spec fn size_sum(cs: Seq<SizingConstraint>, size: int, upto: int) -> int
    decreases upto,
{
    if upto <= 0 {
        0
    } else {
        size_sum(cs, size, upto - 1) + size_at(cs, size, upto - 1)
    }
}

/// The axis across `axis`.
pub open spec fn across(axis: Direction) -> Direction {
    match axis {
        Direction::Horizontal => Direction::Vertical,
        Direction::Vertical => Direction::Horizontal,
    }
}

/// The extent of a container of `width` by `height` along `axis`.
pub open spec fn extent_of(axis: Direction, width: u16, height: u16) -> u16 {
    match axis {
        Direction::Horizontal => width,
        Direction::Vertical => height,
    }
}

/// The index of the last proportional constraint before `upto`, or `-1`.
spec fn last_ratio(cs: Seq<SizingConstraint>, upto: int) -> int
    decreases upto,
{
    if upto <= 0 {
        -1
    } else if cs[upto - 1] is Ratio {
        upto - 1
    } else {
        last_ratio(cs, upto - 1)
    }
}

proof fn lemma_last_ratio(cs: Seq<SizingConstraint>, upto: int)
    requires
        0 <= upto <= cs.len(),
    ensures
        -1 <= last_ratio(cs, upto) < upto,
        last_ratio(cs, upto) >= 0 ==> cs[last_ratio(cs, upto)] is Ratio,
        forall|j: int| last_ratio(cs, upto) < j < upto ==> (#[trigger] cs[j]) is Fixed,
    decreases upto,
{
    if upto > 0 && !(cs[upto - 1] is Ratio) {
        lemma_last_ratio(cs, upto - 1);
    }
}

/// Up to the last proportional child the extents handed out are the fixed
/// extents and the shares; from there on they are the fixed extents and
/// all that the fixed ones leave.
proof fn lemma_size_sum(cs: Seq<SizingConstraint>, size: int, last: int, upto: int)
    requires
        is_last_ratio(cs, last),
        0 <= upto <= cs.len(),
    ensures
        size_sum(cs, size, upto) == fixed_sum(cs, upto) + (if upto <= last {
            share_sum(cs, size - fixed_sum(cs, cs.len() as int), upto)
        } else {
            size - fixed_sum(cs, cs.len() as int)
        }),
    decreases upto,
{
    if upto > 0 {
        lemma_size_sum(cs, size, last, upto - 1);
        let i = upto - 1;
        if i < last {
            assert(cs[last] is Ratio);
            assert(cs[i] is Ratio ==> !is_last_ratio(cs, i));
        } else if i > last {
            assert(cs[i] is Fixed);
        }
    }
}

/// **Extent conservation, for the distribution.** Where an extent can be
/// distributed to constraints of which one is proportional, the extents
/// handed out add up to it.
pub proof fn lemma_sizes_add_up(cs: Seq<SizingConstraint>, size: int)
    requires
        sizes_exist(cs, size),
        exists|i: int| 0 <= i < cs.len() && (#[trigger] cs[i]) is Ratio,
    ensures
        size_sum(cs, size, cs.len() as int) == size,
{
    lemma_last_ratio(cs, cs.len() as int);
    let last = last_ratio(cs, cs.len() as int);
    assert(last >= 0);
    lemma_size_sum(cs, size, last, cs.len() as int);
}

/// After a successful sizing pass every child has along the container's
/// axis the extent that the distribution gave it, and across the axis the
/// container's own extent, unless it is a leaf that is fixed across the
/// axis.
pub proof fn lemma_relayout_extents(b: BranchView, width: u16, height: u16, i: int)
    requires
        relayout(b, width, height) is Ok,
        0 <= i < b.children.len(),
    ensures
        ({
            let after = relayout(b, width, height)->Ok_0->Branch_0;
            let size = extent_of(b.orientation, width, height);
            let cs = constraints(b.children, b.orientation);
            &&& after.children.len() == b.children.len()
            &&& after.orientation == b.orientation
            &&& after.width == width
            &&& after.height == height
            &&& sizes_exist(cs, size as int)
            &&& after.children[i].extent(b.orientation) == size_at(cs, size as int, i)
            &&& !(b.children[i] is Leaf && b.children[i].fixed(across(b.orientation)))
                ==> after.children[i].extent(across(b.orientation)) == extent_of(
                across(b.orientation),
                width,
                height,
            )
        }),
{
    reveal(planned_sizes);
    let size = extent_of(b.orientation, width, height);
    let cs = constraints(b.children, b.orientation);
    let sizes = sizes_of(cs, size)->Some_0;
    let target = child_target(b.orientation, sizes[i], width, height);
    lemma_accepts(b.children, b.orientation, sizes, width, height, 0, i);
    let resized = resize_outcome(b.children[i], target.0, target.1)->Ok_0;
    assert(relayout(b, width, height)->Ok_0->Branch_0.children[i] == resized.invalidated());
    assert(cs[i] == constraint_of(b.children, b.orientation, i));
    assert(resized.invalidated().width() == resized.width());
    assert(resized.invalidated().height() == resized.height());
    lemma_sizes_fit(cs, size as int, i);
    lemma_fixed_sum_grows(cs, 0, cs.len() as int);
    assert(sizes[i] == size_at(cs, size as int, i));
}

/// The children before `upto` take up what the distribution gave them.
proof fn lemma_offsets_are_sizes(b: BranchView, width: u16, height: u16, upto: int)
    requires
        relayout(b, width, height) is Ok,
        0 <= upto <= b.children.len(),
    ensures
        child_offset(
            relayout(b, width, height)->Ok_0->Branch_0.children,
            b.orientation,
            upto,
        ) == size_sum(
            constraints(b.children, b.orientation),
            extent_of(b.orientation, width, height) as int,
            upto,
        ),
    decreases upto,
{
    if upto > 0 {
        lemma_offsets_are_sizes(b, width, height, upto - 1);
        lemma_relayout_extents(b, width, height, upto - 1);
    }
}

/// **Extent conservation.** After a successful sizing pass of a container
/// with a child that is not fixed along its axis, the extents of the
/// children along the axis add up to the extent of the container, and
/// every child has across the axis the extent of the container, unless it
/// is a leaf that is fixed across the axis.
pub proof fn lemma_relayout_conserves(b: BranchView, width: u16, height: u16)
    requires
        relayout(b, width, height) is Ok,
        exists|i: int|
            0 <= i < b.children.len() && !(#[trigger] b.children[i]).fixed(b.orientation),
    ensures
        ({
            let after = relayout(b, width, height)->Ok_0->Branch_0;
            &&& after.width == width
            &&& after.height == height
            &&& child_offset(after.children, after.orientation, after.children.len() as int)
                == extent_of(b.orientation, width, height)
            &&& forall|i: int|
                0 <= i < b.children.len() && !((#[trigger] b.children[i]) is Leaf
                    && b.children[i].fixed(across(b.orientation)))
                    ==> after.children[i].extent(across(b.orientation)) == extent_of(
                    across(b.orientation),
                    width,
                    height,
                )
        }),
{
    let after = relayout(b, width, height)->Ok_0->Branch_0;
    let n = b.children.len() as int;
    let cs = constraints(b.children, b.orientation);
    let size = extent_of(b.orientation, width, height);
    let k = choose|i: int|
        0 <= i < b.children.len() && !(#[trigger] b.children[i]).fixed(b.orientation);
    lemma_relayout_extents(b, width, height, k);
    assert(cs[k] is Ratio);
    lemma_sizes_add_up(cs, size as int);
    lemma_offsets_are_sizes(b, width, height, n);
    assert forall|i: int|
        0 <= i < b.children.len() && !((#[trigger] b.children[i]) is Leaf && b.children[i].fixed(
            across(b.orientation),
        )) implies after.children[i].extent(across(b.orientation)) == extent_of(
        across(b.orientation),
        width,
        height,
    ) by {
        lemma_relayout_extents(b, width, height, i);
    }
}

/// **Extent conservation, for `resize`.** After a successful resize of a
/// container to a size that it did not have, the same holds.
pub proof fn lemma_resize_conserves(b: BranchView, width: u16, height: u16)
    requires
        resize_outcome(NodeView::Branch(b), width, height) is Ok,
        b.width != width || b.height != height,
        exists|i: int|
            0 <= i < b.children.len() && !(#[trigger] b.children[i]).fixed(b.orientation),
    ensures
        ({
            let after = resize_outcome(NodeView::Branch(b), width, height)->Ok_0->Branch_0;
            &&& after.width == width
            &&& after.height == height
            &&& child_offset(after.children, after.orientation, after.children.len() as int)
                == extent_of(b.orientation, width, height)
            &&& forall|i: int|
                0 <= i < b.children.len() && !((#[trigger] b.children[i]) is Leaf
                    && b.children[i].fixed(across(b.orientation)))
                    ==> after.children[i].extent(across(b.orientation)) == extent_of(
                    across(b.orientation),
                    width,
                    height,
                )
        }),
{
    lemma_relayout_conserves(b, width, height);
}

/// Marking a tree for redrawing keeps its leaves where they are and as
/// large as they are.
pub proof fn lemma_invalidated_keeps_leaves(n: NodeView, path: Seq<int>)
    requires
        leads_to_leaf(n, path),
    ensures
        leads_to_leaf(n.invalidated(), path),
        leaf_at(n.invalidated(), path).width == leaf_at(n, path).width,
        leaf_at(n.invalidated(), path).height == leaf_at(n, path).height,
        leaf_at(n.invalidated(), path).fixed_width == leaf_at(n, path).fixed_width,
        leaf_at(n.invalidated(), path).fixed_height == leaf_at(n, path).fixed_height,
        leaf_at(n.invalidated(), path).focus == leaf_at(n, path).focus,
    decreases path.len(),
{
    if let NodeView::Branch(b) = n {
        lemma_invalidated_keeps_leaves(b.children[path[0]], path.skip(1));
    }
}

/// **Fixed immunity.** A successful resize keeps every leaf in its place,
/// with its focus and its fixed flags; a leaf that is fixed along an axis
/// keeps its extent along that axis.
pub proof fn lemma_resize_keeps_fixed(n: NodeView, width: u16, height: u16, path: Seq<int>)
    requires
        resize_outcome(n, width, height) is Ok,
        leads_to_leaf(n, path),
    ensures
        ({
            let after = resize_outcome(n, width, height)->Ok_0;
            let before = leaf_at(n, path);
            &&& leads_to_leaf(after, path)
            &&& leaf_at(after, path).focus == before.focus
            &&& leaf_at(after, path).fixed_width == before.fixed_width
            &&& leaf_at(after, path).fixed_height == before.fixed_height
            &&& before.fixed_width ==> leaf_at(after, path).width == before.width
            &&& before.fixed_height ==> leaf_at(after, path).height == before.height
        }),
    decreases path.len(),
{
    if let NodeView::Branch(b) = n {
        if b.width != width || b.height != height {
            reveal(planned_sizes);
            let i = path[0];
            let size = extent_of(b.orientation, width, height);
            let sizes = planned_sizes(b.children, b.orientation, size)->Some_0;
            let target = child_target(b.orientation, sizes[i], width, height);
            lemma_accepts(b.children, b.orientation, sizes, width, height, 0, i);
            let resized = resize_outcome(b.children[i], target.0, target.1)->Ok_0;
            lemma_resize_keeps_fixed(b.children[i], target.0, target.1, path.skip(1));
            lemma_invalidated_keeps_leaves(resized, path.skip(1));
        }
    }
}

} // verus!

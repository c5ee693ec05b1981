//! A container that lays its children out in a row or a column.

use vstd::prelude::*;
use crossterm::event::{KeyEvent, MouseEventKind};
use tui::buffer::Buffer;
use crate::canvas::{buffer_area, buffer_cells, buffer_sound, drawn_within, lemma_cells_kept};
use crate::model::drawing::{child_area, drawn};
use crate::component::{Component, ComponentBase, ComponentWidget};
use crate::container::search::ContainerSearch;
use crate::container::{
    nodes_of, paints_row, same_widgets, widget_in, Container, ContainerChild,
};
use crate::event::{key_of, mouse_action, pointer_action, pressed_key, Key, MouseAction};
use crate::model::focus::{key_step, leaf_after_key, with_focus};
use crate::layout::{Direction, Rect};
use crate::model::geometry::{
    child_offset, lemma_child_at, lemma_one_child_contains, outer_border, renderable, within_reach,
};
use crate::model::pointer::{
    after_drag, after_mouse, along, depth, drag_between, grab, grabbed, lemma_drag_keeps_depths,
    child_reached, drag_resizes, lemma_max_depth_bounds, lemma_mouse_branch, lemma_mouse_left,
    lemma_mouse_moved, mouse_reaches, stretched,
};
use crate::model::search::{after_key, focused_path, key_reaches, leaf_at, next_pos};
use crate::model::LeafView;
use crate::model::sizing::{
    any_zero_weight, child_target, constraint_of, constraints, first_refusal, fixed_sum,
    is_last_ratio, lemma_accepts, lemma_fixed_sum_grows, lemma_share_sum_grows, planned_sizes, ratio_count,
    relayout, resize_outcome, resized_child, share, share_sum, size_at, size_told, sizes_exist,
    sizes_of, weight_sum,
};
use crate::model::{first_focus, BranchView, NodeView};
use crate::pos::ComponentPos;
use crate::{Border, Focus, FocusResult, ResizeError};

verus! {

/// The position one step across `border` from a node of the given size at
/// `pos`, if that position lies inside a container of the given size.
pub fn find_next_pos(
    pos: ComponentPos,
    border: Border,
    component_width: u16,
    component_height: u16,
    container_width: u16,
    container_height: u16,
) -> (next: Option<ComponentPos>)
    ensures
        next == next_pos(
            pos,
            border,
            component_width,
            component_height,
            container_width,
            container_height,
        ),
{
    match border {
        Border::Top => if pos.y > 0 {
            Some(ComponentPos { x: pos.x, y: pos.y - 1 })
        } else {
            None
        },
        Border::Bottom => if pos.y < container_height && container_height - pos.y > component_height {
            Some(ComponentPos { x: pos.x, y: pos.y + component_height })
        } else {
            None
        },
        Border::Left => if pos.x > 0 {
            Some(ComponentPos { x: pos.x - 1, y: pos.y })
        } else {
            None
        },
        Border::Right => if pos.x < container_width && container_width - pos.x > component_width {
            Some(ComponentPos { x: pos.x + component_width, y: pos.y })
        } else {
            None
        },
    }
}

/// A leaf after a key, and the cell to highlight next: where the leaf
/// gives the focus up at the edge of the container, it is highlighted
/// again itself.
pub open spec fn leaf_pressed(
    leaf: LeafView,
    key: Key,
    redraw: bool,
    pos: ComponentPos,
    container_width: u16,
    container_height: u16,
) -> (LeafView, Option<ComponentPos>) {
    let pressed = leaf_after_key(leaf, key, redraw);
    match key_step(leaf.focus, key).exit {
        None => (pressed, None),
        Some(border) => match next_pos(
            pos,
            border,
            leaf.width,
            leaf.height,
            container_width,
            container_height,
        ) {
            Some(next) => (pressed, Some(next)),
            None => (with_focus(pressed, Focus::PartialFocus), None),
        },
    }
}

/// Hands a key to the leaf that has the focus, at `pos` in a container of
/// the given size, and answers with the cell to which the focus moves.
fn press<W: ComponentWidget + ?Sized>(
    component: &mut Component<W>,
    pos: ComponentPos,
    e: KeyEvent,
    container_width: u16,
    container_height: u16,
) -> (next: Option<ComponentPos>)
    ensures
        exists|redraw: bool|
            (final(component)@, next) == #[trigger] leaf_pressed(
                old(component)@,
                key_of(e),
                redraw,
                pos,
                container_width,
                container_height,
            ) && (key_step(old(component)@.focus, key_of(e)).forward ==> old(
                component,
            ).widget().key_handled(e, redraw)),
        !key_step(old(component)@.focus, key_of(e)).forward
            ==> final(component).widget() == old(component).widget(),
{
    let border = component.handle_key(e);
    let ghost redraw = choose|redraw: bool|
        component@ == leaf_after_key(old(component)@, key_of(e), redraw) && (key_step(
            old(component)@.focus,
            key_of(e),
        ).forward ==> old(component).widget().key_handled(e, redraw));
    let next = match border {
        Some(border) => {
            let next = find_next_pos(
                pos,
                border,
                component.get_width(),
                component.get_height(),
                container_width,
                container_height,
            );
            if next.is_none() {
                component.set_focus(Focus::PartialFocus);
            }
            next
        },
        None => None,
    };
    assert((component@, next) == leaf_pressed(
        old(component)@,
        key_of(e),
        redraw,
        pos,
        container_width,
        container_height,
    ));
    next
}

/// The state of an interactive border drag.
#[derive(Debug, Clone, Copy, PartialEq, Eq, Structural)]
pub enum Resize {
    /// The border before child `child_index` is being dragged.
    LeftTop { mouse_offset: u16, child_index: usize },
    /// The border after child `child_index` is being dragged.
    RightBottom { mouse_offset: u16, child_index: usize },
    /// No border is being dragged.
    Idle,
}

/// How a child takes part in the distribution of its container's extent.
#[derive(Debug, Clone, Copy, PartialEq, Eq, Structural)]
pub enum SizingConstraint {
    /// The child keeps this extent.
    Fixed(u16),
    /// The child gets `part` of every `whole` cells that the fixed children
    /// leave.
    Ratio { part: u16, whole: u128 },
}

impl Resize {
    /// The drag that a press on `border` of child `child_index` starts,
    /// among `child_len` children: none on an outer border.
    pub fn new(mouse_offset: u16, border: Border, child_index: usize, child_len: usize) -> (r: Self)
        ensures
            r == grab(mouse_offset, border, child_index as int, child_len as int),
    {
        let first = child_index == 0;
        let last = child_len > 0 && child_index == child_len - 1;
        match border {
            Border::Left | Border::Top => if !first {
                Resize::LeftTop { mouse_offset, child_index }
            } else {
                Resize::Idle
            },
            Border::Right | Border::Bottom => if !last {
                Resize::RightBottom { mouse_offset, child_index }
            } else {
                Resize::Idle
            },
        }
    }
}

/// A container that lays its children out in a row or a column.
pub struct ContainerList<W: ComponentWidget + ?Sized> {
    name: String,
    orientation: Direction,
    resizable: bool,
    resize: Resize,
    width: u16,
    height: u16,
    children: Vec<ContainerChild<W>>,
}

impl<W: ComponentWidget + ?Sized> ContainerList<W> {
    /// The views of the children, in order.
    closed spec fn child_views(&self) -> Seq<NodeView>
        decreases self, 0int,
    {
        Seq::new(
            self.children.len() as nat,
            |i: int|
                if 0 <= i < self.children.len() {
                    self.children[i].node()
                } else {
                    arbitrary()
                },
        )
    }

    /// The view of child `i` is the `i`th of the views.
    proof fn lemma_child_views(&self)
        ensures
            self.child_views().len() == self.children.len(),
            forall|i: int|
                0 <= i < self.children.len() ==> (#[trigger] self.child_views()[i])
                    == self.children[i].node(),
            self.node() == NodeView::Branch(
                BranchView {
                    name: self.name@,
                    orientation: self.orientation,
                    resizable: self.resizable,
                    resize: self.resize,
                    width: self.width,
                    height: self.height,
                    children: self.child_views(),
                },
            ),
    {
    }

    /// While the children from `i` on are those of `b`, the extent and
    /// place of child `i` are as `b` says.
    proof fn lemma_dragged_views(&self, b: BranchView, i: int)
        requires
            0 <= i < self.children.len(),
            self.children.len() == b.children.len(),
            self.orientation == b.orientation,
            self.children[i].node() == b.children[i],
        ensures
            self.child_views()[i] == b.children[i],
            self.node() is Branch,
            self.node()->Branch_0.orientation == b.orientation,
    {
    }

    /// The widgets below a container are those below its children.
    proof fn lemma_widgets(&self)
        ensures
            forall|path: Seq<int>|
                #[trigger] self.widget_at(path) == widget_in(self.children@, path),
    {
    }

    /// Containers whose children hold the same widgets hold the same
    /// widgets.
    proof fn lemma_same_widgets(&self, other: &Self)
        requires
            same_widgets(self.children@, other.children@),
        ensures
            forall|path: Seq<int>| #[trigger] self.widget_at(path) == other.widget_at(path),
    {
        self.lemma_widgets();
        other.lemma_widgets();
    }

    /// Whether `after` are the cells that drawing the children, one after
    /// the other and each into its rectangle within `area`, can make of
    /// the cells `before`.
    #[verifier::opaque]
    closed spec fn paints_children(
        &self,
        before: Seq<Seq<char>>,
        after: Seq<Seq<char>>,
        bounds: Rect,
        area: Rect,
    ) -> bool
        decreases self, 1int,
    {
        exists|steps: Seq<Seq<Seq<char>>>|
            #![trigger steps.len()]
            {
                &&& steps.len() == self.children.len() + 1
                &&& steps[0] == before
                &&& steps[self.children.len() as int] == after
                &&& forall|i: int|
                    0 <= i < self.children.len() ==> self.children[i].paints(
                        steps[i],
                        steps[i + 1],
                        bounds,
                        #[trigger] child_area(self.node()->Branch_0, i, area),
                    )
            }
    }

    /// Whether a mouse action at `(x, y)` on a container with the view `b`
    /// has left alone every widget below its child `j` that it does not
    /// reach.
    spec fn mouse_spares(
        b: BranchView,
        x: int,
        y: int,
        action: MouseAction,
        j: int,
        before: ContainerChild<W>,
        after: ContainerChild<W>,
    ) -> bool {
        forall|path: Seq<int>|
            !child_reached(b, x, y, action, j, path) ==> #[trigger] after.widget_at(path)
                == before.widget_at(path)
    }

    /// Whether `widget`, the one at the end of `path` below child `j`, was
    /// told the size that a sizing pass at `width` by `height` hands on to
    /// it, if the pass hands it one.
    spec fn told(b: BranchView, width: u16, height: u16, j: int, widget: &W, path: Seq<int>) -> bool {
        let size = match b.orientation {
            Direction::Horizontal => width,
            Direction::Vertical => height,
        };
        planned_sizes(b.children, b.orientation, size) matches Some(sizes) ==> ({
            let target = child_target(b.orientation, sizes[j], width, height);
            size_told(b.children[j], target.0, target.1, path) matches Some(told) ==> widget.resized(
                told.0,
                told.1,
            )
        })
    }

    /// The view of a container is a branch.
    pub proof fn lemma_branch(&self)
        ensures
            self.node() is Branch,
    {
    }

    /// An empty container of the given size.
    pub fn new(name: String, orientation: Direction, resizable: bool, width: u16, height: u16) -> (c:
        Self)
        ensures
            c.node() == NodeView::Branch(
                BranchView {
                    name: name@,
                    orientation,
                    resizable,
                    resize: Resize::Idle,
                    width,
                    height,
                    children: Seq::empty(),
                },
            ),
    {
        let c = Self {
            name,
            orientation,
            resizable,
            resize: Resize::Idle,
            width,
            height,
            children: Vec::new(),
        };
        assert(c.child_views() =~= Seq::empty());
        c
    }

    /// The extents that `size` is distributed to, in the order of the
    /// constraints, or `None` where the fixed extents do not fit or a
    /// proportional child would get no cell.
    #[verifier::spinoff_prover]
    #[verifier::rlimit(60)]
    pub fn calculate_sizes(constraints: Vec<SizingConstraint>, size: u16) -> (r: Option<Vec<u16>>)
        ensures
            match sizes_of(constraints@, size) {
                Some(sizes) => r is Some && r->Some_0@ == sizes,
                None => r is None,
            },
    {
        let ghost cs = constraints@;
        let n = constraints.len();
        let mut fixed_total: u32 = 0;
        let mut last_ratio: Option<usize> = None;
        let mut i: usize = 0;
        while i < n
            invariant
                0 <= i <= n,
                n == cs.len(),
                cs == constraints@,
                fixed_total == fixed_sum(cs, i as int),
                fixed_total <= size,
                match last_ratio {
                    Some(l) => l < i && cs[l as int] is Ratio && forall|j: int|
                        l < j < i ==> (#[trigger] cs[j]) is Fixed,
                    None => forall|j: int| 0 <= j < i ==> (#[trigger] cs[j]) is Fixed,
                },
            decreases n - i,
        {
            match constraints[i] {
                SizingConstraint::Fixed(f) => {
                    fixed_total = fixed_total + f as u32;
                    if fixed_total > size as u32 {
                        proof {
                            lemma_fixed_sum_grows(cs, i + 1, n as int);
                        }
                        return None;
                    }
                },
                SizingConstraint::Ratio { .. } => {
                    last_ratio = Some(i);
                },
            }
            i += 1;
        }
        let avail: u16 = size - fixed_total as u16;
        let mut result: Vec<u16> = Vec::new();
        let mut assigned: u32 = 0;
        let mut i: usize = 0;
        while i < n
            invariant
                0 <= i <= n,
                n == cs.len(),
                cs == constraints@,
                avail == size - fixed_sum(cs, n as int),
                fixed_sum(cs, n as int) <= size,
                match last_ratio {
                    Some(l) => is_last_ratio(cs, l as int),
                    None => forall|j: int| 0 <= j < n ==> (#[trigger] cs[j]) is Fixed,
                },
                result@.len() == i,
                assigned <= avail,
                forall|j: int|
                    0 <= j < i ==> (#[trigger] result@[j]) == size_at(cs, size as int, j),
                forall|j: int|
                    0 <= j < i && (#[trigger] cs[j]) is Ratio ==> size_at(cs, size as int, j) > 0,
                match last_ratio {
                    Some(l) => i <= l ==> assigned == share_sum(cs, avail as int, i as int),
                    None => true,
                },
            decreases n - i,
        {
            match constraints[i] {
                SizingConstraint::Fixed(f) => {
                    result.push(f);
                },
                SizingConstraint::Ratio { part, whole } => {
                    let is_last = match last_ratio {
                        Some(l) => l == i,
                        None => false,
                    };
                    if is_last {
                        if assigned >= avail as u32 {
                            return None;
                        }
                        result.push(avail - assigned as u16);
                    } else {
                        let ghost l = last_ratio->Some_0 as int;
                        assert(i < l);
                        let wide: u128 = if whole > 0 {
                            assert(part as u128 * avail as u128 <= 0xffff_0000u128) by (nonlinear_arith)
                                requires
                                    part <= 0xffff,
                                    avail <= 0xffff,
                            ;
                            (part as u128 * avail as u128) / whole
                        } else {
                            0
                        };
                        assert(wide == share(cs[i as int], avail as int));
                        if wide == 0 {
                            return None;
                        }
                        if wide > (avail as u32 - assigned) as u128 {
                            proof {
                                lemma_share_sum_grows(cs, avail as int, i + 1, l);
                            }
                            return None;
                        }
                        assigned = assigned + wide as u32;
                        result.push(wide as u16);
                    }
                },
            }
            i += 1;
        }
        assert(sizes_exist(cs, size as int));
        assert(result@ =~= sizes_of(cs, size)->Some_0);
        Some(result)
    }

    /// The axis along which the children are laid out.
    pub fn get_orientation(&self) -> (orientation: Direction)
        ensures
            self.node() matches NodeView::Branch(b) && orientation == b.orientation,
    {
        proof {
            self.lemma_child_views();
        }
        self.orientation
    }

    /// Appends a child and runs a full sizing pass at the container's
    /// size. Where the pass fails, the child stays appended and no size
    /// has changed.
    fn add_child(&mut self, child: ContainerChild<W>) -> (r: Result<(), ResizeError>)
        ensures
            old(self).node() matches NodeView::Branch(b) && ({
                let grown = BranchView { children: b.children.push(child.node()), ..b };
                match relayout(grown, b.width, b.height) {
                    Ok(n) => r is Ok && final(self).node() == n,
                    Err(e) => r is Err && r->Err_0@ == e && final(self).node() == NodeView::Branch(
                        grown,
                    ),
                }
            }),
    {
        proof {
            self.lemma_child_views();
        }
        let ghost b = self.node()->Branch_0;
        self.children.push(child);
        proof {
            self.lemma_child_views();
            assert(self.child_views() =~= b.children.push(child.node()));
        }
        match self.check_relayout(self.width, self.height) {
            Ok(()) => {
                self.apply_relayout(self.width, self.height);
                Ok(())
            },
            Err(e) => Err(e),
        }
    }

    /// Appends a leaf and gives every child its share of the container's
    /// size. On an error the leaf stays appended and no size has changed.
    pub fn add_component(&mut self, child: Component<W>) -> (r: Result<(), ResizeError>)
        ensures
            old(self).node() matches NodeView::Branch(b) && ({
                let grown = BranchView { children: b.children.push(child.node()), ..b };
                match relayout(grown, b.width, b.height) {
                    Ok(n) => r is Ok && final(self).node() == n,
                    Err(e) => r is Err && r->Err_0@ == e && final(self).node() == NodeView::Branch(
                        grown,
                    ),
                }
            }),
    {
        self.add_child(ContainerChild::Component(child))
    }

    /// Appends a container and gives every child its share of the
    /// container's size. On an error the new child stays appended and no
    /// size has changed.
    pub fn add_container(&mut self, child: Box<ContainerList<W>>) -> (r: Result<(), ResizeError>)
        ensures
            old(self).node() matches NodeView::Branch(b) && ({
                let grown = BranchView { children: b.children.push(child.node()), ..b };
                match relayout(grown, b.width, b.height) {
                    Ok(n) => r is Ok && final(self).node() == n,
                    Err(e) => r is Err && r->Err_0@ == e && final(self).node() == NodeView::Branch(
                        grown,
                    ),
                }
            }),
    {
        self.add_child(ContainerChild::Container(child))
    }

    /// The extent of child `i` along the container's axis.
    fn child_extent(&self, i: usize) -> (extent: u16)
        requires
            i < self.child_views().len(),
        ensures
            extent == self.child_views()[i as int].extent(self.orientation),
    {
        match self.orientation {
            Direction::Horizontal => self.children[i].get_width(),
            Direction::Vertical => self.children[i].get_height(),
        }
    }

    /// Whether child `i` is fixed along the container's axis.
    fn child_fixed(&self, i: usize) -> (fixed: bool)
        requires
            i < self.child_views().len(),
        ensures
            fixed == self.child_views()[i as int].fixed(self.orientation),
    {
        match self.orientation {
            Direction::Horizontal => self.children[i].is_fixed_width(),
            Direction::Vertical => self.children[i].is_fixed_height(),
        }
    }

    /// The size for child `i` when its share along the axis is `extent`
    /// and the container is `width` by `height`.
    fn target(&self, extent: u16, width: u16, height: u16) -> (size: (u16, u16))
        ensures
            size == child_target(self.orientation, extent, width, height),
    {
        match self.orientation {
            Direction::Horizontal => (extent, height),
            Direction::Vertical => (width, extent),
        }
    }

    /// The constraint of every child: a fixed child keeps its extent, the
    /// others share the rest in proportion to their present extents, or
    /// equally where one of them has none yet.
    pub fn get_sizing_constraints(&self) -> (r: Option<Vec<SizingConstraint>>)
        ensures
            r is Some,
            self.node() matches NodeView::Branch(b) && r->Some_0@ == constraints(
                b.children,
                b.orientation,
            ),
    {
        let ghost views = self.child_views();
        let ghost axis = self.orientation;
        let n = self.children.len();
        let mut total: u128 = 0;
        let mut count: u128 = 0;
        let mut any_zero = false;
        let mut i: usize = 0;
        while i < n
            invariant
                0 <= i <= n,
                n == views.len(),
                views == self.child_views(),
                axis == self.orientation,
                total == weight_sum(views, axis, i as int),
                count == ratio_count(views, axis, i as int),
                any_zero == any_zero_weight(views, axis, i as int),
                total <= i * 0xffff,
                count <= i,
            decreases n - i,
        {
            if !self.child_fixed(i) {
                let extent = self.child_extent(i);
                total = total + extent as u128;
                count = count + 1;
                if extent == 0 {
                    any_zero = true;
                }
            }
            i += 1;
        }
        let mut result: Vec<SizingConstraint> = Vec::new();
        let mut i: usize = 0;
        while i < n
            invariant
                0 <= i <= n,
                n == views.len(),
                views == self.child_views(),
                axis == self.orientation,
                total == weight_sum(views, axis, n as int),
                count == ratio_count(views, axis, n as int),
                any_zero == any_zero_weight(views, axis, n as int),
                result@.len() == i,
                forall|j: int| 0 <= j < i ==> (#[trigger] result@[j]) == constraint_of(views, axis, j),
            decreases n - i,
        {
            let c = if self.child_fixed(i) {
                SizingConstraint::Fixed(self.child_extent(i))
            } else if any_zero {
                SizingConstraint::Ratio { part: 1, whole: count }
            } else {
                SizingConstraint::Ratio { part: self.child_extent(i), whole: total }
            };
            result.push(c);
            i += 1;
        }
        assert(result@ =~= constraints(views, axis));
        Some(result)
    }

    /// Whether a full sizing pass at `width` by `height` would succeed,
    /// and the error with which it would fail.
    fn check_relayout(&self, width: u16, height: u16) -> (r: Result<(), ResizeError>)
        ensures
            self.node() matches NodeView::Branch(b) && (r is Ok <==> relayout(b, width, height) is Ok)
                && (r is Err ==> relayout(b, width, height) == Err::<NodeView, _>(r->Err_0@)),
        decreases self, 0int,
    {
        let ghost views = self.child_views();
        let ghost axis = self.orientation;
        let size = match self.orientation {
            Direction::Horizontal => width,
            Direction::Vertical => height,
        };
        proof {
            self.lemma_child_views();
            reveal(planned_sizes);
        }
        let constraints = match self.get_sizing_constraints() {
            Some(constraints) => constraints,
            None => {
                return Err(
                    ResizeError { name: self.name.clone(), width, height, border_width: 0 },
                );
            },
        };
        let sizes = match Self::calculate_sizes(constraints, size) {
            Some(sizes) => sizes,
            None => {
                return Err(
                    ResizeError { name: self.name.clone(), width, height, border_width: 0 },
                );
            },
        };
        let n = self.children.len();
        let mut i: usize = 0;
        while i < n
            invariant
                0 <= i <= n,
                n == views.len(),
                n == sizes@.len(),
                views == self.child_views(),
                axis == self.orientation,
                first_refusal(views, axis, sizes@, width, height, 0) is Some ==> relayout(
                    self.node()->Branch_0,
                    width,
                    height,
                ) == Err::<NodeView, _>(
                    first_refusal(views, axis, sizes@, width, height, 0)->Some_0,
                ),
                first_refusal(views, axis, sizes@, width, height, 0) is None ==> relayout(
                    self.node()->Branch_0,
                    width,
                    height,
                ) is Ok,
                first_refusal(views, axis, sizes@, width, height, 0) == first_refusal(
                    views,
                    axis,
                    sizes@,
                    width,
                    height,
                    i as int,
                ),
            decreases n - i,
        {
            let size = self.target(sizes[i], width, height);
            proof {
                self.lemma_child_views();
            }
            match self.children[i].check_resize(size.0, size.1) {
                Ok(()) => {},
                Err(e) => {
                    assert(resize_outcome(views[i as int], size.0, size.1) == Err::<NodeView, _>(e@));
                    assert(first_refusal(views, axis, sizes@, width, height, i as int) == Some(e@));
                    return Err(e);
                },
            }
            i += 1;
        }
        Ok(())
    }

    /// Runs a full sizing pass at `width` by `height`, which must succeed.
    fn apply_relayout(&mut self, width: u16, height: u16)
        requires
            old(self).node() matches NodeView::Branch(b) && relayout(b, width, height) is Ok,
        ensures
            old(self).node() matches NodeView::Branch(b) && Ok::<_, crate::model::ResizeErrorView>(
                final(self).node(),
            ) == relayout(b, width, height),
            forall|j: int, path: Seq<int>|
                0 <= j < old(self).children.len() ==> Self::told(
                    old(self).node()->Branch_0,
                    width,
                    height,
                    j,
                    #[trigger] old(self).children[j].widget_at(path),
                    path,
                ),
        decreases *old(self), 0int,
    {
        let ghost views = self.child_views();
        let ghost axis = self.orientation;
        let ghost b = self.node()->Branch_0;
        let size = match self.orientation {
            Direction::Horizontal => width,
            Direction::Vertical => height,
        };
        proof {
            self.lemma_child_views();
            reveal(planned_sizes);
        }
        let planned = match self.get_sizing_constraints() {
            Some(constraints) => Self::calculate_sizes(constraints, size),
            None => None,
        };
        let sizes = match planned {
            Some(sizes) => sizes,
            None => {
                return ;
            },
        };
        let n = self.children.len();
        let mut i: usize = 0;
        while i < n
            invariant
                0 <= i <= n,
                n == views.len(),
                n == sizes@.len(),
                n == self.children.len(),
                views == old(self).child_views(),
                axis == self.orientation,
                self.name == old(self).name,
                self.orientation == old(self).orientation,
                self.resizable == old(self).resizable,
                self.resize == old(self).resize,
                first_refusal(views, axis, sizes@, width, height, 0) is None,
                old(self).node() == NodeView::Branch(b),
                planned_sizes(b.children, b.orientation, size) == Some(sizes@),
                size == (match b.orientation {
                    Direction::Horizontal => width,
                    Direction::Vertical => height,
                }),
                views == b.children,
                axis == b.orientation,
                forall|j: int, path: Seq<int>|
                    0 <= j < i ==> Self::told(
                        b,
                        width,
                        height,
                        j,
                        #[trigger] old(self).children[j].widget_at(path),
                        path,
                    ),
                forall|j: int|
                    0 <= j < i ==> (#[trigger] self.children[j]).node() == resized_child(
                        views[j],
                        axis,
                        sizes@[j],
                        width,
                        height,
                    ),
                forall|j: int| i <= j < n ==> self.children[j] == old(self).children[j],
            decreases n - i,
        {
            let target = self.target(sizes[i], width, height);
            proof {
                lemma_accepts(views, axis, sizes@, width, height, 0, i as int);
                old(self).lemma_child_views();
                assert(self.children[i as int].node() == b.children[i as int]);
                assert(self.children[i as int] == old(self).children[i as int]);
                assert(target == child_target(b.orientation, sizes@[i as int], width, height));
            }
            self.children[i].apply_resize(target.0, target.1);
            proof {
                assert forall|path: Seq<int>|
                    Self::told(
                        b,
                        width,
                        height,
                        i as int,
                        #[trigger] old(self).children[i as int].widget_at(path),
                        path,
                    ) by {
                    assert(size_told(b.children[i as int], target.0, target.1, path) matches Some(
                        told,
                    ) ==> old(self).children[i as int].widget_at(path).resized(told.0, told.1));
                }
            }
            self.children[i].invalidate();
            i += 1;
        }
        self.width = width;
        self.height = height;
        proof {
            reveal(planned_sizes);
            self.lemma_child_views();
            old(self).lemma_child_views();
            let target = relayout(old(self).node()->Branch_0, width, height)->Ok_0->Branch_0.children;
            assert forall|j: int| 0 <= j < n implies self.child_views()[j] == target[j] by {
                assert(self.children[j].node() == resized_child(
                    views[j],
                    axis,
                    sizes@[j],
                    width,
                    height,
                ));
            }
            assert(self.child_views() =~= target);
        }
    }

    /// The size of child `i` when its extent along the axis becomes
    /// `extent`.
    fn stretch(&self, i: usize, extent: u16) -> (size: (u16, u16))
        requires
            i < self.child_views().len(),
        ensures
            size == stretched(self.child_views()[i as int], self.orientation, extent),
    {
        match self.orientation {
            Direction::Horizontal => (extent, self.children[i].get_height()),
            Direction::Vertical => (self.children[i].get_width(), extent),
        }
    }

    /// Ends a drag.
    fn end_drag(&mut self)
        ensures
            old(self).node() matches NodeView::Branch(b) && final(self).node() == NodeView::Branch(
                BranchView { resize: Resize::Idle, ..b },
            ),
            final(self).child_views() == old(self).child_views(),
            final(self).children == old(self).children,
    {
        self.resize = Resize::Idle;
        assert(self.child_views() =~= old(self).child_views());
    }

    /// Moves the border that is being dragged to the pointer offset
    /// `mouse_offset` along the axis: the child before the border and the
    /// child after it are resized in opposite directions, the shrinking
    /// one first. Any action but a drag with the left button ends the
    /// drag, and so does a move that one of the two children cannot
    /// follow.
    fn handle_resize(&mut self, mouse_offset: u16, action: MouseAction)
        ensures
            old(self).node() matches NodeView::Branch(b) && final(self).node() == NodeView::Branch(
                after_drag(b, mouse_offset, action),
            ),
            final(self).children.len() == old(self).children.len(),
            forall|j: int|
                0 <= j < old(self).children.len() && !drag_resizes(
                    old(self).node()->Branch_0,
                    mouse_offset,
                    action,
                    j,
                ) ==> #[trigger] final(self).children[j] == old(self).children[j],
    {
        proof {
            self.lemma_child_views();
        }
        let ghost b = self.node()->Branch_0;
        if !self.resizable || action != MouseAction::LeftDrag {
            self.end_drag();
            return ;
        }
        let n = self.children.len();
        let (first, last_offset) = match self.resize {
            Resize::Idle => {
                return ;
            },
            Resize::LeftTop { mouse_offset: last_offset, child_index } => {
                if child_index == 0 {
                    self.end_drag();
                    return ;
                }
                (child_index - 1, last_offset)
            },
            Resize::RightBottom { mouse_offset: last_offset, child_index } => (
                child_index,
                last_offset,
            ),
        };
        let ghost delta_int = mouse_offset - last_offset;
        assert(after_drag(b, mouse_offset, action) == drag_between(
            b,
            first as int,
            delta_int,
            mouse_offset,
        ));
        if n < 2 || first > n - 2 {
            self.end_drag();
            return ;
        }
        let second = first + 1;
        if self.child_fixed(first) || self.child_fixed(second) {
            self.end_drag();
            return ;
        }
        let delta: i32 = mouse_offset as i32 - last_offset as i32;
        let grown: i32 = self.child_extent(first) as i32 + delta;
        let shrunk: i32 = self.child_extent(second) as i32 - delta;
        if grown <= 0 || shrunk <= 0 || grown > 0xffff || shrunk > 0xffff {
            self.end_drag();
            return ;
        }
        if delta == 0 {
            return ;
        }
        let to_first = self.stretch(first, grown as u16);
        let to_second = self.stretch(second, shrunk as u16);
        let accepted = match self.children[first].check_resize(to_first.0, to_first.1) {
            Ok(()) => match self.children[second].check_resize(to_second.0, to_second.1) {
                Ok(()) => true,
                Err(_) => false,
            },
            Err(_) => false,
        };
        if !accepted {
            self.end_drag();
            return ;
        }
        if delta < 0 {
            self.children[first].apply_resize(to_first.0, to_first.1);
            self.children[second].apply_resize(to_second.0, to_second.1);
        } else {
            self.children[second].apply_resize(to_second.0, to_second.1);
            self.children[first].apply_resize(to_first.0, to_first.1);
        }
        self.resize = match self.resize {
            Resize::LeftTop { child_index, .. } => Resize::LeftTop { mouse_offset, child_index },
            Resize::RightBottom { child_index, .. } => Resize::RightBottom {
                mouse_offset,
                child_index,
            },
            Resize::Idle => Resize::Idle,
        };
        proof {
            self.lemma_child_views();
            assert(self.child_views() =~= drag_between(
                b,
                first as int,
                delta_int,
                mouse_offset,
            ).children);
        }
    }

    /// What a border of a child is for the container.
    fn outer(&self, border: Border, first: bool, last: bool) -> (r: Option<Border>)
        ensures
            r == outer_border(self.orientation, border, first, last),
    {
        match self.orientation {
            Direction::Horizontal => match border {
                Border::Top => Some(Border::Top),
                Border::Bottom => Some(Border::Bottom),
                Border::Left => if first {
                    Some(Border::Left)
                } else {
                    None
                },
                Border::Right => if last {
                    Some(Border::Right)
                } else {
                    None
                },
            },
            Direction::Vertical => match border {
                Border::Top => if first {
                    Some(Border::Top)
                } else {
                    None
                },
                Border::Bottom => if last {
                    Some(Border::Bottom)
                } else {
                    None
                },
                Border::Left => Some(Border::Left),
                Border::Right => Some(Border::Right),
            },
        }
    }

    /// Whether the cell `(x, y)` lies in child `i`, which starts `offset`
    /// cells along the axis, and the cell's coordinates relative to that
    /// child.
    fn hit(&self, Ghost(b): Ghost<BranchView>, i: usize, offset: u128, x: u16, y: u16) -> (r: Option<
        (u16, u16),
    >)
        requires
            i < self.children.len(),
            self.children.len() == b.children.len(),
            self.orientation == b.orientation,
            self.children[i as int].node() == b.children[i as int],
            offset == child_offset(b.children, b.orientation, i as int),
        ensures
            match r {
                Some((cx, cy)) => b.child_contains(i as int, x as int, y as int) && cx == x
                    - b.child_x(i as int) && cy == y - b.child_y(i as int),
                None => !b.child_contains(i as int, x as int, y as int),
            },
    {
        let width = self.children[i].get_width();
        let height = self.children[i].get_height();
        let (left, top): (u128, u128) = match self.orientation {
            Direction::Horizontal => (offset, 0),
            Direction::Vertical => (0, offset),
        };
        if x as u128 >= left && y as u128 >= top && x as u128 - left < width as u128 && y as u128
            - top < height as u128 {
            Some(((x as u128 - left) as u16, (y as u128 - top) as u16))
        } else {
            None
        }
    }

    /// The child that contains the cell `(x, y)`: its index, the cell at
    /// which it starts, and the cell's coordinates relative to it.
    pub fn child_at(&self, x: u16, y: u16) -> (r: Option<(usize, ComponentPos, ComponentPos)>)
        ensures
            self.node() matches NodeView::Branch(b) && match b.child_at(x as int, y as int) {
                Some(i) => r matches Some((index, start, local)) && index == i && 0 <= i
                    < b.children.len() && b.child_contains(i, x as int, y as int) && start.x
                    == b.child_x(i) && start.y == b.child_y(i) && local.x == x - b.child_x(i)
                    && local.y == y - b.child_y(i),
                None => r is None,
            },
    {
        proof {
            self.lemma_child_views();
        }
        let ghost b = self.node()->Branch_0;
        let n = self.children.len();
        let mut offset: u128 = 0;
        let mut i: usize = 0;
        while i < n
            invariant
                0 <= i <= n,
                n == self.children.len(),
                self.node() == NodeView::Branch(b),
                b.children == self.child_views(),
                b.orientation == self.orientation,
                offset == child_offset(b.children, b.orientation, i as int),
                offset <= i * 0xffff,
                b.child_at(x as int, y as int) == b.child_from(x as int, y as int, i as int),
            decreases n - i,
        {
            proof {
                self.lemma_child_views();
            }
            match self.hit(Ghost(b), i, offset, x, y) {
                Some((cx, cy)) => {
                    let start = match self.orientation {
                        Direction::Horizontal => ComponentPos { x: offset as u16, y: 0 },
                        Direction::Vertical => ComponentPos { x: 0, y: offset as u16 },
                    };
                    return Some((i, start, ComponentPos { x: cx, y: cy }));
                },
                None => {},
            }
            offset = offset + self.child_extent(i) as u128;
            i += 1;
        }
        None
    }
}

impl<W: ComponentWidget + ?Sized> ComponentBase for ContainerList<W> {
    type Widget = W;

    closed spec fn widget_at(&self, path: Seq<int>) -> &W
        decreases self, 1int,
    {
        if path.len() > 0 && 0 <= path[0] < self.children.len() {
            self.children[path[0]].widget_at(path.skip(1))
        } else {
            arbitrary()
        }
    }

    closed spec fn paints(
        &self,
        before: Seq<Seq<char>>,
        after: Seq<Seq<char>>,
        bounds: Rect,
        area: Rect,
    ) -> bool
        decreases self, 2int,
    {
        self.paints_children(before, after, bounds, area)
    }

    closed spec fn node(&self) -> NodeView
        decreases self, 1int,
    {
        NodeView::Branch(
            BranchView {
                name: self.name@,
                orientation: self.orientation,
                resizable: self.resizable,
                resize: self.resize,
                width: self.width,
                height: self.height,
                children: self.child_views(),
            },
        )
    }

    /// Lets time pass for every child.
    fn handle_update(&mut self)
        decreases *old(self),
    {
        let n = self.children.len();
        let mut i: usize = 0;
        while i < n
            invariant
                0 <= i <= n,
                n == self.children.len(),
                n == old(self).children.len(),
                self.name == old(self).name,
                self.orientation == old(self).orientation,
                self.resizable == old(self).resizable,
                self.resize == old(self).resize,
                self.width == old(self).width,
                self.height == old(self).height,
                forall|j: int|
                    0 <= j < i ==> (#[trigger] old(self).children[j]).node().marked_in(
                        self.children[j].node(),
                    ),
                forall|j: int| i <= j < n ==> self.children[j] == old(self).children[j],
            decreases n - i,
        {
            self.children[i].handle_update();
            i += 1;
        }
        proof {
            self.lemma_child_views();
            old(self).lemma_child_views();
            assert forall|j: int| 0 <= j < n implies (#[trigger] old(self).child_views()[j]).marked_in(
                self.child_views()[j],
            ) by {
                assert(old(self).children[j].node().marked_in(self.children[j].node()));
            }
        }
    }

    /// Hands the key to the leaf that has the focus. Where that leaf gives
    /// the focus up through a border, the leaf one step across the border
    /// is highlighted. Without a focused leaf, Enter and the arrow keys
    /// highlight the leaf at the origin.
    fn handle_key(&mut self, e: KeyEvent) -> (exit: Option<Border>) {
        proof {
            self.lemma_child_views();
        }
        let width = self.width;
        let height = self.height;
        let key = pressed_key(&e);
        let ghost before = self.node();
        let ghost mut redraw = false;
        let next = match self.search_focused_mut() {
            FocusResult::Focus((component, pos)) => {
                let ghost leaf = component@;
                let ghost held = component.widget();
                let next = press(component, pos, e, width, height);
                proof {
                    redraw = choose|redraw: bool|
                        (component@, next) == leaf_pressed(
                            leaf,
                            key_of(e),
                            redraw,
                            pos,
                            width,
                            height,
                        ) && (key_step(leaf.focus, key_of(e)).forward ==> held.key_handled(
                            e,
                            redraw,
                        ));
                }
                next
            },
            FocusResult::PartialFocus((component, pos)) => {
                let ghost leaf = component@;
                let ghost held = component.widget();
                let next = press(component, pos, e, width, height);
                proof {
                    redraw = choose|redraw: bool|
                        (component@, next) == leaf_pressed(
                            leaf,
                            key_of(e),
                            redraw,
                            pos,
                            width,
                            height,
                        ) && (key_step(leaf.focus, key_of(e)).forward ==> held.key_handled(
                            e,
                            redraw,
                        ));
                }
                next
            },
            FocusResult::NoFocus => {
                match key {
                    Key::Enter | Key::Up | Key::Down | Key::Left | Key::Right => Some(
                        ComponentPos { x: 0, y: 0 },
                    ),
                    _ => None,
                }
            },
        };
        let ghost pressed = *self;
        assert forall|path: Seq<int>| !key_reaches(before, key_of(e), path) implies #[trigger] pressed.widget_at(
            path,
        ) == old(self).widget_at(path) by {}
        if let Some(next) = next {
            if let Some((component, _)) = self.search_position_mut(next) {
                component.set_focus(Focus::PartialFocus);
            }
        }
        assert forall|path: Seq<int>| #[trigger] self.widget_at(path) == pressed.widget_at(
            path,
        ) by {}
        assert(self.node() == after_key(before, key_of(e), redraw));
        assert(focused_path(before) matches Some(p) ==> (key_step(
            leaf_at(before, p).focus,
            key_of(e),
        ).forward ==> old(self).widget_at(p).key_handled(e, redraw))) by {
            if let Some(p) = focused_path(before) {
                assert(p.is_prefix_of(p));
            }
        }
        None
    }

    /// The pointer's leaving is told to every child and ends a drag. Any
    /// other event but a plain move first moves a dragged border, then
    /// goes to the child under the pointer, while all other children are
    /// told that the pointer has left them. A press of the left button on
    /// a border between two children starts a drag.
    fn handle_mouse(&mut self, x: u16, y: u16, kind: Option<MouseEventKind>)
        decreases depth(old(self).node()), 0int,
    {
        proof {
            self.lemma_child_views();
        }
        let ghost b = self.node()->Branch_0;
        let n = self.children.len();
        let kind = match kind {
            Some(kind) => kind,
            None => {
                let mut i: usize = 0;
                while i < n
                    invariant
                        0 <= i <= n,
                        n == self.children.len(),
                        n == b.children.len(),
                        b == old(self).node()->Branch_0,
                        old(self).node() == NodeView::Branch(b),
                        self.name == old(self).name,
                        self.orientation == old(self).orientation,
                        self.resizable == old(self).resizable,
                        self.width == old(self).width,
                        self.height == old(self).height,
                        forall|j: int|
                            0 <= j < i ==> (#[trigger] self.children[j]).node()
                                == b.children[j].unfocused(),
                        forall|j: int|
                            i <= j < n ==> (#[trigger] self.children[j]).node() == b.children[j],
                        same_widgets(self.children@, old(self).children@),
                    decreases n - i,
                {
                    proof {
                        lemma_max_depth_bounds(b.children, n as int, i as int);
                        assert forall|r: bool|
                            #[trigger] after_mouse(b.children[i as int], 0, 0, None, r)
                                == b.children[i as int].unfocused() by {
                            lemma_mouse_left(b.children[i as int], 0, 0, r);
                        }
                    }
                    self.children[i].handle_mouse(0, 0, None);
                    i += 1;
                }
                self.resize = Resize::Idle;
                proof {
                    self.lemma_same_widgets(old(self));
                    self.lemma_child_views();
                    lemma_mouse_left(old(self).node(), x as int, y as int, false);
                    assert(self.child_views() =~= old(self).node().unfocused()->Branch_0.children);
                    assert(self.node() == after_mouse(
                        old(self).node(),
                        x as int,
                        y as int,
                        pointer_action(None),
                        false,
                    ));
                }
                return ;
            },
        };
        let action = mouse_action(&kind);
        if action == MouseAction::Moved {
            proof {
                lemma_mouse_moved(old(self).node(), x as int, y as int, false);
            }
            assert(self.node() == after_mouse(
                old(self).node(),
                x as int,
                y as int,
                pointer_action(Some(kind)),
                false,
            ));
            return ;
        }
        let mouse_offset = match self.orientation {
            Direction::Horizontal => x,
            Direction::Vertical => y,
        };
        self.handle_resize(mouse_offset, action);
        let ghost dragged = after_drag(b, mouse_offset, action);
        let ghost mut redraw = false;
        let ghost mut found: Option<int> = None;
        proof {
            self.lemma_child_views();
            lemma_drag_keeps_depths(b, mouse_offset, action);
            assert forall|j: int| 0 <= j < n implies depth(#[trigger] dragged.children[j]) < depth(
                old(self).node(),
            ) by {
                lemma_max_depth_bounds(b.children, n as int, j);
            }
        }
        let mut offset: u128 = 0;
        let mut i: usize = 0;
        while i < n
            invariant
                0 <= i <= n,
                n == self.children.len(),
                n == dragged.children.len(),
                action != MouseAction::Moved,
                action == crate::event::action_of(kind),
                mouse_offset == along(dragged.orientation, x as int, y as int),
                self.name@ == dragged.name,
                self.orientation == dragged.orientation,
                self.resizable == dragged.resizable,
                self.width == dragged.width,
                self.height == dragged.height,
                offset == child_offset(dragged.children, dragged.orientation, i as int),
                offset <= i * 0xffff,
                forall|j: int| 0 <= j < n ==> depth(#[trigger] dragged.children[j]) < depth(
                    old(self).node(),
                ),
                forall|j: int|
                    i <= j < n ==> (#[trigger] self.children[j]).node() == dragged.children[j],
                b == old(self).node()->Branch_0,
                old(self).node() == NodeView::Branch(b),
                n == old(self).children.len(),
                dragged == after_drag(b, mouse_offset, action),
                forall|j: int|
                    i <= j < n && !drag_resizes(b, mouse_offset, action, j)
                        ==> #[trigger] self.children[j] == old(self).children[j],
                forall|j: int|
                    0 <= j < i ==> Self::mouse_spares(
                        b,
                        x as int,
                        y as int,
                        action,
                        j,
                        old(self).children[j],
                        #[trigger] self.children[j],
                    ),
                forall|j: int|
                    0 <= j < i ==> (#[trigger] self.children[j]).node() == (if dragged.child_contains(
                        j,
                        x as int,
                        y as int,
                    ) {
                        after_mouse(
                            dragged.children[j],
                            x - dragged.child_x(j),
                            y - dragged.child_y(j),
                            Some(action),
                            redraw,
                        )
                    } else {
                        dragged.children[j].unfocused()
                    }),
                match found {
                    Some(h) => 0 <= h < i && dragged.child_contains(h, x as int, y as int)
                        && dragged.child_from(x as int, y as int, 0) == Some(h) && self.resize
                        == grabbed(dragged, x as int, y as int, action, mouse_offset),
                    None => dragged.child_from(x as int, y as int, 0) == dragged.child_from(
                        x as int,
                        y as int,
                        i as int,
                    ) && self.resize == dragged.resize && forall|j: int|
                        0 <= j < i ==> !dragged.child_contains(j, x as int, y as int),
                },
            decreases n - i,
        {
            proof {
                self.lemma_dragged_views(dragged, i as int);
                old(self).lemma_child_views();
            }
            let ghost child = self.children[i as int];
            let extent = self.child_extent(i);
            match self.hit(Ghost(dragged), i, offset, x, y) {
                None => {
                    proof {
                        assert forall|r: bool|
                            #[trigger] after_mouse(dragged.children[i as int], 0, 0, None, r)
                                == dragged.children[i as int].unfocused() by {
                            lemma_mouse_left(dragged.children[i as int], 0, 0, r);
                        }
                    }
                    self.children[i].handle_mouse(0, 0, None);
                },
                Some((cx, cy)) => {
                    proof {
                        if let Some(h) = found {
                            lemma_one_child_contains(dragged, h, i as int, x as int, y as int);
                        }
                    }
                    if action == MouseAction::LeftDown {
                        if let Some(border) = self.children[i].get_border(cx, cy) {
                            self.resize = Resize::new(mouse_offset, border, i, n);
                        }
                    }
                    self.children[i].handle_mouse(cx, cy, Some(kind));
                    proof {
                        redraw = choose|r: bool|
                            self.children[i as int].node() == after_mouse(
                                dragged.children[i as int],
                                cx as int,
                                cy as int,
                                Some(action),
                                r,
                            );
                        found = Some(i as int);
                    }
                },
            }
            proof {
                assert(Self::mouse_spares(
                    b,
                    x as int,
                    y as int,
                    action,
                    i as int,
                    old(self).children[i as int],
                    self.children[i as int],
                )) by {
                    if !drag_resizes(b, mouse_offset, action, i as int) {
                        assert(child == old(self).children[i as int]);
                        assert(child.node() == b.children[i as int]);
                    }
                }
            }
            offset = offset + extent as u128;
            i += 1;
        }
        proof {
            self.lemma_widgets();
            old(self).lemma_widgets();
            assert forall|path: Seq<int>|
                !mouse_reaches(
                    old(self).node(),
                    x as int,
                    y as int,
                    pointer_action(Some(kind)),
                    path,
                ) implies #[trigger] self.widget_at(path) == old(self).widget_at(path) by {
                if path.len() > 0 && 0 <= path[0] < n {
                    assert(Self::mouse_spares(
                        b,
                        x as int,
                        y as int,
                        action,
                        path[0],
                        old(self).children[path[0]],
                        self.children[path[0]],
                    ));
                }
            }
            self.lemma_child_views();
            lemma_child_at(dragged, x as int, y as int, 0);
            lemma_mouse_branch(b, x as int, y as int, action, redraw);
            let target = after_mouse(
                old(self).node(),
                x as int,
                y as int,
                Some(action),
                redraw,
            )->Branch_0;
            assert(self.child_views() =~= target.children);
            assert(self.node() == after_mouse(
                old(self).node(),
                x as int,
                y as int,
                pointer_action(Some(kind)),
                redraw,
            ));
        }
    }

    fn invalidate(&mut self)
        decreases *old(self),
    {
        let n = self.children.len();
        let mut i: usize = 0;
        while i < n
            invariant
                0 <= i <= n,
                n == self.children.len(),
                n == old(self).children.len(),
                self.name == old(self).name,
                self.orientation == old(self).orientation,
                self.resizable == old(self).resizable,
                self.resize == old(self).resize,
                self.width == old(self).width,
                self.height == old(self).height,
                forall|j: int|
                    0 <= j < i ==> (#[trigger] self.children[j]).node() == old(
                        self,
                    ).children[j].node().invalidated(),
                forall|j: int| i <= j < n ==> self.children[j] == old(self).children[j],
                same_widgets(self.children@, old(self).children@),
            decreases n - i,
        {
            self.children[i].invalidate();
            i += 1;
        }
        proof {
            self.lemma_same_widgets(old(self));
            self.lemma_child_views();
            old(self).lemma_child_views();
            let target = old(self).node().invalidated()->Branch_0.children;
            assert forall|j: int| 0 <= j < n implies self.child_views()[j] == target[j] by {
                assert(self.children[j].node() == old(self).children[j].node().invalidated());
            }
            assert(self.child_views() =~= target);
        }
    }

    fn check_resize(&self, width: u16, height: u16) -> (r: Result<(), ResizeError>)
        decreases self, 1int,
    {
        proof {
            self.lemma_child_views();
        }
        if self.width == width && self.height == height {
            Ok(())
        } else {
            self.check_relayout(width, height)
        }
    }

    fn apply_resize(&mut self, width: u16, height: u16)
        decreases *old(self), 1int,
    {
        proof {
            self.lemma_child_views();
            self.lemma_widgets();
        }
        if self.width != width || self.height != height {
            self.apply_relayout(width, height);
        }
        assert forall|path: Seq<int>| #[trigger]
            size_told(old(self).node(), width, height, path) is Some implies old(
            self,
        ).widget_at(path).resized(
            size_told(old(self).node(), width, height, path)->Some_0.0,
            size_told(old(self).node(), width, height, path)->Some_0.1,
        ) by {
            if path.len() > 0 && 0 <= path[0] < old(self).children.len() {
                assert(Self::told(
                    old(self).node()->Branch_0,
                    width,
                    height,
                    path[0],
                    old(self).children[path[0]].widget_at(path.skip(1)),
                    path.skip(1),
                ));
            }
        }
    }

    /// A container that has the size already is left alone. Otherwise the
    /// extent along the axis is distributed, every child is resized to its
    /// part, and all leaves below are marked for redrawing.
    fn resize(&mut self, width: u16, height: u16) -> (r: Result<(), ResizeError>) {
        match self.check_resize(width, height) {
            Ok(()) => {
                self.apply_resize(width, height);
                Ok(())
            },
            Err(e) => Err(e),
        }
    }

    fn get_width(&self) -> (width: u16) {
        self.width
    }

    fn get_height(&self) -> (height: u16) {
        self.height
    }

    fn is_fixed_width(&self) -> (fixed: bool)
        decreases self,
    {
        let n = self.children.len();
        let mut i: usize = 0;
        while i < n
            invariant
                0 <= i <= n,
                n == self.children.len(),
                forall|j: int| 0 <= j < i ==> (#[trigger] self.child_views()[j]).fixed_width(),
            decreases n - i,
        {
            proof {
                self.lemma_child_views();
            }
            if !self.children[i].is_fixed_width() {
                assert(!self.node()->Branch_0.children[i as int].fixed_width());
                return false;
            }
            i += 1;
        }
        proof {
            self.lemma_child_views();
        }
        true
    }

    fn is_fixed_height(&self) -> (fixed: bool)
        decreases self,
    {
        let n = self.children.len();
        let mut i: usize = 0;
        while i < n
            invariant
                0 <= i <= n,
                n == self.children.len(),
                forall|j: int| 0 <= j < i ==> (#[trigger] self.child_views()[j]).fixed_height(),
            decreases n - i,
        {
            proof {
                self.lemma_child_views();
            }
            if !self.children[i].is_fixed_height() {
                assert(!self.node()->Branch_0.children[i as int].fixed_height());
                return false;
            }
            i += 1;
        }
        proof {
            self.lemma_child_views();
        }
        true
    }

    fn get_focus(&self) -> (focus: Focus)
        decreases self,
    {
        let n = self.children.len();
        let mut i: usize = 0;
        while i < n
            invariant
                0 <= i <= n,
                n == self.children.len(),
                first_focus(self.child_views(), 0) == first_focus(self.child_views(), i as int),
            decreases n - i,
        {
            match self.children[i].get_focus() {
                Focus::Focus => {
                    return Focus::Focus;
                },
                Focus::PartialFocus => {
                    return Focus::PartialFocus;
                },
                Focus::NoFocus => {},
            }
            i += 1;
        }
        Focus::NoFocus
    }

    fn get_name(&self) -> (name: String) {
        self.name.clone()
    }

    fn starts_in_reach(&self, x: u16, y: u16) -> (ok: bool)
        decreases self,
    {
        proof {
            self.lemma_child_views();
        }
        let ghost b = self.node()->Branch_0;
        let n = self.children.len();
        let mut offset: u32 = 0;
        let mut i: usize = 0;
        while i < n
            invariant
                0 <= i <= n,
                n == self.children.len(),
                n == b.children.len(),
                self.node() == NodeView::Branch(b),
                b.children == self.child_views(),
                b.orientation == self.orientation,
                offset == child_offset(b.children, b.orientation, i as int),
                offset <= 0x1fffe,
                forall|j: int|
                    0 <= j < i ==> within_reach(
                        #[trigger] b.children[j],
                        x + b.child_x(j),
                        y + b.child_y(j),
                    ),
            decreases n - i,
        {
            proof {
                self.lemma_child_views();
                assert(b.children[i as int] == self.children[i as int].node());
            }
            let (left, top): (u32, u32) = match self.orientation {
                Direction::Horizontal => (x as u32 + offset, y as u32),
                Direction::Vertical => (x as u32, y as u32 + offset),
            };
            assert(left == x + b.child_x(i as int) && top == y + b.child_y(i as int));
            if left > 0xffff || top > 0xffff {
                assert(!within_reach(b.children[i as int], left as int, top as int));
                return false;
            }
            if !self.children[i].starts_in_reach(left as u16, top as u16) {
                assert(!within_reach(b.children[i as int], left as int, top as int));
                return false;
            }
            assert(within_reach(
                b.children[i as int],
                x + b.child_x(i as int),
                y + b.child_y(i as int),
            ));
            offset = offset + self.child_extent(i) as u32;
            i += 1;
        }
        true
    }

    fn fits(&self, width: u16, height: u16) -> (ok: bool)
        decreases self,
    {
        proof {
            self.lemma_child_views();
        }
        let ghost b = self.node()->Branch_0;
        if width != self.width || height != self.height {
            return false;
        }
        let n = self.children.len();
        let mut offset: u32 = 0;
        let mut i: usize = 0;
        while i < n
            invariant
                0 <= i <= n,
                n == self.children.len(),
                self.node() == NodeView::Branch(b),
                b.children == self.child_views(),
                b.orientation == self.orientation,
                b.width == self.width,
                b.height == self.height,
                width == self.width,
                height == self.height,
                offset == child_offset(b.children, b.orientation, i as int),
                offset <= 0xffff,
                forall|j: int|
                    0 <= j < i ==> {
                        &&& b.child_x(j) + (#[trigger] b.children[j]).width() <= b.width
                        &&& b.child_y(j) + b.children[j].height() <= b.height
                        &&& renderable(
                            b.children[j],
                            b.children[j].width() as int,
                            b.children[j].height() as int,
                        )
                    },
            decreases n - i,
        {
            proof {
                self.lemma_child_views();
            }
            let child_width = self.children[i].get_width();
            let child_height = self.children[i].get_height();
            let inside = match self.orientation {
                Direction::Horizontal => offset + child_width as u32 <= width as u32
                    && child_height <= height,
                Direction::Vertical => child_width <= width && offset + child_height as u32
                    <= height as u32,
            };
            if !inside || !self.children[i].fits(child_width, child_height) {
                assert(!renderable(self.node(), width as int, height as int)) by {
                    assert(b.children[i as int] == self.children[i as int].node());
                }
                return false;
            }
            offset = offset + self.child_extent(i) as u32;
            i += 1;
        }
        true
    }

    /// Draws every child into its rectangle within `area`.
    #[verifier::spinoff_prover]
    #[verifier::rlimit(60)]
    fn render(&mut self, area: Rect, buf: &mut Buffer)
        decreases *old(self),
    {
        proof {
            self.lemma_child_views();
        }
        let ghost b = self.node()->Branch_0;
        let ghost bounds = buffer_area(*old(buf));
        let ghost mut steps: Seq<Seq<Seq<char>>> = seq![buffer_cells(*old(buf))];
        let n = self.children.len();
        let mut offset: u16 = 0;
        let mut i: usize = 0;
        while i < n
            invariant
                0 <= i <= n,
                n == self.children.len(),
                n == b.children.len(),
                old(self).node() == NodeView::Branch(b),
                b.children == old(self).child_views(),
                renderable(NodeView::Branch(b), area.width as int, area.height as int),
                self.name == old(self).name,
                self.orientation == old(self).orientation,
                self.resizable == old(self).resizable,
                self.resize == old(self).resize,
                self.width == old(self).width,
                self.height == old(self).height,
                b.orientation == self.orientation,
                offset == child_offset(b.children, b.orientation, i as int),
                i < n ==> offset + b.children[i as int].extent(b.orientation) <= (match b.orientation {
                    Direction::Horizontal => b.width,
                    Direction::Vertical => b.height,
                }),
                bounds == buffer_area(*old(buf)),
                buffer_sound(*old(buf)),
                area.within(bounds),
                drawn_within(*old(buf), *buf, area),
                steps.len() == i + 1,
                steps[0] == buffer_cells(*old(buf)),
                steps[i as int] == buffer_cells(*buf),
                forall|j: int|
                    0 <= j < i ==> drawn(
                        b.children[j],
                        steps[j],
                        steps[j + 1],
                        bounds,
                        #[trigger] child_area(b, j, area),
                    ) && old(self).children[j].paints(
                        steps[j],
                        steps[j + 1],
                        bounds,
                        child_area(b, j, area),
                    ),
                forall|j: int|
                    0 <= j < i ==> (#[trigger] self.children[j]).node()
                        == b.children[j].rendered(),
                forall|j: int| i <= j < n ==> self.children[j] == old(self).children[j],
            decreases n - i,
        {
            proof {
                old(self).lemma_child_views();
                assert(b.children[i as int] == self.children[i as int].node());
                assert(b.child_x(i as int) + b.children[i as int].width() <= b.width);
                if i + 1 < n {
                    assert(b.child_x(i + 1) + b.children[i + 1].width() <= b.width);
                }
            }
            let width = self.children[i].get_width();
            let height = self.children[i].get_height();
            let rect = match self.orientation {
                Direction::Horizontal => Rect { x: area.x + offset, y: area.y, width, height },
                Direction::Vertical => Rect { x: area.x, y: area.y + offset, width, height },
            };
            assert(rect == child_area(b, i as int, area));
            let ghost before = buffer_cells(*buf);
            let ghost taken = steps;
            self.children[i].render(rect, buf);
            proof {
                lemma_cells_kept(
                    buffer_cells(*old(buf)),
                    before,
                    buffer_cells(*buf),
                    bounds,
                    rect,
                    area,
                );
                steps = taken.push(buffer_cells(*buf));
                assert forall|j: int| 0 <= j < i + 1 implies drawn(
                    b.children[j],
                    steps[j],
                    steps[j + 1],
                    bounds,
                    #[trigger] child_area(b, j, area),
                ) && old(self).children[j].paints(
                    steps[j],
                    steps[j + 1],
                    bounds,
                    child_area(b, j, area),
                ) by {
                    if j < i {
                        assert(steps[j] == taken[j] && steps[j + 1] == taken[j + 1]);
                    }
                }
            }
            offset = offset + match self.orientation {
                Direction::Horizontal => width,
                Direction::Vertical => height,
            };
            i += 1;
        }
        proof {
            self.lemma_child_views();
            old(self).lemma_child_views();
            let target = old(self).node().rendered()->Branch_0.children;
            assert forall|j: int| 0 <= j < n implies self.child_views()[j] == target[j] by {
                assert(self.children[j].node() == b.children[j].rendered());
            }
            assert(self.child_views() =~= target);
            assert(steps.len() == b.children.len() + 1);
            assert(old(self).paints(buffer_cells(*old(buf)), buffer_cells(*buf), bounds, area)) by {
                reveal(ContainerList::paints_children);
            }
            reveal(drawn);
            assert(drawn(
                NodeView::Branch(b),
                buffer_cells(*old(buf)),
                buffer_cells(*buf),
                bounds,
                area,
            ));
        }
    }

    /// The border of the child under the cell, where that border is an
    /// outer border of the container.
    fn get_border(&self, x: u16, y: u16) -> (border: Option<Border>)
        decreases self,
    {
        proof {
            self.lemma_child_views();
        }
        let ghost b = self.node()->Branch_0;
        let n = self.children.len();
        let mut offset: u128 = 0;
        let mut i: usize = 0;
        while i < n
            invariant
                0 <= i <= n,
                n == self.children.len(),
                self.node() == NodeView::Branch(b),
                b.children == self.child_views(),
                b.orientation == self.orientation,
                offset == child_offset(b.children, b.orientation, i as int),
                offset <= i * 0xffff,
                b.child_at(x as int, y as int) == b.child_from(x as int, y as int, i as int),
            decreases n - i,
        {
            proof {
                self.lemma_child_views();
            }
            match self.hit(Ghost(b), i, offset, x, y) {
                Some((cx, cy)) => {
                    return match self.children[i].get_border(cx, cy) {
                        Some(border) => self.outer(border, i == 0, i == n - 1),
                        None => None,
                    };
                },
                None => {},
            }
            offset = offset + self.child_extent(i) as u128;
            i += 1;
        }
        None
    }
}

impl<W: ComponentWidget + ?Sized> Container<W> for ContainerList<W> {
    fn get_children(&self) -> (children: &Vec<ContainerChild<W>>) {
        proof {
            self.lemma_widgets();
            reveal(ContainerList::paints_children);
            assert forall|before: Seq<Seq<char>>, after: Seq<Seq<char>>, bounds: Rect, area: Rect|
                #[trigger] self.paints(before, after, bounds, area) == paints_row(
                    self.children@,
                    self.node()->Branch_0,
                    before,
                    after,
                    bounds,
                    area,
                ) by {}
            self.lemma_child_views();
            assert(self.child_views() =~= nodes_of(self.children@));
        }
        &self.children
    }

    fn get_children_mut(&mut self) -> (children: &mut Vec<ContainerChild<W>>) {
        proof {
            self.lemma_widgets();
            final(self).lemma_widgets();
            self.lemma_child_views();
            assert(self.child_views() =~= nodes_of(self.children@));
            final(self).lemma_child_views();
            assert(final(self).child_views() =~= nodes_of(final(self).children@));
        }
        &mut self.children
    }

    fn get_children_rectangles(&self) -> (rects: Vec<Rect>) {
        proof {
            self.lemma_child_views();
        }
        let ghost b = self.node()->Branch_0;
        let n = self.children.len();
        let mut rects: Vec<Rect> = Vec::new();
        let mut offset: u128 = 0;
        let mut i: usize = 0;
        while i < n
            invariant
                0 <= i <= n,
                n == self.children.len(),
                self.node() == NodeView::Branch(b),
                b.children == self.child_views(),
                b.orientation == self.orientation,
                b.row_fits(),
                offset == child_offset(b.children, b.orientation, i as int),
                offset <= i * 0xffff,
                rects@.len() == i,
                forall|j: int| 0 <= j < i ==> #[trigger] rects@[j] == b.child_rect(j),
            decreases n - i,
        {
            proof {
                self.lemma_child_views();
                assert(child_offset(b.children, b.orientation, i as int) <= u16::MAX);
            }
            let start = offset as u16;
            let width = self.children[i].get_width();
            let height = self.children[i].get_height();
            let rect = match self.orientation {
                Direction::Horizontal => Rect { x: start, y: 0, width, height },
                Direction::Vertical => Rect { x: 0, y: start, width, height },
            };
            rects.push(rect);
            offset = offset + self.child_extent(i) as u128;
            i += 1;
        }
        rects
    }

    fn is_resizable(&self) -> (resizable: bool) {
        proof {
            self.lemma_child_views();
        }
        self.resizable
    }

    fn as_base(&self) -> (base: &Self) {
        self
    }

    fn as_base_mut(&mut self) -> (base: &mut Self) {
        self
    }

    fn as_container(&self) -> (container: &Self) {
        self
    }

    fn as_container_mut(&mut self) -> (container: &mut Self) {
        self
    }
}

} // verus!

//! Composite nodes and their children.

use vstd::prelude::*;
use crossterm::event::{KeyEvent, MouseEventKind};
use tui::buffer::Buffer;
use crate::component::{Component, ComponentBase, ComponentWidget};
use crate::container::list::ContainerList;
use crate::layout::Rect;
use crate::model::pointer::depth;
use crate::model::drawing::child_area;
use crate::model::{BranchView, NodeView};
use crate::{Border, Focus, ResizeError};

pub mod list;
pub mod search;

verus! {

/// The views of a sequence of children, in order.
pub open spec fn nodes_of<W: ComponentWidget + ?Sized>(children: Seq<ContainerChild<W>>) -> Seq<
    NodeView,
> {
    Seq::new(children.len(), |i: int| children[i].node())
}

/// The widget of the leaf at the end of `path`, which starts with the
/// index of one of the children.
pub open spec fn widget_in<'a, W: ComponentWidget + ?Sized>(
    children: Seq<ContainerChild<W>>,
    path: Seq<int>,
) -> &'a W {
    if path.len() > 0 && 0 <= path[0] < children.len() {
        children[path[0]].widget_at(path.skip(1))
    } else {
        arbitrary()
    }
}

/// Where one child of a row is replaced, and below it the widget under
/// `q` alone, which was `held`, is another, `widget`, the same holds of the
/// row for the path to the child and on along `q`.
pub proof fn lemma_widgets_step<W: ComponentWidget + ?Sized>(
    before: Seq<ContainerChild<W>>,
    after: Seq<ContainerChild<W>>,
    i: int,
    q: Seq<int>,
    held: &W,
    widget: &W,
)
    requires
        0 <= i < before.len(),
        after.len() == before.len(),
        forall|j: int| 0 <= j < before.len() && j != i ==> after[j] == before[j],
        forall|to: Seq<int>| q.is_prefix_of(to) ==> #[trigger] before[i].widget_at(to) == held,
        forall|to: Seq<int>|
            #[trigger] after[i].widget_at(to) == if q.is_prefix_of(to) {
                widget
            } else {
                before[i].widget_at(to)
            },
    ensures
        forall|to: Seq<int>|
            (seq![i] + q).is_prefix_of(to) ==> #[trigger] widget_in(before, to) == held,
        forall|to: Seq<int>|
            #[trigger] widget_in(after, to) == if (seq![i] + q).is_prefix_of(to) {
                widget
            } else {
                widget_in(before, to)
            },
{
    let p = seq![i] + q;
    assert forall|to: Seq<int>| p.is_prefix_of(to) implies #[trigger] widget_in(before, to)
        == held by {
        assert(p =~= to.subrange(0, p.len() as int));
        assert(p[0] == to[0]);
        let rest = to.skip(1);
        assert(q =~= rest.subrange(0, q.len() as int)) by {
            assert forall|k: int| 0 <= k < q.len() implies q[k] == rest[k] by {
                assert(p[k + 1] == to[k + 1]);
            }
        }
        assert(before[i].widget_at(rest) == held);
    }
    assert forall|to: Seq<int>|
        #[trigger] widget_in(after, to) == if p.is_prefix_of(to) {
            widget
        } else {
            widget_in(before, to)
        } by {
        if to.len() > 0 && to[0] == i {
            let rest = to.skip(1);
            assert(after[i].widget_at(rest) == if q.is_prefix_of(rest) {
                widget
            } else {
                before[i].widget_at(rest)
            });
            if q.is_prefix_of(rest) {
                assert(p =~= to.subrange(0, p.len() as int)) by {
                    assert(q =~= rest.subrange(0, q.len() as int));
                }
            } else if p.is_prefix_of(to) {
                assert(q =~= rest.subrange(0, q.len() as int)) by {
                    assert(p =~= to.subrange(0, p.len() as int));
                    assert forall|k: int| 0 <= k < q.len() implies q[k] == rest[k] by {
                        assert(p[k + 1] == to[k + 1]);
                    }
                }
            }
        } else if p.is_prefix_of(to) {
            assert(p =~= to.subrange(0, p.len() as int));
            assert(p[0] == to[0]);
        }
    }
}

/// Whether `after` are the cells that drawing a row of children, one after
/// the other and each into its rectangle within `area`, can make of the
/// cells `before`: `steps` holds the cells before the first child and
/// after each. The rectangles are those of the container `b`.
pub open spec fn paints_row<W: ComponentWidget + ?Sized>(
    children: Seq<ContainerChild<W>>,
    b: BranchView,
    before: Seq<Seq<char>>,
    after: Seq<Seq<char>>,
    bounds: Rect,
    area: Rect,
) -> bool {
    exists|steps: Seq<Seq<Seq<char>>>|
        #![trigger steps.len()]
        {
            &&& steps.len() == children.len() + 1
            &&& steps[0] == before
            &&& steps[children.len() as int] == after
            &&& forall|i: int|
                0 <= i < children.len() ==> children[i].paints(
                    steps[i],
                    steps[i + 1],
                    bounds,
                    #[trigger] child_area(b, i, area),
                )
        }
}

/// Where one child of a row is replaced, and below it the widgets under
/// `q` alone are others, those of `sub`, the same holds of the row for
/// the path to the child and on along `q`.
pub proof fn lemma_widgets_sub<W: ComponentWidget + ?Sized>(
    before: Seq<ContainerChild<W>>,
    after: Seq<ContainerChild<W>>,
    i: int,
    q: Seq<int>,
    sub: ContainerChild<W>,
)
    requires
        0 <= i < before.len(),
        after.len() == before.len(),
        forall|j: int| 0 <= j < before.len() && j != i ==> after[j] == before[j],
        forall|to: Seq<int>|
            #[trigger] after[i].widget_at(to) == if q.is_prefix_of(to) {
                sub.widget_at(to.skip(q.len() as int))
            } else {
                before[i].widget_at(to)
            },
    ensures
        forall|to: Seq<int>|
            #[trigger] widget_in(after, to) == if (seq![i] + q).is_prefix_of(to) {
                sub.widget_at(to.skip((seq![i] + q).len() as int))
            } else {
                widget_in(before, to)
            },
{
    let p = seq![i] + q;
    assert forall|to: Seq<int>|
        #[trigger] widget_in(after, to) == if p.is_prefix_of(to) {
            sub.widget_at(to.skip(p.len() as int))
        } else {
            widget_in(before, to)
        } by {
        if to.len() > 0 && to[0] == i {
            let rest = to.skip(1);
            assert(after[i].widget_at(rest) == if q.is_prefix_of(rest) {
                sub.widget_at(rest.skip(q.len() as int))
            } else {
                before[i].widget_at(rest)
            });
            if q.is_prefix_of(rest) {
                assert(p =~= to.subrange(0, p.len() as int)) by {
                    assert(q =~= rest.subrange(0, q.len() as int));
                }
                assert(rest.skip(q.len() as int) =~= to.skip(p.len() as int));
            } else if p.is_prefix_of(to) {
                assert(q =~= rest.subrange(0, q.len() as int)) by {
                    assert(p =~= to.subrange(0, p.len() as int));
                    assert forall|k: int| 0 <= k < q.len() implies q[k] == rest[k] by {
                        assert(p[k + 1] == to[k + 1]);
                    }
                }
            }
        } else if p.is_prefix_of(to) {
            assert(p =~= to.subrange(0, p.len() as int));
            assert(p[0] == to[0]);
        }
    }
}

/// The widget at the end of a path that starts with the child `i` is the
/// one at the end of the rest of the path below that child.
pub proof fn lemma_widget_in_step<W: ComponentWidget + ?Sized>(
    children: Seq<ContainerChild<W>>,
    i: int,
    q: Seq<int>,
)
    requires
        0 <= i < children.len(),
    ensures
        widget_in(children, seq![i] + q) == children[i].widget_at(q),
{
    assert((seq![i] + q).skip(1) =~= q);
}

/// Whether two rows of children hold the same widgets, leaf by leaf.
pub open spec fn same_widgets<W: ComponentWidget + ?Sized>(
    a: Seq<ContainerChild<W>>,
    b: Seq<ContainerChild<W>>,
) -> bool {
    &&& a.len() == b.len()
    &&& forall|j: int, path: Seq<int>|
        0 <= j < a.len() ==> #[trigger] a[j].widget_at(path) == b[j].widget_at(path)
}

/// A node that lays out children.
pub trait Container<W: ComponentWidget + ?Sized>: ComponentBase<Widget = W> {
    /// The children, in the order in which they are laid out.
    fn get_children(&self) -> (children: &Vec<ContainerChild<W>>)
        ensures
            self.node() matches NodeView::Branch(b) && b.children == nodes_of(children@),
            forall|path: Seq<int>| #[trigger] self.widget_at(path) == widget_in(children@, path),
            forall|before: Seq<Seq<char>>, after: Seq<Seq<char>>, bounds: Rect, area: Rect|
                #[trigger] self.paints(before, after, bounds, area) == paints_row(
                    children@,
                    self.node()->Branch_0,
                    before,
                    after,
                    bounds,
                    area,
                ),
    ;

    /// The children, to change them. The container itself stays as it is.
    fn get_children_mut(&mut self) -> (children: &mut Vec<ContainerChild<W>>)
        ensures
            old(self).node() matches NodeView::Branch(b) && b.children == nodes_of(children@)
                && final(self).node() == NodeView::Branch(
                BranchView { children: nodes_of(final(children)@), ..b },
            ),
            forall|path: Seq<int>|
                #[trigger] old(self).widget_at(path) == widget_in(children@, path),
            forall|path: Seq<int>|
                #[trigger] final(self).widget_at(path) == widget_in(final(children)@, path),
    ;

    /// The rectangle of every child, relative to the container: the
    /// children follow each other along the axis and start at the
    /// container's edge across it.
    fn get_children_rectangles(&self) -> (rects: Vec<Rect>)
        requires
            self.node() matches NodeView::Branch(b) && b.row_fits(),
        ensures
            self.node() matches NodeView::Branch(b) && rects@.len() == b.children.len()
                && forall|i: int|
                0 <= i < rects@.len() ==> #[trigger] rects@[i] == b.child_rect(i),
    ;

    /// Whether the borders between the children can be dragged.
    fn is_resizable(&self) -> (resizable: bool)
        ensures
            self.node() matches NodeView::Branch(b) && resizable == b.resizable,
    ;

    /// The container as a node of the tree.
    fn as_base(&self) -> (base: &Self)
        ensures
            base.node() == self.node(),
    ;

    /// The container as a node of the tree, to change it.
    fn as_base_mut(&mut self) -> (base: &mut Self)
        ensures
            base.node() == old(self).node(),
            final(self).node() == final(base).node(),
    ;

    /// The container as a container.
    fn as_container(&self) -> (container: &Self)
        ensures
            container.node() == self.node(),
    ;

    /// The container as a container, to change it.
    fn as_container_mut(&mut self) -> (container: &mut Self)
        ensures
            container.node() == old(self).node(),
            final(self).node() == final(container).node(),
    ;
}

/// A child of a container: a leaf or another container.
pub enum ContainerChild<W: ComponentWidget + ?Sized> {
    Container(Box<ContainerList<W>>),
    Component(Component<W>),
}

impl<W: ComponentWidget + ?Sized> ContainerChild<W> {
    /// The child as a node of the tree: both kinds of child answer to
    /// [`ComponentBase`].
    pub fn as_base(&self) -> (base: &Self)
        ensures
            base == self,
    {
        self
    }

    /// The child as a node of the tree, to change it.
    pub fn as_base_mut(&mut self) -> (base: &mut Self)
        ensures
            *base == *old(self),
            *final(self) == *final(base),
    {
        self
    }

    /// The leaf that the child is.
    pub fn unwrap_component(&self) -> (component: &Component<W>)
        requires
            self is Component,
        ensures
            *self == ContainerChild::Component(*component),
    {
        match self {
            ContainerChild::Component(component) => component,
            ContainerChild::Container(_) => {
                proof {
                    assert(false);
                }
                vstd::pervasive::unreached()
            },
        }
    }

    /// The leaf that the child is, to change it.
    pub fn unwrap_component_mut(&mut self) -> (component: &mut Component<W>)
        requires
            *old(self) is Component,
        ensures
            *old(self) == ContainerChild::Component(*component),
            *final(self) == ContainerChild::Component(*final(component)),
    {
        match self {
            ContainerChild::Component(component) => component,
            ContainerChild::Container(_) => {
                proof {
                    assert(false);
                }
                vstd::pervasive::unreached()
            },
        }
    }
}

impl<W: ComponentWidget + ?Sized> From<Component<W>> for ContainerChild<W> {
    fn from(component: Component<W>) -> (child: Self) {
        ContainerChild::Component(component)
    }
}

impl<W: ComponentWidget + ?Sized> vstd::std_specs::convert::FromSpecImpl<Component<W>> for ContainerChild<W> {
    open spec fn obeys_from_spec() -> bool {
        true
    }

    open spec fn from_spec(component: Component<W>) -> Self {
        ContainerChild::Component(component)
    }
}

impl<W: ComponentWidget + ?Sized> From<Box<ContainerList<W>>> for ContainerChild<W> {
    fn from(container: Box<ContainerList<W>>) -> (child: Self) {
        ContainerChild::Container(container)
    }
}

impl<W: ComponentWidget + ?Sized> vstd::std_specs::convert::FromSpecImpl<Box<ContainerList<W>>> for ContainerChild<W> {
    open spec fn obeys_from_spec() -> bool {
        true
    }

    open spec fn from_spec(container: Box<ContainerList<W>>) -> Self {
        ContainerChild::Container(container)
    }
}

impl<W: ComponentWidget + ?Sized> From<ContainerList<W>> for ContainerChild<W> {
    fn from(container: ContainerList<W>) -> (child: Self) {
        ContainerChild::Container(Box::new(container))
    }
}

impl<W: ComponentWidget + ?Sized> vstd::std_specs::convert::FromSpecImpl<ContainerList<W>> for ContainerChild<W> {
    open spec fn obeys_from_spec() -> bool {
        true
    }

    open spec fn from_spec(container: ContainerList<W>) -> Self {
        ContainerChild::Container(Box::new(container))
    }
}

impl<W: ComponentWidget + ?Sized> ComponentBase for ContainerChild<W> {
    type Widget = W;

    open spec fn node(&self) -> NodeView
        decreases self, 0int,
    {
        match self {
            ContainerChild::Container(container) => container.node(),
            ContainerChild::Component(component) => component.node(),
        }
    }

    open spec fn widget_at(&self, path: Seq<int>) -> &W
        decreases self, 0int,
    {
        match self {
            ContainerChild::Container(container) => container.widget_at(path),
            ContainerChild::Component(component) => component.widget_at(path),
        }
    }

    open spec fn paints(
        &self,
        before: Seq<Seq<char>>,
        after: Seq<Seq<char>>,
        bounds: Rect,
        area: Rect,
    ) -> bool
        decreases self, 0int,
    {
        match self {
            ContainerChild::Container(container) => container.paints(before, after, bounds, area),
            ContainerChild::Component(component) => component.paints(before, after, bounds, area),
        }
    }

    fn handle_update(&mut self)
        decreases *old(self),
    {
        match self {
            ContainerChild::Container(container) => container.handle_update(),
            ContainerChild::Component(component) => component.handle_update(),
        }
    }

    fn handle_key(&mut self, e: KeyEvent) -> (exit: Option<Border>) {
        match self {
            ContainerChild::Container(container) => container.handle_key(e),
            ContainerChild::Component(component) => component.handle_key(e),
        }
    }

    fn handle_mouse(&mut self, x: u16, y: u16, kind: Option<MouseEventKind>)
        decreases depth(old(self).node()), 1int,
    {
        match self {
            ContainerChild::Container(container) => container.handle_mouse(x, y, kind),
            ContainerChild::Component(component) => component.handle_mouse(x, y, kind),
        }
    }

    fn invalidate(&mut self)
        decreases *old(self),
    {
        match self {
            ContainerChild::Container(container) => container.invalidate(),
            ContainerChild::Component(component) => component.invalidate(),
        }
    }

    fn check_resize(&self, width: u16, height: u16) -> (r: Result<(), ResizeError>)
        decreases self, 0int,
    {
        match self {
            ContainerChild::Container(container) => container.check_resize(width, height),
            ContainerChild::Component(component) => component.check_resize(width, height),
        }
    }

    fn apply_resize(&mut self, width: u16, height: u16)
        decreases *old(self), 0int,
    {
        match self {
            ContainerChild::Container(container) => container.apply_resize(width, height),
            ContainerChild::Component(component) => component.apply_resize(width, height),
        }
    }

    fn resize(&mut self, width: u16, height: u16) -> (r: Result<(), ResizeError>) {
        match self {
            ContainerChild::Container(container) => container.resize(width, height),
            ContainerChild::Component(component) => component.resize(width, height),
        }
    }

    fn get_width(&self) -> (width: u16) {
        match self {
            ContainerChild::Container(container) => container.get_width(),
            ContainerChild::Component(component) => component.get_width(),
        }
    }

    fn get_height(&self) -> (height: u16) {
        match self {
            ContainerChild::Container(container) => container.get_height(),
            ContainerChild::Component(component) => component.get_height(),
        }
    }

    fn is_fixed_width(&self) -> (fixed: bool)
        decreases self,
    {
        match self {
            ContainerChild::Container(container) => container.is_fixed_width(),
            ContainerChild::Component(component) => component.is_fixed_width(),
        }
    }

    fn is_fixed_height(&self) -> (fixed: bool)
        decreases self,
    {
        match self {
            ContainerChild::Container(container) => container.is_fixed_height(),
            ContainerChild::Component(component) => component.is_fixed_height(),
        }
    }

    fn get_focus(&self) -> (focus: Focus)
        decreases self,
    {
        match self {
            ContainerChild::Container(container) => container.get_focus(),
            ContainerChild::Component(component) => component.get_focus(),
        }
    }

    fn get_name(&self) -> (name: String) {
        match self {
            ContainerChild::Container(container) => container.get_name(),
            ContainerChild::Component(component) => component.get_name(),
        }
    }

    fn get_border(&self, x: u16, y: u16) -> (border: Option<Border>)
        decreases self,
    {
        match self {
            ContainerChild::Container(container) => container.get_border(x, y),
            ContainerChild::Component(component) => component.get_border(x, y),
        }
    }

    fn starts_in_reach(&self, x: u16, y: u16) -> (ok: bool)
        decreases self,
    {
        match self {
            ContainerChild::Container(container) => container.starts_in_reach(x, y),
            ContainerChild::Component(component) => component.starts_in_reach(x, y),
        }
    }

    fn fits(&self, width: u16, height: u16) -> (ok: bool)
        decreases self,
    {
        match self {
            ContainerChild::Container(container) => container.fits(width, height),
            ContainerChild::Component(component) => component.fits(width, height),
        }
    }

    fn render(&mut self, area: Rect, buf: &mut Buffer)
        decreases *old(self),
    {
        match self {
            ContainerChild::Container(container) => container.render(area, buf),
            ContainerChild::Component(component) => component.render(area, buf),
        }
    }
}

} // verus!

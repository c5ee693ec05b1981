//! Finding the leaves of a tree: by focus, by position and by name.

use vstd::prelude::*;
use vstd::string::{StrSliceExecFns, StringExecFns};
use crate::component::{Component, ComponentBase, ComponentWidget};
use crate::container::list::ContainerList;
use crate::container::{
    lemma_widget_in_step, lemma_widgets_step, lemma_widgets_sub, nodes_of, widget_in, Container,
    ContainerChild,
};
use crate::layout::Direction;
use crate::model::geometry::child_offset;
use crate::model::pointer::{depth, lemma_max_depth_bounds};
use crate::model::search::{
    focus_in_reach, focused_from, focused_path, leaf_at, lemma_focus_from, lemma_focus_path,
    lemma_head_len, lemma_named_leaf, lemma_path_at_covers, lemma_path_step,
    lemma_position_nonnegative, lemma_with_same_node, name_in_reach, named_from, named_in,
    named_path, node_at, path_at, path_head, path_tail, position_at, with_node,
};
use crate::model::{LeafView, NodeView};
use crate::pos::ComponentPos;
use crate::{Focus, FocusResult};

verus! {

/// Whether a search result holds a leaf with the view `leaf` at the
/// position `(x, y)`, under the focus that the leaf has.
pub open spec fn focus_found<W: ComponentWidget + ?Sized>(
    r: FocusResult<(&Component<W>, ComponentPos)>,
    leaf: LeafView,
    x: int,
    y: int,
) -> bool {
    match r {
        FocusResult::Focus((c, pos)) => leaf.focus == Focus::Focus && c@ == leaf && pos.x == x
            && pos.y == y,
        FocusResult::PartialFocus((c, pos)) => leaf.focus == Focus::PartialFocus && c@ == leaf
            && pos.x == x && pos.y == y,
        FocusResult::NoFocus => false,
    }
}

/// Searches below a container.
pub trait ContainerSearch<W: ComponentWidget + ?Sized>: Container<W> {
    /// The first leaf, from left to right, that has any focus, and where
    /// it starts.
    fn search_focused(&self) -> (r: FocusResult<(&Component<W>, ComponentPos)>)
        requires
            focus_in_reach(self.node()),
        ensures
            match focused_path(self.node()) {
                Some(p) => focus_found(
                    r,
                    leaf_at(self.node(), p),
                    position_at(self.node(), p).0,
                    position_at(self.node(), p).1,
                ) && match r {
                    FocusResult::Focus((c, _)) => c.widget() == self.widget_at(p),
                    FocusResult::PartialFocus((c, _)) => c.widget() == self.widget_at(p),
                    FocusResult::NoFocus => true,
                },
                None => r is NoFocus,
            },
    ;

    /// As `search_focused`, to change the leaf. The tree changes at that
    /// leaf and nowhere else.
    fn search_focused_mut(&mut self) -> (r: FocusResult<(&mut Component<W>, ComponentPos)>)
        requires
            focus_in_reach(old(self).node()),
        ensures
            match focused_path(old(self).node()) {
                Some(p) => {
                    let leaf = leaf_at(old(self).node(), p);
                    let at = position_at(old(self).node(), p);
                    match r {
                        FocusResult::Focus((c, pos)) => leaf.focus == Focus::Focus && c@ == leaf
                            && pos.x == at.0 && pos.y == at.1 && final(self).node() == with_node(
                            old(self).node(),
                            p,
                            NodeView::Leaf(final(c)@),
                        ) && (forall|to: Seq<int>|
                            p.is_prefix_of(to) ==> #[trigger] old(self).widget_at(to) == c.widget())
                            && (forall|to: Seq<int>|
                            #[trigger] final(self).widget_at(to) == if p.is_prefix_of(to) {
                                final(c).widget()
                            } else {
                                old(self).widget_at(to)
                            }),
                        FocusResult::PartialFocus((c, pos)) => leaf.focus == Focus::PartialFocus
                            && c@ == leaf && pos.x == at.0 && pos.y == at.1 && final(self).node()
                            == with_node(old(self).node(), p, NodeView::Leaf(final(c)@))
                            && (forall|to: Seq<int>|
                            p.is_prefix_of(to) ==> #[trigger] old(self).widget_at(to) == c.widget())
                            && (forall|to: Seq<int>|
                            #[trigger] final(self).widget_at(to) == if p.is_prefix_of(to) {
                                final(c).widget()
                            } else {
                                old(self).widget_at(to)
                            }),
                        FocusResult::NoFocus => false,
                    }
                },
                None => r is NoFocus && final(self).node() == old(self).node() && (forall|to: Seq<int>|
                    #[trigger] final(self).widget_at(to) == old(self).widget_at(to)),
            },
    ;

    /// The leaf that covers the cell `pos`, and where it starts.
    fn search_position(&self, pos: ComponentPos) -> (r: Option<(&Component<W>, ComponentPos)>)
        ensures
            match path_at(self.node(), pos.x as int, pos.y as int) {
                Some(p) => r matches Some((c, at)) && c@ == leaf_at(self.node(), p) && at.x
                    == position_at(self.node(), p).0 && at.y == position_at(self.node(), p).1
                    && c.widget() == self.widget_at(p),
                None => r is None,
            },
    ;

    /// As `search_position`, to change the leaf. The tree changes at that
    /// leaf and nowhere else.
    fn search_position_mut(&mut self, pos: ComponentPos) -> (r: Option<
        (&mut Component<W>, ComponentPos),
    >)
        ensures
            match path_at(old(self).node(), pos.x as int, pos.y as int) {
                Some(p) => r matches Some((c, at)) && c@ == leaf_at(old(self).node(), p) && at.x
                    == position_at(old(self).node(), p).0 && at.y == position_at(
                    old(self).node(),
                    p,
                ).1 && final(self).node() == with_node(
                    old(self).node(),
                    p,
                    NodeView::Leaf(final(c)@),
                ) && (forall|to: Seq<int>|
                            p.is_prefix_of(to) ==> #[trigger] old(self).widget_at(to) == c.widget())
                            && (forall|to: Seq<int>|
                    #[trigger] final(self).widget_at(to) == if p.is_prefix_of(to) {
                        final(c).widget()
                    } else {
                        old(self).widget_at(to)
                    }),
                None => r is None && final(self).node() == old(self).node() && (forall|to: Seq<int>|
                    #[trigger] final(self).widget_at(to) == old(self).widget_at(to)),
            },
    ;

    /// The leaf that a dotted path names, and where it starts. Every
    /// segment but the last names a container, the last a leaf.
    fn search_name(&self, path: &str) -> (r: Option<(&ContainerChild<W>, ComponentPos)>)
        requires
            self.node() matches NodeView::Branch(b) && name_in_reach(b, path@),
        ensures
            self.node() matches NodeView::Branch(b) && match named_path(b.children, path@) {
                Some(p) => r matches Some((child, at)) && child.node() == node_at(self.node(), p)
                    && *child is Component && at.x == position_at(self.node(), p).0 && at.y
                    == position_at(self.node(), p).1 && child.widget_at(Seq::empty())
                    == self.widget_at(p),
                None => r is None,
            },
    ;

    /// As `search_name`, to change the leaf. The tree changes at that leaf
    /// and nowhere else.
    fn search_name_mut(&mut self, path: &str) -> (r: Option<(&mut ContainerChild<W>, ComponentPos)>)
        requires
            old(self).node() matches NodeView::Branch(b) && name_in_reach(b, path@),
        ensures
            old(self).node() matches NodeView::Branch(b) && match named_path(b.children, path@) {
                Some(p) => r matches Some((child, at)) && child.node() == node_at(
                    old(self).node(),
                    p,
                ) && *child is Component && at.x == position_at(old(self).node(), p).0 && at.y
                    == position_at(old(self).node(), p).1 && final(self).node() == with_node(
                    old(self).node(),
                    p,
                    final(child).node(),
                ) && child.widget_at(Seq::empty()) == old(self).widget_at(p) && (forall|
                    to: Seq<int>,
                |
                    #[trigger] final(self).widget_at(to) == if p.is_prefix_of(to) {
                        final(child).widget_at(to.skip(p.len() as int))
                    } else {
                        old(self).widget_at(to)
                    }),
                None => r is None && final(self).node() == old(self).node() && (forall|
                    to: Seq<int>,
                | #[trigger] final(self).widget_at(to) == old(self).widget_at(to)),
            },
    ;

    /// The widget of the leaf that a dotted path names.
    fn search_name_widget(&self, path: &str) -> (r: Option<&W>)
        requires
            self.node() matches NodeView::Branch(b) && name_in_reach(b, path@),
        ensures
            self.node() matches NodeView::Branch(b) && (r is Some <==> named_path(
                b.children,
                path@,
            ) is Some),
            r matches Some(widget) ==> widget == self.widget_at(
                named_path(self.node()->Branch_0.children, path@)->Some_0,
            ),
    {
        match self.search_name(path) {
            Some((child, _)) => match child {
                ContainerChild::Component(component) => Some(component.get_widget()),
                ContainerChild::Container(_) => None,
            },
            None => None,
        }
    }

    /// The widget of the leaf that a dotted path names, to change it. The
    /// tree itself stays as it is.
    fn search_name_widget_mut(&mut self, path: &str) -> (r: Option<&mut W>)
        requires
            old(self).node() matches NodeView::Branch(b) && name_in_reach(b, path@),
        ensures
            old(self).node() matches NodeView::Branch(b) && (r is Some <==> named_path(
                b.children,
                path@,
            ) is Some),
            final(self).node() == old(self).node(),
            match r {
                Some(widget) => {
                    let p = named_path(old(self).node()->Branch_0.children, path@)->Some_0;
                    &*widget == old(self).widget_at(p) && (forall|to: Seq<int>|
                        #[trigger] final(self).widget_at(to) == if p.is_prefix_of(to) {
                            &*final(widget)
                        } else {
                            old(self).widget_at(to)
                        })
                },
                None => forall|to: Seq<int>|
                    #[trigger] final(self).widget_at(to) == old(self).widget_at(to),
            },
    {
        let ghost b = self.node()->Branch_0;
        proof {
            if named_path(b.children, path@) is Some {
                lemma_named_leaf(b, path@, 0);
                lemma_with_same_node(self.node(), named_path(b.children, path@)->Some_0);
            }
        }
        match self.search_name_mut(path) {
            Some((child, _)) => match child {
                ContainerChild::Component(component) => Some(component.get_widget_mut()),
                ContainerChild::Container(_) => None,
            },
            None => None,
        }
    }
}

/// The first segment of a dotted path, and what follows its first dot.
fn split_path(path: &str) -> (r: (String, Option<&str>))
    ensures
        r.0@ == path_head(path@),
        match r.1 {
            Some(rest) => path_tail(path@) == Some(rest@),
            None => path_tail(path@) is None,
        },
{
    let n = path.unicode_len();
    let mut i: usize = 0;
    while i < n && path.get_char(i) != '.'
        invariant
            0 <= i <= n,
            n == path@.len(),
            forall|j: int| 0 <= j < i ==> path@[j] != '.',
        decreases n - i,
    {
        i += 1;
    }
    proof {
        lemma_head_len(path@, i as int);
    }
    let head = String::from_str(path.substring_char(0, i));
    if i < n {
        (head, Some(path.substring_char(i + 1, n)))
    } else {
        (head, None)
    }
}

/// The cell that lies `offset` cells along `axis` from the origin.
fn start_along(axis: Direction, offset: u16) -> (pos: ComponentPos)
    ensures
        pos == (match axis {
            Direction::Horizontal => ComponentPos { x: offset, y: 0 },
            Direction::Vertical => ComponentPos { x: 0, y: offset },
        }),
{
    match axis {
        Direction::Horizontal => ComponentPos { x: offset, y: 0 },
        Direction::Vertical => ComponentPos { x: 0, y: offset },
    }
}

/// The first child of a container below which a leaf has any focus, and
/// the cell at which that child starts.
fn focused_child<W: ComponentWidget + ?Sized>(list: &ContainerList<W>) -> (r: Option<
    (usize, ComponentPos),
>)
    requires
        focus_in_reach(list.node()),
    ensures
        list.node() matches NodeView::Branch(b) && match focused_path(list.node()) {
            Some(p) => r matches Some((i, start)) && i == p[0] && 0 <= i < b.children.len()
                && start.x == b.child_x(i as int) && start.y == b.child_y(i as int)
                && focused_path(b.children[i as int]) == Some(p.skip(1)) && p =~= seq![i as int]
                + p.skip(1),
            None => r is None,
        },
{
    let children = list.get_children();
    let axis = list.get_orientation();
    let ghost b = list.node()->Branch_0;
    let n = children.len();
    let mut offset: u128 = 0;
    let mut i: usize = 0;
    while i < n
        invariant
            0 <= i <= n,
            n == children@.len(),
            list.node() == NodeView::Branch(b),
            b.children == nodes_of(children@),
            b.orientation == axis,
            focus_in_reach(list.node()),
            offset == child_offset(b.children, axis, i as int),
            offset <= i * 0xffff,
            forall|j: int| 0 <= j < i ==> focused_path(#[trigger] b.children[j]) is None,
        decreases n - i,
    {
        proof {
            lemma_focus_path(b.children[i as int]);
        }
        match children[i].get_focus() {
            Focus::NoFocus => {},
            _ => {
                proof {
                    lemma_focus_from(b, 0);
                    assert(focused_path(b.children[i as int]) is Some);
                    let p = focused_path(list.node())->Some_0;
                    assert(focused_path(b.children[p[0]]) is Some);
                    assert(p[0] == i);
                    assert(p =~= seq![i as int] + p.skip(1));
                    lemma_path_step(b, i as int, p.skip(1));
                    lemma_position_nonnegative(b.children[i as int], p.skip(1));
                }
                return Some((i, start_along(axis, offset as u16)));
            },
        }
        offset = offset + match axis {
            Direction::Horizontal => children[i].get_width(),
            Direction::Vertical => children[i].get_height(),
        } as u128;
        i += 1;
    }
    proof {
        lemma_focus_from(b, 0);
    }
    None
}

/// The first child of a container below which a dotted path names a leaf,
/// and the cell at which that child starts.
fn named_child<W: ComponentWidget + ?Sized>(list: &ContainerList<W>, path: &str) -> (r: Option<
    (usize, ComponentPos),
>)
    requires
        list.node() matches NodeView::Branch(b) && name_in_reach(b, path@),
    ensures
        list.node() matches NodeView::Branch(b) && match named_path(b.children, path@) {
            Some(p) => r matches Some((i, start)) && p.len() > 0 && i == p[0] && 0 <= i
                < b.children.len() && start.x == b.child_x(i as int) && start.y == b.child_y(
                i as int,
            ) && named_in(b.children[i as int], path@) == Some(p.skip(1)) && p =~= seq![i as int]
                + p.skip(1),
            None => r is None,
        },
    decreases depth(list.node()), 0int,
{
    let children = list.get_children();
    let axis = list.get_orientation();
    let ghost b = list.node()->Branch_0;
    let (head, tail) = split_path(path);
    let n = children.len();
    let mut offset: u128 = 0;
    let mut i: usize = 0;
    while i < n
        invariant
            0 <= i <= n,
            n == children@.len(),
            list.node() == NodeView::Branch(b),
            b.children == nodes_of(children@),
            b.orientation == axis,
            name_in_reach(b, path@),
            head@ == path_head(path@),
            match tail {
                Some(rest) => path_tail(path@) == Some(rest@),
                None => path_tail(path@) is None,
            },
            offset == child_offset(b.children, axis, i as int),
            offset <= i * 0xffff,
            named_path(b.children, path@) == named_from(b.children, path@, i as int),
        decreases n - i,
    {
        proof {
            lemma_max_depth_bounds(b.children, n as int, i as int);
            assert(children@[i as int].node() == b.children[i as int]);
            assert(named_from(b.children, path@, i as int) == match named_in(
                b.children[i as int],
                path@,
            ) {
                Some(q) => Some(seq![i as int] + q),
                None => named_from(b.children, path@, i + 1),
            });
            if let Some(q) = named_in(b.children[i as int], path@) {
                lemma_path_step(b, i as int, q);
                lemma_position_nonnegative(b.children[i as int], q);
                assert((seq![i as int] + q).skip(1) =~= q);
                if let NodeView::Branch(inner) = b.children[i as int] {
                    assert(named_path(inner.children, path_tail(path@)->Some_0) == Some(q));
                }
            }
        }
        if children[i].get_name() == head {
            let found = match &children[i] {
                ContainerChild::Component(component) => {
                    assert(b.children[i as int] == component.node());
                    tail.is_none()
                },
                ContainerChild::Container(inner) => {
                    proof {
                        inner.lemma_branch();
                    }
                    assert(b.children[i as int] == inner.node());
                    match tail {
                        Some(rest) => {
                            assert(named_in(b.children[i as int], path@) == named_path(
                                inner.node()->Branch_0.children,
                                rest@,
                            ));
                            inner.search_name(rest).is_some()
                        },
                        None => false,
                    }
                },
            };
            assert(found == named_in(b.children[i as int], path@) is Some);
            if found {
                return Some((i, start_along(axis, offset as u16)));
            }
        }
        offset = offset + match axis {
            Direction::Horizontal => children[i].get_width(),
            Direction::Vertical => children[i].get_height(),
        } as u128;
        i += 1;
    }
    None
}

impl<W: ComponentWidget + ?Sized> ContainerSearch<W> for ContainerList<W> {
    fn search_name(&self, path: &str) -> (r: Option<(&ContainerChild<W>, ComponentPos)>)
        decreases depth(self.node()), 1int,
    {
        let ghost b = self.node()->Branch_0;
        match named_child(self, path) {
            None => None,
            Some((i, start)) => {
                let ghost q = named_in(b.children[i as int], path@)->Some_0;
                proof {
                    lemma_max_depth_bounds(b.children, b.children.len() as int, i as int);
                    lemma_path_step(b, i as int, q);
                    lemma_position_nonnegative(b.children[i as int], q);
                }
                let children = self.get_children();
                let (_, tail) = split_path(path);
                assert(children@[i as int].node() == b.children[i as int]);
                match &children[i] {
                    ContainerChild::Component(component) => {
                        assert(b.children[i as int] == component.node());
                        assert(q =~= Seq::empty());
                        Some((&children[i], start))
                    },
                    ContainerChild::Container(inner) => {
                        proof {
                            inner.lemma_branch();
                        }
                        assert(b.children[i as int] == inner.node());
                        match tail {
                            Some(rest) => {
                                assert(named_path(inner.node()->Branch_0.children, rest@) == Some(
                                    q,
                                ));
                                match inner.search_name(rest) {
                                    Some((child, at)) => Some((child, start.offset(at))),
                                    None => None,
                                }
                            },
                            None => None,
                        }
                    },
                }
            },
        }
    }

    fn search_name_mut(&mut self, path: &str) -> (r: Option<(&mut ContainerChild<W>, ComponentPos)>)
        decreases depth(old(self).node()), 1int,
    {
        let ghost b = self.node()->Branch_0;
        match named_child(self, path) {
            None => None,
            Some((i, start)) => {
                let ghost q = named_in(b.children[i as int], path@)->Some_0;
                proof {
                    lemma_max_depth_bounds(b.children, b.children.len() as int, i as int);
                    lemma_path_step(b, i as int, q);
                    lemma_position_nonnegative(b.children[i as int], q);
                }
                let (_, tail) = split_path(path);
                let children = self.get_children_mut();
                let ghost before = children@;
                let ghost after = final(children)@;
                proof {
                    lemma_widget_in_step(before, i as int, q);
                }
                assert(children@[i as int].node() == b.children[i as int]);
                let is_leaf = match &children[i] {
                    ContainerChild::Component(component) => {
                        assert(b.children[i as int] == component.node());
                        true
                    },
                    ContainerChild::Container(_) => false,
                };
                if is_leaf {
                    let child = &mut children[i];
                    proof {
                        assert(q =~= Seq::empty());
                        assert(nodes_of(after) =~= b.children.update(i as int, final(child).node()));
                        assert forall|to: Seq<int>|
                            #[trigger] after[i as int].widget_at(to) == final(child).widget_at(
                                to.skip(0),
                            ) by {
                            assert(to.skip(0) =~= to);
                        }
                        lemma_widgets_sub(before, after, i as int, q, *final(child));
                        assert(seq![i as int] + q =~= seq![i as int]);
                    }
                    Some((child, start))
                } else {
                    match &mut children[i] {
                        ContainerChild::Container(inner) => {
                            proof {
                                inner.lemma_branch();
                                assert(b.children[i as int] == inner.node());
                                assert(nodes_of(after) =~= b.children.update(
                                    i as int,
                                    final(inner).node(),
                                ));
                            }
                            match tail {
                                Some(rest) => {
                                    assert(named_path(inner.node()->Branch_0.children, rest@)
                                        == Some(q));
                                    match inner.search_name_mut(rest) {
                                        Some((child, at)) => {
                                            proof {
                                                lemma_widgets_sub(
                                                    before,
                                                    after,
                                                    i as int,
                                                    q,
                                                    *final(child),
                                                );
                                            }
                                            Some((child, start.offset(at)))
                                        },
                                        None => None,
                                    }
                                },
                                None => None,
                            }
                        },
                        ContainerChild::Component(_) => None,
                    }
                }
            },
        }
    }

    fn search_focused_mut(&mut self) -> (r: FocusResult<(&mut Component<W>, ComponentPos)>)
        decreases depth(old(self).node()),
    {
        let ghost b = self.node()->Branch_0;
        match focused_child(self) {
            None => FocusResult::NoFocus,
            Some((i, start)) => {
                let ghost q = focused_path(b.children[i as int])->Some_0;
                proof {
                    lemma_max_depth_bounds(b.children, b.children.len() as int, i as int);
                    lemma_path_step(b, i as int, q);
                    lemma_focus_path(b.children[i as int]);
                }
                let children = self.get_children_mut();
                let ghost before = children@;
                let ghost after = final(children)@;
                match &mut children[i] {
                    ContainerChild::Component(c) => {
                        proof {
                            assert(nodes_of(after) =~= b.children.update(
                                i as int,
                                NodeView::Leaf(final(c)@),
                            ));
                            assert(seq![i as int] + Seq::<int>::empty() =~= seq![i as int]);
                            lemma_widgets_step(
                                before,
                                after,
                                i as int,
                                Seq::<int>::empty(),
                                c.widget(),
                                final(c).widget(),
                            );
                        }
                        match c.get_focus() {
                            Focus::Focus => FocusResult::Focus((c, start)),
                            Focus::PartialFocus => FocusResult::PartialFocus((c, start)),
                            Focus::NoFocus => FocusResult::NoFocus,
                        }
                    },
                    ContainerChild::Container(inner) => {
                        proof {
                            assert(nodes_of(after) =~= b.children.update(
                                i as int,
                                final(inner).node(),
                            ));
                        }
                        match inner.search_focused_mut() {
                            FocusResult::Focus((c, pos)) => {
                                proof {
                                    lemma_widgets_step(before, after, i as int, q, c.widget(), final(c).widget());
                                    assert((seq![i as int] + q).skip(1) =~= q);
                                }
                                FocusResult::Focus((c, start.offset(pos)))
                            },
                            FocusResult::PartialFocus((c, pos)) => {
                                proof {
                                    lemma_widgets_step(before, after, i as int, q, c.widget(), final(c).widget());
                                    assert((seq![i as int] + q).skip(1) =~= q);
                                }
                                FocusResult::PartialFocus((c, start.offset(pos)))
                            },
                            FocusResult::NoFocus => FocusResult::NoFocus,
                        }
                    },
                }
            },
        }
    }

    fn search_position_mut(&mut self, pos: ComponentPos) -> (r: Option<
        (&mut Component<W>, ComponentPos),
    >)
        decreases depth(old(self).node()),
    {
        let ghost b = self.node()->Branch_0;
        match self.child_at(pos.x, pos.y) {
            None => None,
            Some((i, start, local)) => {
                let ghost q = path_at(b.children[i as int], local.x as int, local.y as int);
                proof {
                    lemma_max_depth_bounds(b.children, b.children.len() as int, i as int);
                    if let Some(q) = q {
                        lemma_path_step(b, i as int, q);
                        if b.children[i as int] is Branch {
                            lemma_path_at_covers(
                                b.children[i as int],
                                local.x as int,
                                local.y as int,
                            );
                        }
                    }
                }
                let children = self.get_children_mut();
                let ghost before = children@;
                let ghost after = final(children)@;
                match &mut children[i] {
                    ContainerChild::Component(c) => {
                        proof {
                            assert(nodes_of(after) =~= b.children.update(
                                i as int,
                                NodeView::Leaf(final(c)@),
                            ));
                            assert(seq![i as int] + Seq::<int>::empty() =~= seq![i as int]);
                            lemma_widgets_step(
                                before,
                                after,
                                i as int,
                                Seq::<int>::empty(),
                                c.widget(),
                                final(c).widget(),
                            );
                        }
                        Some((c, start))
                    },
                    ContainerChild::Container(inner) => {
                        proof {
                            assert(nodes_of(after) =~= b.children.update(
                                i as int,
                                final(inner).node(),
                            ));
                        }
                        match inner.search_position_mut(local) {
                            Some((c, at)) => {
                                proof {
                                    let q = q->Some_0;
                                    lemma_widgets_step(before, after, i as int, q, c.widget(), final(c).widget());
                                    assert((seq![i as int] + q).skip(1) =~= q);
                                }
                                Some((c, start.offset(at)))
                            },
                            None => {
                                proof {
                                    assert(b.children.update(i as int, b.children[i as int])
                                        =~= b.children);
                                    assert forall|to: Seq<int>|
                                        #[trigger] widget_in(after, to) == widget_in(
                                            before,
                                            to,
                                        ) by {}
                                }
                                None
                            },
                        }
                    },
                }
            },
        }
    }

    fn search_focused(&self) -> (r: FocusResult<(&Component<W>, ComponentPos)>)
        decreases depth(self.node()),
    {
        let children = self.get_children();
        let axis = self.get_orientation();
        let ghost b = self.node()->Branch_0;
        let n = children.len();
        let mut offset: u128 = 0;
        let mut i: usize = 0;
        while i < n
            invariant
                0 <= i <= n,
                n == children@.len(),
                self.node() == NodeView::Branch(b),
                b.children == nodes_of(children@),
                b.orientation == axis,
                focus_in_reach(self.node()),
                offset == child_offset(b.children, axis, i as int),
                offset <= i * 0xffff,
                focused_from(b.children, 0) == focused_from(b.children, i as int),
                forall|path: Seq<int>|
                    #[trigger] self.widget_at(path) == widget_in(children@, path),
            decreases n - i,
        {
            let ghost below = focused_path(b.children[i as int]);
            proof {
                lemma_max_depth_bounds(b.children, n as int, i as int);
                if let Some(q) = below {
                    lemma_path_step(b, i as int, q);
                    assert(focused_path(self.node()) == Some(seq![i as int] + q));
                    lemma_widget_in_step(children@, i as int, q);
                }
            }
            match &children[i] {
                ContainerChild::Component(c) => {
                    match c.get_focus() {
                        Focus::Focus => {
                            return FocusResult::Focus((c, start_along(axis, offset as u16)));
                        },
                        Focus::PartialFocus => {
                            return FocusResult::PartialFocus(
                                (c, start_along(axis, offset as u16)),
                            );
                        },
                        Focus::NoFocus => {},
                    }
                },
                ContainerChild::Container(inner) => {
                    match inner.search_focused() {
                        FocusResult::Focus((c, pos)) => {
                            return FocusResult::Focus((c, start_along(axis, offset as u16).offset(pos)));
                        },
                        FocusResult::PartialFocus((c, pos)) => {
                            return FocusResult::PartialFocus(
                                (c, start_along(axis, offset as u16).offset(pos)),
                            );
                        },
                        FocusResult::NoFocus => {},
                    }
                },
            }
            offset = offset + match axis {
                Direction::Horizontal => children[i].get_width(),
                Direction::Vertical => children[i].get_height(),
            } as u128;
            i += 1;
        }
        FocusResult::NoFocus
    }

    fn search_position(&self, pos: ComponentPos) -> (r: Option<(&Component<W>, ComponentPos)>)
        decreases depth(self.node()),
    {
        let children = self.get_children();
        let ghost b = self.node()->Branch_0;
        match self.child_at(pos.x, pos.y) {
            None => None,
            Some((i, start, local)) => {
                let ghost q = path_at(b.children[i as int], local.x as int, local.y as int);
                proof {
                    lemma_max_depth_bounds(b.children, b.children.len() as int, i as int);
                    if let Some(q) = q {
                        lemma_widget_in_step(children@, i as int, q);
                        lemma_path_step(b, i as int, q);
                        if b.children[i as int] is Branch {
                            lemma_path_at_covers(
                                b.children[i as int],
                                local.x as int,
                                local.y as int,
                            );
                        }
                    }
                }
                match &children[i] {
                    ContainerChild::Component(c) => Some((c, start)),
                    ContainerChild::Container(inner) => match inner.search_position(local) {
                        Some((c, at)) => Some((c, start.offset(at))),
                        None => None,
                    },
                }
            },
        }
    }
}

} // verus!

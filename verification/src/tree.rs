//! Tree support: nodes kept in a pool and linked by slot.

use crate::handle::{Handle, Slot};
use crate::model::PoolView;
use crate::pool::Pool;
use vstd::prelude::*;

verus! {

/// The links of a node to its neighbours, by slot. A node that stands alone
/// has none.
#[derive(Debug, Clone, Copy, PartialEq, Eq, Hash, Structural)]
pub struct Link {
    pub parent: Option<Slot>,
    pub first_child: Option<Slot>,
    pub next_sibling: Option<Slot>,
}

impl Link {
    /// No link at all.
    pub open spec fn unlinked() -> Link {
        Link { parent: None, first_child: None, next_sibling: None }
    }
}

impl Default for Link {
    fn default() -> (link: Link)
        ensures
            link == Link::unlinked(),
    {
        Link { parent: None, first_child: None, next_sibling: None }
    }
}

/// An item together with its links.
#[derive(Debug, Clone, PartialEq, Eq, Hash)]
pub struct Node<T> {
    data: T,
    link: Link,
}

impl<T> Node<T> {
    /// The node made of `data` and `link`.
    pub closed spec fn join(data: T, link: Link) -> Self {
        Node { data, link }
    }

    /// The node's item.
    pub closed spec fn spec_data(self) -> T {
        self.data
    }

    /// The node's links.
    pub closed spec fn spec_link(self) -> Link {
        self.link
    }

    /// A node is its item and its links and nothing else.
    pub proof fn lemma_join(self)
        ensures
            self == Self::join(self.spec_data(), self.spec_link()),
            forall|data: T, link: Link|
                (#[trigger] Self::join(data, link)).spec_data() == data && Self::join(
                    data,
                    link,
                ).spec_link() == link,
    {
    }

    /// A node without links.
    pub fn root(data: T) -> (node: Self)
        ensures
            node == Self::join(data, Link::unlinked()),
    {
        Node { data, link: Link::default() }
    }
}

/// Nodes in a pool.
pub struct Tree<T> {
    nodes: Pool<Node<T>>,
    root: Link,
}

impl<T> Tree<T> {
    /// The pool of nodes, as plain values.
    pub closed spec fn nodes(&self) -> PoolView<Node<T>> {
        self.nodes@
    }

    /// The links of the tree's root.
    pub closed spec fn root_link(&self) -> Link {
        self.root
    }

    /// The tree's invariant: that of its pool.
    pub closed spec fn wf(&self) -> bool {
        self.nodes.wf()
    }

    /// The pool's invariant holds of the nodes of a tree that is well formed.
    pub proof fn lemma_wf(&self)
        requires
            self.wf(),
        ensures
            self.nodes().wf(),
    {
    }

    /// A tree without nodes.
    pub fn with_capacity(cap: usize) -> (tree: Self)
        ensures
            tree.wf(),
            tree.nodes().entries.len() == 0,
            tree.nodes().last_generation == 0,
            tree.nodes().passed_over == 0,
            tree.root_link() == Link::unlinked(),
    {
        Tree { nodes: Pool::with_capacity(cap), root: Link::default() }
    }

    /// Whether another node can be inserted: whether the generation counter
    /// of the tree's pool has a generation left to give.
    pub fn has_generation_left(&self) -> (left: bool)
        ensures
            left == (self.nodes().last_generation < u32::MAX),
    {
        self.nodes.has_generation_left()
    }

    pub fn node_by_slot(&self, slot: Slot) -> (node: Option<&Node<T>>)
        ensures
            (match node {
                Some(n) => self.nodes().item_at(slot@) == Some(*n),
                None => self.nodes().item_at(slot@) is None,
            }),
    {
        self.nodes.get_by_slot(slot)
    }

    pub fn node_mut_by_slot(&mut self, slot: Slot) -> (node: Option<&mut Node<T>>)
        requires
            old(self).wf(),
        ensures
            final(self).wf(),
            final(self).root_link() == old(self).root_link(),
            (match node {
                Some(n) => {
                    &&& old(self).nodes().item_at(slot@) == Some(*n)
                    &&& final(self).nodes() == old(self).nodes().with_item(slot@, *final(n))
                },
                None => {
                    &&& old(self).nodes().item_at(slot@) is None
                    &&& final(self).nodes() == old(self).nodes()
                },
            }),
    {
        self.nodes.get_mut_by_slot(slot)
    }

    pub fn data_by_slot(&self, slot: Slot) -> (data: Option<&T>)
        ensures
            (match data {
                Some(x) => self.nodes().item_at(slot@) is Some && self.nodes().item_at(
                    slot@,
                )->0.spec_data() == *x,
                None => self.nodes().item_at(slot@) is None,
            }),
    {
        match self.node_by_slot(slot) {
            Some(n) => Some(&n.data),
            None => None,
        }
    }

    pub fn data_mut_by_slot(&mut self, slot: Slot) -> (data: Option<&mut T>)
        requires
            old(self).wf(),
        ensures
            final(self).wf(),
            final(self).root_link() == old(self).root_link(),
            (match data {
                Some(x) => {
                    &&& old(self).nodes().item_at(slot@) is Some
                    &&& old(self).nodes().item_at(slot@)->0.spec_data() == *x
                    &&& final(self).nodes() == old(self).nodes().with_item(
                        slot@,
                        Node::join(*final(x), old(self).nodes().item_at(slot@)->0.spec_link()),
                    )
                },
                None => {
                    &&& old(self).nodes().item_at(slot@) is None
                    &&& final(self).nodes() == old(self).nodes()
                },
            }),
    {
        match self.node_mut_by_slot(slot) {
            Some(n) => Some(&mut n.data),
            None => None,
        }
    }

    /// The links of the tree's root, mutably.
    pub fn root_mut(&mut self) -> (link: &mut Link)
        requires
            old(self).wf(),
        ensures
            final(self).wf(),
            *link == old(self).root_link(),
            final(self).root_link() == *final(link),
            final(self).nodes() == old(self).nodes(),
    {
        &mut self.root
    }

    /// The links of the node in `slot`, mutably; `None` when the slot holds
    /// no node.
    pub fn link_mut_by_slot(&mut self, slot: Slot) -> (link: Option<&mut Link>)
        requires
            old(self).wf(),
        ensures
            final(self).wf(),
            final(self).root_link() == old(self).root_link(),
            (match link {
                Some(l) => {
                    &&& old(self).nodes().item_at(slot@) is Some
                    &&& old(self).nodes().item_at(slot@)->0.spec_link() == *l
                    &&& final(self).nodes() == old(self).nodes().with_item(
                        slot@,
                        Node::join(old(self).nodes().item_at(slot@)->0.spec_data(), *final(l)),
                    )
                },
                None => {
                    &&& old(self).nodes().item_at(slot@) is None
                    &&& final(self).nodes() == old(self).nodes()
                },
            }),
    {
        match self.node_mut_by_slot(slot) {
            Some(n) => Some(&mut n.link),
            None => None,
        }
    }

    /// The links of the node that a strong handle refers to, mutably. The
    /// handle's slot must hold a node, so the result is always `Some`.
    ///
    /// The handle is used up: its reference is released as by
    /// [`Handle::release`].
    pub fn link_mut_by_id(&mut self, id: Handle<Node<T>>) -> (link: Option<&mut Link>)
        requires
            old(self).wf(),
            old(self).nodes().occupied(id.spec_slot()@ as int),
        ensures
            final(self).wf(),
            final(self).root_link() == old(self).root_link(),
            link is Some,
            old(self).nodes().item_at(id.spec_slot()@)->0.spec_link() == *link->0,
            final(self).nodes() == old(self).nodes().with_item(
                id.spec_slot()@,
                Node::join(
                    old(self).nodes().item_at(id.spec_slot()@)->0.spec_data(),
                    *final(link->0),
                ),
            ),
    {
        let node = self.nodes.index_mut(&id);
        id.release();
        Some(&mut node.link)
    }

    /// The links of the nodes in two slots, both mutably; `None` when either
    /// slot holds no node. The two slots must differ.
    pub fn link2_mut_by_slot(&mut self, s0: Slot, s1: Slot) -> (links: Option<
        (&mut Link, &mut Link),
    >)
        requires
            old(self).wf(),
            s0 != s1,
        ensures
            final(self).wf(),
            final(self).root_link() == old(self).root_link(),
            (match links {
                Some(pair) => {
                    &&& old(self).nodes().item_at(s0@) is Some
                    &&& old(self).nodes().item_at(s1@) is Some
                    &&& old(self).nodes().item_at(s0@)->0.spec_link() == *pair.0
                    &&& old(self).nodes().item_at(s1@)->0.spec_link() == *pair.1
                    &&& final(self).nodes() == old(self).nodes().with_item(
                        s0@,
                        Node::join(old(self).nodes().item_at(s0@)->0.spec_data(), *final(pair.0)),
                    ).with_item(
                        s1@,
                        Node::join(old(self).nodes().item_at(s1@)->0.spec_data(), *final(pair.1)),
                    )
                },
                None => {
                    &&& old(self).nodes().item_at(s0@) is None || old(self).nodes().item_at(s1@)
                        is None
                    &&& final(self).nodes() == old(self).nodes()
                },
            }),
    {
        match self.nodes.get2_mut_by_slot(s0, s1) {
            Some((n0, n1)) => Some((&mut n0.link, &mut n1.link)),
            None => None,
        }
    }

    /// Puts `item` into the tree as a node without links and returns a
    /// strong handle for the node.
    ///
    /// The generation counter of the tree's pool must not be exhausted.
    pub fn insert(&mut self, item: T) -> (handle: Handle<Node<T>>)
        requires
            old(self).wf(),
            old(self).nodes().last_generation < u32::MAX,
        ensures
            final(self).wf(),
            final(self).root_link() == old(self).root_link(),
            final(self).nodes() == old(self).nodes().allocate(
                Node::join(item, Link::unlinked()),
            ),
            old(self).nodes().is_first_free(old(self).nodes().first_free()),
            handle.spec_slot()@ == old(self).nodes().first_free(),
            handle.generation() == old(self).nodes().last_generation + 1,
    {
        let node = Node::root(item);
        self.nodes.add(node)
    }

    /// The node that a strong handle refers to. Its slot must hold a node.
    pub fn index(&self, handle: &Handle<Node<T>>) -> (node: &Node<T>)
        requires
            self.nodes().occupied(handle.spec_slot()@ as int),
        ensures
            self.nodes().item_at(handle.spec_slot()@) == Some(*node),
    {
        self.nodes.index(handle)
    }

    /// The node that a strong handle refers to, mutably. Its slot must hold
    /// a node.
    pub fn index_mut(&mut self, handle: &Handle<Node<T>>) -> (node: &mut Node<T>)
        requires
            old(self).wf(),
            old(self).nodes().occupied(handle.spec_slot()@ as int),
        ensures
            final(self).wf(),
            final(self).root_link() == old(self).root_link(),
            old(self).nodes().item_at(handle.spec_slot()@) == Some(*node),
            final(self).nodes() == old(self).nodes().with_item(
                handle.spec_slot()@,
                *final(node),
            ),
    {
        self.nodes.index_mut(handle)
    }
}

} // verus!

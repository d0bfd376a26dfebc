//! The interface between the solver and the tree it lays out, and the
//! mathematical model of such a tree.

use vstd::prelude::*;
use crate::geometry::Size;
use crate::layout::{Cache, Layout, CACHE_SIZE};
use crate::node::Node;
use crate::style::{AvailableSpace, Style};

verus! {

/// What a layout pass reads of a tree and never changes: which nodes there
/// are, their children in declared order, their styles, and what the host
/// measures its leaves to be.
pub struct Structure {
    /// The handles the tree accepts.
    pub nodes: Set<Node>,
    /// The children of each node, in declared order.
    pub children: Map<Node, Seq<Node>>,
    /// The style of each node.
    pub styles: Map<Node, Style>,
    /// A height for each node that exceeds the height of each of its
    /// children: the witness that the tree has no cycle.
    pub rank: Map<Node, nat>,
    /// The nodes that the host measures itself.
    pub measurable: Set<Node>,
    /// The size the host measures a node to have, given the dimensions that
    /// are known and the space that is available.
    pub measure: spec_fn(Node, Size<Option<i64>>, Size<AvailableSpace>) -> Size<i64>,
}

/// What a layout pass writes: the layout and the cache of each node.
pub struct State {
    /// The layout of each node.
    pub layouts: Map<Node, Layout>,
    /// The cache entries of each node, by slot.
    pub caches: Map<Node, Seq<Option<Cache>>>,
}

impl Structure {
    /// Every node has a style and a rank, and children that are nodes of
    /// lower rank.
    pub open spec fn wf(self) -> bool {
        forall|n: Node| #[trigger]
            self.nodes.contains(n) ==> {
                &&& self.children.dom().contains(n)
                &&& self.styles.dom().contains(n)
                &&& self.rank.dom().contains(n)
                &&& self.children[n].len() <= usize::MAX
                &&& forall|i: int|
                    0 <= i < self.children[n].len() ==> {
                        &&& self.nodes.contains(#[trigger] self.children[n][i])
                        &&& self.rank[self.children[n][i]] < self.rank[n]
                    }
            }
    }

    /// Whether `node` has no children.
    pub open spec fn is_childless(self, node: Node) -> bool {
        self.children[node].len() == 0
    }
}

impl State {
    /// Every node has a layout and a cache of `CACHE_SIZE` slots.
    pub open spec fn wf(self, s: Structure) -> bool {
        forall|n: Node| #[trigger]
            s.nodes.contains(n) ==> {
                &&& self.layouts.dom().contains(n)
                &&& self.caches.dom().contains(n)
                &&& self.caches[n].len() == CACHE_SIZE
            }
    }

    /// The state with the layout of `node` replaced.
    pub open spec fn with_layout(self, node: Node, layout: Layout) -> State {
        State { layouts: self.layouts.insert(node, layout), caches: self.caches }
    }

    /// The state with one cache slot of `node` replaced.
    pub open spec fn with_cache(self, node: Node, slot: int, entry: Option<Cache>) -> State {
        State {
            layouts: self.layouts,
            caches: self.caches.insert(node, self.caches[node].update(slot, entry)),
        }
    }
}

/// A tree that the solver can lay out. The solver reads nodes, children,
/// styles and measurements, and writes layouts and cache entries.
pub trait LayoutTree {
    /// The part of the tree that a layout pass reads.
    spec fn structure(&self) -> Structure;

    /// The part of the tree that a layout pass writes.
    spec fn state(&self) -> State;

    /// Whether the tree accepts the handle.
    fn contains(&self, node: Node) -> (b: bool)
        ensures
            b == self.structure().nodes.contains(node),
    ;

    /// The number of children of `node`.
    fn child_count(&self, node: Node) -> (n: usize)
        requires
            self.structure().wf(),
            self.structure().nodes.contains(node),
        ensures
            n == self.structure().children[node].len(),
    ;

    /// The child of `node` at `index`.
    fn child(&self, node: Node, index: usize) -> (c: Node)
        requires
            self.structure().wf(),
            self.structure().nodes.contains(node),
            index < self.structure().children[node].len(),
        ensures
            c == self.structure().children[node][index as int],
    ;

    /// Whether `node` has no children.
    fn is_childless(&self, node: Node) -> (b: bool)
        requires
            self.structure().wf(),
            self.structure().nodes.contains(node),
        ensures
            b == self.structure().is_childless(node),
    ;

    /// The style of `node`.
    fn style(&self, node: Node) -> (s: Style)
        requires
            self.structure().wf(),
            self.structure().nodes.contains(node),
        ensures
            s == self.structure().styles[node],
    ;

    /// The layout of `node`.
    fn layout(&self, node: Node) -> (l: Layout)
        requires
            self.structure().wf(),
            self.state().wf(self.structure()),
            self.structure().nodes.contains(node),
        ensures
            l == self.state().layouts[node],
    ;

    /// Replaces the layout of `node`.
    fn set_layout(&mut self, node: Node, layout: Layout)
        requires
            old(self).structure().wf(),
            old(self).state().wf(old(self).structure()),
            old(self).structure().nodes.contains(node),
        ensures
            final(self).structure() == old(self).structure(),
            final(self).state() == old(self).state().with_layout(node, layout),
    ;

    /// The cache entry of `node` in `slot`.
    fn cache(&self, node: Node, slot: usize) -> (e: Option<Cache>)
        requires
            self.structure().wf(),
            self.state().wf(self.structure()),
            self.structure().nodes.contains(node),
            slot < CACHE_SIZE,
        ensures
            e == self.state().caches[node][slot as int],
    ;

    /// Replaces the cache entry of `node` in `slot`.
    fn set_cache(&mut self, node: Node, slot: usize, entry: Option<Cache>)
        requires
            old(self).structure().wf(),
            old(self).state().wf(old(self).structure()),
            old(self).structure().nodes.contains(node),
            slot < CACHE_SIZE,
        ensures
            final(self).structure() == old(self).structure(),
            final(self).state() == old(self).state().with_cache(node, slot as int, entry),
    ;

    /// Whether the host measures `node` itself.
    fn needs_measure(&self, node: Node) -> (b: bool)
        requires
            self.structure().wf(),
            self.structure().nodes.contains(node),
        ensures
            b == self.structure().measurable.contains(node),
    ;

    /// The size the host measures `node` to have.
    fn measure_node(
        &self,
        node: Node,
        known_dimensions: Size<Option<i64>>,
        available_space: Size<AvailableSpace>,
    ) -> (size: Size<i64>)
        requires
            self.structure().wf(),
            self.structure().nodes.contains(node),
            self.structure().measurable.contains(node),
        ensures
            size == (self.structure().measure)(node, known_dimensions, available_space),
    ;
}

} // verus!

//! Node identifiers, and a tree of nodes that owns their styles, layouts and
//! caches.

use vstd::prelude::*;
use crate::compute::compute_layout;
use crate::compute::layout_pass;
use crate::error::TaffyError;
use crate::laws::invariants::{cache_not_negative, not_negative, sizes_not_negative};
use crate::laws::shape::{lemma_single_parent_is_a_tree, separate, single_parent};
use crate::geometry::{unwrap_or, zero_size, Size};
use crate::layout::{with_order, Cache, Layout, CACHE_SIZE};
use crate::style::{AvailableSpace, Style};
use crate::tree::{LayoutTree, State, Structure};

verus! {

/// An opaque handle to a node of a host-owned tree.
#[derive(Clone, Copy, Debug, PartialEq, Eq, Structural, Hash)]
pub struct Node(pub usize);

/// What the tree holds of one node.
pub struct NodeData {
    style: Style,
    children: Vec<Node>,
    layout: Layout,
    cache: [Option<Cache>; 5],
    content: Option<Size<i64>>,
}

/// A tree of nodes. Nodes are made leaves first: the children of a node
/// exist before the node does, so the tree has no cycle.
pub struct Taffy {
    nodes: Vec<NodeData>,
}

/// The size that content of a given intrinsic size is measured to have:
/// the known dimensions stand, the others are those of the content.
pub open spec fn spec_measure_content(content: Size<i64>, known_dimensions: Size<Option<i64>>) -> Size<
    i64,
> {
    Size {
        width: unwrap_or(known_dimensions.width, content.width),
        height: unwrap_or(known_dimensions.height, content.height),
    }
}

/// The size that content of a given intrinsic size is measured to have.
#[verifier::when_used_as_spec(spec_measure_content)]
pub fn measure_content(content: Size<i64>, known_dimensions: Size<Option<i64>>) -> (r: Size<i64>)
    ensures
        r == spec_measure_content(content, known_dimensions),
{
    Size {
        width: unwrap_or(known_dimensions.width, content.width),
        height: unwrap_or(known_dimensions.height, content.height),
    }
}

/// Whether `node` is a child of a node of the tree.
pub open spec fn is_child(s: Structure, node: Node) -> bool {
    exists|p: Node, k: int|
        s.nodes.contains(p) && 0 <= k < s.children[p].len() && #[trigger] s.children[p][k] == node
}

/// Whether the first `upto` nodes of a list are nodes of the tree that are
/// not children yet, and no two of them are the same.
pub open spec fn can_adopt(s: Structure, children: Seq<Node>, upto: int) -> bool {
    &&& forall|i: int|
        0 <= i < upto ==> s.nodes.contains(#[trigger] children[i]) && !is_child(s, children[i])
    &&& forall|i: int, j: int| 0 <= i < j < upto ==> #[trigger] children[i] != #[trigger] children[j]
}

/// Whether a tree with structure `now` and state `got` is the tree that had
/// structure `was` and state `had`, with one node more: `node`, with the given
/// style, children and content, the zero layout and an empty cache.
pub open spec fn grown(
    was: Structure,
    had: State,
    now: Structure,
    got: State,
    node: Node,
    style: Style,
    children: Seq<Node>,
    content: Option<Size<i64>>,
) -> bool {
    &&& !was.nodes.contains(node)
    &&& now.nodes == was.nodes.insert(node)
    &&& now.children == was.children.insert(node, children)
    &&& now.styles == was.styles.insert(node, style)
    &&& now.measurable == (if content.is_some() {
        was.measurable.insert(node)
    } else {
        was.measurable
    })
    &&& forall|n: Node, known: Size<Option<i64>>, space: Size<AvailableSpace>|
        #[trigger] (now.measure)(n, known, space) == (if n == node {
            match content {
                Some(size) => measure_content(size, known),
                None => zero_size(),
            }
        } else {
            (was.measure)(n, known, space)
        })
    &&& got.layouts == had.layouts.insert(node, with_order(0))
    &&& got.caches == had.caches.insert(node, Seq::new(CACHE_SIZE as nat, |slot: int| None))
}

/// Tells whether a list holds a node.
pub fn occurs(list: &Vec<Node>, node: Node) -> (b: bool)
    ensures
        b == list@.contains(node),
{
    let mut k: usize = 0;
    while k < list.len()
        invariant
            k <= list@.len(),
            forall|j: int| 0 <= j < k ==> list@[j] != node,
        decreases list@.len() - k,
    {
        if list[k] == node {
            return true;
        }
        k = k + 1;
    }
    false
}

impl Taffy {
    /// The number of nodes.
    pub closed spec fn len(&self) -> nat {
        self.nodes@.len()
    }

    /// The tree is well-formed: every child of a node is a node, made
    /// before its parent; no node is a child twice; and every node has a
    /// layout and a cache.
    pub open spec fn wf(&self) -> bool {
        &&& self.structure().wf()
        &&& self.state().wf(self.structure())
        &&& single_parent(self.structure())
    }

    /// A well-formed tree is a tree: no node lies below two different
    /// children of one node.
    pub proof fn lemma_is_a_tree(&self)
        requires
            self.wf(),
        ensures
            separate(self.structure()),
    {
        lemma_single_parent_is_a_tree(self.structure());
    }

    /// Whether `node` is a child of a node of the tree.
    pub open spec fn has_parent(&self, node: Node) -> bool {
        is_child(self.structure(), node)
    }

    /// Tells whether `node` is a child of a node of the tree.
    pub fn is_placed(&self, node: Node) -> (b: bool)
        requires
            self.wf(),
        ensures
            b == self.has_parent(node),
    {
        let mut p: usize = 0;
        while p < self.nodes.len()
            invariant
                p <= self.nodes@.len(),
                forall|q: Node, k: int|
                    q.0 < p && 0 <= k < self.structure().children[q].len()
                        ==> #[trigger] self.structure().children[q][k] != node,
            decreases self.nodes@.len() - p,
        {
            let ghost parent = Node(p);
            let mut k: usize = 0;
            while k < self.nodes[p].children.len()
                invariant
                    p < self.nodes@.len(),
                    parent == Node(p),
                    k <= self.nodes@[p as int].children@.len(),
                    self.structure().children[parent] == self.nodes@[p as int].children@,
                    forall|j: int| 0 <= j < k ==> self.structure().children[parent][j] != node,
                decreases self.nodes@[p as int].children@.len() - k,
            {
                if self.nodes[p].children[k] == node {
                    assert(self.structure().nodes.contains(parent));
                    assert(self.structure().children[parent][k as int] == node);
                    return true;
                }
                k = k + 1;
            }
            assert forall|q: Node, j: int|
                q.0 < p + 1 && 0 <= j < self.structure().children[q].len()
                    implies #[trigger] self.structure().children[q][j] != node by {
                if q.0 == p {
                    assert(q == parent);
                }
            }
            p = p + 1;
        }
        assert(!is_child(self.structure(), node)) by {
            if is_child(self.structure(), node) {
                let (q, k) = choose|q: Node, k: int|
                    self.structure().nodes.contains(q) && 0 <= k < self.structure().children[q].len()
                        && #[trigger] self.structure().children[q][k] == node;
                assert(q.0 < self.nodes@.len());
            }
        }
        false
    }

    /// The nodes of a tree are those with an index below its length.
    pub proof fn lemma_nodes(&self)
        ensures
            forall|n: Node| self.structure().nodes.contains(n) <==> n.0 < self.len(),
    {
    }

    /// A tree without nodes.
    pub fn new() -> (tree: Taffy)
        ensures
            tree.wf(),
            tree.len() == 0,
            sizes_not_negative(tree.structure(), tree.state()),
    {
        let tree = Taffy { nodes: Vec::new() };
        proof {
            reveal(sizes_not_negative);
        }
        tree
    }

    /// The number of nodes of the tree.
    pub fn node_count(&self) -> (n: usize)
        ensures
            n == self.len(),
    {
        self.nodes.len()
    }

    fn add(&mut self, style: Style, children: Vec<Node>, content: Option<Size<i64>>) -> (node: Node)
        requires
            old(self).wf(),
            can_adopt(old(self).structure(), children@, children@.len() as int),
        ensures
            final(self).wf(),
            final(self).len() == old(self).len() + 1,
            node == Node(old(self).len() as usize),
            grown(
                old(self).structure(),
                old(self).state(),
                final(self).structure(),
                final(self).state(),
                node,
                style,
                children@,
                content,
            ),
            sizes_not_negative(old(self).structure(), old(self).state()) ==> sizes_not_negative(
                final(self).structure(),
                final(self).state(),
            ),
    {
        let node = Node(self.nodes.len());
        let ghost before = self.nodes@;
        let count = children.len();
        self.nodes.push(
            NodeData {
                style,
                children,
                layout: with_order(0),
                cache: [None, None, None, None, None],
                content,
            },
        );
        proof {
            let s = self.structure();
            let was = old(self).structure();
            let st = self.state();
            let had = old(self).state();
            assert forall|i: int| 0 <= i < before.len() implies #[trigger] self.nodes@[i]
                == before[i] by {}
            assert forall|i: int| 0 <= i < children@.len() implies (#[trigger] children@[i]).0
                < before.len() by {
                assert(was.nodes.contains(children@[i]));
            }
            assert forall|p: Node, i: int, q: Node, j: int|
                #![trigger s.children[p][i], s.children[q][j]]
                s.nodes.contains(p) && s.nodes.contains(q) && 0 <= i < s.children[p].len() && 0
                    <= j < s.children[q].len() && s.children[p][i] == s.children[q][j] implies p
                == q && i == j by {
                if p.0 < before.len() {
                    assert(was.nodes.contains(p));
                    assert(s.children[p] == was.children[p]);
                } else {
                    assert(p == node);
                    assert(s.children[p] == children@);
                }
                if q.0 < before.len() {
                    assert(was.nodes.contains(q));
                    assert(s.children[q] == was.children[q]);
                } else {
                    assert(q == node);
                    assert(s.children[q] == children@);
                }
                if p.0 < before.len() && q.0 < before.len() {
                    assert(was.children[p][i] == was.children[q][j]);
                } else if p.0 < before.len() {
                    assert(was.children[p][i] == children@[j]);
                    assert(is_child(was, children@[j]));
                } else if q.0 < before.len() {
                    assert(was.children[q][j] == children@[i]);
                    assert(is_child(was, children@[i]));
                } else {
                    if i < j {
                        assert(children@[i] != children@[j]);
                    } else if j < i {
                        assert(children@[j] != children@[i]);
                    }
                }
            }
            assert forall|n: Node| #[trigger] s.nodes.contains(n) implies {
                &&& s.children.dom().contains(n)
                &&& s.styles.dom().contains(n)
                &&& s.rank.dom().contains(n)
                &&& s.children[n].len() <= usize::MAX
                &&& forall|i: int|
                    0 <= i < s.children[n].len() ==> {
                        &&& s.nodes.contains(#[trigger] s.children[n][i])
                        &&& s.rank[s.children[n][i]] < s.rank[n]
                    }
            } by {
                if n.0 < before.len() {
                    assert(self.nodes@[n.0 as int] == before[n.0 as int]);
                    assert(was.nodes.contains(n));
                    assert(s.children[n] == was.children[n]);
                    assert forall|i: int| 0 <= i < s.children[n].len() implies {
                        &&& s.nodes.contains(#[trigger] s.children[n][i])
                        &&& s.rank[s.children[n][i]] < s.rank[n]
                    } by {
                        let c = was.children[n][i];
                        assert(was.nodes.contains(c));
                        assert(was.rank[c] < was.rank[n]);
                    }
                } else {
                    assert(n.0 == before.len());
                    assert(s.children[n] == children@);
                    assert(count == children@.len());
                    assert forall|i: int| 0 <= i < s.children[n].len() implies {
                        &&& s.nodes.contains(#[trigger] s.children[n][i])
                        &&& s.rank[s.children[n][i]] < s.rank[n]
                    } by {
                        assert(children@[i].0 < before.len());
                    }
                }
            }
            assert forall|n: Node| #[trigger] s.nodes.contains(n) implies {
                &&& st.layouts.dom().contains(n)
                &&& st.caches.dom().contains(n)
                &&& st.caches[n].len() == CACHE_SIZE
            } by {}
            assert(s.nodes =~= was.nodes.insert(node));
            assert(s.children =~= was.children.insert(node, children@));
            assert(s.styles =~= was.styles.insert(node, style));
            assert(s.measurable =~= (if content.is_some() {
                was.measurable.insert(node)
            } else {
                was.measurable
            }));
            assert(st.layouts =~= had.layouts.insert(node, with_order(0)));
            assert(self.nodes@[node.0 as int].cache@ =~= Seq::new(
                CACHE_SIZE as nat,
                |slot: int| None::<Cache>,
            ));
            assert(st.caches =~= had.caches.insert(
                node,
                Seq::new(CACHE_SIZE as nat, |slot: int| None),
            ));
            reveal(sizes_not_negative);
            if sizes_not_negative(was, had) {
                assert forall|n: Node| s.nodes.contains(n) implies not_negative(
                    (#[trigger] st.layouts[n]).size,
                ) by {
                    if n.0 < before.len() {
                        assert(was.nodes.contains(n));
                        assert(st.layouts[n] == had.layouts[n]);
                    }
                }
                assert forall|n: Node| s.nodes.contains(n) implies cache_not_negative(
                    #[trigger] st.caches[n],
                ) by {
                    if n.0 < before.len() {
                        assert(was.nodes.contains(n));
                        assert(st.caches[n] == had.caches[n]);
                    }
                }
            }
        }
        node
    }

    /// Adds a node without children and returns its handle.
    pub fn new_leaf(&mut self, style: Style) -> (r: Result<Node, TaffyError>)
        requires
            old(self).wf(),
        ensures
            final(self).wf(),
            final(self).len() == old(self).len() + 1,
            r == Ok::<Node, TaffyError>(Node(old(self).len() as usize)),
            grown(
                old(self).structure(),
                old(self).state(),
                final(self).structure(),
                final(self).state(),
                r.unwrap(),
                style,
                Seq::empty(),
                None,
            ),
            sizes_not_negative(old(self).structure(), old(self).state()) ==> sizes_not_negative(
                final(self).structure(),
                final(self).state(),
            ),
    {
        Ok(self.add(style, Vec::new(), None))
    }

    /// Adds a node without children whose content has the given intrinsic
    /// size, and returns its handle.
    pub fn new_leaf_with_content(&mut self, style: Style, content: Size<i64>) -> (r: Result<
        Node,
        TaffyError,
    >)
        requires
            old(self).wf(),
        ensures
            final(self).wf(),
            final(self).len() == old(self).len() + 1,
            r == Ok::<Node, TaffyError>(Node(old(self).len() as usize)),
            grown(
                old(self).structure(),
                old(self).state(),
                final(self).structure(),
                final(self).state(),
                r.unwrap(),
                style,
                Seq::empty(),
                Some(content),
            ),
            sizes_not_negative(old(self).structure(), old(self).state()) ==> sizes_not_negative(
                final(self).structure(),
                final(self).state(),
            ),
    {
        Ok(self.add(style, Vec::new(), Some(content)))
    }

    /// Adds a node with the given children, in order, and returns its
    /// handle. Fails, and adds nothing, where one of the children cannot be
    /// adopted: it is no node of the tree, it is a child of a node already,
    /// or it stands in the list twice. The error names the first such child.
    pub fn new_with_children(&mut self, style: Style, children: &[Node]) -> (r: Result<
        Node,
        TaffyError,
    >)
        requires
            old(self).wf(),
        ensures
            final(self).wf(),
            sizes_not_negative(old(self).structure(), old(self).state()) ==> sizes_not_negative(
                final(self).structure(),
                final(self).state(),
            ),
            match r {
                Ok(node) => {
                    &&& can_adopt(old(self).structure(), children@, children@.len() as int)
                    &&& node == Node(old(self).len() as usize)
                    &&& final(self).len() == old(self).len() + 1
                    &&& grown(
                        old(self).structure(),
                        old(self).state(),
                        final(self).structure(),
                        final(self).state(),
                        node,
                        style,
                        children@,
                        None,
                    )
                },
                Err(e) => {
                    &&& exists|i: int|
                        0 <= i < children@.len() && can_adopt(old(self).structure(), children@, i)
                            && !can_adopt(old(self).structure(), children@, i + 1) && e
                            == TaffyError::InvalidInputNode(#[trigger] children@[i])
                    &&& final(self).len() == old(self).len()
                    &&& final(self).structure() == old(self).structure()
                    &&& final(self).state() == old(self).state()
                },
            },
    {
        let mut list: Vec<Node> = Vec::new();
        let mut i: usize = 0;
        while i < children.len()
            invariant
                i <= children@.len(),
                list@ == children@.take(i as int),
                *self == *old(self),
                self.wf(),
                can_adopt(self.structure(), children@, i as int),
            decreases children@.len() - i,
        {
            let child = children[i];
            if child.0 >= self.nodes.len() || self.is_placed(child) || occurs(&list, child) {
                proof {
                    let s = self.structure();
                    if list@.contains(child) {
                        let k = choose|k: int| 0 <= k < list@.len() && list@[k] == child;
                        assert(children@[k] == children@[i as int]);
                    }
                    assert(!can_adopt(s, children@, i + 1));
                    assert(children@[i as int] == child);
                }
                return Err(TaffyError::InvalidInputNode(child));
            }
            list.push(child);
            proof {
                assert(children@.take(i as int + 1) =~= children@.take(i as int).push(child));
                let s = self.structure();
                assert forall|a: int, b: int| 0 <= a < b < i + 1 implies #[trigger] children@[a]
                    != #[trigger] children@[b] by {
                    if b == i {
                        assert(children@.take(i as int)[a] == children@[a]);
                        assert(!children@.take(i as int).contains(child));
                    }
                }
            }
            i = i + 1;
        }
        assert(children@.take(children@.len() as int) =~= children@);
        Ok(self.add(style, list, None))
    }

    /// The layout of `node`; an error where the tree does not hold it.
    pub fn layout(&self, node: Node) -> (r: Result<Layout, TaffyError>)
        ensures
            self.structure().nodes.contains(node) ==> r == Ok::<Layout, TaffyError>(
                self.state().layouts[node],
            ),
            !self.structure().nodes.contains(node) ==> r == Err::<Layout, TaffyError>(
                TaffyError::InvalidInputNode(node),
            ),
    {
        if node.0 < self.nodes.len() {
            Ok(self.nodes[node.0].layout)
        } else {
            Err(TaffyError::InvalidInputNode(node))
        }
    }

    /// Lays out the tree from `root` down and rounds the layouts. Fails, and
    /// leaves the tree as it is, where the tree does not hold `root`.
    pub fn compute_layout(&mut self, root: Node, available_space: Size<AvailableSpace>) -> (r:
        Result<(), TaffyError>)
        requires
            old(self).wf(),
        ensures
            final(self).wf(),
            final(self).structure() == old(self).structure(),
            old(self).structure().nodes.contains(root) ==> r == Ok::<(), TaffyError>(())
                && final(self).state() == layout_pass(
                old(self).structure(),
                old(self).state(),
                root,
                available_space,
            ),
            !old(self).structure().nodes.contains(root) ==> r == Err::<(), TaffyError>(
                TaffyError::InvalidInputNode(root),
            ) && final(self).state() == old(self).state(),
            sizes_not_negative(old(self).structure(), old(self).state()) ==> sizes_not_negative(
                final(self).structure(),
                final(self).state(),
            ),
    {
        compute_layout(self, root, available_space)
    }
}

impl LayoutTree for Taffy {
    closed spec fn structure(&self) -> Structure {
        Structure {
            nodes: Set::new(|n: Node| n.0 < self.nodes@.len()),
            children: Map::new(
                |n: Node| n.0 < self.nodes@.len(),
                |n: Node| self.nodes@[n.0 as int].children@,
            ),
            styles: Map::new(
                |n: Node| n.0 < self.nodes@.len(),
                |n: Node| self.nodes@[n.0 as int].style,
            ),
            rank: Map::new(|n: Node| n.0 < self.nodes@.len(), |n: Node| n.0 as nat),
            measurable: Set::new(
                |n: Node| n.0 < self.nodes@.len() && self.nodes@[n.0 as int].content.is_some(),
            ),
            measure: |n: Node, known: Size<Option<i64>>, space: Size<AvailableSpace>|
                if n.0 < self.nodes@.len() {
                    match self.nodes@[n.0 as int].content {
                        Some(content) => measure_content(content, known),
                        None => zero_size(),
                    }
                } else {
                    zero_size()
                },
        }
    }

    closed spec fn state(&self) -> State {
        State {
            layouts: Map::new(
                |n: Node| n.0 < self.nodes@.len(),
                |n: Node| self.nodes@[n.0 as int].layout,
            ),
            caches: Map::new(
                |n: Node| n.0 < self.nodes@.len(),
                |n: Node| self.nodes@[n.0 as int].cache@,
            ),
        }
    }

    fn contains(&self, node: Node) -> (b: bool) {
        node.0 < self.nodes.len()
    }

    fn child_count(&self, node: Node) -> (n: usize) {
        self.nodes[node.0].children.len()
    }

    fn child(&self, node: Node, index: usize) -> (c: Node) {
        self.nodes[node.0].children[index]
    }

    fn is_childless(&self, node: Node) -> (b: bool) {
        self.nodes[node.0].children.len() == 0
    }

    fn style(&self, node: Node) -> (s: Style) {
        self.nodes[node.0].style
    }

    fn layout(&self, node: Node) -> (l: Layout) {
        self.nodes[node.0].layout
    }

    fn set_layout(&mut self, node: Node, layout: Layout) {
        let ghost before = self.nodes@;
        assert(node.0 < before.len());
        self.nodes[node.0].layout = layout;
        proof {
            assert(self.nodes@.len() == before.len());
            assert forall|i: int| 0 <= i < before.len() && i != node.0 implies self.nodes@[i]
                == before[i] by {}
            let a = self.structure();
            let b = old(self).structure();
            assert(a.nodes =~= b.nodes);
            assert(a.children =~= b.children);
            assert(a.styles =~= b.styles);
            assert(a.rank =~= b.rank);
            assert(a.measurable =~= b.measurable);
            assert forall|n: Node, known: Size<Option<i64>>, space: Size<AvailableSpace>|
                #[trigger] (a.measure)(n, known, space) == (b.measure)(n, known, space) by {
                if n.0 < before.len() {
                    assert(self.nodes@[n.0 as int].content == before[n.0 as int].content);
                }
            }
            assert(a.measure =~= b.measure);
            assert(self.state().layouts =~= old(self).state().with_layout(node, layout).layouts);
            assert(self.state().caches =~= old(self).state().with_layout(node, layout).caches);
        }
    }

    fn cache(&self, node: Node, slot: usize) -> (e: Option<Cache>) {
        self.nodes[node.0].cache[slot]
    }

    fn set_cache(&mut self, node: Node, slot: usize, entry: Option<Cache>) {
        let ghost before = self.nodes@;
        assert(node.0 < before.len());
        self.nodes[node.0].cache[slot] = entry;
        proof {
            assert(self.nodes@.len() == before.len());
            assert forall|i: int| 0 <= i < before.len() && i != node.0 implies self.nodes@[i]
                == before[i] by {}
            let a = self.structure();
            let b = old(self).structure();
            assert(a.nodes =~= b.nodes);
            assert(a.children =~= b.children);
            assert(a.styles =~= b.styles);
            assert(a.rank =~= b.rank);
            assert(a.measurable =~= b.measurable);
            assert forall|n: Node, known: Size<Option<i64>>, space: Size<AvailableSpace>|
                #[trigger] (a.measure)(n, known, space) == (b.measure)(n, known, space) by {
                if n.0 < before.len() {
                    assert(self.nodes@[n.0 as int].content == before[n.0 as int].content);
                }
            }
            assert(a.measure =~= b.measure);
            let want = old(self).state().with_cache(node, slot as int, entry);
            assert(self.nodes@[node.0 as int].cache@ =~= before[node.0 as int].cache@.update(
                slot as int,
                entry,
            ));
            assert(self.state().layouts =~= want.layouts);
            assert(self.state().caches =~= want.caches);
        }
    }

    fn needs_measure(&self, node: Node) -> (b: bool) {
        self.nodes[node.0].content.is_some()
    }

    fn measure_node(
        &self,
        node: Node,
        known_dimensions: Size<Option<i64>>,
        available_space: Size<AvailableSpace>,
    ) -> (size: Size<i64>) {
        match self.nodes[node.0].content {
            Some(content) => measure_content(content, known_dimensions),
            None => zero_size(),
        }
    }
}

} // verus!

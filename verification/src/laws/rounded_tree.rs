//! In a tree, a layout pass rounds the children of a node together, so that
//! children that touch stay touching.

use vstd::prelude::*;
use crate::compute::{
    absolute, layout_pass, round_children, round_node, rounded, solved_pass, visitable,
};
use crate::geometry::{zero_point, Point, Size};
use crate::laws::bounded_tree::{
    lemma_children_keep_rank, lemma_round_children_inside, lemma_round_node_inside,
};
use crate::laws::hidden::{descends, reaches};
use crate::laws::rounding::{in_range, lemma_touching_siblings_have_touching_layouts};
use crate::laws::shape::{
    lemma_child_descends, lemma_children_are_apart, lemma_descends_through_a_child,
    lemma_reaches_ranks, separate,
};
use crate::node::Node;
use crate::style::AvailableSpace;
use crate::tree::{State, Structure};

verus! {

/// Whether the layout of every child of `parent` in `b` is its layout in
/// `a`, rounded with `parent` at the position `origin`.
pub open spec fn rounded_at(s: Structure, a: State, b: State, parent: Node, origin: Point<i64>) -> bool {
    forall|i: int|
        0 <= i < s.children[parent].len() ==> b.layouts[#[trigger] s.children[parent][i]] == rounded(
            a.layouts[s.children[parent][i]],
            absolute(origin, a.layouts[s.children[parent][i]]),
        )
}

/// Whether the layouts of the children of `parent` in `b` are their layouts
/// in `a`, all rounded with `parent` at one position.
pub open spec fn rounded_together(s: Structure, a: State, b: State, parent: Node) -> bool {
    exists|origin: Point<i64>| rounded_at(s, a, b, parent, origin)
}

/// After rounding from a node down, the node has its layout rounded at its
/// position.
pub proof fn lemma_round_node_own_layout(s: Structure, st: State, node: Node, origin: Point<i64>)
    requires
        s.wf(),
        s.nodes.contains(node),
    ensures
        round_node(s, st, node, origin).layouts[node] == rounded(
            st.layouts[node],
            absolute(origin, st.layouts[node]),
        ),
{
    let layout = st.layouts[node];
    let abs = absolute(origin, layout);
    let first = st.with_layout(node, rounded(layout, abs));
    lemma_round_children_inside(s, first, node, abs, s.children[node].len());
    lemma_children_keep_rank(s, node);
    assert(round_node(s, st, node, origin) == round_children(
        s,
        first,
        node,
        abs,
        s.children[node].len(),
    ));
}

/// In a tree, after the first so many children of a node have been rounded,
/// each of them has its layout rounded with the node at its position, and
/// the others have the layouts they had.
pub proof fn lemma_round_children_own_layouts(
    s: Structure,
    st: State,
    node: Node,
    abs: Point<i64>,
    upto: nat,
)
    requires
        s.wf(),
        separate(s),
        s.nodes.contains(node),
        upto <= s.children[node].len(),
    ensures
        forall|i: int|
            0 <= i < s.children[node].len() ==> round_children(s, st, node, abs, upto).layouts[#[trigger] s.children[node][i]]
                == (if i < upto {
                rounded(
                    st.layouts[s.children[node][i]],
                    absolute(abs, st.layouts[s.children[node][i]]),
                )
            } else {
                st.layouts[s.children[node][i]]
            }),
    decreases upto,
{
    if upto > 0 {
        let k = upto - 1;
        let before = round_children(s, st, node, abs, k as nat);
        let child = s.children[node][k];
        assert(visitable(s, node, child));
        let after = round_node(s, before, child, abs);
        assert(round_children(s, st, node, abs, upto) == after);
        lemma_round_children_own_layouts(s, st, node, abs, k as nat);
        lemma_round_node_own_layout(s, before, child, abs);
        lemma_round_node_inside(s, before, child, abs);
        assert forall|i: int| 0 <= i < s.children[node].len() implies after.layouts[#[trigger] s.children[node][i]]
            == (if i < upto {
            rounded(st.layouts[s.children[node][i]], absolute(abs, st.layouts[s.children[node][i]]))
        } else {
            st.layouts[s.children[node][i]]
        }) by {
            if i != k {
                lemma_children_are_apart(s, node, k, i);
                assert(after.layouts[s.children[node][i]] == before.layouts[s.children[node][i]]);
            }
        }
    } else {
        assert(round_children(s, st, node, abs, upto) == st);
    }
}

/// In a tree, rounding from a node down rounds the children of the node
/// together, at the position of the node.
pub proof fn lemma_round_node_rounds_children(
    s: Structure,
    st: State,
    node: Node,
    origin: Point<i64>,
)
    requires
        s.wf(),
        separate(s),
        s.nodes.contains(node),
    ensures
        rounded_at(
            s,
            st,
            round_node(s, st, node, origin),
            node,
            absolute(origin, st.layouts[node]),
        ),
{
    let layout = st.layouts[node];
    let abs = absolute(origin, layout);
    let first = st.with_layout(node, rounded(layout, abs));
    let count = s.children[node].len();
    lemma_round_children_own_layouts(s, first, node, abs, count);
    assert(round_node(s, st, node, origin) == round_children(s, first, node, abs, count));
    assert forall|i: int| 0 <= i < count implies first.layouts[#[trigger] s.children[node][i]]
        == st.layouts[s.children[node][i]] by {
        assert(s.nodes.contains(s.children[node][i]));
    }
}

/// In a tree, rounding from a node down rounds the children of every node
/// at or below it together.
pub proof fn lemma_round_node_together(
    s: Structure,
    st: State,
    node: Node,
    origin: Point<i64>,
    parent: Node,
)
    requires
        s.wf(),
        separate(s),
        s.nodes.contains(node),
        reaches(s, node, parent),
    ensures
        rounded_together(s, st, round_node(s, st, node, origin), parent),
    decreases s.rank[node], 1nat, 0nat,
{
    let layout = st.layouts[node];
    let abs = absolute(origin, layout);
    if parent == node {
        lemma_round_node_rounds_children(s, st, node, origin);
        assert(rounded_at(s, st, round_node(s, st, node, origin), parent, abs));
    } else {
        let first = st.with_layout(node, rounded(layout, abs));
        let count = s.children[node].len();
        lemma_round_children_together(s, first, node, abs, count, parent);
        lemma_reaches_ranks(s, node, parent);
        let after = round_node(s, st, node, origin);
        let o = choose|o: Point<i64>| rounded_at(s, first, after, parent, o);
        assert forall|i: int| 0 <= i < s.children[parent].len() implies first.layouts[#[trigger] s.children[parent][i]]
            == st.layouts[s.children[parent][i]] by {
            assert(s.nodes.contains(s.children[parent][i]));
            assert(s.rank[s.children[parent][i]] < s.rank[parent]);
        }
        assert(rounded_at(s, st, after, parent, o));
    }
}

/// In a tree, rounding the children of a node rounds the children of every
/// node below them together.
pub proof fn lemma_round_children_together(
    s: Structure,
    st: State,
    node: Node,
    abs: Point<i64>,
    upto: nat,
    parent: Node,
)
    requires
        s.wf(),
        separate(s),
        s.nodes.contains(node),
        upto <= s.children[node].len(),
        descends(s, node, parent, upto),
    ensures
        rounded_together(s, st, round_children(s, st, node, abs, upto), parent),
    decreases s.rank[node], 0nat, upto,
{
    let k = upto - 1;
    let before = round_children(s, st, node, abs, k as nat);
    let child = s.children[node][k];
    assert(visitable(s, node, child));
    let after = round_node(s, before, child, abs);
    assert(round_children(s, st, node, abs, upto) == after);
    lemma_round_children_inside(s, st, node, abs, k as nat);
    lemma_round_node_inside(s, before, child, abs);
    if reaches(s, child, parent) {
        // The children of `parent` lie below this child: the children before
        // it have not touched them.
        lemma_round_node_together(s, before, child, abs, parent);
        let o = choose|o: Point<i64>| rounded_at(s, before, after, parent, o);
        lemma_reaches_ranks(s, child, parent);
        assert forall|i: int| 0 <= i < s.children[parent].len() implies before.layouts[#[trigger] s.children[parent][i]]
            == st.layouts[s.children[parent][i]] by {
            let x = s.children[parent][i];
            assert(s.nodes.contains(x));
            assert(reaches(s, x, x));
            lemma_child_descends(s, parent, x, i, s.children[parent].len());
            crate::laws::shape::lemma_reaches_is_transitive(s, child, parent, x);
            if descends(s, node, x, k as nat) {
                lemma_descends_through_a_child(s, node, x, k as nat);
                let j = choose|j: int|
                    0 <= j < k && visitable(s, node, #[trigger] s.children[node][j]) && reaches(
                        s,
                        s.children[node][j],
                        x,
                    );
                assert(!(reaches(s, s.children[node][j], x) && reaches(s, s.children[node][k], x)));
            }
        }
        assert(rounded_at(s, st, after, parent, o));
    } else {
        // The children of `parent` lie below an earlier child: this child
        // does not touch them.
        lemma_round_children_together(s, st, node, abs, k as nat, parent);
        let o = choose|o: Point<i64>| rounded_at(s, st, before, parent, o);
        lemma_descends_through_a_child(s, node, parent, k as nat);
        let j = choose|j: int|
            0 <= j < k && visitable(s, node, #[trigger] s.children[node][j]) && reaches(
                s,
                s.children[node][j],
                parent,
            );
        lemma_reaches_ranks(s, s.children[node][j], parent);
        assert forall|i: int| 0 <= i < s.children[parent].len() implies after.layouts[#[trigger] s.children[parent][i]]
            == before.layouts[s.children[parent][i]] by {
            let x = s.children[parent][i];
            assert(s.nodes.contains(x));
            assert(reaches(s, x, x));
            lemma_child_descends(s, parent, x, i, s.children[parent].len());
            crate::laws::shape::lemma_reaches_is_transitive(s, s.children[node][j], parent, x);
            assert(!(reaches(s, s.children[node][j], x) && reaches(s, s.children[node][k], x)));
        }
        assert(rounded_at(s, st, after, parent, o));
    }
}

/// A layout pass rounds siblings together.
///
/// In a tree, let `parent` be a node at or below `root`. Then there is one
/// position such that after a layout pass from `root` the layout of every
/// child of `parent` is the layout that the solver gave it, rounded with
/// `parent` at that position. So what holds of two layouts that are rounded
/// under one parent holds of every two siblings after a pass: where they
/// touched before rounding, they touch after it.
pub proof fn lemma_pass_rounds_siblings_together(
    s: Structure,
    st: State,
    root: Node,
    available_space: Size<AvailableSpace>,
    parent: Node,
)
    requires
        s.wf(),
        separate(s),
        s.nodes.contains(root),
        reaches(s, root, parent),
    ensures
        rounded_together(
            s,
            solved_pass(s, st, root, available_space),
            layout_pass(s, st, root, available_space),
            parent,
        ),
{
    lemma_round_node_together(
        s,
        solved_pass(s, st, root, available_space),
        root,
        zero_point(),
        parent,
    );
}

/// After a layout pass, children of the root that touched before rounding
/// have layouts that touch.
///
/// In a tree, let `a` and `b` be children of `root` whose layouts, as the
/// solver gave them, touch along an axis: `b` starts where `a` ends. Then
/// after the pass the location of `a` plus its size is the location of `b`
/// along that axis, with no seam and no overlap, where no coordinate is
/// negative and the far edge lies within range.
pub proof fn lemma_children_of_the_root_stay_touching(
    s: Structure,
    st: State,
    root: Node,
    available_space: Size<AvailableSpace>,
    i: int,
    j: int,
)
    requires
        s.wf(),
        separate(s),
        s.nodes.contains(root),
        0 <= i < s.children[root].len(),
        0 <= j < s.children[root].len(),
    ensures
        ({
            let before = solved_pass(s, st, root, available_space);
            let after = layout_pass(s, st, root, available_space);
            let a = before.layouts[s.children[root][i]];
            let b = before.layouts[s.children[root][j]];
            let ra = after.layouts[s.children[root][i]];
            let rb = after.layouts[s.children[root][j]];
            &&& a.location.x >= 0 && a.size.width >= 0 && b.location.x == a.location.x
                + a.size.width && in_range(b.location.x as int) ==> ra.location.x + ra.size.width
                == rb.location.x
            &&& a.location.y >= 0 && a.size.height >= 0 && b.location.y == a.location.y
                + a.size.height && in_range(b.location.y as int) ==> ra.location.y
                + ra.size.height == rb.location.y
        }),
{
    let before = solved_pass(s, st, root, available_space);
    let after = layout_pass(s, st, root, available_space);
    lemma_round_node_rounds_children(s, before, root, zero_point());
    let origin = absolute(zero_point(), before.layouts[root]);
    assert(before.layouts[root].location == zero_point());
    assert(origin == zero_point());
    let a = before.layouts[s.children[root][i]];
    let b = before.layouts[s.children[root][j]];
    assert(after.layouts[s.children[root][i]] == rounded(a, absolute(origin, a)));
    assert(after.layouts[s.children[root][j]] == rounded(b, absolute(origin, b)));
    lemma_touching_siblings_have_touching_layouts(a, b, origin);
}

} // verus!

//! No layout pass produces a negative size.

use vstd::prelude::*;
use crate::compute::{layout_pass, node_layout, root_query, round_node};
use crate::geometry::{zero_point, Size};
use crate::laws::invariants::{
    follows, lemma_follows_chain, lemma_keeps_sizes, lemma_node_layout_follows,
    lemma_with_layout_follows, sizes_not_negative,
};
use crate::laws::repeat::lemma_round_node_settles;
use crate::layout::Layout;
use crate::node::Node;
use crate::style::AvailableSpace;
use crate::tree::{State, Structure};

verus! {

/// A layout pass is a step of the kind that every part of it is: the state
/// stays well-formed, nothing changes above the root, and sizes that were
/// not negative do not become so.
pub proof fn lemma_layout_pass_follows(
    s: Structure,
    st: State,
    root: Node,
    available_space: Size<AvailableSpace>,
)
    requires
        s.wf(),
        st.wf(s),
        s.nodes.contains(root),
    ensures
        follows(s, st, layout_pass(s, st, root, available_space), s.rank[root] + 1),
{
    let q = root_query(root, available_space);
    let bound = s.rank[root] + 1;
    lemma_node_layout_follows(s, st, q);
    let (solved, size) = node_layout(s, st, q);
    let placed = Layout { order: 0, size, location: zero_point() };
    let start = solved.with_layout(root, placed);
    lemma_keeps_sizes(s, st, solved, bound);
    if !sizes_not_negative(s, st) && sizes_not_negative(s, solved) {
        // Nothing is known of the answer where `st` holds a negative size:
        // the frame is all there is to show.
        lemma_with_layout_from(s, st, solved, root, placed, bound);
    } else {
        lemma_with_layout_follows(s, solved, root, placed, bound);
        lemma_follows_chain(s, st, solved, start, bound, bound);
    }
    lemma_round_node_settles(s, start, root, zero_point());
    lemma_follows_chain(s, st, start, round_node(s, start, root, zero_point()), bound, bound);
}

/// Writing a layout after a step is a step, where the state before the
/// step held a negative size already.
proof fn lemma_with_layout_from(
    s: Structure,
    st: State,
    solved: State,
    root: Node,
    placed: Layout,
    bound: nat,
)
    requires
        s.wf(),
        st.wf(s),
        s.nodes.contains(root),
        s.rank[root] < bound,
        !sizes_not_negative(s, st),
        follows(s, st, solved, bound),
    ensures
        follows(s, st, solved.with_layout(root, placed), bound),
{
    reveal(crate::laws::invariants::keeps);
    let start = solved.with_layout(root, placed);
    assert(start.layouts.dom() =~= solved.layouts.dom());
    assert forall|n: Node| (!s.nodes.contains(n) || s.rank[n] >= bound) implies #[trigger] start.layouts[n]
        == st.layouts[n] by {
        assert(solved.layouts[n] == st.layouts[n]);
    }
}

/// No size is negative after a layout pass.
///
/// Where no layout and no cache entry of the tree holds a negative size,
/// as in a tree that has not been laid out yet, none does after a layout
/// pass: the width and the height of every node are zero or more.
pub proof fn lemma_no_size_is_negative(
    s: Structure,
    st: State,
    root: Node,
    available_space: Size<AvailableSpace>,
)
    requires
        s.wf(),
        st.wf(s),
        s.nodes.contains(root),
        sizes_not_negative(s, st),
    ensures
        sizes_not_negative(s, layout_pass(s, st, root, available_space)),
        forall|n: Node|
            s.nodes.contains(n) ==> (#[trigger] layout_pass(
                s,
                st,
                root,
                available_space,
            ).layouts[n]).size.width >= 0 && layout_pass(
                s,
                st,
                root,
                available_space,
            ).layouts[n].size.height >= 0,
{
    lemma_layout_pass_follows(s, st, root, available_space);
    lemma_keeps_sizes(s, st, layout_pass(s, st, root, available_space), s.rank[root] + 1);
    reveal(sizes_not_negative);
}

} // verus!

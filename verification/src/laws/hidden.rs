//! Hidden subtrees are laid out at zero.

use vstd::prelude::*;
use crate::compute::{
    absolute, cache_lookup, cache_run_mode, dispatch, hide_children, hide_node, layout_pass,
    node_layout, order_of, root_query, round_children, round_node, rounded, visitable,
};
use crate::fixed::{lemma_round_is_whole, lemma_round_of_whole, round, sat_add};
use crate::geometry::{zero_point, zero_size, Point, Size};
use crate::layout::{with_order, Layout, SizingMode};
use crate::node::Node;
use crate::style::{AvailableSpace, Display};
use crate::tree::{State, Structure};

verus! {

/// Whether `to` is `from` or one of its descendants.
pub open spec fn reaches(s: Structure, from: Node, to: Node) -> bool
    decreases s.rank[from], 1nat, 0nat,
{
    from == to || descends(s, from, to, s.children[from].len())
}

/// Whether `to` is one of the first `upto` children of `from`, or a
/// descendant of one of them.
pub open spec fn descends(s: Structure, from: Node, to: Node, upto: nat) -> bool
    decreases s.rank[from], 0nat, upto,
{
    if upto == 0 {
        false
    } else {
        let child = s.children[from][upto - 1];
        descends(s, from, to, (upto - 1) as nat) || (visitable(s, from, child) && reaches(
            s,
            child,
            to,
        ))
    }
}

/// Whether a layout has zero size and lies at the origin.
pub open spec fn zeroed(layout: Layout) -> bool {
    layout.size == zero_size() && layout.location == zero_point()
}

/// Whether every layout that is zeroed in `a` is zeroed in `b`.
pub open spec fn keeps_zeroed(a: State, b: State) -> bool {
    forall|n: Node| zeroed(#[trigger] a.layouts[n]) ==> zeroed(b.layouts[n])
}

/// After a node and its descendants have been hidden, each of them has the
/// zero layout, and so has every node that had it before.
pub proof fn lemma_hide_node_zeroes(s: Structure, st: State, node: Node, order: u32)
    requires
        s.wf(),
        s.nodes.contains(node),
    ensures
        forall|d: Node| reaches(s, node, d) ==> zeroed(#[trigger] hide_node(s, st, node, order).layouts[d]),
        keeps_zeroed(st, hide_node(s, st, node, order)),
    decreases s.rank[node], 1nat, 0nat,
{
    let first = st.with_layout(node, with_order(order));
    let after = hide_node(s, st, node, order);
    lemma_hide_children_zeroes(s, first, node, s.children[node].len());
    assert(zeroed(first.layouts[node]));
    assert forall|n: Node| zeroed(#[trigger] st.layouts[n]) implies zeroed(after.layouts[n]) by {
        assert(zeroed(first.layouts[n]));
    }
    assert forall|d: Node| reaches(s, node, d) implies zeroed(#[trigger] after.layouts[d]) by {
        if d == node {
            assert(zeroed(first.layouts[d]));
        }
    }
}

/// After the descendants of a node have been hidden, each of them has the
/// zero layout, and so has every node that had it before.
pub proof fn lemma_hide_children_zeroes(s: Structure, st: State, node: Node, upto: nat)
    requires
        s.wf(),
        s.nodes.contains(node),
        upto <= s.children[node].len(),
    ensures
        forall|d: Node|
            descends(s, node, d, upto) ==> zeroed(
                #[trigger] hide_children(s, st, node, upto).layouts[d],
            ),
        keeps_zeroed(st, hide_children(s, st, node, upto)),
    decreases s.rank[node], 0nat, upto,
{
    if upto > 0 {
        let before = hide_children(s, st, node, (upto - 1) as nat);
        let after = hide_children(s, st, node, upto);
        lemma_hide_children_zeroes(s, st, node, (upto - 1) as nat);
        let child = s.children[node][upto - 1];
        if visitable(s, node, child) {
            lemma_hide_node_zeroes(s, before, child, order_of((upto - 1) as usize));
        }
        assert forall|n: Node| zeroed(#[trigger] st.layouts[n]) implies zeroed(
            after.layouts[n],
        ) by {
            assert(zeroed(before.layouts[n]));
        }
        assert forall|d: Node| descends(s, node, d, upto) implies zeroed(
            #[trigger] after.layouts[d],
        ) by {
            if descends(s, node, d, (upto - 1) as nat) {
                assert(zeroed(before.layouts[d]));
            }
        }
    }
}

/// Hiding zeroes a whole subtree.
///
/// After the hidden layout of `node`, every descendant of `node`, at
/// whatever depth and whatever its own style, has zero size and lies at the
/// origin.
pub proof fn lemma_hidden_layout_zeroes_descendants(s: Structure, st: State, node: Node)
    requires
        s.wf(),
        s.nodes.contains(node),
    ensures
        forall|d: Node|
            descends(s, node, d, s.children[node].len()) ==> (#[trigger] hide_children(
                s,
                st,
                node,
                s.children[node].len(),
            ).layouts[d]).size == zero_size() && hide_children(
                s,
                st,
                node,
                s.children[node].len(),
            ).layouts[d].location == zero_point(),
{
    lemma_hide_children_zeroes(s, st, node, s.children[node].len());
}

/// Rounding leaves a zeroed layout zeroed.
pub proof fn lemma_rounded_of_zeroed(layout: Layout, abs: Point<i64>)
    requires
        zeroed(layout),
    ensures
        zeroed(rounded(layout, abs)),
{
    lemma_round_of_whole(0);
    lemma_round_is_whole(abs.x);
    lemma_round_is_whole(abs.y);
    lemma_round_is_whole(sat_add(abs.x, 0));
    lemma_round_is_whole(sat_add(abs.y, 0));
    assert(round(sat_add(abs.x, 0)) == round(abs.x));
    assert(round(sat_add(abs.y, 0)) == round(abs.y));
}

/// Rounding from a node down leaves zeroed layouts zeroed.
pub proof fn lemma_round_node_keeps_zeroed(s: Structure, st: State, node: Node, origin: Point<i64>)
    requires
        s.wf(),
        s.nodes.contains(node),
    ensures
        keeps_zeroed(st, round_node(s, st, node, origin)),
    decreases s.rank[node], 1nat, 0nat,
{
    let layout = st.layouts[node];
    let abs = absolute(origin, layout);
    let first = st.with_layout(node, rounded(layout, abs));
    let after = round_node(s, st, node, origin);
    lemma_round_children_keeps_zeroed(s, first, node, abs, s.children[node].len());
    assert forall|n: Node| zeroed(#[trigger] st.layouts[n]) implies zeroed(after.layouts[n]) by {
        if n == node {
            lemma_rounded_of_zeroed(layout, abs);
        }
        assert(zeroed(first.layouts[n]));
    }
}

/// Rounding the children of a node leaves zeroed layouts zeroed.
pub proof fn lemma_round_children_keeps_zeroed(
    s: Structure,
    st: State,
    node: Node,
    abs: Point<i64>,
    upto: nat,
)
    requires
        s.wf(),
        s.nodes.contains(node),
        upto <= s.children[node].len(),
    ensures
        keeps_zeroed(st, round_children(s, st, node, abs, upto)),
    decreases s.rank[node], 0nat, upto,
{
    if upto > 0 {
        let before = round_children(s, st, node, abs, (upto - 1) as nat);
        let after = round_children(s, st, node, abs, upto);
        lemma_round_children_keeps_zeroed(s, st, node, abs, (upto - 1) as nat);
        let child = s.children[node][upto - 1];
        if visitable(s, node, child) {
            lemma_round_node_keeps_zeroed(s, before, child, abs);
        }
        assert forall|n: Node| zeroed(#[trigger] st.layouts[n]) implies zeroed(
            after.layouts[n],
        ) by {
            assert(zeroed(before.layouts[n]));
        }
    }
}

/// A pass from a hidden root zeroes everything below it.
///
/// Let `root` be hidden and have children, and let its cache hold no answer
/// to the query of the pass, as in a tree that has not been laid out yet.
/// Then after a layout pass from `root` every descendant of `root` has zero
/// size and lies at the origin.
pub proof fn lemma_hidden_root_zeroes_descendants(
    s: Structure,
    st: State,
    root: Node,
    available_space: Size<AvailableSpace>,
)
    requires
        s.wf(),
        st.wf(s),
        s.nodes.contains(root),
        s.styles[root].display == Display::Hidden,
        !s.is_childless(root),
        cache_lookup(
            st.caches[root],
            Size { width: None, height: None },
            available_space,
            cache_run_mode(s, root_query(root, available_space)),
            SizingMode::InherentSize,
        ).is_none(),
    ensures
        forall|d: Node|
            d != root && reaches(s, root, d) ==> (#[trigger] layout_pass(
                s,
                st,
                root,
                available_space,
            ).layouts[d]).size == zero_size() && layout_pass(
                s,
                st,
                root,
                available_space,
            ).layouts[d].location == zero_point(),
{
    reveal(dispatch);
    let q = root_query(root, available_space);
    let count = s.children[root].len();
    let hidden = hide_children(s, st, root, count);
    lemma_hide_children_zeroes(s, st, root, count);
    let (solved, size) = node_layout(s, st, q);
    let start = solved.with_layout(root, Layout { order: 0, size, location: zero_point() });
    let after = layout_pass(s, st, root, available_space);
    lemma_round_node_keeps_zeroed(s, start, root, zero_point());
    assert forall|d: Node| d != root && reaches(s, root, d) implies zeroed(
        #[trigger] after.layouts[d],
    ) by {
        assert(descends(s, root, d, count));
        assert(zeroed(hidden.layouts[d]));
        assert(solved.layouts[d] == hidden.layouts[d]);
        assert(start.layouts[d] == solved.layouts[d]);
    }
}

} // verus!

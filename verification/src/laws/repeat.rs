//! A second layout pass over an unchanged tree changes nothing.

use vstd::prelude::*;
use crate::compute::{
    absolute, cache_entry, cache_hit, cache_lookup, cache_lookup_upto, cache_run_mode,
    compute_cache_slot, dispatch, layout_pass, lemma_lookup_found, node_layout, root_query,
    round_children, round_node, rounded, visitable, Query,
};
use crate::fixed::{is_whole, lemma_round_is_whole, lemma_round_of_whole, round, sat_add, LIMIT};
use crate::geometry::{zero_point, Point, Size};
use crate::laws::invariants::{
    follows, keeps, lemma_dispatch_follows, lemma_follows_chain, lemma_follows_itself,
    lemma_follows_weaken, lemma_lookup_is_an_entry, lemma_node_layout_follows, not_negative,
};
use crate::laws::rounding::lemma_rounded_extent_is_whole;
use crate::layout::{Cache, Layout, RunMode, SizingMode};
use crate::node::Node;
use crate::style::AvailableSpace;
use crate::tree::{State, Structure};

verus! {

/// Whether a coordinate is a whole number of pixels within the limit.
pub open spec fn settled(x: i64) -> bool {
    is_whole(x) && -LIMIT <= x <= LIMIT
}

/// Whether every coordinate of a layout is a whole number of pixels within
/// the limit.
pub open spec fn whole_layout(layout: Layout) -> bool {
    &&& settled(layout.location.x)
    &&& settled(layout.location.y)
    &&& settled(layout.size.width)
    &&& settled(layout.size.height)
}

/// Whether the layouts of `node` and of all its descendants are whole.
pub open spec fn whole_from(s: Structure, st: State, node: Node) -> bool
    decreases s.rank[node], 1nat, 0nat,
{
    whole_layout(st.layouts[node]) && whole_children(s, st, node, s.children[node].len())
}

/// Whether the layouts of the first `upto` children of `node`, and of all
/// their descendants, are whole.
pub open spec fn whole_children(s: Structure, st: State, node: Node, upto: nat) -> bool
    decreases s.rank[node], 0nat, upto,
{
    if upto == 0 {
        true
    } else {
        let child = s.children[node][upto - 1];
        whole_children(s, st, node, (upto - 1) as nat) && (visitable(s, node, child) ==> whole_from(
            s,
            st,
            child,
        ))
    }
}

/// Whether the far edges of `node` and of all its descendants lie within
/// the limit, in the coordinates of the root. `origin` is the position of
/// the parent in those coordinates.
pub open spec fn in_reach(s: Structure, st: State, node: Node, origin: Point<i64>) -> bool
    decreases s.rank[node], 1nat, 0nat,
{
    let layout = st.layouts[node];
    let abs = absolute(origin, layout);
    &&& -LIMIT <= abs.x + layout.size.width <= LIMIT
    &&& -LIMIT <= abs.y + layout.size.height <= LIMIT
    &&& children_in_reach(s, st, node, abs, s.children[node].len())
}

/// Whether the far edges of the first `upto` children of `node`, and of all
/// their descendants, lie within the limit.
pub open spec fn children_in_reach(
    s: Structure,
    st: State,
    node: Node,
    abs: Point<i64>,
    upto: nat,
) -> bool
    decreases s.rank[node], 0nat, upto,
{
    if upto == 0 {
        true
    } else {
        let child = s.children[node][upto - 1];
        children_in_reach(s, st, node, abs, (upto - 1) as nat) && (visitable(s, node, child)
            ==> in_reach(s, st, child, abs))
    }
}

/// Whether every layout that is whole in `a` is whole in `b`.
pub open spec fn keeps_whole(s: Structure, a: State, b: State) -> bool {
    forall|n: Node|
        s.nodes.contains(n) && whole_layout(#[trigger] a.layouts[n]) ==> whole_layout(
            b.layouts[n],
        )
}

/// A rounded layout is whole.
pub proof fn lemma_rounded_is_whole(layout: Layout, abs: Point<i64>)
    ensures
        whole_layout(rounded(layout, abs)),
{
    lemma_round_is_whole(layout.location.x);
    lemma_round_is_whole(layout.location.y);
    lemma_rounded_extent_is_whole(abs.x, layout.size.width);
    lemma_rounded_extent_is_whole(abs.y, layout.size.height);
}

/// Rounding leaves as it is a whole layout whose far edges lie within the
/// limit, at a whole position.
pub proof fn lemma_rounded_of_whole(layout: Layout, abs: Point<i64>)
    requires
        whole_layout(layout),
        settled(abs.x),
        settled(abs.y),
        -LIMIT <= abs.x + layout.size.width <= LIMIT,
        -LIMIT <= abs.y + layout.size.height <= LIMIT,
    ensures
        rounded(layout, abs) == layout,
{
    lemma_round_of_whole(layout.location.x);
    lemma_round_of_whole(layout.location.y);
    lemma_round_of_whole(abs.x);
    lemma_round_of_whole(abs.y);
    let far_x = sat_add(abs.x, layout.size.width);
    let far_y = sat_add(abs.y, layout.size.height);
    assert(far_x % 65536 == 0) by {
        assert(abs.x % 65536 == 0 && layout.size.width % 65536 == 0);
    }
    assert(far_y % 65536 == 0) by {
        assert(abs.y % 65536 == 0 && layout.size.height % 65536 == 0);
    }
    lemma_round_of_whole(far_x);
    lemma_round_of_whole(far_y);
}

/// The sum of two whole coordinates is a whole coordinate within the limit.
pub proof fn lemma_sum_is_settled(a: i64, b: i64)
    requires
        is_whole(a),
        is_whole(b),
    ensures
        settled(sat_add(a, b)),
{
    assert(a % 65536 == 0 && b % 65536 == 0);
    assert((a + b) % 65536 == 0);
    assert(0x4000_0000_0000_0000int % 65536 == 0);
    assert((-0x4000_0000_0000_0000int) % 65536 == 0);
}

/// Whole layouts stay whole along a chain of states.
pub proof fn lemma_whole_from_kept(s: Structure, a: State, b: State, node: Node)
    requires
        s.wf(),
        s.nodes.contains(node),
        keeps_whole(s, a, b),
        whole_from(s, a, node),
    ensures
        whole_from(s, b, node),
    decreases s.rank[node], 1nat, 0nat,
{
    assert(whole_layout(a.layouts[node]));
    lemma_whole_children_kept(s, a, b, node, s.children[node].len());
}

/// Whole layouts stay whole along a chain of states.
pub proof fn lemma_whole_children_kept(s: Structure, a: State, b: State, node: Node, upto: nat)
    requires
        s.wf(),
        s.nodes.contains(node),
        keeps_whole(s, a, b),
        whole_children(s, a, node, upto),
        upto <= s.children[node].len(),
    ensures
        whole_children(s, b, node, upto),
    decreases s.rank[node], 0nat, upto,
{
    if upto > 0 {
        lemma_whole_children_kept(s, a, b, node, (upto - 1) as nat);
        let child = s.children[node][upto - 1];
        if visitable(s, node, child) {
            lemma_whole_from_kept(s, a, b, child);
        }
    }
}

/// After rounding from a node down, the layouts of the node and of all its
/// descendants are whole; layouts that were whole still are; the caches are
/// as they were; and nothing has changed above the node.
pub proof fn lemma_round_node_settles(s: Structure, st: State, node: Node, origin: Point<i64>)
    requires
        s.wf(),
        st.wf(s),
        s.nodes.contains(node),
    ensures
        whole_from(s, round_node(s, st, node, origin), node),
        keeps_whole(s, st, round_node(s, st, node, origin)),
        round_node(s, st, node, origin).caches == st.caches,
        follows(s, st, round_node(s, st, node, origin), s.rank[node] + 1),
    decreases s.rank[node], 1nat, 0nat,
{
    let layout = st.layouts[node];
    let abs = absolute(origin, layout);
    let first = st.with_layout(node, rounded(layout, abs));
    let after = round_node(s, st, node, origin);
    lemma_rounded_is_whole(layout, abs);
    lemma_round_children_settles(s, first, node, abs, s.children[node].len());
    assert(first.layouts[node] == rounded(layout, abs));
    assert(after.layouts[node] == first.layouts[node]) by {
        reveal(keeps);
    }
    assert(keeps_whole(s, st, after)) by {
        assert forall|n: Node|
            s.nodes.contains(n) && whole_layout(#[trigger] st.layouts[n]) implies whole_layout(
            after.layouts[n],
        ) by {
            if n != node {
                assert(first.layouts[n] == st.layouts[n]);
            }
        }
    }
    assert(follows(s, st, after, s.rank[node] + 1)) by {
        reveal(keeps);
        assert(first.layouts.dom() =~= st.layouts.dom());
        lemma_round_keeps_sizes(s, st, node, layout, abs);
        lemma_follows_weaken(s, first, after, s.rank[node], s.rank[node] + 1);
        lemma_follows_chain(s, st, first, after, s.rank[node] + 1, s.rank[node] + 1);
    }
}

/// Writing the rounded layout of a node is a step below the rank above the
/// node's.
pub proof fn lemma_round_keeps_sizes(
    s: Structure,
    st: State,
    node: Node,
    layout: Layout,
    abs: Point<i64>,
)
    requires
        s.wf(),
        st.wf(s),
        s.nodes.contains(node),
        layout == st.layouts[node],
    ensures
        follows(s, st, st.with_layout(node, rounded(layout, abs)), s.rank[node] + 1),
{
    reveal(keeps);
    let b = st.with_layout(node, rounded(layout, abs));
    assert(b.layouts.dom() =~= st.layouts.dom());
    reveal(crate::laws::invariants::sizes_not_negative);
    if crate::laws::invariants::sizes_not_negative(s, st) {
        assert(not_negative(st.layouts[node].size));
        crate::laws::rounding::lemma_rounded_extent_is_not_negative(abs.x, layout.size.width);
        crate::laws::rounding::lemma_rounded_extent_is_not_negative(abs.y, layout.size.height);
    }
}

/// After rounding the children of a node, their layouts and those of all
/// their descendants are whole; layouts that were whole still are; the
/// caches are as they were; and nothing has changed at the node or above.
pub proof fn lemma_round_children_settles(
    s: Structure,
    st: State,
    node: Node,
    abs: Point<i64>,
    upto: nat,
)
    requires
        s.wf(),
        st.wf(s),
        s.nodes.contains(node),
        upto <= s.children[node].len(),
    ensures
        whole_children(s, round_children(s, st, node, abs, upto), node, upto),
        keeps_whole(s, st, round_children(s, st, node, abs, upto)),
        round_children(s, st, node, abs, upto).caches == st.caches,
        follows(s, st, round_children(s, st, node, abs, upto), s.rank[node]),
    decreases s.rank[node], 0nat, upto,
{
    if upto == 0 {
        lemma_follows_itself(s, st, s.rank[node]);
    } else {
        let before = round_children(s, st, node, abs, (upto - 1) as nat);
        lemma_round_children_settles(s, st, node, abs, (upto - 1) as nat);
        let child = s.children[node][upto - 1];
        if visitable(s, node, child) {
            let after = round_node(s, before, child, abs);
            lemma_round_node_settles(s, before, child, abs);
            lemma_whole_children_kept(s, before, after, node, (upto - 1) as nat);
            lemma_follows_weaken(s, before, after, s.rank[child] + 1, s.rank[node]);
            lemma_follows_chain(s, st, before, after, s.rank[node], s.rank[node]);
            assert(keeps_whole(s, st, after)) by {
                assert forall|n: Node|
                    s.nodes.contains(n) && whole_layout(
                        #[trigger] st.layouts[n],
                    ) implies whole_layout(after.layouts[n]) by {
                    assert(whole_layout(before.layouts[n]));
                }
            }
        }
    }
}

/// Rounding from a node down changes nothing where the layouts are whole
/// already, the far edges lie within the limit and the parent is at a whole
/// position.
pub proof fn lemma_round_node_of_whole(s: Structure, st: State, node: Node, origin: Point<i64>)
    requires
        s.wf(),
        st.wf(s),
        s.nodes.contains(node),
        whole_from(s, st, node),
        in_reach(s, st, node, origin),
        settled(origin.x),
        settled(origin.y),
    ensures
        round_node(s, st, node, origin) == st,
    decreases s.rank[node], 1nat, 0nat,
{
    let layout = st.layouts[node];
    let abs = absolute(origin, layout);
    lemma_sum_is_settled(origin.x, layout.location.x);
    lemma_sum_is_settled(origin.y, layout.location.y);
    lemma_rounded_of_whole(layout, abs);
    let first = st.with_layout(node, rounded(layout, abs));
    assert(first.layouts =~= st.layouts);
    assert(first == st);
    lemma_round_children_of_whole(s, st, node, abs, s.children[node].len());
}

/// Rounding the children of a node changes nothing where their layouts and
/// those of their descendants are whole already, the far edges lie within
/// the limit and the node is at a whole position.
pub proof fn lemma_round_children_of_whole(
    s: Structure,
    st: State,
    node: Node,
    abs: Point<i64>,
    upto: nat,
)
    requires
        s.wf(),
        st.wf(s),
        s.nodes.contains(node),
        upto <= s.children[node].len(),
        whole_children(s, st, node, upto),
        children_in_reach(s, st, node, abs, upto),
        settled(abs.x),
        settled(abs.y),
    ensures
        round_children(s, st, node, abs, upto) == st,
    decreases s.rank[node], 0nat, upto,
{
    if upto > 0 {
        lemma_round_children_of_whole(s, st, node, abs, (upto - 1) as nat);
        let child = s.children[node][upto - 1];
        if visitable(s, node, child) {
            lemma_round_node_of_whole(s, st, child, abs);
        }
    }
}

/// A lookup finds nothing among entries of which none answers the query.
pub proof fn lemma_lookup_misses(
    cache: Seq<Option<Cache>>,
    upto: int,
    known_dimensions: Size<Option<i64>>,
    available_space: Size<AvailableSpace>,
    run_mode: RunMode,
    sizing_mode: SizingMode,
)
    requires
        0 <= upto <= cache.len(),
        forall|slot: int|
            0 <= slot < upto ==> match #[trigger] cache[slot] {
                Some(entry) => !cache_hit(
                    entry,
                    known_dimensions,
                    available_space,
                    run_mode,
                    sizing_mode,
                ),
                None => true,
            },
    ensures
        cache_lookup_upto(
            cache,
            upto,
            known_dimensions,
            available_space,
            run_mode,
            sizing_mode,
        ).is_none(),
    decreases upto,
{
    if upto > 0 {
        lemma_lookup_misses(
            cache,
            upto - 1,
            known_dimensions,
            available_space,
            run_mode,
            sizing_mode,
        );
        assert(match cache[upto - 1] {
            Some(entry) => !cache_hit(
                entry,
                known_dimensions,
                available_space,
                run_mode,
                sizing_mode,
            ),
            None => true,
        });
    }
}

/// Once a node has answered a query, its cache answers the same query with
/// the same size.
pub proof fn lemma_answer_is_cached(s: Structure, st: State, q: Query)
    requires
        s.wf(),
        st.wf(s),
        s.nodes.contains(q.node),
    ensures
        cache_lookup(
            node_layout(s, st, q).0.caches[q.node],
            q.known_dimensions,
            q.available_space,
            cache_run_mode(s, q),
            q.sizing_mode,
        ) == Some(node_layout(s, st, q).1),
{
    let mode = cache_run_mode(s, q);
    let found = cache_lookup(
        st.caches[q.node],
        q.known_dimensions,
        q.available_space,
        mode,
        q.sizing_mode,
    );
    if found.is_none() {
        let (computed, size) = dispatch(s, st, q);
        lemma_dispatch_follows(s, st, q);
        assert(computed.caches[q.node] == st.caches[q.node]) by {
            reveal(keeps);
        }
        let slot = compute_cache_slot(q.known_dimensions, q.available_space) as int;
        let entry = cache_entry(s, q, size);
        let cache = st.caches[q.node].update(slot, Some(entry));
        assert(node_layout(s, st, q).0.caches[q.node] == cache);
        lemma_lookup_is_an_entry(
            st.caches[q.node],
            st.caches[q.node].len() as int,
            q.known_dimensions,
            q.available_space,
            mode,
            q.sizing_mode,
        );
        assert forall|k: int| 0 <= k < slot implies match #[trigger] cache[k] {
            Some(e) => !cache_hit(e, q.known_dimensions, q.available_space, mode, q.sizing_mode),
            None => true,
        } by {
            assert(cache[k] == st.caches[q.node][k]);
        }
        lemma_lookup_misses(
            cache,
            slot,
            q.known_dimensions,
            q.available_space,
            mode,
            q.sizing_mode,
        );
        assert(cache[slot] == Some(entry));
        assert(cache_hit(entry, q.known_dimensions, q.available_space, mode, q.sizing_mode));
        assert(cache_lookup_upto(
            cache,
            slot + 1,
            q.known_dimensions,
            q.available_space,
            mode,
            q.sizing_mode,
        ) == Some(size));
        lemma_lookup_found(
            cache,
            slot + 1,
            cache.len() as int,
            q.known_dimensions,
            q.available_space,
            mode,
            q.sizing_mode,
        );
    }
}

/// A second layout pass changes nothing.
///
/// Let a layout pass run from `root` under `available_space`, and let a
/// second pass run from the same root under the same space on the state
/// that the first has left, with structure and styles unchanged. Then the
/// root answers the second pass from its cache, and the second pass leaves
/// every layout and every cache entry exactly as the first left them. This
/// holds where the far edges that the first pass has produced lie within the
/// limit of the coordinates.
pub proof fn lemma_second_pass_changes_nothing(
    s: Structure,
    st: State,
    root: Node,
    available_space: Size<AvailableSpace>,
)
    requires
        s.wf(),
        st.wf(s),
        s.nodes.contains(root),
        in_reach(s, layout_pass(s, st, root, available_space), root, zero_point()),
    ensures
        cache_lookup(
            layout_pass(s, st, root, available_space).caches[root],
            Size { width: None, height: None },
            available_space,
            cache_run_mode(s, root_query(root, available_space)),
            SizingMode::InherentSize,
        ).is_some(),
        layout_pass(s, layout_pass(s, st, root, available_space), root, available_space)
            == layout_pass(s, st, root, available_space),
{
    let q = root_query(root, available_space);
    let (solved, size) = node_layout(s, st, q);
    let placed = Layout { order: 0, size, location: zero_point() };
    let start = solved.with_layout(root, placed);
    let first = layout_pass(s, st, root, available_space);
    assert(first == round_node(s, start, root, zero_point()));
    lemma_node_layout_follows(s, st, q);
    lemma_answer_is_cached(s, st, q);
    lemma_round_node_settles(s, start, root, zero_point());
    assert(first.caches[root] == solved.caches[root]);
    assert(node_layout(s, first, q) == (first, size));
    let again = first.with_layout(root, placed);
    let second = round_node(s, again, root, zero_point());
    assert(second == layout_pass(s, first, root, available_space));
    // Both passes round the root from the same layout at the same position.
    let abs = absolute(zero_point(), placed);
    let snapped = rounded(placed, abs);
    let first_top = start.with_layout(root, snapped);
    let second_top = again.with_layout(root, snapped);
    let count = s.children[root].len();
    assert(first == round_children(s, first_top, root, abs, count));
    assert(second == round_children(s, second_top, root, abs, count));
    lemma_round_children_settles(s, first_top, root, abs, count);
    assert(first.layouts[root] == snapped) by {
        reveal(keeps);
    }
    assert(second_top.layouts =~= first.layouts);
    assert(second_top == first);
    // The layouts below the root are whole already and within reach.
    assert(whole_children(s, first, root, count));
    lemma_round_is_whole(0);
    assert(absolute(zero_point(), snapped) == abs) by {
        lemma_round_of_whole(0);
    }
    assert(children_in_reach(s, first, root, abs, count));
    lemma_round_children_of_whole(s, first, root, abs, count);
}

/// A layout pass leaves whole pixels.
///
/// After a layout pass, every coordinate of the layouts of the root and of
/// all its descendants is a whole number of pixels.
pub proof fn lemma_pass_leaves_whole_layouts(
    s: Structure,
    st: State,
    root: Node,
    available_space: Size<AvailableSpace>,
)
    requires
        s.wf(),
        st.wf(s),
        s.nodes.contains(root),
    ensures
        whole_from(s, layout_pass(s, st, root, available_space), root),
{
    let q = root_query(root, available_space);
    let (solved, size) = node_layout(s, st, q);
    lemma_node_layout_follows(s, st, q);
    let start = solved.with_layout(root, Layout { order: 0, size, location: zero_point() });
    lemma_round_node_settles(s, start, root, zero_point());
}

} // verus!

//! What every step of a layout pass keeps: the state stays well-formed, a
//! query to a node changes nothing above that node, and sizes that were not
//! negative do not become so.

use vstd::prelude::*;
use crate::compute::flex_lines::{
    cross_total, longest, number, spec_assigned_items, spec_collected_lines, spec_line_pass,
    spec_rank_items, spec_rank_lines, LineStage,
};
use crate::compute::flex_model::{compute_constants, FlexCtx, FlexItem};
use crate::compute::flex_steps::{result_at, spec_item_pass, ItemStage};
use crate::compute::flexbox::{
    bounded_size, container_size, inner_cross_size, inner_main_size, is_bounded, items_of,
    layout_for, lemma_assigned_items_nodes, lemma_item_pass_nodes, lemma_make_items_nodes,
    lemma_queries_visitable, lemma_rank_items_nodes, lemma_resolve_rounds_nodes, preliminary,
    resolve_rounds,
    run_queries, spec_compute, spec_make_items, spec_queries, stretch_amount, styled_size, written,
    Phase, Probe,
};
use crate::compute::{
    cache_entry, cache_hit, cache_lookup, cache_lookup_upto, cache_run_mode, compute_cache_slot,
    dispatch, hide_children, hide_node, node_layout, order_of, visitable, Query,
};
use crate::geometry::{known, size_or, Size};
use crate::layout::{with_order, Cache, Layout, RunMode, SizingMode, CACHE_SIZE};
use crate::node::Node;
use crate::style::{AvailableSpace, Display};
use crate::tree::{State, Structure};

verus! {

/// Whether neither dimension of a size is negative.
pub open spec fn not_negative(size: Size<i64>) -> bool {
    size.width >= 0 && size.height >= 0
}

/// Whether no cache entry of a cache holds a negative size.
pub open spec fn cache_not_negative(cache: Seq<Option<Cache>>) -> bool {
    forall|slot: int|
        0 <= slot < cache.len() ==> match #[trigger] cache[slot] {
            Some(entry) => not_negative(entry.cached_size),
            None => true,
        }
}

/// Whether no layout and no cache entry of the tree holds a negative size.
#[verifier::opaque]
pub open spec fn sizes_not_negative(s: Structure, st: State) -> bool {
    &&& forall|n: Node| s.nodes.contains(n) ==> not_negative((#[trigger] st.layouts[n]).size)
    &&& forall|n: Node| s.nodes.contains(n) ==> cache_not_negative(#[trigger] st.caches[n])
}

/// Whether state `b` differs from state `a` only in nodes of the tree whose
/// rank is below `bound`.
pub open spec fn untouched_from(s: Structure, a: State, b: State, bound: nat) -> bool {
    &&& b.layouts.dom() == a.layouts.dom()
    &&& b.caches.dom() == a.caches.dom()
    &&& forall|n: Node|
        (!s.nodes.contains(n) || s.rank[n] >= bound) ==> #[trigger] b.layouts[n] == a.layouts[n]
    &&& forall|n: Node|
        (!s.nodes.contains(n) || s.rank[n] >= bound) ==> #[trigger] b.caches[n] == a.caches[n]
}

/// Whether state `b` differs from state `a` only in nodes of the tree whose
/// rank is below `bound`, and holds no negative size unless `a` does.
#[verifier::opaque]
pub open spec fn keeps(s: Structure, a: State, b: State, bound: nat) -> bool {
    &&& untouched_from(s, a, b, bound)
    &&& sizes_not_negative(s, a) ==> sizes_not_negative(s, b)
}

/// Whether `b` can follow `a` in a layout pass that works below `bound`:
/// `b` is well-formed, differs from `a` only in nodes of rank below
/// `bound`, and holds no negative size unless `a` does.
pub open spec fn follows(s: Structure, a: State, b: State, bound: nat) -> bool {
    b.wf(s) && keeps(s, a, b, bound)
}

/// A step keeps sizes from turning negative.
pub proof fn lemma_keeps_sizes(s: Structure, a: State, b: State, bound: nat)
    requires
        follows(s, a, b, bound),
    ensures
        sizes_not_negative(s, a) ==> sizes_not_negative(s, b),
{
    reveal(keeps);
}

/// A step below a bound is a step below any larger bound.
pub proof fn lemma_follows_weaken(s: Structure, a: State, b: State, low: nat, bound: nat)
    requires
        follows(s, a, b, low),
        low <= bound,
    ensures
        follows(s, a, b, bound),
{
    reveal(keeps);
}

/// A state follows itself.
pub proof fn lemma_follows_itself(s: Structure, a: State, bound: nat)
    requires
        a.wf(s),
    ensures
        follows(s, a, a, bound),
{
    reveal(keeps);
}

/// Steps that follow one another make one step, below the larger bound.
pub proof fn lemma_follows_chain(s: Structure, a: State, b: State, c: State, low: nat, bound: nat)
    requires
        follows(s, a, b, low),
        follows(s, b, c, bound),
        low <= bound,
    ensures
        follows(s, a, c, bound),
{
    reveal(keeps);
    assert forall|n: Node| (!s.nodes.contains(n) || s.rank[n] >= bound) implies #[trigger] c.layouts[n]
        == a.layouts[n] by {
        assert(b.layouts[n] == a.layouts[n]);
    }
    assert forall|n: Node| (!s.nodes.contains(n) || s.rank[n] >= bound) implies #[trigger] c.caches[n]
        == a.caches[n] by {
        assert(b.caches[n] == a.caches[n]);
    }
}

/// Writing a layout to a node of the tree is a step below any bound above
/// the node's rank, where the layout is not negative unless the state holds
/// a negative size already.
pub proof fn lemma_with_layout_follows(s: Structure, a: State, node: Node, layout: Layout, bound: nat)
    requires
        a.wf(s),
        s.nodes.contains(node),
        s.rank[node] < bound,
        sizes_not_negative(s, a) ==> not_negative(layout.size),
    ensures
        follows(s, a, a.with_layout(node, layout), bound),
{
    reveal(sizes_not_negative);
    reveal(keeps);
    let b = a.with_layout(node, layout);
    assert(b.layouts.dom() =~= a.layouts.dom());
}

/// Writing a cache entry that is not negative to a node of the tree is a
/// step below any bound above the node's rank.
pub proof fn lemma_with_cache_follows(
    s: Structure,
    a: State,
    node: Node,
    slot: int,
    entry: Cache,
    bound: nat,
)
    requires
        a.wf(s),
        s.nodes.contains(node),
        s.rank[node] < bound,
        0 <= slot < CACHE_SIZE,
        not_negative(entry.cached_size),
    ensures
        follows(s, a, a.with_cache(node, slot, Some(entry)), bound),
{
    reveal(sizes_not_negative);
    reveal(keeps);
    let b = a.with_cache(node, slot, Some(entry));
    assert(b.caches.dom() =~= a.caches.dom());
    if sizes_not_negative(s, a) {
        assert forall|n: Node| s.nodes.contains(n) implies cache_not_negative(
            #[trigger] b.caches[n],
        ) by {
            assert(cache_not_negative(a.caches[n]));
            if n == node {
                assert forall|k: int| 0 <= k < b.caches[n].len() implies match #[trigger] b.caches[n][k] {
                    Some(e) => not_negative(e.cached_size),
                    None => true,
                } by {
                    if k != slot {
                        assert(b.caches[n][k] == a.caches[n][k]);
                    }
                }
            }
        }
    }
}

/// A size found in a cache is the size of one of its entries.
pub proof fn lemma_lookup_is_an_entry(
    cache: Seq<Option<Cache>>,
    upto: int,
    known_dimensions: Size<Option<i64>>,
    available_space: Size<AvailableSpace>,
    run_mode: RunMode,
    sizing_mode: SizingMode,
)
    requires
        0 <= upto <= cache.len(),
    ensures
        match cache_lookup_upto(
            cache,
            upto,
            known_dimensions,
            available_space,
            run_mode,
            sizing_mode,
        ) {
            Some(size) => exists|slot: int|
                0 <= slot < upto && (#[trigger] cache[slot]).is_some() && cache[slot].unwrap().cached_size
                    == size && cache_hit(
                    cache[slot].unwrap(),
                    known_dimensions,
                    available_space,
                    run_mode,
                    sizing_mode,
                ),
            None => forall|slot: int|
                0 <= slot < upto ==> match #[trigger] cache[slot] {
                    Some(entry) => !cache_hit(
                        entry,
                        known_dimensions,
                        available_space,
                        run_mode,
                        sizing_mode,
                    ),
                    None => true,
                },
        },
    decreases upto,
{
    if upto > 0 {
        lemma_lookup_is_an_entry(
            cache,
            upto - 1,
            known_dimensions,
            available_space,
            run_mode,
            sizing_mode,
        );
    }
}

/// Zeroing a node and its descendants is a step below any bound above the
/// node's rank.
pub proof fn lemma_hide_node_follows(s: Structure, st: State, node: Node, order: u32)
    requires
        s.wf(),
        st.wf(s),
        s.nodes.contains(node),
    ensures
        follows(s, st, hide_node(s, st, node, order), s.rank[node] + 1),
    decreases s.rank[node], 1nat, 0nat,
{
    let first = st.with_layout(node, with_order(order));
    lemma_with_layout_follows(s, st, node, with_order(order), s.rank[node] + 1);
    lemma_hide_children_follows(s, first, node, s.children[node].len());
    lemma_follows_weaken(
        s,
        first,
        hide_node(s, st, node, order),
        s.rank[node],
        s.rank[node] + 1,
    );
    lemma_follows_chain(
        s,
        st,
        first,
        hide_node(s, st, node, order),
        s.rank[node] + 1,
        s.rank[node] + 1,
    );
}

/// Zeroing the descendants of a node is a step below the node's rank.
pub proof fn lemma_hide_children_follows(s: Structure, st: State, node: Node, upto: nat)
    requires
        s.wf(),
        st.wf(s),
        s.nodes.contains(node),
        upto <= s.children[node].len(),
    ensures
        follows(s, st, hide_children(s, st, node, upto), s.rank[node]),
    decreases s.rank[node], 0nat, upto,
{
    if upto > 0 {
        let before = hide_children(s, st, node, (upto - 1) as nat);
        lemma_hide_children_follows(s, st, node, (upto - 1) as nat);
        let child = s.children[node][upto - 1];
        if visitable(s, node, child) {
            let after = hide_node(s, before, child, order_of((upto - 1) as usize));
            lemma_hide_node_follows(s, before, child, order_of((upto - 1) as usize));
            lemma_follows_itself(s, after, s.rank[node]);
            lemma_follows_chain(s, before, after, after, s.rank[child] + 1, s.rank[node]);
            lemma_follows_chain(s, st, before, after, s.rank[node], s.rank[node]);
        }
    } else {
        lemma_follows_itself(s, st, s.rank[node]);
    }
}

/// Writing the layouts of a phase to the children of a node is a step below
/// the node's rank, where the sizes written are not negative.
pub proof fn lemma_written_follows(
    s: Structure,
    st: State,
    node: Node,
    phase: Phase,
    ctx: FlexCtx,
    items: Seq<FlexItem>,
    results: Seq<Size<i64>>,
    upto: int,
)
    requires
        s.wf(),
        st.wf(s),
        s.nodes.contains(node),
        items_of(s, node, items),
        upto <= items.len(),
        forall|i: int| 0 <= i < results.len() ==> not_negative(#[trigger] results[i]),
    ensures
        follows(s, st, written(st, phase, ctx, items, results, upto), s.rank[node]),
    decreases upto,
{
    if upto > 0 {
        let before = written(st, phase, ctx, items, results, upto - 1);
        lemma_written_follows(s, st, node, phase, ctx, items, results, upto - 1);
        let item = items[upto - 1];
        assert(item.node == s.children[node][upto - 1]);
        assert(s.nodes.contains(s.children[node][upto - 1]));
        match layout_for(phase, ctx, item, (upto - 1) as usize, result_at(results, upto - 1)) {
            Some(layout) => {
                lemma_with_layout_follows(s, before, item.node, layout, s.rank[node]);
                lemma_follows_chain(
                    s,
                    st,
                    before,
                    before.with_layout(item.node, layout),
                    s.rank[node],
                    s.rank[node],
                );
            },
            None => {},
        }
    } else {
        lemma_follows_itself(s, st, s.rank[node]);
    }
}

/// Whether no size of a list is negative.
pub open spec fn all_not_negative(sizes: Seq<Size<i64>>) -> bool {
    forall|i: int| 0 <= i < sizes.len() ==> not_negative(#[trigger] sizes[i])
}

/// A query to a node is a step below the rank above the node's, and where
/// the state holds no negative size the answer is not negative.
pub proof fn lemma_node_layout_follows(s: Structure, st: State, q: Query)
    requires
        s.wf(),
        st.wf(s),
        s.nodes.contains(q.node),
    ensures
        follows(s, st, node_layout(s, st, q).0, s.rank[q.node] + 1),
        sizes_not_negative(s, st) ==> not_negative(node_layout(s, st, q).1),
    decreases s.rank[q.node], 4nat, 0nat,
{
    reveal(dispatch);
    let found = cache_lookup(
        st.caches[q.node],
        q.known_dimensions,
        q.available_space,
        cache_run_mode(s, q),
        q.sizing_mode,
    );
    if found.is_some() {
        lemma_follows_itself(s, st, s.rank[q.node] + 1);
        if sizes_not_negative(s, st) {
            lemma_cache_of_node_not_negative(s, st, q.node);
            lemma_found_is_not_negative(
                st.caches[q.node],
                q.known_dimensions,
                q.available_space,
                cache_run_mode(s, q),
                q.sizing_mode,
            );
        }
    } else {
        lemma_dispatch_follows(s, st, q);
        let computed = dispatch(s, st, q).0;
        let size = dispatch(s, st, q).1;
        let slot = compute_cache_slot(q.known_dimensions, q.available_space) as int;
        let after = computed.with_cache(q.node, slot, Some(cache_entry(s, q, size)));
        assert(node_layout(s, st, q).0 == after);
        lemma_with_cache_follows(s, computed, q.node, slot, cache_entry(s, q, size), s.rank[q.node] + 1);
        lemma_follows_chain(s, st, computed, after, s.rank[q.node], s.rank[q.node] + 1);
    }
}

/// Where the tree holds no negative size, the cache of a node holds none.
pub proof fn lemma_cache_of_node_not_negative(s: Structure, st: State, node: Node)
    requires
        s.nodes.contains(node),
        sizes_not_negative(s, st),
    ensures
        cache_not_negative(st.caches[node]),
        not_negative(st.layouts[node].size),
{
    reveal(sizes_not_negative);
}

/// A size found in a cache that holds no negative size is not negative.
pub proof fn lemma_found_is_not_negative(
    cache: Seq<Option<Cache>>,
    known_dimensions: Size<Option<i64>>,
    available_space: Size<AvailableSpace>,
    run_mode: RunMode,
    sizing_mode: SizingMode,
)
    requires
        cache_not_negative(cache),
    ensures
        match cache_lookup(cache, known_dimensions, available_space, run_mode, sizing_mode) {
            Some(size) => not_negative(size),
            None => true,
        },
{
    lemma_lookup_is_an_entry(
        cache,
        cache.len() as int,
        known_dimensions,
        available_space,
        run_mode,
        sizing_mode,
    );
}

/// Computing the answer to a query is a step below the node's rank, and the
/// answer is not negative.
pub proof fn lemma_dispatch_follows(s: Structure, st: State, q: Query)
    requires
        s.wf(),
        st.wf(s),
        s.nodes.contains(q.node),
    ensures
        follows(s, st, dispatch(s, st, q).0, s.rank[q.node]),
        not_negative(dispatch(s, st, q).1),
    decreases s.rank[q.node], 3nat, 0nat,
{
    reveal(dispatch);
    if s.is_childless(q.node) {
        lemma_follows_itself(s, st, s.rank[q.node]);
    } else {
        match s.styles[q.node].display {
            Display::Flex => {
                lemma_compute_follows(s, st, q);
            },
            Display::Hidden => {
                lemma_hide_children_follows(s, st, q.node, s.children[q.node].len());
            },
        }
    }
}

/// The flexbox algorithm is a step below the container's rank, and the size
/// of the container is not negative.
pub proof fn lemma_compute_follows(s: Structure, st: State, q: Query)
    requires
        s.wf(),
        st.wf(s),
        s.nodes.contains(q.node),
    ensures
        follows(s, st, spec_compute(s, st, q).0, s.rank[q.node]),
        not_negative(spec_compute(s, st, q).1),
    decreases s.rank[q.node], 2nat, 0nat,
{
    let style = s.styles[q.node];
    let decided = size_or(q.known_dimensions, styled_size(style, q.parent_size));
    if is_bounded(style, q.parent_size) {
        lemma_preliminary_follows(s, st, q, decided, RunMode::ComputeSize);
        let (st1, first) = preliminary(s, st, q, decided, RunMode::ComputeSize);
        let again = size_or(q.known_dimensions, known(bounded_size(style, q.parent_size, first)));
        lemma_preliminary_follows(s, st1, q, again, q.run_mode);
        lemma_follows_chain(
            s,
            st,
            st1,
            preliminary(s, st1, q, again, q.run_mode).0,
            s.rank[q.node],
            s.rank[q.node],
        );
    } else {
        lemma_preliminary_follows(s, st, q, decided, q.run_mode);
    }
}

/// Putting queries to the children of a node is a step below the node's
/// rank; there is an answer for each query, and where the state holds no
/// negative size no answer is negative.
pub proof fn lemma_run_queries_follows(
    s: Structure,
    st: State,
    parent: Node,
    queries: Seq<Option<Query>>,
    upto: nat,
)
    requires
        s.wf(),
        st.wf(s),
        s.nodes.contains(parent),
        upto <= queries.len(),
    ensures
        follows(s, st, run_queries(s, st, parent, queries, upto).0, s.rank[parent]),
        run_queries(s, st, parent, queries, upto).1.len() == upto,
        sizes_not_negative(s, st) ==> all_not_negative(
            run_queries(s, st, parent, queries, upto).1,
        ),
    decreases s.rank[parent], 0nat, upto,
{
    if upto > 0 {
        lemma_run_queries_follows(s, st, parent, queries, (upto - 1) as nat);
        let (before, sizes) = run_queries(s, st, parent, queries, (upto - 1) as nat);
        lemma_keeps_sizes(s, st, before, s.rank[parent]);
        match queries[upto - 1] {
            Some(q) => {
                if visitable(s, parent, q.node) {
                    lemma_node_layout_follows(s, before, q);
                    let (after, size) = node_layout(s, before, q);
                    lemma_follows_itself(s, after, s.rank[parent]);
                    lemma_follows_chain(s, before, after, after, s.rank[q.node] + 1, s.rank[parent]);
                    lemma_follows_chain(s, st, before, after, s.rank[parent], s.rank[parent]);
                }
            },
            None => {},
        }
    } else {
        lemma_follows_itself(s, st, s.rank[parent]);
    }
}

/// One run of the flexbox algorithm is a step below the container's rank,
/// and the size of the container is not negative.
pub proof fn lemma_preliminary_follows(
    s: Structure,
    st: State,
    q: Query,
    known_dimensions: Size<Option<i64>>,
    run_mode: RunMode,
)
    requires
        s.wf(),
        st.wf(s),
        s.nodes.contains(q.node),
    ensures
        follows(s, st, preliminary(s, st, q, known_dimensions, run_mode).0, s.rank[q.node]),
        not_negative(preliminary(s, st, q, known_dimensions, run_mode).1),
    decreases s.rank[q.node], 1nat, 0nat,
{
    let node = q.node;
    let none = Seq::<Size<i64>>::empty();
    let ctx0 = compute_constants(s.styles[node], known_dimensions, q.parent_size, q.available_space);
    let items0 = spec_make_items(s, node, ctx0);
    let n = items0.len();
    lemma_make_items_nodes(s, node, ctx0);
    lemma_follows_itself(s, st, s.rank[node]);
    let qs1 = spec_queries(Probe::Base, ctx0, items0);
    lemma_queries_visitable(s, node, Probe::Base, ctx0, items0);
    lemma_queries_in_pass(s, st, st, node, qs1);
    let (st1, bases) = run_queries(s, st, node, qs1, n);
    let items1 = spec_item_pass(ItemStage::Base, ctx0, items0, Seq::empty(), bases);
    lemma_item_pass_nodes(s, node, ItemStage::Base, ctx0, items0, Seq::empty(), bases);
    let qs2 = spec_queries(Probe::Floor, ctx0, items1);
    lemma_queries_visitable(s, node, Probe::Floor, ctx0, items1);
    lemma_queries_in_pass(s, st, st1, node, qs2);
    let (st2, floors) = run_queries(s, st1, node, qs2, n);
    let items2 = spec_item_pass(ItemStage::Floor, ctx0, items1, Seq::empty(), floors);
    lemma_item_pass_nodes(s, node, ItemStage::Floor, ctx0, items1, Seq::empty(), floors);
    let items3 = spec_assigned_items(ctx0, items2);
    lemma_assigned_items_nodes(s, node, ctx0, items2);
    let lines0 = spec_collected_lines(ctx0, items2);
    let lines1 = spec_line_pass(LineStage::Measure, ctx0, items3, lines0, 0, 0);
    let ctx1 = FlexCtx {
        inner_main: inner_main_size(ctx0, longest(lines1, lines1.len() as int)),
        ..ctx0
    };
    let lines2 = spec_line_pass(LineStage::Direction, ctx1, items3, lines1, 0, 0);
    let items4 = spec_item_pass(ItemStage::Init, ctx1, items3, lines2, none);
    lemma_item_pass_nodes(s, node, ItemStage::Init, ctx1, items3, lines2, none);
    let (items5, lines3) = resolve_rounds(ctx1, items4, lines2, items4.len());
    lemma_resolve_rounds_nodes(s, node, ctx1, items4, lines2, items4.len());
    let qs3 = spec_queries(Probe::Cross, ctx1, items5);
    lemma_queries_visitable(s, node, Probe::Cross, ctx1, items5);
    lemma_queries_in_pass(s, st, st2, node, qs3);
    let (st3, crosses) = run_queries(s, st2, node, qs3, n);
    let items6 = spec_item_pass(ItemStage::Cross, ctx1, items5, lines3, crosses);
    lemma_item_pass_nodes(s, node, ItemStage::Cross, ctx1, items5, lines3, crosses);
    let lines4 = spec_line_pass(LineStage::CrossSize, ctx1, items6, lines3, 0, 0);
    let count = number(lines4.len() as usize);
    let lines5 = spec_line_pass(
        LineStage::Stretch,
        ctx1,
        items6,
        lines4,
        stretch_amount(ctx1, cross_total(lines4, lines4.len() as int), count),
        0,
    );
    let total = cross_total(lines5, lines5.len() as int);
    let ctx2 = FlexCtx { inner_cross: inner_cross_size(ctx1, total, count), ..ctx1 };
    let ctx = FlexCtx { container: container_size(ctx2), ..ctx2 };
    lemma_container_size_not_negative(ctx2);
    if run_mode == RunMode::ComputeSize {
    } else {
        let items7 = spec_item_pass(ItemStage::UsedCross, ctx, items6, lines5, none);
        lemma_item_pass_nodes(s, node, ItemStage::UsedCross, ctx, items6, lines5, none);
        let lines6 = spec_line_pass(LineStage::Used, ctx, items7, lines5, 0, 0);
        let lines7 = spec_rank_lines(lines6);
        let lines8 = spec_line_pass(LineStage::Offset, ctx, items7, lines7, total, count);
        let items8 = spec_rank_items(ctx, items7, lines8);
        lemma_rank_items_nodes(s, node, ctx, items7, lines8);
        let items9 = spec_item_pass(ItemStage::Place, ctx, items8, lines8, none);
        lemma_item_pass_nodes(s, node, ItemStage::Place, ctx, items8, lines8, none);
        let qs4 = spec_queries(Probe::Final, ctx, items9);
        lemma_queries_visitable(s, node, Probe::Final, ctx, items9);
        lemma_queries_in_pass(s, st, st3, node, qs4);
        let (st4, finals) = run_queries(s, st3, node, qs4, n);
        lemma_written_in_pass(s, st, st4, node, Phase::Flow, ctx, items9, finals);
        let st5 = written(st4, Phase::Flow, ctx, items9, finals, n as int);
        let qs5 = spec_queries(Probe::AbsoluteSize, ctx, items9);
        lemma_queries_visitable(s, node, Probe::AbsoluteSize, ctx, items9);
        lemma_queries_in_pass(s, st, st5, node, qs5);
        let (st6, measured) = run_queries(s, st5, node, qs5, n);
        let items10 = spec_item_pass(ItemStage::AbsoluteSize, ctx, items9, lines8, measured);
        lemma_item_pass_nodes(s, node, ItemStage::AbsoluteSize, ctx, items9, lines8, measured);
        let qs6 = spec_queries(Probe::AbsoluteFinal, ctx, items10);
        lemma_queries_visitable(s, node, Probe::AbsoluteFinal, ctx, items10);
        lemma_queries_in_pass(s, st, st6, node, qs6);
        let (st7, placed) = run_queries(s, st6, node, qs6, n);
        lemma_written_in_pass(s, st, st7, node, Phase::Absolute, ctx, items10, placed);
        let st8 = written(st7, Phase::Absolute, ctx, items10, placed, n as int);
        lemma_written_in_pass(s, st, st8, node, Phase::Hidden, ctx, items10, none);
        let st9 = written(st8, Phase::Hidden, ctx, items10, none, n as int);
        let qs7 = spec_queries(Probe::Hidden, ctx, items10);
        lemma_queries_visitable(s, node, Probe::Hidden, ctx, items10);
        lemma_queries_in_pass(s, st, st9, node, qs7);
    }
}

/// The size of a container is not negative.
pub proof fn lemma_container_size_not_negative(ctx: FlexCtx)
    ensures
        not_negative(container_size(ctx)),
{
}

/// Within a pass that has come from `start` to `st`, writing the layouts of
/// a phase is a further step, where none of the sizes written is negative
/// unless `start` held a negative size.
pub proof fn lemma_written_in_pass(
    s: Structure,
    start: State,
    st: State,
    node: Node,
    phase: Phase,
    ctx: FlexCtx,
    items: Seq<FlexItem>,
    results: Seq<Size<i64>>,
)
    requires
        s.wf(),
        start.wf(s),
        s.nodes.contains(node),
        items_of(s, node, items),
        follows(s, start, st, s.rank[node]),
        sizes_not_negative(s, start) ==> all_not_negative(results),
    ensures
        follows(
            s,
            start,
            written(st, phase, ctx, items, results, items.len() as int),
            s.rank[node],
        ),
{
    let after = written(st, phase, ctx, items, results, items.len() as int);
    if sizes_not_negative(s, start) {
        lemma_written_follows(s, st, node, phase, ctx, items, results, items.len() as int);
        lemma_follows_chain(s, start, st, after, s.rank[node], s.rank[node]);
    } else {
        reveal(keeps);
        lemma_written_frame(s, st, node, phase, ctx, items, results, items.len() as int);
        let bound = s.rank[node];
        assert forall|n: Node| (!s.nodes.contains(n) || s.rank[n] >= bound) implies #[trigger] after.layouts[n]
            == start.layouts[n] by {
            assert(st.layouts[n] == start.layouts[n]);
        }
        assert forall|n: Node| (!s.nodes.contains(n) || s.rank[n] >= bound) implies #[trigger] after.caches[n]
            == start.caches[n] by {
            assert(st.caches[n] == start.caches[n]);
        }
    }
}

/// Within a pass that has come from `start` to `st`, putting queries to the
/// children of a node is a further step; there is an answer for each query,
/// and no answer is negative unless `start` held a negative size.
pub proof fn lemma_queries_in_pass(
    s: Structure,
    start: State,
    st: State,
    node: Node,
    queries: Seq<Option<Query>>,
)
    requires
        s.wf(),
        start.wf(s),
        s.nodes.contains(node),
        follows(s, start, st, s.rank[node]),
    ensures
        follows(s, start, run_queries(s, st, node, queries, queries.len()).0, s.rank[node]),
        run_queries(s, st, node, queries, queries.len()).1.len() == queries.len(),
        sizes_not_negative(s, start) ==> all_not_negative(
            run_queries(s, st, node, queries, queries.len()).1,
        ),
    decreases s.rank[node], 0nat, queries.len() + 1,
{
    lemma_run_queries_follows(s, st, node, queries, queries.len());
    lemma_follows_chain(
        s,
        start,
        st,
        run_queries(s, st, node, queries, queries.len()).0,
        s.rank[node],
        s.rank[node],
    );
    lemma_keeps_sizes(s, start, st, s.rank[node]);
}

/// Writing the layouts of a phase to the children of a node keeps the state
/// well-formed and changes nothing but layouts of nodes below the node's
/// rank.
pub proof fn lemma_written_frame(
    s: Structure,
    st: State,
    node: Node,
    phase: Phase,
    ctx: FlexCtx,
    items: Seq<FlexItem>,
    results: Seq<Size<i64>>,
    upto: int,
)
    requires
        s.wf(),
        st.wf(s),
        s.nodes.contains(node),
        items_of(s, node, items),
        upto <= items.len(),
    ensures
        written(st, phase, ctx, items, results, upto).wf(s),
        untouched_from(s, st, written(st, phase, ctx, items, results, upto), s.rank[node]),
    decreases upto,
{
    if upto > 0 {
        let before = written(st, phase, ctx, items, results, upto - 1);
        lemma_written_frame(s, st, node, phase, ctx, items, results, upto - 1);
        let item = items[upto - 1];
        assert(item.node == s.children[node][upto - 1]);
        assert(s.nodes.contains(s.children[node][upto - 1]));
        match layout_for(phase, ctx, item, (upto - 1) as usize, result_at(results, upto - 1)) {
            Some(layout) => {
                let after = before.with_layout(item.node, layout);
                assert(after.layouts.dom() =~= before.layouts.dom());
                assert forall|n: Node|
                    (!s.nodes.contains(n) || s.rank[n] >= s.rank[node]) implies #[trigger] after.layouts[n]
                    == st.layouts[n] by {
                    assert(before.layouts[n] == st.layouts[n]);
                }
            },
            None => {},
        }
    }
}

} // verus!

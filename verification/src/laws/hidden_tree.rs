//! Below a hidden node of a tree, a layout pass leaves nothing but zero
//! layouts.

use vstd::prelude::*;
use crate::compute::flex_lines::{
    cross_total, longest, number, spec_assigned_items, spec_collected_lines, spec_line_pass,
    spec_rank_items, spec_rank_lines, LineStage,
};
use crate::compute::flex_model::{compute_constants, kind_of, FlexCtx, FlexItem, ItemKind, Line};
use crate::compute::flex_steps::{spec_item_pass, ItemStage};
use crate::compute::flexbox::{
    all_frozen, bounded_size, container_size, inner_cross_size, inner_main_size, is_bounded,
    items_of, preliminary, resolve_rounds, run_queries, spec_compute, spec_make_items,
    spec_queries, stretch_amount, styled_size, written, Phase, Probe,
};
use crate::compute::{
    cache_entry, cache_lookup, cache_run_mode, compute_cache_slot, dispatch, hide_children,
    hide_node, layout_pass, node_layout, order_of, root_query, round_node, visitable, Query,
};
use crate::geometry::{known, size_or, zero_point, zero_size, Size};
use crate::laws::hidden::{
    descends, keeps_zeroed, lemma_hide_children_zeroes, lemma_round_node_keeps_zeroed, reaches,
    zeroed,
};
use crate::laws::invariants::{
    lemma_dispatch_follows, lemma_lookup_is_an_entry, lemma_node_layout_follows,
    lemma_preliminary_follows, lemma_run_queries_follows, lemma_written_frame,
};
use crate::laws::shape::{
    lemma_child_descends, lemma_children_are_apart, lemma_descends_through_a_child,
    lemma_reaches_is_transitive, lemma_reaches_ranks, separate, strictly_below,
};
use crate::layout::{with_order, Cache, Layout, RunMode, CACHE_SIZE};
use crate::node::Node;
use crate::style::{AvailableSpace, Display};
use crate::tree::{State, Structure};

verus! {

/// Whether every node that lies strictly below a hidden node at or below
/// `node` has the zero layout.
#[verifier::opaque]
pub open spec fn clean(s: Structure, st: State, node: Node) -> bool {
    forall|h: Node, d: Node|
        #![trigger reaches(s, node, h), strictly_below(s, h, d)]
        reaches(s, node, h) && s.styles[h].display == Display::Hidden && strictly_below(s, h, d)
            ==> zeroed(st.layouts[d])
}

/// Whether a cache holds an entry that was made when the children's layouts
/// were written.
pub open spec fn has_layout_entry(cache: Seq<Option<Cache>>) -> bool {
    exists|slot: int|
        0 <= slot < cache.len() && (#[trigger] cache[slot]).is_some() && cache[slot].unwrap().run_mode
            == RunMode::PerformLayout
}

/// Whether every node with children at or below `node` whose cache holds a
/// layout entry is clean: what the cache answers for has been laid out.
#[verifier::opaque]
pub open spec fn cache_inv(s: Structure, st: State, node: Node) -> bool {
    forall|x: Node| #[trigger]
        reaches(s, node, x) && !s.is_childless(x) && has_layout_entry(st.caches[x]) ==> clean(
            s,
            st,
            x,
        )
}

/// Whether `b` differs from `a` only strictly below `node`.
#[verifier::opaque]
pub open spec fn below(s: Structure, a: State, b: State, node: Node) -> bool {
    &&& forall|x: Node| !strictly_below(s, node, x) ==> #[trigger] b.layouts[x] == a.layouts[x]
    &&& forall|x: Node| !strictly_below(s, node, x) ==> #[trigger] b.caches[x] == a.caches[x]
}

/// Whether `b` differs from `a` only at or below `node`, and not in the
/// layout of `node`.
#[verifier::opaque]
pub open spec fn inside(s: Structure, a: State, b: State, node: Node) -> bool {
    &&& forall|x: Node| !strictly_below(s, node, x) ==> #[trigger] b.layouts[x] == a.layouts[x]
    &&& forall|x: Node| !reaches(s, node, x) ==> #[trigger] b.caches[x] == a.caches[x]
}

/// Whether `b` has the layouts of `a`, and no node with children has a
/// layout entry in its cache that it had not in `a`.
#[verifier::opaque]
pub open spec fn quiet(s: Structure, a: State, b: State) -> bool {
    &&& b.layouts == a.layouts
    &&& forall|x: Node|
        s.nodes.contains(x) && !s.is_childless(x) && has_layout_entry(#[trigger] b.caches[x])
            ==> has_layout_entry(a.caches[x])
}

/// Whether `a` and `b` agree on the layouts strictly below `node` and on
/// the caches at and below `node`.
#[verifier::opaque]
pub open spec fn agree(s: Structure, a: State, b: State, node: Node) -> bool {
    &&& forall|x: Node| strictly_below(s, node, x) ==> #[trigger] b.layouts[x] == a.layouts[x]
    &&& forall|x: Node| reaches(s, node, x) ==> #[trigger] b.caches[x] == a.caches[x]
}

/// A state differs from itself nowhere.
pub proof fn lemma_same_state(s: Structure, a: State, node: Node)
    ensures
        below(s, a, a, node),
        inside(s, a, a, node),
        quiet(s, a, a),
        agree(s, a, a, node),
{
    reveal(below);
    reveal(inside);
    reveal(quiet);
    reveal(agree);
}

/// Changes strictly below a node, one after another, are changes strictly
/// below it.
pub proof fn lemma_below_chain(s: Structure, a: State, b: State, c: State, node: Node)
    requires
        below(s, a, b, node),
        below(s, b, c, node),
    ensures
        below(s, a, c, node),
{
    reveal(below);
    assert forall|x: Node| !strictly_below(s, node, x) implies #[trigger] c.layouts[x]
        == a.layouts[x] by {
        assert(b.layouts[x] == a.layouts[x]);
    }
    assert forall|x: Node| !strictly_below(s, node, x) implies #[trigger] c.caches[x]
        == a.caches[x] by {
        assert(b.caches[x] == a.caches[x]);
    }
}

/// Quiet steps, one after another, are a quiet step.
pub proof fn lemma_quiet_chain(s: Structure, a: State, b: State, c: State)
    requires
        quiet(s, a, b),
        quiet(s, b, c),
    ensures
        quiet(s, a, c),
{
    reveal(quiet);
    assert forall|x: Node|
        s.nodes.contains(x) && !s.is_childless(x) && has_layout_entry(
            #[trigger] c.caches[x],
        ) implies has_layout_entry(a.caches[x]) by {
        assert(has_layout_entry(b.caches[x]));
    }
}

/// A change at or below a child of a node is a change strictly below the
/// node.
pub proof fn lemma_inside_child_is_below(
    s: Structure,
    a: State,
    b: State,
    node: Node,
    i: int,
)
    requires
        s.wf(),
        s.nodes.contains(node),
        0 <= i < s.children[node].len(),
        inside(s, a, b, s.children[node][i]),
    ensures
        below(s, a, b, node),
{
    reveal(below);
    reveal(inside);
    let child = s.children[node][i];
    assert(s.nodes.contains(child));
    assert forall|x: Node| !strictly_below(s, node, x) implies #[trigger] b.layouts[x]
        == a.layouts[x] by {
        if strictly_below(s, child, x) {
            assert(reaches(s, child, x));
            lemma_child_descends(s, node, x, i, s.children[node].len());
        }
    }
    assert forall|x: Node| !strictly_below(s, node, x) implies #[trigger] b.caches[x]
        == a.caches[x] by {
        if reaches(s, child, x) {
            lemma_child_descends(s, node, x, i, s.children[node].len());
        }
    }
}

/// What is strictly below a node that is at or below another is strictly
/// below the other.
pub proof fn lemma_strictly_below_chain(s: Structure, a: Node, b: Node, c: Node)
    requires
        s.wf(),
        s.nodes.contains(a),
        reaches(s, a, b),
        strictly_below(s, b, c),
    ensures
        strictly_below(s, a, c),
        c != a,
{
    lemma_reaches_ranks(s, a, b);
    assert(reaches(s, b, c));
    lemma_reaches_is_transitive(s, a, b, c);
    lemma_descends_through_a_child(s, b, c, s.children[b].len());
    let k = choose|k: int|
        0 <= k < s.children[b].len() && visitable(s, b, #[trigger] s.children[b][k]) && reaches(
            s,
            s.children[b][k],
            c,
        );
    lemma_reaches_ranks(s, s.children[b][k], c);
    lemma_reaches_ranks(s, a, c);
}

/// States that agree below a node are clean there together.
pub proof fn lemma_agree_keeps_clean(s: Structure, a: State, b: State, node: Node)
    requires
        s.wf(),
        s.nodes.contains(node),
        agree(s, a, b, node),
        clean(s, a, node),
    ensures
        clean(s, b, node),
{
    reveal(clean);
    reveal(agree);
    assert forall|h: Node, d: Node|
        #![trigger reaches(s, node, h), strictly_below(s, h, d)]
        reaches(s, node, h) && s.styles[h].display == Display::Hidden && strictly_below(
            s,
            h,
            d,
        ) implies zeroed(b.layouts[d]) by {
        lemma_strictly_below_chain(s, node, h, d);
        assert(b.layouts[d] == a.layouts[d]);
    }
}

/// States that agree below a node agree below every node at or below it.
pub proof fn lemma_agree_narrows(s: Structure, a: State, b: State, node: Node, x: Node)
    requires
        s.wf(),
        s.nodes.contains(node),
        agree(s, a, b, node),
        reaches(s, node, x),
    ensures
        agree(s, a, b, x),
{
    reveal(agree);
    lemma_reaches_ranks(s, node, x);
    assert forall|y: Node| strictly_below(s, x, y) implies #[trigger] b.layouts[y]
        == a.layouts[y] by {
        lemma_strictly_below_chain(s, node, x, y);
    }
    assert forall|y: Node| reaches(s, x, y) implies #[trigger] b.caches[y] == a.caches[y] by {
        lemma_reaches_is_transitive(s, node, x, y);
    }
}

/// States that agree below a node keep the caches below it honest
/// together.
pub proof fn lemma_agree_keeps_cache_inv(s: Structure, a: State, b: State, node: Node)
    requires
        s.wf(),
        s.nodes.contains(node),
        agree(s, a, b, node),
        cache_inv(s, a, node),
    ensures
        cache_inv(s, b, node),
{
    reveal(cache_inv);
    assert forall|x: Node| #[trigger]
        reaches(s, node, x) && !s.is_childless(x) && has_layout_entry(b.caches[x]) implies clean(
        s,
        b,
        x,
    ) by {
        assert(b.caches[x] == a.caches[x]) by {
            reveal(agree);
        }
        lemma_agree_narrows(s, a, b, node, x);
        lemma_reaches_ranks(s, node, x);
        lemma_agree_keeps_clean(s, a, b, x);
    }
}

/// A quiet step keeps clean what was clean, and the caches honest.
pub proof fn lemma_quiet_keeps(s: Structure, a: State, b: State, node: Node)
    requires
        s.wf(),
        s.nodes.contains(node),
        quiet(s, a, b),
    ensures
        clean(s, a, node) ==> clean(s, b, node),
        cache_inv(s, a, node) ==> cache_inv(s, b, node),
{
    reveal(quiet);
    reveal(clean);
    if cache_inv(s, a, node) {
        reveal(cache_inv);
        assert forall|x: Node| #[trigger]
            reaches(s, node, x) && !s.is_childless(x) && has_layout_entry(
                b.caches[x],
            ) implies clean(s, b, x) by {
            lemma_reaches_ranks(s, node, x);
            assert(has_layout_entry(a.caches[x]));
            assert(clean(s, a, x));
        }
    }
}

/// A node without children is clean.
pub proof fn lemma_leaf_is_clean(s: Structure, st: State, node: Node)
    requires
        s.is_childless(node),
    ensures
        clean(s, st, node),
{
    reveal(clean);
}

/// The caches at and below a node are honest where the node is clean and
/// the caches at and below each child are honest.
pub proof fn lemma_cache_inv_from_children(s: Structure, st: State, node: Node)
    requires
        s.wf(),
        s.nodes.contains(node),
        clean(s, st, node) || s.is_childless(node) || !has_layout_entry(st.caches[node]),
        forall|i: int|
            0 <= i < s.children[node].len() ==> cache_inv(s, st, #[trigger] s.children[node][i]),
    ensures
        cache_inv(s, st, node),
{
    reveal(cache_inv);
    assert forall|x: Node| #[trigger]
        reaches(s, node, x) && !s.is_childless(x) && has_layout_entry(st.caches[x]) implies clean(
        s,
        st,
        x,
    ) by {
        if x != node {
            lemma_descends_through_a_child(s, node, x, s.children[node].len());
            let i = choose|i: int|
                0 <= i < s.children[node].len() && visitable(
                    s,
                    node,
                    #[trigger] s.children[node][i],
                ) && reaches(s, s.children[node][i], x);
            assert(cache_inv(s, st, s.children[node][i]));
        }
    }
}

/// Where the caches at and below a node are honest, so are those at and
/// below each of its children.
pub proof fn lemma_cache_inv_of_child(s: Structure, st: State, node: Node, i: int)
    requires
        s.wf(),
        s.nodes.contains(node),
        0 <= i < s.children[node].len(),
        cache_inv(s, st, node),
    ensures
        cache_inv(s, st, s.children[node][i]),
{
    reveal(cache_inv);
    let child = s.children[node][i];
    assert(s.nodes.contains(child));
    assert forall|x: Node| #[trigger]
        reaches(s, child, x) && !s.is_childless(x) && has_layout_entry(st.caches[x]) implies clean(
        s,
        st,
        x,
    ) by {
        lemma_child_descends(s, node, x, i, s.children[node].len());
        assert(reaches(s, node, x));
    }
}

/// A node that is not hidden is clean where each of its children is.
pub proof fn lemma_clean_from_children(s: Structure, st: State, node: Node)
    requires
        s.wf(),
        s.nodes.contains(node),
        s.styles[node].display != Display::Hidden,
        forall|i: int|
            0 <= i < s.children[node].len() ==> clean(s, st, #[trigger] s.children[node][i]),
    ensures
        clean(s, st, node),
{
    reveal(clean);
    assert forall|h: Node, d: Node|
        #![trigger reaches(s, node, h), strictly_below(s, h, d)]
        reaches(s, node, h) && s.styles[h].display == Display::Hidden && strictly_below(
            s,
            h,
            d,
        ) implies zeroed(st.layouts[d]) by {
        lemma_descends_through_a_child(s, node, h, s.children[node].len());
        let i = choose|i: int|
            0 <= i < s.children[node].len() && visitable(s, node, #[trigger] s.children[node][i])
                && reaches(s, s.children[node][i], h);
        assert(clean(s, st, s.children[node][i]));
    }
}

/// Where everything strictly below a node has the zero layout, the node
/// and every node below it are clean, and the caches below it are honest.
pub proof fn lemma_zeroed_below_is_clean(s: Structure, st: State, node: Node)
    requires
        s.wf(),
        s.nodes.contains(node),
        forall|d: Node| strictly_below(s, node, d) ==> zeroed(#[trigger] st.layouts[d]),
    ensures
        clean(s, st, node),
        cache_inv(s, st, node),
{
    reveal(clean);
    reveal(cache_inv);
    assert forall|x: Node, h: Node, d: Node|
        reaches(s, node, x) && #[trigger] reaches(s, x, h) && #[trigger] strictly_below(
            s,
            h,
            d,
        ) implies zeroed(st.layouts[d]) by {
        lemma_reaches_ranks(s, node, x);
        lemma_reaches_is_transitive(s, node, x, h);
        lemma_strictly_below_chain(s, node, h, d);
    }
    assert(reaches(s, node, node));
}

/// Whether the items stand for the children of `node`, each with the part
/// that its style gives it.
pub open spec fn items_match(s: Structure, node: Node, items: Seq<FlexItem>) -> bool {
    &&& items_of(s, node, items)
    &&& forall|i: int|
        0 <= i < items.len() ==> (#[trigger] items[i]).kind == kind_of(s.styles[s.children[node][i]])
}

/// The items of a container stand for its children, each with its part.
pub proof fn lemma_make_items_match(s: Structure, node: Node, ctx: FlexCtx)
    ensures
        items_match(s, node, spec_make_items(s, node, ctx)),
        spec_make_items(s, node, ctx).len() == s.children[node].len(),
{
    reveal(spec_make_items);
}

/// A step leaves every item with its node and its part.
pub proof fn lemma_item_pass_matches(
    s: Structure,
    node: Node,
    stage: ItemStage,
    ctx: FlexCtx,
    items: Seq<FlexItem>,
    lines: Seq<Line>,
    results: Seq<Size<i64>>,
)
    requires
        items_match(s, node, items),
    ensures
        items_match(s, node, spec_item_pass(stage, ctx, items, lines, results)),
{
    reveal(spec_item_pass);
    let out = spec_item_pass(stage, ctx, items, lines, results);
    assert forall|i: int| 0 <= i < out.len() implies (#[trigger] out[i]).node
        == s.children[node][i] && out[i].kind == kind_of(s.styles[s.children[node][i]]) by {
        assert(items[i].node == s.children[node][i]);
        assert(items[i].kind == kind_of(s.styles[s.children[node][i]]));
    }
}

/// Resolving flexible lengths leaves every item with its node and its part.
pub proof fn lemma_resolve_rounds_matches(
    s: Structure,
    node: Node,
    ctx: FlexCtx,
    items: Seq<FlexItem>,
    lines: Seq<Line>,
    rounds: nat,
)
    requires
        items_match(s, node, items),
    ensures
        items_match(s, node, resolve_rounds(ctx, items, lines, rounds).0),
    decreases rounds,
{
    if rounds == 0 || all_frozen(items) {
    } else {
        let lines1 = spec_line_pass(LineStage::Free, ctx, items, lines, 0, 0);
        let items1 = spec_item_pass(ItemStage::Distribute, ctx, items, lines1, Seq::empty());
        let lines2 = spec_line_pass(LineStage::Violation, ctx, items1, lines1, 0, 0);
        let items2 = spec_item_pass(ItemStage::Freeze, ctx, items1, lines2, Seq::empty());
        lemma_item_pass_matches(s, node, ItemStage::Distribute, ctx, items, lines1, Seq::empty());
        lemma_item_pass_matches(s, node, ItemStage::Freeze, ctx, items1, lines2, Seq::empty());
        lemma_resolve_rounds_matches(s, node, ctx, items2, lines2, (rounds - 1) as nat);
    }
}

/// Collecting the lines leaves every item with its node and its part.
pub proof fn lemma_assigned_items_match(s: Structure, node: Node, ctx: FlexCtx, items: Seq<FlexItem>)
    requires
        items_match(s, node, items),
    ensures
        items_match(s, node, spec_assigned_items(ctx, items)),
{
    reveal(spec_assigned_items);
    let out = spec_assigned_items(ctx, items);
    assert forall|i: int| 0 <= i < out.len() implies (#[trigger] out[i]).node
        == s.children[node][i] && out[i].kind == kind_of(s.styles[s.children[node][i]]) by {
        assert(items[i].node == s.children[node][i]);
        assert(items[i].kind == kind_of(s.styles[s.children[node][i]]));
    }
}

/// Ranking the items leaves every item with its node and its part.
pub proof fn lemma_rank_items_match(
    s: Structure,
    node: Node,
    ctx: FlexCtx,
    items: Seq<FlexItem>,
    lines: Seq<Line>,
)
    requires
        items_match(s, node, items),
    ensures
        items_match(s, node, spec_rank_items(ctx, items, lines)),
{
    reveal(spec_rank_items);
    let out = spec_rank_items(ctx, items, lines);
    assert forall|i: int| 0 <= i < out.len() implies (#[trigger] out[i]).node
        == s.children[node][i] && out[i].kind == kind_of(s.styles[s.children[node][i]]) by {
        assert(items[i].node == s.children[node][i]);
        assert(items[i].kind == kind_of(s.styles[s.children[node][i]]));
    }
}

/// Whether the queries are probes: one for each child at most, none of
/// which asks for layouts to be written or goes to a hidden child.
pub open spec fn quiet_batch(s: Structure, node: Node, queries: Seq<Option<Query>>) -> bool {
    &&& queries.len() == s.children[node].len()
    &&& forall|i: int|
        0 <= i < queries.len() && (#[trigger] queries[i]).is_some() ==> {
            &&& queries[i].unwrap().node == s.children[node][i]
            &&& queries[i].unwrap().run_mode == RunMode::ComputeSize
            &&& s.styles[s.children[node][i]].display != Display::Hidden
        }
}

/// Whether the queries ask the children that play the given part, and only
/// those, to lay themselves out.
pub open spec fn layout_batch(
    s: Structure,
    node: Node,
    queries: Seq<Option<Query>>,
    kind: ItemKind,
) -> bool {
    &&& queries.len() == s.children[node].len()
    &&& forall|i: int|
        0 <= i < queries.len() ==> {
            &&& (#[trigger] queries[i]).is_some() <==> kind_of(s.styles[s.children[node][i]])
                == kind
            &&& queries[i].is_some() ==> queries[i].unwrap().node == s.children[node][i]
                && queries[i].unwrap().run_mode == RunMode::PerformLayout
        }
}

/// What each probe asks of the children.
pub proof fn lemma_probes(s: Structure, node: Node, ctx: FlexCtx, items: Seq<FlexItem>)
    requires
        items_match(s, node, items),
    ensures
        quiet_batch(s, node, spec_queries(Probe::Base, ctx, items)),
        quiet_batch(s, node, spec_queries(Probe::Floor, ctx, items)),
        quiet_batch(s, node, spec_queries(Probe::Cross, ctx, items)),
        quiet_batch(s, node, spec_queries(Probe::AbsoluteSize, ctx, items)),
        layout_batch(s, node, spec_queries(Probe::Final, ctx, items), ItemKind::Flow),
        layout_batch(s, node, spec_queries(Probe::AbsoluteFinal, ctx, items), ItemKind::Absolute),
        layout_batch(s, node, spec_queries(Probe::Hidden, ctx, items), ItemKind::Hidden),
{
    reveal(spec_queries);
    assert forall|i: int| 0 <= i < items.len() implies (#[trigger] items[i]).node
        == s.children[node][i] && items[i].kind == kind_of(s.styles[s.children[node][i]]) by {}
    let base = spec_queries(Probe::Base, ctx, items);
    assert forall|i: int| 0 <= i < base.len() && (#[trigger] base[i]).is_some() implies {
        &&& base[i].unwrap().node == s.children[node][i]
        &&& base[i].unwrap().run_mode == RunMode::ComputeSize
        &&& s.styles[s.children[node][i]].display != Display::Hidden
    } by {
        assert(items[i].kind == kind_of(s.styles[s.children[node][i]]));
    }
    let floor = spec_queries(Probe::Floor, ctx, items);
    assert forall|i: int| 0 <= i < floor.len() && (#[trigger] floor[i]).is_some() implies {
        &&& floor[i].unwrap().node == s.children[node][i]
        &&& floor[i].unwrap().run_mode == RunMode::ComputeSize
        &&& s.styles[s.children[node][i]].display != Display::Hidden
    } by {
        assert(items[i].kind == kind_of(s.styles[s.children[node][i]]));
    }
    let cross = spec_queries(Probe::Cross, ctx, items);
    assert forall|i: int| 0 <= i < cross.len() && (#[trigger] cross[i]).is_some() implies {
        &&& cross[i].unwrap().node == s.children[node][i]
        &&& cross[i].unwrap().run_mode == RunMode::ComputeSize
        &&& s.styles[s.children[node][i]].display != Display::Hidden
    } by {
        assert(items[i].kind == kind_of(s.styles[s.children[node][i]]));
    }
    let sizes = spec_queries(Probe::AbsoluteSize, ctx, items);
    assert forall|i: int| 0 <= i < sizes.len() && (#[trigger] sizes[i]).is_some() implies {
        &&& sizes[i].unwrap().node == s.children[node][i]
        &&& sizes[i].unwrap().run_mode == RunMode::ComputeSize
        &&& s.styles[s.children[node][i]].display != Display::Hidden
    } by {
        assert(items[i].kind == kind_of(s.styles[s.children[node][i]]));
    }
    let finals = spec_queries(Probe::Final, ctx, items);
    assert forall|i: int| 0 <= i < finals.len() implies {
        &&& (#[trigger] finals[i]).is_some() <==> kind_of(s.styles[s.children[node][i]])
            == ItemKind::Flow
        &&& finals[i].is_some() ==> finals[i].unwrap().node == s.children[node][i]
            && finals[i].unwrap().run_mode == RunMode::PerformLayout
    } by {
        assert(items[i].kind == kind_of(s.styles[s.children[node][i]]));
    }
    let placed = spec_queries(Probe::AbsoluteFinal, ctx, items);
    assert forall|i: int| 0 <= i < placed.len() implies {
        &&& (#[trigger] placed[i]).is_some() <==> kind_of(s.styles[s.children[node][i]])
            == ItemKind::Absolute
        &&& placed[i].is_some() ==> placed[i].unwrap().node == s.children[node][i]
            && placed[i].unwrap().run_mode == RunMode::PerformLayout
    } by {
        assert(items[i].kind == kind_of(s.styles[s.children[node][i]]));
    }
    let hidden = spec_queries(Probe::Hidden, ctx, items);
    assert forall|i: int| 0 <= i < hidden.len() implies {
        &&& (#[trigger] hidden[i]).is_some() <==> kind_of(s.styles[s.children[node][i]])
            == ItemKind::Hidden
        &&& hidden[i].is_some() ==> hidden[i].unwrap().node == s.children[node][i]
            && hidden[i].unwrap().run_mode == RunMode::PerformLayout
    } by {
        assert(items[i].kind == kind_of(s.styles[s.children[node][i]]));
    }
}

/// Whether the caches at and below every child of `node` are honest.
pub open spec fn kids_inv(s: Structure, st: State, node: Node) -> bool {
    forall|i: int|
        0 <= i < s.children[node].len() ==> cache_inv(s, st, #[trigger] s.children[node][i])
}

/// Whether every child of `node` that plays the given part is clean.
pub open spec fn kids_clean(s: Structure, st: State, node: Node, kind: ItemKind) -> bool {
    forall|i: int|
        0 <= i < s.children[node].len() && kind_of(s.styles[#[trigger] s.children[node][i]])
            == kind ==> clean(s, st, s.children[node][i])
}

/// Whether `a` and `b` agree below every child of `node`.
pub open spec fn kids_agree(s: Structure, a: State, b: State, node: Node) -> bool {
    forall|i: int| 0 <= i < s.children[node].len() ==> agree(s, a, b, #[trigger] s.children[node][i])
}

/// States that agree below every child of a node keep the children clean
/// and their caches honest together.
pub proof fn lemma_kids_agree_keeps(s: Structure, a: State, b: State, node: Node)
    requires
        s.wf(),
        s.nodes.contains(node),
        kids_agree(s, a, b, node),
    ensures
        kids_inv(s, a, node) ==> kids_inv(s, b, node),
        forall|kind: ItemKind| kids_clean(s, a, node, kind) ==> #[trigger] kids_clean(s, b, node, kind),
{
    if kids_inv(s, a, node) {
        assert forall|i: int| 0 <= i < s.children[node].len() implies cache_inv(
            s,
            b,
            #[trigger] s.children[node][i],
        ) by {
            assert(agree(s, a, b, s.children[node][i]));
            assert(s.nodes.contains(s.children[node][i]));
            lemma_agree_keeps_cache_inv(s, a, b, s.children[node][i]);
        }
    }
    assert forall|kind: ItemKind| kids_clean(s, a, node, kind) implies #[trigger] kids_clean(
        s,
        b,
        node,
        kind,
    ) by {
        assert forall|i: int|
            0 <= i < s.children[node].len() && kind_of(s.styles[#[trigger] s.children[node][i]])
                == kind implies clean(s, b, s.children[node][i]) by {
            assert(agree(s, a, b, s.children[node][i]));
            assert(s.nodes.contains(s.children[node][i]));
            lemma_agree_keeps_clean(s, a, b, s.children[node][i]);
        }
    }
}

/// A quiet step keeps the children clean and their caches honest.
pub proof fn lemma_kids_quiet_keeps(s: Structure, a: State, b: State, node: Node)
    requires
        s.wf(),
        s.nodes.contains(node),
        quiet(s, a, b),
    ensures
        kids_inv(s, a, node) ==> kids_inv(s, b, node),
        forall|kind: ItemKind| kids_clean(s, a, node, kind) ==> #[trigger] kids_clean(s, b, node, kind),
{
    if kids_inv(s, a, node) {
        assert forall|i: int| 0 <= i < s.children[node].len() implies cache_inv(
            s,
            b,
            #[trigger] s.children[node][i],
        ) by {
            assert(s.nodes.contains(s.children[node][i]));
            lemma_quiet_keeps(s, a, b, s.children[node][i]);
        }
    }
    assert forall|kind: ItemKind| kids_clean(s, a, node, kind) implies #[trigger] kids_clean(
        s,
        b,
        node,
        kind,
    ) by {
        assert forall|i: int|
            0 <= i < s.children[node].len() && kind_of(s.styles[#[trigger] s.children[node][i]])
                == kind implies clean(s, b, s.children[node][i]) by {
            assert(s.nodes.contains(s.children[node][i]));
            lemma_quiet_keeps(s, a, b, s.children[node][i]);
        }
    }
}

/// In a tree, a change at or below one child of a node leaves the states
/// agreeing below every other child.
pub proof fn lemma_sibling_agrees(s: Structure, a: State, b: State, node: Node, i: int, j: int)
    requires
        s.wf(),
        separate(s),
        s.nodes.contains(node),
        0 <= i < s.children[node].len(),
        0 <= j < s.children[node].len(),
        i != j,
        inside(s, a, b, s.children[node][i]),
    ensures
        agree(s, a, b, s.children[node][j]),
{
    reveal(inside);
    reveal(agree);
    let from = s.children[node][i];
    let other = s.children[node][j];
    assert forall|x: Node| strictly_below(s, other, x) implies #[trigger] b.layouts[x]
        == a.layouts[x] by {
        assert(reaches(s, other, x));
        assert(!(reaches(s, s.children[node][i], x) && reaches(s, s.children[node][j], x)));
        assert(!strictly_below(s, from, x));
    }
    assert forall|x: Node| reaches(s, other, x) implies #[trigger] b.caches[x] == a.caches[x] by {
        assert(!(reaches(s, s.children[node][i], x) && reaches(s, s.children[node][j], x)));
    }
}

/// Hiding a node and its descendants changes nothing but layouts at and
/// below the node.
pub proof fn lemma_hide_node_inside(s: Structure, st: State, node: Node, order: u32)
    requires
        s.wf(),
        s.nodes.contains(node),
    ensures
        forall|x: Node| !reaches(s, node, x) ==> #[trigger] hide_node(s, st, node, order).layouts[x]
            == st.layouts[x],
        hide_node(s, st, node, order).caches == st.caches,
    decreases s.rank[node], 1nat, 0nat,
{
    let first = st.with_layout(node, with_order(order));
    lemma_hide_children_inside(s, first, node, s.children[node].len());
    assert forall|x: Node| !reaches(s, node, x) implies #[trigger] hide_node(
        s,
        st,
        node,
        order,
    ).layouts[x] == st.layouts[x] by {
        assert(first.layouts[x] == st.layouts[x]);
        assert(!strictly_below(s, node, x));
    }
}

/// Hiding the descendants of a node changes nothing but layouts strictly
/// below the node.
pub proof fn lemma_hide_children_inside(s: Structure, st: State, node: Node, upto: nat)
    requires
        s.wf(),
        s.nodes.contains(node),
        upto <= s.children[node].len(),
    ensures
        forall|x: Node|
            !descends(s, node, x, upto) ==> #[trigger] hide_children(s, st, node, upto).layouts[x]
                == st.layouts[x],
        hide_children(s, st, node, upto).caches == st.caches,
    decreases s.rank[node], 0nat, upto,
{
    if upto > 0 {
        let before = hide_children(s, st, node, (upto - 1) as nat);
        lemma_hide_children_inside(s, st, node, (upto - 1) as nat);
        let child = s.children[node][upto - 1];
        if visitable(s, node, child) {
            lemma_hide_node_inside(s, before, child, order_of((upto - 1) as usize));
        }
        assert forall|x: Node| !descends(s, node, x, upto) implies #[trigger] hide_children(
            s,
            st,
            node,
            upto,
        ).layouts[x] == st.layouts[x] by {
            assert(before.layouts[x] == st.layouts[x]);
        }
    }
}

/// Writing the layouts of a phase changes nothing but the layouts of
/// children of the node.
pub proof fn lemma_written_touches_children(
    s: Structure,
    st: State,
    node: Node,
    phase: Phase,
    ctx: FlexCtx,
    items: Seq<FlexItem>,
    results: Seq<Size<i64>>,
    upto: int,
)
    requires
        items_of(s, node, items),
        upto <= items.len(),
    ensures
        written(st, phase, ctx, items, results, upto).caches == st.caches,
        forall|x: Node|
            (forall|i: int| 0 <= i < s.children[node].len() ==> x != #[trigger] s.children[node][i])
                ==> #[trigger] written(st, phase, ctx, items, results, upto).layouts[x]
                == st.layouts[x],
    decreases upto,
{
    if upto > 0 {
        let before = written(st, phase, ctx, items, results, upto - 1);
        lemma_written_touches_children(s, st, node, phase, ctx, items, results, upto - 1);
        let item = items[upto - 1];
        assert(item.node == s.children[node][upto - 1]);
        assert forall|x: Node|
            (forall|i: int|
                0 <= i < s.children[node].len() ==> x != #[trigger] s.children[node][i])
            implies #[trigger] written(st, phase, ctx, items, results, upto).layouts[x]
            == st.layouts[x] by {
            assert(x != s.children[node][upto - 1]);
            assert(before.layouts[x] == st.layouts[x]);
        }
    }
}

/// In a tree, writing the layouts of a phase changes nothing strictly
/// below any child of the node, and nothing but strictly below the node.
pub proof fn lemma_written_agrees(
    s: Structure,
    st: State,
    node: Node,
    phase: Phase,
    ctx: FlexCtx,
    items: Seq<FlexItem>,
    results: Seq<Size<i64>>,
)
    requires
        s.wf(),
        separate(s),
        s.nodes.contains(node),
        items_of(s, node, items),
    ensures
        kids_agree(s, st, written(st, phase, ctx, items, results, items.len() as int), node),
        below(s, st, written(st, phase, ctx, items, results, items.len() as int), node),
{
    let after = written(st, phase, ctx, items, results, items.len() as int);
    lemma_written_touches_children(s, st, node, phase, ctx, items, results, items.len() as int);
    assert forall|i: int| 0 <= i < s.children[node].len() implies agree(
        s,
        st,
        after,
        #[trigger] s.children[node][i],
    ) by {
        reveal(agree);
        let child = s.children[node][i];
        assert forall|x: Node| strictly_below(s, child, x) implies #[trigger] after.layouts[x]
            == st.layouts[x] by {
            assert forall|j: int| 0 <= j < s.children[node].len() implies x
                != #[trigger] s.children[node][j] by {
                lemma_children_are_apart(s, node, i, j);
            }
        }
    }
    assert(below(s, st, after, node)) by {
        reveal(below);
        assert forall|x: Node| !strictly_below(s, node, x) implies #[trigger] after.layouts[x]
            == st.layouts[x] by {
            assert forall|j: int| 0 <= j < s.children[node].len() implies x
                != #[trigger] s.children[node][j] by {
                assert(s.nodes.contains(s.children[node][j]));
                assert(reaches(s, s.children[node][j], s.children[node][j]));
                lemma_child_descends(s, node, s.children[node][j], j, s.children[node].len());
            }
        }
    }
}

/// Recording an answer in the cache of a node, after a change strictly
/// below the node, is a change at or below the node.
pub proof fn lemma_with_cache_inside(
    s: Structure,
    a: State,
    b: State,
    node: Node,
    slot: int,
    entry: Cache,
)
    requires
        below(s, a, b, node),
    ensures
        inside(s, a, b.with_cache(node, slot, Some(entry)), node),
{
    reveal(below);
    reveal(inside);
    let after = b.with_cache(node, slot, Some(entry));
    assert forall|x: Node| !reaches(s, node, x) implies #[trigger] after.caches[x]
        == a.caches[x] by {
        assert(b.caches[x] == a.caches[x]);
    }
}

/// Recording an answer keeps a step quiet, unless the answer is a layout
/// entry of a node with children.
pub proof fn lemma_with_cache_quiet(
    s: Structure,
    a: State,
    b: State,
    node: Node,
    slot: int,
    entry: Cache,
)
    requires
        b.wf(s),
        s.nodes.contains(node),
        0 <= slot < CACHE_SIZE,
        quiet(s, a, b),
        s.is_childless(node) || entry.run_mode == RunMode::ComputeSize,
    ensures
        quiet(s, a, b.with_cache(node, slot, Some(entry))),
{
    reveal(quiet);
    let after = b.with_cache(node, slot, Some(entry));
    assert forall|x: Node|
        s.nodes.contains(x) && !s.is_childless(x) && has_layout_entry(
            #[trigger] after.caches[x],
        ) implies has_layout_entry(a.caches[x]) by {
        if x == node {
            let k = choose|k: int|
                0 <= k < after.caches[x].len() && (#[trigger] after.caches[x][k]).is_some()
                    && after.caches[x][k].unwrap().run_mode == RunMode::PerformLayout;
            assert(k != slot);
            assert(b.caches[x][k] == after.caches[x][k]);
            assert(has_layout_entry(b.caches[x]));
        } else {
            assert(after.caches[x] == b.caches[x]);
            assert(has_layout_entry(b.caches[x]));
        }
    }
}

/// Recording an answer keeps the caches at and below the node honest, where
/// the node is clean or the answer is no layout entry.
pub proof fn lemma_with_cache_keeps(s: Structure, b: State, node: Node, slot: int, entry: Cache)
    requires
        s.wf(),
        b.wf(s),
        s.nodes.contains(node),
        0 <= slot < CACHE_SIZE,
        cache_inv(s, b, node),
        clean(s, b, node) || s.is_childless(node) || entry.run_mode == RunMode::ComputeSize,
    ensures
        cache_inv(s, b.with_cache(node, slot, Some(entry)), node),
        clean(s, b, node) ==> clean(s, b.with_cache(node, slot, Some(entry)), node),
{
    let after = b.with_cache(node, slot, Some(entry));
    assert(after.layouts == b.layouts);
    reveal(cache_inv);
    reveal(clean);
    assert forall|x: Node| #[trigger]
        reaches(s, node, x) && !s.is_childless(x) && has_layout_entry(
            after.caches[x],
        ) implies clean(s, after, x) by {
        if x == node {
            if !clean(s, b, node) {
                let k = choose|k: int|
                    0 <= k < after.caches[x].len() && (#[trigger] after.caches[x][k]).is_some()
                        && after.caches[x][k].unwrap().run_mode == RunMode::PerformLayout;
                assert(k != slot);
                assert(b.caches[x][k] == after.caches[x][k]);
                assert(has_layout_entry(b.caches[x]));
            }
            assert(clean(s, b, x));
        } else {
            assert(after.caches[x] == b.caches[x]);
            assert(clean(s, b, x));
        }
    }
}

/// What a query does for the hidden subtrees at and below its node: it
/// changes nothing elsewhere; where it only sizes a node that is not
/// hidden, it writes no layout; and where the caches were honest they stay
/// so, and after a query that writes layouts the node is clean.
pub proof fn lemma_node_layout_hides(s: Structure, st: State, q: Query)
    requires
        s.wf(),
        separate(s),
        st.wf(s),
        s.nodes.contains(q.node),
    ensures
        inside(s, st, node_layout(s, st, q).0, q.node),
        q.run_mode == RunMode::ComputeSize && s.styles[q.node].display != Display::Hidden
            ==> quiet(s, st, node_layout(s, st, q).0),
        cache_inv(s, st, q.node) ==> cache_inv(s, node_layout(s, st, q).0, q.node) && (q.run_mode
            == RunMode::PerformLayout ==> clean(s, node_layout(s, st, q).0, q.node)),
    decreases s.rank[q.node], 4nat, 0nat,
{
    reveal(dispatch);
    let n = q.node;
    let mode = cache_run_mode(s, q);
    let found = cache_lookup(
        st.caches[n],
        q.known_dimensions,
        q.available_space,
        mode,
        q.sizing_mode,
    );
    if found.is_some() {
        lemma_same_state(s, st, n);
        if cache_inv(s, st, n) && q.run_mode == RunMode::PerformLayout {
            if s.is_childless(n) {
                lemma_leaf_is_clean(s, st, n);
            } else {
                lemma_lookup_is_an_entry(
                    st.caches[n],
                    st.caches[n].len() as int,
                    q.known_dimensions,
                    q.available_space,
                    mode,
                    q.sizing_mode,
                );
                assert(has_layout_entry(st.caches[n]));
                assert(reaches(s, n, n));
                reveal(cache_inv);
            }
        }
    } else {
        lemma_dispatch_hides(s, st, q);
        lemma_dispatch_follows(s, st, q);
        let computed = dispatch(s, st, q).0;
        let size = dispatch(s, st, q).1;
        let slot = compute_cache_slot(q.known_dimensions, q.available_space) as int;
        let entry = cache_entry(s, q, size);
        let after = computed.with_cache(n, slot, Some(entry));
        assert(node_layout(s, st, q).0 == after);
        lemma_with_cache_inside(s, st, computed, n, slot, entry);
        if q.run_mode == RunMode::ComputeSize && s.styles[n].display != Display::Hidden {
            lemma_with_cache_quiet(s, st, computed, n, slot, entry);
        }
        if cache_inv(s, st, n) {
            if s.is_childless(n) {
                lemma_leaf_is_clean(s, computed, n);
            }
            lemma_with_cache_keeps(s, computed, n, slot, entry);
        }
    }
}

/// What computing an answer does for the hidden subtrees below its node.
pub proof fn lemma_dispatch_hides(s: Structure, st: State, q: Query)
    requires
        s.wf(),
        separate(s),
        st.wf(s),
        s.nodes.contains(q.node),
    ensures
        below(s, st, dispatch(s, st, q).0, q.node),
        q.run_mode == RunMode::ComputeSize && s.styles[q.node].display != Display::Hidden
            ==> quiet(s, st, dispatch(s, st, q).0),
        cache_inv(s, st, q.node) ==> cache_inv(s, dispatch(s, st, q).0, q.node) && (q.run_mode
            == RunMode::PerformLayout || s.styles[q.node].display == Display::Hidden
            || s.is_childless(q.node) ==> clean(s, dispatch(s, st, q).0, q.node)),
    decreases s.rank[q.node], 3nat, 0nat,
{
    reveal(dispatch);
    let n = q.node;
    if s.is_childless(n) {
        lemma_same_state(s, st, n);
        lemma_leaf_is_clean(s, st, n);
    } else {
        match s.styles[n].display {
            Display::Flex => {
                lemma_compute_hides(s, st, q);
            },
            Display::Hidden => {
                let count = s.children[n].len();
                let after = hide_children(s, st, n, count);
                lemma_hide_children_inside(s, st, n, count);
                lemma_hide_children_zeroes(s, st, n, count);
                assert(below(s, st, after, n)) by {
                    reveal(below);
                }
                lemma_zeroed_below_is_clean(s, after, n);
            },
        }
    }
}

/// What the flexbox algorithm does for the hidden subtrees below its
/// container.
pub proof fn lemma_compute_hides(s: Structure, st: State, q: Query)
    requires
        s.wf(),
        separate(s),
        st.wf(s),
        s.nodes.contains(q.node),
        s.styles[q.node].display != Display::Hidden,
    ensures
        below(s, st, spec_compute(s, st, q).0, q.node),
        q.run_mode == RunMode::ComputeSize ==> quiet(s, st, spec_compute(s, st, q).0),
        cache_inv(s, st, q.node) ==> cache_inv(s, spec_compute(s, st, q).0, q.node) && (q.run_mode
            == RunMode::PerformLayout ==> clean(s, spec_compute(s, st, q).0, q.node)),
    decreases s.rank[q.node], 2nat, 0nat,
{
    let style = s.styles[q.node];
    let decided = size_or(q.known_dimensions, styled_size(style, q.parent_size));
    if is_bounded(style, q.parent_size) {
        lemma_preliminary_hides(s, st, q, decided, RunMode::ComputeSize);
        lemma_preliminary_follows(s, st, q, decided, RunMode::ComputeSize);
        let (st1, first) = preliminary(s, st, q, decided, RunMode::ComputeSize);
        let again = size_or(q.known_dimensions, known(bounded_size(style, q.parent_size, first)));
        lemma_preliminary_hides(s, st1, q, again, q.run_mode);
        let after = preliminary(s, st1, q, again, q.run_mode).0;
        lemma_below_chain(s, st, st1, after, q.node);
        if q.run_mode == RunMode::ComputeSize {
            lemma_quiet_chain(s, st, st1, after);
        }
    } else {
        lemma_preliminary_hides(s, st, q, decided, q.run_mode);
    }
}

/// Putting probes to the children of a node writes no layout and changes
/// nothing but strictly below the node.
pub proof fn lemma_quiet_batch(
    s: Structure,
    st: State,
    parent: Node,
    queries: Seq<Option<Query>>,
    upto: nat,
)
    requires
        s.wf(),
        separate(s),
        st.wf(s),
        s.nodes.contains(parent),
        quiet_batch(s, parent, queries),
        upto <= queries.len(),
    ensures
        quiet(s, st, run_queries(s, st, parent, queries, upto).0),
        below(s, st, run_queries(s, st, parent, queries, upto).0, parent),
    decreases s.rank[parent], 0nat, upto,
{
    if upto == 0 {
        lemma_same_state(s, st, parent);
    } else {
        lemma_quiet_batch(s, st, parent, queries, (upto - 1) as nat);
        lemma_run_queries_follows(s, st, parent, queries, (upto - 1) as nat);
        let before = run_queries(s, st, parent, queries, (upto - 1) as nat).0;
        if queries[upto - 1].is_some() {
            let q = queries[upto - 1].unwrap();
            assert(q.node == s.children[parent][upto - 1]);
            assert(visitable(s, parent, q.node));
            lemma_node_layout_hides(s, before, q);
            let after = node_layout(s, before, q).0;
            lemma_inside_child_is_below(s, before, after, parent, upto - 1);
            lemma_below_chain(s, st, before, after, parent);
            lemma_quiet_chain(s, st, before, after);
        }
    }
}

/// Asking the children that play a part to lay themselves out changes
/// nothing but strictly below the node. Where the caches below the children
/// were honest, they stay so; the children that were clean stay so; and the
/// children that were asked are clean.
pub proof fn lemma_layout_batch(
    s: Structure,
    st: State,
    parent: Node,
    queries: Seq<Option<Query>>,
    upto: nat,
    kind: ItemKind,
)
    requires
        s.wf(),
        separate(s),
        st.wf(s),
        s.nodes.contains(parent),
        layout_batch(s, parent, queries, kind),
        upto <= queries.len(),
    ensures
        below(s, st, run_queries(s, st, parent, queries, upto).0, parent),
        kids_inv(s, st, parent) ==> {
            let after = run_queries(s, st, parent, queries, upto).0;
            &&& kids_inv(s, after, parent)
            &&& kids_clean(s, st, parent, ItemKind::Flow) ==> kids_clean(
                s,
                after,
                parent,
                ItemKind::Flow,
            )
            &&& kids_clean(s, st, parent, ItemKind::Absolute) ==> kids_clean(
                s,
                after,
                parent,
                ItemKind::Absolute,
            )
            &&& kids_clean(s, st, parent, ItemKind::Hidden) ==> kids_clean(
                s,
                after,
                parent,
                ItemKind::Hidden,
            )
            &&& forall|i: int|
                0 <= i < upto && kind_of(s.styles[#[trigger] s.children[parent][i]]) == kind
                    ==> clean(s, after, s.children[parent][i])
        },
    decreases s.rank[parent], 0nat, upto,
{
    if upto == 0 {
        lemma_same_state(s, st, parent);
    } else {
        lemma_layout_batch(s, st, parent, queries, (upto - 1) as nat, kind);
        lemma_run_queries_follows(s, st, parent, queries, (upto - 1) as nat);
        let before = run_queries(s, st, parent, queries, (upto - 1) as nat).0;
        let k = upto - 1;
        let child = s.children[parent][k];
        assert(s.nodes.contains(child));
        if queries[k].is_some() {
            let q = queries[k].unwrap();
            assert(q.node == child);
            assert(visitable(s, parent, q.node));
            lemma_node_layout_hides(s, before, q);
            let after = node_layout(s, before, q).0;
            assert(run_queries(s, st, parent, queries, upto).0 == after);
            lemma_inside_child_is_below(s, before, after, parent, k);
            lemma_below_chain(s, st, before, after, parent);
            if kids_inv(s, st, parent) {
                assert(cache_inv(s, before, child));
                assert forall|j: int| 0 <= j < s.children[parent].len() && j != k implies agree(
                    s,
                    before,
                    after,
                    #[trigger] s.children[parent][j],
                ) by {
                    lemma_sibling_agrees(s, before, after, parent, k, j);
                }
                assert forall|j: int| 0 <= j < s.children[parent].len() implies cache_inv(
                    s,
                    after,
                    #[trigger] s.children[parent][j],
                ) by {
                    if j != k {
                        assert(s.nodes.contains(s.children[parent][j]));
                        assert(cache_inv(s, before, s.children[parent][j]));
                        lemma_agree_keeps_cache_inv(s, before, after, s.children[parent][j]);
                    }
                }
                lemma_batch_keeps_clean(s, before, after, parent, k, ItemKind::Flow);
                lemma_batch_keeps_clean(s, before, after, parent, k, ItemKind::Absolute);
                lemma_batch_keeps_clean(s, before, after, parent, k, ItemKind::Hidden);
                assert forall|i: int|
                    0 <= i < upto && kind_of(s.styles[#[trigger] s.children[parent][i]])
                        == kind implies clean(s, after, s.children[parent][i]) by {
                    if i != k {
                        assert(s.nodes.contains(s.children[parent][i]));
                        assert(clean(s, before, s.children[parent][i]));
                        assert(agree(s, before, after, s.children[parent][i]));
                        lemma_agree_keeps_clean(s, before, after, s.children[parent][i]);
                    }
                }
            }
        } else {
            assert(kind_of(s.styles[s.children[parent][k]]) != kind);
        }
    }
}

/// After a child has laid itself out, the other children that were clean
/// still are, and so is that child if it was or has just become so.
pub proof fn lemma_batch_keeps_clean(
    s: Structure,
    before: State,
    after: State,
    parent: Node,
    k: int,
    kind: ItemKind,
)
    requires
        s.wf(),
        s.nodes.contains(parent),
        0 <= k < s.children[parent].len(),
        clean(s, after, s.children[parent][k]),
        forall|j: int|
            0 <= j < s.children[parent].len() && j != k ==> agree(
                s,
                before,
                after,
                #[trigger] s.children[parent][j],
            ),
    ensures
        kids_clean(s, before, parent, kind) ==> kids_clean(s, after, parent, kind),
{
    if kids_clean(s, before, parent, kind) {
        assert forall|j: int|
            0 <= j < s.children[parent].len() && kind_of(s.styles[#[trigger] s.children[parent][j]])
                == kind implies clean(s, after, s.children[parent][j]) by {
            if j != k {
                assert(s.nodes.contains(s.children[parent][j]));
                assert(clean(s, before, s.children[parent][j]));
                assert(agree(s, before, after, s.children[parent][j]));
                lemma_agree_keeps_clean(s, before, after, s.children[parent][j]);
            }
        }
    }
}

/// How far one run of the flexbox algorithm has come from `start`: it has
/// changed nothing but strictly below the container, and, where the caches
/// were honest at the start, those below each child are, and the children
/// that play the parts named are clean.
#[verifier::opaque]
pub open spec fn progress(
    s: Structure,
    start: State,
    st: State,
    node: Node,
    flow: bool,
    absolute: bool,
    hidden: bool,
) -> bool {
    &&& st.wf(s)
    &&& below(s, start, st, node)
    &&& cache_inv(s, start, node) ==> {
        &&& kids_inv(s, st, node)
        &&& flow ==> kids_clean(s, st, node, ItemKind::Flow)
        &&& absolute ==> kids_clean(s, st, node, ItemKind::Absolute)
        &&& hidden ==> kids_clean(s, st, node, ItemKind::Hidden)
    }
}

/// A run starts with nothing changed.
pub proof fn lemma_progress_starts(s: Structure, st: State, node: Node)
    requires
        s.wf(),
        st.wf(s),
        s.nodes.contains(node),
    ensures
        progress(s, st, st, node, false, false, false),
        quiet(s, st, st),
{
    reveal(progress);
    lemma_same_state(s, st, node);
    if cache_inv(s, st, node) {
        assert forall|i: int| 0 <= i < s.children[node].len() implies cache_inv(
            s,
            st,
            #[trigger] s.children[node][i],
        ) by {
            lemma_cache_inv_of_child(s, st, node, i);
        }
    }
}

/// Probes keep the progress of a run, and keep it quiet.
pub proof fn lemma_probes_progress(
    s: Structure,
    start: State,
    st: State,
    node: Node,
    queries: Seq<Option<Query>>,
    flow: bool,
    absolute: bool,
    hidden: bool,
)
    requires
        s.wf(),
        separate(s),
        s.nodes.contains(node),
        progress(s, start, st, node, flow, absolute, hidden),
        quiet_batch(s, node, queries),
    ensures
        progress(
            s,
            start,
            run_queries(s, st, node, queries, queries.len()).0,
            node,
            flow,
            absolute,
            hidden,
        ),
        quiet(s, start, st) ==> quiet(s, start, run_queries(s, st, node, queries, queries.len()).0),
    decreases s.rank[node], 0nat, queries.len() + 1,
{
    reveal(progress);
    let after = run_queries(s, st, node, queries, queries.len()).0;
    lemma_quiet_batch(s, st, node, queries, queries.len());
    lemma_run_queries_follows(s, st, node, queries, queries.len());
    lemma_below_chain(s, start, st, after, node);
    lemma_kids_quiet_keeps(s, st, after, node);
    if quiet(s, start, st) {
        lemma_quiet_chain(s, start, st, after);
    }
}

/// Asking the children that play a part to lay themselves out adds that
/// part to the progress of a run.
pub proof fn lemma_layouts_progress(
    s: Structure,
    start: State,
    st: State,
    node: Node,
    queries: Seq<Option<Query>>,
    kind: ItemKind,
    flow: bool,
    absolute: bool,
    hidden: bool,
)
    requires
        s.wf(),
        separate(s),
        s.nodes.contains(node),
        progress(s, start, st, node, flow, absolute, hidden),
        layout_batch(s, node, queries, kind),
    ensures
        progress(
            s,
            start,
            run_queries(s, st, node, queries, queries.len()).0,
            node,
            flow || kind == ItemKind::Flow,
            absolute || kind == ItemKind::Absolute,
            hidden || kind == ItemKind::Hidden,
        ),
    decreases s.rank[node], 0nat, queries.len() + 1,
{
    reveal(progress);
    let after = run_queries(s, st, node, queries, queries.len()).0;
    lemma_layout_batch(s, st, node, queries, queries.len(), kind);
    lemma_run_queries_follows(s, st, node, queries, queries.len());
    lemma_below_chain(s, start, st, after, node);
}

/// Writing the layouts of a phase keeps the progress of a run.
pub proof fn lemma_written_progress(
    s: Structure,
    start: State,
    st: State,
    node: Node,
    phase: Phase,
    ctx: FlexCtx,
    items: Seq<FlexItem>,
    results: Seq<Size<i64>>,
    flow: bool,
    absolute: bool,
    hidden: bool,
)
    requires
        s.wf(),
        separate(s),
        s.nodes.contains(node),
        items_of(s, node, items),
        progress(s, start, st, node, flow, absolute, hidden),
    ensures
        progress(
            s,
            start,
            written(st, phase, ctx, items, results, items.len() as int),
            node,
            flow,
            absolute,
            hidden,
        ),
{
    reveal(progress);
    let after = written(st, phase, ctx, items, results, items.len() as int);
    lemma_written_agrees(s, st, node, phase, ctx, items, results);
    lemma_written_frame(s, st, node, phase, ctx, items, results, items.len() as int);
    lemma_below_chain(s, start, st, after, node);
    lemma_kids_agree_keeps(s, st, after, node);
}

/// At the end of a run that has asked every child to lay itself out, the
/// container is clean and the caches at and below it are honest.
pub proof fn lemma_progress_ends(s: Structure, start: State, st: State, node: Node)
    requires
        s.wf(),
        s.nodes.contains(node),
        s.styles[node].display != Display::Hidden,
        progress(s, start, st, node, true, true, true),
        cache_inv(s, start, node),
    ensures
        clean(s, st, node),
        cache_inv(s, st, node),
{
    reveal(progress);
    assert forall|i: int| 0 <= i < s.children[node].len() implies clean(
        s,
        st,
        #[trigger] s.children[node][i],
    ) by {
        let kind = kind_of(s.styles[s.children[node][i]]);
        assert(kind == ItemKind::Flow || kind == ItemKind::Absolute || kind == ItemKind::Hidden);
    }
    lemma_clean_from_children(s, st, node);
    lemma_cache_inv_from_children(s, st, node);
}

/// What a quiet run has come to: nothing but strictly below the container
/// has changed, and the caches are as honest as they were.
pub proof fn lemma_quiet_run(s: Structure, start: State, st: State, node: Node)
    requires
        s.wf(),
        s.nodes.contains(node),
        progress(s, start, st, node, false, false, false),
        quiet(s, start, st),
    ensures
        below(s, start, st, node),
        cache_inv(s, start, node) ==> cache_inv(s, st, node),
{
    reveal(progress);
    lemma_quiet_keeps(s, start, st, node);
}

/// What a run that has written layouts has come to.
pub proof fn lemma_progress_is_below(
    s: Structure,
    start: State,
    st: State,
    node: Node,
    flow: bool,
    absolute: bool,
    hidden: bool,
)
    requires
        progress(s, start, st, node, flow, absolute, hidden),
    ensures
        below(s, start, st, node),
        st.wf(s),
{
    reveal(progress);
}

/// What one run of the flexbox algorithm does for the hidden subtrees
/// below its container.
pub proof fn lemma_preliminary_hides(
    s: Structure,
    st: State,
    q: Query,
    known_dimensions: Size<Option<i64>>,
    run_mode: RunMode,
)
    requires
        s.wf(),
        separate(s),
        st.wf(s),
        s.nodes.contains(q.node),
        s.styles[q.node].display != Display::Hidden,
    ensures
        below(s, st, preliminary(s, st, q, known_dimensions, run_mode).0, q.node),
        run_mode == RunMode::ComputeSize ==> quiet(
            s,
            st,
            preliminary(s, st, q, known_dimensions, run_mode).0,
        ),
        cache_inv(s, st, q.node) ==> cache_inv(
            s,
            preliminary(s, st, q, known_dimensions, run_mode).0,
            q.node,
        ) && (run_mode == RunMode::PerformLayout ==> clean(
            s,
            preliminary(s, st, q, known_dimensions, run_mode).0,
            q.node,
        )),
    decreases s.rank[q.node], 1nat, 0nat,
{
    let node = q.node;
    let none = Seq::<Size<i64>>::empty();
    let ctx0 = compute_constants(s.styles[node], known_dimensions, q.parent_size, q.available_space);
    let items0 = spec_make_items(s, node, ctx0);
    let n = items0.len();
    lemma_make_items_match(s, node, ctx0);
    lemma_progress_starts(s, st, node);
    lemma_probes(s, node, ctx0, items0);
    let qs1 = spec_queries(Probe::Base, ctx0, items0);
    lemma_probes_progress(s, st, st, node, qs1, false, false, false);
    let (st1, bases) = run_queries(s, st, node, qs1, n);
    let items1 = spec_item_pass(ItemStage::Base, ctx0, items0, Seq::empty(), bases);
    lemma_item_pass_matches(s, node, ItemStage::Base, ctx0, items0, Seq::empty(), bases);
    lemma_probes(s, node, ctx0, items1);
    let qs2 = spec_queries(Probe::Floor, ctx0, items1);
    lemma_probes_progress(s, st, st1, node, qs2, false, false, false);
    let (st2, floors) = run_queries(s, st1, node, qs2, n);
    let items2 = spec_item_pass(ItemStage::Floor, ctx0, items1, Seq::empty(), floors);
    lemma_item_pass_matches(s, node, ItemStage::Floor, ctx0, items1, Seq::empty(), floors);
    let items3 = spec_assigned_items(ctx0, items2);
    lemma_assigned_items_match(s, node, ctx0, items2);
    let lines0 = spec_collected_lines(ctx0, items2);
    let lines1 = spec_line_pass(LineStage::Measure, ctx0, items3, lines0, 0, 0);
    let ctx1 = FlexCtx {
        inner_main: inner_main_size(ctx0, longest(lines1, lines1.len() as int)),
        ..ctx0
    };
    let lines2 = spec_line_pass(LineStage::Direction, ctx1, items3, lines1, 0, 0);
    let items4 = spec_item_pass(ItemStage::Init, ctx1, items3, lines2, none);
    lemma_item_pass_matches(s, node, ItemStage::Init, ctx1, items3, lines2, none);
    let (items5, lines3) = resolve_rounds(ctx1, items4, lines2, items4.len());
    lemma_resolve_rounds_matches(s, node, ctx1, items4, lines2, items4.len());
    lemma_probes(s, node, ctx1, items5);
    let qs3 = spec_queries(Probe::Cross, ctx1, items5);
    lemma_probes_progress(s, st, st2, node, qs3, false, false, false);
    let (st3, crosses) = run_queries(s, st2, node, qs3, n);
    let items6 = spec_item_pass(ItemStage::Cross, ctx1, items5, lines3, crosses);
    lemma_item_pass_matches(s, node, ItemStage::Cross, ctx1, items5, lines3, crosses);
    let lines4 = spec_line_pass(LineStage::CrossSize, ctx1, items6, lines3, 0, 0);
    let count = number(lines4.len() as usize);
    let lines5 = spec_line_pass(
        LineStage::Stretch,
        ctx1,
        items6,
        lines4,
        stretch_amount(ctx1, cross_total(lines4, lines4.len() as int), count),
        0,
    );
    let total = cross_total(lines5, lines5.len() as int);
    let ctx2 = FlexCtx { inner_cross: inner_cross_size(ctx1, total, count), ..ctx1 };
    let ctx = FlexCtx { container: container_size(ctx2), ..ctx2 };
    if run_mode == RunMode::ComputeSize {
        lemma_quiet_run(s, st, st3, node);
    } else {
        let items7 = spec_item_pass(ItemStage::UsedCross, ctx, items6, lines5, none);
        lemma_item_pass_matches(s, node, ItemStage::UsedCross, ctx, items6, lines5, none);
        let lines6 = spec_line_pass(LineStage::Used, ctx, items7, lines5, 0, 0);
        let lines7 = spec_rank_lines(lines6);
        let lines8 = spec_line_pass(LineStage::Offset, ctx, items7, lines7, total, count);
        let items8 = spec_rank_items(ctx, items7, lines8);
        lemma_rank_items_match(s, node, ctx, items7, lines8);
        let items9 = spec_item_pass(ItemStage::Place, ctx, items8, lines8, none);
        lemma_item_pass_matches(s, node, ItemStage::Place, ctx, items8, lines8, none);
        lemma_probes(s, node, ctx, items9);
        let qs4 = spec_queries(Probe::Final, ctx, items9);
        lemma_layouts_progress(s, st, st3, node, qs4, ItemKind::Flow, false, false, false);
        let (st4, finals) = run_queries(s, st3, node, qs4, n);
        lemma_written_progress(s, st, st4, node, Phase::Flow, ctx, items9, finals, true, false, false);
        let st5 = written(st4, Phase::Flow, ctx, items9, finals, n as int);
        let qs5 = spec_queries(Probe::AbsoluteSize, ctx, items9);
        lemma_probes_progress(s, st, st5, node, qs5, true, false, false);
        let (st6, measured) = run_queries(s, st5, node, qs5, n);
        let items10 = spec_item_pass(ItemStage::AbsoluteSize, ctx, items9, lines8, measured);
        lemma_item_pass_matches(s, node, ItemStage::AbsoluteSize, ctx, items9, lines8, measured);
        lemma_probes(s, node, ctx, items10);
        let qs6 = spec_queries(Probe::AbsoluteFinal, ctx, items10);
        lemma_layouts_progress(s, st, st6, node, qs6, ItemKind::Absolute, true, false, false);
        let (st7, placed) = run_queries(s, st6, node, qs6, n);
        lemma_written_progress(
            s,
            st,
            st7,
            node,
            Phase::Absolute,
            ctx,
            items10,
            placed,
            true,
            true,
            false,
        );
        let st8 = written(st7, Phase::Absolute, ctx, items10, placed, n as int);
        lemma_written_progress(s, st, st8, node, Phase::Hidden, ctx, items10, none, true, true, false);
        let st9 = written(st8, Phase::Hidden, ctx, items10, none, n as int);
        let qs7 = spec_queries(Probe::Hidden, ctx, items10);
        lemma_layouts_progress(s, st, st9, node, qs7, ItemKind::Hidden, true, true, false);
        let st10 = run_queries(s, st9, node, qs7, n).0;
        lemma_progress_is_below(s, st, st10, node, true, true, true);
        if cache_inv(s, st, node) {
            lemma_progress_ends(s, st, st10, node);
        }
    }
}

/// Whether no node with children at or below `node` holds a layout entry
/// in its cache, as in a tree that has not been laid out yet.
pub open spec fn not_laid_out(s: Structure, st: State, node: Node) -> bool {
    forall|x: Node| #[trigger]
        reaches(s, node, x) && !s.is_childless(x) ==> !has_layout_entry(st.caches[x])
}

/// The caches of a tree that has not been laid out yet are honest.
pub proof fn lemma_not_laid_out_is_honest(s: Structure, st: State, node: Node)
    requires
        not_laid_out(s, st, node),
    ensures
        cache_inv(s, st, node),
{
    reveal(cache_inv);
}

/// A step that leaves zero layouts zero leaves clean what was clean.
pub proof fn lemma_zeroed_keeps_clean(s: Structure, a: State, b: State, node: Node)
    requires
        keeps_zeroed(a, b),
        clean(s, a, node),
    ensures
        clean(s, b, node),
{
    reveal(clean);
    assert forall|h: Node, d: Node|
        #![trigger reaches(s, node, h), strictly_below(s, h, d)]
        reaches(s, node, h) && s.styles[h].display == Display::Hidden && strictly_below(
            s,
            h,
            d,
        ) implies zeroed(b.layouts[d]) by {
        assert(zeroed(a.layouts[d]));
    }
}

/// A step that leaves zero layouts zero and the caches as they are leaves
/// the caches honest.
pub proof fn lemma_zeroed_keeps_cache_inv(s: Structure, a: State, b: State, node: Node)
    requires
        keeps_zeroed(a, b),
        b.caches == a.caches,
        cache_inv(s, a, node),
    ensures
        cache_inv(s, b, node),
{
    reveal(cache_inv);
    assert forall|x: Node| #[trigger]
        reaches(s, node, x) && !s.is_childless(x) && has_layout_entry(b.caches[x]) implies clean(
        s,
        b,
        x,
    ) by {
        lemma_zeroed_keeps_clean(s, a, b, x);
    }
}

/// Below a hidden node, a layout pass leaves nothing but zero layouts.
///
/// Let the structure be a tree, and let the caches at and below `root` be
/// honest: every node whose cache holds a layout entry has been laid out,
/// as after an earlier pass from `root`, or as in a tree that has not been
/// laid out at all. Then after a layout pass from `root`, every node that
/// lies strictly below a hidden node at or below `root` has zero size and
/// lies at the origin; and the caches are honest again, so that the same
/// holds after every further pass from `root`.
///
/// Hidden nodes above `root` do not count: a pass lays out what lies below
/// its root as if the root were shown.
pub proof fn lemma_pass_zeroes_hidden_subtrees(
    s: Structure,
    st: State,
    root: Node,
    available_space: Size<AvailableSpace>,
)
    requires
        s.wf(),
        separate(s),
        st.wf(s),
        s.nodes.contains(root),
        cache_inv(s, st, root) || not_laid_out(s, st, root),
    ensures
        cache_inv(s, layout_pass(s, st, root, available_space), root),
        forall|h: Node, d: Node|
            #![trigger reaches(s, root, h), strictly_below(s, h, d)]
            reaches(s, root, h) && s.styles[h].display == Display::Hidden && strictly_below(s, h, d)
                ==> layout_pass(s, st, root, available_space).layouts[d].size == zero_size()
                && layout_pass(s, st, root, available_space).layouts[d].location == zero_point(),
{
    if not_laid_out(s, st, root) {
        lemma_not_laid_out_is_honest(s, st, root);
    }
    let q = root_query(root, available_space);
    let (solved, size) = node_layout(s, st, q);
    lemma_node_layout_hides(s, st, q);
    lemma_node_layout_follows(s, st, q);
    let placed = Layout { order: 0, size, location: zero_point() };
    let start = solved.with_layout(root, placed);
    assert(agree(s, solved, start, root)) by {
        reveal(agree);
        assert forall|x: Node| strictly_below(s, root, x) implies #[trigger] start.layouts[x]
            == solved.layouts[x] by {
            if x == root {
                assert(reaches(s, root, root));
                lemma_strictly_below_chain(s, root, root, root);
            }
        }
    }
    lemma_agree_keeps_clean(s, solved, start, root);
    lemma_agree_keeps_cache_inv(s, solved, start, root);
    let after = round_node(s, start, root, zero_point());
    assert(after == layout_pass(s, st, root, available_space));
    lemma_round_node_keeps_zeroed(s, start, root, zero_point());
    crate::laws::repeat::lemma_round_node_settles(s, start, root, zero_point());
    lemma_zeroed_keeps_clean(s, start, after, root);
    lemma_zeroed_keeps_cache_inv(s, start, after, root);
    reveal(clean);
}

} // verus!

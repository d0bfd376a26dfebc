//! Throughout a tree, a first layout pass gives no shown node less than
//! its lower bound.

use vstd::prelude::*;
use crate::compute::common::{cross_of, main_of};
use crate::compute::flex_lines::{
    cross_total, longest, number, spec_assigned_items, spec_collected_lines, spec_line_pass,
    spec_rank_items, spec_rank_lines, LineStage,
};
use crate::compute::flex_model::{
    compute_constants, kind_of, make_item, FlexCtx, FlexItem, ItemKind, Line,
};
use crate::compute::flex_steps::{absolute_size, result_at, spec_item_pass, ItemStage};
use crate::compute::flexbox::{
    container_size, inner_cross_size, inner_main_size, query_for, resolve_rounds, spec_make_items,
    spec_queries, stretch_amount, Probe,
};
use crate::compute::flexbox::{
    bounded_size, is_bounded, layout_for, preliminary, run_queries, spec_compute, styled_size,
    written, Phase,
};
use crate::compute::{
    absolute, cache_entry, cache_lookup, cache_run_mode, compute_cache_slot, dispatch,
    layout_pass, node_layout, root_query, round_children, round_node, rounded, solved_pass, Query,
};
use crate::fixed::LIMIT;
use crate::geometry::{zero_point, Point};
use crate::laws::hidden::descends;
use crate::laws::repeat::{children_in_reach, in_reach, settled};
use crate::laws::bounds::{lemma_leaf_respects_bounds, lemma_rounding_keeps_lower_bound};
use crate::laws::invariants::lemma_node_layout_follows;
use crate::layout::{Layout, SizingMode};
use crate::style::AvailableSpace;
use crate::geometry::{known, size_or};
use crate::laws::bounds::lemma_container_respects_bounds;
use crate::laws::invariants::{
    lemma_dispatch_follows, lemma_lookup_is_an_entry, lemma_preliminary_follows,
    lemma_run_queries_follows, lemma_written_frame,
};
use crate::laws::shape::{lemma_children_are_apart, separate};
use crate::layout::{RunMode, CACHE_SIZE};
use crate::fixed::min;
use crate::geometry::Size;
use crate::laws::bounds::lemma_items_respect_lower_bound;
use crate::compute::visitable;
use crate::laws::hidden::reaches;
use crate::laws::shape::{lemma_child_descends, lemma_reaches_ranks, strictly_below};
use crate::laws::hidden_tree::{
    agree, below, has_layout_entry, inside, kids_agree, layout_batch, lemma_agree_narrows,
    lemma_node_layout_hides, lemma_preliminary_hides, lemma_probes, lemma_sibling_agrees,
    lemma_written_agrees, quiet, items_match, lemma_assigned_items_match, lemma_item_pass_matches,
    lemma_make_items_match, lemma_rank_items_match,
};
use crate::layout::Cache;
use crate::node::Node;
use crate::style::{Dimension, Display};
use crate::tree::{State, Structure};

verus! {

/// The lower bound that a dimension gives whatever it is resolved against:
/// an absolute length.
pub open spec fn lower(d: Dimension) -> Option<i64> {
    match d {
        Dimension::Points(m) => Some(m),
        _ => None,
    }
}

/// Whether a length is not below a bound, where there is one.
pub open spec fn at_least(value: i64, bound: Option<i64>) -> bool {
    bound.is_some() ==> value >= bound.unwrap()
}

/// Whether a size is not below the absolute lower bounds of a node.
pub open spec fn respects(s: Structure, node: Node, size: Size<i64>) -> bool {
    &&& at_least(size.width, lower(s.styles[node].min_size.width))
    &&& at_least(size.height, lower(s.styles[node].min_size.height))
}

/// Whether on each axis an answer is not below the known dimension or the
/// absolute lower bound of the node, whichever is less.
pub open spec fn answers(s: Structure, node: Node, known: Size<Option<i64>>, answer: Size<i64>) -> bool {
    &&& known.width.is_some() && lower(s.styles[node].min_size.width).is_some() ==> answer.width
        >= min(known.width.unwrap(), lower(s.styles[node].min_size.width).unwrap())
    &&& known.height.is_some() && lower(s.styles[node].min_size.height).is_some()
        ==> answer.height >= min(
        known.height.unwrap(),
        lower(s.styles[node].min_size.height).unwrap(),
    )
}

/// Whether the items hold the lower bounds and the styles of the children
/// they stand for.
pub open spec fn items_bounded(s: Structure, node: Node, row: bool, items: Seq<FlexItem>) -> bool {
    &&& items_match(s, node, items)
    &&& forall|i: int|
        0 <= i < items.len() ==> {
            &&& (#[trigger] items[i]).style == s.styles[s.children[node][i]]
            &&& lower(main_of(s.styles[s.children[node][i]].min_size, row)).is_some()
                ==> main_of(items[i].min_size, row) == lower(
                main_of(s.styles[s.children[node][i]].min_size, row),
            )
            &&& lower(cross_of(s.styles[s.children[node][i]].min_size, row)).is_some()
                ==> cross_of(items[i].min_size, row) == lower(
                cross_of(s.styles[s.children[node][i]].min_size, row),
            )
        }
}

/// Whether the target main size of every item is not below the absolute
/// lower bound of its child.
pub open spec fn main_bounded(s: Structure, node: Node, row: bool, items: Seq<FlexItem>) -> bool {
    forall|i: int|
        0 <= i < items.len() ==> at_least(
            (#[trigger] items[i]).target_main,
            lower(main_of(s.styles[s.children[node][i]].min_size, row)),
        )
}

/// Whether the hypothetical cross size of every item is not below the
/// absolute lower bound of its child.
pub open spec fn cross_hypothetically_bounded(
    s: Structure,
    node: Node,
    row: bool,
    items: Seq<FlexItem>,
) -> bool {
    forall|i: int|
        0 <= i < items.len() ==> at_least(
            (#[trigger] items[i]).hypothetical_cross,
            lower(cross_of(s.styles[s.children[node][i]].min_size, row)),
        )
}

/// Whether the target cross size of every item is not below the absolute
/// lower bound of its child.
pub open spec fn cross_bounded(s: Structure, node: Node, row: bool, items: Seq<FlexItem>) -> bool {
    forall|i: int|
        0 <= i < items.len() ==> at_least(
            (#[trigger] items[i]).target_cross,
            lower(cross_of(s.styles[s.children[node][i]].min_size, row)),
        )
}

/// The items of a container hold the lower bounds and the styles of its
/// children.
pub proof fn lemma_make_items_bounded(s: Structure, node: Node, ctx: FlexCtx)
    ensures
        items_bounded(s, node, ctx.row, spec_make_items(s, node, ctx)),
{
    lemma_make_items_match(s, node, ctx);
    reveal(spec_make_items);
    let items = spec_make_items(s, node, ctx);
    assert forall|i: int| 0 <= i < items.len() implies {
        &&& (#[trigger] items[i]).style == s.styles[s.children[node][i]]
        &&& lower(main_of(s.styles[s.children[node][i]].min_size, ctx.row)).is_some()
            ==> main_of(items[i].min_size, ctx.row) == lower(
            main_of(s.styles[s.children[node][i]].min_size, ctx.row),
        )
        &&& lower(cross_of(s.styles[s.children[node][i]].min_size, ctx.row)).is_some()
            ==> cross_of(items[i].min_size, ctx.row) == lower(
            cross_of(s.styles[s.children[node][i]].min_size, ctx.row),
        )
    } by {
        assert(items[i] == make_item(ctx, s.children[node][i], s.styles[s.children[node][i]]));
    }
}

/// A step leaves every item with the lower bounds and the style of its
/// child.
pub proof fn lemma_item_pass_bounded(
    s: Structure,
    node: Node,
    row: bool,
    stage: ItemStage,
    ctx: FlexCtx,
    items: Seq<FlexItem>,
    lines: Seq<Line>,
    results: Seq<Size<i64>>,
)
    requires
        items_bounded(s, node, row, items),
    ensures
        items_bounded(s, node, row, spec_item_pass(stage, ctx, items, lines, results)),
{
    lemma_item_pass_matches(s, node, stage, ctx, items, lines, results);
    reveal(spec_item_pass);
    let out = spec_item_pass(stage, ctx, items, lines, results);
    assert forall|i: int| 0 <= i < out.len() implies {
        &&& (#[trigger] out[i]).style == s.styles[s.children[node][i]]
        &&& lower(main_of(s.styles[s.children[node][i]].min_size, row)).is_some() ==> main_of(
            out[i].min_size,
            row,
        ) == lower(main_of(s.styles[s.children[node][i]].min_size, row))
        &&& lower(cross_of(s.styles[s.children[node][i]].min_size, row)).is_some() ==> cross_of(
            out[i].min_size,
            row,
        ) == lower(cross_of(s.styles[s.children[node][i]].min_size, row))
    } by {
        assert(items[i].style == s.styles[s.children[node][i]]);
        assert(out[i].min_size == items[i].min_size);
        assert(out[i].style == items[i].style);
    }
}

/// Collecting the lines leaves every item with the lower bounds and the
/// style of its child.
pub proof fn lemma_assigned_items_bounded(
    s: Structure,
    node: Node,
    row: bool,
    ctx: FlexCtx,
    items: Seq<FlexItem>,
)
    requires
        items_bounded(s, node, row, items),
    ensures
        items_bounded(s, node, row, spec_assigned_items(ctx, items)),
{
    lemma_assigned_items_match(s, node, ctx, items);
    reveal(spec_assigned_items);
    let out = spec_assigned_items(ctx, items);
    assert forall|i: int| 0 <= i < out.len() implies {
        &&& (#[trigger] out[i]).style == s.styles[s.children[node][i]]
        &&& lower(main_of(s.styles[s.children[node][i]].min_size, row)).is_some() ==> main_of(
            out[i].min_size,
            row,
        ) == lower(main_of(s.styles[s.children[node][i]].min_size, row))
        &&& lower(cross_of(s.styles[s.children[node][i]].min_size, row)).is_some() ==> cross_of(
            out[i].min_size,
            row,
        ) == lower(cross_of(s.styles[s.children[node][i]].min_size, row))
    } by {
        assert(items[i].style == s.styles[s.children[node][i]]);
    }
}

/// Ranking the items leaves every item with the lower bounds, the style
/// and the target sizes it had.
pub proof fn lemma_rank_items_bounded(
    s: Structure,
    node: Node,
    row: bool,
    ctx: FlexCtx,
    items: Seq<FlexItem>,
    lines: Seq<Line>,
)
    requires
        items_bounded(s, node, row, items),
    ensures
        items_bounded(s, node, row, spec_rank_items(ctx, items, lines)),
        main_bounded(s, node, row, items) ==> main_bounded(
            s,
            node,
            row,
            spec_rank_items(ctx, items, lines),
        ),
        cross_bounded(s, node, row, items) ==> cross_bounded(
            s,
            node,
            row,
            spec_rank_items(ctx, items, lines),
        ),
{
    lemma_rank_items_match(s, node, ctx, items, lines);
    reveal(spec_rank_items);
    let out = spec_rank_items(ctx, items, lines);
    assert forall|i: int| 0 <= i < out.len() implies {
        &&& (#[trigger] out[i]).style == s.styles[s.children[node][i]]
        &&& lower(main_of(s.styles[s.children[node][i]].min_size, row)).is_some() ==> main_of(
            out[i].min_size,
            row,
        ) == lower(main_of(s.styles[s.children[node][i]].min_size, row))
        &&& lower(cross_of(s.styles[s.children[node][i]].min_size, row)).is_some() ==> cross_of(
            out[i].min_size,
            row,
        ) == lower(cross_of(s.styles[s.children[node][i]].min_size, row))
    } by {
        assert(items[i].style == s.styles[s.children[node][i]]);
    }
    if main_bounded(s, node, row, items) {
        assert forall|i: int| 0 <= i < out.len() implies at_least(
            (#[trigger] out[i]).target_main,
            lower(main_of(s.styles[s.children[node][i]].min_size, row)),
        ) by {
            assert(out[i].target_main == items[i].target_main);
        }
    }
    if cross_bounded(s, node, row, items) {
        assert forall|i: int| 0 <= i < out.len() implies at_least(
            (#[trigger] out[i]).target_cross,
            lower(cross_of(s.styles[s.children[node][i]].min_size, row)),
        ) by {
            assert(out[i].target_cross == items[i].target_cross);
        }
    }
}

/// Resolving flexible lengths leaves every item with the lower bounds and
/// the style of its child.
pub proof fn lemma_resolve_rounds_bounded(
    s: Structure,
    node: Node,
    row: bool,
    ctx: FlexCtx,
    items: Seq<FlexItem>,
    lines: Seq<Line>,
    rounds: nat,
)
    requires
        items_bounded(s, node, row, items),
    ensures
        items_bounded(s, node, row, resolve_rounds(ctx, items, lines, rounds).0),
    decreases rounds,
{
    if rounds == 0 || crate::compute::flexbox::all_frozen(items) {
    } else {
        let lines1 = spec_line_pass(LineStage::Free, ctx, items, lines, 0, 0);
        let items1 = spec_item_pass(ItemStage::Distribute, ctx, items, lines1, Seq::empty());
        let lines2 = spec_line_pass(LineStage::Violation, ctx, items1, lines1, 0, 0);
        let items2 = spec_item_pass(ItemStage::Freeze, ctx, items1, lines2, Seq::empty());
        lemma_item_pass_bounded(s, node, row, ItemStage::Distribute, ctx, items, lines1, Seq::empty());
        lemma_item_pass_bounded(s, node, row, ItemStage::Freeze, ctx, items1, lines2, Seq::empty());
        lemma_resolve_rounds_bounded(s, node, row, ctx, items2, lines2, (rounds - 1) as nat);
    }
}

/// The steps that size and place the items across the main axis leave the
/// target main sizes as they are; sizing across sets hypothetical cross
/// sizes, and settling the cross sizes sets target cross sizes, that are not
/// below the lower bounds.
pub proof fn lemma_later_steps_bounded(
    s: Structure,
    node: Node,
    row: bool,
    stage: ItemStage,
    ctx: FlexCtx,
    items: Seq<FlexItem>,
    lines: Seq<Line>,
    results: Seq<Size<i64>>,
)
    requires
        ctx.row == row,
        items_bounded(s, node, row, items),
        stage == ItemStage::Cross || stage == ItemStage::UsedCross || stage == ItemStage::Place,
    ensures
        main_bounded(s, node, row, items) ==> main_bounded(
            s,
            node,
            row,
            spec_item_pass(stage, ctx, items, lines, results),
        ),
        stage == ItemStage::Cross ==> cross_hypothetically_bounded(
            s,
            node,
            row,
            spec_item_pass(stage, ctx, items, lines, results),
        ),
        stage == ItemStage::UsedCross && cross_hypothetically_bounded(s, node, row, items)
            ==> cross_bounded(s, node, row, spec_item_pass(stage, ctx, items, lines, results)),
        stage == ItemStage::Place && cross_bounded(s, node, row, items) ==> cross_bounded(
            s,
            node,
            row,
            spec_item_pass(stage, ctx, items, lines, results),
        ),
{
    reveal(spec_item_pass);
    let out = spec_item_pass(stage, ctx, items, lines, results);
    if main_bounded(s, node, row, items) {
        assert forall|i: int| 0 <= i < out.len() implies at_least(
            (#[trigger] out[i]).target_main,
            lower(main_of(s.styles[s.children[node][i]].min_size, row)),
        ) by {
            assert(out[i].target_main == items[i].target_main);
        }
    }
    if stage == ItemStage::Cross {
        assert forall|i: int| 0 <= i < out.len() implies at_least(
            (#[trigger] out[i]).hypothetical_cross,
            lower(cross_of(s.styles[s.children[node][i]].min_size, row)),
        ) by {
            assert(items[i].style == s.styles[s.children[node][i]]);
        }
    }
    if stage == ItemStage::UsedCross && cross_hypothetically_bounded(s, node, row, items) {
        assert forall|i: int| 0 <= i < out.len() implies at_least(
            (#[trigger] out[i]).target_cross,
            lower(cross_of(s.styles[s.children[node][i]].min_size, row)),
        ) by {
            assert(items[i].style == s.styles[s.children[node][i]]);
            assert(at_least(
                items[i].hypothetical_cross,
                lower(cross_of(s.styles[s.children[node][i]].min_size, row)),
            ));
        }
    }
    if stage == ItemStage::Place && cross_bounded(s, node, row, items) {
        assert forall|i: int| 0 <= i < out.len() implies at_least(
            (#[trigger] out[i]).target_cross,
            lower(cross_of(s.styles[s.children[node][i]].min_size, row)),
        ) by {
            assert(out[i].target_cross == items[i].target_cross);
        }
    }
}

/// Whether every query knows both dimensions, neither below the absolute
/// lower bound of the child it goes to.
pub open spec fn targets_bounded(s: Structure, node: Node, queries: Seq<Option<Query>>) -> bool {
    &&& queries.len() == s.children[node].len()
    &&& forall|i: int|
        0 <= i < queries.len() && (#[trigger] queries[i]).is_some() ==> {
            let known = queries[i].unwrap().known_dimensions;
            &&& known.width.is_some()
            &&& known.height.is_some()
            &&& respects(
                s,
                s.children[node][i],
                Size { width: known.width.unwrap(), height: known.height.unwrap() },
            )
        }
}

/// The final queries to the flow items know sizes that are not below the
/// lower bounds.
pub proof fn lemma_final_targets(s: Structure, node: Node, ctx: FlexCtx, items: Seq<FlexItem>)
    requires
        items_bounded(s, node, ctx.row, items),
        main_bounded(s, node, ctx.row, items),
        cross_bounded(s, node, ctx.row, items),
    ensures
        targets_bounded(s, node, spec_queries(Probe::Final, ctx, items)),
{
    reveal(spec_queries);
    let qs = spec_queries(Probe::Final, ctx, items);
    assert forall|i: int| 0 <= i < qs.len() && (#[trigger] qs[i]).is_some() implies {
        let known = qs[i].unwrap().known_dimensions;
        &&& known.width.is_some()
        &&& known.height.is_some()
        &&& respects(
            s,
            s.children[node][i],
            Size { width: known.width.unwrap(), height: known.height.unwrap() },
        )
    } by {
        assert(qs[i] == query_for(Probe::Final, ctx, items[i]));
        assert(at_least(
            items[i].target_main,
            lower(main_of(s.styles[s.children[node][i]].min_size, ctx.row)),
        ));
        assert(at_least(
            items[i].target_cross,
            lower(cross_of(s.styles[s.children[node][i]].min_size, ctx.row)),
        ));
    }
}

/// The final queries to the absolutely placed children know sizes that are
/// not below the lower bounds.
pub proof fn lemma_absolute_targets(
    s: Structure,
    node: Node,
    ctx: FlexCtx,
    items: Seq<FlexItem>,
    lines: Seq<Line>,
    measured: Seq<Size<i64>>,
)
    requires
        items_bounded(s, node, ctx.row, items),
    ensures
        targets_bounded(
            s,
            node,
            spec_queries(
                Probe::AbsoluteFinal,
                ctx,
                spec_item_pass(ItemStage::AbsoluteSize, ctx, items, lines, measured),
            ),
        ),
{
    reveal(spec_queries);
    reveal(spec_item_pass);
    let sized = spec_item_pass(ItemStage::AbsoluteSize, ctx, items, lines, measured);
    let qs = spec_queries(Probe::AbsoluteFinal, ctx, sized);
    assert forall|i: int| 0 <= i < qs.len() && (#[trigger] qs[i]).is_some() implies {
        let known = qs[i].unwrap().known_dimensions;
        &&& known.width.is_some()
        &&& known.height.is_some()
        &&& respects(
            s,
            s.children[node][i],
            Size { width: known.width.unwrap(), height: known.height.unwrap() },
        )
    } by {
        assert(qs[i] == query_for(Probe::AbsoluteFinal, ctx, sized[i]));
        assert(items[i].style == s.styles[s.children[node][i]]);
        let size = absolute_size(ctx, items[i], result_at(measured, i));
        assert(sized[i].target_main == main_of(size, ctx.row));
        assert(sized[i].target_cross == cross_of(size, ctx.row));
        assert(respects(s, s.children[node][i], size));
    }
}

/// Whether `to` is `from` or one of its descendants, and neither it nor any
/// node on the way to it is hidden.
pub open spec fn shows(s: Structure, from: Node, to: Node) -> bool
    decreases s.rank[from], 1nat, 0nat,
{
    s.styles[from].display != Display::Hidden && (from == to || shows_via(
        s,
        from,
        to,
        s.children[from].len(),
    ))
}

/// Whether one of the first `upto` children of `from` shows `to`.
pub open spec fn shows_via(s: Structure, from: Node, to: Node, upto: nat) -> bool
    decreases s.rank[from], 0nat, upto,
{
    if upto == 0 {
        false
    } else {
        let child = s.children[from][upto - 1];
        shows_via(s, from, to, (upto - 1) as nat) || (visitable(s, from, child) && shows(
            s,
            child,
            to,
        ))
    }
}

/// A node that is shown through the first so many children of a node is
/// shown by one of them.
pub proof fn lemma_shown_by_a_child(s: Structure, from: Node, to: Node, upto: nat)
    requires
        shows_via(s, from, to, upto),
    ensures
        exists|i: int|
            0 <= i < upto && visitable(s, from, #[trigger] s.children[from][i]) && shows(
                s,
                s.children[from][i],
                to,
            ),
    decreases upto,
{
    if upto > 0 {
        let child = s.children[from][upto - 1];
        if visitable(s, from, child) && shows(s, child, to) {
            assert(visitable(s, from, s.children[from][upto - 1]));
        } else {
            lemma_shown_by_a_child(s, from, to, (upto - 1) as nat);
        }
    }
}

/// A node that a child of a node shows is shown through the children.
pub proof fn lemma_child_shows(s: Structure, from: Node, to: Node, i: int, upto: nat)
    requires
        0 <= i < upto,
        visitable(s, from, s.children[from][i]),
        shows(s, s.children[from][i], to),
    ensures
        shows_via(s, from, to, upto),
    decreases upto,
{
    if i < upto - 1 {
        lemma_child_shows(s, from, to, i, (upto - 1) as nat);
    }
}

/// What a node shows lies at or below it.
pub proof fn lemma_shows_reaches(s: Structure, from: Node, to: Node)
    requires
        s.wf(),
        s.nodes.contains(from),
        shows(s, from, to),
    ensures
        reaches(s, from, to),
        from != to ==> strictly_below(s, from, to),
    decreases s.rank[from],
{
    if from != to {
        lemma_shown_by_a_child(s, from, to, s.children[from].len());
        let i = choose|i: int|
            0 <= i < s.children[from].len() && visitable(s, from, #[trigger] s.children[from][i])
                && shows(s, s.children[from][i], to);
        lemma_shows_reaches(s, s.children[from][i], to);
        lemma_child_descends(s, from, to, i, s.children[from].len());
    }
}

/// Whether every entry of a cache holds an answer that is not below the
/// known dimension or the absolute lower bound of the node, whichever is
/// less.
pub open spec fn entries_answer(s: Structure, node: Node, cache: Seq<Option<Cache>>) -> bool {
    forall|slot: int|
        0 <= slot < cache.len() ==> match #[trigger] cache[slot] {
            Some(entry) => answers(s, node, entry.known_dimensions, entry.cached_size),
            None => true,
        }
}

/// Whether every node that `node` shows and that is not `node` has a layout
/// that is not below its absolute lower bounds.
#[verifier::opaque]
pub open spec fn good(s: Structure, st: State, node: Node) -> bool {
    forall|c: Node| #[trigger] shows(s, node, c) && c != node ==> respects(s, c, st.layouts[c].size)
}

/// Whether the caches of the nodes that `node` shows can be relied on:
/// their entries hold answers that are not below the bounds, and a node
/// with children whose cache holds a layout entry is good.
#[verifier::opaque]
pub open spec fn sound(s: Structure, st: State, node: Node) -> bool {
    &&& forall|x: Node| #[trigger] shows(s, node, x) ==> entries_answer(s, x, st.caches[x])
    &&& forall|x: Node| #[trigger]
        shows(s, node, x) && !s.is_childless(x) && has_layout_entry(st.caches[x]) ==> good(s, st, x)
}

/// A node without children is good.
pub proof fn lemma_leaf_is_good(s: Structure, st: State, node: Node)
    requires
        s.is_childless(node),
    ensures
        good(s, st, node),
{
    reveal(good);
}

/// A hidden node is good, and its caches are sound: it shows nothing.
pub proof fn lemma_hidden_is_good(s: Structure, st: State, node: Node)
    requires
        s.styles[node].display == Display::Hidden,
    ensures
        good(s, st, node),
        sound(s, st, node),
{
    reveal(good);
    reveal(sound);
}

/// States that agree below a node are good there together.
pub proof fn lemma_agree_keeps_good(s: Structure, a: State, b: State, node: Node)
    requires
        s.wf(),
        s.nodes.contains(node),
        agree(s, a, b, node),
        good(s, a, node),
    ensures
        good(s, b, node),
{
    reveal(good);
    reveal(agree);
    assert forall|c: Node| #[trigger] shows(s, node, c) && c != node implies respects(
        s,
        c,
        b.layouts[c].size,
    ) by {
        lemma_shows_reaches(s, node, c);
        assert(b.layouts[c] == a.layouts[c]);
    }
}

/// States that agree below a node have sound caches there together.
pub proof fn lemma_agree_keeps_sound(s: Structure, a: State, b: State, node: Node)
    requires
        s.wf(),
        s.nodes.contains(node),
        agree(s, a, b, node),
        sound(s, a, node),
    ensures
        sound(s, b, node),
{
    reveal(sound);
    assert forall|x: Node| #[trigger] shows(s, node, x) implies entries_answer(
        s,
        x,
        b.caches[x],
    ) by {
        lemma_shows_reaches(s, node, x);
        assert(b.caches[x] == a.caches[x]) by {
            reveal(agree);
        }
    }
    assert forall|x: Node| #[trigger]
        shows(s, node, x) && !s.is_childless(x) && has_layout_entry(b.caches[x]) implies good(
        s,
        b,
        x,
    ) by {
        lemma_shows_reaches(s, node, x);
        assert(b.caches[x] == a.caches[x]) by {
            reveal(agree);
        }
        lemma_agree_narrows(s, a, b, node, x);
        lemma_reaches_ranks(s, node, x);
        lemma_agree_keeps_good(s, a, b, x);
    }
}

/// A quiet step keeps good what was good.
pub proof fn lemma_quiet_keeps_good(s: Structure, a: State, b: State, node: Node)
    requires
        quiet(s, a, b),
        good(s, a, node),
    ensures
        good(s, b, node),
{
    reveal(quiet);
    reveal(good);
}

/// The caches of the nodes that a node shows are sound where the node is
/// good, unless its cache holds no layout entry, the entries of its cache
/// answer within the bounds, and the caches below each child are sound.
pub proof fn lemma_sound_from_children(s: Structure, st: State, node: Node)
    requires
        s.wf(),
        s.nodes.contains(node),
        good(s, st, node) || s.is_childless(node) || !has_layout_entry(st.caches[node]),
        entries_answer(s, node, st.caches[node]),
        forall|i: int| 0 <= i < s.children[node].len() ==> sound(s, st, #[trigger] s.children[node][i]),
    ensures
        sound(s, st, node),
{
    reveal(sound);
    assert forall|x: Node| #[trigger] shows(s, node, x) implies entries_answer(
        s,
        x,
        st.caches[x],
    ) && (!s.is_childless(x) && has_layout_entry(st.caches[x]) ==> good(s, st, x)) by {
        if x != node {
            lemma_shown_by_a_child(s, node, x, s.children[node].len());
            let i = choose|i: int|
                0 <= i < s.children[node].len() && visitable(
                    s,
                    node,
                    #[trigger] s.children[node][i],
                ) && shows(s, s.children[node][i], x);
            assert(sound(s, st, s.children[node][i]));
        }
    }
}

/// Where the caches of the nodes that a shown node shows are sound, so are
/// those of the nodes that each of its children shows.
pub proof fn lemma_sound_of_child(s: Structure, st: State, node: Node, i: int)
    requires
        s.wf(),
        s.nodes.contains(node),
        s.styles[node].display != Display::Hidden,
        0 <= i < s.children[node].len(),
        sound(s, st, node),
    ensures
        sound(s, st, s.children[node][i]),
{
    let child = s.children[node][i];
    assert(s.nodes.contains(child));
    if s.styles[child].display == Display::Hidden {
        lemma_hidden_is_good(s, st, child);
    } else {
        reveal(sound);
        assert forall|x: Node| #[trigger] shows(s, child, x) implies entries_answer(
            s,
            x,
            st.caches[x],
        ) && (!s.is_childless(x) && has_layout_entry(st.caches[x]) ==> good(s, st, x)) by {
            lemma_child_shows(s, node, x, i, s.children[node].len());
            assert(shows(s, node, x));
        }
    }
}

/// A node that is not hidden is good where each of its children that is
/// not hidden is good and has a layout that is not below its bounds.
pub proof fn lemma_good_from_children(s: Structure, st: State, node: Node)
    requires
        s.wf(),
        s.nodes.contains(node),
        forall|i: int|
            0 <= i < s.children[node].len() && s.styles[#[trigger] s.children[node][i]].display
                != Display::Hidden ==> good(s, st, s.children[node][i]) && respects(
                s,
                s.children[node][i],
                st.layouts[s.children[node][i]].size,
            ),
    ensures
        good(s, st, node),
{
    reveal(good);
    assert forall|c: Node| #[trigger] shows(s, node, c) && c != node implies respects(
        s,
        c,
        st.layouts[c].size,
    ) by {
        lemma_shown_by_a_child(s, node, c, s.children[node].len());
        let i = choose|i: int|
            0 <= i < s.children[node].len() && visitable(s, node, #[trigger] s.children[node][i])
                && shows(s, s.children[node][i], c);
        assert(good(s, st, s.children[node][i]));
    }
}

/// Recording an answer keeps the caches sound, where the answer is within
/// the bounds and the node is good or the answer is no layout entry.
pub proof fn lemma_with_cache_sound(s: Structure, b: State, node: Node, slot: int, entry: Cache)
    requires
        s.wf(),
        b.wf(s),
        s.nodes.contains(node),
        0 <= slot < CACHE_SIZE,
        sound(s, b, node),
        s.styles[node].display != Display::Hidden ==> answers(
            s,
            node,
            entry.known_dimensions,
            entry.cached_size,
        ),
        good(s, b, node) || s.is_childless(node) || entry.run_mode == RunMode::ComputeSize,
    ensures
        sound(s, b.with_cache(node, slot, Some(entry)), node),
        good(s, b, node) ==> good(s, b.with_cache(node, slot, Some(entry)), node),
{
    let after = b.with_cache(node, slot, Some(entry));
    assert(after.layouts == b.layouts);
    reveal(sound);
    reveal(good);
    assert forall|x: Node| #[trigger] shows(s, node, x) implies entries_answer(
        s,
        x,
        after.caches[x],
    ) && (!s.is_childless(x) && has_layout_entry(after.caches[x]) ==> good(s, after, x)) by {
        assert(entries_answer(s, x, b.caches[x]));
        if x == node {
            assert forall|k: int| 0 <= k < after.caches[x].len() implies match #[trigger] after.caches[x][k] {
                Some(e) => answers(s, x, e.known_dimensions, e.cached_size),
                None => true,
            } by {
                if k != slot {
                    assert(after.caches[x][k] == b.caches[x][k]);
                }
            }
            if !s.is_childless(x) && has_layout_entry(after.caches[x]) && !good(s, b, node) {
                let k = choose|k: int|
                    0 <= k < after.caches[x].len() && (#[trigger] after.caches[x][k]).is_some()
                        && after.caches[x][k].unwrap().run_mode == RunMode::PerformLayout;
                assert(k != slot);
                assert(b.caches[x][k] == after.caches[x][k]);
                assert(has_layout_entry(b.caches[x]));
            }
        } else {
            assert(after.caches[x] == b.caches[x]);
        }
    }
}

/// A leaf answers within the bounds.
pub proof fn lemma_leaf_answers(s: Structure, q: Query)
    ensures
        answers(s, q.node, q.known_dimensions, crate::compute::leaf::spec_compute(s, q)),
{
}

/// An answer from the cache is within the bounds, where the entries of the
/// cache are.
pub proof fn lemma_cached_answers(s: Structure, node: Node, cache: Seq<Option<Cache>>, q: Query)
    requires
        entries_answer(s, node, cache),
    ensures
        match cache_lookup(
            cache,
            q.known_dimensions,
            q.available_space,
            cache_run_mode(s, q),
            q.sizing_mode,
        ) {
            Some(size) => answers(s, node, q.known_dimensions, size),
            None => true,
        },
{
    lemma_lookup_is_an_entry(
        cache,
        cache.len() as int,
        q.known_dimensions,
        q.available_space,
        cache_run_mode(s, q),
        q.sizing_mode,
    );
}

/// What a query does for the bounds at and below its node: where the caches
/// were sound they stay so, the answer is within the bounds unless the node
/// is hidden, and after a query that writes layouts the node is good.
pub proof fn lemma_node_layout_bounds(s: Structure, st: State, q: Query)
    requires
        s.wf(),
        separate(s),
        st.wf(s),
        s.nodes.contains(q.node),
        sound(s, st, q.node),
    ensures
        sound(s, node_layout(s, st, q).0, q.node),
        s.styles[q.node].display != Display::Hidden ==> answers(
            s,
            q.node,
            q.known_dimensions,
            node_layout(s, st, q).1,
        ),
        q.run_mode == RunMode::PerformLayout ==> good(s, node_layout(s, st, q).0, q.node),
    decreases s.rank[q.node], 4nat, 0nat,
{
    reveal(dispatch);
    let n = q.node;
    let mode = cache_run_mode(s, q);
    let found = cache_lookup(
        st.caches[n],
        q.known_dimensions,
        q.available_space,
        mode,
        q.sizing_mode,
    );
    if s.styles[n].display == Display::Hidden {
        lemma_hidden_is_good(s, node_layout(s, st, q).0, n);
    } else if found.is_some() {
        assert(shows(s, n, n));
        assert(entries_answer(s, n, st.caches[n])) by {
            reveal(sound);
        }
        lemma_cached_answers(s, n, st.caches[n], q);
        if q.run_mode == RunMode::PerformLayout {
            if s.is_childless(n) {
                lemma_leaf_is_good(s, st, n);
            } else {
                lemma_lookup_is_an_entry(
                    st.caches[n],
                    st.caches[n].len() as int,
                    q.known_dimensions,
                    q.available_space,
                    mode,
                    q.sizing_mode,
                );
                assert(has_layout_entry(st.caches[n]));
                reveal(sound);
            }
        }
    } else {
        lemma_dispatch_bounds(s, st, q);
        lemma_dispatch_follows(s, st, q);
        let computed = dispatch(s, st, q).0;
        let size = dispatch(s, st, q).1;
        let slot = compute_cache_slot(q.known_dimensions, q.available_space) as int;
        let entry = cache_entry(s, q, size);
        assert(node_layout(s, st, q).0 == computed.with_cache(n, slot, Some(entry)));
        if s.is_childless(n) {
            lemma_leaf_is_good(s, computed, n);
        }
        lemma_with_cache_sound(s, computed, n, slot, entry);
    }
}

/// What computing an answer does for the bounds below its node.
pub proof fn lemma_dispatch_bounds(s: Structure, st: State, q: Query)
    requires
        s.wf(),
        separate(s),
        st.wf(s),
        s.nodes.contains(q.node),
        sound(s, st, q.node),
        s.styles[q.node].display != Display::Hidden,
    ensures
        sound(s, dispatch(s, st, q).0, q.node),
        answers(s, q.node, q.known_dimensions, dispatch(s, st, q).1),
        q.run_mode == RunMode::PerformLayout || s.is_childless(q.node) ==> good(
            s,
            dispatch(s, st, q).0,
            q.node,
        ),
    decreases s.rank[q.node], 3nat, 0nat,
{
    reveal(dispatch);
    let n = q.node;
    if s.is_childless(n) {
        lemma_leaf_is_good(s, st, n);
        lemma_leaf_answers(s, q);
    } else {
        lemma_compute_bounds(s, st, q);
    }
}

/// What the flexbox algorithm does for the bounds below its container.
pub proof fn lemma_compute_bounds(s: Structure, st: State, q: Query)
    requires
        s.wf(),
        separate(s),
        st.wf(s),
        s.nodes.contains(q.node),
        sound(s, st, q.node),
        s.styles[q.node].display != Display::Hidden,
    ensures
        sound(s, spec_compute(s, st, q).0, q.node),
        answers(s, q.node, q.known_dimensions, spec_compute(s, st, q).1),
        q.run_mode == RunMode::PerformLayout ==> good(s, spec_compute(s, st, q).0, q.node),
    decreases s.rank[q.node], 2nat, 0nat,
{
    let style = s.styles[q.node];
    let decided = size_or(q.known_dimensions, styled_size(style, q.parent_size));
    lemma_container_respects_bounds(s, st, q);
    if is_bounded(style, q.parent_size) {
        lemma_preliminary_bounds(s, st, q, decided, RunMode::ComputeSize);
        lemma_preliminary_follows(s, st, q, decided, RunMode::ComputeSize);
        let (st1, first) = preliminary(s, st, q, decided, RunMode::ComputeSize);
        let again = size_or(q.known_dimensions, known(bounded_size(style, q.parent_size, first)));
        lemma_preliminary_bounds(s, st1, q, again, q.run_mode);
    } else {
        lemma_preliminary_bounds(s, st, q, decided, q.run_mode);
    }
}

/// Whether the caches of the nodes that each child of `node` shows are
/// sound.
#[verifier::opaque]
pub open spec fn kids_sound(s: Structure, st: State, node: Node) -> bool {
    forall|i: int| 0 <= i < s.children[node].len() ==> sound(s, st, #[trigger] s.children[node][i])
}

/// Whether every child of `node` that plays the given part is good.
#[verifier::opaque]
pub open spec fn kids_good(s: Structure, st: State, node: Node, kind: ItemKind) -> bool {
    forall|i: int|
        0 <= i < s.children[node].len() && kind_of(s.styles[#[trigger] s.children[node][i]])
            == kind ==> good(s, st, s.children[node][i])
}

/// Whether every child of `node` that plays the given part has a layout
/// that is not below its bounds.
#[verifier::opaque]
pub open spec fn kids_laid(s: Structure, st: State, node: Node, kind: ItemKind) -> bool {
    forall|i: int|
        0 <= i < s.children[node].len() && kind_of(s.styles[#[trigger] s.children[node][i]])
            == kind ==> respects(s, s.children[node][i], st.layouts[s.children[node][i]].size)
}

/// Whether the answer to every query is within the bounds.
pub open spec fn answered(
    s: Structure,
    node: Node,
    queries: Seq<Option<Query>>,
    results: Seq<Size<i64>>,
    upto: int,
) -> bool {
    forall|i: int|
        0 <= i < upto && (#[trigger] queries[i]).is_some() && s.styles[s.children[node][i]].display
            != Display::Hidden ==> answers(
            s,
            s.children[node][i],
            queries[i].unwrap().known_dimensions,
            results[i],
        )
}

/// What stays as it is below the children of a node when the states agree
/// there and the layouts of the children are the same.
pub proof fn lemma_kids_kept(s: Structure, a: State, b: State, node: Node)
    requires
        s.wf(),
        s.nodes.contains(node),
        kids_agree(s, a, b, node),
    ensures
        kids_sound(s, a, node) ==> kids_sound(s, b, node),
        forall|kind: ItemKind| kids_good(s, a, node, kind) ==> #[trigger] kids_good(s, b, node, kind),
        (forall|i: int|
            0 <= i < s.children[node].len() ==> b.layouts[#[trigger] s.children[node][i]]
                == a.layouts[s.children[node][i]]) ==> (forall|kind: ItemKind|
            kids_laid(s, a, node, kind) ==> #[trigger] kids_laid(s, b, node, kind)),
{
    reveal(kids_sound);
    reveal(kids_good);
    reveal(kids_laid);
    if kids_sound(s, a, node) {
        assert forall|i: int| 0 <= i < s.children[node].len() implies sound(
            s,
            b,
            #[trigger] s.children[node][i],
        ) by {
            assert(agree(s, a, b, s.children[node][i]));
            assert(s.nodes.contains(s.children[node][i]));
            lemma_agree_keeps_sound(s, a, b, s.children[node][i]);
        }
    }
    assert forall|kind: ItemKind| kids_good(s, a, node, kind) implies #[trigger] kids_good(
        s,
        b,
        node,
        kind,
    ) by {
        assert forall|i: int|
            0 <= i < s.children[node].len() && kind_of(s.styles[#[trigger] s.children[node][i]])
                == kind implies good(s, b, s.children[node][i]) by {
            assert(agree(s, a, b, s.children[node][i]));
            assert(s.nodes.contains(s.children[node][i]));
            lemma_agree_keeps_good(s, a, b, s.children[node][i]);
        }
    }
}

/// In a tree, a change at or below one child of a node leaves the layouts
/// of all children of the node as they are.
pub proof fn lemma_inside_keeps_own_layouts(
    s: Structure,
    a: State,
    b: State,
    node: Node,
    k: int,
)
    requires
        s.wf(),
        separate(s),
        s.nodes.contains(node),
        0 <= k < s.children[node].len(),
        inside(s, a, b, s.children[node][k]),
    ensures
        forall|i: int|
            0 <= i < s.children[node].len() ==> b.layouts[#[trigger] s.children[node][i]]
                == a.layouts[s.children[node][i]],
{
    reveal(inside);
    assert forall|i: int| 0 <= i < s.children[node].len() implies b.layouts[#[trigger] s.children[node][i]]
        == a.layouts[s.children[node][i]] by {
        lemma_children_are_apart(s, node, k, i);
        if i != k {
            assert(!strictly_below(s, s.children[node][k], s.children[node][i])) by {
                if strictly_below(s, s.children[node][k], s.children[node][i]) {
                    assert(reaches(s, s.children[node][k], s.children[node][i]));
                }
            }
        }
    }
}

/// What one query of a batch does for the children of a node.
pub proof fn lemma_query_step(
    s: Structure,
    before: State,
    after: State,
    node: Node,
    k: int,
)
    requires
        s.wf(),
        separate(s),
        s.nodes.contains(node),
        0 <= k < s.children[node].len(),
        inside(s, before, after, s.children[node][k]),
        kids_sound(s, before, node),
        sound(s, after, s.children[node][k]),
    ensures
        kids_sound(s, after, node),
        forall|kind: ItemKind| #[trigger]
            kids_laid(s, before, node, kind) ==> kids_laid(s, after, node, kind),
        forall|kind: ItemKind|
            kids_good(s, before, node, kind) && (kind_of(s.styles[s.children[node][k]]) == kind
                ==> good(s, after, s.children[node][k])) ==> #[trigger] kids_good(
                s,
                after,
                node,
                kind,
            ),
        forall|i: int|
            0 <= i < s.children[node].len() && i != k && good(
                s,
                before,
                #[trigger] s.children[node][i],
            ) ==> good(s, after, s.children[node][i]),
{
    assert forall|j: int| 0 <= j < s.children[node].len() && j != k implies agree(
        s,
        before,
        after,
        #[trigger] s.children[node][j],
    ) by {
        lemma_sibling_agrees(s, before, after, node, k, j);
    }
    lemma_inside_keeps_own_layouts(s, before, after, node, k);
    reveal(kids_sound);
    reveal(kids_good);
    reveal(kids_laid);
    assert forall|j: int| 0 <= j < s.children[node].len() implies sound(
        s,
        after,
        #[trigger] s.children[node][j],
    ) by {
        if j != k {
            assert(s.nodes.contains(s.children[node][j]));
            assert(sound(s, before, s.children[node][j]));
            lemma_agree_keeps_sound(s, before, after, s.children[node][j]);
        }
    }
    assert forall|i: int|
        0 <= i < s.children[node].len() && i != k && good(
            s,
            before,
            #[trigger] s.children[node][i],
        ) implies good(s, after, s.children[node][i]) by {
        assert(s.nodes.contains(s.children[node][i]));
        lemma_agree_keeps_good(s, before, after, s.children[node][i]);
    }
    assert forall|kind: ItemKind|
        kids_good(s, before, node, kind) && (kind_of(s.styles[s.children[node][k]]) == kind
            ==> good(s, after, s.children[node][k])) implies #[trigger] kids_good(
        s,
        after,
        node,
        kind,
    ) by {
        assert forall|i: int|
            0 <= i < s.children[node].len() && kind_of(s.styles[#[trigger] s.children[node][i]])
                == kind implies good(s, after, s.children[node][i]) by {
            if i != k {
                assert(good(s, before, s.children[node][i]));
            }
        }
    }
}

/// What a batch of queries does for the bounds below the children of a
/// node: the caches stay sound, the children that were good stay so, the
/// layouts of the children stay within their bounds, the answers are within
/// the bounds, and the children that were asked to lay themselves out are
/// good.
pub proof fn lemma_batch_bounds(
    s: Structure,
    st: State,
    parent: Node,
    queries: Seq<Option<Query>>,
    upto: nat,
)
    requires
        s.wf(),
        separate(s),
        st.wf(s),
        s.nodes.contains(parent),
        queries.len() == s.children[parent].len(),
        forall|i: int|
            0 <= i < queries.len() && (#[trigger] queries[i]).is_some() ==> queries[i].unwrap().node
                == s.children[parent][i],
        upto <= queries.len(),
        kids_sound(s, st, parent),
    ensures
        ({
            let after = run_queries(s, st, parent, queries, upto).0;
            let results = run_queries(s, st, parent, queries, upto).1;
            &&& kids_sound(s, after, parent)
            &&& forall|kind: ItemKind| #[trigger]
                kids_laid(s, st, parent, kind) ==> kids_laid(s, after, parent, kind)
            &&& forall|kind: ItemKind| #[trigger]
                kids_good(s, st, parent, kind) ==> kids_good(s, after, parent, kind)
            &&& results.len() == upto
            &&& answered(s, parent, queries, results, upto as int)
            &&& forall|i: int|
                0 <= i < upto && (#[trigger] queries[i]).is_some() && queries[i].unwrap().run_mode
                    == RunMode::PerformLayout ==> good(s, after, s.children[parent][i])
        }),
    decreases s.rank[parent], 0nat, upto,
{
    if upto > 0 {
        lemma_batch_bounds(s, st, parent, queries, (upto - 1) as nat);
        lemma_run_queries_follows(s, st, parent, queries, (upto - 1) as nat);
        let before = run_queries(s, st, parent, queries, (upto - 1) as nat).0;
        let sizes = run_queries(s, st, parent, queries, (upto - 1) as nat).1;
        let k = upto - 1;
        let child = s.children[parent][k];
        assert(s.nodes.contains(child));
        let after = run_queries(s, st, parent, queries, upto).0;
        let results = run_queries(s, st, parent, queries, upto).1;
        if queries[k].is_some() {
            let q = queries[k].unwrap();
            assert(q.node == child);
            assert(visitable(s, parent, q.node));
            assert(sound(s, before, child)) by {
                reveal(kids_sound);
            }
            lemma_node_layout_bounds(s, before, q);
            lemma_node_layout_hides(s, before, q);
            assert(after == node_layout(s, before, q).0);
            assert(results == sizes.push(node_layout(s, before, q).1));
            lemma_query_step(s, before, after, parent, k);
            assert forall|kind: ItemKind| #[trigger]
                kids_good(s, st, parent, kind) implies kids_good(s, after, parent, kind) by {
                assert(kids_good(s, before, parent, kind));
                if kind_of(s.styles[child]) == kind {
                    assert(good(s, before, child)) by {
                        reveal(kids_good);
                    }
                    if s.styles[child].display == Display::Hidden {
                        lemma_hidden_is_good(s, after, child);
                    } else if q.run_mode == RunMode::ComputeSize {
                        lemma_quiet_keeps_good(s, before, after, child);
                    }
                }
            }
            assert forall|i: int|
                0 <= i < upto && (#[trigger] queries[i]).is_some() && queries[i].unwrap().run_mode
                    == RunMode::PerformLayout implies good(s, after, s.children[parent][i]) by {
                if i != k {
                    assert(good(s, before, s.children[parent][i]));
                }
            }
            assert forall|i: int|
                0 <= i < upto && (#[trigger] queries[i]).is_some()
                    && s.styles[s.children[parent][i]].display != Display::Hidden implies answers(
                s,
                s.children[parent][i],
                queries[i].unwrap().known_dimensions,
                results[i],
            ) by {
                if i != k {
                    assert(results[i] == sizes[i]);
                }
            }
        } else {
            assert(after == before);
            assert(results == sizes.push(crate::geometry::zero_size()));
            assert forall|i: int|
                0 <= i < upto && (#[trigger] queries[i]).is_some()
                    && s.styles[s.children[parent][i]].display != Display::Hidden implies answers(
                s,
                s.children[parent][i],
                queries[i].unwrap().known_dimensions,
                results[i],
            ) by {
                assert(i != k);
                assert(results[i] == sizes[i]);
            }
        }
    }
}

/// The part whose children a phase writes the layouts of.
pub open spec fn phase_kind(phase: Phase) -> ItemKind {
    match phase {
        Phase::Flow => ItemKind::Flow,
        Phase::Absolute => ItemKind::Absolute,
        Phase::Hidden => ItemKind::Hidden,
    }
}

/// In a tree, after a phase has written layouts, each of the first so many
/// children has the layout the phase wrote for it, and every other child
/// the layout it had.
pub proof fn lemma_written_layouts(
    s: Structure,
    st: State,
    node: Node,
    phase: Phase,
    ctx: FlexCtx,
    items: Seq<FlexItem>,
    results: Seq<Size<i64>>,
    upto: int,
)
    requires
        s.wf(),
        separate(s),
        s.nodes.contains(node),
        items_match(s, node, items),
        0 <= upto <= items.len(),
    ensures
        forall|i: int|
            0 <= i < items.len() ==> written(st, phase, ctx, items, results, upto).layouts[#[trigger] s.children[node][i]]
                == (if i < upto && layout_for(
                phase,
                ctx,
                items[i],
                i as usize,
                result_at(results, i),
            ).is_some() {
                layout_for(phase, ctx, items[i], i as usize, result_at(results, i)).unwrap()
            } else {
                st.layouts[s.children[node][i]]
            }),
    decreases upto,
{
    if upto > 0 {
        let before = written(st, phase, ctx, items, results, upto - 1);
        let after = written(st, phase, ctx, items, results, upto);
        lemma_written_layouts(s, st, node, phase, ctx, items, results, upto - 1);
        let k = upto - 1;
        assert(items[k].node == s.children[node][k]);
        assert forall|i: int| 0 <= i < items.len() implies after.layouts[#[trigger] s.children[node][i]]
            == (if i < upto && layout_for(
            phase,
            ctx,
            items[i],
            i as usize,
            result_at(results, i),
        ).is_some() {
            layout_for(phase, ctx, items[i], i as usize, result_at(results, i)).unwrap()
        } else {
            st.layouts[s.children[node][i]]
        }) by {
            if i != k {
                lemma_children_are_apart(s, node, i, k);
                assert(reaches(s, s.children[node][i], s.children[node][i]));
                assert(s.children[node][i] != s.children[node][k]);
                assert(after.layouts[s.children[node][i]] == before.layouts[s.children[node][i]]);
            }
        }
    }
}

/// What writing the layouts of a phase does for the bounds: the caches stay
/// sound and the children good; the children of other parts keep their
/// layouts; and the children whose layouts were written have layouts within
/// their bounds, where the sizes written answer queries that knew sizes
/// within the bounds.
pub proof fn lemma_written_bounds(
    s: Structure,
    st: State,
    node: Node,
    phase: Phase,
    ctx: FlexCtx,
    items: Seq<FlexItem>,
    queries: Seq<Option<Query>>,
    results: Seq<Size<i64>>,
)
    requires
        s.wf(),
        separate(s),
        s.nodes.contains(node),
        items_match(s, node, items),
        phase != Phase::Hidden ==> layout_batch(s, node, queries, phase_kind(phase))
            && targets_bounded(s, node, queries) && results.len() == queries.len() && answered(
            s,
            node,
            queries,
            results,
            queries.len() as int,
        ),
    ensures
        ({
            let after = written(st, phase, ctx, items, results, items.len() as int);
            &&& kids_sound(s, st, node) ==> kids_sound(s, after, node)
            &&& forall|kind: ItemKind| #[trigger]
                kids_good(s, st, node, kind) ==> kids_good(s, after, node, kind)
            &&& forall|kind: ItemKind| #[trigger]
                kids_laid(s, st, node, kind) && kind != phase_kind(phase) ==> kids_laid(
                    s,
                    after,
                    node,
                    kind,
                )
            &&& phase != Phase::Hidden ==> kids_laid(s, after, node, phase_kind(phase))
        }),
{
    let after = written(st, phase, ctx, items, results, items.len() as int);
    lemma_written_agrees(s, st, node, phase, ctx, items, results);
    lemma_kids_kept(s, st, after, node);
    lemma_written_layouts(s, st, node, phase, ctx, items, results, items.len() as int);
    reveal(kids_laid);
    assert forall|kind: ItemKind| #[trigger]
        kids_laid(s, st, node, kind) && kind != phase_kind(phase) implies kids_laid(
        s,
        after,
        node,
        kind,
    ) by {
        assert forall|i: int|
            0 <= i < s.children[node].len() && kind_of(s.styles[#[trigger] s.children[node][i]])
                == kind implies respects(
            s,
            s.children[node][i],
            after.layouts[s.children[node][i]].size,
        ) by {
            assert(items[i].kind == kind);
            assert(layout_for(phase, ctx, items[i], i as usize, result_at(results, i)).is_none());
        }
    }
    if phase != Phase::Hidden {
        assert forall|i: int|
            0 <= i < s.children[node].len() && kind_of(s.styles[#[trigger] s.children[node][i]])
                == phase_kind(phase) implies respects(
            s,
            s.children[node][i],
            after.layouts[s.children[node][i]].size,
        ) by {
            assert(items[i].kind == phase_kind(phase));
            assert(queries[i].is_some());
            assert(s.styles[s.children[node][i]].display != Display::Hidden);
            assert(result_at(results, i) == results[i]);
            let wrote = layout_for(phase, ctx, items[i], i as usize, results[i]);
            assert(wrote.is_some() && wrote.unwrap().size == results[i]);
        }
    }
}

/// The children that a batch asked to lay themselves out, all of one part,
/// are good.
pub proof fn lemma_asked_are_good(
    s: Structure,
    st: State,
    node: Node,
    queries: Seq<Option<Query>>,
    kind: ItemKind,
)
    requires
        layout_batch(s, node, queries, kind),
        forall|i: int|
            0 <= i < queries.len() && (#[trigger] queries[i]).is_some() && queries[i].unwrap().run_mode
                == RunMode::PerformLayout ==> good(s, st, s.children[node][i]),
    ensures
        kids_good(s, st, node, kind),
{
    reveal(kids_good);
    assert forall|i: int|
        0 <= i < s.children[node].len() && kind_of(s.styles[#[trigger] s.children[node][i]])
            == kind implies good(s, st, s.children[node][i]) by {
        assert(queries[i].is_some());
    }
}

/// The caches below the children of a shown node are sound where those
/// below the node are.
pub proof fn lemma_kids_sound_starts(s: Structure, st: State, node: Node)
    requires
        s.wf(),
        s.nodes.contains(node),
        s.styles[node].display != Display::Hidden,
        sound(s, st, node),
    ensures
        kids_sound(s, st, node),
        entries_answer(s, node, st.caches[node]),
        !s.is_childless(node) && has_layout_entry(st.caches[node]) ==> good(s, st, node),
{
    reveal(kids_sound);
    assert forall|i: int| 0 <= i < s.children[node].len() implies sound(
        s,
        st,
        #[trigger] s.children[node][i],
    ) by {
        lemma_sound_of_child(s, st, node, i);
    }
    assert(shows(s, node, node));
    reveal(sound);
}

/// At the end of a run, the container is good and the caches below it are
/// sound.
pub proof fn lemma_run_ends_good(s: Structure, st: State, node: Node)
    requires
        s.wf(),
        s.nodes.contains(node),
        s.styles[node].display != Display::Hidden,
        kids_sound(s, st, node),
        kids_good(s, st, node, ItemKind::Flow),
        kids_good(s, st, node, ItemKind::Absolute),
        kids_laid(s, st, node, ItemKind::Flow),
        kids_laid(s, st, node, ItemKind::Absolute),
        entries_answer(s, node, st.caches[node]),
    ensures
        good(s, st, node),
        sound(s, st, node),
{
    reveal(kids_sound);
    reveal(kids_good);
    reveal(kids_laid);
    assert forall|i: int|
        0 <= i < s.children[node].len() && s.styles[#[trigger] s.children[node][i]].display
            != Display::Hidden implies good(s, st, s.children[node][i]) && respects(
        s,
        s.children[node][i],
        st.layouts[s.children[node][i]].size,
    ) by {
        let kind = kind_of(s.styles[s.children[node][i]]);
        assert(kind == ItemKind::Flow || kind == ItemKind::Absolute);
    }
    lemma_good_from_children(s, st, node);
    lemma_sound_from_children(s, st, node);
}

/// At the end of a run that only sized the container, the caches below it
/// are sound.
pub proof fn lemma_run_ends_sound(s: Structure, start: State, st: State, node: Node)
    requires
        s.wf(),
        s.nodes.contains(node),
        s.styles[node].display != Display::Hidden,
        sound(s, start, node),
        kids_sound(s, st, node),
        quiet(s, start, st),
        below(s, start, st, node),
    ensures
        sound(s, st, node),
{
    lemma_kids_sound_starts(s, start, node);
    assert(st.caches[node] == start.caches[node]) by {
        reveal(below);
        lemma_children_keep_rank(s, node);
    }
    if !s.is_childless(node) && has_layout_entry(st.caches[node]) {
        lemma_quiet_keeps_good(s, start, st, node);
    }
    reveal(kids_sound);
    lemma_sound_from_children(s, st, node);
}

/// A node does not lie strictly below itself.
pub proof fn lemma_children_keep_rank(s: Structure, node: Node)
    requires
        s.wf(),
        s.nodes.contains(node),
    ensures
        !strictly_below(s, node, node),
{
    if strictly_below(s, node, node) {
        crate::laws::shape::lemma_descends_through_a_child(s, node, node, s.children[node].len());
        let k = choose|k: int|
            0 <= k < s.children[node].len() && visitable(s, node, #[trigger] s.children[node][k])
                && reaches(s, s.children[node][k], node);
        lemma_reaches_ranks(s, s.children[node][k], node);
    }
}

/// What one run of the flexbox algorithm does for the bounds below its
/// container.
pub proof fn lemma_preliminary_bounds(
    s: Structure,
    st: State,
    q: Query,
    known_dimensions: Size<Option<i64>>,
    run_mode: RunMode,
)
    requires
        s.wf(),
        separate(s),
        st.wf(s),
        s.nodes.contains(q.node),
        sound(s, st, q.node),
        s.styles[q.node].display != Display::Hidden,
    ensures
        sound(s, preliminary(s, st, q, known_dimensions, run_mode).0, q.node),
        run_mode == RunMode::PerformLayout ==> good(
            s,
            preliminary(s, st, q, known_dimensions, run_mode).0,
            q.node,
        ),
    decreases s.rank[q.node], 1nat, 0nat,
{
    let node = q.node;
    let none = Seq::<Size<i64>>::empty();
    let ctx0 = compute_constants(s.styles[node], known_dimensions, q.parent_size, q.available_space);
    let row = ctx0.row;
    let items0 = spec_make_items(s, node, ctx0);
    let n = items0.len();
    lemma_make_items_bounded(s, node, ctx0);
    lemma_make_items_match(s, node, ctx0);
    lemma_kids_sound_starts(s, st, node);
    lemma_preliminary_hides(s, st, q, known_dimensions, run_mode);
    lemma_probes(s, node, ctx0, items0);
    let qs1 = spec_queries(Probe::Base, ctx0, items0);
    lemma_batch_bounds(s, st, node, qs1, n);
    lemma_run_queries_follows(s, st, node, qs1, n);
    let (st1, bases) = run_queries(s, st, node, qs1, n);
    let items1 = spec_item_pass(ItemStage::Base, ctx0, items0, Seq::empty(), bases);
    lemma_item_pass_bounded(s, node, row, ItemStage::Base, ctx0, items0, Seq::empty(), bases);
    lemma_probes(s, node, ctx0, items1);
    let qs2 = spec_queries(Probe::Floor, ctx0, items1);
    lemma_batch_bounds(s, st1, node, qs2, n);
    lemma_run_queries_follows(s, st1, node, qs2, n);
    let (st2, floors) = run_queries(s, st1, node, qs2, n);
    let items2 = spec_item_pass(ItemStage::Floor, ctx0, items1, Seq::empty(), floors);
    lemma_item_pass_bounded(s, node, row, ItemStage::Floor, ctx0, items1, Seq::empty(), floors);
    let items3 = spec_assigned_items(ctx0, items2);
    lemma_assigned_items_bounded(s, node, row, ctx0, items2);
    let lines0 = spec_collected_lines(ctx0, items2);
    let lines1 = spec_line_pass(LineStage::Measure, ctx0, items3, lines0, 0, 0);
    let ctx1 = FlexCtx {
        inner_main: inner_main_size(ctx0, longest(lines1, lines1.len() as int)),
        ..ctx0
    };
    let lines2 = spec_line_pass(LineStage::Direction, ctx1, items3, lines1, 0, 0);
    let items4 = spec_item_pass(ItemStage::Init, ctx1, items3, lines2, none);
    lemma_item_pass_bounded(s, node, row, ItemStage::Init, ctx1, items3, lines2, none);
    let (items5, lines3) = resolve_rounds(ctx1, items4, lines2, items4.len());
    lemma_resolve_rounds_bounded(s, node, row, ctx1, items4, lines2, items4.len());
    lemma_resolved_main_bounded(s, node, ctx0, ctx1, items1, floors, lines2);
    lemma_probes(s, node, ctx1, items5);
    let qs3 = spec_queries(Probe::Cross, ctx1, items5);
    lemma_batch_bounds(s, st2, node, qs3, n);
    lemma_run_queries_follows(s, st2, node, qs3, n);
    let (st3, crosses) = run_queries(s, st2, node, qs3, n);
    let items6 = spec_item_pass(ItemStage::Cross, ctx1, items5, lines3, crosses);
    lemma_item_pass_bounded(s, node, row, ItemStage::Cross, ctx1, items5, lines3, crosses);
    lemma_later_steps_bounded(s, node, row, ItemStage::Cross, ctx1, items5, lines3, crosses);
    let lines4 = spec_line_pass(LineStage::CrossSize, ctx1, items6, lines3, 0, 0);
    let count = number(lines4.len() as usize);
    let lines5 = spec_line_pass(
        LineStage::Stretch,
        ctx1,
        items6,
        lines4,
        stretch_amount(ctx1, cross_total(lines4, lines4.len() as int), count),
        0,
    );
    let total = cross_total(lines5, lines5.len() as int);
    let ctx2 = FlexCtx { inner_cross: inner_cross_size(ctx1, total, count), ..ctx1 };
    let ctx = FlexCtx { container: container_size(ctx2), ..ctx2 };
    if run_mode == RunMode::ComputeSize {
        lemma_run_ends_sound(s, st, st3, node);
    } else {
        let items7 = spec_item_pass(ItemStage::UsedCross, ctx, items6, lines5, none);
        lemma_item_pass_bounded(s, node, row, ItemStage::UsedCross, ctx, items6, lines5, none);
        lemma_later_steps_bounded(s, node, row, ItemStage::UsedCross, ctx, items6, lines5, none);
        let lines6 = spec_line_pass(LineStage::Used, ctx, items7, lines5, 0, 0);
        let lines7 = spec_rank_lines(lines6);
        let lines8 = spec_line_pass(LineStage::Offset, ctx, items7, lines7, total, count);
        let items8 = spec_rank_items(ctx, items7, lines8);
        lemma_rank_items_bounded(s, node, row, ctx, items7, lines8);
        let items9 = spec_item_pass(ItemStage::Place, ctx, items8, lines8, none);
        lemma_item_pass_bounded(s, node, row, ItemStage::Place, ctx, items8, lines8, none);
        lemma_later_steps_bounded(s, node, row, ItemStage::Place, ctx, items8, lines8, none);
        lemma_probes(s, node, ctx, items9);
        let qs4 = spec_queries(Probe::Final, ctx, items9);
        lemma_final_targets(s, node, ctx, items9);
        lemma_batch_bounds(s, st3, node, qs4, n);
        lemma_run_queries_follows(s, st3, node, qs4, n);
        let (st4, finals) = run_queries(s, st3, node, qs4, n);
        lemma_asked_are_good(s, st4, node, qs4, ItemKind::Flow);
        lemma_written_bounds(s, st4, node, Phase::Flow, ctx, items9, qs4, finals);
        lemma_written_frame(s, st4, node, Phase::Flow, ctx, items9, finals, n as int);
        let st5 = written(st4, Phase::Flow, ctx, items9, finals, n as int);
        let qs5 = spec_queries(Probe::AbsoluteSize, ctx, items9);
        lemma_batch_bounds(s, st5, node, qs5, n);
        lemma_run_queries_follows(s, st5, node, qs5, n);
        let (st6, measured) = run_queries(s, st5, node, qs5, n);
        let items10 = spec_item_pass(ItemStage::AbsoluteSize, ctx, items9, lines8, measured);
        lemma_item_pass_bounded(s, node, row, ItemStage::AbsoluteSize, ctx, items9, lines8, measured);
        lemma_probes(s, node, ctx, items10);
        let qs6 = spec_queries(Probe::AbsoluteFinal, ctx, items10);
        lemma_absolute_targets(s, node, ctx, items9, lines8, measured);
        lemma_batch_bounds(s, st6, node, qs6, n);
        lemma_run_queries_follows(s, st6, node, qs6, n);
        let (st7, placed) = run_queries(s, st6, node, qs6, n);
        lemma_asked_are_good(s, st7, node, qs6, ItemKind::Absolute);
        lemma_written_bounds(s, st7, node, Phase::Absolute, ctx, items10, qs6, placed);
        lemma_written_frame(s, st7, node, Phase::Absolute, ctx, items10, placed, n as int);
        let st8 = written(st7, Phase::Absolute, ctx, items10, placed, n as int);
        lemma_written_bounds(s, st8, node, Phase::Hidden, ctx, items10, qs6, none);
        lemma_written_frame(s, st8, node, Phase::Hidden, ctx, items10, none, n as int);
        let st9 = written(st8, Phase::Hidden, ctx, items10, none, n as int);
        let qs7 = spec_queries(Probe::Hidden, ctx, items10);
        lemma_batch_bounds(s, st9, node, qs7, n);
        let st10 = run_queries(s, st9, node, qs7, n).0;
        lemma_run_queries_follows(s, st9, node, qs7, n);
        assert(st10.caches[node] == st.caches[node]) by {
            reveal(below);
            lemma_children_keep_rank(s, node);
        }
        lemma_run_ends_good(s, st10, node);
    }
}

/// Once the flexible lengths are resolved, no target main size is below the
/// absolute lower bound of its child.
pub proof fn lemma_resolved_main_bounded(
    s: Structure,
    node: Node,
    ctx: FlexCtx,
    later: FlexCtx,
    items: Seq<FlexItem>,
    floors: Seq<Size<i64>>,
    lines: Seq<Line>,
)
    requires
        later.row == ctx.row,
        items_bounded(s, node, ctx.row, items),
    ensures
        ({
            let floored = spec_item_pass(ItemStage::Floor, ctx, items, Seq::empty(), floors);
            let assigned = spec_assigned_items(ctx, floored);
            let started = spec_item_pass(ItemStage::Init, later, assigned, lines, Seq::empty());
            main_bounded(
                s,
                node,
                ctx.row,
                resolve_rounds(later, started, lines, started.len()).0,
            )
        }),
{
    lemma_items_respect_lower_bound(ctx, later, items, floors, lines);
    let floored = spec_item_pass(ItemStage::Floor, ctx, items, Seq::empty(), floors);
    let assigned = spec_assigned_items(ctx, floored);
    let started = spec_item_pass(ItemStage::Init, later, assigned, lines, Seq::empty());
    let resolved = resolve_rounds(later, started, lines, started.len()).0;
    assert forall|i: int| 0 <= i < resolved.len() implies at_least(
        (#[trigger] resolved[i]).target_main,
        lower(main_of(s.styles[s.children[node][i]].min_size, ctx.row)),
    ) by {
        assert(items[i].style == s.styles[s.children[node][i]]);
    }
}

/// Whether no cache at or below `node` holds an entry, as in a tree that
/// has not been laid out or sized yet.
pub open spec fn no_answers(s: Structure, st: State, node: Node) -> bool {
    forall|x: Node, slot: int|
        #![trigger reaches(s, node, x), st.caches[x][slot]]
        reaches(s, node, x) && 0 <= slot < st.caches[x].len() ==> st.caches[x][slot].is_none()
}

/// Caches without entries are sound.
pub proof fn lemma_no_answers_is_sound(s: Structure, st: State, node: Node)
    requires
        s.wf(),
        s.nodes.contains(node),
        no_answers(s, st, node),
    ensures
        sound(s, st, node),
{
    reveal(sound);
    assert forall|x: Node| #[trigger] shows(s, node, x) implies entries_answer(
        s,
        x,
        st.caches[x],
    ) && !has_layout_entry(st.caches[x]) by {
        lemma_shows_reaches(s, node, x);
        assert forall|slot: int| 0 <= slot < st.caches[x].len() implies (#[trigger] st.caches[x][slot]).is_none() by {
            assert(reaches(s, node, x));
        }
    }
}

/// The solver gives no shown node less than its lower bound.
///
/// Let the structure be a tree, and let the caches at and below `root` be
/// sound, as they are where they hold no entry. Then after the root has
/// answered the root query, every node below `root` that is not hidden and
/// lies below no hidden node has a width and a height that are not below
/// the absolute lengths of its `min_size`; the caches are sound again; and
/// the same holds of the size of the root itself, where the root is not
/// hidden and did not answer from its cache.
pub proof fn lemma_solver_respects_lower_bounds(
    s: Structure,
    st: State,
    root: Node,
    available_space: Size<AvailableSpace>,
)
    requires
        s.wf(),
        separate(s),
        st.wf(s),
        s.nodes.contains(root),
        sound(s, st, root) || no_answers(s, st, root),
    ensures
        good(s, solved_pass(s, st, root, available_space), root),
        sound(s, solved_pass(s, st, root, available_space), root),
        s.styles[root].display != Display::Hidden && cache_lookup(
            st.caches[root],
            Size { width: None, height: None },
            available_space,
            cache_run_mode(s, root_query(root, available_space)),
            SizingMode::InherentSize,
        ).is_none() ==> respects(
            s,
            root,
            solved_pass(s, st, root, available_space).layouts[root].size,
        ),
{
    if no_answers(s, st, root) {
        lemma_no_answers_is_sound(s, st, root);
    }
    let q = root_query(root, available_space);
    lemma_node_layout_bounds(s, st, q);
    lemma_node_layout_follows(s, st, q);
    let (solved, size) = node_layout(s, st, q);
    let start = solved.with_layout(root, Layout { order: 0, size, location: zero_point() });
    assert(start == solved_pass(s, st, root, available_space));
    assert(agree(s, solved, start, root)) by {
        reveal(agree);
        lemma_children_keep_rank(s, root);
    }
    lemma_agree_keeps_good(s, solved, start, root);
    lemma_agree_keeps_sound(s, solved, start, root);
    if s.styles[root].display != Display::Hidden && cache_lookup(
        st.caches[root],
        q.known_dimensions,
        q.available_space,
        cache_run_mode(s, q),
        q.sizing_mode,
    ).is_none() {
        reveal(dispatch);
        if s.is_childless(root) {
            lemma_leaf_respects_bounds(
                s.styles[root],
                q,
                crate::compute::leaf::measured_size(s, q),
            );
        } else {
            lemma_container_respects_bounds(s, st, q);
        }
    }
}

/// Whether every absolute lower bound of the tree is a whole number of
/// pixels, not negative and within the limit.
pub open spec fn whole_bounds(s: Structure) -> bool {
    forall|x: Node| #[trigger]
        s.nodes.contains(x) ==> {
            &&& lower(s.styles[x].min_size.width).is_some() ==> settled(
                lower(s.styles[x].min_size.width).unwrap(),
            ) && lower(s.styles[x].min_size.width).unwrap() >= 0
            &&& lower(s.styles[x].min_size.height).is_some() ==> settled(
                lower(s.styles[x].min_size.height).unwrap(),
            ) && lower(s.styles[x].min_size.height).unwrap() >= 0
        }
}

/// Whether every layout of the tree that is within the bounds of its node
/// in `a` is so in `b`.
pub open spec fn keeps_respect(s: Structure, a: State, b: State) -> bool {
    forall|x: Node|
        s.nodes.contains(x) && respects(s, x, (#[trigger] a.layouts[x]).size) ==> respects(
            s,
            x,
            b.layouts[x].size,
        )
}

/// Whether `a` and `b` hold the same layouts at and below `node`.
pub open spec fn same_layouts(s: Structure, a: State, b: State, node: Node) -> bool {
    forall|x: Node| reaches(s, node, x) ==> #[trigger] b.layouts[x] == a.layouts[x]
}

/// Whether far edges lie within reach depends on the layouts at and below
/// the node only.
pub proof fn lemma_in_reach_same(s: Structure, a: State, b: State, node: Node, origin: Point<i64>)
    requires
        s.wf(),
        s.nodes.contains(node),
        same_layouts(s, a, b, node),
        in_reach(s, a, node, origin),
    ensures
        in_reach(s, b, node, origin),
    decreases s.rank[node], 1nat, 0nat,
{
    assert(reaches(s, node, node));
    assert(b.layouts[node] == a.layouts[node]);
    let abs = absolute(origin, a.layouts[node]);
    lemma_children_in_reach_same(s, a, b, node, abs, s.children[node].len());
}

/// Whether the far edges of the children lie within reach depends on the
/// layouts below the node only.
pub proof fn lemma_children_in_reach_same(
    s: Structure,
    a: State,
    b: State,
    node: Node,
    abs: Point<i64>,
    upto: nat,
)
    requires
        s.wf(),
        s.nodes.contains(node),
        upto <= s.children[node].len(),
        forall|x: Node| descends(s, node, x, upto) ==> #[trigger] b.layouts[x] == a.layouts[x],
        children_in_reach(s, a, node, abs, upto),
    ensures
        children_in_reach(s, b, node, abs, upto),
    decreases s.rank[node], 0nat, upto,
{
    if upto > 0 {
        lemma_children_in_reach_same(s, a, b, node, abs, (upto - 1) as nat);
        let child = s.children[node][upto - 1];
        if visitable(s, node, child) {
            assert forall|x: Node| reaches(s, child, x) implies #[trigger] b.layouts[x]
                == a.layouts[x] by {
                assert(descends(s, node, x, upto));
            }
            lemma_in_reach_same(s, a, b, child, abs);
        }
    }
}

/// Rounding from a node down changes no layout but at and below the node.
pub proof fn lemma_round_node_inside(s: Structure, st: State, node: Node, origin: Point<i64>)
    requires
        s.wf(),
        s.nodes.contains(node),
    ensures
        forall|x: Node|
            !reaches(s, node, x) ==> #[trigger] round_node(s, st, node, origin).layouts[x]
                == st.layouts[x],
    decreases s.rank[node], 1nat, 0nat,
{
    let layout = st.layouts[node];
    let abs = absolute(origin, layout);
    let first = st.with_layout(node, rounded(layout, abs));
    lemma_round_children_inside(s, first, node, abs, s.children[node].len());
    let after = round_node(s, st, node, origin);
    assert(after == round_children(s, first, node, abs, s.children[node].len()));
    assert forall|x: Node| !reaches(s, node, x) implies #[trigger] after.layouts[x]
        == st.layouts[x] by {
        assert(x != node);
        assert(first.layouts[x] == st.layouts[x]);
        assert(!descends(s, node, x, s.children[node].len()));
        assert(round_children(s, first, node, abs, s.children[node].len()).layouts[x]
            == first.layouts[x]);
    }
}

/// Rounding the children of a node changes no layout but strictly below the
/// node.
pub proof fn lemma_round_children_inside(
    s: Structure,
    st: State,
    node: Node,
    abs: Point<i64>,
    upto: nat,
)
    requires
        s.wf(),
        s.nodes.contains(node),
        upto <= s.children[node].len(),
    ensures
        forall|x: Node|
            !descends(s, node, x, upto) ==> #[trigger] round_children(
                s,
                st,
                node,
                abs,
                upto,
            ).layouts[x] == st.layouts[x],
    decreases s.rank[node], 0nat, upto,
{
    if upto > 0 {
        let before = round_children(s, st, node, abs, (upto - 1) as nat);
        lemma_round_children_inside(s, st, node, abs, (upto - 1) as nat);
        let child = s.children[node][upto - 1];
        if visitable(s, node, child) {
            lemma_round_node_inside(s, before, child, abs);
        }
        let after = round_children(s, st, node, abs, upto);
        assert(after == if visitable(s, node, child) {
            round_node(s, before, child, abs)
        } else {
            before
        });
        assert forall|x: Node| !descends(s, node, x, upto) implies #[trigger] after.layouts[x]
            == st.layouts[x] by {
            assert(!descends(s, node, x, (upto - 1) as nat));
            assert(before.layouts[x] == st.layouts[x]);
            if visitable(s, node, child) {
                assert(!reaches(s, child, x));
                assert(round_node(s, before, child, abs).layouts[x] == before.layouts[x]);
            }
        }
    }
}

/// Rounding keeps a layout within whole bounds, where its far edges lie
/// within the limit.
pub proof fn lemma_rounded_respects(s: Structure, node: Node, layout: Layout, origin: Point<i64>)
    requires
        s.nodes.contains(node),
        whole_bounds(s),
        respects(s, node, layout.size),
        -LIMIT <= absolute(origin, layout).x + layout.size.width <= LIMIT,
        -LIMIT <= absolute(origin, layout).y + layout.size.height <= LIMIT,
    ensures
        respects(s, node, rounded(layout, absolute(origin, layout)).size),
{
    let abs = absolute(origin, layout);
    if lower(s.styles[node].min_size.width).is_some() {
        lemma_rounding_keeps_lower_bound(
            abs.x,
            layout.size.width,
            lower(s.styles[node].min_size.width).unwrap(),
        );
    }
    if lower(s.styles[node].min_size.height).is_some() {
        lemma_rounding_keeps_lower_bound(
            abs.y,
            layout.size.height,
            lower(s.styles[node].min_size.height).unwrap(),
        );
    }
}

/// In a tree, rounding from a node down keeps every layout within whole
/// bounds, where the far edges lie within the limit.
pub proof fn lemma_round_node_respects(s: Structure, st: State, node: Node, origin: Point<i64>)
    requires
        s.wf(),
        separate(s),
        s.nodes.contains(node),
        whole_bounds(s),
        in_reach(s, st, node, origin),
    ensures
        keeps_respect(s, st, round_node(s, st, node, origin)),
    decreases s.rank[node], 1nat, 0nat,
{
    let layout = st.layouts[node];
    let abs = absolute(origin, layout);
    let first = st.with_layout(node, rounded(layout, abs));
    let count = s.children[node].len();
    assert forall|x: Node| descends(s, node, x, count) implies #[trigger] first.layouts[x]
        == st.layouts[x] by {
        lemma_children_keep_rank(s, node);
    }
    lemma_children_in_reach_same(s, st, first, node, abs, count);
    lemma_round_children_respects(s, first, node, abs, count);
    let after = round_node(s, st, node, origin);
    assert forall|x: Node|
        s.nodes.contains(x) && respects(s, x, (#[trigger] st.layouts[x]).size) implies respects(
        s,
        x,
        after.layouts[x].size,
    ) by {
        if x == node {
            lemma_rounded_respects(s, node, layout, origin);
        }
        assert(respects(s, x, first.layouts[x].size));
    }
}

/// In a tree, rounding the children of a node keeps every layout within
/// whole bounds, where the far edges lie within the limit.
pub proof fn lemma_round_children_respects(
    s: Structure,
    st: State,
    node: Node,
    abs: Point<i64>,
    upto: nat,
)
    requires
        s.wf(),
        separate(s),
        s.nodes.contains(node),
        whole_bounds(s),
        upto <= s.children[node].len(),
        children_in_reach(s, st, node, abs, upto),
    ensures
        keeps_respect(s, st, round_children(s, st, node, abs, upto)),
    decreases s.rank[node], 0nat, upto,
{
    if upto > 0 {
        let k = upto - 1;
        let before = round_children(s, st, node, abs, k as nat);
        lemma_round_children_respects(s, st, node, abs, k as nat);
        lemma_round_children_inside(s, st, node, abs, k as nat);
        let child = s.children[node][k];
        if visitable(s, node, child) {
            assert forall|x: Node| reaches(s, child, x) implies #[trigger] before.layouts[x]
                == st.layouts[x] by {
                if descends(s, node, x, k as nat) {
                    crate::laws::shape::lemma_descends_through_a_child(s, node, x, k as nat);
                    let j = choose|j: int|
                        0 <= j < k && visitable(s, node, #[trigger] s.children[node][j]) && reaches(
                            s,
                            s.children[node][j],
                            x,
                        );
                    assert(!(reaches(s, s.children[node][j], x) && reaches(
                        s,
                        s.children[node][k],
                        x,
                    )));
                }
            }
            lemma_in_reach_same(s, st, before, child, abs);
            lemma_round_node_respects(s, before, child, abs);
            let after = round_node(s, before, child, abs);
            assert forall|x: Node|
                s.nodes.contains(x) && respects(
                    s,
                    x,
                    (#[trigger] st.layouts[x]).size,
                ) implies respects(s, x, after.layouts[x].size) by {
                assert(respects(s, x, before.layouts[x].size));
            }
        }
    }
}

/// A first layout pass gives no shown node less than its lower bound.
///
/// Let the structure be a tree whose absolute lower bounds are whole
/// numbers of pixels, let the caches at and below `root` hold no entry, and
/// let the far edges that the solver produces lie within the limit of the
/// coordinates. Then after a layout pass from `root`, every node at or
/// below `root` that is not hidden and lies below no hidden node has a
/// width and a height that are not below the absolute lengths of its
/// `min_size`.
pub proof fn lemma_pass_respects_lower_bounds(
    s: Structure,
    st: State,
    root: Node,
    available_space: Size<AvailableSpace>,
)
    requires
        s.wf(),
        separate(s),
        st.wf(s),
        s.nodes.contains(root),
        no_answers(s, st, root),
        whole_bounds(s),
        in_reach(s, solved_pass(s, st, root, available_space), root, zero_point()),
    ensures
        forall|c: Node| #[trigger]
            shows(s, root, c) ==> respects(
                s,
                c,
                layout_pass(s, st, root, available_space).layouts[c].size,
            ),
{
    let start = solved_pass(s, st, root, available_space);
    lemma_solver_respects_lower_bounds(s, st, root, available_space);
    lemma_round_node_respects(s, start, root, zero_point());
    let after = layout_pass(s, st, root, available_space);
    assert forall|c: Node| #[trigger] shows(s, root, c) implies respects(
        s,
        c,
        after.layouts[c].size,
    ) by {
        lemma_shows_reaches(s, root, c);
        lemma_reaches_ranks(s, root, c);
        if c == root {
            assert(reaches(s, root, root));
            assert(st.caches[root].len() == CACHE_SIZE);
            lemma_lookup_misses_empty(
                st.caches[root],
                st.caches[root].len() as int,
                root_query(root, available_space),
                s,
            );
        } else {
            reveal(good);
        }
        assert(respects(s, c, start.layouts[c].size));
    }
}

/// A cache without entries answers no query.
pub proof fn lemma_lookup_misses_empty(cache: Seq<Option<Cache>>, upto: int, q: Query, s: Structure)
    requires
        0 <= upto <= cache.len(),
        forall|slot: int| 0 <= slot < cache.len() ==> (#[trigger] cache[slot]).is_none(),
    ensures
        crate::compute::cache_lookup_upto(
            cache,
            upto,
            q.known_dimensions,
            q.available_space,
            cache_run_mode(s, q),
            q.sizing_mode,
        ).is_none(),
    decreases upto,
{
    if upto > 0 {
        lemma_lookup_misses_empty(cache, upto - 1, q, s);
        assert(cache[upto - 1].is_none());
    }
}

} // verus!

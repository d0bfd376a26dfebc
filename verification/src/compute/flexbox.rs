//! The flexbox algorithm: sizes a flex container and lays out its children.
//!
//! The algorithm works on a list of items, one for each child, and a list
//! of lines. It alternates between steps that compute, applied to every
//! item or every line, and batches of queries to the children; what a
//! query returns depends on the child's cache, so the state of the tree is
//! threaded through every batch.

use vstd::prelude::*;
use crate::compute::common::{cross_of, cross_sum, from_axes, main_of, main_sum};
use crate::compute::flex_lines::{
    collect_flex_lines, cross_total, line_pass, longest, longest_exec, number, rank_items,
    rank_lines, spec_assigned_items, spec_collected_lines, spec_line_pass, spec_rank_items,
    spec_rank_lines, LineStage,
};
use crate::compute::flex_model::{
    compute_constants, gaps, make_item, FlexCtx, FlexItem, ItemKind, Line,
};
use crate::compute::flex_steps::{
    absolute_known, absolute_location, item_pass, padding_box, result_at, spec_item_pass,
    ItemStage,
};
use crate::compute::{
    compute_node_layout, node_layout, order_of, visitable, Query,
};
use crate::fixed::{max, mul_div, sat_add, sat_sub};
use crate::geometry::{
    clamp, known, maybe_clamp, maybe_sub, size_or, unknown_size, unwrap_or, zero_size, Size,
};
use crate::layout::{with_order, Layout, RunMode, SizingMode};
use crate::node::Node;
use crate::style::{resolve_size, AlignContent, AvailableSpace, Style};
use crate::tree::{LayoutTree, State, Structure};

verus! {

/// A question that the algorithm puts to the children of the container.
#[derive(Clone, Copy, Debug, PartialEq, Eq, Structural)]
pub enum Probe {
    /// The main size of the content of a flow item whose styles give no flex
    /// basis: sized under a max-content constraint.
    Base,
    /// The main size of a flow item without a lower bound under a
    /// min-content constraint, with the item's own size styles applied.
    Floor,
    /// The cross size of a flow item whose cross size is `Auto`, given its
    /// target main size.
    Cross,
    /// The layout of a flow item at its target size.
    Final,
    /// The size of an absolutely placed child, unless its styles decide both
    /// dimensions.
    AbsoluteSize,
    /// The layout of an absolutely placed child at its size.
    AbsoluteFinal,
    /// The layout of a hidden child.
    Hidden,
}

/// The query that a probe puts to the child of an item, if it puts one.
pub open spec fn spec_query_for(probe: Probe, ctx: FlexCtx, item: FlexItem) -> Option<Query> {
    let row = ctx.row;
    let cross_known = from_axes(row, None, cross_of(item.size, row));
    let target = from_axes(row, item.target_main, item.target_cross);
    match probe {
        Probe::Base => if item.kind == ItemKind::Flow && item.basis.is_none() {
            Some(
                Query {
                    node: item.node,
                    known_dimensions: cross_known,
                    parent_size: ctx.inner,
                    available_space: from_axes(
                        row,
                        AvailableSpace::MaxContent,
                        cross_of(ctx.available, row),
                    ),
                    run_mode: RunMode::ComputeSize,
                    sizing_mode: SizingMode::ContentSize,
                },
            )
        } else {
            None
        },
        Probe::Floor => if item.kind == ItemKind::Flow && main_of(item.min_size, row).is_none() {
            Some(
                Query {
                    node: item.node,
                    known_dimensions: cross_known,
                    parent_size: ctx.inner,
                    available_space: from_axes(
                        row,
                        AvailableSpace::MinContent,
                        cross_of(ctx.available, row),
                    ),
                    run_mode: RunMode::ComputeSize,
                    sizing_mode: SizingMode::InherentSize,
                },
            )
        } else {
            None
        },
        Probe::Cross => if item.kind == ItemKind::Flow && cross_of(item.size, row).is_none() {
            Some(
                Query {
                    node: item.node,
                    known_dimensions: from_axes(row, Some(item.target_main), None),
                    parent_size: ctx.inner,
                    available_space: from_axes(
                        row,
                        AvailableSpace::Definite(item.target_main),
                        cross_of(ctx.available, row),
                    ),
                    run_mode: RunMode::ComputeSize,
                    sizing_mode: SizingMode::ContentSize,
                },
            )
        } else {
            None
        },
        Probe::Final => if item.kind == ItemKind::Flow {
            Some(
                Query {
                    node: item.node,
                    known_dimensions: known(target),
                    parent_size: known(from_axes(row, ctx.inner_main, ctx.inner_cross)),
                    available_space: Size {
                        width: AvailableSpace::Definite(target.width),
                        height: AvailableSpace::Definite(target.height),
                    },
                    run_mode: RunMode::PerformLayout,
                    sizing_mode: SizingMode::ContentSize,
                },
            )
        } else {
            None
        },
        Probe::AbsoluteSize => {
            let decided = absolute_known(ctx, item);
            if item.kind == ItemKind::Absolute && !(decided.width.is_some()
                && decided.height.is_some()) {
                Some(
                    Query {
                        node: item.node,
                        known_dimensions: decided,
                        parent_size: known(padding_box(ctx)),
                        available_space: Size {
                            width: AvailableSpace::Definite(padding_box(ctx).width),
                            height: AvailableSpace::Definite(padding_box(ctx).height),
                        },
                        run_mode: RunMode::ComputeSize,
                        sizing_mode: SizingMode::ContentSize,
                    },
                )
            } else {
                None
            }
        },
        Probe::AbsoluteFinal => if item.kind == ItemKind::Absolute {
            Some(
                Query {
                    node: item.node,
                    known_dimensions: known(target),
                    parent_size: known(padding_box(ctx)),
                    available_space: Size {
                        width: AvailableSpace::Definite(target.width),
                        height: AvailableSpace::Definite(target.height),
                    },
                    run_mode: RunMode::PerformLayout,
                    sizing_mode: SizingMode::ContentSize,
                },
            )
        } else {
            None
        },
        Probe::Hidden => if item.kind == ItemKind::Hidden {
            Some(
                Query {
                    node: item.node,
                    known_dimensions: unknown_size(),
                    parent_size: unknown_size(),
                    available_space: Size {
                        width: AvailableSpace::MaxContent,
                        height: AvailableSpace::MaxContent,
                    },
                    run_mode: RunMode::PerformLayout,
                    sizing_mode: SizingMode::InherentSize,
                },
            )
        } else {
            None
        },
    }
}

/// The query that a probe puts to the child of an item, if it puts one.
#[verifier::when_used_as_spec(spec_query_for)]
pub fn query_for(probe: Probe, ctx: FlexCtx, item: FlexItem) -> (r: Option<Query>)
    ensures
        r == spec_query_for(probe, ctx, item),
{
    let row = ctx.row;
    let cross_known = from_axes(row, None, cross_of(item.size, row));
    let target = from_axes(row, item.target_main, item.target_cross);
    match probe {
        Probe::Base => if item.kind == ItemKind::Flow && item.basis.is_none() {
            Some(
                Query {
                    node: item.node,
                    known_dimensions: cross_known,
                    parent_size: ctx.inner,
                    available_space: from_axes(
                        row,
                        AvailableSpace::MaxContent,
                        cross_of(ctx.available, row),
                    ),
                    run_mode: RunMode::ComputeSize,
                    sizing_mode: SizingMode::ContentSize,
                },
            )
        } else {
            None
        },
        Probe::Floor => if item.kind == ItemKind::Flow && main_of(item.min_size, row).is_none() {
            Some(
                Query {
                    node: item.node,
                    known_dimensions: cross_known,
                    parent_size: ctx.inner,
                    available_space: from_axes(
                        row,
                        AvailableSpace::MinContent,
                        cross_of(ctx.available, row),
                    ),
                    run_mode: RunMode::ComputeSize,
                    sizing_mode: SizingMode::InherentSize,
                },
            )
        } else {
            None
        },
        Probe::Cross => if item.kind == ItemKind::Flow && cross_of(item.size, row).is_none() {
            Some(
                Query {
                    node: item.node,
                    known_dimensions: from_axes(row, Some(item.target_main), None),
                    parent_size: ctx.inner,
                    available_space: from_axes(
                        row,
                        AvailableSpace::Definite(item.target_main),
                        cross_of(ctx.available, row),
                    ),
                    run_mode: RunMode::ComputeSize,
                    sizing_mode: SizingMode::ContentSize,
                },
            )
        } else {
            None
        },
        Probe::Final => if item.kind == ItemKind::Flow {
            Some(
                Query {
                    node: item.node,
                    known_dimensions: known(target),
                    parent_size: known(from_axes(row, ctx.inner_main, ctx.inner_cross)),
                    available_space: Size {
                        width: AvailableSpace::Definite(target.width),
                        height: AvailableSpace::Definite(target.height),
                    },
                    run_mode: RunMode::PerformLayout,
                    sizing_mode: SizingMode::ContentSize,
                },
            )
        } else {
            None
        },
        Probe::AbsoluteSize => {
            let decided = absolute_known(ctx, item);
            if item.kind == ItemKind::Absolute && !(decided.width.is_some()
                && decided.height.is_some()) {
                Some(
                    Query {
                        node: item.node,
                        known_dimensions: decided,
                        parent_size: known(padding_box(ctx)),
                        available_space: Size {
                            width: AvailableSpace::Definite(padding_box(ctx).width),
                            height: AvailableSpace::Definite(padding_box(ctx).height),
                        },
                        run_mode: RunMode::ComputeSize,
                        sizing_mode: SizingMode::ContentSize,
                    },
                )
            } else {
                None
            }
        },
        Probe::AbsoluteFinal => if item.kind == ItemKind::Absolute {
            Some(
                Query {
                    node: item.node,
                    known_dimensions: known(target),
                    parent_size: known(padding_box(ctx)),
                    available_space: Size {
                        width: AvailableSpace::Definite(target.width),
                        height: AvailableSpace::Definite(target.height),
                    },
                    run_mode: RunMode::PerformLayout,
                    sizing_mode: SizingMode::ContentSize,
                },
            )
        } else {
            None
        },
        Probe::Hidden => if item.kind == ItemKind::Hidden {
            Some(
                Query {
                    node: item.node,
                    known_dimensions: unknown_size(),
                    parent_size: unknown_size(),
                    available_space: Size {
                        width: AvailableSpace::MaxContent,
                        height: AvailableSpace::MaxContent,
                    },
                    run_mode: RunMode::PerformLayout,
                    sizing_mode: SizingMode::InherentSize,
                },
            )
        } else {
            None
        },
    }
}

/// The queries that a probe puts to the children of all items.
#[verifier::opaque]
pub open spec fn spec_queries(probe: Probe, ctx: FlexCtx, items: Seq<FlexItem>) -> Seq<
    Option<Query>,
> {
    Seq::new(items.len(), |i: int| query_for(probe, ctx, items[i]))
}

/// Makes the queries that a probe puts to the children of all items.
pub fn queries(probe: Probe, ctx: FlexCtx, items: &Vec<FlexItem>) -> (out: Vec<Option<Query>>)
    ensures
        out@ == spec_queries(probe, ctx, items@),
{
    let mut out: Vec<Option<Query>> = Vec::new();
    let mut i: usize = 0;
    while i < items.len()
        invariant
            i <= items.len(),
            out.len() == i,
            forall|k: int| 0 <= k < i ==> out[k] == query_for(probe, ctx, items[k]),
        decreases items.len() - i,
    {
        out.push(query_for(probe, ctx, items[i]));
        i = i + 1;
    }
    proof {
        reveal(spec_queries);
    }
    assert(out@ =~= spec_queries(probe, ctx, items@));
    out
}

/// A round of writing layouts to the children of the container.
#[derive(Clone, Copy, Debug, PartialEq, Eq, Structural)]
pub enum Phase {
    /// The flow items: the size their child returned, at their location.
    Flow,
    /// The absolutely placed children: the size their child returned, placed
    /// by their inset.
    Absolute,
    /// The hidden children: the zero layout.
    Hidden,
}

/// The layout that a phase writes for the child of an item, if it writes
/// one. `index` is the index of the child and `result` the size the child
/// returned for the last query.
pub open spec fn spec_layout_for(
    phase: Phase,
    ctx: FlexCtx,
    item: FlexItem,
    index: usize,
    result: Size<i64>,
) -> Option<Layout> {
    match phase {
        Phase::Flow => if item.kind == ItemKind::Flow {
            Some(Layout { order: order_of(index), size: result, location: item.location })
        } else {
            None
        },
        Phase::Absolute => if item.kind == ItemKind::Absolute {
            Some(
                Layout {
                    order: order_of(index),
                    size: result,
                    location: absolute_location(ctx, item, result),
                },
            )
        } else {
            None
        },
        Phase::Hidden => if item.kind == ItemKind::Hidden {
            Some(with_order(order_of(index)))
        } else {
            None
        },
    }
}

/// The layout that a phase writes for the child of an item, if it writes
/// one.
#[verifier::when_used_as_spec(spec_layout_for)]
pub fn layout_for(phase: Phase, ctx: FlexCtx, item: FlexItem, index: usize, result: Size<i64>) -> (r:
    Option<Layout>)
    ensures
        r == spec_layout_for(phase, ctx, item, index, result),
{
    match phase {
        Phase::Flow => if item.kind == ItemKind::Flow {
            Some(Layout { order: order_of(index), size: result, location: item.location })
        } else {
            None
        },
        Phase::Absolute => if item.kind == ItemKind::Absolute {
            Some(
                Layout {
                    order: order_of(index),
                    size: result,
                    location: absolute_location(ctx, item, result),
                },
            )
        } else {
            None
        },
        Phase::Hidden => if item.kind == ItemKind::Hidden {
            Some(with_order(order_of(index)))
        } else {
            None
        },
    }
}

/// The state after a phase has written the layouts of the children of the
/// first `upto` items.
pub open spec fn written(
    st: State,
    phase: Phase,
    ctx: FlexCtx,
    items: Seq<FlexItem>,
    results: Seq<Size<i64>>,
    upto: int,
) -> State
    decreases upto,
{
    if upto <= 0 {
        st
    } else {
        let before = written(st, phase, ctx, items, results, upto - 1);
        match layout_for(
            phase,
            ctx,
            items[upto - 1],
            (upto - 1) as usize,
            result_at(results, upto - 1),
        ) {
            Some(layout) => before.with_layout(items[upto - 1].node, layout),
            None => before,
        }
    }
}

/// Writes the layouts of a phase to the children of the container.
pub fn write_layouts<T: LayoutTree>(
    tree: &mut T,
    phase: Phase,
    ctx: FlexCtx,
    items: &Vec<FlexItem>,
    results: &Vec<Size<i64>>,
)
    requires
        old(tree).structure().wf(),
        old(tree).state().wf(old(tree).structure()),
        forall|i: int| 0 <= i < items.len() ==> old(tree).structure().nodes.contains(items[i].node),
    ensures
        final(tree).structure() == old(tree).structure(),
        final(tree).state().wf(final(tree).structure()),
        final(tree).state() == written(
            old(tree).state(),
            phase,
            ctx,
            items@,
            results@,
            items.len() as int,
        ),
{
    let ghost s = tree.structure();
    let ghost st = tree.state();
    let mut i: usize = 0;
    while i < items.len()
        invariant
            i <= items.len(),
            s.wf(),
            tree.structure() == s,
            tree.state().wf(s),
            forall|k: int| 0 <= k < items.len() ==> s.nodes.contains(items[k].node),
            tree.state() == written(st, phase, ctx, items@, results@, i as int),
        decreases items.len() - i,
    {
        let item = items[i];
        let result = if i < results.len() {
            results[i]
        } else {
            zero_size()
        };
        match layout_for(phase, ctx, item, i, result) {
            Some(layout) => {
                tree.set_layout(item.node, layout);
            },
            None => {},
        }
        i = i + 1;
    }
}

/// The items of a container, one for each child, in declared order.
#[verifier::opaque]
pub open spec fn spec_make_items(s: Structure, node: Node, ctx: FlexCtx) -> Seq<FlexItem> {
    Seq::new(
        s.children[node].len(),
        |i: int| make_item(ctx, s.children[node][i], s.styles[s.children[node][i]]),
    )
}

/// Makes the items of a container, one for each child, in declared order.
pub fn make_items<T: LayoutTree>(tree: &T, node: Node, ctx: FlexCtx) -> (out: Vec<FlexItem>)
    requires
        tree.structure().wf(),
        tree.structure().nodes.contains(node),
    ensures
        out@ == spec_make_items(tree.structure(), node, ctx),
{
    let ghost s = tree.structure();
    let count = tree.child_count(node);
    let mut out: Vec<FlexItem> = Vec::new();
    let mut i: usize = 0;
    while i < count
        invariant
            i <= count,
            count == s.children[node].len(),
            s == tree.structure(),
            s.wf(),
            s.nodes.contains(node),
            out.len() == i,
            forall|k: int|
                0 <= k < i ==> out[k] == make_item(
                    ctx,
                    s.children[node][k],
                    s.styles[s.children[node][k]],
                ),
        decreases count - i,
    {
        let child = tree.child(node, i);
        out.push(make_item(ctx, child, tree.style(child)));
        i = i + 1;
    }
    proof {
        reveal(spec_make_items);
    }
    assert(out@ =~= spec_make_items(s, node, ctx));
    out
}

/// Whether every item is frozen.
pub open spec fn all_frozen(items: Seq<FlexItem>) -> bool {
    forall|i: int| 0 <= i < items.len() ==> (#[trigger] items[i]).frozen
}

/// Tells whether every item is frozen.
pub fn all_frozen_exec(items: &Vec<FlexItem>) -> (r: bool)
    ensures
        r == all_frozen(items@),
{
    let mut i: usize = 0;
    while i < items.len()
        invariant
            i <= items.len(),
            forall|k: int| 0 <= k < i ==> (#[trigger] items[k]).frozen,
        decreases items.len() - i,
    {
        if !items[i].frozen {
            return false;
        }
        i = i + 1;
    }
    true
}

/// One round of resolving flexible lengths: the free space of each line is
/// shared out among its unfrozen items, each is held between its bounds, and
/// the items that the violations call for are frozen.
pub open spec fn resolve_round(ctx: FlexCtx, items: Seq<FlexItem>, lines: Seq<Line>) -> (
    Seq<FlexItem>,
    Seq<Line>,
) {
    let lines1 = spec_line_pass(LineStage::Free, ctx, items, lines, 0, 0);
    let items1 = spec_item_pass(ItemStage::Distribute, ctx, items, lines1, Seq::empty());
    let lines2 = spec_line_pass(LineStage::Violation, ctx, items1, lines1, 0, 0);
    let items2 = spec_item_pass(ItemStage::Freeze, ctx, items1, lines2, Seq::empty());
    (items2, lines2)
}

/// Rounds of resolving flexible lengths, until every item is frozen or
/// `rounds` are done.
pub open spec fn resolve_rounds(
    ctx: FlexCtx,
    items: Seq<FlexItem>,
    lines: Seq<Line>,
    rounds: nat,
) -> (Seq<FlexItem>, Seq<Line>)
    decreases rounds,
{
    if rounds == 0 || all_frozen(items) {
        (items, lines)
    } else {
        let (items1, lines1) = resolve_round(ctx, items, lines);
        resolve_rounds(ctx, items1, lines1, (rounds - 1) as nat)
    }
}

/// Resolves the flexible lengths of all lines: one round for each item at
/// most.
pub fn resolve_flexible_lengths(ctx: FlexCtx, items: Vec<FlexItem>, lines: Vec<Line>) -> (out: (
    Vec<FlexItem>,
    Vec<Line>,
))
    ensures
        (out.0@, out.1@) == resolve_rounds(ctx, items@, lines@, items@.len()),
{
    let ghost goal = resolve_rounds(ctx, items@, lines@, items@.len());
    let empty: Vec<Size<i64>> = Vec::new();
    let mut rounds: usize = items.len();
    let mut current = items;
    let mut current_lines = lines;
    loop
        invariant
            empty@ == Seq::<Size<i64>>::empty(),
            goal == resolve_rounds(ctx, items@, lines@, items@.len()),
            resolve_rounds(ctx, current@, current_lines@, rounds as nat) == goal,
        decreases rounds,
    {
        if rounds == 0 || all_frozen_exec(&current) {
            return (current, current_lines);
        }
        let lines1 = line_pass(LineStage::Free, ctx, &current, &current_lines, 0, 0);
        let items1 = item_pass(ItemStage::Distribute, ctx, &current, &lines1, &empty);
        let lines2 = line_pass(LineStage::Violation, ctx, &items1, &lines1, 0, 0);
        let items2 = item_pass(ItemStage::Freeze, ctx, &items1, &lines2, &empty);
        current = items2;
        current_lines = lines2;
        rounds = rounds - 1;
    }
}

/// The main size of the content box: the known one, else the length of the
/// longest line held between the container's own bounds.
pub open spec fn spec_inner_main_size(ctx: FlexCtx, longest: i64) -> i64 {
    let edges = main_sum(ctx.padding_border, ctx.row);
    match main_of(ctx.inner, ctx.row) {
        Some(v) => v,
        None => max(
            clamp(
                longest,
                maybe_sub(main_of(ctx.min, ctx.row), edges),
                maybe_sub(main_of(ctx.max, ctx.row), edges),
            ),
            0,
        ),
    }
}

/// The main size of the content box.
#[verifier::when_used_as_spec(spec_inner_main_size)]
pub fn inner_main_size(ctx: FlexCtx, longest: i64) -> (r: i64)
    ensures
        r == spec_inner_main_size(ctx, longest),
{
    let edges = main_sum(ctx.padding_border, ctx.row);
    match main_of(ctx.inner, ctx.row) {
        Some(v) => v,
        None => max(
            clamp(
                longest,
                maybe_sub(main_of(ctx.min, ctx.row), edges),
                maybe_sub(main_of(ctx.max, ctx.row), edges),
            ),
            0,
        ),
    }
}

/// The cross size of the content box: the known one, else the cross sizes
/// of the lines and the gaps between them, held between the container's own
/// bounds. `total` is the sum of the cross sizes of the lines and `lines`
/// their number.
pub open spec fn spec_inner_cross_size(ctx: FlexCtx, total: i64, lines: i64) -> i64 {
    let edges = cross_sum(ctx.padding_border, ctx.row);
    match cross_of(ctx.inner, ctx.row) {
        Some(v) => v,
        None => max(
            clamp(
                sat_add(total, gaps(ctx.gap_cross, lines)),
                maybe_sub(cross_of(ctx.min, ctx.row), edges),
                maybe_sub(cross_of(ctx.max, ctx.row), edges),
            ),
            0,
        ),
    }
}

/// The cross size of the content box.
#[verifier::when_used_as_spec(spec_inner_cross_size)]
pub fn inner_cross_size(ctx: FlexCtx, total: i64, lines: i64) -> (r: i64)
    ensures
        r == spec_inner_cross_size(ctx, total, lines),
{
    let edges = cross_sum(ctx.padding_border, ctx.row);
    match cross_of(ctx.inner, ctx.row) {
        Some(v) => v,
        None => max(
            clamp(
                sat_add(total, gaps(ctx.gap_cross, lines)),
                maybe_sub(cross_of(ctx.min, ctx.row), edges),
                maybe_sub(cross_of(ctx.max, ctx.row), edges),
            ),
            0,
        ),
    }
}

/// By how much each line grows where `align_content` stretches the lines: an
/// equal share of the cross size of the content box that the lines and gaps
/// leave free, where that size is known.
pub open spec fn spec_stretch_amount(ctx: FlexCtx, total: i64, lines: i64) -> i64 {
    match cross_of(ctx.inner, ctx.row) {
        Some(c) => {
            let used = sat_add(total, gaps(ctx.gap_cross, lines));
            if ctx.align_content == AlignContent::Stretch && used < c {
                mul_div(sat_sub(c, used), 1, lines)
            } else {
                0
            }
        },
        None => 0,
    }
}

/// By how much each line grows where `align_content` stretches the lines.
#[verifier::when_used_as_spec(spec_stretch_amount)]
pub fn stretch_amount(ctx: FlexCtx, total: i64, lines: i64) -> (r: i64)
    ensures
        r == spec_stretch_amount(ctx, total, lines),
{
    match cross_of(ctx.inner, ctx.row) {
        Some(c) => {
            let used = sat_add(total, gaps(ctx.gap_cross, lines));
            if ctx.align_content == AlignContent::Stretch && used < c {
                mul_div(sat_sub(c, used), 1, lines)
            } else {
                0
            }
        },
        None => 0,
    }
}

/// The size of the container: on each axis the known one, else the content
/// box with padding and border; never negative.
pub open spec fn spec_container_size(ctx: FlexCtx) -> Size<i64> {
    from_axes(
        ctx.row,
        max(
            unwrap_or(
                main_of(ctx.outer, ctx.row),
                sat_add(ctx.inner_main, main_sum(ctx.padding_border, ctx.row)),
            ),
            0,
        ),
        max(
            unwrap_or(
                cross_of(ctx.outer, ctx.row),
                sat_add(ctx.inner_cross, cross_sum(ctx.padding_border, ctx.row)),
            ),
            0,
        ),
    )
}

/// The size of the container.
#[verifier::when_used_as_spec(spec_container_size)]
pub fn container_size(ctx: FlexCtx) -> (r: Size<i64>)
    ensures
        r == spec_container_size(ctx),
        r.width >= 0,
        r.height >= 0,
{
    from_axes(
        ctx.row,
        max(
            unwrap_or(
                main_of(ctx.outer, ctx.row),
                sat_add(ctx.inner_main, main_sum(ctx.padding_border, ctx.row)),
            ),
            0,
        ),
        max(
            unwrap_or(
                cross_of(ctx.outer, ctx.row),
                sat_add(ctx.inner_cross, cross_sum(ctx.padding_border, ctx.row)),
            ),
            0,
        ),
    )
}

/// The state after the queries with indices below `upto` have been put, in
/// order, to children of `parent`, and the sizes that were returned: the
/// zero size where there is no query or the node asked is not a child of
/// lower rank.
pub open spec fn run_queries(
    s: Structure,
    st: State,
    parent: Node,
    queries: Seq<Option<Query>>,
    upto: nat,
) -> (State, Seq<Size<i64>>)
    decreases s.rank[parent], 0nat, upto,
{
    if upto == 0 {
        (st, Seq::empty())
    } else {
        let (before, sizes) = run_queries(s, st, parent, queries, (upto - 1) as nat);
        match queries[upto - 1] {
            Some(q) => if visitable(s, parent, q.node) {
                let (after, size) = node_layout(s, before, q);
                (after, sizes.push(size))
            } else {
                (before, sizes.push(zero_size()))
            },
            None => (before, sizes.push(zero_size())),
        }
    }
}

/// The state and the size of the container after one run of the algorithm
/// with the given known dimensions.
///
/// The run takes these steps, in order:
///
/// 1. The constants of the container are computed, and an item is made for
///    each child.
/// 2. Each flow item gets its flex basis, from its styles or by a probe of
///    its content, and its floor, from its styles or by a probe under a
///    min-content constraint; the hypothetical main size is the basis held
///    between the floor and the upper bound.
/// 3. The items are collected into lines. The main size of the content box
///    is the known one, else the length of the longest line.
/// 4. The flexible lengths of each line are resolved: free space is shared
///    out by grow factors, missing space by shrink factors scaled by the
///    basis, and items that hit a bound are frozen there, round by round.
/// 5. Each item gets its hypothetical cross size, from its styles or by a
///    probe at its target main size. The lines are sized across, stretched
///    where `align_content` asks for it, and the cross size of the content
///    box is the known one, else that of the lines and their gaps.
/// 6. A run that only sizes the container ends here. Otherwise the items
///    get their cross sizes, the lines their offsets and the items their
///    locations.
/// 7. Each flow item is asked to lay itself out at its target size, and is
///    given the size it returns at its location. Each absolutely placed
///    child is sized by its styles or a probe, asked to lay itself out, and
///    placed by its inset. Each hidden child is given the zero layout and
///    asked to hide what lies below it.
pub open spec fn preliminary(
    s: Structure,
    st: State,
    q: Query,
    known_dimensions: Size<Option<i64>>,
    run_mode: RunMode,
) -> (State, Size<i64>)
    decreases s.rank[q.node], 1nat, 0nat,
{
    let node = q.node;
    let none = Seq::<Size<i64>>::empty();
    let ctx0 = compute_constants(s.styles[node], known_dimensions, q.parent_size, q.available_space);
    let items0 = spec_make_items(s, node, ctx0);
    let n = items0.len();
    let (st1, bases) = run_queries(s, st, node, spec_queries(Probe::Base, ctx0, items0), n);
    let items1 = spec_item_pass(ItemStage::Base, ctx0, items0, Seq::empty(), bases);
    let (st2, floors) = run_queries(s, st1, node, spec_queries(Probe::Floor, ctx0, items1), n);
    let items2 = spec_item_pass(ItemStage::Floor, ctx0, items1, Seq::empty(), floors);
    let items3 = spec_assigned_items(ctx0, items2);
    let lines0 = spec_collected_lines(ctx0, items2);
    let lines1 = spec_line_pass(LineStage::Measure, ctx0, items3, lines0, 0, 0);
    let ctx1 = FlexCtx {
        inner_main: inner_main_size(ctx0, longest(lines1, lines1.len() as int)),
        ..ctx0
    };
    let lines2 = spec_line_pass(LineStage::Direction, ctx1, items3, lines1, 0, 0);
    let items4 = spec_item_pass(ItemStage::Init, ctx1, items3, lines2, none);
    let (items5, lines3) = resolve_rounds(ctx1, items4, lines2, items4.len());
    let (st3, crosses) = run_queries(s, st2, node, spec_queries(Probe::Cross, ctx1, items5), n);
    let items6 = spec_item_pass(ItemStage::Cross, ctx1, items5, lines3, crosses);
    let lines4 = spec_line_pass(LineStage::CrossSize, ctx1, items6, lines3, 0, 0);
    let count = number(lines4.len() as usize);
    let lines5 = spec_line_pass(
        LineStage::Stretch,
        ctx1,
        items6,
        lines4,
        stretch_amount(ctx1, cross_total(lines4, lines4.len() as int), count),
        0,
    );
    let total = cross_total(lines5, lines5.len() as int);
    let ctx2 = FlexCtx { inner_cross: inner_cross_size(ctx1, total, count), ..ctx1 };
    let ctx = FlexCtx { container: container_size(ctx2), ..ctx2 };
    if run_mode == RunMode::ComputeSize {
        (st3, ctx.container)
    } else {
        let items7 = spec_item_pass(ItemStage::UsedCross, ctx, items6, lines5, none);
        let lines6 = spec_line_pass(LineStage::Used, ctx, items7, lines5, 0, 0);
        let lines7 = spec_rank_lines(lines6);
        let lines8 = spec_line_pass(LineStage::Offset, ctx, items7, lines7, total, count);
        let items8 = spec_rank_items(ctx, items7, lines8);
        let items9 = spec_item_pass(ItemStage::Place, ctx, items8, lines8, none);
        let (st4, finals) = run_queries(s, st3, node, spec_queries(Probe::Final, ctx, items9), n);
        let st5 = written(st4, Phase::Flow, ctx, items9, finals, n as int);
        let (st6, measured) = run_queries(
            s,
            st5,
            node,
            spec_queries(Probe::AbsoluteSize, ctx, items9),
            n,
        );
        let items10 = spec_item_pass(ItemStage::AbsoluteSize, ctx, items9, lines8, measured);
        let (st7, placed) = run_queries(
            s,
            st6,
            node,
            spec_queries(Probe::AbsoluteFinal, ctx, items10),
            n,
        );
        let st8 = written(st7, Phase::Absolute, ctx, items10, placed, n as int);
        let st9 = written(st8, Phase::Hidden, ctx, items10, none, n as int);
        let (st10, hidden) = run_queries(
            s,
            st9,
            node,
            spec_queries(Probe::Hidden, ctx, items10),
            n,
        );
        (st10, ctx.container)
    }
}

/// The size of the container that its styles give: its `size` held between
/// its bounds, each resolved against the size of the parent.
pub open spec fn spec_styled_size(style: Style, parent_size: Size<Option<i64>>) -> Size<Option<i64>> {
    let size = resolve_size(style.size, parent_size);
    let lo = resolve_size(style.min_size, parent_size);
    let hi = resolve_size(style.max_size, parent_size);
    Size {
        width: maybe_clamp(size.width, lo.width, hi.width),
        height: maybe_clamp(size.height, lo.height, hi.height),
    }
}

/// The size of the container that its styles give.
#[verifier::when_used_as_spec(spec_styled_size)]
pub fn styled_size(style: Style, parent_size: Size<Option<i64>>) -> (r: Size<Option<i64>>)
    ensures
        r == spec_styled_size(style, parent_size),
{
    let size = resolve_size(style.size, parent_size);
    let lo = resolve_size(style.min_size, parent_size);
    let hi = resolve_size(style.max_size, parent_size);
    Size {
        width: maybe_clamp(size.width, lo.width, hi.width),
        height: maybe_clamp(size.height, lo.height, hi.height),
    }
}

/// Whether the styles bound the size of the container on any side.
pub open spec fn spec_is_bounded(style: Style, parent_size: Size<Option<i64>>) -> bool {
    let lo = resolve_size(style.min_size, parent_size);
    let hi = resolve_size(style.max_size, parent_size);
    lo.width.is_some() || lo.height.is_some() || hi.width.is_some() || hi.height.is_some()
}

/// Whether the styles bound the size of the container on any side.
#[verifier::when_used_as_spec(spec_is_bounded)]
pub fn is_bounded(style: Style, parent_size: Size<Option<i64>>) -> (r: bool)
    ensures
        r == spec_is_bounded(style, parent_size),
{
    let lo = resolve_size(style.min_size, parent_size);
    let hi = resolve_size(style.max_size, parent_size);
    lo.width.is_some() || lo.height.is_some() || hi.width.is_some() || hi.height.is_some()
}

/// A size held between the bounds that the styles give.
pub open spec fn spec_bounded_size(style: Style, parent_size: Size<Option<i64>>, size: Size<i64>) -> Size<
    i64,
> {
    let lo = resolve_size(style.min_size, parent_size);
    let hi = resolve_size(style.max_size, parent_size);
    Size {
        width: clamp(size.width, lo.width, hi.width),
        height: clamp(size.height, lo.height, hi.height),
    }
}

/// A size held between the bounds that the styles give.
#[verifier::when_used_as_spec(spec_bounded_size)]
pub fn bounded_size(style: Style, parent_size: Size<Option<i64>>, size: Size<i64>) -> (r: Size<i64>)
    ensures
        r == spec_bounded_size(style, parent_size, size),
{
    let lo = resolve_size(style.min_size, parent_size);
    let hi = resolve_size(style.max_size, parent_size);
    Size {
        width: clamp(size.width, lo.width, hi.width),
        height: clamp(size.height, lo.height, hi.height),
    }
}

/// The state and the size after a flex container has answered a query.
///
/// Dimensions that the asker knows stand; the others are those the styles
/// give. Where the styles bound the size, the container is first sized
/// without writing layouts, and then run again at that size held between
/// the bounds.
pub open spec fn spec_compute(s: Structure, st: State, q: Query) -> (State, Size<i64>)
    decreases s.rank[q.node], 2nat, 0nat,
{
    let style = s.styles[q.node];
    let decided = size_or(q.known_dimensions, styled_size(style, q.parent_size));
    if is_bounded(style, q.parent_size) {
        let (st1, first) = preliminary(s, st, q, decided, RunMode::ComputeSize);
        preliminary(
            s,
            st1,
            q,
            size_or(q.known_dimensions, known(bounded_size(style, q.parent_size, first))),
            q.run_mode,
        )
    } else {
        preliminary(s, st, q, decided, q.run_mode)
    }
}

/// Whether the items stand for the children of `node`, one for each and in
/// order.
pub open spec fn items_of(s: Structure, node: Node, items: Seq<FlexItem>) -> bool {
    &&& items.len() == s.children[node].len()
    &&& forall|i: int| 0 <= i < items.len() ==> (#[trigger] items[i]).node == s.children[node][i]
}

/// A step leaves every item with its node.
pub proof fn lemma_item_pass_nodes(
    s: Structure,
    node: Node,
    stage: ItemStage,
    ctx: FlexCtx,
    items: Seq<FlexItem>,
    lines: Seq<Line>,
    results: Seq<Size<i64>>,
)
    requires
        items_of(s, node, items),
    ensures
        items_of(s, node, spec_item_pass(stage, ctx, items, lines, results)),
{
    reveal(spec_item_pass);
    let out = spec_item_pass(stage, ctx, items, lines, results);
    assert forall|i: int| 0 <= i < out.len() implies (#[trigger] out[i]).node
        == s.children[node][i] by {
        assert(items[i].node == s.children[node][i]);
    }
}

/// The queries of a probe go to children of the container.
pub proof fn lemma_queries_visitable(
    s: Structure,
    node: Node,
    probe: Probe,
    ctx: FlexCtx,
    items: Seq<FlexItem>,
)
    requires
        s.wf(),
        s.nodes.contains(node),
        items_of(s, node, items),
    ensures
        queries_visitable(s, node, spec_queries(probe, ctx, items)),
        spec_queries(probe, ctx, items).len() == items.len(),
{
    reveal(spec_queries);
    let qs = spec_queries(probe, ctx, items);
    assert forall|i: int| 0 <= i < qs.len() && (#[trigger] qs[i]).is_some() implies visitable(
        s,
        node,
        qs[i].unwrap().node,
    ) by {
        assert(items[i].node == s.children[node][i]);
        assert(s.nodes.contains(s.children[node][i]));
    }
}

/// Whether every query goes to a node that can be visited from `parent`.
pub open spec fn queries_visitable(s: Structure, parent: Node, queries: Seq<Option<Query>>) -> bool {
    forall|i: int|
        0 <= i < queries.len() && (#[trigger] queries[i]).is_some() ==> visitable(
            s,
            parent,
            queries[i].unwrap().node,
        )
}

/// Puts the queries to the children of `parent`, in order, and returns the
/// sizes they answer with: the zero size where there is no query.
pub fn run_queries_exec<T: LayoutTree>(
    tree: &mut T,
    parent: Node,
    queries: &Vec<Option<Query>>,
) -> (sizes: Vec<Size<i64>>)
    requires
        old(tree).structure().wf(),
        old(tree).state().wf(old(tree).structure()),
        old(tree).structure().nodes.contains(parent),
        queries_visitable(old(tree).structure(), parent, queries@),
    ensures
        final(tree).structure() == old(tree).structure(),
        final(tree).state().wf(final(tree).structure()),
        (final(tree).state(), sizes@) == run_queries(
            old(tree).structure(),
            old(tree).state(),
            parent,
            queries@,
            queries@.len(),
        ),
    decreases old(tree).structure().rank[parent], 0nat, 0nat,
{
    let ghost s = tree.structure();
    let ghost st = tree.state();
    let mut sizes: Vec<Size<i64>> = Vec::new();
    let mut i: usize = 0;
    while i < queries.len()
        invariant
            i <= queries.len(),
            s.wf(),
            s == old(tree).structure(),
            tree.structure() == s,
            tree.state().wf(s),
            s.nodes.contains(parent),
            queries_visitable(s, parent, queries@),
            (tree.state(), sizes@) == run_queries(s, st, parent, queries@, i as nat),
        decreases queries.len() - i,
    {
        match queries[i] {
            Some(q) => {
                assert(queries@[i as int].is_some());
                let size = compute_node_layout(
                    tree,
                    q.node,
                    q.known_dimensions,
                    q.parent_size,
                    q.available_space,
                    q.run_mode,
                    q.sizing_mode,
                );
                sizes.push(size);
            },
            None => {
                sizes.push(zero_size());
            },
        }
        i = i + 1;
    }
    sizes
}

/// Runs the algorithm once with the given known dimensions.
pub fn compute_preliminary<T: LayoutTree>(
    tree: &mut T,
    q: Query,
    known_dimensions: Size<Option<i64>>,
    run_mode: RunMode,
) -> (size: Size<i64>)
    requires
        old(tree).structure().wf(),
        old(tree).state().wf(old(tree).structure()),
        old(tree).structure().nodes.contains(q.node),
    ensures
        final(tree).structure() == old(tree).structure(),
        final(tree).state().wf(final(tree).structure()),
        (final(tree).state(), size) == preliminary(
            old(tree).structure(),
            old(tree).state(),
            q,
            known_dimensions,
            run_mode,
        ),
    decreases old(tree).structure().rank[q.node], 1nat, 0nat,
{
    let ghost s = tree.structure();
    let node = q.node;
    let none: Vec<Size<i64>> = Vec::new();
    let no_lines: Vec<Line> = Vec::new();
    let ctx0 = compute_constants(tree.style(node), known_dimensions, q.parent_size, q.available_space);
    let items0 = make_items(tree, node, ctx0);
    proof {
        lemma_make_items_nodes(s, node, ctx0);
    }

    let base_queries = queries(Probe::Base, ctx0, &items0);
    proof {
        lemma_queries_visitable(s, node, Probe::Base, ctx0, items0@);
    }
    let bases = run_queries_exec(tree, node, &base_queries);
    let items1 = item_pass(ItemStage::Base, ctx0, &items0, &no_lines, &bases);
    proof {
        lemma_item_pass_nodes(s, node, ItemStage::Base, ctx0, items0@, no_lines@, bases@);
    }

    let floor_queries = queries(Probe::Floor, ctx0, &items1);
    proof {
        lemma_queries_visitable(s, node, Probe::Floor, ctx0, items1@);
    }
    let floors = run_queries_exec(tree, node, &floor_queries);
    let items2 = item_pass(ItemStage::Floor, ctx0, &items1, &no_lines, &floors);
    proof {
        lemma_item_pass_nodes(s, node, ItemStage::Floor, ctx0, items1@, no_lines@, floors@);
    }

    let (items3, lines0) = collect_flex_lines(ctx0, &items2);
    proof {
        lemma_assigned_items_nodes(s, node, ctx0, items2@);
    }
    let lines1 = line_pass(LineStage::Measure, ctx0, &items3, &lines0, 0, 0);
    let ctx1 = FlexCtx { inner_main: inner_main_size(ctx0, longest_exec(&lines1)), ..ctx0 };
    let lines2 = line_pass(LineStage::Direction, ctx1, &items3, &lines1, 0, 0);
    let items4 = item_pass(ItemStage::Init, ctx1, &items3, &lines2, &none);
    proof {
        lemma_item_pass_nodes(s, node, ItemStage::Init, ctx1, items3@, lines2@, none@);
    }
    let (items5, lines3) = resolve_flexible_lengths(ctx1, items4, lines2);
    proof {
        lemma_resolve_rounds_nodes(s, node, ctx1, items4@, lines2@, items4@.len());
    }

    let cross_queries = queries(Probe::Cross, ctx1, &items5);
    proof {
        lemma_queries_visitable(s, node, Probe::Cross, ctx1, items5@);
    }
    let crosses = run_queries_exec(tree, node, &cross_queries);
    let items6 = item_pass(ItemStage::Cross, ctx1, &items5, &lines3, &crosses);
    proof {
        lemma_item_pass_nodes(s, node, ItemStage::Cross, ctx1, items5@, lines3@, crosses@);
    }
    let lines4 = line_pass(LineStage::CrossSize, ctx1, &items6, &lines3, 0, 0);
    let count = number(lines4.len());
    let (_, total0) = rank_lines(&lines4);
    let lines5 = line_pass(
        LineStage::Stretch,
        ctx1,
        &items6,
        &lines4,
        stretch_amount(ctx1, total0, count),
        0,
    );
    let (_, total) = rank_lines(&lines5);
    let ctx2 = FlexCtx { inner_cross: inner_cross_size(ctx1, total, count), ..ctx1 };
    let ctx = FlexCtx { container: container_size(ctx2), ..ctx2 };
    if run_mode == RunMode::ComputeSize {
        return ctx.container;
    }
    let items7 = item_pass(ItemStage::UsedCross, ctx, &items6, &lines5, &none);
    proof {
        lemma_item_pass_nodes(s, node, ItemStage::UsedCross, ctx, items6@, lines5@, none@);
    }
    let lines6 = line_pass(LineStage::Used, ctx, &items7, &lines5, 0, 0);
    let (lines7, _) = rank_lines(&lines6);
    let lines8 = line_pass(LineStage::Offset, ctx, &items7, &lines7, total, count);
    let items8 = rank_items(ctx, &items7, &lines8);
    proof {
        lemma_rank_items_nodes(s, node, ctx, items7@, lines8@);
    }
    let items9 = item_pass(ItemStage::Place, ctx, &items8, &lines8, &none);
    proof {
        lemma_item_pass_nodes(s, node, ItemStage::Place, ctx, items8@, lines8@, none@);
    }

    let final_queries = queries(Probe::Final, ctx, &items9);
    proof {
        lemma_queries_visitable(s, node, Probe::Final, ctx, items9@);
        lemma_items_contained(s, node, items9@);
    }
    let finals = run_queries_exec(tree, node, &final_queries);
    write_layouts(tree, Phase::Flow, ctx, &items9, &finals);

    let size_queries = queries(Probe::AbsoluteSize, ctx, &items9);
    proof {
        lemma_queries_visitable(s, node, Probe::AbsoluteSize, ctx, items9@);
    }
    let measured = run_queries_exec(tree, node, &size_queries);
    let items10 = item_pass(ItemStage::AbsoluteSize, ctx, &items9, &lines8, &measured);
    proof {
        lemma_item_pass_nodes(s, node, ItemStage::AbsoluteSize, ctx, items9@, lines8@, measured@);
        lemma_items_contained(s, node, items10@);
    }
    let place_queries = queries(Probe::AbsoluteFinal, ctx, &items10);
    proof {
        lemma_queries_visitable(s, node, Probe::AbsoluteFinal, ctx, items10@);
    }
    let placed = run_queries_exec(tree, node, &place_queries);
    write_layouts(tree, Phase::Absolute, ctx, &items10, &placed);
    write_layouts(tree, Phase::Hidden, ctx, &items10, &none);
    let hidden_queries = queries(Probe::Hidden, ctx, &items10);
    proof {
        lemma_queries_visitable(s, node, Probe::Hidden, ctx, items10@);
    }
    let _ = run_queries_exec(tree, node, &hidden_queries);
    ctx.container
}

/// The items of a container stand for its children.
pub proof fn lemma_make_items_nodes(s: Structure, node: Node, ctx: FlexCtx)
    ensures
        items_of(s, node, spec_make_items(s, node, ctx)),
{
    reveal(spec_make_items);
}

/// Collecting the lines leaves every item with its node.
pub proof fn lemma_assigned_items_nodes(s: Structure, node: Node, ctx: FlexCtx, items: Seq<FlexItem>)
    requires
        items_of(s, node, items),
    ensures
        items_of(s, node, spec_assigned_items(ctx, items)),
{
    reveal(spec_assigned_items);
    let out = spec_assigned_items(ctx, items);
    assert forall|i: int| 0 <= i < out.len() implies (#[trigger] out[i]).node
        == s.children[node][i] by {
        assert(items[i].node == s.children[node][i]);
    }
}

/// Ranking the items leaves every item with its node.
pub proof fn lemma_rank_items_nodes(
    s: Structure,
    node: Node,
    ctx: FlexCtx,
    items: Seq<FlexItem>,
    lines: Seq<Line>,
)
    requires
        items_of(s, node, items),
    ensures
        items_of(s, node, spec_rank_items(ctx, items, lines)),
{
    reveal(spec_rank_items);
    let out = spec_rank_items(ctx, items, lines);
    assert forall|i: int| 0 <= i < out.len() implies (#[trigger] out[i]).node
        == s.children[node][i] by {
        assert(items[i].node == s.children[node][i]);
    }
}

/// The nodes of the items of a container are nodes of the tree.
pub proof fn lemma_items_contained(s: Structure, node: Node, items: Seq<FlexItem>)
    requires
        s.wf(),
        s.nodes.contains(node),
        items_of(s, node, items),
    ensures
        forall|i: int| 0 <= i < items.len() ==> s.nodes.contains(#[trigger] items[i].node),
{
    assert forall|i: int| 0 <= i < items.len() implies s.nodes.contains(
        #[trigger] items[i].node,
    ) by {
        assert(items[i].node == s.children[node][i]);
        assert(s.nodes.contains(s.children[node][i]));
    }
}

/// Resolving flexible lengths leaves every item with its node.
pub proof fn lemma_resolve_rounds_nodes(
    s: Structure,
    node: Node,
    ctx: FlexCtx,
    items: Seq<FlexItem>,
    lines: Seq<Line>,
    rounds: nat,
)
    requires
        items_of(s, node, items),
    ensures
        items_of(s, node, resolve_rounds(ctx, items, lines, rounds).0),
    decreases rounds,
{
    if rounds == 0 || all_frozen(items) {
    } else {
        let lines1 = spec_line_pass(LineStage::Free, ctx, items, lines, 0, 0);
        let items1 = spec_item_pass(ItemStage::Distribute, ctx, items, lines1, Seq::empty());
        let lines2 = spec_line_pass(LineStage::Violation, ctx, items1, lines1, 0, 0);
        let items2 = spec_item_pass(ItemStage::Freeze, ctx, items1, lines2, Seq::empty());
        lemma_item_pass_nodes(s, node, ItemStage::Distribute, ctx, items, lines1, Seq::empty());
        lemma_item_pass_nodes(s, node, ItemStage::Freeze, ctx, items1, lines2, Seq::empty());
        lemma_resolve_rounds_nodes(s, node, ctx, items2, lines2, (rounds - 1) as nat);
    }
}

/// Sizes a flex container for a query, and with `PerformLayout` lays out its
/// children.
pub fn compute<T: LayoutTree>(tree: &mut T, q: Query) -> (size: Size<i64>)
    requires
        old(tree).structure().wf(),
        old(tree).state().wf(old(tree).structure()),
        old(tree).structure().nodes.contains(q.node),
    ensures
        final(tree).structure() == old(tree).structure(),
        final(tree).state().wf(final(tree).structure()),
        (final(tree).state(), size) == spec_compute(old(tree).structure(), old(tree).state(), q),
    decreases old(tree).structure().rank[q.node], 2nat, 0nat,
{
    let style = tree.style(q.node);
    let decided = size_or(q.known_dimensions, styled_size(style, q.parent_size));
    if is_bounded(style, q.parent_size) {
        let first = compute_preliminary(tree, q, decided, RunMode::ComputeSize);
        compute_preliminary(
            tree,
            q,
            size_or(q.known_dimensions, known(bounded_size(style, q.parent_size, first))),
            q.run_mode,
        )
    } else {
        compute_preliminary(tree, q, decided, q.run_mode)
    }
}

} // verus!

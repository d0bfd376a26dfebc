//! Sizes respect the bounds that the styles give.

use vstd::prelude::*;
use crate::compute::common::{cross_of, main_of};
use crate::compute::flex_lines::{spec_assigned_items, spec_line_pass, LineStage};
use crate::compute::flex_model::{compute_constants, FlexCtx, FlexItem, Line};
use crate::compute::flex_steps::{item_apply, spec_item_pass, ItemStage};
use crate::compute::flexbox::{
    all_frozen, bounded_size, is_bounded, preliminary, resolve_round, resolve_rounds, spec_compute,
    styled_size,
};
use crate::compute::leaf::finish;
use crate::compute::{rounded_extent, Query};
use crate::fixed::{
    is_whole, lemma_round_is_whole, lemma_round_monotone, max, round, sat_add, LIMIT,
};
use crate::geometry::{clamp, size_or, Size};
use crate::layout::{RunMode, SizingMode};
use crate::style::{resolve_size, Style};
use crate::tree::{State, Structure};

verus! {

/// A clamped value is not below the lower bound, and not above the upper
/// bound unless the lower bound is.
pub proof fn lemma_clamp_is_within(x: i64, lo: Option<i64>, hi: Option<i64>)
    ensures
        lo.is_some() ==> clamp(x, lo, hi) >= lo.unwrap(),
        hi.is_some() && (lo.is_none() || lo.unwrap() <= hi.unwrap()) ==> clamp(x, lo, hi)
            <= hi.unwrap(),
        lo.is_some() && hi.is_some() && lo.unwrap() > hi.unwrap() ==> clamp(x, lo, hi)
            == lo.unwrap(),
{
}

/// A leaf respects its bounds.
///
/// Where a leaf is sized with its own styles applied, it is at least as
/// large as its `min_size` on each axis on which that resolves, whatever
/// else was decided or measured: of two bounds that cross, the lower one
/// wins. It is at most as large as its `max_size` on each axis on which
/// that resolves, is not negative, and does not lie below the lower bound.
pub proof fn lemma_leaf_respects_bounds(style: Style, q: Query, measured: Size<i64>)
    requires
        q.sizing_mode == SizingMode::InherentSize,
    ensures
        ({
            let size = finish(style, q, measured);
            let lo = resolve_size(style.min_size, q.parent_size);
            let hi = resolve_size(style.max_size, q.parent_size);
            &&& lo.width.is_some() ==> size.width >= lo.width.unwrap()
            &&& lo.height.is_some() ==> size.height >= lo.height.unwrap()
            &&& hi.width.is_some() && hi.width.unwrap() >= 0 && (lo.width.is_none()
                || lo.width.unwrap() <= hi.width.unwrap()) ==> size.width <= hi.width.unwrap()
            &&& hi.height.is_some() && hi.height.unwrap() >= 0 && (lo.height.is_none()
                || lo.height.unwrap() <= hi.height.unwrap()) ==> size.height
                <= hi.height.unwrap()
        }),
{
}

/// Whether every frozen item has a target main size that is not negative
/// and not below its floor.
pub open spec fn frozen_above_floor(items: Seq<FlexItem>) -> bool {
    forall|i: int|
        0 <= i < items.len() && (#[trigger] items[i]).frozen ==> items[i].target_main
            >= items[i].floor_main && items[i].target_main >= 0
}

/// Whether every item has a target main size that is not negative and not
/// below its floor.
pub open spec fn all_above_floor(items: Seq<FlexItem>) -> bool {
    forall|i: int|
        0 <= i < items.len() ==> (#[trigger] items[i]).target_main >= items[i].floor_main
            && items[i].target_main >= 0
}

/// After one round of resolving flexible lengths every target main size is
/// not negative and not below the floor of its item, where that held of the
/// frozen items before.
pub proof fn lemma_round_lifts_above_floor(ctx: FlexCtx, items: Seq<FlexItem>, lines: Seq<Line>)
    requires
        frozen_above_floor(items),
    ensures
        all_above_floor(resolve_round(ctx, items, lines).0),
        resolve_round(ctx, items, lines).0.len() == items.len(),
        forall|i: int|
            0 <= i < items.len() ==> (#[trigger] resolve_round(ctx, items, lines).0[i]).floor_main
                == items[i].floor_main,
{
    reveal(spec_item_pass);
    let lines1 = spec_line_pass(LineStage::Free, ctx, items, lines, 0, 0);
    let items1 = spec_item_pass(ItemStage::Distribute, ctx, items, lines1, Seq::empty());
    let lines2 = spec_line_pass(LineStage::Violation, ctx, items1, lines1, 0, 0);
    let items2 = spec_item_pass(ItemStage::Freeze, ctx, items1, lines2, Seq::empty());
    assert forall|i: int| 0 <= i < items2.len() implies (#[trigger] items2[i]).target_main
        >= items2[i].floor_main && items2[i].target_main >= 0 && items2[i].floor_main
        == items[i].floor_main by {
        assert(items[i].frozen ==> items[i].target_main >= items[i].floor_main);
        assert(items1[i].target_main >= items1[i].floor_main && items1[i].target_main >= 0);
        assert(items2[i].target_main == items1[i].target_main);
    }
}

/// Once the flexible lengths are resolved, every target main size is not
/// negative and not below the floor of its item, where that held of the
/// frozen items before and a round is run unless every item is frozen.
pub proof fn lemma_rounds_lift_above_floor(
    ctx: FlexCtx,
    items: Seq<FlexItem>,
    lines: Seq<Line>,
    rounds: nat,
)
    requires
        frozen_above_floor(items),
        rounds >= 1 || all_frozen(items) || all_above_floor(items),
    ensures
        all_above_floor(resolve_rounds(ctx, items, lines, rounds).0),
        resolve_rounds(ctx, items, lines, rounds).0.len() == items.len(),
        forall|i: int|
            0 <= i < items.len() ==> (#[trigger] resolve_rounds(
                ctx,
                items,
                lines,
                rounds,
            ).0[i]).floor_main == items[i].floor_main,
    decreases rounds,
{
    if rounds == 0 || all_frozen(items) {
        assert forall|i: int| 0 <= i < items.len() implies (#[trigger] items[i]).target_main
            >= items[i].floor_main && items[i].target_main >= 0 by {
            if all_frozen(items) {
                assert(items[i].frozen);
            }
        }
    } else {
        let (items1, lines1) = resolve_round(ctx, items, lines);
        lemma_round_lifts_above_floor(ctx, items, lines);
        assert(frozen_above_floor(items1));
        lemma_rounds_lift_above_floor(ctx, items1, lines1, (rounds - 1) as nat);
        let out = resolve_rounds(ctx, items, lines, rounds).0;
        assert(out == resolve_rounds(ctx, items1, lines1, (rounds - 1) as nat).0);
        assert forall|i: int| 0 <= i < items.len() implies (#[trigger] out[i]).floor_main
            == items[i].floor_main by {
            assert(items1[i].floor_main == items[i].floor_main);
        }
    }
}

/// A flex item is never resolved below its lower bound.
///
/// Take the items of a container once their floors are set, collect them
/// into lines and resolve their flexible lengths. Then the target main size
/// of every item is not negative, and not below the item's main `min_size`
/// where the styles give one: shrinking stops there, and freezing an item
/// never leaves it below.
pub proof fn lemma_items_respect_lower_bound(
    ctx: FlexCtx,
    later: FlexCtx,
    items: Seq<FlexItem>,
    floors: Seq<Size<i64>>,
    lines: Seq<Line>,
)
    requires
        later.row == ctx.row,
    ensures
        ({
            let floored = spec_item_pass(ItemStage::Floor, ctx, items, Seq::empty(), floors);
            let assigned = spec_assigned_items(ctx, floored);
            let started = spec_item_pass(ItemStage::Init, later, assigned, lines, Seq::empty());
            let resolved = resolve_rounds(later, started, lines, started.len()).0;
            &&& resolved.len() == items.len()
            &&& forall|i: int|
                0 <= i < items.len() ==> {
                    &&& (#[trigger] resolved[i]).target_main >= 0
                    &&& main_of(items[i].min_size, ctx.row).is_some() ==> resolved[i].target_main
                        >= main_of(items[i].min_size, ctx.row).unwrap()
                }
        }),
{
    reveal(spec_item_pass);
    reveal(spec_assigned_items);
    let floored = spec_item_pass(ItemStage::Floor, ctx, items, Seq::empty(), floors);
    let assigned = spec_assigned_items(ctx, floored);
    let started = spec_item_pass(ItemStage::Init, later, assigned, lines, Seq::empty());
    let resolved = resolve_rounds(later, started, lines, started.len()).0;
    assert forall|i: int| 0 <= i < started.len() && (#[trigger] started[i]).frozen implies started[i].target_main
        >= started[i].floor_main && started[i].target_main >= 0 by {
        assert(assigned[i].hypothetical_main == floored[i].hypothetical_main);
        assert(floored[i].hypothetical_main >= floored[i].floor_main);
    }
    if started.len() == 0 {
        assert(all_frozen(started));
    }
    lemma_rounds_lift_above_floor(later, started, lines, started.len());
    assert forall|i: int| 0 <= i < items.len() implies {
        &&& (#[trigger] resolved[i]).target_main >= 0
        &&& main_of(items[i].min_size, ctx.row).is_some() ==> resolved[i].target_main >= main_of(
            items[i].min_size,
            ctx.row,
        ).unwrap()
    } by {
        assert(resolved[i].floor_main == started[i].floor_main);
        assert(started[i].floor_main == assigned[i].floor_main);
        assert(assigned[i].floor_main == floored[i].floor_main);
    }
}

/// Whether every frozen item has a target main size that is not above its
/// upper bound, where that is not negative and not below the floor.
pub open spec fn frozen_below_cap(ctx: FlexCtx, items: Seq<FlexItem>) -> bool {
    forall|i: int|
        0 <= i < items.len() && (#[trigger] items[i]).frozen ==> capped(ctx, items[i])
}

/// Whether the target main size of an item is not above its upper bound,
/// where that is not negative and not below the floor.
pub open spec fn capped(ctx: FlexCtx, item: FlexItem) -> bool {
    main_of(item.max_size, ctx.row).is_some() && main_of(item.max_size, ctx.row).unwrap() >= 0
        && item.floor_main <= main_of(item.max_size, ctx.row).unwrap() ==> item.target_main
        <= main_of(item.max_size, ctx.row).unwrap()
}

/// Whether every item has a target main size that is not above its upper
/// bound, where that is not negative and not below the floor.
pub open spec fn all_below_cap(ctx: FlexCtx, items: Seq<FlexItem>) -> bool {
    forall|i: int| 0 <= i < items.len() ==> capped(ctx, #[trigger] items[i])
}

/// After one round of resolving flexible lengths no target main size is
/// above its upper bound, where that held of the frozen items before.
pub proof fn lemma_round_keeps_below_cap(ctx: FlexCtx, items: Seq<FlexItem>, lines: Seq<Line>)
    requires
        frozen_below_cap(ctx, items),
    ensures
        all_below_cap(ctx, resolve_round(ctx, items, lines).0),
{
    reveal(spec_item_pass);
    let lines1 = spec_line_pass(LineStage::Free, ctx, items, lines, 0, 0);
    let items1 = spec_item_pass(ItemStage::Distribute, ctx, items, lines1, Seq::empty());
    let lines2 = spec_line_pass(LineStage::Violation, ctx, items1, lines1, 0, 0);
    let items2 = spec_item_pass(ItemStage::Freeze, ctx, items1, lines2, Seq::empty());
    assert forall|i: int| 0 <= i < items2.len() implies capped(ctx, #[trigger] items2[i]) by {
        assert(items[i].frozen ==> capped(ctx, items[i]));
        assert(capped(ctx, items1[i]));
        assert(items2[i].target_main == items1[i].target_main);
    }
}

/// Once the flexible lengths are resolved no target main size is above its
/// upper bound, where that held of the frozen items before and a round is
/// run unless every item is frozen.
pub proof fn lemma_rounds_keep_below_cap(
    ctx: FlexCtx,
    items: Seq<FlexItem>,
    lines: Seq<Line>,
    rounds: nat,
)
    requires
        frozen_below_cap(ctx, items),
        rounds >= 1 || all_frozen(items) || all_below_cap(ctx, items),
    ensures
        all_below_cap(ctx, resolve_rounds(ctx, items, lines, rounds).0),
    decreases rounds,
{
    if rounds == 0 || all_frozen(items) {
        assert forall|i: int| 0 <= i < items.len() implies capped(ctx, #[trigger] items[i]) by {
            if all_frozen(items) {
                assert(items[i].frozen);
            }
        }
    } else {
        let (items1, lines1) = resolve_round(ctx, items, lines);
        lemma_round_keeps_below_cap(ctx, items, lines);
        assert(frozen_below_cap(ctx, items1)) by {
            assert forall|i: int| 0 <= i < items1.len() && (#[trigger] items1[i]).frozen implies capped(
                ctx,
                items1[i],
            ) by {}
        }
        lemma_rounds_keep_below_cap(ctx, items1, lines1, (rounds - 1) as nat);
    }
}

/// A flex item is never resolved above its upper bound.
///
/// Take the items of a container once their floors are set, collect them
/// into lines and resolve their flexible lengths. Then the target main size
/// of every item is not above the item's main `max_size`, where the styles
/// give one that is not negative and not below the floor of the item:
/// growing stops there. Where the floor lies above the upper bound, the
/// floor wins.
pub proof fn lemma_items_respect_upper_bound(
    ctx: FlexCtx,
    later: FlexCtx,
    items: Seq<FlexItem>,
    floors: Seq<Size<i64>>,
    lines: Seq<Line>,
)
    requires
        later.row == ctx.row,
    ensures
        ({
            let floored = spec_item_pass(ItemStage::Floor, ctx, items, Seq::empty(), floors);
            let assigned = spec_assigned_items(ctx, floored);
            let started = spec_item_pass(ItemStage::Init, later, assigned, lines, Seq::empty());
            all_below_cap(later, resolve_rounds(later, started, lines, started.len()).0)
        }),
{
    reveal(spec_item_pass);
    reveal(spec_assigned_items);
    let floored = spec_item_pass(ItemStage::Floor, ctx, items, Seq::empty(), floors);
    let assigned = spec_assigned_items(ctx, floored);
    let started = spec_item_pass(ItemStage::Init, later, assigned, lines, Seq::empty());
    assert forall|i: int| 0 <= i < started.len() && (#[trigger] started[i]).frozen implies capped(
        later,
        started[i],
    ) by {
        assert(assigned[i].hypothetical_main == floored[i].hypothetical_main);
        assert(assigned[i].max_size == items[i].max_size);
        assert(assigned[i].floor_main == floored[i].floor_main);
    }
    if started.len() == 0 {
        assert(all_frozen(started));
    }
    lemma_rounds_keep_below_cap(later, started, lines, started.len());
}

/// The cross size of a flex item is not negative and not below its cross
/// `min_size` where the styles give one, whether it is stretched to its
/// line or not.
pub proof fn lemma_items_respect_cross_bound(
    ctx: FlexCtx,
    item: FlexItem,
    line: Line,
    result: Size<i64>,
)
    ensures
        ({
            let sized = item_apply(ItemStage::Cross, ctx, item, line, result);
            let used = item_apply(ItemStage::UsedCross, ctx, sized, line, result);
            &&& used.target_cross >= 0
            &&& cross_of(item.min_size, ctx.row).is_some() ==> used.target_cross >= cross_of(
                item.min_size,
                ctx.row,
            ).unwrap()
        }),
{
}

/// Along one axis: a box that is at least as large as a whole, non-negative
/// bound is so after rounding, wherever it lies.
pub proof fn lemma_rounding_keeps_lower_bound(abs: i64, size: i64, bound: i64)
    requires
        is_whole(bound),
        0 <= bound <= size,
        bound <= LIMIT,
        -LIMIT <= abs <= LIMIT,
        -LIMIT <= abs + size <= LIMIT,
    ensures
        rounded_extent(abs, size) >= bound,
{
    let near = round(abs);
    let far = round(sat_add(abs, size));
    let at_bound = round(sat_add(abs, bound));
    lemma_round_monotone(sat_add(abs, bound), sat_add(abs, size));
    lemma_round_is_whole(abs);
    lemma_round_is_whole(sat_add(abs, size));
    lemma_round_is_whole(sat_add(abs, bound));
    let k = bound / 65536;
    assert(bound == k * 65536);
    let v = abs as int;
    let w = abs + bound;
    if v >= 0 {
        assert((v + bound + 32768) / 65536 == (v + 32768) / 65536 + k);
    } else if w < 0 {
        assert((-v + 32768) / 65536 == (-w + 32768) / 65536 + k);
    } else {
        assert((w + 32768) / 65536 + (-v + 32768) / 65536 >= k);
    }
    assert(at_bound - near >= bound);
    assert(far - near >= bound);
}

/// One run of the flexbox algorithm answers with the dimensions that are
/// known, where they are not negative.
pub proof fn lemma_known_dimensions_stand(
    s: Structure,
    st: State,
    q: Query,
    known_dimensions: Size<Option<i64>>,
    run_mode: RunMode,
)
    ensures
        known_dimensions.width.is_some() ==> preliminary(s, st, q, known_dimensions, run_mode).1.width
            == max(known_dimensions.width.unwrap(), 0),
        known_dimensions.height.is_some() ==> preliminary(
            s,
            st,
            q,
            known_dimensions,
            run_mode,
        ).1.height == max(known_dimensions.height.unwrap(), 0),
{
    let ctx0 = compute_constants(
        s.styles[q.node],
        known_dimensions,
        q.parent_size,
        q.available_space,
    );
    assert(ctx0.outer == known_dimensions);
}

/// A flex container respects its bounds.
///
/// On each axis: where the asker knows the dimension, the container has it,
/// unless it is negative. Otherwise the container is at least as large as
/// its `min_size` where that resolves, and at most as large as its
/// `max_size` where that resolves, is not negative and does not lie below
/// the lower bound.
pub proof fn lemma_container_respects_bounds(s: Structure, st: State, q: Query)
    ensures
        ({
            let size = spec_compute(s, st, q).1;
            let lo = resolve_size(s.styles[q.node].min_size, q.parent_size);
            let hi = resolve_size(s.styles[q.node].max_size, q.parent_size);
            &&& q.known_dimensions.width.is_some() ==> size.width == max(
                q.known_dimensions.width.unwrap(),
                0,
            )
            &&& q.known_dimensions.height.is_some() ==> size.height == max(
                q.known_dimensions.height.unwrap(),
                0,
            )
            &&& q.known_dimensions.width.is_none() && lo.width.is_some() ==> size.width
                >= lo.width.unwrap()
            &&& q.known_dimensions.height.is_none() && lo.height.is_some() ==> size.height
                >= lo.height.unwrap()
            &&& q.known_dimensions.width.is_none() && hi.width.is_some() && hi.width.unwrap() >= 0
                && (lo.width.is_none() || lo.width.unwrap() <= hi.width.unwrap()) ==> size.width
                <= hi.width.unwrap()
            &&& q.known_dimensions.height.is_none() && hi.height.is_some() && hi.height.unwrap()
                >= 0 && (lo.height.is_none() || lo.height.unwrap() <= hi.height.unwrap())
                ==> size.height <= hi.height.unwrap()
        }),
{
    let style = s.styles[q.node];
    let decided = size_or(q.known_dimensions, styled_size(style, q.parent_size));
    if is_bounded(style, q.parent_size) {
        let (st1, first) = preliminary(s, st, q, decided, RunMode::ComputeSize);
        let again = size_or(
            q.known_dimensions,
            crate::geometry::known(bounded_size(style, q.parent_size, first)),
        );
        lemma_known_dimensions_stand(s, st1, q, again, q.run_mode);
    } else {
        lemma_known_dimensions_stand(s, st, q, decided, q.run_mode);
    }
}

/// A leaf whose content is measured answers with the dimensions that are
/// known, where they are not negative.
pub proof fn lemma_leaf_keeps_known_dimensions(style: Style, q: Query, measured: Size<i64>)
    requires
        q.sizing_mode == SizingMode::ContentSize,
        q.known_dimensions.width.is_some(),
        q.known_dimensions.height.is_some(),
    ensures
        finish(style, q, measured).width == max(q.known_dimensions.width.unwrap(), 0),
        finish(style, q, measured).height == max(q.known_dimensions.height.unwrap(), 0),
{
}

} // verus!

//! Resolving flexible lengths comes to an end: after one round for each
//! item at most, every item is frozen.

use vstd::prelude::*;
use crate::compute::flex_lines::{
    breaks_line, collect, line_apply, line_end, spec_assigned_items, spec_collected_lines,
    spec_line_pass, LineStage,
};
use crate::compute::flex_model::{
    line_of, make_line, sum_terms, term_value, FlexCtx, FlexItem, Line, Term,
};
use crate::compute::flex_steps::{freezes, item_apply, result_at, spec_item_pass, ItemStage};
use crate::compute::flexbox::{all_frozen, resolve_round, resolve_rounds};
use crate::geometry::Size;

verus! {

/// Whether the items and the lines belong together: every item lies on the
/// line it names, and every item on a line names that line.
pub open spec fn consistent(items: Seq<FlexItem>, lines: Seq<Line>) -> bool {
    &&& forall|i: int|
        0 <= i < items.len() ==> (#[trigger] items[i]).line < lines.len()
            && lines[items[i].line as int].start <= i < lines[items[i].line as int].end
    &&& forall|k: int| 0 <= k < lines.len() ==> (#[trigger] lines[k]).end <= items.len()
    &&& forall|k: int, j: int|
        0 <= k < lines.len() && (#[trigger] lines[k]).start <= j < lines[k].end ==> (#[trigger] items[j]).line
            == k
}

/// What holds of the lines while they are collected: the closed lines lie
/// one behind the other before the open line, and every item that has been
/// collected lies on the line that it is given.
pub open spec fn collecting(ctx: FlexCtx, items: Seq<FlexItem>, upto: int) -> bool {
    let c = collect(ctx, items, upto);
    &&& c.start <= upto
    &&& c.closed.len() <= upto
    &&& c.count > 0 ==> c.start < upto
    &&& c.count >= 0
    &&& forall|k: int| 0 <= k < c.closed.len() ==> (#[trigger] c.closed[k]).end <= c.start
    &&& forall|k: int, m: int|
        0 <= k < m < c.closed.len() ==> (#[trigger] c.closed[k]).end <= (#[trigger] c.closed[m]).start
    &&& forall|j: int|
        0 <= j < upto ==> {
            let r = #[trigger] collect(ctx, items, j + 1).closed.len();
            &&& r <= c.closed.len()
            &&& r < c.closed.len() ==> c.closed[r as int].start <= j < c.closed[r as int].end
            &&& r == c.closed.len() ==> c.start <= j
        }
}

/// The lines are collected in order.
pub proof fn lemma_collecting(ctx: FlexCtx, items: Seq<FlexItem>, upto: int)
    requires
        0 <= upto <= items.len(),
        items.len() <= usize::MAX,
    ensures
        collecting(ctx, items, upto),
    decreases upto,
{
    if upto > 0 {
        lemma_collecting(ctx, items, upto - 1);
        let b = collect(ctx, items, upto - 1);
        let c = collect(ctx, items, upto);
        let item = items[upto - 1];
        if breaks_line(ctx, item, b.length, b.count) {
            assert(c.closed == b.closed.push(make_line(b.start, (upto - 1) as usize)));
            assert forall|k: int| 0 <= k < c.closed.len() implies (#[trigger] c.closed[k]).end
                <= c.start by {
                if k < b.closed.len() {
                    assert(c.closed[k] == b.closed[k]);
                }
            }
            assert forall|k: int, m: int| 0 <= k < m < c.closed.len() implies (#[trigger] c.closed[k]).end
                <= (#[trigger] c.closed[m]).start by {
                assert(c.closed[k] == b.closed[k]);
                if m < b.closed.len() {
                    assert(c.closed[m] == b.closed[m]);
                }
            }
            assert forall|j: int| 0 <= j < upto implies {
                let r = #[trigger] collect(ctx, items, j + 1).closed.len();
                &&& r <= c.closed.len()
                &&& r < c.closed.len() ==> c.closed[r as int].start <= j < c.closed[r as int].end
                &&& r == c.closed.len() ==> c.start <= j
            } by {
                let r = collect(ctx, items, j + 1).closed.len();
                if j < upto - 1 {
                    if r < b.closed.len() {
                        assert(c.closed[r as int] == b.closed[r as int]);
                    }
                }
            }
        } else {
            assert(c.closed == b.closed);
            assert forall|j: int| 0 <= j < upto implies {
                let r = #[trigger] collect(ctx, items, j + 1).closed.len();
                &&& r <= c.closed.len()
                &&& r < c.closed.len() ==> c.closed[r as int].start <= j < c.closed[r as int].end
                &&& r == c.closed.len() ==> c.start <= j
            } by {}
        }
    }
}

/// The items and the lines that collecting gives belong together.
pub proof fn lemma_collected_is_consistent(ctx: FlexCtx, items: Seq<FlexItem>)
    requires
        items.len() <= usize::MAX,
    ensures
        consistent(spec_assigned_items(ctx, items), spec_collected_lines(ctx, items)),
{
    reveal(spec_assigned_items);
    reveal(spec_collected_lines);
    let n = items.len() as int;
    lemma_collecting(ctx, items, n);
    let c = collect(ctx, items, n);
    let assigned = spec_assigned_items(ctx, items);
    let lines = spec_collected_lines(ctx, items);
    assert(lines == c.closed.push(make_line(c.start, n as usize)));
    assert forall|i: int| 0 <= i < assigned.len() implies (#[trigger] assigned[i]).line
        < lines.len() && lines[assigned[i].line as int].start <= i
        < lines[assigned[i].line as int].end by {
        let r = collect(ctx, items, i + 1).closed.len();
        lemma_collecting(ctx, items, i + 1);
        assert(assigned[i].line == r);
        if r < c.closed.len() {
            assert(lines[r as int] == c.closed[r as int]);
        }
    }
    assert forall|k: int| 0 <= k < lines.len() implies (#[trigger] lines[k]).end
        <= assigned.len() by {
        if k < c.closed.len() {
            assert(lines[k] == c.closed[k]);
        }
    }
    assert forall|k: int, j: int|
        0 <= k < lines.len() && (#[trigger] lines[k]).start <= j < lines[k].end implies (#[trigger] assigned[j]).line
        == k by {
        let r = collect(ctx, items, j + 1).closed.len();
        lemma_collecting(ctx, items, j + 1);
        assert(assigned[j].line == r);
        if k < c.closed.len() {
            assert(lines[k] == c.closed[k]);
            if r < c.closed.len() && r != k {
                if r < k {
                    assert(c.closed[r as int].end <= c.closed[k].start);
                } else {
                    assert(c.closed[k].end <= c.closed[r as int].start);
                }
            }
        } else {
            if r < c.closed.len() {
                assert(c.closed[r as int].end <= c.start);
            }
        }
    }
}

/// A step on the lines, and a step on the items, leave the items and the
/// lines belonging together.
pub proof fn lemma_passes_keep_consistent(
    ctx: FlexCtx,
    items: Seq<FlexItem>,
    lines: Seq<Line>,
    item_stage: ItemStage,
    line_stage: LineStage,
    results: Seq<Size<i64>>,
    a: i64,
    b: i64,
    other_items: Seq<FlexItem>,
    other_lines: Seq<Line>,
)
    requires
        consistent(items, lines),
    ensures
        consistent(spec_item_pass(item_stage, ctx, items, other_lines, results), lines),
        consistent(items, spec_line_pass(line_stage, ctx, other_items, lines, a, b)),
{
    reveal(spec_item_pass);
    reveal(spec_line_pass);
    let items1 = spec_item_pass(item_stage, ctx, items, other_lines, results);
    let lines1 = spec_line_pass(line_stage, ctx, other_items, lines, a, b);
    assert forall|i: int| 0 <= i < items1.len() implies (#[trigger] items1[i]).line == items[i].line by {}
    assert forall|k: int| 0 <= k < lines1.len() implies (#[trigger] lines1[k]).start
        == lines[k].start && lines1[k].end == lines[k].end by {}
    assert forall|k: int, j: int|
        0 <= k < lines.len() && (#[trigger] lines[k]).start <= j < lines[k].end implies (#[trigger] items1[j]).line
        == k by {
        assert(items[j].line == k);
    }
    assert forall|i: int|
        0 <= i < items.len() implies (#[trigger] items[i]).line < lines1.len()
        && lines1[items[i].line as int].start <= i < lines1[items[i].line as int].end by {
        assert(lines[items[i].line as int].start <= i);
    }
    assert forall|k: int, j: int|
        0 <= k < lines1.len() && (#[trigger] lines1[k]).start <= j < lines1[k].end implies (#[trigger] items[j]).line
        == k by {
        assert(lines[k].start <= j < lines[k].end);
    }
}

/// The number of items among the first `upto` that are not frozen.
pub open spec fn unfrozen(items: Seq<FlexItem>, upto: int) -> nat
    decreases upto,
{
    if upto <= 0 {
        0
    } else {
        unfrozen(items, upto - 1) + if items[upto - 1].frozen {
            0nat
        } else {
            1nat
        }
    }
}

/// Where no item is unfrozen, every item is frozen; and the number of
/// unfrozen items is not more than the number of items.
pub proof fn lemma_unfrozen_count(items: Seq<FlexItem>, upto: int)
    requires
        0 <= upto <= items.len(),
    ensures
        unfrozen(items, upto) <= upto,
        unfrozen(items, upto) == 0 ==> forall|i: int| 0 <= i < upto ==> (#[trigger] items[i]).frozen,
    decreases upto,
{
    if upto > 0 {
        lemma_unfrozen_count(items, upto - 1);
    }
}

/// Where frozen items stay frozen, the number of unfrozen items does not
/// grow, and falls where an item is frozen that was not.
pub proof fn lemma_unfrozen_falls(a: Seq<FlexItem>, b: Seq<FlexItem>, upto: int, j: int)
    requires
        0 <= upto <= a.len(),
        a.len() == b.len(),
        forall|i: int| 0 <= i < a.len() && (#[trigger] a[i]).frozen ==> b[i].frozen,
    ensures
        unfrozen(b, upto) <= unfrozen(a, upto),
        0 <= j < upto && !a[j].frozen && b[j].frozen ==> unfrozen(b, upto) < unfrozen(a, upto),
    decreases upto,
{
    if upto > 0 {
        lemma_unfrozen_falls(a, b, upto - 1, j);
        assert(a[upto - 1].frozen ==> b[upto - 1].frozen);
    }
}

/// A sum of violations that is positive holds a positive violation, and one
/// that is negative a negative one.
pub proof fn lemma_violation_of_one_sign(
    ctx: FlexCtx,
    line: Line,
    items: Seq<FlexItem>,
    lo: int,
    hi: int,
)
    requires
        0 <= lo,
        hi <= items.len(),
    ensures
        sum_terms(Term::Violation, ctx, line, items, lo, hi) > 0 ==> exists|j: int|
            lo <= j < hi && !(#[trigger] items[j]).frozen && items[j].violation > 0,
        sum_terms(Term::Violation, ctx, line, items, lo, hi) < 0 ==> exists|j: int|
            lo <= j < hi && !(#[trigger] items[j]).frozen && items[j].violation < 0,
    decreases hi - lo,
{
    if hi > lo {
        lemma_violation_of_one_sign(ctx, line, items, lo, hi - 1);
        let before = sum_terms(Term::Violation, ctx, line, items, lo, hi - 1);
        let last = term_value(Term::Violation, ctx, line, items[hi - 1]);
        if sum_terms(Term::Violation, ctx, line, items, lo, hi) > 0 {
            if before > 0 {
                let j = choose|j: int|
                    lo <= j < hi - 1 && !(#[trigger] items[j]).frozen && items[j].violation > 0;
                assert(lo <= j < hi && !items[j].frozen && items[j].violation > 0);
            } else {
                assert(last > 0);
                assert(!items[hi - 1].frozen && items[hi - 1].violation > 0);
            }
        }
        if sum_terms(Term::Violation, ctx, line, items, lo, hi) < 0 {
            if before < 0 {
                let j = choose|j: int|
                    lo <= j < hi - 1 && !(#[trigger] items[j]).frozen && items[j].violation < 0;
                assert(lo <= j < hi && !items[j].frozen && items[j].violation < 0);
            } else {
                assert(last < 0);
                assert(!items[hi - 1].frozen && items[hi - 1].violation < 0);
            }
        }
    }
}

/// A round freezes an item, unless every item is frozen; it leaves frozen
/// items frozen, and the items and the lines belonging together.
pub proof fn lemma_round_freezes_an_item(ctx: FlexCtx, items: Seq<FlexItem>, lines: Seq<Line>)
    requires
        consistent(items, lines),
        !all_frozen(items),
    ensures
        unfrozen(resolve_round(ctx, items, lines).0, items.len() as int) < unfrozen(
            items,
            items.len() as int,
        ),
        resolve_round(ctx, items, lines).0.len() == items.len(),
        consistent(resolve_round(ctx, items, lines).0, resolve_round(ctx, items, lines).1),
{
    let none = Seq::<Size<i64>>::empty();
    let lines1 = spec_line_pass(LineStage::Free, ctx, items, lines, 0, 0);
    let items1 = spec_item_pass(ItemStage::Distribute, ctx, items, lines1, none);
    let lines2 = spec_line_pass(LineStage::Violation, ctx, items1, lines1, 0, 0);
    let items2 = spec_item_pass(ItemStage::Freeze, ctx, items1, lines2, none);
    lemma_passes_keep_consistent(
        ctx,
        items,
        lines,
        ItemStage::Distribute,
        LineStage::Free,
        none,
        0,
        0,
        items,
        lines1,
    );
    lemma_passes_keep_consistent(
        ctx,
        items,
        lines1,
        ItemStage::Distribute,
        LineStage::Free,
        none,
        0,
        0,
        items,
        lines1,
    );
    lemma_passes_keep_consistent(
        ctx,
        items1,
        lines1,
        ItemStage::Freeze,
        LineStage::Violation,
        none,
        0,
        0,
        items1,
        lines2,
    );
    lemma_passes_keep_consistent(
        ctx,
        items1,
        lines2,
        ItemStage::Freeze,
        LineStage::Violation,
        none,
        0,
        0,
        items1,
        lines2,
    );
    reveal(spec_item_pass);
    reveal(spec_line_pass);
    let i = choose|i: int| 0 <= i < items.len() && !(#[trigger] items[i]).frozen;
    let k = items[i].line as int;
    assert(items1[i].line == k && !items1[i].frozen);
    let line = lines2[k];
    assert(line == line_apply(LineStage::Violation, ctx, items1, lines1[k], 0, 0));
    let lo = lines1[k].start as int;
    let hi = line_end(items1.len() as usize, lines1[k]) as int;
    assert(lines1[k].end <= items1.len());
    assert(line.violation == sum_terms(Term::Violation, ctx, lines1[k], items1, lo, hi));
    lemma_violation_of_one_sign(ctx, lines1[k], items1, lo, hi);
    let j = if line.violation == 0 {
        i
    } else if line.violation > 0 {
        choose|j: int| lo <= j < hi && !(#[trigger] items1[j]).frozen && items1[j].violation > 0
    } else {
        choose|j: int| lo <= j < hi && !(#[trigger] items1[j]).frozen && items1[j].violation < 0
    };
    assert(lines1[k].start <= j < lines1[k].end);
    assert(items1[j].line == k);
    assert(line_of(lines2, items1[j]) == line);
    assert(freezes(items1[j], line));
    assert(items2[j] == item_apply(
        ItemStage::Freeze,
        ctx,
        items1[j],
        line_of(lines2, items1[j]),
        result_at(none, j),
    ));
    assert(!items[j].frozen && items2[j].frozen);
    assert forall|m: int| 0 <= m < items.len() && (#[trigger] items[m]).frozen implies items2[m].frozen by {
        assert(items1[m].frozen);
    }
    lemma_unfrozen_falls(items, items2, items.len() as int, j);
}

/// After so many rounds, so many items fewer are unfrozen, or none is.
pub proof fn lemma_rounds_freeze_items(
    ctx: FlexCtx,
    items: Seq<FlexItem>,
    lines: Seq<Line>,
    rounds: nat,
)
    requires
        consistent(items, lines),
    ensures
        unfrozen(resolve_rounds(ctx, items, lines, rounds).0, items.len() as int) + rounds
            <= unfrozen(items, items.len() as int) || all_frozen(
            resolve_rounds(ctx, items, lines, rounds).0,
        ),
        resolve_rounds(ctx, items, lines, rounds).0.len() == items.len(),
    decreases rounds,
{
    if rounds == 0 || all_frozen(items) {
    } else {
        let (items1, lines1) = resolve_round(ctx, items, lines);
        lemma_round_freezes_an_item(ctx, items, lines);
        lemma_rounds_freeze_items(ctx, items1, lines1, (rounds - 1) as nat);
    }
}

/// Resolving flexible lengths comes to an end.
///
/// Where the items and the lines belong together, as they do when the
/// lines have been collected, every item is frozen after one round for each
/// item at most: each round freezes an item of every line that holds an
/// unfrozen one, an item that hit a bound where there is one. So the sizes
/// that come out are final, and no item is left between its basis and its
/// bounds.
pub proof fn lemma_resolution_converges(ctx: FlexCtx, items: Seq<FlexItem>, lines: Seq<Line>)
    requires
        consistent(items, lines),
    ensures
        all_frozen(resolve_rounds(ctx, items, lines, items.len()).0),
{
    lemma_rounds_freeze_items(ctx, items, lines, items.len());
    lemma_unfrozen_count(items, items.len() as int);
    let out = resolve_rounds(ctx, items, lines, items.len()).0;
    lemma_unfrozen_count(out, out.len() as int);
}

/// The items and lines that the solver resolves belong together.
///
/// Whatever the items, once they are collected into lines, the lines
/// measured and their direction decided, and the items started, the
/// flexible lengths resolve with every item frozen.
pub proof fn lemma_collected_lines_resolve(
    ctx: FlexCtx,
    later: FlexCtx,
    items: Seq<FlexItem>,
)
    requires
        items.len() <= usize::MAX,
    ensures
        ({
            let assigned = spec_assigned_items(ctx, items);
            let collected = spec_collected_lines(ctx, items);
            let measured = spec_line_pass(LineStage::Measure, ctx, assigned, collected, 0, 0);
            let directed = spec_line_pass(LineStage::Direction, later, assigned, measured, 0, 0);
            let started = spec_item_pass(ItemStage::Init, later, assigned, directed, Seq::empty());
            all_frozen(resolve_rounds(later, started, directed, started.len()).0)
        }),
{
    let none = Seq::<Size<i64>>::empty();
    let assigned = spec_assigned_items(ctx, items);
    let collected = spec_collected_lines(ctx, items);
    let measured = spec_line_pass(LineStage::Measure, ctx, assigned, collected, 0, 0);
    let directed = spec_line_pass(LineStage::Direction, later, assigned, measured, 0, 0);
    let started = spec_item_pass(ItemStage::Init, later, assigned, directed, none);
    lemma_collected_is_consistent(ctx, items);
    lemma_passes_keep_consistent(
        ctx,
        assigned,
        collected,
        ItemStage::Init,
        LineStage::Measure,
        none,
        0,
        0,
        assigned,
        directed,
    );
    lemma_passes_keep_consistent(
        later,
        assigned,
        measured,
        ItemStage::Init,
        LineStage::Direction,
        none,
        0,
        0,
        assigned,
        directed,
    );
    lemma_passes_keep_consistent(
        later,
        assigned,
        directed,
        ItemStage::Init,
        LineStage::Direction,
        none,
        0,
        0,
        assigned,
        directed,
    );
    lemma_resolution_converges(later, started, directed);
}

} // verus!

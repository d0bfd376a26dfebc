use taffy::compute::{cache_hit, compute_cache_slot, compute_from_cache, compute_layout};
use taffy::fixed::ONE;
use taffy::geometry::Size;
use taffy::layout::{Cache, RunMode, SizingMode};
use taffy::node::Taffy;
use taffy::style::{AvailableSpace, Dimension, Style};
use taffy::tree::LayoutTree;

const MIN: AvailableSpace = AvailableSpace::MinContent;
const MAX: AvailableSpace = AvailableSpace::MaxContent;

fn known(width: Option<i64>, height: Option<i64>) -> Size<Option<i64>> {
    Size { width, height }
}

fn space(width: AvailableSpace, height: AvailableSpace) -> Size<AvailableSpace> {
    Size { width, height }
}

fn entry(run_mode: RunMode) -> Cache {
    Cache {
        known_dimensions: known(None, None),
        available_space: space(MAX, MAX),
        run_mode,
        cached_size: Size { width: 10, height: 20 },
    }
}

#[test]
fn slot_zero_holds_queries_with_both_dimensions_known() {
    for width in [MIN, MAX, AvailableSpace::Definite(5)] {
        for height in [MIN, MAX, AvailableSpace::Definite(5)] {
            assert_eq!(compute_cache_slot(known(Some(1), Some(2)), space(width, height)), 0);
        }
    }
}

#[test]
fn slots_one_and_two_hold_queries_with_one_dimension_known() {
    assert_eq!(compute_cache_slot(known(Some(1), None), space(MIN, MAX)), 1);
    assert_eq!(compute_cache_slot(known(Some(1), None), space(MIN, AvailableSpace::Definite(3))), 1);
    assert_eq!(compute_cache_slot(known(Some(1), None), space(MAX, MIN)), 2);
    assert_eq!(compute_cache_slot(known(None, Some(1)), space(MAX, MIN)), 1);
    assert_eq!(compute_cache_slot(known(None, Some(1)), space(AvailableSpace::Definite(3), MIN)), 1);
    assert_eq!(compute_cache_slot(known(None, Some(1)), space(MIN, MAX)), 2);
}

#[test]
fn slots_three_and_four_hold_queries_with_nothing_known() {
    assert_eq!(compute_cache_slot(known(None, None), space(MAX, MIN)), 3);
    assert_eq!(compute_cache_slot(known(None, None), space(AvailableSpace::Definite(0), MIN)), 3);
    assert_eq!(compute_cache_slot(known(None, None), space(MIN, MAX)), 4);
    assert_eq!(compute_cache_slot(known(None, None), space(MIN, MIN)), 4);
}

#[test]
fn a_sized_entry_does_not_answer_a_layout_query() {
    let sized = entry(RunMode::ComputeSize);
    let query = |mode| {
        cache_hit(sized, known(None, None), space(MAX, MAX), mode, SizingMode::InherentSize)
    };
    assert!(!query(RunMode::PerformLayout));
    assert!(query(RunMode::ComputeSize));
    let laid_out = entry(RunMode::PerformLayout);
    let query = |mode| {
        cache_hit(laid_out, known(None, None), space(MAX, MAX), mode, SizingMode::InherentSize)
    };
    assert!(query(RunMode::PerformLayout));
    assert!(query(RunMode::ComputeSize));
}

#[test]
fn a_known_dimension_may_be_the_cached_size() {
    let e = entry(RunMode::PerformLayout);
    let hit = |k| cache_hit(e, k, space(MAX, MAX), RunMode::PerformLayout, SizingMode::InherentSize);
    assert!(hit(known(Some(10), None)));
    assert!(hit(known(None, Some(20))));
    assert!(hit(known(Some(10), Some(20))));
    assert!(!hit(known(Some(11), None)));
    assert!(!hit(known(Some(10), Some(21))));
}

#[test]
fn unknown_dimensions_need_roughly_the_same_space() {
    let e = entry(RunMode::PerformLayout);
    let hit = |s, sizing| cache_hit(e, known(None, None), s, RunMode::PerformLayout, sizing);
    assert!(hit(space(MAX, MAX), SizingMode::InherentSize));
    assert!(!hit(space(MIN, MAX), SizingMode::InherentSize));
    assert!(!hit(space(MAX, MIN), SizingMode::InherentSize));
    assert!(!hit(space(AvailableSpace::Definite(15), MAX), SizingMode::InherentSize));
}

#[test]
fn content_fits_any_space_at_least_as_large_as_it_measured() {
    let e = entry(RunMode::PerformLayout);
    let hit = |s| {
        cache_hit(e, known(None, None), s, RunMode::PerformLayout, SizingMode::ContentSize)
    };
    assert!(hit(space(AvailableSpace::Definite(15), MAX)));
    assert!(hit(space(AvailableSpace::Definite(10), MAX)));
    assert!(!hit(space(AvailableSpace::Definite(9), MAX)));
    assert!(hit(space(AvailableSpace::Definite(10), AvailableSpace::Definite(20))));
    assert!(!hit(space(AvailableSpace::Definite(10), AvailableSpace::Definite(19))));
    assert!(!hit(space(MIN, MAX)));
}

#[test]
fn lookup_returns_the_first_entry_that_answers() {
    let mut taffy = Taffy::new();
    let node = taffy.new_leaf(Style::default()).unwrap();
    let first = Cache {
        known_dimensions: known(None, None),
        available_space: space(MAX, MAX),
        run_mode: RunMode::ComputeSize,
        cached_size: Size { width: 1, height: 1 },
    };
    let second = Cache { run_mode: RunMode::PerformLayout, cached_size: Size { width: 2, height: 2 }, ..first };
    let third = Cache { cached_size: Size { width: 3, height: 3 }, ..second };
    taffy.set_cache(node, 1, Some(first));
    taffy.set_cache(node, 2, Some(second));
    taffy.set_cache(node, 4, Some(third));
    let lookup = |taffy: &Taffy, mode| {
        compute_from_cache(taffy, node, known(None, None), space(MAX, MAX), mode, SizingMode::InherentSize)
    };
    // The entry in slot 1 was only sized: a layout query passes it by.
    assert_eq!(lookup(&taffy, RunMode::PerformLayout), Some(Size { width: 2, height: 2 }));
    assert_eq!(lookup(&taffy, RunMode::ComputeSize), Some(Size { width: 1, height: 1 }));
    taffy.set_cache(node, 2, None);
    assert_eq!(lookup(&taffy, RunMode::PerformLayout), Some(Size { width: 3, height: 3 }));
    taffy.set_cache(node, 4, None);
    assert_eq!(lookup(&taffy, RunMode::PerformLayout), None);
}

#[test]
fn a_pass_records_its_answers() {
    let mut taffy = Taffy::new();
    let leaf = taffy
        .new_leaf(Style {
            size: Size { width: Dimension::Points(10 * ONE), height: Dimension::Points(10 * ONE) },
            ..Default::default()
        })
        .unwrap();
    let root = taffy.new_with_children(Style::default(), &[leaf]).unwrap();
    for slot in 0..5 {
        assert_eq!(taffy.cache(root, slot), None);
        assert_eq!(taffy.cache(leaf, slot), None);
    }
    compute_layout(&mut taffy, root, space(MAX, MAX)).unwrap();
    let recorded = taffy.cache(root, 3).unwrap();
    assert_eq!(recorded.known_dimensions, known(None, None));
    assert_eq!(recorded.available_space, space(MAX, MAX));
    assert_eq!(recorded.run_mode, RunMode::PerformLayout);
    assert_eq!(recorded.cached_size, Size { width: 10 * ONE, height: 10 * ONE });
    // The leaf was asked for its least width with its height known; the
    // final query, which knew both dimensions, was answered by that entry.
    let recorded = taffy.cache(leaf, 2).unwrap();
    assert_eq!(recorded.known_dimensions, known(None, Some(10 * ONE)));
    assert_eq!(recorded.available_space, space(MIN, MAX));
    assert_eq!(recorded.run_mode, RunMode::PerformLayout);
    assert_eq!(recorded.cached_size, Size { width: 10 * ONE, height: 10 * ONE });
    assert_eq!(taffy.cache(leaf, 0), None);
}

#[test]
fn a_stale_entry_answers_for_the_root() {
    let mut taffy = Taffy::new();
    let leaf = taffy
        .new_leaf(Style {
            size: Size { width: Dimension::Points(10 * ONE), height: Dimension::Points(10 * ONE) },
            ..Default::default()
        })
        .unwrap();
    let root = taffy.new_with_children(Style::default(), &[leaf]).unwrap();
    taffy.set_cache(
        root,
        0,
        Some(Cache {
            known_dimensions: known(None, None),
            available_space: space(MAX, MAX),
            run_mode: RunMode::PerformLayout,
            cached_size: Size { width: 77 * ONE, height: 88 * ONE },
        }),
    );
    compute_layout(&mut taffy, root, space(MAX, MAX)).unwrap();
    assert_eq!(taffy.layout(root).unwrap().size, Size { width: 77 * ONE, height: 88 * ONE });
    // The answer came from the cache: the leaf was never asked.
    assert_eq!(taffy.cache(leaf, 0), None);
}

use taffy::compute::leaf::{apply_aspect_ratio, compute, finish};
use taffy::compute::{compute_layout, Query};
use taffy::fixed::ONE;
use taffy::geometry::Size;
use taffy::layout::{RunMode, SizingMode};
use taffy::node::{measure_content, Node, Taffy};
use taffy::style::{AvailableSpace, Dimension, Style};

fn px(n: i64) -> i64 {
    n * ONE
}

fn query(node: Node, sizing_mode: SizingMode) -> Query {
    Query {
        node,
        known_dimensions: Size { width: None, height: None },
        parent_size: Size { width: Some(px(200)), height: Some(px(100)) },
        available_space: Size {
            width: AvailableSpace::Definite(px(200)),
            height: AvailableSpace::Definite(px(100)),
        },
        run_mode: RunMode::PerformLayout,
        sizing_mode,
    }
}

fn points(width: i64, height: i64) -> Size<Dimension> {
    Size { width: Dimension::Points(px(width)), height: Dimension::Points(px(height)) }
}

#[test]
fn a_leaf_without_size_or_content_is_empty() {
    let mut taffy = Taffy::new();
    let leaf = taffy.new_leaf(Style::default()).unwrap();
    assert_eq!(compute(&taffy, query(leaf, SizingMode::InherentSize)), Size { width: 0, height: 0 });
}

#[test]
fn a_leaf_takes_the_size_of_its_styles() {
    let mut taffy = Taffy::new();
    let leaf = taffy.new_leaf(Style { size: points(30, 40), ..Default::default() }).unwrap();
    assert_eq!(
        compute(&taffy, query(leaf, SizingMode::InherentSize)),
        Size { width: px(30), height: px(40) }
    );
    // When only the content is measured, the styles do not count.
    assert_eq!(compute(&taffy, query(leaf, SizingMode::ContentSize)), Size { width: 0, height: 0 });
}

#[test]
fn known_dimensions_come_before_styles() {
    let mut taffy = Taffy::new();
    let leaf = taffy.new_leaf(Style { size: points(30, 40), ..Default::default() }).unwrap();
    let mut q = query(leaf, SizingMode::InherentSize);
    q.known_dimensions = Size { width: Some(px(7)), height: None };
    assert_eq!(compute(&taffy, q), Size { width: px(7), height: px(40) });
}

#[test]
fn percentages_resolve_against_the_parent() {
    let mut taffy = Taffy::new();
    let leaf = taffy
        .new_leaf(Style {
            size: Size { width: Dimension::Percent(ONE / 2), height: Dimension::Percent(ONE / 4) },
            ..Default::default()
        })
        .unwrap();
    assert_eq!(
        compute(&taffy, query(leaf, SizingMode::InherentSize)),
        Size { width: px(100), height: px(25) }
    );
}

#[test]
fn content_is_measured_where_nothing_else_decides() {
    let mut taffy = Taffy::new();
    let content = Size { width: px(12), height: px(34) };
    let leaf = taffy.new_leaf_with_content(Style::default(), content).unwrap();
    assert_eq!(compute(&taffy, query(leaf, SizingMode::InherentSize)), content);
    assert_eq!(compute(&taffy, query(leaf, SizingMode::ContentSize)), content);
    let mut q = query(leaf, SizingMode::ContentSize);
    q.known_dimensions = Size { width: Some(px(5)), height: None };
    assert_eq!(compute(&taffy, q), Size { width: px(5), height: px(34) });
    assert_eq!(
        measure_content(content, Size { width: None, height: Some(1) }),
        Size { width: px(12), height: 1 }
    );
}

#[test]
fn bounds_hold_the_size_and_the_lower_one_wins() {
    let mut taffy = Taffy::new();
    let leaf = taffy
        .new_leaf(Style {
            size: points(30, 40),
            min_size: Size { width: Dimension::Points(px(50)), height: Dimension::Auto },
            max_size: Size { width: Dimension::Points(px(20)), height: Dimension::Points(px(25)) },
            ..Default::default()
        })
        .unwrap();
    assert_eq!(
        compute(&taffy, query(leaf, SizingMode::InherentSize)),
        Size { width: px(50), height: px(25) }
    );
}

#[test]
fn a_leaf_is_never_negative() {
    let style = Style {
        size: Size { width: Dimension::Points(px(-30)), height: Dimension::Auto },
        ..Default::default()
    };
    let mut taffy = Taffy::new();
    let leaf = taffy.new_leaf(style).unwrap();
    let q = query(leaf, SizingMode::InherentSize);
    assert_eq!(finish(style, q, Size { width: px(3), height: px(-9) }), Size { width: 0, height: 0 });
    assert_eq!(compute(&taffy, q), Size { width: 0, height: 0 });
}

#[test]
fn aspect_ratio_completes_a_size_with_one_dimension() {
    let ratio = Some(2 * ONE);
    assert_eq!(
        apply_aspect_ratio(Size { width: Some(px(100)), height: None }, ratio),
        Size { width: Some(px(100)), height: Some(px(50)) }
    );
    assert_eq!(
        apply_aspect_ratio(Size { width: None, height: Some(px(100)) }, ratio),
        Size { width: Some(px(200)), height: Some(px(100)) }
    );
    let both = Size { width: Some(px(1)), height: Some(px(9)) };
    assert_eq!(apply_aspect_ratio(both, ratio), both);
    let neither = Size { width: None, height: None };
    assert_eq!(apply_aspect_ratio(neither, ratio), neither);
    let one = Size { width: Some(px(1)), height: None };
    assert_eq!(apply_aspect_ratio(one, None), one);
}

#[test]
fn a_leaf_with_an_aspect_ratio_is_laid_out() {
    let mut taffy = Taffy::new();
    let leaf = taffy
        .new_leaf(Style {
            size: Size { width: Dimension::Points(px(90)), height: Dimension::Auto },
            aspect_ratio: Some(3 * ONE),
            ..Default::default()
        })
        .unwrap();
    let space = Size { width: AvailableSpace::MaxContent, height: AvailableSpace::MaxContent };
    compute_layout(&mut taffy, leaf, space).unwrap();
    assert_eq!(taffy.layout(leaf).unwrap().size, Size { width: px(90), height: px(30) });
}

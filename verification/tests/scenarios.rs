use taffy::compute::{compute_layout, perform_hidden_layout};
use taffy::fixed::ONE;
use taffy::geometry::{Point, Rect, Size};
use taffy::node::{Node, Taffy};
use taffy::style::{
    AvailableSpace, Dimension, Display, FlexWrap, JustifyContent, LengthPercentageAuto, Style,
};
use taffy::tree::LayoutTree;

fn px(n: i64) -> i64 {
    n * ONE
}

fn points(width: i64, height: i64) -> Size<Dimension> {
    Size { width: Dimension::Points(px(width)), height: Dimension::Points(px(height)) }
}

fn max_content() -> Size<AvailableSpace> {
    Size { width: AvailableSpace::MaxContent, height: AvailableSpace::MaxContent }
}

#[test]
fn hidden_layout_should_hide_recursively() {
    let mut taffy = Taffy::new();

    let style: Style = Style { display: Display::Flex, size: points(50, 50), ..Default::default() };

    let grandchild_00 = taffy.new_leaf(style.clone()).unwrap();
    let grandchild_01 = taffy.new_leaf(style.clone()).unwrap();
    let child_00 = taffy.new_with_children(style.clone(), &[grandchild_00, grandchild_01]).unwrap();

    let grandchild_02 = taffy.new_leaf(style.clone()).unwrap();
    let child_01 = taffy.new_with_children(style.clone(), &[grandchild_02]).unwrap();

    let root = taffy
        .new_with_children(
            Style { display: Display::Hidden, size: points(50, 50), ..Default::default() },
            &[child_00, child_01],
        )
        .unwrap();

    perform_hidden_layout(&mut taffy, root);

    // Whatever size and display mode the nodes had before, all layouts
    // resolve to zero because the root is hidden.
    for index in 0..taffy.node_count() {
        let node = Node(index);
        if node != root {
            if let Ok(layout) = taffy.layout(node) {
                assert_eq!(layout.size, Size { width: 0, height: 0 });
                assert_eq!(layout.location, Point { x: 0, y: 0 });
            }
        }
    }
}

#[test]
fn hidden_root_zeroes_every_descendant_after_a_pass() {
    let mut taffy = Taffy::new();
    let style: Style = Style { size: points(50, 50), ..Default::default() };
    let grandchild_00 = taffy.new_leaf(style).unwrap();
    let grandchild_01 = taffy.new_leaf(style).unwrap();
    let child_00 = taffy.new_with_children(style, &[grandchild_00, grandchild_01]).unwrap();
    let grandchild_02 = taffy.new_leaf(style).unwrap();
    let child_01 = taffy.new_with_children(style, &[grandchild_02]).unwrap();
    let root = taffy
        .new_with_children(
            Style { display: Display::Hidden, size: points(50, 50), ..Default::default() },
            &[child_00, child_01],
        )
        .unwrap();

    compute_layout(&mut taffy, root, max_content()).unwrap();

    for node in [grandchild_00, grandchild_01, child_00, grandchild_02, child_01] {
        let layout = taffy.layout(node).unwrap();
        assert_eq!(layout.size, Size { width: 0, height: 0 });
        assert_eq!(layout.location, Point { x: 0, y: 0 });
    }
}

#[test]
fn hidden_child_of_a_flex_container_is_zeroed() {
    let mut taffy = Taffy::new();
    let inner = taffy.new_leaf(Style { size: points(10, 10), ..Default::default() }).unwrap();
    let hidden = taffy
        .new_with_children(
            Style { display: Display::Hidden, size: points(30, 30), ..Default::default() },
            &[inner],
        )
        .unwrap();
    let shown = taffy.new_leaf(Style { size: points(20, 20), ..Default::default() }).unwrap();
    let root = taffy
        .new_with_children(Style { size: points(100, 100), ..Default::default() }, &[hidden, shown])
        .unwrap();

    compute_layout(&mut taffy, root, max_content()).unwrap();

    for node in [hidden, inner] {
        let layout = taffy.layout(node).unwrap();
        assert_eq!(layout.size, Size { width: 0, height: 0 });
        assert_eq!(layout.location, Point { x: 0, y: 0 });
    }
    let layout = taffy.layout(shown).unwrap();
    assert_eq!(layout.size, Size { width: px(20), height: px(20) });
    assert_eq!(layout.location, Point { x: 0, y: 0 });
    assert_eq!(layout.order, 1);
}

#[test]
fn justify_content_row_max_width_and_margin() {
    let mut taffy = Taffy::new();
    let child = taffy
        .new_leaf(Style {
            size: points(20, 20),
            margin: Rect {
                left: LengthPercentageAuto::Points(px(100)),
                right: LengthPercentageAuto::Points(0),
                top: LengthPercentageAuto::Points(0),
                bottom: LengthPercentageAuto::Points(0),
            },
            ..Default::default()
        })
        .unwrap();
    let root = taffy
        .new_with_children(
            Style {
                justify_content: JustifyContent::Center,
                size: Size { width: Dimension::Points(px(100)), height: Dimension::Auto },
                max_size: Size { width: Dimension::Points(px(80)), height: Dimension::Auto },
                ..Default::default()
            },
            &[child],
        )
        .unwrap();

    compute_layout(&mut taffy, root, max_content()).unwrap();

    let container = taffy.layout(root).unwrap();
    assert_eq!(container.size, Size { width: px(80), height: px(20) });
    assert_eq!(container.location, Point { x: 0, y: 0 });
    let layout = taffy.layout(child).unwrap();
    assert_eq!(layout.location.x, px(100));
    assert_eq!(layout.size, Size { width: px(20), height: px(20) });
}

#[test]
fn min_width_overrides_max_width() {
    let mut taffy = Taffy::new();
    let child = taffy
        .new_with_children(
            Style {
                min_size: Size { width: Dimension::Points(px(100)), height: Dimension::Auto },
                max_size: Size { width: Dimension::Points(px(50)), height: Dimension::Auto },
                ..Default::default()
            },
            &[],
        )
        .unwrap();
    let root = taffy.new_with_children(Style { ..Default::default() }, &[child]).unwrap();

    compute_layout(&mut taffy, root, max_content()).unwrap();

    assert_eq!(taffy.layout(child).unwrap().size.width, px(100));
    assert!(taffy.layout(root).unwrap().size.width >= px(100));
}

#[test]
fn flex_grow_shares_free_space_in_proportion() {
    let mut taffy = Taffy::new();
    let mut children = Vec::new();
    for grow in [1, 2, 1] {
        children.push(
            taffy
                .new_leaf(Style {
                    flex_grow: grow * ONE,
                    flex_basis: Dimension::Points(0),
                    ..Default::default()
                })
                .unwrap(),
        );
    }
    let root = taffy
        .new_with_children(Style { size: points(300, 50), ..Default::default() }, &children)
        .unwrap();

    compute_layout(&mut taffy, root, max_content()).unwrap();

    let widths: Vec<i64> = children.iter().map(|c| taffy.layout(*c).unwrap().size.width).collect();
    let xs: Vec<i64> = children.iter().map(|c| taffy.layout(*c).unwrap().location.x).collect();
    assert_eq!(widths, vec![px(75), px(150), px(75)]);
    assert_eq!(xs, vec![0, px(75), px(225)]);
    for child in &children {
        assert_eq!(taffy.layout(*child).unwrap().size.height, px(50));
    }
}

#[test]
fn justify_space_between_with_wrap() {
    let mut taffy = Taffy::new();
    let mut children = Vec::new();
    for _ in 0..5 {
        children.push(
            taffy
                .new_leaf(Style {
                    size: Size { width: Dimension::Points(px(60)), height: Dimension::Points(px(10)) },
                    ..Default::default()
                })
                .unwrap(),
        );
    }
    let root = taffy
        .new_with_children(
            Style {
                flex_wrap: FlexWrap::Wrap,
                justify_content: JustifyContent::SpaceBetween,
                size: Size { width: Dimension::Points(px(200)), height: Dimension::Auto },
                ..Default::default()
            },
            &children,
        )
        .unwrap();

    compute_layout(&mut taffy, root, max_content()).unwrap();

    let at = |i: usize| taffy.layout(children[i]).unwrap().location;
    assert_eq!(at(0), Point { x: 0, y: 0 });
    assert_eq!(at(1), Point { x: px(70), y: 0 });
    assert_eq!(at(2), Point { x: px(140), y: 0 });
    assert_eq!(at(3), Point { x: 0, y: px(10) });
    assert_eq!(at(4), Point { x: px(140), y: px(10) });
    assert_eq!(taffy.layout(root).unwrap().size, Size { width: px(200), height: px(20) });
}

#[test]
fn second_pass_gives_the_same_layouts_and_keeps_the_cache() {
    let mut taffy = Taffy::new();
    let a = taffy.new_leaf(Style { size: points(10, 10), ..Default::default() }).unwrap();
    let b = taffy.new_leaf(Style { flex_grow: ONE, ..Default::default() }).unwrap();
    let inner = taffy.new_with_children(Style { flex_grow: ONE, ..Default::default() }, &[a, b]).unwrap();
    let c = taffy.new_leaf(Style { size: points(33, 7), ..Default::default() }).unwrap();
    let root = taffy
        .new_with_children(Style { size: points(120, 40), ..Default::default() }, &[inner, c])
        .unwrap();

    compute_layout(&mut taffy, root, max_content()).unwrap();
    let first: Vec<_> = (0..taffy.node_count()).map(|i| taffy.layout(Node(i)).unwrap()).collect();
    let caches: Vec<_> = (0..taffy.node_count())
        .map(|i| (0..5).map(|slot| taffy.cache(Node(i), slot)).collect::<Vec<_>>())
        .collect();

    compute_layout(&mut taffy, root, max_content()).unwrap();
    let second: Vec<_> = (0..taffy.node_count()).map(|i| taffy.layout(Node(i)).unwrap()).collect();
    let caches_after: Vec<_> = (0..taffy.node_count())
        .map(|i| (0..5).map(|slot| taffy.cache(Node(i), slot)).collect::<Vec<_>>())
        .collect();

    assert_eq!(first, second);
    assert_eq!(caches, caches_after);
    // Each container that was laid out holds the result of its final query,
    // with both dimensions known, in slot 0.
    assert!(taffy.cache(inner, 0).is_some());
    // The root was asked with nothing known under a max-content constraint.
    assert!(taffy.cache(root, 3).is_some());
    assert_eq!(taffy.layout(inner).unwrap().size, Size { width: px(87), height: px(40) });
    assert_eq!(taffy.layout(b).unwrap().size, Size { width: px(77), height: px(40) });
}

#[test]
fn unknown_root_is_rejected() {
    let mut taffy = Taffy::new();
    let leaf = taffy.new_leaf(Style::default()).unwrap();
    assert_eq!(leaf, Node(0));
    let result = compute_layout(&mut taffy, Node(7), max_content());
    assert_eq!(result, Err(taffy::error::TaffyError::InvalidInputNode(Node(7))));
}

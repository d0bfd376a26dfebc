//! The layout pass: the entry point, the per-node dispatch with its cache,
//! the zeroing of hidden subtrees and the final rounding.

pub mod common;
pub mod flex_lines;
pub mod flex_model;
pub mod flex_steps;
pub mod flexbox;
pub mod leaf;

use vstd::prelude::*;
use crate::fixed::{round, sat_add, sat_sub};
use crate::error::TaffyError;
use crate::geometry::{unknown_size, zero_point, zero_size, Point, Size};
use crate::laws::invariants::sizes_not_negative;
use crate::laws::sizes::lemma_no_size_is_negative;
use crate::layout::{with_order, Cache, Layout, RunMode, SizingMode, CACHE_SIZE};
use crate::node::Node;
use crate::style::{into_options, is_roughly_equal, AvailableSpace, Display};
use crate::tree::{LayoutTree, State, Structure};

verus! {

/// One sizing query put to a node.
#[derive(Clone, Copy, Debug, PartialEq, Eq)]
pub struct Query {
    /// The node that is asked.
    pub node: Node,
    /// The dimensions that the asker has already decided.
    pub known_dimensions: Size<Option<i64>>,
    /// The size of the asker's content box, where it is known.
    pub parent_size: Size<Option<i64>>,
    /// The space the node is sized under.
    pub available_space: Size<AvailableSpace>,
    /// Whether the children's layouts must be written.
    pub run_mode: RunMode,
    /// Whether the node's own size styles apply.
    pub sizing_mode: SizingMode,
}

/// The cache slot in which the result of a query is stored.
///
/// - Slot 0: both dimensions are known.
/// - Slot 1: one dimension is known, and the other is sized under a
///   max-content or definite constraint.
/// - Slot 2: one dimension is known, and the other is sized under a
///   min-content constraint.
/// - Slot 3: no dimension is known, and the width is sized under a
///   max-content or definite constraint.
/// - Slot 4: no dimension is known, and the width is sized under a
///   min-content constraint.
pub open spec fn spec_compute_cache_slot(
    known_dimensions: Size<Option<i64>>,
    available_space: Size<AvailableSpace>,
) -> usize {
    let has_width = known_dimensions.width.is_some();
    let has_height = known_dimensions.height.is_some();
    if has_width && has_height {
        0
    } else if has_width {
        if available_space.height == AvailableSpace::MinContent {
            2
        } else {
            1
        }
    } else if has_height {
        if available_space.width == AvailableSpace::MinContent {
            2
        } else {
            1
        }
    } else {
        if available_space.width == AvailableSpace::MinContent {
            4
        } else {
            3
        }
    }
}

/// The cache slot in which the result of a query is stored.
#[verifier::when_used_as_spec(spec_compute_cache_slot)]
pub fn compute_cache_slot(
    known_dimensions: Size<Option<i64>>,
    available_space: Size<AvailableSpace>,
) -> (slot: usize)
    ensures
        slot == spec_compute_cache_slot(known_dimensions, available_space),
        slot < CACHE_SIZE,
{
    let has_width = known_dimensions.width.is_some();
    let has_height = known_dimensions.height.is_some();
    if has_width && has_height {
        return 0;
    }
    if has_width || has_height {
        let other = if has_width {
            available_space.height
        } else {
            available_space.width
        };
        return match other {
            AvailableSpace::MinContent => 2,
            _ => 1,
        };
    }
    match available_space.width {
        AvailableSpace::MinContent => 4,
        _ => 3,
    }
}

/// Whether a known dimension of a query agrees with a cache entry: it is
/// what was known when the entry was made, or it is the size that was
/// computed then.
pub open spec fn known_matches(known: Option<i64>, entry_known: Option<i64>, cached: i64) -> bool {
    known == entry_known || known == Some(cached)
}

/// Whether the space of a query agrees with a cache entry on an axis whose
/// dimension is not known: the spaces are roughly equal, or the query only
/// measures content and offers at least the size that was computed.
pub open spec fn space_matches(
    space: AvailableSpace,
    entry_space: AvailableSpace,
    cached: i64,
    sizing_mode: SizingMode,
) -> bool {
    is_roughly_equal(entry_space, space) || (sizing_mode == SizingMode::ContentSize && match space {
        AvailableSpace::Definite(v) => v >= cached,
        _ => false,
    })
}

/// Whether a cache entry answers a query.
pub open spec fn spec_cache_hit(
    entry: Cache,
    known_dimensions: Size<Option<i64>>,
    available_space: Size<AvailableSpace>,
    run_mode: RunMode,
    sizing_mode: SizingMode,
) -> bool {
    &&& !(entry.run_mode == RunMode::ComputeSize && run_mode == RunMode::PerformLayout)
    &&& known_matches(known_dimensions.width, entry.known_dimensions.width, entry.cached_size.width)
    &&& known_matches(
        known_dimensions.height,
        entry.known_dimensions.height,
        entry.cached_size.height,
    )
    &&& (known_dimensions.width.is_some() || space_matches(
        available_space.width,
        entry.available_space.width,
        entry.cached_size.width,
        sizing_mode,
    ))
    &&& (known_dimensions.height.is_some() || space_matches(
        available_space.height,
        entry.available_space.height,
        entry.cached_size.height,
        sizing_mode,
    ))
}

fn option_eq(a: Option<i64>, b: Option<i64>) -> (r: bool)
    ensures
        r == (a == b),
{
    match (a, b) {
        (Some(x), Some(y)) => x == y,
        (None, None) => true,
        _ => false,
    }
}

fn known_matches_exec(known: Option<i64>, entry_known: Option<i64>, cached: i64) -> (r: bool)
    ensures
        r == known_matches(known, entry_known, cached),
{
    option_eq(known, entry_known) || option_eq(known, Some(cached))
}

fn space_matches_exec(
    space: AvailableSpace,
    entry_space: AvailableSpace,
    cached: i64,
    sizing_mode: SizingMode,
) -> (r: bool)
    ensures
        r == space_matches(space, entry_space, cached, sizing_mode),
{
    if is_roughly_equal(entry_space, space) {
        return true;
    }
    match (sizing_mode, space) {
        (SizingMode::ContentSize, AvailableSpace::Definite(v)) => v >= cached,
        _ => false,
    }
}

/// Whether a cache entry answers a query.
#[verifier::when_used_as_spec(spec_cache_hit)]
pub fn cache_hit(
    entry: Cache,
    known_dimensions: Size<Option<i64>>,
    available_space: Size<AvailableSpace>,
    run_mode: RunMode,
    sizing_mode: SizingMode,
) -> (r: bool)
    ensures
        r == spec_cache_hit(entry, known_dimensions, available_space, run_mode, sizing_mode),
{
    let stale = match (entry.run_mode, run_mode) {
        (RunMode::ComputeSize, RunMode::PerformLayout) => true,
        _ => false,
    };
    !stale && known_matches_exec(
        known_dimensions.width,
        entry.known_dimensions.width,
        entry.cached_size.width,
    ) && known_matches_exec(
        known_dimensions.height,
        entry.known_dimensions.height,
        entry.cached_size.height,
    ) && (known_dimensions.width.is_some() || space_matches_exec(
        available_space.width,
        entry.available_space.width,
        entry.cached_size.width,
        sizing_mode,
    )) && (known_dimensions.height.is_some() || space_matches_exec(
        available_space.height,
        entry.available_space.height,
        entry.cached_size.height,
        sizing_mode,
    ))
}

/// The size cached for a query among the first `upto` slots: that of the
/// first entry, in slot order, that answers the query.
pub open spec fn cache_lookup_upto(
    cache: Seq<Option<Cache>>,
    upto: int,
    known_dimensions: Size<Option<i64>>,
    available_space: Size<AvailableSpace>,
    run_mode: RunMode,
    sizing_mode: SizingMode,
) -> Option<Size<i64>>
    decreases upto,
{
    if upto <= 0 {
        None
    } else {
        let earlier = cache_lookup_upto(
            cache,
            upto - 1,
            known_dimensions,
            available_space,
            run_mode,
            sizing_mode,
        );
        if earlier.is_some() {
            earlier
        } else {
            match cache[upto - 1] {
                Some(entry) => if cache_hit(
                    entry,
                    known_dimensions,
                    available_space,
                    run_mode,
                    sizing_mode,
                ) {
                    Some(entry.cached_size)
                } else {
                    None
                },
                None => None,
            }
        }
    }
}

/// The size cached for a query, if any entry answers it.
pub open spec fn cache_lookup(
    cache: Seq<Option<Cache>>,
    known_dimensions: Size<Option<i64>>,
    available_space: Size<AvailableSpace>,
    run_mode: RunMode,
    sizing_mode: SizingMode,
) -> Option<Size<i64>> {
    cache_lookup_upto(
        cache,
        cache.len() as int,
        known_dimensions,
        available_space,
        run_mode,
        sizing_mode,
    )
}

/// Looks a query up in the cache of `node`.
pub fn compute_from_cache<T: LayoutTree>(
    tree: &T,
    node: Node,
    known_dimensions: Size<Option<i64>>,
    available_space: Size<AvailableSpace>,
    run_mode: RunMode,
    sizing_mode: SizingMode,
) -> (r: Option<Size<i64>>)
    requires
        tree.structure().wf(),
        tree.state().wf(tree.structure()),
        tree.structure().nodes.contains(node),
    ensures
        r == cache_lookup(
            tree.state().caches[node],
            known_dimensions,
            available_space,
            run_mode,
            sizing_mode,
        ),
{
    let ghost cache = tree.state().caches[node];
    let mut idx: usize = 0;
    while idx < CACHE_SIZE
        invariant
            idx <= CACHE_SIZE,
            tree.structure().wf(),
            tree.state().wf(tree.structure()),
            tree.structure().nodes.contains(node),
            cache == tree.state().caches[node],
            cache.len() == CACHE_SIZE,
            cache_lookup_upto(
                cache,
                idx as int,
                known_dimensions,
                available_space,
                run_mode,
                sizing_mode,
            ).is_none(),
        decreases CACHE_SIZE - idx,
    {
        let entry = tree.cache(node, idx);
        if let Some(entry) = entry {
            if cache_hit(entry, known_dimensions, available_space, run_mode, sizing_mode) {
                proof {
                    lemma_lookup_found(
                        cache,
                        idx as int + 1,
                        CACHE_SIZE as int,
                        known_dimensions,
                        available_space,
                        run_mode,
                        sizing_mode,
                    );
                }
                return Some(entry.cached_size);
            }
        }
        idx = idx + 1;
    }
    None
}

/// Once a lookup has found an entry among the first slots, later slots do
/// not change the answer.
pub proof fn lemma_lookup_found(
    cache: Seq<Option<Cache>>,
    found: int,
    upto: int,
    known_dimensions: Size<Option<i64>>,
    available_space: Size<AvailableSpace>,
    run_mode: RunMode,
    sizing_mode: SizingMode,
)
    requires
        found <= upto,
        cache_lookup_upto(
            cache,
            found,
            known_dimensions,
            available_space,
            run_mode,
            sizing_mode,
        ).is_some(),
    ensures
        cache_lookup_upto(cache, upto, known_dimensions, available_space, run_mode, sizing_mode)
            == cache_lookup_upto(
            cache,
            found,
            known_dimensions,
            available_space,
            run_mode,
            sizing_mode,
        ),
    decreases upto - found,
{
    if found < upto {
        lemma_lookup_found(
            cache,
            found,
            upto - 1,
            known_dimensions,
            available_space,
            run_mode,
            sizing_mode,
        );
    }
}

/// The order of the child at `index`; indices beyond `u32::MAX` share the
/// last order.
pub open spec fn spec_order_of(index: usize) -> u32 {
    if index > u32::MAX {
        u32::MAX
    } else {
        index as u32
    }
}

/// The order of the child at `index`; indices beyond `u32::MAX` share the
/// last order.
#[verifier::when_used_as_spec(spec_order_of)]
pub fn order_of(index: usize) -> (r: u32)
    ensures
        r == spec_order_of(index),
{
    if index > u32::MAX as usize {
        u32::MAX
    } else {
        index as u32
    }
}

/// Whether `child` can be visited from `node`: it is a node of the tree of
/// lower rank.
pub open spec fn visitable(s: Structure, node: Node, child: Node) -> bool {
    s.nodes.contains(child) && s.rank[child] < s.rank[node]
}

/// The state after `node` and all its descendants have been given the zero
/// layout, `node` with the given order and each descendant with its index
/// among its siblings.
pub open spec fn hide_node(s: Structure, st: State, node: Node, order: u32) -> State
    decreases s.rank[node], 1nat, 0nat,
{
    hide_children(
        s,
        st.with_layout(node, with_order(order)),
        node,
        s.children[node].len(),
    )
}

/// The state after the first `upto` children of `node`, and all their
/// descendants, have been given the zero layout.
pub open spec fn hide_children(s: Structure, st: State, node: Node, upto: nat) -> State
    decreases s.rank[node], 0nat, upto,
{
    if upto == 0 {
        st
    } else {
        let before = hide_children(s, st, node, (upto - 1) as nat);
        let child = s.children[node][upto - 1];
        if visitable(s, node, child) {
            hide_node(s, before, child, order_of((upto - 1) as usize))
        } else {
            before
        }
    }
}

fn perform_hidden_layout_inner<T: LayoutTree>(tree: &mut T, node: Node, order: u32)
    requires
        old(tree).structure().wf(),
        old(tree).state().wf(old(tree).structure()),
        old(tree).structure().nodes.contains(node),
    ensures
        final(tree).structure() == old(tree).structure(),
        final(tree).state() == hide_node(old(tree).structure(), old(tree).state(), node, order),
        final(tree).state().wf(final(tree).structure()),
    decreases old(tree).structure().rank[node], 1nat,
{
    tree.set_layout(node, with_order(order));
    hide_all_children(tree, node);
}

fn hide_all_children<T: LayoutTree>(tree: &mut T, node: Node)
    requires
        old(tree).structure().wf(),
        old(tree).state().wf(old(tree).structure()),
        old(tree).structure().nodes.contains(node),
    ensures
        final(tree).structure() == old(tree).structure(),
        final(tree).state() == hide_children(
            old(tree).structure(),
            old(tree).state(),
            node,
            old(tree).structure().children[node].len(),
        ),
        final(tree).state().wf(final(tree).structure()),
    decreases old(tree).structure().rank[node], 0nat,
{
    let ghost s = tree.structure();
    let ghost st = tree.state();
    let count = tree.child_count(node);
    let mut index: usize = 0;
    while index < count
        invariant
            index <= count,
            count == s.children[node].len(),
            s.wf(),
            s.nodes.contains(node),
            tree.structure() == s,
            old(tree).structure() == s,
            tree.state().wf(s),
            tree.state() == hide_children(s, st, node, index as nat),
        decreases count - index,
    {
        let child = tree.child(node, index);
        perform_hidden_layout_inner(tree, child, order_of(index));
        index = index + 1;
    }
}

/// Gives every descendant of `node` the zero layout: zero size at the
/// origin, ordered by its index among its siblings. The layout of `node`
/// itself is left alone. Returns the zero size.
pub fn perform_hidden_layout<T: LayoutTree>(tree: &mut T, node: Node) -> (size: Size<i64>)
    requires
        old(tree).structure().wf(),
        old(tree).state().wf(old(tree).structure()),
        old(tree).structure().nodes.contains(node),
    ensures
        size == zero_size(),
        final(tree).structure() == old(tree).structure(),
        final(tree).state() == hide_children(
            old(tree).structure(),
            old(tree).state(),
            node,
            old(tree).structure().children[node].len(),
        ),
        final(tree).state().wf(final(tree).structure()),
{
    hide_all_children(tree, node);
    zero_size()
}

/// The extent of a box along one axis after rounding: the distance between
/// its rounded far edge and its rounded near edge. `abs` is the unrounded
/// position of the near edge in the coordinates of the root.
pub open spec fn spec_rounded_extent(abs: i64, size: i64) -> i64 {
    sat_sub(round(sat_add(abs, size)), round(abs))
}

/// The extent of a box along one axis after rounding.
#[verifier::when_used_as_spec(spec_rounded_extent)]
pub fn rounded_extent(abs: i64, size: i64) -> (r: i64)
    ensures
        r == spec_rounded_extent(abs, size),
{
    sat_sub(round(sat_add(abs, size)), round(abs))
}

/// The layout snapped to whole pixels. `abs` is the position of the node's
/// corner in the coordinates of the root, before rounding. The location is
/// rounded as it is; the size is the distance between the rounded far edge
/// and the rounded near edge, both taken in the coordinates of the root.
pub open spec fn spec_rounded(layout: Layout, abs: Point<i64>) -> Layout {
    Layout {
        order: layout.order,
        size: Size {
            width: rounded_extent(abs.x, layout.size.width),
            height: rounded_extent(abs.y, layout.size.height),
        },
        location: Point { x: round(layout.location.x), y: round(layout.location.y) },
    }
}

/// The layout snapped to whole pixels, given the position `abs` of the
/// node's corner in the coordinates of the root.
#[verifier::when_used_as_spec(spec_rounded)]
pub fn rounded(layout: Layout, abs: Point<i64>) -> (r: Layout)
    ensures
        r == spec_rounded(layout, abs),
{
    Layout {
        order: layout.order,
        size: Size {
            width: rounded_extent(abs.x, layout.size.width),
            height: rounded_extent(abs.y, layout.size.height),
        },
        location: Point { x: round(layout.location.x), y: round(layout.location.y) },
    }
}

/// The position of a node's corner in the coordinates of the root, given
/// that of its parent and the node's own layout.
pub open spec fn absolute(parent_abs: Point<i64>, layout: Layout) -> Point<i64> {
    Point {
        x: sat_add(parent_abs.x, layout.location.x),
        y: sat_add(parent_abs.y, layout.location.y),
    }
}

/// The state after the layouts of `node` and all its descendants have been
/// rounded, top down. `parent_abs` is the unrounded position of the parent's
/// corner in the coordinates of the root.
pub open spec fn round_node(s: Structure, st: State, node: Node, parent_abs: Point<i64>) -> State
    decreases s.rank[node], 1nat, 0nat,
{
    let layout = st.layouts[node];
    let abs = absolute(parent_abs, layout);
    round_children(s, st.with_layout(node, rounded(layout, abs)), node, abs, s.children[node].len())
}

/// The state after the layouts of the first `upto` children of `node`, and
/// of all their descendants, have been rounded.
pub open spec fn round_children(
    s: Structure,
    st: State,
    node: Node,
    abs: Point<i64>,
    upto: nat,
) -> State
    decreases s.rank[node], 0nat, upto,
{
    if upto == 0 {
        st
    } else {
        let before = round_children(s, st, node, abs, (upto - 1) as nat);
        let child = s.children[node][upto - 1];
        if visitable(s, node, child) {
            round_node(s, before, child, abs)
        } else {
            before
        }
    }
}

/// Rounds the layouts of `node` and all its descendants to whole pixels.
/// `abs_x` and `abs_y` are the unrounded position of the parent's corner in
/// the coordinates of the root.
pub fn round_layout<T: LayoutTree>(tree: &mut T, node: Node, abs_x: i64, abs_y: i64)
    requires
        old(tree).structure().wf(),
        old(tree).state().wf(old(tree).structure()),
        old(tree).structure().nodes.contains(node),
    ensures
        final(tree).structure() == old(tree).structure(),
        final(tree).state() == round_node(
            old(tree).structure(),
            old(tree).state(),
            node,
            Point { x: abs_x, y: abs_y },
        ),
        final(tree).state().wf(final(tree).structure()),
    decreases old(tree).structure().rank[node],
{
    let ghost s = tree.structure();
    let ghost st = tree.state();
    let layout = tree.layout(node);
    let abs = Point { x: sat_add(abs_x, layout.location.x), y: sat_add(abs_y, layout.location.y) };
    tree.set_layout(node, rounded(layout, abs));
    let ghost st1 = tree.state();
    let count = tree.child_count(node);
    let mut index: usize = 0;
    while index < count
        invariant
            index <= count,
            count == s.children[node].len(),
            s.wf(),
            s.nodes.contains(node),
            tree.structure() == s,
            old(tree).structure() == s,
            tree.state().wf(s),
            tree.state() == round_children(s, st1, node, abs, index as nat),
        decreases count - index,
    {
        let child = tree.child(node, index);
        round_layout(tree, child, abs.x, abs.y);
        index = index + 1;
    }
}

/// The run mode under which the result of a query is cached: a node without
/// children has nothing to lay out, so its results always count as laid
/// out.
pub open spec fn cache_run_mode(s: Structure, q: Query) -> RunMode {
    if s.is_childless(q.node) {
        RunMode::PerformLayout
    } else {
        q.run_mode
    }
}

/// The cache entry that records the answer to a query.
pub open spec fn cache_entry(s: Structure, q: Query, size: Size<i64>) -> Cache {
    Cache {
        known_dimensions: q.known_dimensions,
        available_space: q.available_space,
        run_mode: cache_run_mode(s, q),
        cached_size: size,
    }
}

/// The state and the size after the algorithm that the node calls for has
/// answered a query: the leaf algorithm for a node without children, else
/// the flexbox algorithm, or for a hidden node the zeroing of its
/// descendants and the zero size.
#[verifier::opaque]
pub open spec fn dispatch(s: Structure, st: State, q: Query) -> (State, Size<i64>)
    decreases s.rank[q.node], 3nat, 0nat,
{
    if s.is_childless(q.node) {
        (st, leaf::spec_compute(s, q))
    } else {
        match s.styles[q.node].display {
            Display::Flex => flexbox::spec_compute(s, st, q),
            Display::Hidden => (
                hide_children(s, st, q.node, s.children[q.node].len()),
                zero_size(),
            ),
        }
    }
}

/// The state and the size after a node has answered a query.
///
/// Where an entry of the node's cache answers the query, the size is the
/// cached one and the state is unchanged. Otherwise the size is computed,
/// which may write to the descendants of the node, and recorded in the slot
/// of the node's cache that the query maps to.
pub open spec fn node_layout(s: Structure, st: State, q: Query) -> (State, Size<i64>)
    decreases s.rank[q.node], 4nat, 0nat,
{
    match cache_lookup(
        st.caches[q.node],
        q.known_dimensions,
        q.available_space,
        cache_run_mode(s, q),
        q.sizing_mode,
    ) {
        Some(size) => (st, size),
        None => {
            let (computed, size) = dispatch(s, st, q);
            (
                computed.with_cache(
                    q.node,
                    compute_cache_slot(q.known_dimensions, q.available_space) as int,
                    Some(cache_entry(s, q, size)),
                ),
                size,
            )
        },
    }
}

/// Computes the size of `node` for a query, and with `PerformLayout` writes
/// the layouts of its descendants. The result is taken from the node's
/// cache where an entry answers the query, and recorded there otherwise.
pub fn compute_node_layout<T: LayoutTree>(
    tree: &mut T,
    node: Node,
    known_dimensions: Size<Option<i64>>,
    parent_size: Size<Option<i64>>,
    available_space: Size<AvailableSpace>,
    run_mode: RunMode,
    sizing_mode: SizingMode,
) -> (size: Size<i64>)
    requires
        old(tree).structure().wf(),
        old(tree).state().wf(old(tree).structure()),
        old(tree).structure().nodes.contains(node),
    ensures
        final(tree).structure() == old(tree).structure(),
        final(tree).state().wf(final(tree).structure()),
        (final(tree).state(), size) == node_layout(
            old(tree).structure(),
            old(tree).state(),
            Query { node, known_dimensions, parent_size, available_space, run_mode, sizing_mode },
        ),
    decreases old(tree).structure().rank[node], 4nat, 0nat,
{
    proof {
        reveal(dispatch);
    }
    let q = Query { node, known_dimensions, parent_size, available_space, run_mode, sizing_mode };
    let childless = tree.is_childless(node);
    let cache_mode = if childless {
        RunMode::PerformLayout
    } else {
        run_mode
    };
    if let Some(cached) = compute_from_cache(
        tree,
        node,
        known_dimensions,
        available_space,
        cache_mode,
        sizing_mode,
    ) {
        return cached;
    }
    let computed = if childless {
        leaf::compute(tree, q)
    } else {
        match tree.style(node).display {
            Display::Flex => flexbox::compute(tree, q),
            Display::Hidden => perform_hidden_layout(tree, node),
        }
    };
    let slot = compute_cache_slot(known_dimensions, available_space);
    tree.set_cache(
        node,
        slot,
        Some(
            Cache {
                known_dimensions,
                available_space,
                run_mode: cache_mode,
                cached_size: computed,
            },
        ),
    );
    computed
}

/// The query that a layout pass puts to its root: nothing is known, the
/// parent is as large as the space that is definite, the layouts must be
/// written and the root's own size styles apply.
pub open spec fn root_query(root: Node, available_space: Size<AvailableSpace>) -> Query {
    Query {
        node: root,
        known_dimensions: unknown_size(),
        parent_size: into_options(available_space),
        available_space,
        run_mode: RunMode::PerformLayout,
        sizing_mode: SizingMode::InherentSize,
    }
}

/// The state after the first part of a layout pass from `root`, before the
/// layouts are rounded: the root has answered the root query and has been
/// given the size it returned, at the origin and with order zero.
pub open spec fn solved_pass(
    s: Structure,
    st: State,
    root: Node,
    available_space: Size<AvailableSpace>,
) -> State {
    let (solved, size) = node_layout(s, st, root_query(root, available_space));
    solved.with_layout(root, Layout { order: 0, size, location: zero_point() })
}

/// The state after a layout pass from `root`: the root answers the root
/// query, is given the size it returned at the origin with order zero, and
/// the layouts from the root down are rounded.
pub open spec fn layout_pass(
    s: Structure,
    st: State,
    root: Node,
    available_space: Size<AvailableSpace>,
) -> State {
    round_node(s, solved_pass(s, st, root, available_space), root, zero_point())
}

/// Lays out the tree from `root` down under the given available space, and
/// rounds the layouts to whole pixels. Fails, and leaves the tree as it is,
/// where the tree does not hold `root`. A tree that held no negative size
/// holds none afterwards.
pub fn compute_layout<T: LayoutTree>(
    tree: &mut T,
    root: Node,
    available_space: Size<AvailableSpace>,
) -> (r: Result<(), TaffyError>)
    requires
        old(tree).structure().wf(),
        old(tree).state().wf(old(tree).structure()),
    ensures
        final(tree).structure() == old(tree).structure(),
        final(tree).state().wf(final(tree).structure()),
        old(tree).structure().nodes.contains(root) ==> r == Ok::<(), TaffyError>(())
            && final(tree).state() == layout_pass(
            old(tree).structure(),
            old(tree).state(),
            root,
            available_space,
        ),
        !old(tree).structure().nodes.contains(root) ==> r == Err::<(), TaffyError>(
            TaffyError::InvalidInputNode(root),
        ) && final(tree).state() == old(tree).state(),
        sizes_not_negative(old(tree).structure(), old(tree).state()) ==> sizes_not_negative(
            final(tree).structure(),
            final(tree).state(),
        ),
{
    if !tree.contains(root) {
        return Err(TaffyError::InvalidInputNode(root));
    }
    proof {
        if sizes_not_negative(tree.structure(), tree.state()) {
            lemma_no_size_is_negative(tree.structure(), tree.state(), root, available_space);
        }
    }
    let size = compute_node_layout(
        tree,
        root,
        unknown_size(),
        into_options(available_space),
        available_space,
        RunMode::PerformLayout,
        SizingMode::InherentSize,
    );
    tree.set_layout(root, Layout { order: 0, size, location: zero_point() });
    round_layout(tree, root, 0, 0);
    Ok(())
}

} // verus!

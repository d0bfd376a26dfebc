//! The results of layout: the record written for each node, and the entries
//! of the per-node cache.

use vstd::prelude::*;
use crate::geometry::{zero_point, zero_size, Point, Size};
use crate::style::AvailableSpace;

verus! {

/// Whether a query must write the layouts of the node's children.
#[derive(Clone, Copy, Debug, PartialEq, Eq, Structural)]
pub enum RunMode {
    /// The children's layouts must be written.
    PerformLayout,
    /// Only the node's size is asked for.
    ComputeSize,
}

/// Which of a node's sizes a query is after.
#[derive(Clone, Copy, Debug, PartialEq, Eq, Structural)]
pub enum SizingMode {
    /// Only the intrinsic size of the content matters.
    ContentSize,
    /// The node's own size styles apply.
    InherentSize,
}

/// The layout of one node.
#[derive(Clone, Copy, Debug, PartialEq, Eq)]
pub struct Layout {
    /// The position of the node among its siblings.
    pub order: u32,
    /// The width and height of the node.
    pub size: Size<i64>,
    /// The top-left corner of the node, relative to its parent.
    pub location: Point<i64>,
}

/// One memoized sizing query.
#[derive(Clone, Copy, Debug, PartialEq, Eq)]
pub struct Cache {
    /// The dimensions that were known when the query was made.
    pub known_dimensions: Size<Option<i64>>,
    /// The space the node was sized under.
    pub available_space: Size<AvailableSpace>,
    /// Whether the query wrote the children's layouts.
    pub run_mode: RunMode,
    /// The size that was computed.
    pub cached_size: Size<i64>,
}

/// The number of cache entries each node holds.
pub const CACHE_SIZE: usize = 5;

/// The layout of zero size at the origin, with the given order.
pub open spec fn spec_with_order(order: u32) -> Layout {
    Layout { order, size: zero_size(), location: zero_point() }
}

/// The layout of zero size at the origin, with the given order.
#[verifier::when_used_as_spec(spec_with_order)]
pub fn with_order(order: u32) -> (l: Layout)
    ensures
        l == spec_with_order(order),
{
    Layout { order, size: zero_size(), location: zero_point() }
}

} // verus!

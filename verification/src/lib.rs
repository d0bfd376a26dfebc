//! A flexbox layout solver over fixed-point coordinates.
//!
//! Given a tree of styled boxes, a root and the space that is available,
//! [`compute::compute_layout`] gives every box below the root a size and a
//! position relative to its parent, and rounds them to whole pixels.
//!
//! - [`fixed`] holds the numbers: lengths and ratios in fixed point, with
//!   arithmetic that saturates and is therefore total.
//! - [`geometry`], [`style`] and [`layout`] hold the data: sizes, points and
//!   rectangles; the style of a node; its layout and the entries of its
//!   cache.
//! - [`tree`] says what the solver needs of a tree, and holds the model of a
//!   tree that the contracts speak of; [`node`] holds a tree that owns its
//!   nodes.
//! - [`compute`] holds the solver: the entry point, the dispatch with its
//!   cache, the leaf and the flexbox algorithm, the zeroing of hidden
//!   subtrees and the rounding.
//! - [`laws`] holds what is proved of every layout pass.

pub mod compute;
pub mod error;
pub mod fixed;
pub mod geometry;
pub mod laws;
pub mod layout;
pub mod node;
pub mod style;
pub mod tree;

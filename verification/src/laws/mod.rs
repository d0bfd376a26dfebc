//! What is proved of every layout pass, from the definitions of the solver.
//!
//! - [`sizes`]: no size is negative.
//! - [`bounds`] and [`bounded_tree`]: sizes are not below the lower bounds
//!   that the styles give, for each algorithm and throughout a tree.
//! - [`hidden`] and [`hidden_tree`]: what lies below a hidden node has the
//!   zero layout.
//! - [`convergence`]: resolving flexible lengths comes to an end.
//! - [`lines`]: the items of a flex line and the space between them fill
//!   the main size of their container.
//! - [`rounding`] and [`rounded_tree`]: rounding keeps boxes that touch
//!   touching.
//! - [`repeat`]: a second pass over an unchanged tree changes nothing.
//! - [`invariants`] and [`shape`] hold what the others build on: what every
//!   step of a pass keeps, and what it means for a structure to be a tree.

pub mod bounded_tree;
pub mod bounds;
pub mod convergence;
pub mod hidden;
pub mod hidden_tree;
pub mod invariants;
pub mod lines;
pub mod repeat;
pub mod rounded_tree;
pub mod rounding;
pub mod shape;
pub mod sizes;

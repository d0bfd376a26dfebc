//! The errors a layout pass can report.

use vstd::prelude::*;
use crate::node::Node;

verus! {

/// The ways in which a layout pass can fail.
#[derive(Clone, Copy, Debug, PartialEq, Eq, Structural)]
pub enum TaffyError {
    /// The tree does not hold the node that was passed in.
    InvalidInputNode(Node),
}

/// The result of a fallible operation of this crate.
pub type TaffyResult<T> = Result<T, TaffyError>;

} // verus!

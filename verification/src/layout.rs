//! Errors of the layout engine.

use vstd::prelude::*;
use crate::tree::NodeId;

verus! {

#[derive(Debug)]
pub enum LayoutError {
    TaffyError(String),
    NodeNotFound(NodeId),
    NoRoot,
}

} // verus!

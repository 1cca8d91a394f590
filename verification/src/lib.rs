//! AppScale core engine: the shadow tree, navigation, focus, the work queue,
//! event propagation, plugins, native modules, storage, cloud builds and OTA
//! updates, developer tooling, and the command-line tool's rules and
//! templates, each with its contract proved by Verus.

pub mod accessibility;
pub mod ai;
pub mod bridge;
pub mod cli;
pub mod cloud;
pub mod components;
pub mod devtools;
pub mod events;
pub mod ir;
pub mod layout;
pub mod modules;
pub mod navigation;
pub mod plugins;
pub mod scheduler;
pub mod platform;
pub mod storage;
pub mod text;
pub mod tree;
pub mod views;

use vstd::prelude::*;
use crate::layout::LayoutError;
use crate::tree::NodeId;

verus! {

/// Errors of the engine.
#[derive(Debug)]
pub enum EngineError {
    Layout(LayoutError),
    Platform(String),
    IrDecode(String),
    NodeNotFound(NodeId),
}

impl From<LayoutError> for EngineError {
    fn from(e: LayoutError) -> (r: Self) {
        EngineError::Layout(e)
    }
}

impl vstd::std_specs::convert::FromSpecImpl<LayoutError> for EngineError {
    open spec fn obeys_from_spec() -> bool {
        true
    }

    open spec fn from_spec(e: LayoutError) -> Self {
        EngineError::Layout(e)
    }
}

} // verus!

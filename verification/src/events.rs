//! The vocabulary of input events and the rules of their propagation: the
//! order in which the nodes on a path see an event, and what a handler's
//! answer does to the outcome.

use vstd::prelude::*;
use crate::tree::NodeId;

verus! {

#[derive(Debug, Clone, Copy, PartialEq, Eq)]
pub enum PointerType {
    Mouse,
    Touch,
    Pen,
}

#[derive(Debug, Clone, Copy, Default)]
pub struct Modifiers {
    pub shift: bool,
    pub ctrl: bool,
    pub alt: bool,
    pub meta: bool,
}

#[derive(Debug, Clone)]
pub struct KeyboardEvent {
    pub code: String,
    pub key: String,
    pub modifiers: Modifiers,
    pub is_repeat: bool,
    pub target: Option<NodeId>,
}

#[derive(Debug, Clone, Copy)]
pub enum SwipeDirection {
    Up,
    Down,
    Left,
    Right,
}

/// A handler's answer to an event.
#[derive(Debug, Clone, Copy, PartialEq)]
pub enum HandlerResponse {
    Continue,
    StopPropagation,
    PreventDefault,
}

#[derive(Debug, Clone, Copy, PartialEq, Eq, Hash)]
pub enum EventPhase {
    Capture,
    Bubble,
}

#[derive(Debug, Clone, Copy, PartialEq, Eq, Hash)]
pub enum EventKind {
    PointerDown,
    PointerMove,
    PointerUp,
    PointerCancel,
    Scroll,
    KeyDown,
    KeyUp,
    Tap,
    DoubleTap,
    LongPress,
    Pan,
    Swipe,
}

/// The outcome of dispatching an event.
pub struct EventResult {
    pub propagation_stopped: bool,
    pub default_prevented: bool,
}

impl EventResult {
    /// Nothing has stopped or prevented anything yet.
    pub fn new() -> (r: Self)
        ensures
            !r.propagation_stopped,
            !r.default_prevented,
    {
        EventResult { propagation_stopped: false, default_prevented: false }
    }

    /// Take a handler's answer into account: `StopPropagation` stops the
    /// event, `PreventDefault` prevents its default action, `Continue`
    /// changes nothing. Nothing is ever undone.
    pub fn apply(&mut self, response: HandlerResponse)
        ensures
            final(self).propagation_stopped == (old(self).propagation_stopped || response
                == HandlerResponse::StopPropagation),
            final(self).default_prevented == (old(self).default_prevented || response
                == HandlerResponse::PreventDefault),
    {
        match response {
            HandlerResponse::StopPropagation => self.propagation_stopped = true,
            HandlerResponse::PreventDefault => self.default_prevented = true,
            HandlerResponse::Continue => {},
        }
    }
}

/// The visits of an event whose propagation path is `path` (root first,
/// target last): every node in the capture phase from the root down, then
/// every node in the bubble phase from the target up.
pub open spec fn propagation_spec(path: Seq<NodeId>) -> Seq<(NodeId, EventPhase)> {
    path.map_values(|n: NodeId| (n, EventPhase::Capture)) + path.reverse().map_values(
        |n: NodeId| (n, EventPhase::Bubble),
    )
}

/// The order in which the nodes on `path` (root first, target last) see an
/// event: capture from the root to the target, then bubble back up.
pub fn propagation_order(path: &Vec<NodeId>) -> (r: Vec<(NodeId, EventPhase)>)
    requires
        2 * path@.len() <= usize::MAX,
    ensures
        r@ == propagation_spec(path@),
{
    let n = path.len();
    let mut r: Vec<(NodeId, EventPhase)> = Vec::new();
    let mut i: usize = 0;
    while i < n
        invariant
            n == path@.len(),
            i <= n,
            r@ == path@.take(i as int).map_values(|x: NodeId| (x, EventPhase::Capture)),
        decreases n - i,
    {
        r.push((path[i], EventPhase::Capture));
        assert(r@ =~= path@.take(i + 1).map_values(|x: NodeId| (x, EventPhase::Capture)));
        i = i + 1;
    }
    assert(path@.take(n as int) =~= path@);
    let ghost capture = r@;
    let mut j: usize = n;
    while j > 0
        invariant
            n == path@.len(),
            j <= n,
            capture == path@.map_values(|x: NodeId| (x, EventPhase::Capture)),
            r@ == capture + path@.reverse().take(n - j).map_values(|x: NodeId| (x, EventPhase::Bubble)),
        decreases j,
    {
        j = j - 1;
        r.push((path[j], EventPhase::Bubble));
        assert(path@.reverse().take(n - j) =~= path@.reverse().take(n - j - 1).push(path@[j as int]));
        assert(r@ =~= capture + path@.reverse().take(n - j).map_values(|x: NodeId| (x, EventPhase::Bubble)));
    }
    assert(path@.reverse().take(n as int) =~= path@.reverse());
    r
}

/// The bubble phase visits the nodes of the capture phase in the reverse
/// order, and each node of the path is visited once in each phase.
pub proof fn lemma_bubble_reverses_capture(path: Seq<NodeId>, i: int)
    requires
        0 <= i < path.len(),
    ensures
        propagation_spec(path).len() == 2 * path.len(),
        propagation_spec(path)[i] == (path[i], EventPhase::Capture),
        propagation_spec(path)[2 * path.len() - 1 - i] == (path[i], EventPhase::Bubble),
{
    let n = path.len() as int;
    let cap = path.map_values(|x: NodeId| (x, EventPhase::Capture));
    let bub = path.reverse().map_values(|x: NodeId| (x, EventPhase::Bubble));
    assert(propagation_spec(path)[i] == cap[i]);
    assert(propagation_spec(path)[2 * n - 1 - i] == bub[n - 1 - i]);
    assert(path.reverse()[n - 1 - i] == path[i]);
}

} // verus!

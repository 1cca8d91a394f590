//! Calls from JavaScript into the engine: asynchronous, mutating calls and
//! the navigation actions they stand for.

use vstd::prelude::*;
use std::collections::HashMap;
use crate::navigation::{NavigationAction, Presentation};
use crate::text::str_eq;
use crate::tree::NodeId;

verus! {

/// Asynchronous call from JS: may mutate engine state, applied on the next frame.
#[derive(Debug, Clone)]
pub enum AsyncCall {
    Navigate {
        action: String,
        route: Option<String>,
        params: HashMap<String, String>,
        url: Option<String>,
        index: Option<usize>,
    },
    SetFocus { node_id: NodeId },
    MoveFocus { direction: String },
    Announce { message: String },
}

/// Marker for call types that are safe on the synchronous (read-only) path.
pub trait SyncSafe {}

/// `res` is the action that presents route `route` with `params` in the given way,
/// or nothing when no route was given.
pub open spec fn routed(
    route: Option<String>,
    params: HashMap<String, String>,
    res: Option<NavigationAction>,
    how: Presentation,
) -> bool {
    match route {
        None => res is None,
        Some(r) => match res {
            Some(NavigationAction::Push { route: r2, params: p2 }) => how == Presentation::Push && r2 == r && p2@
                == params@,
            Some(NavigationAction::Replace { route: r2, params: p2 }) => how == Presentation::Replace && r2 == r
                && p2@ == params@,
            Some(NavigationAction::PresentModal { route: r2, params: p2 }) => how == Presentation::Modal && r2 == r
                && p2@ == params@,
            _ => false,
        },
    }
}

/// The navigation action named by an async call: its `action` string selects
/// the action, and actions that need a route, index or URL are absent without it.
pub open spec fn navigation_action_of(call: AsyncCall, res: Option<NavigationAction>) -> bool {
    match call {
        AsyncCall::Navigate { action, route, params, url, index } => {
            if action@ == "push"@ {
                routed(route, params, res, Presentation::Push)
            } else if action@ == "pop"@ {
                res == Some(NavigationAction::Pop)
            } else if action@ == "popToRoot"@ {
                res == Some(NavigationAction::PopToRoot)
            } else if action@ == "replace"@ {
                routed(route, params, res, Presentation::Replace)
            } else if action@ == "presentModal"@ {
                routed(route, params, res, Presentation::Modal)
            } else if action@ == "dismissModal"@ {
                res == Some(NavigationAction::DismissModal)
            } else if action@ == "switchTab"@ {
                match index {
                    Some(i) => res == Some(NavigationAction::SwitchTab { index: i }),
                    None => res is None,
                }
            } else if action@ == "deepLink"@ {
                match url {
                    Some(u) => res matches Some(NavigationAction::DeepLink { url: u2 }) && u2 == u,
                    None => res is None,
                }
            } else if action@ == "goBack"@ {
                res == Some(NavigationAction::GoBack)
            } else {
                res is None
            }
        },
        _ => res is None,
    }
}

impl AsyncCall {
    /// Convert a `Navigate` call into a `NavigationAction`.
    pub fn to_navigation_action(&self) -> (res: Option<NavigationAction>)
        ensures
            navigation_action_of(*self, res),
    {
        match self {
            AsyncCall::Navigate { action, route, params, url, index } => {
                let a = action.as_str();
                if str_eq(a, "push") {
                    match route {
                        Some(r) => Some(NavigationAction::Push { route: r.clone(), params: params.clone() }),
                        None => None,
                    }
                } else if str_eq(a, "pop") {
                    Some(NavigationAction::Pop)
                } else if str_eq(a, "popToRoot") {
                    Some(NavigationAction::PopToRoot)
                } else if str_eq(a, "replace") {
                    match route {
                        Some(r) => Some(NavigationAction::Replace { route: r.clone(), params: params.clone() }),
                        None => None,
                    }
                } else if str_eq(a, "presentModal") {
                    match route {
                        Some(r) => Some(NavigationAction::PresentModal { route: r.clone(), params: params.clone() }),
                        None => None,
                    }
                } else if str_eq(a, "dismissModal") {
                    Some(NavigationAction::DismissModal)
                } else if str_eq(a, "switchTab") {
                    match index {
                        Some(i) => Some(NavigationAction::SwitchTab { index: *i }),
                        None => None,
                    }
                } else if str_eq(a, "deepLink") {
                    match url {
                        Some(u) => Some(NavigationAction::DeepLink { url: u.clone() }),
                        None => None,
                    }
                } else if str_eq(a, "goBack") {
                    Some(NavigationAction::GoBack)
                } else {
                    None
                }
            },
            _ => None,
        }
    }
}

} // verus!

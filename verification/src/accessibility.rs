//! Accessibility layer: semantic roles, their platform mappings, and
//! keyboard/accessibility focus management.

use vstd::prelude::*;
use std::collections::HashMap;
use crate::tree::{NodeId, contains_id, first_index, is_first_index, lemma_first_index_is, position_of};

verus! {

broadcast use vstd::std_specs::hash::group_hash_axioms;

/// Semantic role of a UI element (maps to platform accessibility APIs).
#[derive(Debug, Clone, Copy, PartialEq, Eq, Structural)]
pub enum AccessibilityRole {
    /// No semantic role: decorative or container (pruned from the a11y tree).
    NoRole,
    /// Interactive button.
    Button,
    /// Text content.
    Text,
    /// Heading (levels 1-6).
    Heading,
    /// Text input field.
    TextField,
    /// Image with description.
    Image,
    /// Checkable toggle (switch, checkbox).
    Switch,
    /// Adjustable value (slider, stepper).
    Adjustable,
    /// Link.
    Link,
    /// Search field.
    SearchField,
    /// Tab bar or segmented control.
    TabBar,
    /// Individual tab.
    Tab,
    /// List (scrollable collection).
    List,
    /// List item.
    ListItem,
    /// Modal/dialog.
    Alert,
    /// Progress indicator.
    ProgressBar,
    /// Menu.
    Menu,
    /// Menu item.
    MenuItem,
}

/// Accessibility state for a node.
#[derive(Debug, Clone, Default)]
pub struct AccessibilityState {
    pub disabled: bool,
    pub selected: bool,
    /// `None` = not checkable.
    pub checked: Option<bool>,
    /// `None` = not expandable.
    pub expanded: Option<bool>,
    pub busy: bool,
}

/// Live region announcement policy.
#[derive(Debug, Clone, Copy, Default, PartialEq, Eq, Structural)]
pub enum LiveRegion {
    /// No automatic announcements.
    #[default]
    Off,
    /// Announce changes when convenient.
    Polite,
    /// Interrupt the current announcement.
    Assertive,
}

/// Custom accessibility action.
#[derive(Debug, Clone)]
pub struct AccessibilityAction {
    pub name: String,
    /// Human-readable label for the action.
    pub label: String,
}

#[derive(Debug, Clone, Copy)]
pub struct FocusConfig {
    /// Tab index: -1 = not tabbable, 0 = natural order, >0 = explicit order.
    pub tab_index: i32,
    /// Whether this node should auto-focus when mounted.
    pub auto_focus: bool,
}

#[derive(Debug, Clone, Copy)]
pub struct FocusChange {
    pub previous: Option<NodeId>,
    pub current: NodeId,
}

/// The index that Tab moves from: the focused node's first position, else the last.
pub open spec fn current_index_for_next(order: Seq<NodeId>, focused: Option<NodeId>) -> int {
    match focused {
        Some(f) => match first_index(order, f) {
            Some(i) => i,
            None => order.len() - 1,
        },
        None => order.len() - 1,
    }
}

/// The index that Shift+Tab moves from: the focused node's first position, else the first.
pub open spec fn current_index_for_previous(order: Seq<NodeId>, focused: Option<NodeId>) -> int {
    match focused {
        Some(f) => match first_index(order, f) {
            Some(i) => i,
            None => 0,
        },
        None => 0,
    }
}

/// A registered node with an explicit tab index `t` goes before `id` when `id`
/// is not registered or has a larger tab index.
pub open spec fn goes_before(configs: Map<u64, FocusConfig>, id: NodeId, t: i32) -> bool {
    !configs.contains_key(id.0) || configs[id.0].tab_index > t
}

/// `pos` is where a node with explicit tab index `t` is inserted into `order`:
/// before the first node it goes before, or at the end.
pub open spec fn is_explicit_slot(
    order: Seq<NodeId>,
    configs: Map<u64, FocusConfig>,
    t: i32,
    pos: int,
) -> bool {
    &&& 0 <= pos <= order.len()
    &&& forall|q: int| 0 <= q < pos ==> !goes_before(configs, #[trigger] order[q], t)
    &&& pos == order.len() || goes_before(configs, order[pos], t)
}

/// The tab stops that Tab and Shift+Tab walk: the whole tab order, or, while a
/// focus trap is active, the part of it inside the innermost trap's subtree.
pub open spec fn tab_stops(order: Seq<NodeId>, scopes: Seq<Seq<NodeId>>) -> Seq<NodeId> {
    if scopes.len() == 0 {
        order
    } else {
        order.filter(|id: NodeId| scopes.last().contains(id))
    }
}

/// Manages keyboard/accessibility focus across the application.
pub struct FocusManager {
    /// Currently focused node.
    focused: Option<NodeId>,
    /// Focus order (tab order).
    focus_order: Vec<NodeId>,
    /// Focus trap stack (for modals): the root of each trap's subtree.
    focus_traps: Vec<NodeId>,
    /// The nodes of each trap's subtree, in the order of `focus_traps`.
    trap_scopes: Vec<Vec<NodeId>>,
    /// Focusable nodes, keyed by node id.
    focusable: HashMap<u64, FocusConfig>,
}

impl FocusManager {
    pub closed spec fn focused_node(&self) -> Option<NodeId> {
        self.focused
    }

    pub closed spec fn order(&self) -> Seq<NodeId> {
        self.focus_order@
    }

    pub closed spec fn traps(&self) -> Seq<NodeId> {
        self.focus_traps@
    }

    pub closed spec fn configs(&self) -> Map<u64, FocusConfig> {
        self.focusable@
    }

    /// The nodes of each trap's subtree, outermost trap first.
    pub closed spec fn scopes(&self) -> Seq<Seq<NodeId>> {
        self.trap_scopes@.map_values(|v: Vec<NodeId>| v@)
    }

    /// Well-formedness: every node in the tab order is registered.
    pub open spec fn wf(&self) -> bool {
        forall|i: int| 0 <= i < self.order().len() ==> self.configs().contains_key(#[trigger] self.order()[i].0)
    }

    /// What Tab and Shift+Tab walk in the current state.
    pub open spec fn candidates(&self) -> Seq<NodeId> {
        tab_stops(self.order(), self.scopes())
    }

    pub fn new() -> (m: Self)
        ensures
            m.wf(),
            m.focused_node() is None,
            m.order() == Seq::<NodeId>::empty(),
            m.traps() == Seq::<NodeId>::empty(),
            m.scopes() == Seq::<Seq<NodeId>>::empty(),
            m.configs() == Map::<u64, FocusConfig>::empty(),
    {
        let m = FocusManager {
            focused: None,
            focus_order: Vec::new(),
            focus_traps: Vec::new(),
            trap_scopes: Vec::new(),
            focusable: HashMap::new(),
        };
        assert(m.scopes() =~= Seq::<Seq<NodeId>>::empty());
        m
    }

    /// Register a node as focusable. Nodes with a negative tab index are
    /// focusable but not tabbable; index 0 appends to the tab order; a positive
    /// index is placed before the first node with a larger index.
    pub fn register(&mut self, node_id: NodeId, config: FocusConfig)
        requires
            old(self).wf(),
        ensures
            final(self).wf(),
            final(self).focused_node() == old(self).focused_node(),
            final(self).traps() == old(self).traps(),
            final(self).scopes() == old(self).scopes(),
            final(self).configs() == old(self).configs().insert(node_id.0, config),
            config.tab_index < 0 ==> final(self).order() == old(self).order(),
            config.tab_index == 0 ==> final(self).order() == old(self).order().push(node_id),
            config.tab_index > 0 ==> exists|pos: int|
                is_explicit_slot(old(self).order(), old(self).configs(), config.tab_index, pos)
                    && final(self).order() == old(self).order().insert(pos, node_id),
            config.tab_index > 0 ==> exists|pos: int|
                0 <= pos <= old(self).order().len() && final(self).order() == old(self).order().insert(pos, node_id)
                    && (forall|q: int| 0 <= q < pos ==> old(self).configs().contains_key((#[trigger] old(self).order()[q]).0)
                    && old(self).configs()[old(self).order()[q].0].tab_index <= config.tab_index) && (pos < old(
                    self,
                ).order().len() ==> !old(self).configs().contains_key(old(self).order()[pos].0) || old(
                    self,
                ).configs()[old(self).order()[pos].0].tab_index > config.tab_index),
    {
        if config.tab_index >= 0 {
            if config.tab_index > 0 {
                let mut pos: usize = 0;
                while pos < self.focus_order.len()
                    invariant
                        *self == *old(self),
                        pos <= self.focus_order@.len(),
                        forall|q: int|
                            0 <= q < pos ==> !goes_before(
                                self.focusable@,
                                #[trigger] self.focus_order@[q],
                                config.tab_index,
                            ),
                    ensures
                        *self == *old(self),
                        is_explicit_slot(self.focus_order@, self.focusable@, config.tab_index, pos as int),
                    decreases self.focus_order@.len() - pos,
                {
                    let later = match self.focusable.get(&self.focus_order[pos].0) {
                        Some(c) => c.tab_index > config.tab_index,
                        None => true,
                    };
                    if later {
                        break;
                    }
                    pos = pos + 1;
                }
                assert(is_explicit_slot(old(self).order(), old(self).configs(), config.tab_index, pos as int));
                proof {
                    lemma_explicit_slot_keeps_registration_order(
                        old(self).order(),
                        old(self).configs(),
                        config.tab_index,
                        pos as int,
                    );
                }
                self.focus_order.insert(pos, node_id);
                assert(self.focus_order@ == old(self).order().insert(pos as int, node_id));
            } else {
                self.focus_order.push(node_id);
            }
        }
        let ghost mid = self.focus_order@;
        self.focusable.insert(node_id.0, config);
        proof {
            assert forall|i: int| 0 <= i < mid.len() implies self.focusable@.contains_key(#[trigger] mid[i].0) by {
                if mid[i] != node_id {
                    assert(old(self).order().contains(mid[i])) by {
                        if config.tab_index == 0 {
                            assert(mid[i] == old(self).order()[i]);
                        } else if config.tab_index > 0 {
                            let pos = choose|pos: int|
                                is_explicit_slot(old(self).order(), old(self).configs(), config.tab_index, pos)
                                    && mid == old(self).order().insert(pos, node_id);
                            if i < pos {
                                assert(mid[i] == old(self).order()[i]);
                            } else {
                                assert(mid[i] == old(self).order()[i - 1]);
                            }
                        } else {
                            assert(mid[i] == old(self).order()[i]);
                        }
                    }
                    let j = choose|j: int| 0 <= j < old(self).order().len() && old(self).order()[j] == mid[i];
                    assert(old(self).configs().contains_key(old(self).order()[j].0));
                }
            }
        }
    }

    /// Unregister a node (when removed from the tree).
    pub fn unregister(&mut self, node_id: NodeId)
        requires
            old(self).wf(),
        ensures
            final(self).wf(),
            final(self).configs() == old(self).configs().remove(node_id.0),
            final(self).order() == old(self).order().filter(|id: NodeId| id != node_id),
            final(self).traps() == old(self).traps(),
            final(self).scopes() == old(self).scopes(),
            final(self).focused_node() == (if old(self).focused_node() == Some(node_id) {
                None
            } else {
                old(self).focused_node()
            }),
    {
        self.focusable.remove(&node_id.0);
        let mut kept: Vec<NodeId> = Vec::new();
        let mut i: usize = 0;
        let ghost pred = |id: NodeId| id != node_id;
        assert(self.focus_order@.take(0).filter(pred) =~= Seq::<NodeId>::empty()) by {
            reveal_with_fuel(Seq::<NodeId>::filter, 1);
        }
        while i < self.focus_order.len()
            invariant
                i <= self.focus_order@.len(),
                self.focus_order@ == old(self).focus_order@,
                pred == (|id: NodeId| id != node_id),
                kept@ == self.focus_order@.take(i as int).filter(pred),
            decreases self.focus_order@.len() - i,
        {
            let id = self.focus_order[i];
            proof {
                let s = self.focus_order@.take(i + 1);
                assert(s.drop_last() =~= self.focus_order@.take(i as int));
                assert(s.last() == id);
                reveal_with_fuel(Seq::<NodeId>::filter, 1);
            }
            if id != node_id {
                kept.push(id);
            }
            i = i + 1;
        }
        assert(self.focus_order@.take(self.focus_order@.len() as int) =~= self.focus_order@);
        self.focus_order = kept;
        proof {
            let o = old(self).order();
            assert forall|i: int| 0 <= i < self.focus_order@.len() implies self.focusable@.contains_key(
                #[trigger] self.focus_order@[i].0,
            ) by {
                let x = self.focus_order@[i];
                o.lemma_filter_pred(pred, i);
                assert(o.filter(pred).contains(x));
                o.lemma_filter_contains_rev(pred, x);
                let j = choose|j: int| 0 <= j < o.len() && o[j] == x;
                assert(old(self).configs().contains_key(o[j].0));
            }
        }
        if self.focused == Some(node_id) {
            self.focused = None;
        }
    }

    /// Move focus to a specific node.
    pub fn focus(&mut self, node_id: NodeId) -> (r: Option<FocusChange>)
        ensures
            r == Some(FocusChange { previous: old(self).focused_node(), current: node_id }),
            final(self).focused_node() == Some(node_id),
            final(self).order() == old(self).order(),
            final(self).traps() == old(self).traps(),
            final(self).scopes() == old(self).scopes(),
            final(self).configs() == old(self).configs(),
    {
        let previous = self.focused;
        self.focused = Some(node_id);
        Some(FocusChange { previous, current: node_id })
    }

    /// Move focus to the next focusable node (Tab key), wrapping around.
    pub fn focus_next(&mut self) -> (r: Option<FocusChange>)
        ensures
            final(self).order() == old(self).order(),
            final(self).traps() == old(self).traps(),
            final(self).scopes() == old(self).scopes(),
            final(self).configs() == old(self).configs(),
            old(self).candidates().len() == 0 ==> r is None && final(self).focused_node() == old(self).focused_node(),
            old(self).candidates().len() > 0 ==> {
                let c = old(self).candidates();
                let next = c[(current_index_for_next(c, old(self).focused_node()) + 1) % (
                c.len() as int)];
                &&& r == Some(FocusChange { previous: old(self).focused_node(), current: next })
                &&& final(self).focused_node() == Some(next)
            },
            r matches Some(c) ==> old(self).order().contains(c.current),
    {
        proof {
            if self.candidates().len() > 0 {
                lemma_tab_walk_within_order(self.order(), self.scopes(), self.focused);
            }
        }
        let candidates = self.get_candidates();
        let n = candidates.len();
        if n == 0 {
            return None;
        }
        let current_index = match self.focused {
            Some(id) => match position_of(&candidates, id) {
                Some(i) => i,
                None => n - 1,
            },
            None => n - 1,
        };
        let next_index = (current_index + 1) % n;
        self.focus(candidates[next_index])
    }

    /// Move focus to the previous focusable node (Shift+Tab), wrapping around.
    pub fn focus_previous(&mut self) -> (r: Option<FocusChange>)
        ensures
            final(self).order() == old(self).order(),
            final(self).traps() == old(self).traps(),
            final(self).scopes() == old(self).scopes(),
            final(self).configs() == old(self).configs(),
            old(self).candidates().len() == 0 ==> r is None && final(self).focused_node() == old(self).focused_node(),
            old(self).candidates().len() > 0 ==> {
                let c = old(self).candidates();
                let cur = current_index_for_previous(c, old(self).focused_node());
                let prev = c[if cur == 0 {
                    c.len() - 1
                } else {
                    cur - 1
                }];
                &&& r == Some(FocusChange { previous: old(self).focused_node(), current: prev })
                &&& final(self).focused_node() == Some(prev)
            },
            r matches Some(c) ==> old(self).order().contains(c.current),
    {
        proof {
            if self.candidates().len() > 0 {
                lemma_tab_walk_within_order(self.order(), self.scopes(), self.focused);
            }
        }
        let candidates = self.get_candidates();
        let n = candidates.len();
        if n == 0 {
            return None;
        }
        let current_index = match self.focused {
            Some(id) => match position_of(&candidates, id) {
                Some(i) => i,
                None => 0,
            },
            None => 0,
        };
        let prev_index = if current_index == 0 {
            n - 1
        } else {
            current_index - 1
        };
        self.focus(candidates[prev_index])
    }

    /// Push a focus trap (for modals): `subtree` holds the nodes under
    /// `root_node`, and until the trap is popped Tab and Shift+Tab only move
    /// among the tab stops in it. Focus cannot leave the trap subtree.
    pub fn push_trap(&mut self, root_node: NodeId, subtree: Vec<NodeId>)
        ensures
            final(self).traps() == old(self).traps().push(root_node),
            final(self).scopes() == old(self).scopes().push(subtree@),
            final(self).order() == old(self).order(),
            final(self).focused_node() == old(self).focused_node(),
            final(self).configs() == old(self).configs(),
    {
        let ghost members = subtree@;
        self.focus_traps.push(root_node);
        self.trap_scopes.push(subtree);
        assert(self.scopes() =~= old(self).scopes().push(members));
    }

    /// Pop a focus trap (when a modal is dismissed).
    pub fn pop_trap(&mut self) -> (r: Option<NodeId>)
        ensures
            old(self).traps().len() == 0 ==> r is None && final(self).traps() == old(self).traps(),
            old(self).traps().len() > 0 ==> r == Some(old(self).traps().last()) && final(self).traps() == old(self).traps().drop_last(),
            old(self).scopes().len() == 0 ==> final(self).scopes() == old(self).scopes(),
            old(self).scopes().len() > 0 ==> final(self).scopes() == old(self).scopes().drop_last(),
            final(self).order() == old(self).order(),
            final(self).focused_node() == old(self).focused_node(),
            final(self).configs() == old(self).configs(),
    {
        if self.trap_scopes.len() > 0 {
            let _ = self.trap_scopes.pop();
            assert(self.scopes() =~= old(self).scopes().drop_last());
        }
        self.focus_traps.pop()
    }

    /// Get the currently focused node.
    pub fn focused(&self) -> (r: Option<NodeId>)
        ensures
            r == self.focused_node(),
    {
        self.focused
    }

    /// Focusable candidates, respecting the active focus trap.
    fn get_candidates(&self) -> (r: Vec<NodeId>)
        ensures
            r@ == self.candidates(),
    {
        let n_traps = self.trap_scopes.len();
        let mut r: Vec<NodeId> = Vec::new();
        let mut i: usize = 0;
        if n_traps == 0 {
            while i < self.focus_order.len()
                invariant
                    i <= self.focus_order@.len(),
                    r@ == self.focus_order@.take(i as int),
                decreases self.focus_order@.len() - i,
            {
                r.push(self.focus_order[i]);
                assert(self.focus_order@.take(i + 1) =~= self.focus_order@.take(i as int).push(
                    self.focus_order@[i as int],
                ));
                i = i + 1;
            }
            assert(self.focus_order@.take(self.focus_order@.len() as int) =~= self.focus_order@);
            assert(self.scopes().len() == 0);
            return r;
        }
        let scope = &self.trap_scopes[n_traps - 1];
        let ghost pred = |id: NodeId| self.scopes().last().contains(id);
        assert(self.scopes().last() == scope@);
        assert(self.focus_order@.take(0).filter(pred) =~= Seq::<NodeId>::empty()) by {
            reveal_with_fuel(Seq::<NodeId>::filter, 1);
        }
        while i < self.focus_order.len()
            invariant
                i <= self.focus_order@.len(),
                self.scopes().last() == scope@,
                pred == (|id: NodeId| self.scopes().last().contains(id)),
                r@ == self.focus_order@.take(i as int).filter(pred),
            decreases self.focus_order@.len() - i,
        {
            let id = self.focus_order[i];
            proof {
                let s = self.focus_order@.take(i + 1);
                assert(s.drop_last() =~= self.focus_order@.take(i as int));
                assert(s.last() == id);
                reveal_with_fuel(Seq::<NodeId>::filter, 1);
            }
            if contains_id(scope, id) {
                r.push(id);
            }
            i = i + 1;
        }
        assert(self.focus_order@.take(self.focus_order@.len() as int) =~= self.focus_order@);
        r
    }
}

} // verus!

verus! {

/// The iOS `UIAccessibilityTraits` name for a role.
pub open spec fn spec_ios_traits(role: AccessibilityRole) -> Seq<char> {
    match role {
        AccessibilityRole::NoRole => "none"@,
        AccessibilityRole::Button => "button"@,
        AccessibilityRole::Text => "staticText"@,
        AccessibilityRole::Heading => "header"@,
        AccessibilityRole::TextField => "none"@,
        AccessibilityRole::Image => "image"@,
        AccessibilityRole::Switch => "button"@,
        AccessibilityRole::Adjustable => "adjustable"@,
        AccessibilityRole::Link => "link"@,
        AccessibilityRole::SearchField => "searchField"@,
        AccessibilityRole::TabBar => "tabBar"@,
        AccessibilityRole::Tab => "button"@,
        AccessibilityRole::List => "none"@,
        AccessibilityRole::ListItem => "none"@,
        AccessibilityRole::Alert => "none"@,
        AccessibilityRole::ProgressBar => "none"@,
        AccessibilityRole::Menu => "none"@,
        AccessibilityRole::MenuItem => "button"@,
    }
}

/// The web ARIA role for a role (empty for plain text).
pub open spec fn spec_aria_role(role: AccessibilityRole) -> Seq<char> {
    match role {
        AccessibilityRole::NoRole => "presentation"@,
        AccessibilityRole::Button => "button"@,
        AccessibilityRole::Text => ""@,
        AccessibilityRole::Heading => "heading"@,
        AccessibilityRole::TextField => "textbox"@,
        AccessibilityRole::Image => "img"@,
        AccessibilityRole::Switch => "switch"@,
        AccessibilityRole::Adjustable => "slider"@,
        AccessibilityRole::Link => "link"@,
        AccessibilityRole::SearchField => "searchbox"@,
        AccessibilityRole::TabBar => "tablist"@,
        AccessibilityRole::Tab => "tab"@,
        AccessibilityRole::List => "list"@,
        AccessibilityRole::ListItem => "listitem"@,
        AccessibilityRole::Alert => "alert"@,
        AccessibilityRole::ProgressBar => "progressbar"@,
        AccessibilityRole::Menu => "menu"@,
        AccessibilityRole::MenuItem => "menuitem"@,
    }
}

/// The Android `AccessibilityNodeInfo` class name for a role.
pub open spec fn spec_android_class(role: AccessibilityRole) -> Seq<char> {
    match role {
        AccessibilityRole::NoRole => "android.view.View"@,
        AccessibilityRole::Button => "android.widget.Button"@,
        AccessibilityRole::Text => "android.widget.TextView"@,
        AccessibilityRole::Heading => "android.widget.TextView"@,
        AccessibilityRole::TextField => "android.widget.EditText"@,
        AccessibilityRole::Image => "android.widget.ImageView"@,
        AccessibilityRole::Switch => "android.widget.Switch"@,
        AccessibilityRole::Adjustable => "android.widget.SeekBar"@,
        AccessibilityRole::Link => "android.widget.TextView"@,
        AccessibilityRole::SearchField => "android.widget.EditText"@,
        AccessibilityRole::TabBar => "android.widget.TabWidget"@,
        AccessibilityRole::Tab => "android.widget.TabWidget"@,
        AccessibilityRole::List => "android.widget.ListView"@,
        AccessibilityRole::ListItem => "android.widget.ListView"@,
        AccessibilityRole::Alert => "android.app.AlertDialog"@,
        AccessibilityRole::ProgressBar => "android.widget.ProgressBar"@,
        AccessibilityRole::Menu => "android.widget.PopupMenu"@,
        AccessibilityRole::MenuItem => "android.widget.PopupMenu"@,
    }
}

/// Maps a role to the platform-specific values each platform bridge uses.
impl AccessibilityRole {
    /// iOS UIAccessibilityTraits mapping.
    pub fn ios_traits(&self) -> (r: &'static str)
        ensures
            r@ == spec_ios_traits(*self),
    {
        match self {
            Self::NoRole => "none",
            Self::Button => "button",
            Self::Text => "staticText",
            Self::Heading => "header",
            Self::TextField => "none",
            Self::Image => "image",
            Self::Switch => "button",
            Self::Adjustable => "adjustable",
            Self::Link => "link",
            Self::SearchField => "searchField",
            Self::TabBar => "tabBar",
            Self::Tab => "button",
            Self::List => "none",
            Self::ListItem => "none",
            Self::Alert => "none",
            Self::ProgressBar => "none",
            Self::Menu => "none",
            Self::MenuItem => "button",
        }
    }

    /// Web ARIA role mapping.
    pub fn aria_role(&self) -> (r: &'static str)
        ensures
            r@ == spec_aria_role(*self),
    {
        match self {
            Self::NoRole => "presentation",
            Self::Button => "button",
            Self::Text => "",
            Self::Heading => "heading",
            Self::TextField => "textbox",
            Self::Image => "img",
            Self::Switch => "switch",
            Self::Adjustable => "slider",
            Self::Link => "link",
            Self::SearchField => "searchbox",
            Self::TabBar => "tablist",
            Self::Tab => "tab",
            Self::List => "list",
            Self::ListItem => "listitem",
            Self::Alert => "alert",
            Self::ProgressBar => "progressbar",
            Self::Menu => "menu",
            Self::MenuItem => "menuitem",
        }
    }

    /// Android AccessibilityNodeInfo className mapping.
    pub fn android_class(&self) -> (r: &'static str)
        ensures
            r@ == spec_android_class(*self),
    {
        match self {
            Self::NoRole => "android.view.View",
            Self::Button => "android.widget.Button",
            Self::Text => "android.widget.TextView",
            Self::Heading => "android.widget.TextView",
            Self::TextField => "android.widget.EditText",
            Self::Image => "android.widget.ImageView",
            Self::Switch => "android.widget.Switch",
            Self::Adjustable => "android.widget.SeekBar",
            Self::Link => "android.widget.TextView",
            Self::SearchField => "android.widget.EditText",
            Self::TabBar => "android.widget.TabWidget",
            Self::Tab => "android.widget.TabWidget",
            Self::List => "android.widget.ListView",
            Self::ListItem => "android.widget.ListView",
            Self::Alert => "android.app.AlertDialog",
            Self::ProgressBar => "android.widget.ProgressBar",
            Self::Menu => "android.widget.PopupMenu",
            Self::MenuItem => "android.widget.PopupMenu",
        }
    }
}

// ── Laws ───────────────────────────────────────────────────────────────

/// Where a positive tab index `t` is placed: after every node of the order
/// that is registered with a tab index of at most `t`, up to the first node
/// that is unregistered or has a larger index. Among equal tab indices the
/// earlier registration stays first.
pub proof fn lemma_explicit_slot_keeps_registration_order(
    order: Seq<NodeId>,
    configs: Map<u64, FocusConfig>,
    t: i32,
    pos: int,
)
    requires
        is_explicit_slot(order, configs, t, pos),
    ensures
        0 <= pos <= order.len(),
        forall|q: int| 0 <= q < pos ==> configs.contains_key((#[trigger] order[q]).0) && configs[order[q].0].tab_index
            <= t,
        pos < order.len() ==> !configs.contains_key(order[pos].0) || configs[order[pos].0].tab_index > t,
{
    assert forall|q: int| 0 <= q < pos implies configs.contains_key((#[trigger] order[q]).0) && configs[order[q].0].tab_index
        <= t by {
        assert(!goes_before(configs, order[q], t));
    }
}

/// With distinct tab stops, Shift+Tab after Tab returns focus to where it was.
pub proof fn lemma_previous_undoes_next(order: Seq<NodeId>, i: int)
    requires
        0 <= i < order.len(),
        forall|a: int, b: int| 0 <= a < order.len() && 0 <= b < order.len() && a != b ==> order[a]
            != order[b],
    ensures
        ({
            let next = order[(current_index_for_next(order, Some(order[i])) + 1) % (
            order.len() as int)];
            let cur = current_index_for_previous(order, Some(next));
            order[if cur == 0 {
                order.len() - 1
            } else {
                cur - 1
            }] == order[i]
        }),
{
    lemma_first_index_is(order, order[i], i);
    let n = order.len() as int;
    let j = (i + 1) % n;
    if i + 1 < n {
        assert((i + 1) % n == i + 1) by (nonlinear_arith)
            requires
                0 <= i + 1 < n,
        ;
    } else {
        assert((i + 1) % n == 0) by (nonlinear_arith)
            requires
                i + 1 == n,
                n > 0,
        ;
    }
    assert(0 <= j < n);
    assert forall|q: int| 0 <= q < j implies order[q] != order[j] by {}
    lemma_first_index_is(order, order[j], j);
    if i + 1 < n {
        assert(j == i + 1);
    } else {
        assert(j == 0);
    }
}

/// While a focus trap is active and its subtree holds a tab stop, Tab and
/// Shift+Tab move focus only to nodes of the tab order inside that subtree,
/// wherever focus was before.
pub proof fn lemma_trap_keeps_focus_inside(
    order: Seq<NodeId>,
    scopes: Seq<Seq<NodeId>>,
    focused: Option<NodeId>,
)
    requires
        scopes.len() > 0,
        tab_stops(order, scopes).len() > 0,
    ensures
        ({
            let c = tab_stops(order, scopes);
            let next = c[(current_index_for_next(c, focused) + 1) % (c.len() as int)];
            let cur = current_index_for_previous(c, focused);
            let prev = c[if cur == 0 {
                c.len() - 1
            } else {
                cur - 1
            }];
            &&& scopes.last().contains(next) && order.contains(next)
            &&& scopes.last().contains(prev) && order.contains(prev)
        }),
{
    let pred = |id: NodeId| scopes.last().contains(id);
    let c = order.filter(pred);
    let n = c.len() as int;
    let ci = current_index_for_next(c, focused);
    if let Some(f) = focused {
        if let Some(i) = first_index(c, f) {
            assert(is_first_index(c, f, i));
        }
    }
    assert(0 <= ci < n);
    let j = (ci + 1) % n;
    assert(0 <= j < n) by (nonlinear_arith)
        requires
            0 <= ci < n,
            j == (ci + 1) % n,
    ;
    let cp = current_index_for_previous(c, focused);
    if let Some(f) = focused {
        if let Some(i) = first_index(c, f) {
            assert(is_first_index(c, f, i));
        }
    }
    assert(0 <= cp < n);
    let k = if cp == 0 {
        n - 1
    } else {
        cp - 1
    };
    order.lemma_filter_pred(pred, j);
    order.lemma_filter_pred(pred, k);
    assert(c.contains(c[j]));
    assert(c.contains(c[k]));
    order.lemma_filter_contains_rev(pred, c[j]);
    order.lemma_filter_contains_rev(pred, c[k]);
}

/// Tab and Shift+Tab only ever move focus to a node of the tab order.
pub proof fn lemma_tab_walk_within_order(order: Seq<NodeId>, scopes: Seq<Seq<NodeId>>, focused: Option<NodeId>)
    requires
        tab_stops(order, scopes).len() > 0,
    ensures
        ({
            let c = tab_stops(order, scopes);
            let next = c[(current_index_for_next(c, focused) + 1) % (c.len() as int)];
            let cur = current_index_for_previous(c, focused);
            let prev = c[if cur == 0 {
                c.len() - 1
            } else {
                cur - 1
            }];
            order.contains(next) && order.contains(prev)
        }),
{
    if scopes.len() > 0 {
        lemma_trap_keeps_focus_inside(order, scopes, focused);
    } else {
        let c = order;
        let n = c.len() as int;
        let ci = current_index_for_next(c, focused);
        let cp = current_index_for_previous(c, focused);
        if let Some(f) = focused {
            if let Some(i) = first_index(c, f) {
                assert(is_first_index(c, f, i));
            }
        }
        let j = (ci + 1) % n;
        assert(0 <= j < n) by (nonlinear_arith)
            requires
                0 <= ci < n,
                j == (ci + 1) % n,
        ;
        let k = if cp == 0 {
            n - 1
        } else {
            cp - 1
        };
        assert(c[j] == order[j]);
        assert(c[k] == order[k]);
    }
}

/// A node out of the tab order stays out when another node is registered, or
/// when it is registered itself with a negative tab index.
pub proof fn lemma_register_keeps_out(
    pre: FocusManager,
    post: FocusManager,
    node_id: NodeId,
    config: FocusConfig,
    n: NodeId,
)
    requires
        config.tab_index < 0 ==> post.order() == pre.order(),
        config.tab_index == 0 ==> post.order() == pre.order().push(node_id),
        config.tab_index > 0 ==> exists|pos: int|
            is_explicit_slot(pre.order(), pre.configs(), config.tab_index, pos)
                && post.order() == pre.order().insert(pos, node_id),
        n != node_id || config.tab_index < 0,
        !pre.order().contains(n),
    ensures
        !post.order().contains(n),
{
    if post.order().contains(n) {
        let k = choose|k: int| 0 <= k < post.order().len() && post.order()[k] == n;
        if config.tab_index == 0 {
            assert(k < pre.order().len() ==> pre.order()[k] == n);
        } else if config.tab_index > 0 {
            let pos = choose|pos: int|
                is_explicit_slot(pre.order(), pre.configs(), config.tab_index, pos)
                    && post.order() == pre.order().insert(pos, node_id);
            if k < pos {
                assert(pre.order()[k] == n);
            } else if k > pos {
                assert(pre.order()[k - 1] == n);
            }
        }
    }
}

/// Popping a focus trap gives Tab back the stops it had before the trap was pushed.
pub proof fn lemma_pop_trap_restores_stops(pre: FocusManager, mid: FocusManager, post: FocusManager, members: Seq<NodeId>)
    requires
        mid.order() == pre.order(),
        mid.scopes() == pre.scopes().push(members),
        post.order() == mid.order(),
        mid.scopes().len() > 0 ==> post.scopes() == mid.scopes().drop_last(),
    ensures
        post.candidates() == pre.candidates(),
{
    assert(pre.scopes().push(members).drop_last() =~= pre.scopes());
}

/// In a well-formed manager a node that is not registered is not in the tab
/// order, so Tab and Shift+Tab never reach it.
pub proof fn lemma_unregistered_out_of_order(fm: FocusManager, n: NodeId)
    requires
        fm.wf(),
        !fm.configs().contains_key(n.0),
    ensures
        !fm.order().contains(n),
{
    if fm.order().contains(n) {
        let k = choose|k: int| 0 <= k < fm.order().len() && fm.order()[k] == n;
        assert(fm.configs().contains_key(fm.order()[k].0));
    }
}

/// A node first registered with a negative tab index stays out of the tab
/// order: Tab and Shift+Tab never land on it, and the order of the others is
/// unchanged.
pub proof fn lemma_negative_index_never_tabbed(
    pre: FocusManager,
    post: FocusManager,
    n: NodeId,
    config: FocusConfig,
)
    requires
        pre.wf(),
        !pre.configs().contains_key(n.0),
        config.tab_index < 0,
        post.order() == pre.order(),
    ensures
        !post.order().contains(n),
        post.order() == pre.order(),
{
    lemma_unregistered_out_of_order(pre, n);
}

/// Unregistering keeps every node that was out of the tab order out of it,
/// and takes the unregistered node out; the others keep their relative order.
pub proof fn lemma_unregister_keeps_out(pre: FocusManager, post: FocusManager, node_id: NodeId, n: NodeId)
    requires
        post.order() == pre.order().filter(|id: NodeId| id != node_id),
        n == node_id || !pre.order().contains(n),
    ensures
        !post.order().contains(n),
{
    let pred = |id: NodeId| id != node_id;
    if post.order().contains(n) {
        let k = choose|k: int| 0 <= k < post.order().len() && post.order()[k] == n;
        pre.order().lemma_filter_pred(pred, k);
        pre.order().lemma_filter_contains_rev(pred, n);
    }
}

/// Unregistering a node removes it from the tab order and from focus.
pub proof fn lemma_unregistered_not_focusable(pre: FocusManager, post: FocusManager, node: NodeId)
    requires
        post.configs() == pre.configs().remove(node.0),
        post.order() == pre.order().filter(|id: NodeId| id != node),
        post.focused_node() == (if pre.focused_node() == Some(node) {
            None
        } else {
            pre.focused_node()
        }),
    ensures
        !post.order().contains(node),
        post.focused_node() != Some(node),
        !post.configs().contains_key(node.0),
{
    let pred = |id: NodeId| id != node;
    if post.order().contains(node) {
        let k = choose|k: int| 0 <= k < post.order().len() && post.order()[k] == node;
        pre.order().lemma_filter_pred(pred, k);
    }
}

} // verus!

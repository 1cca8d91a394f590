use appscale_core::accessibility::{AccessibilityRole, FocusConfig, FocusManager};
use appscale_core::tree::NodeId;

fn cfg() -> FocusConfig {
    FocusConfig { tab_index: 0, auto_focus: false }
}

#[test]
fn test_focus_cycle() {
    let mut fm = FocusManager::new();
    fm.register(NodeId(1), cfg());
    fm.register(NodeId(2), cfg());
    fm.register(NodeId(3), cfg());

    let c = fm.focus_next().unwrap();
    assert_eq!(c.current, NodeId(1));

    let c = fm.focus_next().unwrap();
    assert_eq!(c.current, NodeId(2));

    let c = fm.focus_next().unwrap();
    assert_eq!(c.current, NodeId(3));

    // Wraps around
    let c = fm.focus_next().unwrap();
    assert_eq!(c.current, NodeId(1));
}

#[test]
fn test_focus_reverse() {
    let mut fm = FocusManager::new();
    fm.register(NodeId(1), cfg());
    fm.register(NodeId(2), cfg());

    fm.focus(NodeId(2));
    let c = fm.focus_previous().unwrap();
    assert_eq!(c.current, NodeId(1));
}

#[test]
fn test_role_mappings() {
    assert_eq!(AccessibilityRole::Button.aria_role(), "button");
    assert_eq!(AccessibilityRole::Switch.ios_traits(), "button");
    assert_eq!(AccessibilityRole::TextField.android_class(), "android.widget.EditText");
}

#[test]
fn focus_previous_undoes_focus_next() {
    let mut fm = FocusManager::new();
    fm.register(NodeId(5), cfg());
    fm.register(NodeId(6), cfg());
    fm.register(NodeId(7), cfg());
    fm.focus(NodeId(6));
    let next = fm.focus_next().unwrap();
    assert_eq!(next.previous, Some(NodeId(6)));
    assert_eq!(next.current, NodeId(7));
    let back = fm.focus_previous().unwrap();
    assert_eq!(back.current, NodeId(6));
    assert_eq!(fm.focused(), Some(NodeId(6)));
}

#[test]
fn focus_on_empty_manager_is_none() {
    let mut fm = FocusManager::new();
    assert!(fm.focus_next().is_none());
    assert!(fm.focus_previous().is_none());
    assert!(fm.focused().is_none());
}

#[test]
fn unregistered_node_is_not_focusable() {
    let mut fm = FocusManager::new();
    fm.register(NodeId(1), cfg());
    fm.register(NodeId(2), cfg());
    fm.focus(NodeId(2));
    fm.unregister(NodeId(2));
    assert_eq!(fm.focused(), None);
    let c = fm.focus_next().unwrap();
    assert_eq!(c.current, NodeId(1));
    let c = fm.focus_next().unwrap();
    assert_eq!(c.current, NodeId(1));
}

#[test]
fn focus_trap_push_pop() {
    let mut fm = FocusManager::new();
    fm.push_trap(NodeId(10), vec![NodeId(10)]);
    fm.push_trap(NodeId(11), vec![NodeId(11)]);
    assert_eq!(fm.pop_trap(), Some(NodeId(11)));
    assert_eq!(fm.pop_trap(), Some(NodeId(10)));
    assert_eq!(fm.pop_trap(), None);
}

#[test]
fn tab_index_orders_focus() {
    let mut fm = FocusManager::new();
    fm.register(NodeId(1), FocusConfig { tab_index: 2, auto_focus: false });
    fm.register(NodeId(2), FocusConfig { tab_index: 1, auto_focus: false });
    fm.register(NodeId(3), FocusConfig { tab_index: -1, auto_focus: false });
    let c = fm.focus_next().unwrap();
    assert_eq!(c.current, NodeId(2));
    let c = fm.focus_next().unwrap();
    assert_eq!(c.current, NodeId(1));
    let c = fm.focus_next().unwrap();
    assert_eq!(c.current, NodeId(2));
}

#[test]
fn focus_reports_previous_node() {
    let mut fm = FocusManager::new();
    let c = fm.focus(NodeId(4)).unwrap();
    assert_eq!(c.previous, None);
    assert_eq!(c.current, NodeId(4));
    let c = fm.focus(NodeId(9)).unwrap();
    assert_eq!(c.previous, Some(NodeId(4)));
}

#[test]
fn role_mappings_cover_no_role() {
    assert_eq!(AccessibilityRole::NoRole.aria_role(), "presentation");
    assert_eq!(AccessibilityRole::NoRole.ios_traits(), "none");
    assert_eq!(AccessibilityRole::Heading.aria_role(), "heading");
    assert_eq!(AccessibilityRole::Image.android_class(), "android.widget.ImageView");
}

#[test]
fn focus_trap_keeps_tab_inside_subtree() {
    let mut fm = FocusManager::new();
    for id in 1..=4u64 {
        fm.register(NodeId(id), FocusConfig { tab_index: 0, auto_focus: false });
    }
    fm.focus(NodeId(1));
    fm.push_trap(NodeId(20), vec![NodeId(20), NodeId(2), NodeId(3)]);
    assert_eq!(fm.focus_next().unwrap().current, NodeId(2));
    assert_eq!(fm.focus_next().unwrap().current, NodeId(3));
    assert_eq!(fm.focus_next().unwrap().current, NodeId(2));
    assert_eq!(fm.focus_previous().unwrap().current, NodeId(3));
    assert_eq!(fm.pop_trap(), Some(NodeId(20)));
    assert_eq!(fm.focus_next().unwrap().current, NodeId(4));
}

#[test]
fn focus_trap_without_tab_stops_keeps_focus() {
    let mut fm = FocusManager::new();
    fm.register(NodeId(1), FocusConfig { tab_index: 0, auto_focus: false });
    fm.focus(NodeId(1));
    fm.push_trap(NodeId(30), vec![NodeId(30), NodeId(31)]);
    assert!(fm.focus_next().is_none());
    assert!(fm.focus_previous().is_none());
    assert_eq!(fm.focused(), Some(NodeId(1)));
}

#[test]
fn untabbable_and_unregistered_nodes_are_never_reached() {
    let mut fm = FocusManager::new();
    fm.register(NodeId(1), FocusConfig { tab_index: 0, auto_focus: false });
    fm.register(NodeId(2), FocusConfig { tab_index: -1, auto_focus: false });
    fm.register(NodeId(3), FocusConfig { tab_index: 0, auto_focus: false });
    assert_eq!(fm.focus_next().unwrap().current, NodeId(1));
    assert_eq!(fm.focus_next().unwrap().current, NodeId(3));
    assert_eq!(fm.focus_next().unwrap().current, NodeId(1));
    fm.unregister(NodeId(3));
    assert_eq!(fm.focus_next().unwrap().current, NodeId(1));
    assert_eq!(fm.focus_previous().unwrap().current, NodeId(1));
}

use appscale_core::platform::{NativeHandle, ViewType};
use appscale_core::tree::{NodeId, ShadowTree};

fn tree_with(ids: &[(u64, ViewType)]) -> ShadowTree<u32> {
    let mut tree = ShadowTree::new();
    for (id, vt) in ids {
        tree.create_node(NodeId(*id), vt.clone(), 0);
    }
    tree
}

#[test]
fn test_create_and_parent() {
    let mut tree = tree_with(&[(1, ViewType::Container), (2, ViewType::Text), (3, ViewType::Text)]);

    tree.set_root(NodeId(1));
    tree.append_child(NodeId(1), NodeId(2));
    tree.append_child(NodeId(1), NodeId(3));

    assert_eq!(tree.children_of(NodeId(1)), &[NodeId(2), NodeId(3)]);
    assert_eq!(tree.get(NodeId(2)).unwrap().parent, Some(NodeId(1)));
}

#[test]
fn test_ancestors() {
    let mut tree = tree_with(&[(1, ViewType::Container), (2, ViewType::Container), (3, ViewType::Text)]);

    tree.set_root(NodeId(1));
    tree.append_child(NodeId(1), NodeId(2));
    tree.append_child(NodeId(2), NodeId(3));

    assert!(tree.parent_chain_ends(NodeId(3)));
    let path = tree.ancestors(NodeId(3));
    assert_eq!(path, vec![NodeId(1), NodeId(2), NodeId(3)]);
}

#[test]
fn test_remove_subtree() {
    let mut tree = tree_with(&[(1, ViewType::Container), (2, ViewType::Container), (3, ViewType::Text)]);

    tree.append_child(NodeId(1), NodeId(2));
    tree.append_child(NodeId(2), NodeId(3));

    assert!(tree.can_remove_child(NodeId(1), NodeId(2)));
    tree.remove_child(NodeId(1), NodeId(2));

    assert_eq!(tree.len(), 1);
    assert!(tree.get(NodeId(2)).is_none());
    assert!(tree.get(NodeId(3)).is_none());
    assert!(tree.children_of(NodeId(1)).is_empty());
}

#[test]
fn append_child_twice_lists_once() {
    let mut tree = tree_with(&[(1, ViewType::Container), (2, ViewType::Text)]);
    tree.append_child(NodeId(1), NodeId(2));
    tree.append_child(NodeId(1), NodeId(2));
    assert_eq!(tree.children_of(NodeId(1)), &[NodeId(2)]);
}

#[test]
fn insert_before_places_child() {
    let mut tree = tree_with(&[(1, ViewType::Container), (2, ViewType::Text), (3, ViewType::Text), (4, ViewType::Text)]);
    tree.append_child(NodeId(1), NodeId(2));
    tree.append_child(NodeId(1), NodeId(3));
    tree.insert_before(NodeId(1), NodeId(4), NodeId(3));
    assert_eq!(tree.children_of(NodeId(1)), &[NodeId(2), NodeId(4), NodeId(3)]);
    assert_eq!(tree.get(NodeId(4)).unwrap().parent, Some(NodeId(1)));
    tree.create_node(NodeId(5), ViewType::Image, 0);
    tree.insert_before(NodeId(1), NodeId(5), NodeId(99));
    assert_eq!(tree.children_of(NodeId(1)), &[NodeId(2), NodeId(4), NodeId(3), NodeId(5)]);
}

#[test]
fn ancestors_of_detached_node_is_itself() {
    let tree = tree_with(&[(7, ViewType::Text)]);
    assert_eq!(tree.ancestors(NodeId(7)), vec![NodeId(7)]);
    assert_eq!(tree.ancestors(NodeId(42)), vec![NodeId(42)]);
}

#[test]
fn parent_loop_is_detected() {
    let mut tree = tree_with(&[(1, ViewType::Container), (2, ViewType::Container)]);
    tree.append_child(NodeId(1), NodeId(2));
    tree.append_child(NodeId(2), NodeId(1));
    assert!(!tree.parent_chain_ends(NodeId(1)));
    assert!(!tree.can_remove_child(NodeId(9), NodeId(1)));
    // Unlinking the loop's back edge lets the removal end.
    assert!(tree.can_remove_child(NodeId(2), NodeId(1)));
}

#[test]
fn data_handle_and_name_updates() {
    let mut tree = tree_with(&[(1, ViewType::Button)]);
    assert_eq!(tree.replace_data(NodeId(1), 5), Some(0));
    assert_eq!(tree.get(NodeId(1)).unwrap().data, 5);
    assert_eq!(tree.replace_data(NodeId(2), 9), None);
    tree.set_native_handle(NodeId(1), NativeHandle(77));
    assert_eq!(tree.get(NodeId(1)).unwrap().native_handle, Some(NativeHandle(77)));
    tree.set_component_name(NodeId(1), Some("Btn".into()));
    assert_eq!(tree.get(NodeId(1)).unwrap().component_name.as_deref(), Some("Btn"));
    assert_eq!(tree.root(), None);
    assert!(!tree.is_empty());
}

#[test]
fn node_ids_lists_each_node_once() {
    let tree = tree_with(&[(3, ViewType::Text), (1, ViewType::Text), (2, ViewType::Text)]);
    let mut ids: Vec<u64> = tree.node_ids().iter().map(|n| n.0).collect();
    ids.sort();
    assert_eq!(ids, vec![1, 2, 3]);
}

#[test]
fn removing_shared_descendants_ends() {
    let mut tree = tree_with(&[(1, ViewType::Container), (2, ViewType::Container), (3, ViewType::Container), (4, ViewType::Text)]);
    tree.append_child(NodeId(1), NodeId(2));
    tree.append_child(NodeId(2), NodeId(3));
    tree.append_child(NodeId(2), NodeId(4));
    tree.append_child(NodeId(3), NodeId(4));
    assert!(tree.can_remove_child(NodeId(1), NodeId(2)));
    tree.remove_child(NodeId(1), NodeId(2));
    assert_eq!(tree.len(), 1);
}

#[test]
fn mount_slot_finds_parent_view_and_index() {
    let mut tree: ShadowTree<u32> = ShadowTree::new();
    for id in 1..=3u64 {
        tree.create_node(NodeId(id), ViewType::Container, 0);
    }
    tree.append_child(NodeId(1), NodeId(2));
    tree.append_child(NodeId(1), NodeId(3));
    // the parent has no native view yet
    assert_eq!(tree.mount_slot(NodeId(3)), None);
    tree.set_native_handle(NodeId(1), NativeHandle(7));
    assert_eq!(tree.mount_slot(NodeId(3)), Some((NativeHandle(7), 1)));
    assert_eq!(tree.mount_slot(NodeId(2)), Some((NativeHandle(7), 0)));
    // the root has no parent; a missing node has no slot
    assert_eq!(tree.mount_slot(NodeId(1)), None);
    assert_eq!(tree.mount_slot(NodeId(9)), None);
}

use appscale_core::ai::hints::layout_findings;
use appscale_core::ai::snapshot::snapshot_tree_for_training;
use appscale_core::ai::LayoutHintType;
use appscale_core::platform::ViewType;
use appscale_core::tree::{NodeId, NodeProps, ShadowTree};
use std::collections::HashMap;

type Tree = ShadowTree<NodeProps<i32>>;

fn props(keys: &[&str]) -> NodeProps<i32> {
    let props: HashMap<String, i32> = keys.iter().map(|k| (k.to_string(), 1)).collect();
    NodeProps { props: props.clone(), pending_props: props }
}

fn node(tree: &mut Tree, id: u64, vt: ViewType, keys: &[&str]) {
    tree.create_node(NodeId(id), vt, props(keys));
}

#[test]
fn layout_analysis_empty_tree() {
    let tree: Tree = ShadowTree::new();
    assert!(layout_findings(&tree).is_empty());
}

#[test]
fn wrapper_below_root_is_reported() {
    let mut tree: Tree = ShadowTree::new();
    node(&mut tree, 1, ViewType::Container, &[]);
    node(&mut tree, 2, ViewType::Container, &[]);
    node(&mut tree, 3, ViewType::Text, &["text"]);
    tree.append_child(NodeId(1), NodeId(2));
    tree.append_child(NodeId(2), NodeId(3));
    tree.set_root(NodeId(1));
    let findings = layout_findings(&tree);
    // the root also wraps a single child, but the root is never reported
    assert_eq!(findings.len(), 1);
    assert_eq!(findings[0].node_id, 2);
    assert!(matches!(findings[0].hint_type, LayoutHintType::UnnecessaryWrapper));
    assert_eq!(findings[0].description, "View node 2 wraps a single child with no props — consider removing");
}

#[test]
fn wrapper_with_props_is_not_reported() {
    let mut tree: Tree = ShadowTree::new();
    node(&mut tree, 1, ViewType::Container, &[]);
    node(&mut tree, 2, ViewType::Container, &["style"]);
    node(&mut tree, 3, ViewType::Text, &[]);
    tree.append_child(NodeId(1), NodeId(2));
    tree.append_child(NodeId(2), NodeId(3));
    tree.set_root(NodeId(1));
    assert!(layout_findings(&tree).is_empty());
}

#[test]
fn large_list_and_deep_nesting_are_ranked_first() {
    let mut tree: Tree = ShadowTree::new();
    node(&mut tree, 1, ViewType::ScrollView, &[]);
    tree.set_root(NodeId(1));
    for c in 100..151u64 {
        node(&mut tree, c, ViewType::Text, &["text"]);
        tree.append_child(NodeId(1), NodeId(c));
    }
    // a chain of 11 plain views below the first row: depths 2 ..= 12
    let mut parent = 100u64;
    for c in 200..211u64 {
        node(&mut tree, c, ViewType::Container, &["style"]);
        tree.append_child(NodeId(parent), NodeId(c));
        parent = c;
    }
    let findings = layout_findings(&tree);
    assert_eq!(findings.len(), 2);
    assert_eq!(findings[0].node_id, 1);
    assert!(matches!(findings[0].hint_type, LayoutHintType::UnoptimizedList { child_count: 51 }));
    assert_eq!(findings[0].description, "ScrollView node 1 has 51 children — consider FlatList with recycling");
    // depth 10 is reached at the ninth node of the chain
    assert_eq!(findings[1].node_id, 208);
    assert!(matches!(findings[1].hint_type, LayoutHintType::DeepNesting { depth: 10 }));
    assert_eq!(findings[1].description, "Node 208 is nested 10 levels deep — consider flattening with flexbox");
}

#[test]
fn walk_guard_detects_a_loop() {
    let mut tree: Tree = ShadowTree::new();
    node(&mut tree, 1, ViewType::Container, &[]);
    node(&mut tree, 2, ViewType::Container, &[]);
    tree.append_child(NodeId(1), NodeId(2));
    tree.append_child(NodeId(2), NodeId(1));
    tree.set_root(NodeId(1));
    assert!(!tree.walks_end_within(NodeId(1), tree.len() as u64 + 1));
    let mut ok: Tree = ShadowTree::new();
    node(&mut ok, 1, ViewType::Container, &[]);
    assert!(ok.walks_end_within(NodeId(1), 2));
    assert!(!ok.walks_end_within(NodeId(1), 0));
}

#[test]
fn training_snapshot_walks_in_order() {
    let mut tree: Tree = ShadowTree::new();
    node(&mut tree, 1, ViewType::Container, &["a", "b"]);
    node(&mut tree, 2, ViewType::Text, &["text"]);
    node(&mut tree, 3, ViewType::Custom("Video".to_string()), &[]);
    node(&mut tree, 4, ViewType::Image, &[]);
    tree.append_child(NodeId(1), NodeId(2));
    tree.append_child(NodeId(1), NodeId(4));
    tree.append_child(NodeId(2), NodeId(3));
    tree.set_root(NodeId(1));
    let snap = snapshot_tree_for_training(&tree);
    assert_eq!(snap.root_id, Some(1));
    let ids: Vec<u64> = snap.nodes.iter().map(|n| n.id).collect();
    assert_eq!(ids, vec![1, 2, 3, 4]);
    let depths: Vec<u32> = snap.nodes.iter().map(|n| n.depth).collect();
    assert_eq!(depths, vec![0, 1, 2, 1]);
    assert_eq!(snap.nodes[0].children, vec![2, 4]);
    assert_eq!(snap.nodes[0].prop_count, 2);
    assert_eq!(snap.nodes[0].view_type, "Container");
    assert_eq!(snap.nodes[2].view_type, "Custom(\"Video\")");
}

#[test]
fn training_snapshot_of_empty_tree() {
    let tree: Tree = ShadowTree::new();
    let snap = snapshot_tree_for_training(&tree);
    assert!(snap.nodes.is_empty());
    assert_eq!(snap.root_id, None);
}

//! The shape of a shadow tree as training data records it: every node
//! reachable from the root, in walk order, with its depth.

use vstd::prelude::*;
use crate::ai::{TreeNodeSnapshot, TreeSnapshot};
use crate::platform::view_type_name;
use crate::tree::{depth_within, links, NodeId, NodeProps, ShadowTree};
use crate::tree::walk::{collect, collect_list, lemma_collect_list_step};
use crate::ai::hints::Nodes;

verus! {

/// A node snapshot as plain values: id, view type name, child ids, number of
/// props and depth.
pub type NodeRecord = (u64, Seq<char>, Seq<u64>, u32, u32);

impl View for TreeNodeSnapshot {
    type V = NodeRecord;

    open spec fn view(&self) -> NodeRecord {
        (self.id, self.view_type@, self.children@, self.prop_count, self.depth)
    }
}

pub open spec fn record_views(s: Seq<TreeNodeSnapshot>) -> Seq<NodeRecord> {
    s.map_values(|n: TreeNodeSnapshot| n@)
}

pub open spec fn child_numbers(cs: Seq<NodeId>) -> Seq<u64> {
    cs.map_values(|c: NodeId| c.0)
}

/// What one node contributes to the snapshot.
pub open spec fn node_record<V>(m: Nodes<V>) -> spec_fn(u64, nat) -> Seq<NodeRecord> {
    |k: u64, d: nat|
        seq![
            (
                k,
                view_type_name(m[k].view_type),
                child_numbers(m[k].children@),
                m[k].data.props.len() as u32,
                d as u32,
            ),
        ]
}

/// Fuel enough to walk every path down from `k`, and small enough that every
/// depth fits in a `u32`.
pub open spec fn snapshot_fuel<V>(m: Nodes<V>, k: u64) -> nat {
    choose|h: nat| h <= u32::MAX && depth_within(links(m), k, h)
}

/// The nodes of the snapshot: those reachable from the root, in walk order.
pub open spec fn snapshot_records<V>(m: Nodes<V>, root: Option<NodeId>) -> Seq<NodeRecord> {
    match root {
        None => Seq::empty(),
        Some(r) => collect(m, r.0, 0, snapshot_fuel(m, r.0), node_record(m)),
    }
}

fn child_ids(cs: &Vec<NodeId>) -> (r: Vec<u64>)
    ensures
        r@ == child_numbers(cs@),
{
    let mut r: Vec<u64> = Vec::new();
    let mut i: usize = 0;
    while i < cs.len()
        invariant
            i <= cs@.len(),
            r@ == child_numbers(cs@.take(i as int)),
        decreases cs@.len() - i,
    {
        r.push(cs[i].0);
        assert(child_numbers(cs@.take(i + 1)) =~= child_numbers(cs@.take(i as int)).push(cs@[i as int].0));
        i = i + 1;
    }
    assert(cs@.take(cs@.len() as int) =~= cs@);
    r
}

proof fn lemma_push_record(s: Seq<TreeNodeSnapshot>, n: TreeNodeSnapshot)
    ensures
        record_views(s.push(n)) == record_views(s).push(n@),
{
    assert(record_views(s.push(n)) =~= record_views(s).push(n@));
}

fn walk_snapshot<V>(
    tree: &ShadowTree<NodeProps<V>>,
    k: NodeId,
    depth: u32,
    Ghost(h): Ghost<nat>,
    out: &mut Vec<TreeNodeSnapshot>,
)
    requires
        depth_within(links(tree.nodes()), k.0, h),
        depth + h <= u32::MAX,
    ensures
        record_views(final(out)@) == record_views(old(out)@) + collect(
            tree.nodes(),
            k.0,
            depth as nat,
            h,
            node_record(tree.nodes()),
        ),
    decreases h,
{
    let ghost m = tree.nodes();
    let ghost f = node_record(m);
    match tree.get(k) {
        None => {
            assert(record_views(out@) =~= record_views(out@) + Seq::<NodeRecord>::empty());
        },
        Some(node) => {
            assert(links(m)[k.0] == node.children@);
            let record = TreeNodeSnapshot {
                id: k.0,
                view_type: node.view_type.debug_name(),
                children: child_ids(&node.children),
                prop_count: node.data.props.len() as u32,
                depth,
            };
            proof {
                lemma_push_record(out@, record);
            }
            out.push(record);
            let ghost base = record_views(old(out)@) + f(k.0, depth as nat);
            assert(record_views(out@) =~= base);
            let mut i: usize = 0;
            while i < node.children.len()
                invariant
                    i <= node.children@.len(),
                    h > 0,
                    depth + h <= u32::MAX,
                    m == tree.nodes(),
                    f == node_record(m),
                    m.contains_key(k.0),
                    node.children@ == links(m)[k.0],
                    depth_within(links(m), k.0, h),
                    record_views(out@) == base + collect_list(m, node.children@.take(i as int), (depth + 1) as nat, (h - 1) as nat, f),
                decreases node.children@.len() - i,
            {
                assert(depth_within(links(m), links(m)[k.0][i as int].0, (h - 1) as nat));
                proof {
                    lemma_collect_list_step(m, node.children@, i as int, (depth + 1) as nat, (h - 1) as nat, f);
                }
                walk_snapshot(tree, node.children[i], depth + 1, Ghost((h - 1) as nat), out);
                assert(record_views(out@) =~= base + collect_list(m, node.children@.take(i + 1), (depth + 1) as nat, (h - 1) as nat, f));
                i = i + 1;
            }
            assert(node.children@.take(node.children@.len() as int) =~= node.children@);
        },
    }
}

/// The training snapshot of a tree: its nodes reachable from the root in
/// walk order (see `snapshot_records`) and the root's id. Every walk down
/// from the root must end within `u32::MAX` steps.
pub fn snapshot_tree_for_training<V>(tree: &ShadowTree<NodeProps<V>>) -> (r: TreeSnapshot)
    requires
        tree.root_id() matches Some(root) ==> exists|h: nat| h <= u32::MAX && depth_within(links(tree.nodes()), root.0, h),
    ensures
        record_views(r.nodes@) == snapshot_records(tree.nodes(), tree.root_id()),
        r.root_id == (match tree.root_id() {
            Some(root) => Some(root.0),
            None => None,
        }),
{
    let mut nodes: Vec<TreeNodeSnapshot> = Vec::new();
    match tree.root() {
        None => {
            assert(record_views(nodes@) =~= Seq::<NodeRecord>::empty());
            TreeSnapshot { nodes, root_id: None }
        },
        Some(root) => {
            let ghost m = tree.nodes();
            let ghost h = snapshot_fuel(m, root.0);
            assert(h <= u32::MAX && depth_within(links(m), root.0, h));
            assert(record_views(nodes@) =~= Seq::<NodeRecord>::empty());
            walk_snapshot(tree, root, 0, Ghost(h), &mut nodes);
            assert(record_views(nodes@) =~= snapshot_records(m, Some(root)));
            TreeSnapshot { nodes, root_id: Some(root.0) }
        },
    }
}

} // verus!

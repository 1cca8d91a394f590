//! Layout hints: the nodes of a shadow tree whose layout could be simpler,
//! found by walking the tree from its root.

use vstd::prelude::*;
use crate::ai::LayoutHintType;
use crate::platform::ViewType;
use crate::text::{append_decimal, decimal};
use crate::tree::{depth_within, links, NodeId, NodeProps, ShadowNode, ShadowTree};
use crate::tree::walk::{collect, collect_list, lemma_collect_list_step};

verus! {

/// Nesting this deep is reported (and not looked below).
pub const DEEP_THRESHOLD: u32 = 10;

/// A container with more direct children than this is reported as a list.
pub const LARGE_LIST_THRESHOLD: usize = 50;

pub const WRAPPER_TAIL: &'static str = " wraps a single child with no props — consider removing";

pub const NESTED_TAIL: &'static str = " levels deep — consider flattening with flexbox";

pub const LIST_TAIL: &'static str = " children — consider FlatList with recycling";

/// A layout hint for one node, before it is ranked by impact.
#[derive(Debug, Clone)]
pub struct LayoutFinding {
    pub node_id: u64,
    pub hint_type: LayoutHintType,
    pub description: String,
}

impl View for LayoutFinding {
    type V = (u64, LayoutHintType, Seq<char>);

    open spec fn view(&self) -> (u64, LayoutHintType, Seq<char>) {
        (self.node_id, self.hint_type, self.description@)
    }
}

pub open spec fn finding_views(s: Seq<LayoutFinding>) -> Seq<(u64, LayoutHintType, Seq<char>)> {
    s.map_values(|f: LayoutFinding| f@)
}

/// The node map of a tree whose nodes hold props.
pub type Nodes<V> = Map<u64, ShadowNode<NodeProps<V>>>;

/// A plain view with exactly one child, no props, and not the root: it could
/// be removed.
pub open spec fn wrapper_hint<V>(m: Nodes<V>, root: Option<NodeId>) -> spec_fn(u64, nat) -> Seq<(u64, LayoutHintType, Seq<char>)> {
    |k: u64, d: nat|
        if m[k].view_type is Container && m[k].children@.len() == 1 && m[k].data.props@.is_empty()
            && root != Some(NodeId(k)) {
            seq![(k, LayoutHintType::UnnecessaryWrapper, "View node "@ + decimal(k as nat) + WRAPPER_TAIL@)]
        } else {
            Seq::empty()
        }
}

/// The debug name of a view type that holds lists.
pub open spec fn list_holder_name(vt: ViewType) -> Seq<char> {
    if vt is ScrollView {
        "ScrollView"@
    } else {
        "Container"@
    }
}

/// A scroll view or plain view with many direct children: a list that could
/// recycle its rows.
pub open spec fn list_hint<V>(m: Nodes<V>) -> spec_fn(u64, nat) -> Seq<(u64, LayoutHintType, Seq<char>)> {
    |k: u64, d: nat|
        if (m[k].view_type is ScrollView || m[k].view_type is Container) && m[k].children@.len()
            > LARGE_LIST_THRESHOLD {
            seq![
                (
                    k,
                    LayoutHintType::UnoptimizedList { child_count: m[k].children@.len() as u32 },
                    list_holder_name(m[k].view_type) + " node "@ + decimal(k as nat) + " has "@
                        + decimal(m[k].children@.len()) + LIST_TAIL@,
                ),
            ]
        } else {
            Seq::empty()
        }
}

/// The hint for a node nested at the reporting depth.
pub open spec fn deep_hint(k: u64) -> (u64, LayoutHintType, Seq<char>) {
    (
        k,
        LayoutHintType::DeepNesting { depth: DEEP_THRESHOLD },
        "Node "@ + decimal(k as nat) + " is nested "@ + decimal(DEEP_THRESHOLD as nat) + NESTED_TAIL@,
    )
}

/// The nodes `left` levels above the reporting depth below `k` (or `k`
/// itself when `left` is zero), in walk order: each is reported and nothing
/// below it is looked at.
pub open spec fn deep_hints<V>(m: Nodes<V>, k: u64, left: nat) -> Seq<(u64, LayoutHintType, Seq<char>)>
    decreases left, 0nat,
{
    if left == 0 {
        seq![deep_hint(k)]
    } else if !m.contains_key(k) {
        Seq::empty()
    } else {
        deep_hints_list(m, m[k].children@, (left - 1) as nat)
    }
}

pub open spec fn deep_hints_list<V>(m: Nodes<V>, cs: Seq<NodeId>, left: nat) -> Seq<(u64, LayoutHintType, Seq<char>)>
    decreases left, cs.len(),
{
    if cs.len() == 0 {
        Seq::empty()
    } else {
        deep_hints_list(m, cs.drop_last(), left) + deep_hints(m, cs.last().0, left)
    }
}

/// Fuel enough to walk every path down from `k`.
pub open spec fn walk_fuel<V>(m: Nodes<V>, k: u64) -> nat {
    choose|h: nat| depth_within(links(m), k, h)
}

/// The hints for a tree, most impactful kind first: lists, then deep
/// nesting, then needless wrappers; within a kind, in walk order.
pub open spec fn findings<V>(m: Nodes<V>, root: Option<NodeId>) -> Seq<(u64, LayoutHintType, Seq<char>)> {
    match root {
        None => Seq::empty(),
        Some(r) => {
            let h = walk_fuel(m, r.0);
            collect(m, r.0, 0, h, list_hint(m)) + deep_hints(m, r.0, DEEP_THRESHOLD as nat)
                + collect(m, r.0, 0, h, wrapper_hint(m, root))
        },
    }
}

proof fn lemma_push_view(s: Seq<LayoutFinding>, f: LayoutFinding)
    ensures
        finding_views(s.push(f)) == finding_views(s).push(f@),
{
    assert(finding_views(s.push(f)) =~= finding_views(s).push(f@));
}

fn wrapper_description(k: u64) -> (s: String)
    ensures
        s@ == "View node "@ + decimal(k as nat) + WRAPPER_TAIL@,
{
    let mut s = String::from_str("View node ");
    append_decimal(&mut s, k);
    s.append(WRAPPER_TAIL);
    s
}

fn walk_wrappers<V>(
    tree: &ShadowTree<NodeProps<V>>,
    k: NodeId,
    root: Option<NodeId>,
    Ghost(d): Ghost<nat>,
    Ghost(h): Ghost<nat>,
    out: &mut Vec<LayoutFinding>,
)
    requires
        depth_within(links(tree.nodes()), k.0, h),
    ensures
        finding_views(final(out)@) == finding_views(old(out)@) + collect(
            tree.nodes(),
            k.0,
            d,
            h,
            wrapper_hint(tree.nodes(), root),
        ),
    decreases h,
{
    let ghost m = tree.nodes();
    let ghost f = wrapper_hint(m, root);
    match tree.get(k) {
        None => {
            assert(finding_views(out@) =~= finding_views(out@) + Seq::<(u64, LayoutHintType, Seq<char>)>::empty());
        },
        Some(node) => {
            assert(links(m)[k.0] == node.children@);
            let not_root = match root {
                Some(r) => r.0 != k.0,
                None => true,
            };
            if matches!(node.view_type, ViewType::Container) && node.children.len() == 1
                && node.data.props.is_empty() && not_root {
                let finding = LayoutFinding {
                    node_id: k.0,
                    hint_type: LayoutHintType::UnnecessaryWrapper,
                    description: wrapper_description(k.0),
                };
                proof {
                    lemma_push_view(out@, finding);
                }
                out.push(finding);
            }
            let ghost base = finding_views(old(out)@) + f(k.0, d);
            assert(finding_views(out@) == base);
            let mut i: usize = 0;
            while i < node.children.len()
                invariant
                    i <= node.children@.len(),
                    h > 0,
                    m == tree.nodes(),
                    f == wrapper_hint(m, root),
                    m.contains_key(k.0),
                    node.children@ == links(m)[k.0],
                    depth_within(links(m), k.0, h),
                    finding_views(out@) == base + collect_list(m, node.children@.take(i as int), d + 1, (h - 1) as nat, f),
                decreases node.children@.len() - i,
            {
                assert(depth_within(links(m), links(m)[k.0][i as int].0, (h - 1) as nat));
                let ghost before = finding_views(out@);
                proof {
                    lemma_collect_list_step(m, node.children@, i as int, d + 1, (h - 1) as nat, f);
                }
                walk_wrappers(tree, node.children[i], root, Ghost(d + 1), Ghost((h - 1) as nat), out);
                assert(finding_views(out@) =~= base + collect_list(m, node.children@.take(i + 1), d + 1, (h - 1) as nat, f));
                i = i + 1;
            }
            assert(node.children@.take(node.children@.len() as int) =~= node.children@);
        },
    }
}

fn list_description(vt: &ViewType, k: u64, n: usize) -> (s: String)
    requires
        vt is ScrollView || vt is Container,
    ensures
        s@ == list_holder_name(*vt) + " node "@ + decimal(k as nat) + " has "@ + decimal(n as nat) + LIST_TAIL@,
{
    let mut s = if matches!(vt, ViewType::ScrollView) {
        String::from_str("ScrollView")
    } else {
        String::from_str("Container")
    };
    s.append(" node ");
    append_decimal(&mut s, k);
    s.append(" has ");
    append_decimal(&mut s, n as u64);
    s.append(LIST_TAIL);
    s
}

fn walk_lists<V>(
    tree: &ShadowTree<NodeProps<V>>,
    k: NodeId,
    Ghost(d): Ghost<nat>,
    Ghost(h): Ghost<nat>,
    out: &mut Vec<LayoutFinding>,
)
    requires
        depth_within(links(tree.nodes()), k.0, h),
    ensures
        finding_views(final(out)@) == finding_views(old(out)@) + collect(tree.nodes(), k.0, d, h, list_hint(tree.nodes())),
    decreases h,
{
    let ghost m = tree.nodes();
    let ghost f = list_hint(m);
    match tree.get(k) {
        None => {
            assert(finding_views(out@) =~= finding_views(out@) + Seq::<(u64, LayoutHintType, Seq<char>)>::empty());
        },
        Some(node) => {
            assert(links(m)[k.0] == node.children@);
            let n = node.children.len();
            if (matches!(node.view_type, ViewType::ScrollView) || matches!(node.view_type, ViewType::Container))
                && n > LARGE_LIST_THRESHOLD {
                let finding = LayoutFinding {
                    node_id: k.0,
                    hint_type: LayoutHintType::UnoptimizedList { child_count: n as u32 },
                    description: list_description(&node.view_type, k.0, n),
                };
                proof {
                    lemma_push_view(out@, finding);
                }
                out.push(finding);
            }
            let ghost base = finding_views(old(out)@) + f(k.0, d);
            assert(finding_views(out@) == base);
            let mut i: usize = 0;
            while i < node.children.len()
                invariant
                    i <= node.children@.len(),
                    h > 0,
                    m == tree.nodes(),
                    f == list_hint(m),
                    m.contains_key(k.0),
                    node.children@ == links(m)[k.0],
                    depth_within(links(m), k.0, h),
                    finding_views(out@) == base + collect_list(m, node.children@.take(i as int), d + 1, (h - 1) as nat, f),
                decreases node.children@.len() - i,
            {
                assert(depth_within(links(m), links(m)[k.0][i as int].0, (h - 1) as nat));
                proof {
                    lemma_collect_list_step(m, node.children@, i as int, d + 1, (h - 1) as nat, f);
                }
                walk_lists(tree, node.children[i], Ghost(d + 1), Ghost((h - 1) as nat), out);
                assert(finding_views(out@) =~= base + collect_list(m, node.children@.take(i + 1), d + 1, (h - 1) as nat, f));
                i = i + 1;
            }
            assert(node.children@.take(node.children@.len() as int) =~= node.children@);
        },
    }
}

fn deep_description(k: u64) -> (s: String)
    ensures
        s@ == deep_hint(k).2,
{
    let mut s = String::from_str("Node ");
    append_decimal(&mut s, k);
    s.append(" is nested ");
    append_decimal(&mut s, DEEP_THRESHOLD as u64);
    s.append(NESTED_TAIL);
    s
}

proof fn lemma_deep_list_step<V>(m: Nodes<V>, cs: Seq<NodeId>, i: int, left: nat)
    requires
        0 <= i < cs.len(),
    ensures
        deep_hints_list(m, cs.take(i + 1), left) == deep_hints_list(m, cs.take(i), left) + deep_hints(m, cs[i].0, left),
{
    assert(cs.take(i + 1).drop_last() =~= cs.take(i));
    assert(cs.take(i + 1).last() == cs[i]);
}

fn walk_deep<V>(tree: &ShadowTree<NodeProps<V>>, k: NodeId, depth: u32, out: &mut Vec<LayoutFinding>)
    requires
        depth <= DEEP_THRESHOLD,
    ensures
        finding_views(final(out)@) == finding_views(old(out)@) + deep_hints(
            tree.nodes(),
            k.0,
            (DEEP_THRESHOLD - depth) as nat,
        ),
    decreases DEEP_THRESHOLD - depth,
{
    let ghost m = tree.nodes();
    let ghost left = (DEEP_THRESHOLD - depth) as nat;
    if depth >= DEEP_THRESHOLD {
        let finding = LayoutFinding {
            node_id: k.0,
            hint_type: LayoutHintType::DeepNesting { depth },
            description: deep_description(k.0),
        };
        proof {
            lemma_push_view(out@, finding);
        }
        out.push(finding);
        return;
    }
    match tree.get(k) {
        None => {
            assert(finding_views(out@) =~= finding_views(out@) + Seq::<(u64, LayoutHintType, Seq<char>)>::empty());
        },
        Some(node) => {
            let ghost base = finding_views(old(out)@);
            let mut i: usize = 0;
            while i < node.children.len()
                invariant
                    i <= node.children@.len(),
                    depth < DEEP_THRESHOLD,
                    m == tree.nodes(),
                    m.contains_key(k.0),
                    node.children@ == m[k.0].children@,
                    left == (DEEP_THRESHOLD - depth) as nat,
                    finding_views(out@) == base + deep_hints_list(m, node.children@.take(i as int), (left - 1) as nat),
                decreases node.children@.len() - i,
            {
                proof {
                    lemma_deep_list_step(m, node.children@, i as int, (left - 1) as nat);
                }
                walk_deep(tree, node.children[i], depth + 1, out);
                assert(finding_views(out@) =~= base + deep_hints_list(m, node.children@.take(i + 1), (left - 1) as nat));
                i = i + 1;
            }
            assert(node.children@.take(node.children@.len() as int) =~= node.children@);
        },
    }
}

/// Layout hints for the tree, most impactful kind first: lists, then deep
/// nesting, then needless wrappers (see `findings`). Every walk down from the
/// root must end.
pub fn layout_findings<V>(tree: &ShadowTree<NodeProps<V>>) -> (r: Vec<LayoutFinding>)
    requires
        tree.root_id() matches Some(root) ==> exists|h: nat| depth_within(links(tree.nodes()), root.0, h),
    ensures
        finding_views(r@) == findings(tree.nodes(), tree.root_id()),
{
    let mut out: Vec<LayoutFinding> = Vec::new();
    match tree.root() {
        None => {
            assert(finding_views(out@) =~= Seq::<(u64, LayoutHintType, Seq<char>)>::empty());
        },
        Some(root) => {
            let ghost m = tree.nodes();
            let ghost h = walk_fuel(m, root.0);
            assert(depth_within(links(m), root.0, h));
            assert(finding_views(out@) =~= Seq::<(u64, LayoutHintType, Seq<char>)>::empty());
            walk_lists(tree, root, Ghost(0), Ghost(h), &mut out);
            walk_deep(tree, root, 0, &mut out);
            walk_wrappers(tree, root, Some(root), Ghost(0), Ghost(h), &mut out);
            assert(finding_views(out@) =~= findings(m, Some(root)));
        },
    }
    out
}

} // verus!

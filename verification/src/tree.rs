//! The shadow tree: the engine's own record of which nodes exist, how they
//! are linked as parents and children, and which native view shows each.

use vstd::prelude::*;
use std::collections::HashMap;
use std::hash::BuildHasherDefault;
use rustc_hash::{FxHashMap, FxHasher};
use crate::platform::{NativeHandle, ViewType};

pub mod bounds;
pub mod walk;

use bounds::{lemma_depth_bound, lemma_parent_chain_bound};

verus! {

broadcast use vstd::std_specs::hash::group_hash_axioms;

/// Unique identifier for a node in the shadow tree.
/// Assigned by the reconciler and passed through IR.
#[derive(Debug, Clone, Copy, PartialEq, Eq, Hash, Structural)]
pub struct NodeId(pub u64);

/// `i` is the first position of `x` in `s`.
pub open spec fn is_first_index(s: Seq<NodeId>, x: NodeId, i: int) -> bool {
    &&& 0 <= i < s.len()
    &&& s[i] == x
    &&& forall|j: int| 0 <= j < i ==> s[j] != x
}

/// The first position of `x` in `s`, if any.
pub open spec fn first_index(s: Seq<NodeId>, x: NodeId) -> Option<int> {
    if exists|i: int| is_first_index(s, x, i) {
        Some(choose|i: int| is_first_index(s, x, i))
    } else {
        None
    }
}

/// The first position is the one that nothing equal precedes.
pub proof fn lemma_first_index_is(s: Seq<NodeId>, x: NodeId, i: int)
    requires
        is_first_index(s, x, i),
    ensures
        first_index(s, x) == Some(i),
{
    let c = choose|k: int| is_first_index(s, x, k);
    assert(is_first_index(s, x, c));
    if c < i {
        assert(s[c] != x);
    } else if c > i {
        assert(s[i] != x);
    }
}

pub fn position_of(v: &Vec<NodeId>, x: NodeId) -> (r: Option<usize>)
    ensures
        match r {
            Some(i) => first_index(v@, x) == Some(i as int),
            None => first_index(v@, x) is None,
        },
{
    let mut i: usize = 0;
    while i < v.len()
        invariant
            i <= v@.len(),
            forall|j: int| 0 <= j < i ==> v@[j] != x,
        decreases v@.len() - i,
    {
        if v[i] == x {
            proof {
                lemma_first_index_is(v@, x, i as int);
            }
            return Some(i);
        }
        i = i + 1;
    }
    assert(!exists|k: int| is_first_index(v@, x, k));
    None
}

/// A node of the shadow tree. `data` holds what the engine keeps for the node
/// besides its links: its props and the props still to be mounted.
#[derive(Debug, Clone)]
pub struct ShadowNode<P> {
    pub id: NodeId,
    pub view_type: ViewType,
    pub parent: Option<NodeId>,
    pub children: Vec<NodeId>,
    pub native_handle: Option<NativeHandle>,
    /// Component name from React (for DevTools).
    pub component_name: Option<String>,
    pub data: P,
}

/// What the engine keeps on a node besides its links: its current props, and
/// the props changed since the node was last mounted.
#[derive(Debug, Clone)]
pub struct NodeProps<V> {
    pub props: HashMap<String, V>,
    pub pending_props: HashMap<String, V>,
}

/// `b` is `a` with parent `parent` and children `children`; every other field is kept.
pub open spec fn relinked<P>(a: ShadowNode<P>, b: ShadowNode<P>, parent: Option<NodeId>, children: Seq<NodeId>) -> bool {
    &&& b.id == a.id
    &&& b.view_type == a.view_type
    &&& b.native_handle == a.native_handle
    &&& b.component_name == a.component_name
    &&& b.data == a.data
    &&& b.parent == parent
    &&& b.children@ == children
}

/// `s` with `c` added at the end, unless it is there already.
pub open spec fn with_child(s: Seq<NodeId>, c: NodeId) -> Seq<NodeId> {
    if s.contains(c) {
        s
    } else {
        s.push(c)
    }
}

/// `s` with `c` inserted before the first `b`, or at the end when there is no `b`.
pub open spec fn with_child_before(s: Seq<NodeId>, c: NodeId, b: NodeId) -> Seq<NodeId> {
    match first_index(s, b) {
        Some(i) => s.insert(i, c),
        None => s.push(c),
    }
}

/// `s` without any `c`.
pub open spec fn without_child(s: Seq<NodeId>, c: NodeId) -> Seq<NodeId>
    decreases s.len(),
{
    if s.len() == 0 {
        s
    } else {
        let rest = without_child(s.drop_last(), c);
        if s.last() == c {
            rest
        } else {
            rest.push(s.last())
        }
    }
}

/// The parent recorded for `k` in `m`: none for a node that is not there.
pub open spec fn parent_in<P>(m: Map<u64, ShadowNode<P>>, k: u64) -> Option<NodeId> {
    if m.contains_key(k) {
        m[k].parent
    } else {
        None
    }
}

/// Following parents up from `k` ends, within `n` steps, at a node without a
/// parent or at an id that is not in `m`.
pub open spec fn reaches_top<P>(m: Map<u64, ShadowNode<P>>, k: u64, n: nat) -> bool
    decreases n,
{
    n > 0 && match parent_in(m, k) {
        None => true,
        Some(p) => reaches_top(m, p.0, (n - 1) as nat),
    }
}

/// The ids from the top down to `k`, following parents up for at most `n` steps.
pub open spec fn path_to<P>(m: Map<u64, ShadowNode<P>>, k: u64, n: nat) -> Seq<NodeId>
    decreases n,
{
    if n == 0 {
        Seq::empty()
    } else {
        match parent_in(m, k) {
            None => seq![NodeId(k)],
            Some(p) => path_to(m, p.0, (n - 1) as nat).push(NodeId(k)),
        }
    }
}

/// Once the top is reached, more steps change nothing.
proof fn lemma_path_to_stable<P>(m: Map<u64, ShadowNode<P>>, k: u64, n: nat, n2: nat)
    requires
        reaches_top(m, k, n),
        n <= n2,
    ensures
        reaches_top(m, k, n2),
        path_to(m, k, n) == path_to(m, k, n2),
    decreases n,
{
    match parent_in(m, k) {
        None => {},
        Some(p) => {
            lemma_path_to_stable(m, p.0, (n - 1) as nat, (n2 - 1) as nat);
        },
    }
}

/// The children links of the nodes of `m`, by id.
pub open spec fn links<P>(m: Map<u64, ShadowNode<P>>) -> Map<u64, Seq<NodeId>> {
    m.map_values(|n: ShadowNode<P>| n.children@)
}

/// `to` is `from`, or is found within `n` steps down the children links of `g`.
pub open spec fn reach_within(g: Map<u64, Seq<NodeId>>, from: u64, to: u64, n: nat) -> bool
    decreases n,
{
    from == to || (n > 0 && g.contains_key(from) && exists|i: int|
        0 <= i < g[from].len() && reach_within(g, (#[trigger] g[from][i]).0, to, (n - 1) as nat))
}

/// `to` is `from` or lies below it.
pub open spec fn reachable(g: Map<u64, Seq<NodeId>>, from: u64, to: u64) -> bool {
    exists|n: nat| #[trigger] reach_within(g, from, to, n)
}

/// The ids at or below `k`: what removing `k` takes away.
pub open spec fn subtree(g: Map<u64, Seq<NodeId>>, k: u64) -> Set<u64> {
    Set::new(|z: u64| reachable(g, k, z))
}

/// Every walk down the children links from `k` ends within `h` steps.
pub open spec fn depth_within(g: Map<u64, Seq<NodeId>>, k: u64, h: nat) -> bool
    decreases h,
{
    !g.contains_key(k) || (h > 0 && forall|i: int|
        0 <= i < g[k].len() ==> depth_within(g, (#[trigger] g[k][i]).0, (h - 1) as nat))
}

/// Nothing below a member of `s` lies outside `s`.
pub open spec fn closed_below(g: Map<u64, Seq<NodeId>>, s: Set<u64>) -> bool {
    forall|x: u64, z: u64| #[trigger] s.contains(x) && #[trigger] reachable(g, x, z) ==> s.contains(z)
}

proof fn lemma_reach_more_fuel(g: Map<u64, Seq<NodeId>>, x: u64, z: u64, n: nat, n2: nat)
    requires
        reach_within(g, x, z, n),
        n <= n2,
    ensures
        reach_within(g, x, z, n2),
    decreases n,
{
    if x != z {
        let i = choose|i: int| 0 <= i < g[x].len() && reach_within(g, (#[trigger] g[x][i]).0, z, (n - 1) as nat);
        lemma_reach_more_fuel(g, g[x][i].0, z, (n - 1) as nat, (n2 - 1) as nat);
    }
}

proof fn lemma_reach_trans(g: Map<u64, Seq<NodeId>>, a: u64, b: u64, c: u64, n1: nat, n2: nat)
    requires
        reach_within(g, a, b, n1),
        reach_within(g, b, c, n2),
    ensures
        reach_within(g, a, c, n1 + n2),
    decreases n1,
{
    if a == b {
        lemma_reach_more_fuel(g, b, c, n2, n1 + n2);
    } else if a != c {
        let i = choose|i: int| 0 <= i < g[a].len() && reach_within(g, (#[trigger] g[a][i]).0, b, (n1 - 1) as nat);
        lemma_reach_trans(g, g[a][i].0, b, c, (n1 - 1) as nat, n2);
        assert(reach_within(g, g[a][i].0, c, ((n1 + n2) - 1) as nat));
    }
}

/// A walk after some nodes are removed was a walk before.
proof fn lemma_reach_after_removal(g: Map<u64, Seq<NodeId>>, s: Set<u64>, x: u64, z: u64, n: nat)
    requires
        reach_within(g.remove_keys(s), x, z, n),
    ensures
        reach_within(g, x, z, n),
    decreases n,
{
    let g2 = g.remove_keys(s);
    if x != z {
        let i = choose|i: int| 0 <= i < g2[x].len() && reach_within(g2, (#[trigger] g2[x][i]).0, z, (n - 1) as nat);
        lemma_reach_after_removal(g, s, g2[x][i].0, z, (n - 1) as nat);
        assert(g[x][i] == g2[x][i]);
    }
}

/// Removing a set closed below keeps every walk that ends outside it.
proof fn lemma_reach_kept(g: Map<u64, Seq<NodeId>>, s: Set<u64>, x: u64, z: u64, n: nat)
    requires
        closed_below(g, s),
        reach_within(g, x, z, n),
        !s.contains(z),
    ensures
        reach_within(g.remove_keys(s), x, z, n),
    decreases n,
{
    let g2 = g.remove_keys(s);
    if x != z {
        if s.contains(x) {
            assert(reachable(g, x, z));
        }
        let i = choose|i: int| 0 <= i < g[x].len() && reach_within(g, (#[trigger] g[x][i]).0, z, (n - 1) as nat);
        lemma_reach_kept(g, s, g[x][i].0, z, (n - 1) as nat);
        assert(g2[x][i] == g[x][i]);
    }
}

proof fn lemma_depth_after_removal(g: Map<u64, Seq<NodeId>>, s: Set<u64>, k: u64, h: nat)
    requires
        depth_within(g, k, h),
    ensures
        depth_within(g.remove_keys(s), k, h),
    decreases h,
{
    let g2 = g.remove_keys(s);
    if g2.contains_key(k) {
        assert forall|i: int| 0 <= i < g2[k].len() implies depth_within(g2, (#[trigger] g2[k][i]).0, (h - 1) as nat) by {
            assert(g2[k][i] == g[k][i]);
            lemma_depth_after_removal(g, s, g[k][i].0, (h - 1) as nat);
        }
    }
}

/// What lies at or below `k`: `k` itself and what lies at or below its children.
proof fn lemma_subtree_unfold(g: Map<u64, Seq<NodeId>>, k: u64)
    ensures
        subtree(g, k) == if g.contains_key(k) {
            Set::new(|z: u64| z == k || exists|i: int| 0 <= i < g[k].len() && #[trigger] reachable(g, g[k][i].0, z))
        } else {
            set![k]
        },
{
    if g.contains_key(k) {
        let other = Set::new(|z: u64| z == k || exists|i: int| 0 <= i < g[k].len() && #[trigger] reachable(g, g[k][i].0, z));
        assert forall|z: u64| #[trigger] subtree(g, k).contains(z) == other.contains(z) by {
            if subtree(g, k).contains(z) && z != k {
                let n = choose|n: nat| #[trigger] reach_within(g, k, z, n);
                let i = choose|i: int| 0 <= i < g[k].len() && reach_within(g, (#[trigger] g[k][i]).0, z, (n - 1) as nat);
                assert(reachable(g, g[k][i].0, z));
            }
            if other.contains(z) && z != k {
                let i = choose|i: int| 0 <= i < g[k].len() && #[trigger] reachable(g, g[k][i].0, z);
                let n = choose|n: nat| #[trigger] reach_within(g, g[k][i].0, z, n);
                assert(reach_within(g, k, z, n + 1));
            }
            if z == k {
                assert(reach_within(g, k, z, 0));
            }
        }
        assert(subtree(g, k) =~= other);
    } else {
        assert forall|z: u64| #[trigger] subtree(g, k).contains(z) == (z == k) by {
            if z == k {
                assert(reach_within(g, k, z, 0));
            }
        }
        assert(subtree(g, k) =~= set![k]);
    }
}

/// The links of `g` once `p` no longer lists `c` among its children.
pub open spec fn unlinked(g: Map<u64, Seq<NodeId>>, p: NodeId, c: NodeId) -> Map<u64, Seq<NodeId>> {
    if g.contains_key(p.0) {
        g.insert(p.0, without_child(g[p.0], c))
    } else {
        g
    }
}

/// The ids at or below the first `i` entries of `s`.
pub open spec fn covered(g: Map<u64, Seq<NodeId>>, s: Seq<NodeId>, i: int) -> Set<u64> {
    Set::new(|z: u64| exists|j: int| 0 <= j < i && #[trigger] reachable(g, s[j].0, z))
}

proof fn lemma_covered_closed(g: Map<u64, Seq<NodeId>>, s: Seq<NodeId>, i: int)
    ensures
        closed_below(g, covered(g, s, i)),
{
    let u = covered(g, s, i);
    assert forall|x: u64, z: u64| #[trigger] u.contains(x) && #[trigger] reachable(g, x, z) implies u.contains(z) by {
        let j = choose|j: int| 0 <= j < i && #[trigger] reachable(g, s[j].0, x);
        let n1 = choose|n: nat| #[trigger] reach_within(g, s[j].0, x, n);
        let n2 = choose|n: nat| #[trigger] reach_within(g, x, z, n);
        lemma_reach_trans(g, s[j].0, x, z, n1, n2);
        assert(reachable(g, s[j].0, z));
    }
}

/// Removing a set closed below, then what lies below `c` in what is left,
/// removes the same as removing the set and what lies below `c` before.
proof fn lemma_removal_union(g: Map<u64, Seq<NodeId>>, u: Set<u64>, c: u64)
    requires
        closed_below(g, u),
    ensures
        u + subtree(g.remove_keys(u), c) == u + subtree(g, c),
{
    let g2 = g.remove_keys(u);
    assert forall|z: u64| #[trigger] (u + subtree(g2, c)).contains(z) == (u + subtree(g, c)).contains(z) by {
        if subtree(g2, c).contains(z) {
            let n = choose|n: nat| #[trigger] reach_within(g2, c, z, n);
            lemma_reach_after_removal(g, u, c, z, n);
        }
        if subtree(g, c).contains(z) && !u.contains(z) {
            let n = choose|n: nat| #[trigger] reach_within(g, c, z, n);
            lemma_reach_kept(g, u, c, z, n);
        }
    }
    assert(u + subtree(g2, c) =~= u + subtree(g, c));
}

proof fn lemma_links_remove_keys<P>(m: Map<u64, ShadowNode<P>>, u: Set<u64>)
    ensures
        links(m.remove_keys(u)) == links(m).remove_keys(u),
{
    assert(links(m.remove_keys(u)) =~= links(m).remove_keys(u));
}

/// Where the native view of node `id` goes when it is mounted (see
/// `ShadowTree::mount_slot`).
pub open spec fn mount_slot_of<P>(m: Map<u64, ShadowNode<P>>, id: NodeId) -> Option<(NativeHandle, usize)> {
    if !m.contains_key(id.0) {
        None
    } else {
        match m[id.0].parent {
            None => None,
            Some(pid) => if !m.contains_key(pid.0) {
                None
            } else {
                match m[pid.0].native_handle {
                    None => None,
                    Some(h) => Some(
                        (
                            h,
                            match first_index(m[pid.0].children@, id) {
                                Some(i) => i as usize,
                                None => 0usize,
                            },
                        ),
                    ),
                }
            },
        }
    }
}

/// `rustc_hash::FxHasher`, the hasher of the map that holds the nodes.
#[verifier::external_type_specification]
#[verifier::external_body]
pub struct ExFxHasher(FxHasher);

/// std's `BuildHasherDefault`, with which `FxHashMap` builds its hashers.
#[verifier::external_type_specification]
#[verifier::external_body]
#[verifier::reject_recursive_types(H)]
pub struct ExBuildHasherDefault<H>(BuildHasherDefault<H>);

/// Calls `HashMap::insert` on an `FxHashMap`: afterwards the map sends `k` to
/// `v` and is otherwise unchanged (a `u64` key hashes the same each time and
/// equals only itself).
#[verifier::external_body]
fn fx_insert<V>(m: &mut FxHashMap<u64, V>, k: u64, v: V)
    ensures
        final(m)@ == old(m)@.insert(k, v),
{
    m.insert(k, v);
}

/// Calls `HashMap::get` on an `FxHashMap`: the value stored under `k`, if any.
#[verifier::external_body]
fn fx_get<'a, V>(m: &'a FxHashMap<u64, V>, k: u64) -> (r: Option<&'a V>)
    ensures
        match r {
            Some(v) => m@.contains_key(k) && *v == m@[k],
            None => !m@.contains_key(k),
        },
{
    m.get(&k)
}

/// Calls `HashMap::remove` on an `FxHashMap`: the entry under `k` leaves the
/// map, and its value is handed back.
#[verifier::external_body]
fn fx_remove<V>(m: &mut FxHashMap<u64, V>, k: u64) -> (r: Option<V>)
    ensures
        final(m)@ == old(m)@.remove(k),
        match r {
            Some(v) => old(m)@.contains_key(k) && v == old(m)@[k],
            None => !old(m)@.contains_key(k),
        },
{
    m.remove(&k)
}

/// Calls `HashMap::len` on an `FxHashMap`: the number of its entries.
#[verifier::external_body]
fn fx_len<V>(m: &FxHashMap<u64, V>) -> (r: usize)
    ensures
        r == m@.len(),
{
    m.len()
}

/// Calls `HashMap::keys` on an `FxHashMap` and collects them: each key once,
/// in the map's own order.
#[verifier::external_body]
fn fx_keys<V>(m: &FxHashMap<u64, V>) -> (r: Vec<u64>)
    ensures
        r@.no_duplicates(),
        r@.to_set() == m@.dom(),
{
    m.keys().copied().collect()
}

/// The shadow tree: owns all nodes, each under its id.
pub struct ShadowTree<P> {
    nodes: FxHashMap<u64, ShadowNode<P>>,
    root: Option<NodeId>,
}

impl<P> ShadowTree<P> {
    /// The nodes, by the number of their id.
    pub closed spec fn nodes(&self) -> Map<u64, ShadowNode<P>> {
        self.nodes@
    }

    pub closed spec fn root_id(&self) -> Option<NodeId> {
        self.root
    }

    /// Every node is stored under its own id.
    pub closed spec fn wf(&self) -> bool {
        &&& self.nodes@.dom().finite()
        &&& forall|k: u64| #[trigger] self.nodes@.contains_key(k) ==> self.nodes@[k].id.0 == k
    }

    pub fn new() -> (r: Self)
        ensures
            r.wf(),
            r.nodes() == Map::<u64, ShadowNode<P>>::empty(),
            r.root_id() is None,
    {
        ShadowTree { nodes: FxHashMap::default(), root: None }
    }

    /// Create a node that belongs to no parent yet; a node with the same id is
    /// replaced. Use `append_child` or `insert_before` to link it.
    pub fn create_node(&mut self, id: NodeId, view_type: ViewType, data: P)
        requires
            old(self).wf(),
        ensures
            final(self).wf(),
            final(self).root_id() == old(self).root_id(),
            final(self).nodes().dom() == old(self).nodes().dom().insert(id.0),
            forall|k: u64| #[trigger] old(self).nodes().contains_key(k) && k != id.0 ==> final(self).nodes()[k] == old(self).nodes()[k],
            ({
                let n = final(self).nodes()[id.0];
                &&& n.id == id
                &&& n.view_type == view_type
                &&& n.parent is None
                &&& n.children@ == Seq::<NodeId>::empty()
                &&& n.native_handle is None
                &&& n.component_name is None
                &&& n.data == data
            }),
    {
        let node = ShadowNode {
            id,
            view_type,
            parent: None,
            children: Vec::new(),
            native_handle: None,
            component_name: None,
            data,
        };
        fx_insert(&mut self.nodes, id.0, node);
    }

    /// Set the root node of the tree.
    pub fn set_root(&mut self, id: NodeId)
        ensures
            final(self).root_id() == Some(id),
            final(self).nodes() == old(self).nodes(),
            final(self).wf() == old(self).wf(),
    {
        self.root = Some(id);
    }

    /// The root node's id.
    pub fn root(&self) -> (r: Option<NodeId>)
        ensures
            r == self.root_id(),
    {
        self.root
    }

    /// The node with this id.
    pub fn get(&self, id: NodeId) -> (r: Option<&ShadowNode<P>>)
        ensures
            match r {
                Some(n) => self.nodes().contains_key(id.0) && *n == self.nodes()[id.0],
                None => !self.nodes().contains_key(id.0),
            },
    {
        fx_get(&self.nodes, id.0)
    }

    /// Total number of nodes in the tree.
    pub fn len(&self) -> (r: usize)
        ensures
            r == self.nodes().len(),
    {
        fx_len(&self.nodes)
    }

    pub fn is_empty(&self) -> (r: bool)
        ensures
            r == (self.nodes().len() == 0),
    {
        fx_len(&self.nodes) == 0
    }

    /// Replace the data of a node, handing back what it held; a missing node
    /// is left missing.
    pub fn replace_data(&mut self, id: NodeId, data: P) -> (r: Option<P>)
        requires
            old(self).wf(),
        ensures
            final(self).wf(),
            final(self).root_id() == old(self).root_id(),
            final(self).nodes().dom() == old(self).nodes().dom(),
            forall|k: u64| #[trigger] old(self).nodes().contains_key(k) && k != id.0 ==> final(self).nodes()[k] == old(self).nodes()[k],
            old(self).nodes().contains_key(id.0) ==> {
                let (a, b) = (old(self).nodes()[id.0], final(self).nodes()[id.0]);
                &&& r == Some(a.data)
                &&& b == (ShadowNode { data, ..a })
            },
            !old(self).nodes().contains_key(id.0) ==> r is None,
    {
        match fx_remove(&mut self.nodes, id.0) {
            Some(node) => {
                let ShadowNode { id: nid, view_type, parent, children, native_handle, component_name, data: old_data } = node;
                fx_insert(&mut self.nodes, id.0, ShadowNode { id: nid, view_type, parent, children, native_handle, component_name, data });
                Some(old_data)
            },
            None => None,
        }
    }

    /// Set the native handle of a node (after the platform bridge created its view).
    pub fn set_native_handle(&mut self, id: NodeId, handle: NativeHandle)
        requires
            old(self).wf(),
        ensures
            final(self).wf(),
            final(self).root_id() == old(self).root_id(),
            final(self).nodes().dom() == old(self).nodes().dom(),
            forall|k: u64| #[trigger] old(self).nodes().contains_key(k) && k != id.0 ==> final(self).nodes()[k] == old(self).nodes()[k],
            old(self).nodes().contains_key(id.0) ==> final(self).nodes()[id.0] == (ShadowNode {
                native_handle: Some(handle),
                ..old(self).nodes()[id.0]
            }),
    {
        match fx_remove(&mut self.nodes, id.0) {
            Some(mut node) => {
                node.native_handle = Some(handle);
                fx_insert(&mut self.nodes, id.0, node);
            },
            None => {},
        }
    }

    /// Set the component name of a node (for DevTools).
    pub fn set_component_name(&mut self, id: NodeId, name: Option<String>)
        requires
            old(self).wf(),
        ensures
            final(self).wf(),
            final(self).root_id() == old(self).root_id(),
            final(self).nodes().dom() == old(self).nodes().dom(),
            forall|k: u64| #[trigger] old(self).nodes().contains_key(k) && k != id.0 ==> final(self).nodes()[k] == old(self).nodes()[k],
            old(self).nodes().contains_key(id.0) ==> final(self).nodes()[id.0] == (ShadowNode {
                component_name: name,
                ..old(self).nodes()[id.0]
            }),
    {
        match fx_remove(&mut self.nodes, id.0) {
            Some(mut node) => {
                node.component_name = name;
                fx_insert(&mut self.nodes, id.0, node);
            },
            None => {},
        }
    }

    /// The ordered children of a node (none for a missing node).
    pub fn children_of(&self, id: NodeId) -> (r: &[NodeId])
        ensures
            r@ == if self.nodes().contains_key(id.0) {
                self.nodes()[id.0].children@
            } else {
                Seq::<NodeId>::empty()
            },
    {
        match fx_get(&self.nodes, id.0) {
            Some(n) => n.children.as_slice(),
            None => &[],
        }
    }

    /// Link `child_id` under `parent_id`: the child records its parent, and
    /// the parent lists the child last unless it lists it already. A missing
    /// node is skipped.
    pub fn append_child(&mut self, parent_id: NodeId, child_id: NodeId)
        requires
            old(self).wf(),
        ensures
            final(self).wf(),
            final(self).root_id() == old(self).root_id(),
            final(self).nodes().dom() == old(self).nodes().dom(),
            forall|k: u64| #[trigger] old(self).nodes().contains_key(k) ==> relinked(
                old(self).nodes()[k],
                final(self).nodes()[k],
                if k == child_id.0 { Some(parent_id) } else { old(self).nodes()[k].parent },
                if k == parent_id.0 {
                    with_child(old(self).nodes()[k].children@, child_id)
                } else {
                    old(self).nodes()[k].children@
                },
            ),
    {
        match fx_remove(&mut self.nodes, child_id.0) {
            Some(mut child) => {
                child.parent = Some(parent_id);
                fx_insert(&mut self.nodes, child_id.0, child);
            },
            None => {},
        }
        match fx_remove(&mut self.nodes, parent_id.0) {
            Some(mut parent) => {
                if !contains_id(&parent.children, child_id) {
                    parent.children.push(child_id);
                }
                fx_insert(&mut self.nodes, parent_id.0, parent);
            },
            None => {},
        }
    }

    /// Link `child_id` under `parent_id` before `before_id` in the parent's
    /// children (last when `before_id` is not among them). A missing node is
    /// skipped.
    pub fn insert_before(&mut self, parent_id: NodeId, child_id: NodeId, before_id: NodeId)
        requires
            old(self).wf(),
            old(self).nodes().contains_key(parent_id.0) ==> old(self).nodes()[parent_id.0].children@.len() < usize::MAX,
        ensures
            final(self).wf(),
            final(self).root_id() == old(self).root_id(),
            final(self).nodes().dom() == old(self).nodes().dom(),
            forall|k: u64| #[trigger] old(self).nodes().contains_key(k) ==> relinked(
                old(self).nodes()[k],
                final(self).nodes()[k],
                if k == child_id.0 { Some(parent_id) } else { old(self).nodes()[k].parent },
                if k == parent_id.0 {
                    with_child_before(old(self).nodes()[k].children@, child_id, before_id)
                } else {
                    old(self).nodes()[k].children@
                },
            ),
    {
        match fx_remove(&mut self.nodes, child_id.0) {
            Some(mut child) => {
                child.parent = Some(parent_id);
                fx_insert(&mut self.nodes, child_id.0, child);
            },
            None => {},
        }
        match fx_remove(&mut self.nodes, parent_id.0) {
            Some(mut parent) => {
                match position_of(&parent.children, before_id) {
                    Some(pos) => {
                        parent.children.insert(pos, child_id);
                    },
                    None => {
                        parent.children.push(child_id);
                    },
                }
                fx_insert(&mut self.nodes, parent_id.0, parent);
            },
            None => {},
        }
    }

    /// The ids from the top down to `id`: its farthest ancestor first, `id`
    /// last. The walk follows parents until a node has none.
    pub fn ancestors(&self, id: NodeId) -> (r: Vec<NodeId>)
        requires
            exists|n: nat| reaches_top(self.nodes(), id.0, n),
        ensures
            forall|n: nat| #[trigger] reaches_top(self.nodes(), id.0, n) ==> r@ == path_to(self.nodes(), id.0, n),
    {
        let ghost m = self.nodes();
        let ghost n0 = choose|n: nat| reaches_top(m, id.0, n);
        let mut up: Vec<NodeId> = Vec::new();
        let mut current = id;
        let ghost mut fuel: nat = n0;
        loop
            invariant_except_break
                m == self.nodes(),
                reaches_top(m, current.0, fuel),
                path_to(m, id.0, n0) == path_to(m, current.0, fuel) + up@.reverse(),
            ensures
                path_to(m, id.0, n0) == up@.reverse(),
            decreases fuel,
        {
            let ghost before = up@;
            up.push(current);
            proof {
                assert(up@.reverse() =~= seq![current] + before.reverse());
            }
            let next = match fx_get(&self.nodes, current.0) {
                Some(node) => node.parent,
                None => None,
            };
            match next {
                Some(p) => {
                    proof {
                        assert(parent_in(m, current.0) == Some(p));
                        assert(path_to(m, current.0, fuel) == path_to(m, p.0, (fuel - 1) as nat).push(NodeId(current.0)));
                        assert(NodeId(current.0) == current);
                        assert(path_to(m, p.0, (fuel - 1) as nat).push(current) + before.reverse() =~= path_to(
                            m,
                            p.0,
                            (fuel - 1) as nat,
                        ) + up@.reverse());
                        fuel = (fuel - 1) as nat;
                    }
                    current = p;
                },
                None => {
                    proof {
                        assert(parent_in(m, current.0) is None);
                        assert(path_to(m, current.0, fuel) == seq![NodeId(current.0)]);
                        assert(NodeId(current.0) == current);
                    }
                    break;
                },
            }
        }
        let mut r: Vec<NodeId> = Vec::new();
        let mut i: usize = up.len();
        while i > 0
            invariant
                i <= up@.len(),
                r@ == up@.reverse().take(up@.len() - i),
            decreases i,
        {
            i = i - 1;
            r.push(up[i]);
            assert(up@.reverse().take(up@.len() - i) =~= up@.reverse().take(up@.len() - i - 1).push(up@[i as int]));
        }
        assert(up@.reverse().take(up@.len() as int) =~= up@.reverse());
        proof {
            assert forall|n: nat| #[trigger] reaches_top(m, id.0, n) implies r@ == path_to(m, id.0, n) by {
                if n <= n0 {
                    lemma_path_to_stable(m, id.0, n, n0);
                } else {
                    lemma_path_to_stable(m, id.0, n0, n);
                }
            }
        }
        r
    }

    /// Remove `id` and every node below it.
    fn remove_subtree(&mut self, id: NodeId, Ghost(h): Ghost<nat>)
        requires
            old(self).wf(),
            depth_within(links(old(self).nodes()), id.0, h),
        ensures
            final(self).wf(),
            final(self).root_id() == old(self).root_id(),
            final(self).nodes() == old(self).nodes().remove_keys(subtree(links(old(self).nodes()), id.0)),
        decreases h,
    {
        let ghost m = self.nodes@;
        let ghost g = links(m);
        let children: Vec<NodeId> = match fx_get(&self.nodes, id.0) {
            Some(n) => copy_ids(&n.children),
            None => Vec::new(),
        };
        assert(children@ == if g.contains_key(id.0) { g[id.0] } else { Seq::<NodeId>::empty() });
        let mut i: usize = 0;
        assert(m.remove_keys(covered(g, children@, 0)) =~= m);
        while i < children.len()
            invariant
                i <= children@.len(),
                m == old(self).nodes(),
                g == links(m),
                m.dom().finite(),
                forall|k: u64| #[trigger] m.contains_key(k) ==> m[k].id.0 == k,
                children@ == if g.contains_key(id.0) { g[id.0] } else { Seq::<NodeId>::empty() },
                depth_within(g, id.0, h),
                self.nodes@ == m.remove_keys(covered(g, children@, i as int)),
                self.root == old(self).root,
            decreases children@.len() - i,
        {
            let ghost u = covered(g, children@, i as int);
            let c = children[i];
            proof {
                assert(g.contains_key(id.0));
                assert(g[id.0][i as int] == c);
                assert(depth_within(g, c.0, (h - 1) as nat));
                lemma_links_remove_keys(m, u);
                lemma_depth_after_removal(g, u, c.0, (h - 1) as nat);
                assert(self.nodes@.dom() =~= m.dom().difference(u));
            }
            self.remove_subtree(c, Ghost((h - 1) as nat));
            proof {
                lemma_covered_closed(g, children@, i as int);
                lemma_removal_union(g, u, c.0);
                let u2 = covered(g, children@, i + 1);
                assert forall|z: u64| #[trigger] u2.contains(z) == (u + subtree(g, c.0)).contains(z) by {
                    if u2.contains(z) {
                        let j = choose|j: int| 0 <= j < i + 1 && #[trigger] reachable(g, children@[j].0, z);
                        if j < i {
                            assert(u.contains(z));
                        }
                    }
                    if u.contains(z) {
                        let j = choose|j: int| 0 <= j < i && #[trigger] reachable(g, children@[j].0, z);
                        assert(reachable(g, children@[j].0, z));
                    }
                    if subtree(g, c.0).contains(z) {
                        assert(reachable(g, children@[i as int].0, z));
                    }
                }
                assert(u2 =~= u + subtree(g, c.0));
                assert(self.nodes@ =~= m.remove_keys(u2));
            }
            i = i + 1;
        }
        fx_remove(&mut self.nodes, id.0);
        proof {
            let u = covered(g, children@, children@.len() as int);
            lemma_subtree_unfold(g, id.0);
            assert forall|z: u64| #[trigger] subtree(g, id.0).contains(z) == (u + set![id.0]).contains(z) by {
                if g.contains_key(id.0) {
                    if u.contains(z) {
                        let j = choose|j: int| 0 <= j < children@.len() && #[trigger] reachable(g, children@[j].0, z);
                        assert(reachable(g, g[id.0][j].0, z));
                    }
                    if z != id.0 && subtree(g, id.0).contains(z) {
                        let j = choose|j: int| 0 <= j < g[id.0].len() && #[trigger] reachable(g, g[id.0][j].0, z);
                        assert(reachable(g, children@[j].0, z));
                    }
                }
            }
            assert(subtree(g, id.0) =~= u + set![id.0]);
            assert(self.nodes@ =~= m.remove_keys(subtree(g, id.0)));
            assert(self.nodes@.dom() =~= m.dom().difference(subtree(g, id.0)));
        }
    }

    /// Remove `child_id` from the children of `parent_id`, then remove the child
    /// and every node below it from the tree.
    pub fn remove_child(&mut self, parent_id: NodeId, child_id: NodeId)
        requires
            old(self).wf(),
            exists|h: nat| depth_within(unlinked(links(old(self).nodes()), parent_id, child_id), child_id.0, h),
        ensures
            final(self).wf(),
            final(self).root_id() == old(self).root_id(),
            final(self).nodes().dom() == old(self).nodes().dom() - subtree(
                unlinked(links(old(self).nodes()), parent_id, child_id),
                child_id.0,
            ),
            forall|k: u64| #[trigger] final(self).nodes().contains_key(k) ==> relinked(
                old(self).nodes()[k],
                final(self).nodes()[k],
                old(self).nodes()[k].parent,
                if k == parent_id.0 {
                    without_child(old(self).nodes()[k].children@, child_id)
                } else {
                    old(self).nodes()[k].children@
                },
            ),
    {
        let ghost m0 = self.nodes@;
        match fx_remove(&mut self.nodes, parent_id.0) {
            Some(mut parent) => {
                parent.children = copy_ids_except(&parent.children, child_id);
                fx_insert(&mut self.nodes, parent_id.0, parent);
            },
            None => {},
        }
        let ghost m1 = self.nodes@;
        proof {
            assert(links(m1) =~= unlinked(links(m0), parent_id, child_id));
        }
        let ghost h = choose|h: nat| depth_within(unlinked(links(m0), parent_id, child_id), child_id.0, h);
        self.remove_subtree(child_id, Ghost(h));
        proof {
            assert(self.nodes@.dom() =~= m0.dom() - subtree(unlinked(links(m0), parent_id, child_id), child_id.0));
        }
    }

    /// Whether following parents up from `id` ends within as many steps as
    /// there are nodes, so that `ancestors` may be asked for it (a false answer
    /// means the parents form a loop).
    pub fn parent_chain_ends(&self, id: NodeId) -> (r: bool)
        requires
            self.wf(),
        ensures
            r == reaches_top(self.nodes(), id.0, self.nodes().len() + 1),
            r == exists|n: nat| reaches_top(self.nodes(), id.0, n),
    {
        let ghost m = self.nodes();
        let limit = fx_len(&self.nodes);
        let mut steps: usize = 0;
        let mut current = id;
        while steps <= limit
            invariant
                m == self.nodes(),
                m.dom().finite(),
                steps <= limit,
                limit == self.nodes@.len(),
                forall|n: nat| #[trigger] reaches_top(m, current.0, n) ==> reaches_top(m, id.0, (n + steps) as nat),
                reaches_top(m, id.0, (limit + 1) as nat) == reaches_top(m, current.0, (limit + 1 - steps) as nat),
            decreases limit + 1 - steps,
        {
            let next = match fx_get(&self.nodes, current.0) {
                Some(node) => node.parent,
                None => None,
            };
            match next {
                None => {
                    assert(reaches_top(m, current.0, 1));
                    assert(reaches_top(m, id.0, (1 + steps) as nat));
                    return true;
                },
                Some(p) => {
                    proof {
                        assert(parent_in(m, current.0) == Some(p));
                        assert(reaches_top(m, current.0, (limit + 1 - steps) as nat) == reaches_top(m, p.0, (limit - steps) as nat));
                        assert(reaches_top(m, current.0, (limit + 1 - steps) as nat) == reaches_top(m, p.0, (limit - steps) as nat));
                        assert forall|n: nat| #[trigger] reaches_top(m, p.0, n) implies reaches_top(m, id.0, (n + (steps + 1)) as nat) by {
                            assert(reaches_top(m, current.0, n + 1));
                        }
                    }
                    current = p;
                    if steps == limit {
                        proof {
                            assert forall|n: nat| !#[trigger] reaches_top(m, id.0, n) by {
                                if reaches_top(m, id.0, n) {
                                    lemma_parent_chain_bound(m, id.0, n);
                                }
                            }
                        }
                        return false;
                    }
                    steps = steps + 1;
                },
            }
        }
        false
    }

    /// Whether every walk down from `k` (with `p` no longer listing `c`) ends
    /// within `h` steps.
    fn depth_ok(&self, k: NodeId, h: u64, p: NodeId, c: NodeId) -> (r: bool)
        ensures
            r == depth_within(unlinked(links(self.nodes()), p, c), k.0, h as nat),
        decreases h,
    {
        let ghost g = unlinked(links(self.nodes()), p, c);
        match fx_get(&self.nodes, k.0) {
            None => {
                assert(!g.contains_key(k.0));
                true
            },
            Some(node) => {
                if h == 0 {
                    return false;
                }
                let children = if k.0 == p.0 {
                    copy_ids_except(&node.children, c)
                } else {
                    copy_ids(&node.children)
                };
                assert(children@ == g[k.0]);
                let mut i: usize = 0;
                while i < children.len()
                    invariant
                        i <= children@.len(),
                        h > 0,
                        g == unlinked(links(self.nodes()), p, c),
                        g.contains_key(k.0),
                        children@ == g[k.0],
                        forall|j: int| 0 <= j < i ==> depth_within(g, (#[trigger] g[k.0][j]).0, (h - 1) as nat),
                    decreases children@.len() - i,
                {
                    if !self.depth_ok(children[i], h - 1, p, c) {
                        assert(!depth_within(g, g[k.0][i as int].0, (h - 1) as nat));
                        return false;
                    }
                    assert(g[k.0][i as int] == children@[i as int]);
                    i = i + 1;
                }
                true
            },
        }
    }

    /// Where the native view of node `id` goes when it is mounted: the native
    /// view of its parent, and its place among the parent's children (the
    /// first, when the parent does not list it). None when the node, its
    /// parent or the parent's native view is missing.
    pub fn mount_slot(&self, id: NodeId) -> (r: Option<(NativeHandle, usize)>)
        ensures
            r == mount_slot_of(self.nodes(), id),
    {
        match fx_get(&self.nodes, id.0) {
            None => None,
            Some(node) => match node.parent {
                None => None,
                Some(pid) => match fx_get(&self.nodes, pid.0) {
                    None => None,
                    Some(parent) => match parent.native_handle {
                        None => None,
                        Some(h) => {
                            let index = match position_of(&parent.children, id) {
                                Some(i) => i,
                                None => 0,
                            };
                            Some((h, index))
                        },
                    },
                },
            },
        }
    }

    /// Whether every walk down the children links from `k` ends within `h`
    /// steps (a false answer means some walk is longer, or never ends).
    pub fn walks_end_within(&self, k: NodeId, h: u64) -> (r: bool)
        ensures
            r == depth_within(links(self.nodes()), k.0, h as nat),
        decreases h,
    {
        let ghost g = links(self.nodes());
        match fx_get(&self.nodes, k.0) {
            None => {
                assert(!g.contains_key(k.0));
                true
            },
            Some(node) => {
                if h == 0 {
                    return false;
                }
                assert(node.children@ == g[k.0]);
                let mut i: usize = 0;
                while i < node.children.len()
                    invariant
                        i <= node.children@.len(),
                        h > 0,
                        g == links(self.nodes()),
                        g.contains_key(k.0),
                        node.children@ == g[k.0],
                        forall|j: int| 0 <= j < i ==> depth_within(g, (#[trigger] g[k.0][j]).0, (h - 1) as nat),
                    decreases node.children@.len() - i,
                {
                    if !self.walks_end_within(node.children[i], h - 1) {
                        assert(!depth_within(g, g[k.0][i as int].0, (h - 1) as nat));
                        return false;
                    }
                    assert(g[k.0][i as int] == node.children@[i as int]);
                    i = i + 1;
                }
                true
            },
        }
    }

    /// Whether removing `child_id` from under `parent_id` comes to an end, so
    /// that `remove_child` may be asked for it: a false answer means the nodes
    /// below the child link back to it, or that the tree holds `u64::MAX`
    /// nodes.
    pub fn can_remove_child(&self, parent_id: NodeId, child_id: NodeId) -> (r: bool)
        requires
            self.wf(),
        ensures
            r == (self.nodes().len() < u64::MAX && depth_within(
                unlinked(links(self.nodes()), parent_id, child_id),
                child_id.0,
                self.nodes().len() + 1,
            )),
            r == (self.nodes().len() < u64::MAX && exists|h: nat|
                depth_within(unlinked(links(self.nodes()), parent_id, child_id), child_id.0, h)),
    {
        let n = fx_len(&self.nodes);
        let ghost g = unlinked(links(self.nodes()), parent_id, child_id);
        proof {
            assert(g.dom() =~= self.nodes().dom());
            assert forall|h: nat| #[trigger] depth_within(g, child_id.0, h) implies depth_within(
                g,
                child_id.0,
                self.nodes().len() + 1,
            ) by {
                lemma_depth_bound(g, child_id.0, h);
            }
        }
        if n as u64 == u64::MAX {
            return false;
        }
        let h = n as u64 + 1;
        self.depth_ok(child_id, h, parent_id, child_id)
    }

    /// The ids of all nodes, each once (in no particular order).
    pub fn node_ids(&self) -> (r: Vec<NodeId>)
        ensures
            r@.no_duplicates(),
            forall|k: u64| #[trigger] self.nodes().contains_key(k) <==> r@.contains(NodeId(k)),
    {
        let keys = fx_keys(&self.nodes);
        let mut r: Vec<NodeId> = Vec::new();
        let mut i: usize = 0;
        while i < keys.len()
            invariant
                i <= keys@.len(),
                r@.len() == i,
                forall|j: int| 0 <= j < i ==> r@[j] == NodeId(keys@[j]),
            decreases keys@.len() - i,
        {
            r.push(NodeId(keys[i]));
            i = i + 1;
        }
        proof {
            assert forall|a: int, b: int| 0 <= a < r@.len() && 0 <= b < r@.len() && a != b implies r@[a] != r@[b] by {
                assert(keys@[a] != keys@[b]);
            }
            assert forall|k: u64| #[trigger] self.nodes().contains_key(k) <==> r@.contains(NodeId(k)) by {
                if self.nodes().contains_key(k) {
                    assert(keys@.to_set().contains(k));
                    let j = choose|j: int| 0 <= j < keys@.len() && keys@[j] == k;
                    assert(r@[j] == NodeId(k));
                }
                if r@.contains(NodeId(k)) {
                    let j = choose|j: int| 0 <= j < r@.len() && r@[j] == NodeId(k);
                    assert(keys@[j] == k);
                    assert(keys@.to_set().contains(k));
                }
            }
        }
        r
    }
}

/// A copy of `v`.
fn copy_ids(v: &Vec<NodeId>) -> (r: Vec<NodeId>)
    ensures
        r@ == v@,
{
    let mut r: Vec<NodeId> = Vec::new();
    let mut i: usize = 0;
    while i < v.len()
        invariant
            i <= v@.len(),
            r@ == v@.take(i as int),
        decreases v@.len() - i,
    {
        r.push(v[i]);
        assert(r@ =~= v@.take(i + 1));
        i = i + 1;
    }
    assert(v@.take(v@.len() as int) =~= v@);
    r
}

/// A copy of `v` without any `x`.
fn copy_ids_except(v: &Vec<NodeId>, x: NodeId) -> (r: Vec<NodeId>)
    ensures
        r@ == without_child(v@, x),
{
    let mut r: Vec<NodeId> = Vec::new();
    let mut i: usize = 0;
    while i < v.len()
        invariant
            i <= v@.len(),
            r@ == without_child(v@.take(i as int), x),
        decreases v@.len() - i,
    {
        assert(v@.take(i + 1).drop_last() =~= v@.take(i as int));
        if v[i] != x {
            r.push(v[i]);
        }
        i = i + 1;
    }
    assert(v@.take(v@.len() as int) =~= v@);
    r
}

/// Whether `v` holds `x`.
pub fn contains_id(v: &Vec<NodeId>, x: NodeId) -> (r: bool)
    ensures
        r == v@.contains(x),
{
    let mut i: usize = 0;
    while i < v.len()
        invariant
            i <= v@.len(),
            forall|j: int| 0 <= j < i ==> v@[j] != x,
        decreases v@.len() - i,
    {
        if v[i] == x {
            return true;
        }
        i = i + 1;
    }
    false
}

} // verus!

verus! {

/// A node of `s` has a first position: some position holds it and no earlier
/// one does.
proof fn lemma_first_index_found(s: Seq<NodeId>, x: NodeId, k: int)
    requires
        0 <= k < s.len(),
        s[k] == x,
    ensures
        first_index(s, x) matches Some(i) && is_first_index(s, x, i),
    decreases k,
{
    if exists|j: int| 0 <= j < k && s[j] == x {
        let j = choose|j: int| 0 <= j < k && s[j] == x;
        lemma_first_index_found(s, x, j);
    } else {
        lemma_first_index_is(s, x, k);
    }
}

/// Where a node mounts: in its parent's native view, at its own position among
/// the parent's children (its first one), or at 0 when the parent does not
/// list it. There is a slot exactly when the node and its parent are there
/// and the parent has a native view.
pub proof fn lemma_mount_slot_position<P>(m: Map<u64, ShadowNode<P>>, id: NodeId)
    ensures
        ({
            let p = m[id.0].parent->0;
            (mount_slot_of(m, id) is Some) == (m.contains_key(id.0) && m[id.0].parent is Some && m.contains_key(p.0)
                && m[p.0].native_handle is Some)
        }),
        mount_slot_of(m, id) matches Some((h, i)) ==> {
            let p = m[id.0].parent->0;
            let children = m[p.0].children@;
            &&& m[p.0].native_handle == Some(h)
            &&& children.contains(id) ==> {
                &&& i < children.len()
                &&& children[i as int] == id
                &&& forall|j: int| 0 <= j < i ==> children[j] != id
            }
            &&& !children.contains(id) ==> i == 0
        },
{
    if m.contains_key(id.0) && m[id.0].parent is Some {
        let p = m[id.0].parent->0;
        if m.contains_key(p.0) {
            let children = m[p.0].children@;
            assert(m[p.0].children.len() == children.len());
            if children.contains(id) {
                let k = choose|k: int| 0 <= k < children.len() && children[k] == id;
                lemma_first_index_found(children, id, k);
            } else {
                if first_index(children, id) is Some {
                    let i = choose|i: int| is_first_index(children, id, i);
                    assert(children[i] == id);
                }
            }
        }
    }
}

/// The walk up from a node: it ends at the node itself, starts at a node
/// without a parent, and each entry is the recorded parent of the next.
pub proof fn lemma_ancestor_path<P>(m: Map<u64, ShadowNode<P>>, k: u64, n: nat)
    requires
        reaches_top(m, k, n),
    ensures
        path_to(m, k, n).len() >= 1,
        path_to(m, k, n).last() == NodeId(k),
        parent_in(m, path_to(m, k, n)[0].0) is None,
        forall|i: int|
            0 <= i < path_to(m, k, n).len() - 1 ==> parent_in(m, (#[trigger] path_to(m, k, n)[i + 1]).0) == Some(
                path_to(m, k, n)[i],
            ),
    decreases n,
{
    match parent_in(m, k) {
        None => {},
        Some(p) => {
            lemma_ancestor_path(m, p.0, (n - 1) as nat);
            let prev = path_to(m, p.0, (n - 1) as nat);
            let path = path_to(m, k, n);
            assert(path == prev.push(NodeId(k)));
            assert forall|i: int| 0 <= i < path.len() - 1 implies parent_in(m, (#[trigger] path[i + 1]).0) == Some(
                path[i],
            ) by {
                if i + 1 < prev.len() {
                    assert(path[i + 1] == prev[i + 1]);
                    assert(path[i] == prev[i]);
                } else {
                    assert(path[i] == prev.last());
                }
            }
        },
    }
}

/// After `append_child`, a child that exists names the parent, and a parent
/// that exists lists the child exactly as often as before, or once if it did
/// not list it yet.
pub proof fn lemma_append_links_both_ways<P>(
    pre: Map<u64, ShadowNode<P>>,
    post: Map<u64, ShadowNode<P>>,
    parent_id: NodeId,
    child_id: NodeId,
)
    requires
        post.dom() == pre.dom(),
        forall|k: u64| #[trigger] pre.contains_key(k) ==> relinked(
            pre[k],
            post[k],
            if k == child_id.0 { Some(parent_id) } else { pre[k].parent },
            if k == parent_id.0 { with_child(pre[k].children@, child_id) } else { pre[k].children@ },
        ),
    ensures
        pre.contains_key(child_id.0) ==> post[child_id.0].parent == Some(parent_id),
        pre.contains_key(parent_id.0) ==> post[parent_id.0].children@.contains(child_id),
        pre.contains_key(parent_id.0) && pre[parent_id.0].children@.contains(child_id) ==> post[parent_id.0].children@
            == pre[parent_id.0].children@,
{
    if pre.contains_key(parent_id.0) {
        let s = pre[parent_id.0].children@;
        if !s.contains(child_id) {
            assert(s.push(child_id)[s.len() as int] == child_id);
        }
    }
}

/// Removing a child takes away the child and everything below it, and keeps
/// every other node.
pub proof fn lemma_remove_child_takes_subtree<P>(
    pre: Map<u64, ShadowNode<P>>,
    post: Map<u64, ShadowNode<P>>,
    parent_id: NodeId,
    child_id: NodeId,
    k: u64,
)
    requires
        post.dom() == pre.dom() - subtree(unlinked(links(pre), parent_id, child_id), child_id.0),
    ensures
        !post.contains_key(child_id.0),
        reachable(unlinked(links(pre), parent_id, child_id), child_id.0, k) ==> !post.contains_key(k),
        pre.contains_key(k) && !reachable(unlinked(links(pre), parent_id, child_id), child_id.0, k)
            ==> post.contains_key(k),
{
    assert(reach_within(unlinked(links(pre), parent_id, child_id), child_id.0, child_id.0, 0));
}

} // verus!

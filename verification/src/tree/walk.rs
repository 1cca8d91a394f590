//! Walking down a shadow tree in pre-order: what each node contributes, a
//! parent before its children and the children in their order.

use vstd::prelude::*;
use crate::tree::{depth_within, links, NodeId, ShadowNode};

verus! {

/// What the walk from node `k`, found at `depth` below where the walk began,
/// collects within `h` steps, where `f` says what one node at a given depth
/// contributes. Missing nodes contribute nothing.
pub open spec fn collect<P, T>(
    m: Map<u64, ShadowNode<P>>,
    k: u64,
    depth: nat,
    h: nat,
    f: spec_fn(u64, nat) -> Seq<T>,
) -> Seq<T>
    decreases h, 0nat,
{
    if h == 0 || !m.contains_key(k) {
        Seq::empty()
    } else {
        f(k, depth) + collect_list(m, m[k].children@, depth + 1, (h - 1) as nat, f)
    }
}

/// What the walks from each of the nodes `cs`, in order, collect.
pub open spec fn collect_list<P, T>(
    m: Map<u64, ShadowNode<P>>,
    cs: Seq<NodeId>,
    depth: nat,
    h: nat,
    f: spec_fn(u64, nat) -> Seq<T>,
) -> Seq<T>
    decreases h, cs.len(),
{
    if cs.len() == 0 {
        Seq::empty()
    } else {
        collect_list(m, cs.drop_last(), depth, h, f) + collect(m, cs.last().0, depth, h, f)
    }
}

/// Walking one more of the nodes adds what its walk collects.
pub proof fn lemma_collect_list_step<P, T>(
    m: Map<u64, ShadowNode<P>>,
    cs: Seq<NodeId>,
    i: int,
    depth: nat,
    h: nat,
    f: spec_fn(u64, nat) -> Seq<T>,
)
    requires
        0 <= i < cs.len(),
    ensures
        collect_list(m, cs.take(i + 1), depth, h, f) == collect_list(m, cs.take(i), depth, h, f) + collect(
            m,
            cs[i].0,
            depth,
            h,
            f,
        ),
{
    assert(cs.take(i + 1).drop_last() =~= cs.take(i));
    assert(cs.take(i + 1).last() == cs[i]);
}

/// Once every walk down from `k` ends within `h1` steps, more fuel collects
/// the same: what a walk collects does not depend on how much fuel it was
/// given, as long as it was enough.
pub proof fn lemma_collect_fuel<P, T>(
    m: Map<u64, ShadowNode<P>>,
    k: u64,
    depth: nat,
    h1: nat,
    h2: nat,
    f: spec_fn(u64, nat) -> Seq<T>,
)
    requires
        depth_within(links(m), k, h1),
        h1 <= h2,
    ensures
        collect(m, k, depth, h1, f) == collect(m, k, depth, h2, f),
    decreases h1, 0nat,
{
    if m.contains_key(k) {
        let cs = m[k].children@;
        assert(links(m)[k] == cs);
        assert forall|i: int| 0 <= i < cs.len() implies depth_within(links(m), (#[trigger] cs[i]).0, (h1 - 1) as nat) by {
            assert(links(m)[k][i] == cs[i]);
        }
        lemma_collect_list_fuel(m, cs, depth + 1, (h1 - 1) as nat, (h2 - 1) as nat, f);
    }
}

proof fn lemma_collect_list_fuel<P, T>(
    m: Map<u64, ShadowNode<P>>,
    cs: Seq<NodeId>,
    depth: nat,
    h1: nat,
    h2: nat,
    f: spec_fn(u64, nat) -> Seq<T>,
)
    requires
        forall|i: int| 0 <= i < cs.len() ==> depth_within(links(m), (#[trigger] cs[i]).0, h1),
        h1 <= h2,
    ensures
        collect_list(m, cs, depth, h1, f) == collect_list(m, cs, depth, h2, f),
    decreases h1, cs.len(),
{
    if cs.len() > 0 {
        assert forall|i: int| 0 <= i < cs.drop_last().len() implies depth_within(
            links(m),
            (#[trigger] cs.drop_last()[i]).0,
            h1,
        ) by {
            assert(cs.drop_last()[i] == cs[i]);
        }
        lemma_collect_list_fuel(m, cs.drop_last(), depth, h1, h2, f);
        assert(cs.last() == cs[cs.len() - 1]);
        lemma_collect_fuel(m, cs.last().0, depth, h1, h2, f);
    }
}

} // verus!
